//! A byte-weighted LRU cache with per-entry expiry.
//!
//! Entries carry a weight in bytes and an optional expiration timepoint. A
//! lookup of an expired entry evicts it and reports a miss; a hit promotes
//! the entry to most-recently-used. Admission first evicts least-recently-used
//! entries until the accounted size is back within capacity, then inserts, so
//! the size exceeds the capacity by at most the weight just admitted.
//!
//! Recency is the order of the entry sequence: index 0 is the
//! least-recently-used entry, the last index the most-recently-used.

use crate::types::{CacheKey, Handle};
use vstd::prelude::*;

verus! {

/// One cache entry: a weight in bytes, an optional expiry timepoint, and the
/// stored value. Immutable after insertion.
pub struct Entry<V> {
    size_bytes: usize,
    expiration_time: Option<u64>,
    inner: V,
}

impl<V> Entry<V> {
    /// The entry's weight in bytes.
    pub closed spec fn spec_size(&self) -> usize {
        self.size_bytes
    }

    /// The entry's expiry timepoint; `None` never expires.
    pub closed spec fn spec_expire(&self) -> Option<u64> {
        self.expiration_time
    }

    /// The stored value.
    pub closed spec fn spec_value(&self) -> V {
        self.inner
    }

    /// Whether the entry is expired at time `now`.
    pub open spec fn expired_at(&self, now: u64) -> bool {
        match self.spec_expire() {
            Option::Some(t) => now > t,
            Option::None => false,
        }
    }

    /// Creates a new entry with the given weight and optional expiry time.
    pub fn from_parts(size_bytes: usize, expiration_time: Option<u64>, inner: V) -> (r: Self)
        ensures
            r.spec_size() == size_bytes,
            r.spec_expire() == expiration_time,
            r.spec_value() == inner,
    {
        Entry { size_bytes, expiration_time, inner }
    }

    fn is_expired(&self, now: u64) -> (r: bool)
        ensures
            r == self.expired_at(now),
    {
        match &self.expiration_time {
            Some(t) => now > *t,
            None => false,
        }
    }
}

/// The summed weight of a sequence of entries.
pub open spec fn sum_sizes<K, V>(s: Seq<(K, Entry<V>)>) -> int
    decreases s.len(),
{
    if s.len() == 0 {
        0
    } else {
        s[0].1.spec_size() + sum_sizes(s.drop_first())
    }
}

/// Whether all keys of the sequence denote different resources.
pub open spec fn distinct_keys<K: View, V>(s: Seq<(K, Entry<V>)>) -> bool {
    forall|i: int, j: int| 0 <= i < j < s.len() ==> (#[trigger] s[i]).0@ != (#[trigger] s[j]).0@
}

/// What remains after evicting least-recently-used entries until the summed
/// weight is at most `cap`: the longest suffix within capacity.
pub open spec fn shrunk<K, V>(s: Seq<(K, Entry<V>)>, cap: int) -> Seq<(K, Entry<V>)>
    decreases s.len(),
{
    if sum_sizes(s) <= cap || s.len() == 0 {
        s
    } else {
        shrunk(s.drop_first(), cap)
    }
}

proof fn lemma_sum_nonneg<K, V>(s: Seq<(K, Entry<V>)>)
    ensures
        0 <= sum_sizes(s),
    decreases s.len(),
{
    if s.len() > 0 {
        lemma_sum_nonneg(s.drop_first());
    }
}

proof fn lemma_sum_remove<K, V>(s: Seq<(K, Entry<V>)>, i: int)
    requires
        0 <= i < s.len(),
    ensures
        sum_sizes(s.remove(i)) == sum_sizes(s) - s[i].1.spec_size(),
    decreases s.len(),
{
    if i == 0 {
        assert(s.remove(0) =~= s.drop_first());
    } else {
        assert(s.remove(i)[0] == s[0]);
        assert(s.remove(i).drop_first() =~= s.drop_first().remove(i - 1));
        lemma_sum_remove(s.drop_first(), i - 1);
    }
}

proof fn lemma_sum_push<K, V>(s: Seq<(K, Entry<V>)>, x: (K, Entry<V>))
    ensures
        sum_sizes(s.push(x)) == sum_sizes(s) + x.1.spec_size(),
    decreases s.len(),
{
    if s.len() == 0 {
        assert(s.push(x)[0] == x);
        assert(s.push(x).drop_first() =~= Seq::<(K, Entry<V>)>::empty());
        assert(sum_sizes(s.push(x)) == x.1.spec_size() + sum_sizes(s.push(x).drop_first()));
    } else {
        assert(s.push(x)[0] == s[0]);
        assert(s.push(x).drop_first() =~= s.drop_first().push(x));
        lemma_sum_push(s.drop_first(), x);
        assert(sum_sizes(s.push(x)) == s[0].1.spec_size() + sum_sizes(s.push(x).drop_first()));
    }
}

/// The shrunken sequence is a suffix of the original whose summed weight is
/// within capacity: eviction stops only at or below the capacity.
pub proof fn lemma_shrunk_within_capacity<K, V>(s: Seq<(K, Entry<V>)>, cap: int)
    requires
        0 <= cap,
    ensures
        sum_sizes(shrunk(s, cap)) <= cap,
        shrunk(s, cap).len() <= s.len(),
        shrunk(s, cap) == s.subrange(s.len() - shrunk(s, cap).len(), s.len() as int),
    decreases s.len(),
{
    if sum_sizes(s) <= cap || s.len() == 0 {
        assert(s =~= s.subrange(0, s.len() as int));
        lemma_sum_nonneg(s);
    } else {
        lemma_shrunk_within_capacity(s.drop_first(), cap);
        let r = shrunk(s, cap);
        assert(s.drop_first().subrange(
            s.drop_first().len() - r.len(),
            s.drop_first().len() as int,
        ) =~= s.subrange(s.len() - r.len(), s.len() as int));
    }
}

/// A byte-weighted LRU cache over duplicable values, with per-entry expiry.
pub struct SizedTTLCache<K: CacheKey, V: Handle> {
    entries: Vec<(K, Entry<V>)>,
    capacity_bytes: usize,
    size_bytes: usize,
}

impl<K: CacheKey, V: Handle> SizedTTLCache<K, V> {
    /// The live entries, least-recently-used first.
    pub closed spec fn entries_seq(&self) -> Seq<(K, Entry<V>)> {
        self.entries@
    }

    /// The fixed capacity in bytes.
    pub closed spec fn spec_capacity(&self) -> usize {
        self.capacity_bytes
    }

    /// The accounted size in bytes.
    pub closed spec fn spec_size(&self) -> usize {
        self.size_bytes
    }

    /// Cache invariant: keys are distinct and the accounted size is exactly
    /// the summed weight of the live entries.
    pub open spec fn wf(&self) -> bool {
        &&& distinct_keys(self.entries_seq())
        &&& self.spec_size() == sum_sizes(self.entries_seq())
    }

    /// Whether some live entry has this key.
    pub open spec fn has_key(&self, kv: <K as View>::V) -> bool {
        exists|i: int|
            0 <= i < self.entries_seq().len() && (#[trigger] self.entries_seq()[i]).0@ == kv
    }

    /// The index of the entry with this key (meaningful only under `has_key`).
    pub open spec fn index_of(&self, kv: <K as View>::V) -> int {
        choose|i: int|
            0 <= i < self.entries_seq().len() && (#[trigger] self.entries_seq()[i]).0@ == kv
    }

    /// Whether some live entry has this key and is not expired at `now`.
    pub open spec fn has_live_key(&self, kv: <K as View>::V, now: u64) -> bool {
        self.has_key(kv) && !self.entries_seq()[self.index_of(kv)].1.expired_at(now)
    }

    /// Creates an empty cache with the given maximum capacity in bytes.
    pub fn with_capacity(capacity_bytes: usize) -> (r: Self)
        ensures
            r.wf(),
            r.spec_capacity() == capacity_bytes,
            r.entries_seq() == Seq::<(K, Entry<V>)>::empty(),
            r.spec_size() == 0,
    {
        let entries: Vec<(K, Entry<V>)> = Vec::new();
        proof {
            assert(entries@ =~= Seq::<(K, Entry<V>)>::empty());
        }
        SizedTTLCache { entries, capacity_bytes, size_bytes: 0 }
    }

    /// The cache's fixed capacity in bytes.
    pub fn capacity(&self) -> (c: usize)
        ensures
            c == self.spec_capacity(),
    {
        self.capacity_bytes
    }

    fn find_index(&self, key: &K) -> (r: Option<usize>)
        requires
            self.wf(),
        ensures
            match r {
                Option::None => !self.has_key(key@),
                Option::Some(i) => {
                    &&& 0 <= i < self.entries_seq().len()
                    &&& self.entries_seq()[i as int].0@ == key@
                    &&& self.has_key(key@)
                    &&& self.index_of(key@) == i
                },
            },
    {
        let n = self.entries.len();
        let mut i: usize = 0;
        while i < n
            invariant
                self.wf(),
                n == self.entries_seq().len(),
                0 <= i <= n,
                forall|j: int| 0 <= j < i ==> (#[trigger] self.entries_seq()[j]).0@ != key@,
            decreases n - i,
        {
            if self.entries[i].0.key_eq(key) {
                proof {
                    let s = self.entries_seq();
                    assert(s[i as int].0@ == key@);
                    let j = self.index_of(key@);
                    assert(0 <= j < s.len() && s[j].0@ == key@);
                    if j != i {
                        assert(s[j].0@ != s[i as int].0@);
                    }
                }
                return Some(i);
            }
            i = i + 1;
        }
        None
    }

    /// Gets the non-expired value for a key, or `None` when the key is absent
    /// or its entry has expired. An expired entry is evicted on the spot; a
    /// hit promotes the entry to most-recently-used and returns a duplicate
    /// handle of the stored value. An expired entry never satisfies a lookup.
    pub fn get(&mut self, now: u64, key: &K) -> (r: Option<V>)
        requires
            old(self).wf(),
        ensures
            final(self).wf(),
            final(self).spec_capacity() == old(self).spec_capacity(),
            !old(self).has_key(key@) ==> r is None && final(self).entries_seq() == old(
                self,
            ).entries_seq() && final(self).spec_size() == old(self).spec_size(),
            old(self).has_key(key@) ==> ({
                let i = old(self).index_of(key@);
                let e = old(self).entries_seq()[i].1;
                if e.expired_at(now) {
                    &&& r is None
                    &&& final(self).entries_seq() == old(self).entries_seq().remove(i)
                    &&& final(self).spec_size() == old(self).spec_size() - e.spec_size()
                } else {
                    &&& r == Option::Some(e.spec_value())
                    &&& final(self).entries_seq() == old(self).entries_seq().remove(i).push(
                        old(self).entries_seq()[i],
                    )
                    &&& final(self).spec_size() == old(self).spec_size()
                }
            }),
    {
        let found = self.find_index(key);
        match found {
            None => None,
            Some(i) => {
                let ghost s0 = self.entries_seq();
                let ghost gi = i as int;
                let (k, e) = self.entries.remove(i);
                proof {
                    lemma_sum_remove(s0, gi);
                    lemma_sum_nonneg(s0.remove(gi));
                    assert forall|a: int, b: int|
                        0 <= a < b < s0.remove(gi).len() implies (#[trigger] s0.remove(gi)[a]).0@
                        != (#[trigger] s0.remove(gi)[b]).0@ by {
                        let a0 = if a < gi {
                            a
                        } else {
                            a + 1
                        };
                        let b0 = if b < gi {
                            b
                        } else {
                            b + 1
                        };
                        assert(s0.remove(gi)[a] == s0[a0] && s0.remove(gi)[b] == s0[b0]);
                    }
                }
                if e.is_expired(now) {
                    self.size_bytes = self.size_bytes - e.size_bytes;
                    None
                } else {
                    let v = e.inner.dup();
                    proof {
                        lemma_sum_push(s0.remove(gi), s0[gi]);
                        let s1 = s0.remove(gi).push(s0[gi]);
                        assert forall|a: int, b: int| 0 <= a < b < s1.len() implies (
                        #[trigger] s1[a]).0@ != (#[trigger] s1[b]).0@ by {
                            if b < s1.len() - 1 {
                                assert(s1[a] == s0.remove(gi)[a] && s1[b] == s0.remove(gi)[b]);
                            } else {
                                assert(s1[b] == s0[gi]);
                                let a0 = if a < gi {
                                    a
                                } else {
                                    a + 1
                                };
                                assert(s1[a] == s0[a0]);
                                assert(a0 != gi);
                            }
                        }
                    }
                    self.entries.push((k, e));
                    Some(v)
                }
            },
        }
    }

    fn shrink_to(&mut self, limit: usize)
        requires
            old(self).wf(),
        ensures
            final(self).wf(),
            final(self).spec_capacity() == old(self).spec_capacity(),
            final(self).entries_seq() == shrunk(old(self).entries_seq(), limit as int),
            final(self).spec_size() <= limit,
    {
        while self.size_bytes > limit
            invariant
                self.wf(),
                self.spec_capacity() == old(self).spec_capacity(),
                shrunk(self.entries_seq(), limit as int) == shrunk(
                    old(self).entries_seq(),
                    limit as int,
                ),
            decreases self.entries@.len(),
        {
            let ghost s0 = self.entries_seq();
            proof {
                if s0.len() == 0 {
                    assert(sum_sizes(s0) == 0);
                }
                assert(s0.len() > 0);
                assert(s0.remove(0) =~= s0.drop_first());
                lemma_sum_remove(s0, 0);
                lemma_sum_nonneg(s0.drop_first());
                assert forall|a: int, b: int|
                    0 <= a < b < s0.drop_first().len() implies (#[trigger] s0.drop_first()[a]).0@
                    != (#[trigger] s0.drop_first()[b]).0@ by {
                    assert(s0.drop_first()[a] == s0[a + 1] && s0.drop_first()[b] == s0[b + 1]);
                }
            }
            let pair = self.entries.remove(0);
            self.size_bytes = self.size_bytes - pair.1.size_bytes;
        }
    }

    /// Gets the non-expired value for a key, or inserts the given entry as
    /// the new value and returns a duplicate handle of it. Before inserting,
    /// least-recently-used entries are evicted until the accounted size is
    /// within capacity — and, when the new weight is enormous, until the
    /// accounting cannot overflow — so afterwards the size exceeds the
    /// capacity by at most the weight of the entry just admitted.
    pub fn get_or_insert(&mut self, now: u64, key: K, value: Entry<V>) -> (r: V)
        requires
            old(self).wf(),
        ensures
            final(self).wf(),
            final(self).spec_capacity() == old(self).spec_capacity(),
            final(self).has_key(key@),
            old(self).has_live_key(key@, now) ==> ({
                let i = old(self).index_of(key@);
                let e = old(self).entries_seq()[i].1;
                &&& r == e.spec_value()
                &&& final(self).entries_seq() == old(self).entries_seq().remove(i).push(
                    old(self).entries_seq()[i],
                )
                &&& final(self).spec_size() == old(self).spec_size()
            }),
            !old(self).has_live_key(key@, now) ==> ({
                let base = if old(self).has_key(key@) {
                    old(self).entries_seq().remove(old(self).index_of(key@))
                } else {
                    old(self).entries_seq()
                };
                let limit = vstd::math::min(
                    old(self).spec_capacity() as int,
                    usize::MAX - value.spec_size(),
                );
                &&& r == value.spec_value()
                &&& final(self).entries_seq() == shrunk(base, limit).push((key, value))
                &&& final(self).spec_size() <= old(self).spec_capacity() + value.spec_size()
            }),
    {
        let ghost gk: <K as View>::V = key@;
        let hit = self.get(now, &key);
        match hit {
            Some(v) => {
                proof {
                    let i = old(self).index_of(gk);
                    let s1 = self.entries_seq();
                    assert(s1[s1.len() - 1] == old(self).entries_seq()[i]);
                    assert(s1[s1.len() - 1].0@ == gk);
                    assert(self.has_key(gk));
                }
                v
            },
            None => {
                let w = value.size_bytes;
                let limit = if self.capacity_bytes <= usize::MAX - w {
                    self.capacity_bytes
                } else {
                    usize::MAX - w
                };
                self.shrink_to(limit);
                let ghost s1 = self.entries_seq();
                let r = value.inner.dup();
                proof {
                    lemma_sum_push(s1, (key, value));
                    lemma_shrunk_within_capacity(
                        if old(self).has_key(key@) {
                            old(self).entries_seq().remove(old(self).index_of(key@))
                        } else {
                            old(self).entries_seq()
                        },
                        limit as int,
                    );
                    // The key is absent after the lookup, and eviction keeps a
                    // suffix, so pushing it keeps the keys distinct.
                    let base = if old(self).has_key(key@) {
                        old(self).entries_seq().remove(old(self).index_of(key@))
                    } else {
                        old(self).entries_seq()
                    };
                    assert forall|j: int| 0 <= j < base.len() implies (#[trigger] base[j]).0@
                        != key@ by {
                        if old(self).has_key(key@) {
                            let gi = old(self).index_of(key@);
                            let s0 = old(self).entries_seq();
                            let j0 = if j < gi {
                                j
                            } else {
                                j + 1
                            };
                            assert(base[j] == s0[j0]);
                            if s0[j0].0@ == key@ {
                                if j0 != gi {
                                    assert(s0[j0].0@ != s0[gi].0@);
                                }
                            }
                        } else {
                            assert(!old(self).has_key(key@));
                            if base[j].0@ == key@ {
                                assert(old(self).has_key(key@));
                            }
                        }
                    }
                    let off = base.len() - s1.len();
                    assert forall|j: int| 0 <= j < s1.len() implies (#[trigger] s1[j]).0@
                        != key@ by {
                        assert(s1[j] == base.subrange(off, base.len() as int)[j]);
                        assert(s1[j] == base[off + j]);
                    }
                    let s2 = s1.push((key, value));
                    assert forall|a: int, b: int| 0 <= a < b < s2.len() implies (
                    #[trigger] s2[a]).0@ != (#[trigger] s2[b]).0@ by {
                        if b < s2.len() - 1 {
                            assert(s2[a] == s1[a] && s2[b] == s1[b]);
                        } else {
                            assert(s2[a] == s1[a] && s2[b] == (key, value));
                        }
                    }
                }
                self.size_bytes = self.size_bytes + value.size_bytes;
                self.entries.push((key, value));
                proof {
                    let s2 = self.entries_seq();
                    assert(s2[s2.len() - 1].0@ == gk);
                    assert(self.has_key(gk));
                }
                r
            },
        }
    }
}

} // verus!
