//! A sparse mapping of `usize`-bounded intervals to contiguous collections.
//!
//! The map holds non-overlapping blocks, each covering
//! `[start, start + len(data))`, kept in ascending order of `start`. With byte
//! buffers it behaves like a sparse file; with bare lengths it behaves like an
//! interval set. Adjacent blocks are never merged, and `put_new` never
//! overwrites: the first writer of an offset wins.

use crate::contiguous::ContiguousCollection;
use crate::hole_tracker::HoleTracker;
use vstd::prelude::*;

verus! {

/// One mapped interval: `data` covers `[start, start + len(data))`.
pub struct Block<T> {
    pub start: usize,
    pub data: T,
}

/// The first offset after a block.
pub open spec fn block_end<T: ContiguousCollection>(b: Block<T>) -> int {
    b.start + b.data.contents().len()
}

/// Whether offset `o` falls inside block `b`.
pub open spec fn in_block<T: ContiguousCollection>(b: Block<T>, o: int) -> bool {
    b.start <= o < block_end(b)
}

/// Well-formed block sequences: every block is non-empty and ends within the
/// address space, and any two blocks are disjoint and in ascending order.
pub open spec fn blocks_wf<T: ContiguousCollection>(bs: Seq<Block<T>>) -> bool {
    &&& forall|i: int|
        0 <= i < bs.len() ==> 0 < (#[trigger] bs[i]).data.contents().len() && block_end(bs[i])
            <= usize::MAX
    &&& forall|i: int, j: int|
        0 <= i < j < bs.len() ==> block_end(#[trigger] bs[i]) <= (#[trigger] bs[j]).start
}

/// Whether some block of `bs` covers offset `o`.
pub open spec fn covers<T: ContiguousCollection>(bs: Seq<Block<T>>, o: int) -> bool {
    exists|i: int| 0 <= i < bs.len() && in_block(#[trigger] bs[i], o)
}

/// The index of the block covering `o` (meaningful only when `covers` holds).
pub open spec fn cover_index<T: ContiguousCollection>(bs: Seq<Block<T>>, o: int) -> int {
    choose|i: int| 0 <= i < bs.len() && in_block(#[trigger] bs[i], o)
}

/// The first offset after the block covering `o`.
pub open spec fn cover_end<T: ContiguousCollection>(bs: Seq<Block<T>>, o: int) -> int {
    block_end(bs[cover_index(bs, o)])
}

/// The element mapped at offset `o` (meaningful only when `covers` holds).
pub open spec fn value_at<T: ContiguousCollection>(bs: Seq<Block<T>>, o: int) -> T::Elem {
    let b = bs[cover_index(bs, o)];
    b.data.contents()[o - b.start]
}

/// In a well-formed sequence at most one block covers any offset, so the
/// covering index, end and value are those of any block shown to cover it.
pub proof fn lemma_cover_unique<T: ContiguousCollection>(bs: Seq<Block<T>>, o: int, i: int)
    requires
        blocks_wf(bs),
        0 <= i < bs.len(),
        in_block(bs[i], o),
    ensures
        covers(bs, o),
        cover_index(bs, o) == i,
        cover_end(bs, o) == block_end(bs[i]),
        value_at(bs, o) == bs[i].data.contents()[o - bs[i].start],
{
    assert(covers(bs, o));
    let j = cover_index(bs, o);
    assert(0 <= j < bs.len() && in_block(bs[j], o));
    if j < i {
        assert(block_end(bs[j]) <= bs[i].start);
    } else if i < j {
        assert(block_end(bs[i]) <= bs[j].start);
    }
}

/// Appending a block to a well-formed sequence, after all of its blocks, keeps
/// it well-formed; coverage and values extend pointwise.
pub proof fn lemma_wf_push<T: ContiguousCollection>(bs: Seq<Block<T>>, b: Block<T>)
    requires
        blocks_wf(bs),
        0 < b.data.contents().len(),
        block_end(b) <= usize::MAX,
        bs.len() > 0 ==> block_end(bs.last()) <= b.start,
    ensures
        blocks_wf(bs.push(b)),
        forall|o: int| covers(bs.push(b), o) <==> covers(bs, o) || in_block(b, o),
        forall|o: int|
            covers(bs, o) ==> #[trigger] value_at(bs.push(b), o) == value_at(bs, o) && cover_end(
                bs.push(b),
                o,
            ) == cover_end(bs, o),
        forall|o: int|
            in_block(b, o) ==> #[trigger] value_at(bs.push(b), o) == b.data.contents()[o - b.start]
                && cover_end(bs.push(b), o) == block_end(b),
{
    let bs2 = bs.push(b);
    let n = bs.len() as int;
    assert forall|i: int, j: int| 0 <= i < j < bs2.len() implies block_end(#[trigger] bs2[i]) <= (
    #[trigger] bs2[j]).start by {
        if j < n {
            assert(bs2[i] == bs[i] && bs2[j] == bs[j]);
        } else {
            assert(bs2[j] == b);
            if i < n {
                assert(bs2[i] == bs[i]);
                if i < n - 1 {
                    assert(block_end(bs[i]) <= bs[n - 1].start);
                    assert(bs[n - 1].start < block_end(bs[n - 1]));
                }
            }
        }
    }
    assert(blocks_wf(bs2));
    assert forall|o: int| covers(bs2, o) <==> covers(bs, o) || in_block(b, o) by {
        if covers(bs2, o) {
            let i = choose|i: int| 0 <= i < bs2.len() && in_block(#[trigger] bs2[i], o);
            if i < n {
                assert(bs2[i] == bs[i]);
                assert(covers(bs, o));
            } else {
                assert(bs2[i] == b);
            }
        }
        if covers(bs, o) {
            let i = choose|i: int| 0 <= i < bs.len() && in_block(#[trigger] bs[i], o);
            assert(bs2[i] == bs[i]);
            assert(in_block(bs2[i], o));
        }
        if in_block(b, o) {
            assert(in_block(bs2[n], o));
        }
    }
    assert forall|o: int| covers(bs, o) implies #[trigger] value_at(bs2, o) == value_at(bs, o)
        && cover_end(bs2, o) == cover_end(bs, o) by {
        let i = choose|i: int| 0 <= i < bs.len() && in_block(#[trigger] bs[i], o);
        assert(bs2[i] == bs[i]);
        lemma_cover_unique(bs2, o, i);
        lemma_cover_unique(bs, o, i);
    }
    assert forall|o: int| in_block(b, o) implies #[trigger] value_at(bs2, o)
        == b.data.contents()[o - b.start] && cover_end(bs2, o) == block_end(b) by {
        lemma_cover_unique(bs2, o, n);
    }
}

/// An ordered map of non-overlapping intervals to collections.
pub struct SparseMap<T: ContiguousCollection> {
    blocks: Vec<Block<T>>,
}

impl<T: ContiguousCollection> View for SparseMap<T> {
    type V = Seq<Block<T>>;

    closed spec fn view(&self) -> Seq<Block<T>> {
        self.blocks@
    }
}

impl<T: ContiguousCollection> Default for SparseMap<T> {
    /// A map with nothing mapped.
    fn default() -> (r: Self)
        ensures
            r@ == Seq::<Block<T>>::empty(),
            r.wf(),
    {
        let blocks: Vec<Block<T>> = Vec::new();
        proof {
            assert(Seq::<Block<T>>::empty() =~= blocks@);
        }
        SparseMap { blocks }
    }
}

impl<T: ContiguousCollection> SparseMap<T> {
    /// The map's blocks are well-formed: non-empty, disjoint, ascending.
    pub open spec fn wf(&self) -> bool {
        blocks_wf(self@)
    }

    /// Gets the largest slice (no larger than `max_size`) available at
    /// `offset`, or `None` if nothing is mapped at `offset` or `max_size` is
    /// zero.
    ///
    /// If a block is mapped below `offset` but extends past it, a slice of
    /// that block adjusted to start at `offset` is returned.
    pub fn get(&self, offset: usize, max_size: usize) -> (r: Option<T>)
        requires
            self.wf(),
        ensures
            match r {
                Option::None => max_size == 0 || !covers(self@, offset as int),
                Option::Some(s) => {
                    &&& max_size > 0
                    &&& covers(self@, offset as int)
                    &&& s.contents().len() == vstd::math::min(
                        max_size as int,
                        cover_end(self@, offset as int) - offset,
                    )
                    &&& forall|k: int|
                        0 <= k < s.contents().len() ==> covers(self@, offset + k) && (
                        #[trigger] s.contents()[k]) == value_at(self@, offset + k)
                },
            },
    {
        if max_size == 0 {
            return None;
        }
        let n = self.blocks.len();
        let mut i: usize = 0;
        while i < n
            invariant
                self.wf(),
                max_size > 0,
                n == self@.len(),
                0 <= i <= n,
                forall|j: int| 0 <= j < i ==> !in_block(#[trigger] self@[j], offset as int),
            decreases n - i,
        {
            let b_start = self.blocks[i].start;
            let b_len = self.blocks[i].data.len();
            if b_start > offset {
                proof {
                    assert forall|j: int| 0 <= j < self@.len() implies !in_block(
                        #[trigger] self@[j],
                        offset as int,
                    ) by {
                        if i <= j {
                            if (i as int) < j {
                                assert(block_end(self@[i as int]) <= self@[j].start);
                            }
                        }
                    }
                }
                return None;
            }
            if offset < b_start + b_len {
                // This block covers `offset`.
                let inner = offset - b_start;
                let size = if b_len - inner < max_size {
                    b_len - inner
                } else {
                    max_size
                };
                let s = self.blocks[i].data.slice(inner, inner + size);
                proof {
                    lemma_cover_unique(self@, offset as int, i as int);
                    assert forall|k: int| 0 <= k < s.contents().len() implies covers(
                        self@,
                        offset + k,
                    ) && (#[trigger] s.contents()[k]) == value_at(self@, offset + k) by {
                        assert(in_block(self@[i as int], offset + k));
                        lemma_cover_unique(self@, offset + k, i as int);
                        assert(s.contents()[k] == self@[i as int].data.contents()[inner + k]);
                    }
                }
                return Some(s);
            }
            i = i + 1;
        }
        None
    }

    /// Maps a collection at the given offset.
    ///
    /// The collection is progressively sliced to fit into the unmapped
    /// regions; any sub-interval already covered by an existing block is
    /// skipped, so existing bytes always win and nothing is overwritten.
    /// Blocks with touching boundaries stay separate. Mapping an empty
    /// collection changes nothing.
    pub fn put_new(&mut self, offset: usize, data: T)
        requires
            old(self).wf(),
            offset + data.contents().len() <= usize::MAX,
        ensures
            final(self).wf(),
            put_relation(old(self)@, final(self)@, offset as int, data.contents()),
            // A region already fully mapped is left alone: not even the block
            // layout changes.
            (forall|o: int| offset <= o < offset + data.contents().len() ==> covers(old(self)@, o))
                ==> final(self)@ == old(self)@,
            // The resulting block layout is fixed: original blocks stay as
            // they are and each hole becomes one block per gap, clipped to
            // the written region.
            ranges_of(final(self)@) == put_ranges(
                ranges_of(old(self)@),
                offset as int,
                offset + data.contents().len(),
            ),
    {
        let ghost old0: Seq<Block<T>> = self.blocks@;
        let ghost d: Seq<<T as ContiguousCollection>::Elem> = data.contents();
        let data_len = data.len();
        let dend = offset + data_len;
        let mut rest: Vec<Block<T>> = Vec::new();
        core::mem::swap(&mut rest, &mut self.blocks);
        let mut out: Vec<Block<T>> = Vec::new();
        let mut cur: usize = offset;
        let ghost mut k: int = 0;
        proof {
            assert(rest@ =~= old0.subrange(0, old0.len() as int));
            assert(old0.subrange(0, 0) =~= Seq::<Block<T>>::empty());
            assert(ranges_of(out@) =~= Seq::<(int, int)>::empty());
            assert(ranges_of(old0.subrange(0, old0.len() as int)) == ranges_of(old0));
            assert(ranges_of(out@) + put_ranges(ranges_of(old0), offset as int, dend as int)
                =~= put_ranges(ranges_of(old0), offset as int, dend as int));
        }
        while rest.len() > 0
            invariant
                blocks_wf(old0),
                d == data.contents(),
                data_len == d.len(),
                dend == offset + data_len,
                dend <= usize::MAX,
                0 <= k <= old0.len(),
                rest@ == old0.subrange(k, old0.len() as int),
                offset <= cur,
                blocks_wf(out@),
                k < old0.len() && out@.len() > 0 ==> block_end(out@.last()) <= old0[k].start,
                cur < dend ==> (out@.len() == 0 || block_end(out@.last()) <= cur),
                put_state_ok(old0, out@, k, cur as int, offset as int, d),
                (forall|o: int| offset <= o < dend ==> covers(old0, o)) ==> out@ == old0.subrange(
                    0,
                    k,
                ),
                ranges_of(out@) + put_ranges(
                    ranges_of(old0.subrange(k, old0.len() as int)),
                    cur as int,
                    dend as int,
                ) == put_ranges(ranges_of(old0), offset as int, dend as int),
            decreases rest@.len(),
        {
            let ghost prefix = old0.subrange(0, k);
            let ghost out0 = out@;
            let ghost k0 = k;
            let b = rest.remove(0);
            let ghost gb = b;
            proof {
                assert(b == old0[k]);
                assert(rest@ =~= old0.subrange(k + 1, old0.len() as int));
                assert(0 < b.data.contents().len() && block_end(b) <= usize::MAX);
            }
            let b_start = b.start;
            let b_len = b.data.len();
            let b_end = b_start + b_len;
            let ghost cur_a: int = cur as int;
            if cur < dend && cur < b_start {
                let h_end = if dend < b_start {
                    dend
                } else {
                    b_start
                };
                let piece = data.slice_unshare(cur - offset, h_end - offset);
                let blk = Block { start: cur, data: piece };
                proof {
                    lemma_put_hole_push(old0, out@, k, cur as int, offset as int, d, blk);
                    // A hole contradicts full coverage of the data region.
                    if forall|o: int| offset <= o < dend ==> covers(old0, o) {
                        assert(covers(old0, cur as int));
                        assert(!covers(old0, cur as int));
                    }
                }
                out.push(blk);
                cur = h_end;
            }
            let ghost out_m = out@;
            let ghost cur_m: int = cur as int;
            if b_start <= cur && cur < b_end {
                cur = b_end;
            }
            out.push(b);
            proof {
                lemma_put_block_push(old0, out_m, k, cur_m, cur as int, offset as int, d);
                k = k + 1;
                if k < old0.len() {
                    assert(block_end(old0[k - 1]) <= old0[k].start);
                }
                assert(out@.last() == b);
                if forall|o: int| offset <= o < dend ==> covers(old0, o) {
                    if out_m == old0.subrange(0, k - 1) {
                        assert(old0.subrange(0, k - 1).push(b) =~= old0.subrange(0, k));
                    }
                }
                if cur < dend {
                    // While data remains, the emitted blocks end at or before
                    // `cur`: the skip lands exactly on the block's end, and a
                    // hole clipped short of the block means the data ran out.
                    if b_start <= cur_m < block_end(b) {
                        assert(cur == block_end(b));
                    } else if cur_m >= b_end {
                        assert(cur == cur_m);
                    } else {
                        assert(cur_m < b_start);
                        if cur_a < dend && cur_a < b_start {
                            assert(cur_m == vstd::math::min(dend as int, b_start as int));
                        }
                        assert(false);
                    }
                }
                // The interval walk matches the spec-level walk one block at
                // a time: the optional hole, then this block, then the rest.
                let n = old0.len() as int;
                let olds_k = ranges_of(old0.subrange(k0, n));
                let rest_r = ranges_of(old0.subrange(k0 + 1, n));
                assert(old0.subrange(k0, n)[0] == gb);
                assert(olds_k[0] == (gb.start as int, block_end(gb)));
                assert(olds_k.drop_first() =~= rest_r) by {
                    assert forall|i: int| 0 <= i < rest_r.len() implies olds_k.drop_first()[i]
                        == rest_r[i] by {
                        assert(old0.subrange(k0, n)[i + 1] == old0[k0 + 1 + i]);
                        assert(old0.subrange(k0 + 1, n)[i] == old0[k0 + 1 + i]);
                    }
                }
                let hole: Seq<(int, int)> = if cur_a < dend && cur_a < gb.start {
                    seq![(cur_a, vstd::math::min(dend as int, gb.start as int))]
                } else {
                    Seq::empty()
                };
                assert(ranges_of(out@) =~= ranges_of(out0) + hole + seq![
                    (gb.start as int, block_end(gb)),
                ]) by {
                    if cur_a < dend && cur_a < gb.start {
                        lemma_ranges_push(out0, out_m.last());
                        assert(out_m == out0.push(out_m.last()));
                        assert(ranges_of(out_m) == ranges_of(out0).push(
                            (out_m.last().start as int, block_end(out_m.last())),
                        ));
                        assert(out_m.last().start == cur_a);
                        assert(block_end(out_m.last()) == cur_m);
                        assert(cur_m == vstd::math::min(dend as int, gb.start as int));
                    } else {
                        assert(out_m == out0);
                    }
                    lemma_ranges_push(out_m, gb);
                    assert(out@ == out_m.push(gb));
                }
                assert(put_ranges(olds_k, cur_a, dend as int) == hole + seq![olds_k[0]]
                    + put_ranges(rest_r, cur as int, dend as int)) by {
                    assert(cur_m == (if cur_a < dend && cur_a < olds_k[0].0 {
                        vstd::math::min(dend as int, olds_k[0].0)
                    } else {
                        cur_a
                    }));
                    assert(cur as int == (if olds_k[0].0 <= cur_m < olds_k[0].1 {
                        olds_k[0].1
                    } else {
                        cur_m
                    }));
                }
                assert(ranges_of(out@) + put_ranges(rest_r, cur as int, dend as int)
                    =~= ranges_of(out0) + put_ranges(olds_k, cur_a, dend as int));
                assert(ranges_of(old0.subrange(k, n)) == rest_r);
            }
        }
        proof {
            assert(old0.subrange(k, old0.len() as int).len() == 0);
            assert(k == old0.len());
            assert(ranges_of(old0.subrange(k, old0.len() as int)) =~= Seq::<(int, int)>::empty());
        }
        if cur < dend {
            let piece = data.slice_unshare(cur - offset, dend - offset);
            let blk = Block { start: cur, data: piece };
            proof {
                assert(old0.subrange(0, old0.len() as int) =~= old0);
                lemma_put_hole_push(
                    old0,
                    out@,
                    old0.len() as int,
                    cur as int,
                    offset as int,
                    d,
                    blk,
                );
                if forall|o: int| offset <= o < dend ==> covers(old0, o) {
                    assert(covers(old0, cur as int));
                    assert(!covers(old0, cur as int));
                }
                lemma_ranges_push(out@, blk);
                assert(ranges_of(out@).push((cur as int, dend as int)) =~= ranges_of(out@) + seq![
                    (cur as int, dend as int),
                ]);
            }
            out.push(blk);
        }
        proof {
            assert(old0.subrange(0, old0.len() as int) =~= old0);
            assert(ranges_of(out@) =~= ranges_of(out@) + Seq::<(int, int)>::empty());
        }
        self.blocks = out;
    }

    /// Finds the smallest interval containing every hole that intersects the
    /// input range, or `None` when every offset of the range is mapped (in
    /// particular when the range is empty).
    pub fn union_discontinuous_range(&self, range: core::ops::Range<usize>) -> (r: Option<
        core::ops::Range<usize>,
    >)
        requires
            self.wf(),
            range.start <= range.end,
        ensures
            match r {
                Option::None => forall|o: int| range.start <= o < range.end ==> covers(self@, o),
                Option::Some(h) => {
                    &&& range.start <= h.start < h.end <= range.end
                    &&& !covers(self@, h.start as int)
                    &&& !covers(self@, h.end - 1)
                    &&& forall|o: int| range.start <= o < h.start ==> covers(self@, o)
                    &&& forall|o: int| h.end <= o < range.end ==> covers(self@, o)
                },
            },
    {
        let n = self.blocks.len();
        let mut tracker = HoleTracker::default();
        let mut cur = range.start;
        let mut i: usize = 0;
        while i < n && cur < range.end
            invariant
                self.wf(),
                n == self@.len(),
                0 <= i <= n,
                range.start <= cur <= range.end,
                cur < range.end ==> forall|j: int|
                    0 <= j < i ==> block_end(#[trigger] self@[j]) <= cur,
                match tracker.inner() {
                    Option::None => forall|o: int| range.start <= o < cur ==> covers(self@, o),
                    Option::Some((hs, he)) => {
                        &&& range.start <= hs < he <= cur
                        &&& !covers(self@, hs as int)
                        &&& !covers(self@, he - 1)
                        &&& forall|o: int| range.start <= o < hs ==> covers(self@, o)
                        &&& forall|o: int| he <= o < cur ==> covers(self@, o)
                    },
                },
            decreases n - i, range.end - cur,
        {
            let b_start = self.blocks[i].start;
            let b_len = self.blocks[i].data.len();
            let b_end = b_start + b_len;
            if b_end <= cur {
                // Block entirely before the scan position.
                i = i + 1;
            } else if b_start <= cur {
                // The block covers the scan position; skip over it.
                proof {
                    assert forall|o: int|
                        cur <= o < vstd::math::min(b_end as int, range.end as int) implies covers(
                        self@,
                        o,
                    ) by {
                        assert(in_block(self@[i as int], o));
                    }
                }
                cur = if b_end < range.end {
                    b_end
                } else {
                    range.end
                };
                i = i + 1;
            } else {
                // A hole runs from the scan position to this block's start.
                let h_end = if range.end < b_start {
                    range.end
                } else {
                    b_start
                };
                proof {
                    assert forall|o: int| cur <= o < h_end implies !covers(self@, o) by {
                        if covers(self@, o) {
                            let j = choose|j: int|
                                0 <= j < self@.len() && in_block(#[trigger] self@[j], o);
                            if j < i {
                                assert(block_end(self@[j]) <= cur);
                            } else if j > i {
                                assert(block_end(self@[i as int]) <= self@[j].start);
                            }
                        }
                    }
                }
                tracker.update(cur, h_end);
                cur = h_end;
            }
        }
        if cur < range.end {
            // Past the last block: the rest of the range is one hole.
            proof {
                assert forall|o: int| cur <= o < range.end implies !covers(self@, o) by {
                    if covers(self@, o) {
                        let j = choose|j: int|
                            0 <= j < self@.len() && in_block(#[trigger] self@[j], o);
                        assert(block_end(self@[j]) <= cur);
                    }
                }
            }
            tracker.update(cur, range.end);
            cur = range.end;
        }
        Option::<core::ops::Range<usize>>::from(tracker)
    }

    /// Returns the number of offsets covered by any mapped block.
    pub fn mapped_len(&self) -> (n: usize)
        requires
            self.wf(),
        ensures
            n == mapped_len_of(self@),
    {
        proof {
            lemma_mapped_len_bounded(self@);
            assert(self@.subrange(0, 0) =~= Seq::<Block<T>>::empty());
        }
        let count = self.blocks.len();
        let mut total: usize = 0;
        let mut i: usize = 0;
        while i < count
            invariant
                self.wf(),
                count == self@.len(),
                0 <= i <= count,
                total == mapped_len_of(self@.subrange(0, i as int)),
                mapped_len_of(self@) <= usize::MAX,
            decreases count - i,
        {
            proof {
                let pre = self@.subrange(0, i as int);
                let mid = self@.subrange(0, i + 1);
                let post = self@.subrange(i + 1, count as int);
                assert(pre.push(self@[i as int]) =~= mid);
                lemma_mapped_len_push(pre, self@[i as int]);
                assert(mid + post =~= self@);
                lemma_mapped_len_concat(mid, post);
                lemma_mapped_len_nonneg(post);
            }
            total = total + self.blocks[i].data.len();
            i = i + 1;
        }
        proof {
            assert(self@.subrange(0, count as int) =~= self@);
        }
        total
    }

    /// Returns the extent of the map: from the first mapped offset to the
    /// last, or 0 when nothing is mapped.
    pub fn len(&self) -> (n: usize)
        requires
            self.wf(),
        ensures
            self@.len() == 0 ==> n == 0,
            self@.len() > 0 ==> n == block_end(self@.last()) - self@[0].start,
    {
        if self.blocks.len() == 0 {
            return 0;
        }
        let start = self.blocks[0].start;
        let last = self.blocks.len() - 1;
        let end = self.blocks[last].start + self.blocks[last].data.len();
        proof {
            if last > 0 {
                assert(block_end(self@[0]) <= self@[last as int].start);
            }
        }
        end - start
    }

    /// Returns whether the map covers no offset at all.
    pub fn is_empty(&self) -> (r: bool)
        requires
            self.wf(),
        ensures
            r == (self@.len() == 0),
    {
        self.blocks.len() == 0
    }

    /// The half-open interval `[start, start + len)` of each block, in order.
    pub fn block_ranges(&self) -> (r: Vec<core::ops::Range<usize>>)
        requires
            self.wf(),
        ensures
            r@.len() == self@.len(),
            forall|i: int|
                0 <= i < r@.len() ==> (#[trigger] r@[i]).start == self@[i].start && r@[i].end
                    == block_end(self@[i]),
    {
        let n = self.blocks.len();
        let mut out: Vec<core::ops::Range<usize>> = Vec::new();
        let mut i: usize = 0;
        while i < n
            invariant
                self.wf(),
                n == self@.len(),
                0 <= i <= n,
                out@.len() == i,
                forall|j: int|
                    0 <= j < i ==> (#[trigger] out@[j]).start == self@[j].start && out@[j].end
                        == block_end(self@[j]),
            decreases n - i,
        {
            let start = self.blocks[i].start;
            let end = start + self.blocks[i].data.len();
            out.push(core::ops::Range { start, end });
            i = i + 1;
        }
        out
    }
}

/// The half-open interval of each block, in order.
pub open spec fn ranges_of<T: ContiguousCollection>(bs: Seq<Block<T>>) -> Seq<(int, int)> {
    Seq::new(bs.len(), |i: int| (bs[i].start as int, block_end(bs[i])))
}

/// The intervals of a map after `put_new` writes `[cur, dend)` into a map
/// whose remaining blocks span `olds`: each hole before a block is filled
/// and clipped, every original block stays as it is, and whatever data runs
/// past the last block becomes one trailing block.
pub open spec fn put_ranges(olds: Seq<(int, int)>, cur: int, dend: int) -> Seq<(int, int)>
    decreases olds.len(),
{
    if olds.len() == 0 {
        if cur < dend {
            seq![(cur, dend)]
        } else {
            Seq::empty()
        }
    } else {
        let b = olds[0];
        let hole = if cur < dend && cur < b.0 {
            seq![(cur, vstd::math::min(dend, b.0))]
        } else {
            Seq::<(int, int)>::empty()
        };
        let cur2 = if cur < dend && cur < b.0 {
            vstd::math::min(dend, b.0)
        } else {
            cur
        };
        let cur3 = if b.0 <= cur2 < b.1 {
            b.1
        } else {
            cur2
        };
        hole + seq![b] + put_ranges(olds.drop_first(), cur3, dend)
    }
}

proof fn lemma_ranges_push<T: ContiguousCollection>(s: Seq<Block<T>>, b: Block<T>)
    ensures
        ranges_of(s.push(b)) == ranges_of(s).push((b.start as int, block_end(b))),
{
    assert forall|i: int| 0 <= i < s.len() + 1 implies ranges_of(s.push(b))[i] == ranges_of(
        s,
    ).push((b.start as int, block_end(b)))[i] by {
        if i < s.len() {
            assert(s.push(b)[i] == s[i]);
        } else {
            assert(s.push(b)[i] == b);
        }
    }
    assert(ranges_of(s.push(b)) =~= ranges_of(s).push((b.start as int, block_end(b))));
}

/// The running relation of `put_new`'s rebuild walk: `out` covers exactly
/// what the first `k` original blocks covered plus the data region up to
/// `cur`, original values are kept, and fresh offsets carry the data's bytes.
pub open spec fn put_state_ok<T: ContiguousCollection>(
    old0: Seq<Block<T>>,
    out: Seq<Block<T>>,
    k: int,
    cur: int,
    offset: int,
    d: Seq<<T as ContiguousCollection>::Elem>,
) -> bool {
    let bound = vstd::math::min(cur, offset + d.len());
    &&& forall|o: int|
        #[trigger] covers(out, o) <==> covers(old0.subrange(0, k), o) || (offset <= o < bound)
    &&& forall|o: int|
        #[trigger] covers(old0.subrange(0, k), o) ==> value_at(out, o) == value_at(old0, o)
    &&& forall|o: int|
        offset <= o < bound && !covers(old0, o) ==> #[trigger] value_at(out, o) == d[o - offset]
}

/// One offset's worth of the push lemma: appending a block past the end of a
/// well-formed sequence extends coverage by exactly that block and keeps or
/// sets the value at `o` accordingly.
proof fn lemma_push_cover_at<T: ContiguousCollection>(pre: Seq<Block<T>>, b: Block<T>, o: int)
    requires
        blocks_wf(pre.push(b)),
    ensures
        covers(pre.push(b), o) <==> (covers(pre, o) || in_block(b, o)),
        covers(pre, o) ==> value_at(pre.push(b), o) == value_at(pre, o),
        in_block(b, o) ==> value_at(pre.push(b), o) == b.data.contents()[o - b.start],
{
    let bs2 = pre.push(b);
    let n = pre.len() as int;
    assert(blocks_wf(pre)) by {
        assert forall|i: int|
            0 <= i < pre.len() implies 0 < (#[trigger] pre[i]).data.contents().len() && block_end(
            pre[i],
        ) <= usize::MAX by {
            assert(pre[i] == bs2[i]);
        }
        assert forall|i: int, j: int| 0 <= i < j < pre.len() implies block_end(#[trigger] pre[i])
            <= (#[trigger] pre[j]).start by {
            assert(pre[i] == bs2[i] && pre[j] == bs2[j]);
        }
    }
    if covers(bs2, o) {
        let i = choose|i: int| 0 <= i < bs2.len() && in_block(#[trigger] bs2[i], o);
        if i < n {
            assert(in_block(pre[i], o));
            assert(covers(pre, o));
        } else {
            assert(bs2[i] == b);
        }
    }
    if covers(pre, o) {
        let i = choose|i: int| 0 <= i < pre.len() && in_block(#[trigger] pre[i], o);
        assert(in_block(bs2[i], o));
        assert(covers(bs2, o));
        lemma_cover_unique(bs2, o, i);
        lemma_cover_unique(pre, o, i);
    }
    if in_block(b, o) {
        assert(in_block(bs2[n], o));
        assert(covers(bs2, o));
        lemma_cover_unique(bs2, o, n);
    }
}

/// Step lemma for `put_new`: emitting a hole block `[cur, h_end)` cut from the
/// data keeps the rebuild relation, with `cur` advanced to the hole's end.
proof fn lemma_put_hole_push<T: ContiguousCollection>(
    old0: Seq<Block<T>>,
    out: Seq<Block<T>>,
    k: int,
    cur: int,
    offset: int,
    d: Seq<<T as ContiguousCollection>::Elem>,
    blk: Block<T>,
)
    requires
        blocks_wf(old0),
        0 <= k <= old0.len(),
        blocks_wf(out),
        put_state_ok(old0, out, k, cur, offset, d),
        offset <= cur < offset + d.len(),
        blk.start == cur,
        cur < block_end(blk) <= offset + d.len(),
        block_end(blk) <= usize::MAX,
        k < old0.len() ==> block_end(blk) <= old0[k].start,
        blk.data.contents() == d.subrange(cur - offset, block_end(blk) - offset),
        out.len() > 0 ==> block_end(out.last()) <= cur,
    ensures
        blocks_wf(out.push(blk)),
        put_state_ok(old0, out.push(blk), k, block_end(blk), offset, d),
        block_end(out.push(blk).last()) == block_end(blk),
        forall|o: int| cur <= o < block_end(blk) ==> !covers(old0, o),
{
    let h_end = block_end(blk);
    let dend = offset + d.len();
    let prefix = old0.subrange(0, k);
    lemma_wf_push(out, blk);
    let out2 = out.push(blk);
    // The hole lies beyond everything already emitted and before everything
    // not yet processed, so the original map does not cover it.
    assert forall|o: int| cur <= o < h_end implies !covers(old0, o) by {
        if covers(old0, o) {
            let i = choose|i: int| 0 <= i < old0.len() && in_block(#[trigger] old0[i], o);
            if i < k {
                assert(in_block(prefix[i], o));
                assert(covers(prefix, o));
                assert(covers(out, o));
                lemma_covers_below_end(out, o);
            } else {
                if i > k {
                    assert(block_end(old0[k]) <= old0[i].start);
                    assert(old0[k].start < block_end(old0[k]));
                }
                assert(old0[i].start >= h_end);
            }
        }
    }
    let bound = vstd::math::min(cur, dend);
    let bound2 = vstd::math::min(h_end as int, dend);
    assert(bound == cur && bound2 == h_end);
    assert forall|o: int| #[trigger]
        covers(out2, o) <==> covers(prefix, o) || (offset <= o < bound2) by {
        lemma_push_cover_at(out, blk, o);
    }
    assert forall|o: int| #[trigger] covers(prefix, o) implies value_at(out2, o) == value_at(
        old0,
        o,
    ) by {
        lemma_push_cover_at(out, blk, o);
        assert(covers(out, o));
        if in_block(blk, o) {
            assert(!covers(old0, o));
            let i = choose|i: int| 0 <= i < prefix.len() && in_block(#[trigger] prefix[i], o);
            assert(in_block(old0[i], o));
        }
    }
    assert forall|o: int|
        offset <= o < bound2 && !covers(old0, o) implies #[trigger] value_at(out2, o) == d[o
        - offset] by {
        lemma_push_cover_at(out, blk, o);
        if o < bound {
            assert(covers(out, o));
            if in_block(blk, o) {
                assert(o >= cur);
            }
            assert(value_at(out2, o) == value_at(out, o));
        } else {
            assert(cur <= o < h_end);
            assert(in_block(blk, o));
            assert(value_at(out2, o) == blk.data.contents()[o - blk.start]);
            assert(blk.data.contents()[o - cur] == d.subrange(cur - offset, h_end - offset)[o
                - cur]);
        }
    }
}

/// Step lemma for `put_new`: re-emitting the next original block keeps the
/// rebuild relation, with `cur` skipped over the block when it covers `cur`.
proof fn lemma_put_block_push<T: ContiguousCollection>(
    old0: Seq<Block<T>>,
    out: Seq<Block<T>>,
    k: int,
    cur: int,
    cur2: int,
    offset: int,
    d: Seq<<T as ContiguousCollection>::Elem>,
)
    requires
        blocks_wf(old0),
        0 <= k < old0.len(),
        blocks_wf(out),
        put_state_ok(old0, out, k, cur, offset, d),
        offset <= cur,
        cur2 == if old0[k].start <= cur < block_end(old0[k]) {
            block_end(old0[k])
        } else {
            cur
        },
        out.len() > 0 ==> block_end(out.last()) <= old0[k].start,
    ensures
        blocks_wf(out.push(old0[k])),
        put_state_ok(old0, out.push(old0[k]), k + 1, cur2, offset, d),
{
    let b = old0[k];
    let dend = offset + d.len();
    let prefix = old0.subrange(0, k);
    let prefix2 = old0.subrange(0, k + 1);
    assert(prefix2 =~= prefix.push(b));
    lemma_wf_push(out, b);
    let out2 = out.push(b);
    let bound = vstd::math::min(cur, dend);
    let bound2 = vstd::math::min(cur2, dend);
    assert forall|o: int| #[trigger]
        covers(out2, o) <==> covers(prefix2, o) || (offset <= o < bound2) by {
        lemma_push_cover_at(out, b, o);
        if covers(out2, o) {
            if covers(out, o) {
                if covers(prefix, o) {
                    let i = choose|i: int|
                        0 <= i < prefix.len() && in_block(#[trigger] prefix[i], o);
                    assert(in_block(prefix2[i], o));
                    assert(covers(prefix2, o));
                } else {
                    assert(offset <= o < bound);
                    assert(bound <= bound2);
                }
            } else {
                assert(in_block(b, o));
                assert(in_block(prefix2[k], o));
                assert(covers(prefix2, o));
            }
        }
        if covers(prefix2, o) {
            let i = choose|i: int| 0 <= i < prefix2.len() && in_block(#[trigger] prefix2[i], o);
            if i < k {
                assert(in_block(prefix[i], o));
                assert(covers(prefix, o));
                assert(covers(out, o));
            } else {
                assert(in_block(b, o));
            }
            assert(covers(out2, o));
        }
        if offset <= o < bound2 {
            if o < bound {
                assert(covers(out, o));
                assert(covers(out2, o));
            } else if bound < bound2 {
                // The skip ran: everything between the bounds is inside `b`.
                assert(b.start <= cur < block_end(b));
                assert(cur2 == block_end(b));
                assert(cur <= o) by {
                    if o < cur {
                        assert(o < bound);
                    }
                }
                assert(in_block(b, o));
                assert(covers(out2, o));
            }
        }
    }
    assert forall|o: int| #[trigger] covers(prefix2, o) implies value_at(out2, o) == value_at(
        old0,
        o,
    ) by {
        lemma_push_cover_at(out, b, o);
        let i = choose|i: int| 0 <= i < prefix2.len() && in_block(#[trigger] prefix2[i], o);
        if i < k {
            assert(in_block(prefix[i], o));
            assert(covers(prefix, o));
            assert(covers(out, o));
            if in_block(b, o) {
                assert(in_block(old0[i], o));
                assert(in_block(old0[k], o));
                lemma_cover_unique(old0, o, i);
                lemma_cover_unique(old0, o, k);
                assert(false);
            }
            assert(value_at(out2, o) == value_at(out, o));
        } else {
            assert(in_block(b, o));
            assert(value_at(out2, o) == b.data.contents()[o - b.start]);
            lemma_cover_unique(old0, o, k);
        }
    }
    assert forall|o: int|
        offset <= o < bound2 && !covers(old0, o) implies #[trigger] value_at(out2, o) == d[o
        - offset] by {
        lemma_push_cover_at(out, b, o);
        assert(o < bound) by {
            if bound <= o {
                assert(bound < bound2);
                assert(b.start <= cur < block_end(b));
                assert(in_block(b, o));
                assert(in_block(old0[k], o));
                assert(covers(old0, o));
            }
        }
        assert(covers(out, o));
        if in_block(b, o) {
            assert(in_block(old0[k], o));
            assert(covers(old0, o));
        }
        assert(value_at(out2, o) == value_at(out, o));
    }
}

/// A covered offset lies between the first block's start and the last block's
/// end.
pub proof fn lemma_covers_below_end<T: ContiguousCollection>(bs: Seq<Block<T>>, o: int)
    requires
        blocks_wf(bs),
        covers(bs, o),
    ensures
        bs.len() > 0,
        bs[0].start <= o < block_end(bs.last()),
{
    let i = choose|i: int| 0 <= i < bs.len() && in_block(#[trigger] bs[i], o);
    if i > 0 {
        assert(block_end(bs[0]) <= bs[i].start);
    }
    if i < bs.len() - 1 {
        assert(block_end(bs[i]) <= bs[bs.len() - 1].start);
        assert(bs.last().start < block_end(bs.last()));
    }
}

/// The sum of the block lengths of `bs`.
pub open spec fn mapped_len_of<T: ContiguousCollection>(bs: Seq<Block<T>>) -> int
    decreases bs.len(),
{
    if bs.len() == 0 {
        0
    } else {
        bs[0].data.contents().len() + mapped_len_of(bs.drop_first())
    }
}

proof fn lemma_mapped_len_nonneg<T: ContiguousCollection>(bs: Seq<Block<T>>)
    ensures
        0 <= mapped_len_of(bs),
    decreases bs.len(),
{
    if bs.len() > 0 {
        lemma_mapped_len_nonneg(bs.drop_first());
    }
}

proof fn lemma_mapped_len_concat<T: ContiguousCollection>(a: Seq<Block<T>>, b: Seq<Block<T>>)
    ensures
        mapped_len_of(a + b) == mapped_len_of(a) + mapped_len_of(b),
    decreases a.len(),
{
    if a.len() == 0 {
        assert(a + b =~= b);
    } else {
        assert((a + b)[0] == a[0]);
        assert((a + b).drop_first() =~= a.drop_first() + b);
        lemma_mapped_len_concat(a.drop_first(), b);
    }
}

proof fn lemma_mapped_len_push<T: ContiguousCollection>(bs: Seq<Block<T>>, b: Block<T>)
    ensures
        mapped_len_of(bs.push(b)) == mapped_len_of(bs) + b.data.contents().len(),
{
    lemma_mapped_len_concat(bs, seq![b]);
    assert(bs.push(b) =~= bs + seq![b]);
    assert(seq![b].drop_first() =~= Seq::<Block<T>>::empty());
    assert(mapped_len_of(seq![b]) == b.data.contents().len() + mapped_len_of(
        seq![b].drop_first(),
    ));
}

/// In a well-formed sequence the mapped length fits between the first start
/// and the last end, so it fits in a `usize`.
pub proof fn lemma_mapped_len_bounded<T: ContiguousCollection>(bs: Seq<Block<T>>)
    requires
        blocks_wf(bs),
    ensures
        0 <= mapped_len_of(bs),
        bs.len() > 0 ==> mapped_len_of(bs) <= block_end(bs.last()) - bs[0].start,
        mapped_len_of(bs) <= usize::MAX,
    decreases bs.len(),
{
    if bs.len() > 0 {
        let rest = bs.drop_first();
        assert(blocks_wf(rest)) by {
            assert forall|i: int, j: int| 0 <= i < j < rest.len() implies block_end(
                #[trigger] rest[i],
            ) <= (#[trigger] rest[j]).start by {
                assert(rest[i] == bs[i + 1] && rest[j] == bs[j + 1]);
            }
            assert forall|i: int|
                0 <= i < rest.len() implies 0 < (#[trigger] rest[i]).data.contents().len()
                && block_end(rest[i]) <= usize::MAX by {
                assert(rest[i] == bs[i + 1]);
            }
        }
        lemma_mapped_len_bounded(rest);
        if rest.len() > 0 {
            assert(rest.last() == bs.last());
            assert(rest[0] == bs[1]);
            assert(block_end(bs[0]) <= bs[1].start);
        }
    }
}

/// The pointwise effect of one `put_new(offset, d)` call: offsets that were
/// mapped keep their value, the written region becomes mapped, fresh offsets
/// in it carry the data's elements, and nothing else becomes mapped.
pub open spec fn put_relation<T: ContiguousCollection>(
    pre: Seq<Block<T>>,
    post: Seq<Block<T>>,
    offset: int,
    d: Seq<<T as ContiguousCollection>::Elem>,
) -> bool {
    &&& forall|o: int|
        #[trigger] covers(pre, o) ==> covers(post, o) && value_at(post, o) == value_at(pre, o)
    &&& forall|o: int| offset <= o < offset + d.len() ==> covers(post, o)
    &&& forall|o: int|
        offset <= o < offset + d.len() && !covers(pre, o) ==> #[trigger] value_at(post, o) == d[o
            - offset]
    &&& forall|o: int|
        !covers(pre, o) && !(offset <= o < offset + d.len()) ==> !covers(post, o)
}

/// Whether the region written by the operation `op == (offset, data)` covers
/// offset `o`.
pub open spec fn op_covers<E>(op: (int, Seq<E>), o: int) -> bool {
    op.0 <= o < op.0 + op.1.len()
}

/// A history of `put_new` operations: `maps[0]` is the empty map and each
/// `maps[j + 1]` is related to `maps[j]` by the contract of
/// `put_new(ops[j].0, ops[j].1)`.
pub open spec fn put_chain<T: ContiguousCollection>(
    maps: Seq<Seq<Block<T>>>,
    ops: Seq<(int, Seq<<T as ContiguousCollection>::Elem>)>,
) -> bool {
    &&& maps.len() == ops.len() + 1
    &&& maps[0] == Seq::<Block<T>>::empty()
    &&& forall|j: int|
        0 <= j < ops.len() ==> put_relation(maps[j], maps[j + 1], (#[trigger] ops[j]).0, ops[j].1)
}

/// In a history of `put_new` operations, an offset is mapped after the first
/// `j` steps exactly when one of those steps wrote over it.
pub proof fn lemma_history_coverage<T: ContiguousCollection>(
    maps: Seq<Seq<Block<T>>>,
    ops: Seq<(int, Seq<<T as ContiguousCollection>::Elem>)>,
    o: int,
    j: int,
)
    requires
        put_chain(maps, ops),
        0 <= j < maps.len(),
    ensures
        covers(maps[j], o) <==> exists|l: int| 0 <= l < j && op_covers(#[trigger] ops[l], o),
    decreases j,
{
    if j == 0 {
        assert(!covers(maps[0], o));
    } else {
        lemma_history_coverage(maps, ops, o, j - 1);
        let jj = j - 1;
        assert(put_relation(maps[jj], maps[jj + 1], (ops[jj]).0, ops[jj].1));
        assert(maps[jj + 1] == maps[j]);
        if covers(maps[j], o) {
            if !covers(maps[j - 1], o) {
                assert(op_covers(ops[j - 1], o)) by {
                    if !op_covers(ops[j - 1], o) {
                        assert(!covers(maps[j], o));
                    }
                }
            } else {
                let l = choose|l: int| 0 <= l < j - 1 && op_covers(#[trigger] ops[l], o);
                assert(op_covers(ops[l], o));
            }
        }
        if exists|l: int| 0 <= l < j && op_covers(#[trigger] ops[l], o) {
            let l = choose|l: int| 0 <= l < j && op_covers(#[trigger] ops[l], o);
            if l < j - 1 {
                assert(covers(maps[j - 1], o));
            } else {
                assert(op_covers(ops[j - 1], o));
            }
        }
    }
}

/// Once mapped, an offset keeps its value through all later steps of a
/// history.
pub proof fn lemma_history_preserves<T: ContiguousCollection>(
    maps: Seq<Seq<Block<T>>>,
    ops: Seq<(int, Seq<<T as ContiguousCollection>::Elem>)>,
    o: int,
    j: int,
)
    requires
        put_chain(maps, ops),
        0 <= j < maps.len(),
        covers(maps[j], o),
    ensures
        covers(maps.last(), o),
        value_at(maps.last(), o) == value_at(maps[j], o),
    decreases maps.len() - j,
{
    if j < maps.len() - 1 {
        assert(put_relation(maps[j], maps[j + 1], (ops[j]).0, ops[j].1));
        lemma_history_preserves(maps, ops, o, j + 1);
    }
}

/// First writer wins. For any history of `put_new` operations starting from
/// the empty map and any offset `o`, the final map holds at `o` exactly the
/// element written by the first operation of the history that covered `o`.
/// The final contents therefore depend only on the order in which the
/// operations were applied, which is what a serial ordering of interleaved
/// overlapping writes produces.
pub proof fn lemma_first_writer_wins<T: ContiguousCollection>(
    maps: Seq<Seq<Block<T>>>,
    ops: Seq<(int, Seq<<T as ContiguousCollection>::Elem>)>,
    o: int,
    i: int,
)
    requires
        put_chain(maps, ops),
        0 <= i < ops.len(),
        op_covers(ops[i], o),
        forall|l: int| 0 <= l < i ==> !op_covers(#[trigger] ops[l], o),
    ensures
        covers(maps.last(), o),
        value_at(maps.last(), o) == ops[i].1[o - ops[i].0],
{
    lemma_history_coverage(maps, ops, o, i);
    assert(!covers(maps[i], o));
    assert(put_relation(maps[i], maps[i + 1], (ops[i]).0, ops[i].1));
    assert(covers(maps[i + 1], o));
    assert(value_at(maps[i + 1], o) == ops[i].1[o - ops[i].0]);
    lemma_history_preserves(maps, ops, o, i + 1);
}

/// A `put_new` whose region is already fully mapped is a no-op: it changes
/// neither which offsets are mapped nor any mapped value.
pub proof fn lemma_put_covered_no_op<T: ContiguousCollection>(
    pre: Seq<Block<T>>,
    post: Seq<Block<T>>,
    offset: int,
    d: Seq<<T as ContiguousCollection>::Elem>,
)
    requires
        put_relation(pre, post, offset, d),
        forall|o: int| offset <= o < offset + d.len() ==> covers(pre, o),
    ensures
        forall|o: int| #[trigger] covers(post, o) <==> covers(pre, o),
        forall|o: int| #[trigger] covers(pre, o) ==> value_at(post, o) == value_at(pre, o),
{
    assert forall|o: int| #[trigger] covers(post, o) <==> covers(pre, o) by {
        if covers(post, o) && !covers(pre, o) {
            if offset <= o < offset + d.len() {
                assert(covers(pre, o));
            } else {
                assert(!covers(post, o));
            }
        }
    }
}

/// The number of offsets of `[lo, hi)` that the map covers.
pub open spec fn covered_count<T: ContiguousCollection>(bs: Seq<Block<T>>, lo: int, hi: int) -> int
    decreases hi - lo,
{
    if lo >= hi {
        0
    } else {
        (if covers(bs, lo) {
            1int
        } else {
            0int
        }) + covered_count(bs, lo + 1, hi)
    }
}

proof fn lemma_cc_split<T: ContiguousCollection>(bs: Seq<Block<T>>, lo: int, m: int, hi: int)
    requires
        lo <= m <= hi,
    ensures
        covered_count(bs, lo, hi) == covered_count(bs, lo, m) + covered_count(bs, m, hi),
    decreases m - lo,
{
    if lo < m {
        lemma_cc_split(bs, lo + 1, m, hi);
    }
}

proof fn lemma_cc_zero<T: ContiguousCollection>(bs: Seq<Block<T>>, lo: int, hi: int)
    requires
        forall|o: int| lo <= o < hi ==> !covers(bs, o),
    ensures
        covered_count(bs, lo, hi) == 0,
    decreases hi - lo,
{
    if lo < hi {
        lemma_cc_zero(bs, lo + 1, hi);
    }
}

proof fn lemma_cc_same<T: ContiguousCollection>(
    bs1: Seq<Block<T>>,
    bs2: Seq<Block<T>>,
    lo: int,
    hi: int,
)
    requires
        forall|o: int| lo <= o < hi ==> (covers(bs1, o) <==> covers(bs2, o)),
    ensures
        covered_count(bs1, lo, hi) == covered_count(bs2, lo, hi),
    decreases hi - lo,
{
    if lo < hi {
        lemma_cc_same(bs1, bs2, lo + 1, hi);
    }
}

/// The mapped length is the number of covered offsets: over any span that
/// contains every block, counting the covered offsets gives exactly the sum
/// of the block lengths.
pub proof fn lemma_mapped_len_is_covered_count<T: ContiguousCollection>(
    bs: Seq<Block<T>>,
    lo: int,
    hi: int,
)
    requires
        blocks_wf(bs),
        lo <= hi,
        forall|i: int|
            0 <= i < bs.len() ==> lo <= (#[trigger] bs[i]).start && block_end(bs[i]) <= hi,
    ensures
        mapped_len_of(bs) == covered_count(bs, lo, hi),
    decreases bs.len(),
{
    if bs.len() == 0 {
        assert forall|o: int| lo <= o < hi implies !covers(bs, o) by {}
        lemma_cc_zero(bs, lo, hi);
    } else {
        let b0 = bs[0];
        let s0 = b0.start as int;
        let e0 = block_end(b0);
        let rest = bs.drop_first();
        assert(lo <= s0 < e0 <= hi);
        assert(blocks_wf(rest)) by {
            assert forall|i: int|
                0 <= i < rest.len() implies 0 < (#[trigger] rest[i]).data.contents().len()
                && block_end(rest[i]) <= usize::MAX by {
                assert(rest[i] == bs[i + 1]);
            }
            assert forall|i: int, j: int| 0 <= i < j < rest.len() implies block_end(
                #[trigger] rest[i],
            ) <= (#[trigger] rest[j]).start by {
                assert(rest[i] == bs[i + 1] && rest[j] == bs[j + 1]);
            }
        }
        lemma_cc_split(bs, lo, s0, hi);
        lemma_cc_split(bs, s0, e0, hi);
        // Nothing sits below the first block.
        assert forall|o: int| lo <= o < s0 implies !covers(bs, o) by {
            if covers(bs, o) {
                let i = choose|i: int| 0 <= i < bs.len() && in_block(#[trigger] bs[i], o);
                if i > 0 {
                    assert(block_end(bs[0]) <= bs[i].start);
                }
            }
        }
        lemma_cc_zero(bs, lo, s0);
        // The first block covers its own span completely.
        assert forall|o: int| s0 <= o < e0 implies covers(bs, o) by {
            assert(in_block(bs[0], o));
        }
        lemma_fully_mapped_iff_count(bs, s0, e0);
        // Beyond the first block, coverage is the remaining blocks'.
        assert forall|o: int| e0 <= o < hi implies (covers(bs, o) <==> covers(rest, o)) by {
            if covers(bs, o) {
                let i = choose|i: int| 0 <= i < bs.len() && in_block(#[trigger] bs[i], o);
                assert(i > 0);
                assert(rest[i - 1] == bs[i]);
                assert(in_block(rest[i - 1], o));
            }
            if covers(rest, o) {
                let i = choose|i: int| 0 <= i < rest.len() && in_block(#[trigger] rest[i], o);
                assert(rest[i] == bs[i + 1]);
                assert(in_block(bs[i + 1], o));
            }
        }
        lemma_cc_same(bs, rest, e0, hi);
        assert forall|i: int|
            0 <= i < rest.len() implies e0 <= (#[trigger] rest[i]).start && block_end(rest[i])
            <= hi by {
            assert(rest[i] == bs[i + 1]);
            assert(block_end(bs[0]) <= bs[i + 1].start);
        }
        lemma_mapped_len_is_covered_count(rest, e0, hi);
    }
}

/// A range of the map holds no hole exactly when the number of covered
/// offsets in it equals its length. Together with the contract of
/// `union_discontinuous_range`, which returns `None` exactly when every
/// offset of the range is covered, this characterises `None` as "the mapped
/// length restricted to the range equals the range's length".
pub proof fn lemma_fully_mapped_iff_count<T: ContiguousCollection>(
    bs: Seq<Block<T>>,
    lo: int,
    hi: int,
)
    requires
        lo <= hi,
    ensures
        0 <= covered_count(bs, lo, hi) <= hi - lo,
        (covered_count(bs, lo, hi) == hi - lo) <==> (forall|o: int|
            lo <= o < hi ==> covers(bs, o)),
    decreases hi - lo,
{
    if lo < hi {
        lemma_fully_mapped_iff_count(bs, lo + 1, hi);
        if covered_count(bs, lo, hi) == hi - lo {
            assert(covers(bs, lo));
        }
        if forall|o: int| lo <= o < hi ==> covers(bs, o) {
            assert(covers(bs, lo));
            assert(forall|o: int| lo + 1 <= o < hi ==> covers(bs, o));
        }
    }
}

} // verus!
