//! The HTTP byte-range codec and the header-driven caching decisions.
//!
//! A request's `range` header value is decoded into a [`RequestRange`]:
//! `bytes=s-e` (closed interval) becomes `FromTo(s, e + 1)`, `bytes=s-`
//! becomes `AllFrom(s)`, `bytes=-n` becomes `Last(n)`; anything else — a
//! missing `bytes=` prefix, several ranges, a start after the end, a number
//! that does not fit — is invalid. Encoding goes the other way, and decoding
//! an encoded range gives the range back.
//!
//! A response's `content-length`, `content-range` and `cache-control` header
//! values, already reduced to plain numbers and flags, decide whether and how
//! long the response may be cached.

use crate::types::{RequestRange, ResponseRange};
use vstd::prelude::*;

verus! {

/// The six bytes of the mandatory `bytes=` prefix.
pub open spec fn bytes_prefix() -> Seq<u8> {
    seq![98u8, 121u8, 116u8, 101u8, 115u8, 61u8]
}

/// Whether `c` is an ASCII decimal digit.
pub open spec fn is_digit(c: u8) -> bool {
    48 <= c <= 57
}

/// Whether `s` consists of decimal digits only.
pub open spec fn all_digits(s: Seq<u8>) -> bool {
    forall|i: int| 0 <= i < s.len() ==> is_digit(#[trigger] s[i])
}

/// The value of a digit string, most significant digit first.
pub open spec fn dec_val(s: Seq<u8>) -> int
    decreases s.len(),
{
    if s.len() == 0 {
        0
    } else {
        dec_val(s.drop_last()) * 10 + (s.last() - 48)
    }
}

/// The decoded number of a digit string, or `None` when it is empty, not all
/// digits, or too large for a `usize`.
pub open spec fn parse_num(s: Seq<u8>) -> Option<usize> {
    if s.len() > 0 && all_digits(s) && dec_val(s) <= usize::MAX {
        Option::Some(dec_val(s) as usize)
    } else {
        Option::None
    }
}

/// The index of the first occurrence of `c` in `s`, or `-1` when absent.
pub open spec fn find_first(s: Seq<u8>, c: u8) -> int
    decreases s.len(),
{
    if s.len() == 0 {
        -1
    } else if s[0] == c {
        0
    } else {
        let r = find_first(s.drop_first(), c);
        if r < 0 {
            -1
        } else {
            r + 1
        }
    }
}

/// The decoded meaning of one `range` header value.
pub open spec fn parse_range_value(s: Seq<u8>) -> Option<RequestRange> {
    if s.len() < 6 || s.subrange(0, 6) != bytes_prefix() {
        Option::None
    } else {
        let rest = s.subrange(6, s.len() as int);
        if find_first(rest, 44) >= 0 {
            // A comma marks a multipart range, which is invalid here.
            Option::None
        } else {
            let d = find_first(rest, 45);
            if d < 0 {
                Option::None
            } else {
                let a = rest.subrange(0, d);
                let b = rest.subrange(d + 1, rest.len() as int);
                if a.len() == 0 {
                    match parse_num(b) {
                        Option::Some(n) => Option::Some(RequestRange::Last(n)),
                        Option::None => Option::None,
                    }
                } else if b.len() == 0 {
                    match parse_num(a) {
                        Option::Some(st) => Option::Some(RequestRange::AllFrom(st)),
                        Option::None => Option::None,
                    }
                } else {
                    match (parse_num(a), parse_num(b)) {
                        (Option::Some(st), Option::Some(en)) => if st <= en && en < usize::MAX {
                            Option::Some(RequestRange::FromTo(st, (en + 1) as usize))
                        } else {
                            Option::None
                        },
                        _ => Option::None,
                    }
                }
            }
        }
    }
}

/// The canonical header value of a request range, or `None` when no header
/// is needed (the whole resource) or none exists (an empty `FromTo`).
pub open spec fn encode_range_value(r: RequestRange) -> Option<Seq<u8>> {
    match r {
        RequestRange::Whole => Option::None,
        RequestRange::AllFrom(s) => Option::Some(bytes_prefix() + dec_repr(s as nat) + seq![45u8]),
        RequestRange::Last(n) => Option::Some(bytes_prefix() + seq![45u8] + dec_repr(n as nat)),
        RequestRange::FromTo(s, e) => if s < e {
            Option::Some(
                bytes_prefix() + dec_repr(s as nat) + seq![45u8] + dec_repr((e - 1) as nat),
            )
        } else {
            Option::None
        },
    }
}

/// The decimal digits of `n`, most significant first.
pub open spec fn dec_repr(n: nat) -> Seq<u8>
    decreases n,
{
    if n < 10 {
        seq![(48 + n) as u8]
    } else {
        dec_repr(n / 10).push((48 + n % 10) as u8)
    }
}

/// Scans for the first occurrence of `c` in `s`.
fn find_byte(s: &[u8], c: u8) -> (r: Option<usize>)
    ensures
        match r {
            Option::Some(i) => i < s@.len() && find_first(s@, c) == i,
            Option::None => find_first(s@, c) == -1,
        },
{
    let n = s.len();
    let mut i: usize = 0;
    while i < n
        invariant
            n == s@.len(),
            0 <= i <= n,
            forall|j: int| 0 <= j < i ==> s@[j] != c,
        decreases n - i,
    {
        if s[i] == c {
            proof {
                lemma_find_first_at(s@, c, i as int);
            }
            return Some(i);
        }
        i = i + 1;
    }
    proof {
        lemma_find_first_absent(s@, c);
    }
    None
}

/// When everything before index `i` differs from `c` and `s[i] == c`, the
/// first occurrence is at `i`.
proof fn lemma_find_first_at(s: Seq<u8>, c: u8, i: int)
    requires
        0 <= i < s.len(),
        s[i] == c,
        forall|j: int| 0 <= j < i ==> s[j] != c,
    ensures
        find_first(s, c) == i,
    decreases i,
{
    if i > 0 {
        assert(s.drop_first()[i - 1] == s[i]);
        assert forall|j: int| 0 <= j < i - 1 implies s.drop_first()[j] != c by {
            assert(s.drop_first()[j] == s[j + 1]);
        }
        lemma_find_first_at(s.drop_first(), c, i - 1);
    }
}

/// When no byte of `s` is `c`, there is no first occurrence.
proof fn lemma_find_first_absent(s: Seq<u8>, c: u8)
    requires
        forall|j: int| 0 <= j < s.len() ==> s[j] != c,
    ensures
        find_first(s, c) == -1,
    decreases s.len(),
{
    if s.len() > 0 {
        assert forall|j: int| 0 <= j < s.drop_first().len() implies s.drop_first()[j] != c by {
            assert(s.drop_first()[j] == s[j + 1]);
        }
        lemma_find_first_absent(s.drop_first(), c);
    }
}

/// Parses the decimal digits of `s`, rejecting anything that is empty, not
/// all digits, or larger than a `usize` holds.
fn parse_decimal(s: &[u8]) -> (r: Option<usize>)
    ensures
        r == parse_num(s@),
{
    let n = s.len();
    if n == 0 {
        return None;
    }
    let mut val: usize = 0;
    let mut i: usize = 0;
    while i < n
        invariant
            n == s@.len(),
            0 <= i <= n,
            all_digits(s@.subrange(0, i as int)),
            val == dec_val(s@.subrange(0, i as int)),
        decreases n - i,
    {
        let c = s[i];
        if c < 48 || c > 57 {
            proof {
                assert(!is_digit(s@[i as int]));
            }
            return None;
        }
        let d = (c - 48) as usize;
        if val > (usize::MAX - d) / 10 {
            // The value no longer fits; by monotonicity the whole string
            // does not either.
            proof {
                assert(10 * val + d > usize::MAX) by (nonlinear_arith)
                    requires
                        val > (usize::MAX - d) / 10,
                        0 <= d <= 9,
                ;
                if all_digits(s@) {
                    lemma_dec_val_prefix_bound(s@, i + 1);
                    assert(s@.subrange(0, i + 1).drop_last() =~= s@.subrange(0, i as int));
                    assert(s@.subrange(0, i + 1).last() == s@[i as int]);
                    assert(dec_val(s@.subrange(0, i + 1)) == val * 10 + d);
                }
            }
            return None;
        }
        proof {
            assert(s@.subrange(0, i + 1).drop_last() =~= s@.subrange(0, i as int));
            assert(s@.subrange(0, i + 1).last() == s@[i as int]);
            assert(all_digits(s@.subrange(0, i + 1))) by {
                assert forall|j: int| 0 <= j < i + 1 implies is_digit(
                    #[trigger] s@.subrange(0, i + 1)[j],
                ) by {
                    if j < i {
                        assert(s@.subrange(0, i + 1)[j] == s@.subrange(0, i as int)[j]);
                    }
                }
            }
            assert(val * 10 + d <= usize::MAX) by (nonlinear_arith)
                requires
                    val <= (usize::MAX - d) / 10,
                    0 <= d <= 9,
            ;
        }
        val = val * 10 + d;
        i = i + 1;
    }
    proof {
        assert(s@.subrange(0, n as int) =~= s@);
    }
    Some(val)
}

/// A digit string is worth at least its prefixes: dropping trailing digits
/// never increases the value.
proof fn lemma_dec_val_prefix_bound(s: Seq<u8>, k: int)
    requires
        0 <= k <= s.len(),
        all_digits(s),
    ensures
        dec_val(s) >= dec_val(s.subrange(0, k)),
        dec_val(s) >= 0,
    decreases s.len() - k,
{
    if k == s.len() {
        assert(s.subrange(0, k) =~= s);
        lemma_dec_val_nonneg(s);
    } else {
        lemma_dec_val_prefix_bound(s, k + 1);
        let p = s.subrange(0, k + 1);
        assert(p.drop_last() =~= s.subrange(0, k));
        lemma_dec_val_nonneg(s.subrange(0, k));
        assert(dec_val(p) == dec_val(s.subrange(0, k)) * 10 + (p.last() - 48));
        assert(is_digit(s[k]));
        assert(dec_val(s.subrange(0, k)) * 10 >= dec_val(s.subrange(0, k))) by (nonlinear_arith)
            requires
                dec_val(s.subrange(0, k)) >= 0,
        ;
    }
}

proof fn lemma_dec_val_nonneg(s: Seq<u8>)
    requires
        all_digits(s),
    ensures
        dec_val(s) >= 0,
    decreases s.len(),
{
    if s.len() > 0 {
        assert(all_digits(s.drop_last())) by {
            assert forall|j: int| 0 <= j < s.len() - 1 implies is_digit(
                #[trigger] s.drop_last()[j],
            ) by {
                assert(s.drop_last()[j] == s[j]);
            }
        }
        lemma_dec_val_nonneg(s.drop_last());
        assert(is_digit(s.last()));
        assert(dec_val(s.drop_last()) * 10 >= 0) by (nonlinear_arith)
            requires
                dec_val(s.drop_last()) >= 0,
        ;
    }
}

/// Decodes one `range` header value.
pub fn parse_range_header(s: &[u8]) -> (r: Option<RequestRange>)
    ensures
        r == parse_range_value(s@),
{
    if s.len() < 6 {
        return None;
    }
    if !(s[0] == 98 && s[1] == 121 && s[2] == 116 && s[3] == 101 && s[4] == 115 && s[5] == 61) {
        proof {
            assert(s@.subrange(0, 6) != bytes_prefix()) by {
                if s@.subrange(0, 6) == bytes_prefix() {
                    assert(s@.subrange(0, 6)[0] == 98);
                    assert(s@.subrange(0, 6)[1] == 121);
                    assert(s@.subrange(0, 6)[2] == 116);
                    assert(s@.subrange(0, 6)[3] == 101);
                    assert(s@.subrange(0, 6)[4] == 115);
                    assert(s@.subrange(0, 6)[5] == 61);
                }
            }
        }
        return None;
    }
    proof {
        assert(s@.subrange(0, 6) =~= bytes_prefix());
    }
    let rest = &s[6..s.len()];
    proof {
        assert(rest@ =~= s@.subrange(6, s@.len() as int));
    }
    if let Some(_) = find_byte(rest, 44) {
        return None;
    }
    let d = match find_byte(rest, 45) {
        None => {
            return None;
        },
        Some(d) => d,
    };
    let a = &rest[0..d];
    let b = &rest[d + 1..rest.len()];
    proof {
        assert(a@ =~= rest@.subrange(0, d as int));
        assert(b@ =~= rest@.subrange(d + 1, rest@.len() as int));
    }
    if a.len() == 0 {
        match parse_decimal(b) {
            Some(n) => Some(RequestRange::Last(n)),
            None => None,
        }
    } else if b.len() == 0 {
        match parse_decimal(a) {
            Some(st) => Some(RequestRange::AllFrom(st)),
            None => None,
        }
    } else {
        match (parse_decimal(a), parse_decimal(b)) {
            (Some(st), Some(en)) => {
                if st <= en && en < usize::MAX {
                    Some(RequestRange::FromTo(st, en + 1))
                } else {
                    None
                }
            },
            _ => None,
        }
    }
}

/// Decodes the request range of a request: no header means the whole
/// resource, an invalid header value means an unsatisfiable request.
pub fn get_request_range(header: Option<&[u8]>) -> (r: Option<RequestRange>)
    ensures
        match header {
            Option::None => r == Option::Some(RequestRange::Whole),
            Option::Some(s) => r == parse_range_value(s@),
        },
{
    match header {
        None => Some(RequestRange::Whole),
        Some(s) => parse_range_header(s),
    }
}

/// Appends the decimal digits of `n` to `out`.
fn push_decimal(n: usize, out: &mut Vec<u8>)
    ensures
        final(out)@ == old(out)@ + dec_repr(n as nat),
    decreases n,
{
    if n >= 10 {
        push_decimal(n / 10, out);
    }
    let digit = (48 + (n % 10) as u8);
    out.push(digit);
    proof {
        if n >= 10 {
            assert(final(out)@ =~= old(out)@ + dec_repr((n / 10) as nat).push(digit));
            assert(dec_repr(n as nat) == dec_repr((n as nat) / 10).push(
                (48 + (n as nat) % 10) as u8,
            ));
            assert(old(out)@ + dec_repr((n / 10) as nat).push(digit) =~= old(out)@ + dec_repr(
                n as nat,
            ));
        } else {
            assert(dec_repr(n as nat) =~= seq![(48 + n) as u8]);
            assert(final(out)@ =~= old(out)@ + dec_repr(n as nat));
        }
    }
}

/// Encodes a request range as a `range` header value, or `None` when no
/// header is called for: the whole resource needs none, and an empty
/// `FromTo` has no closed-interval encoding.
pub fn put_request_range(range: &RequestRange) -> (r: Option<Vec<u8>>)
    ensures
        match r {
            Option::Some(v) => encode_range_value(*range) == Option::Some(v@),
            Option::None => encode_range_value(*range) is None,
        },
{
    let mut out: Vec<u8> = Vec::new();
    out.push(98);
    out.push(121);
    out.push(116);
    out.push(101);
    out.push(115);
    out.push(61);
    proof {
        assert(out@ =~= bytes_prefix());
    }
    match *range {
        RequestRange::Whole => None,
        RequestRange::AllFrom(s) => {
            push_decimal(s, &mut out);
            out.push(45);
            proof {
                assert(out@ =~= bytes_prefix() + dec_repr(s as nat) + seq![45u8]);
            }
            Some(out)
        },
        RequestRange::Last(n) => {
            out.push(45);
            push_decimal(n, &mut out);
            proof {
                assert(out@ =~= bytes_prefix() + seq![45u8] + dec_repr(n as nat));
            }
            Some(out)
        },
        RequestRange::FromTo(s, e) => {
            if s < e {
                push_decimal(s, &mut out);
                out.push(45);
                push_decimal(e - 1, &mut out);
                proof {
                    assert(out@ =~= bytes_prefix() + dec_repr(s as nat) + seq![45u8] + dec_repr(
                        (e - 1) as nat,
                    ));
                }
                Some(out)
            } else {
                None
            }
        },
    }
}

/// Every digit string rendered from a number is non-empty and all digits.
proof fn lemma_dec_repr_digits(n: nat)
    ensures
        dec_repr(n).len() >= 1,
        all_digits(dec_repr(n)),
    decreases n,
{
    if n >= 10 {
        lemma_dec_repr_digits(n / 10);
        assert forall|i: int| 0 <= i < dec_repr(n).len() implies is_digit(
            #[trigger] dec_repr(n)[i],
        ) by {
            if i < dec_repr(n / 10).len() {
                assert(dec_repr(n)[i] == dec_repr(n / 10)[i]);
            }
        }
    }
}

/// Rendering then reading a number is the identity.
proof fn lemma_dec_val_of_repr(n: nat)
    ensures
        dec_val(dec_repr(n)) == n,
    decreases n,
{
    if n < 10 {
        assert(dec_repr(n) =~= seq![(48 + n) as u8]);
        assert(dec_repr(n).drop_last() =~= Seq::<u8>::empty());
        assert(dec_repr(n).last() == (48 + n) as u8);
        assert(dec_val(dec_repr(n)) == dec_val(Seq::<u8>::empty()) * 10 + ((48 + n) as u8 - 48));
    } else {
        lemma_dec_val_of_repr(n / 10);
        assert(dec_repr(n).drop_last() =~= dec_repr(n / 10));
        assert(dec_repr(n).last() == (48 + n % 10) as u8);
        assert(n % 10 < 10) by {
            vstd::arithmetic::div_mod::lemma_mod_bound(n as int, 10);
        }
        assert(dec_val(dec_repr(n)) == (n / 10) * 10 + n % 10);
        assert((n / 10) * 10 + n % 10 == n) by {
            vstd::arithmetic::div_mod::lemma_fundamental_div_mod(n as int, 10);
        }
    }
}

/// A rendered number parses back to itself.
proof fn lemma_parse_num_of_repr(n: usize)
    ensures
        parse_num(dec_repr(n as nat)) == Option::Some(n),
{
    lemma_dec_repr_digits(n as nat);
    lemma_dec_val_of_repr(n as nat);
}

/// Decoding an encoded request range is the identity on the valid single
/// byte ranges: every range that has a header encoding decodes back to
/// itself. (The whole resource and an empty `FromTo` have no encoding; a
/// request without a `range` header already decodes to the whole resource.)
pub proof fn lemma_range_codec_round_trip(r: RequestRange)
    ensures
        match encode_range_value(r) {
            Option::Some(s) => parse_range_value(s) == Option::Some(r),
            Option::None => r is Whole || (r matches RequestRange::FromTo(s, e) && s >= e),
        },
{
    match r {
        RequestRange::Whole => {
        },
        RequestRange::AllFrom(st) => {
            let repr = dec_repr(st as nat);
            lemma_dec_repr_digits(st as nat);
            lemma_parse_num_of_repr(st);
            let full = bytes_prefix() + repr + seq![45u8];
            let rest = full.subrange(6, full.len() as int);
            assert(full.subrange(0, 6) =~= bytes_prefix());
            assert(rest =~= repr + seq![45u8]);
            assert forall|j: int| 0 <= j < rest.len() implies rest[j] != 44 by {
                if j < repr.len() {
                    assert(rest[j] == repr[j] && is_digit(repr[j]));
                }
            }
            lemma_find_first_absent(rest, 44);
            assert forall|j: int| 0 <= j < repr.len() implies rest[j] != 45 by {
                assert(rest[j] == repr[j] && is_digit(repr[j]));
            }
            assert(rest[repr.len() as int] == 45);
            lemma_find_first_at(rest, 45, repr.len() as int);
            assert(rest.subrange(0, repr.len() as int) =~= repr);
            assert(rest.subrange(repr.len() as int + 1, rest.len() as int) =~= Seq::<u8>::empty());
            assert(parse_range_value(full) == Option::Some(RequestRange::AllFrom(st)));
        },
        RequestRange::Last(n) => {
            let repr = dec_repr(n as nat);
            lemma_dec_repr_digits(n as nat);
            lemma_parse_num_of_repr(n);
            let full = bytes_prefix() + seq![45u8] + repr;
            let rest = full.subrange(6, full.len() as int);
            assert(full.subrange(0, 6) =~= bytes_prefix());
            assert(rest =~= seq![45u8] + repr);
            assert forall|j: int| 0 <= j < rest.len() implies rest[j] != 44 by {
                if j > 0 {
                    assert(rest[j] == repr[j - 1] && is_digit(repr[j - 1]));
                }
            }
            lemma_find_first_absent(rest, 44);
            assert(rest[0] == 45);
            lemma_find_first_at(rest, 45, 0);
            assert(rest.subrange(0, 0) =~= Seq::<u8>::empty());
            assert(rest.subrange(1, rest.len() as int) =~= repr);
            assert(parse_range_value(full) == Option::Some(RequestRange::Last(n)));
        },
        RequestRange::FromTo(st, en) => {
            if st < en {
                let ra = dec_repr(st as nat);
                let rb = dec_repr((en - 1) as nat);
                lemma_dec_repr_digits(st as nat);
                lemma_dec_repr_digits((en - 1) as nat);
                lemma_parse_num_of_repr(st);
                lemma_parse_num_of_repr((en - 1) as usize);
                let full = bytes_prefix() + ra + seq![45u8] + rb;
                let rest = full.subrange(6, full.len() as int);
                assert(full.subrange(0, 6) =~= bytes_prefix());
                assert(rest =~= ra + seq![45u8] + rb);
                assert forall|j: int| 0 <= j < rest.len() implies rest[j] != 44 by {
                    if j < ra.len() {
                        assert(rest[j] == ra[j] && is_digit(ra[j]));
                    } else if j > ra.len() {
                        assert(rest[j] == rb[j - ra.len() - 1] && is_digit(rb[j - ra.len() - 1]));
                    }
                }
                lemma_find_first_absent(rest, 44);
                assert forall|j: int| 0 <= j < ra.len() implies rest[j] != 45 by {
                    assert(rest[j] == ra[j] && is_digit(ra[j]));
                }
                assert(rest[ra.len() as int] == 45);
                lemma_find_first_at(rest, 45, ra.len() as int);
                assert(rest.subrange(0, ra.len() as int) =~= ra);
                assert(rest.subrange(ra.len() as int + 1, rest.len() as int) =~= rb);
                assert(parse_range_value(full) == Option::Some(RequestRange::FromTo(st, en)));
            }
        },
    }
}

/// The plain values of a `content-range` header: the closed byte interval it
/// reports, if complete, and the total resource length, if given.
#[derive(Clone, Copy, Debug)]
pub struct ContentRangeValue {
    /// The reported closed interval `lo-hi`, absent when the header carries
    /// an asterisk in its place.
    pub bytes_range: Option<(u64, u64)>,
    /// The reported total length, absent when the header carries an asterisk.
    pub bytes_len: Option<u64>,
}

/// A `u64` length as a `usize` length, when it fits.
pub open spec fn len_as_usize(x: u64) -> Option<usize> {
    if x <= usize::MAX {
        Option::Some(x as usize)
    } else {
        Option::None
    }
}

/// The response range composed from the response's `content-length` and
/// `content-range` values given the request's range.
pub open spec fn response_range_value(
    content_length: Option<u64>,
    content_range: Option<ContentRangeValue>,
    request_range: RequestRange,
) -> Option<ResponseRange> {
    let has_request_range = !(request_range is Whole);
    match content_length {
        Option::None => Option::None,
        Option::Some(cl) => match content_range {
            Option::None => if has_request_range {
                Option::None
            } else {
                match len_as_usize(cl) {
                    Option::Some(n) => Option::Some(
                        ResponseRange { bytes_len: n, bytes_range: RequestRange::Whole },
                    ),
                    Option::None => Option::None,
                }
            },
            Option::Some(cr) => if !has_request_range {
                Option::None
            } else {
                match (cr.bytes_range, cr.bytes_len) {
                    (Option::Some((lo, hi)), Option::Some(total)) => if hi < u64::MAX && lo <= hi
                        && hi + 1 <= total {
                        match (len_as_usize(total), len_as_usize(lo), len_as_usize(
                            (hi + 1) as u64,
                        )) {
                            (Option::Some(n), Option::Some(l), Option::Some(h)) => Option::Some(
                                ResponseRange {
                                    bytes_len: n,
                                    bytes_range: RequestRange::FromTo(l, h),
                                },
                            ),
                            _ => Option::None,
                        }
                    } else {
                        Option::None
                    },
                    _ => Option::None,
                }
            },
        },
    }
}

/// Composes the range a cacheable response carries: the `content-length`
/// header must be present; a `content-range` header must be present exactly
/// when the request asked for a range, and must report both its interval and
/// the total length, with the interval fitting inside the total. The reported
/// closed interval `lo-hi` becomes the half-open `FromTo(lo, hi + 1)`. A
/// range that comes back is always a valid one.
pub fn into_response_range(
    content_length: Option<u64>,
    content_range: Option<ContentRangeValue>,
    request_range: &RequestRange,
) -> (r: Option<ResponseRange>)
    ensures
        r == response_range_value(content_length, content_range, *request_range),
        r matches Option::Some(rr) ==> rr.valid(),
{
    let has_request_range = !matches!(*request_range, RequestRange::Whole);
    let cl = match content_length {
        None => {
            return None;
        },
        Some(cl) => cl,
    };
    match content_range {
        None => {
            if has_request_range {
                None
            } else if cl <= usize::MAX as u64 {
                Some(ResponseRange { bytes_len: cl as usize, bytes_range: RequestRange::Whole })
            } else {
                None
            }
        },
        Some(cr) => {
            if !has_request_range {
                return None;
            }
            match (cr.bytes_range, cr.bytes_len) {
                (Some((lo, hi)), Some(total)) => {
                    if hi < u64::MAX && lo <= hi && hi + 1 <= total && total <= usize::MAX as u64
                        && lo <= usize::MAX as u64 && hi + 1 <= usize::MAX as u64 {
                        Some(
                            ResponseRange {
                                bytes_len: total as usize,
                                bytes_range: RequestRange::FromTo(
                                    lo as usize,
                                    (hi + 1) as usize,
                                ),
                            },
                        )
                    } else {
                        None
                    }
                },
                _ => None,
            }
        },
    }
}

/// The plain values of a `cache-control` header.
#[derive(Clone, Copy, Debug)]
pub struct CacheControlValue {
    /// Whether the header carries `no-cache`.
    pub no_cache: bool,
    /// Whether the header carries `no-store`.
    pub no_store: bool,
    /// The value of `max-age` in the timepoint's unit, if present.
    pub max_age: Option<u64>,
}

/// Decides cacheability and expiry from the response's `cache-control`
/// values at time `now`: an absent header allows caching with no expiry;
/// `no-cache` or `no-store` forbids caching; otherwise a present `max-age`
/// sets the expiry to `now + max_age`, clamped to the timepoint domain.
pub fn get_cache_possible_and_expire_time(
    cache_control: Option<CacheControlValue>,
    now: u64,
) -> (r: (bool, Option<u64>))
    ensures
        match cache_control {
            Option::None => r == (true, Option::<u64>::None),
            Option::Some(cc) => if cc.no_cache || cc.no_store {
                r == (false, Option::<u64>::None)
            } else {
                r.0 == true && r.1 == match cc.max_age {
                    Option::Some(age) => Option::Some(
                        if now + age <= u64::MAX {
                            (now + age) as u64
                        } else {
                            u64::MAX
                        },
                    ),
                    Option::None => Option::<u64>::None,
                }
            },
        },
{
    match cache_control {
        None => (true, None),
        Some(cc) => {
            if cc.no_cache || cc.no_store {
                (false, None)
            } else {
                match cc.max_age {
                    None => (true, None),
                    Some(age) => {
                        let expire = if age <= u64::MAX - now {
                            now + age
                        } else {
                            u64::MAX
                        };
                        (true, Some(expire))
                    },
                }
            }
        },
    }
}

/// Whether a response status allows this engine to consider caching at all:
/// any successful answer.
pub fn should_cache(status: u16) -> (r: bool)
    ensures
        r == (200 <= status <= 299),
{
    200 <= status && status <= 299
}

/// The admission decision for one upstream response: it is reported
/// cacheable exactly when its status allows caching, its headers composed a
/// usable response range, that range's total length is within the
/// per-resource limit, and `cache-control` permits storing it.
pub fn should_cache_response(
    status_allows: bool,
    response_range: Option<ResponseRange>,
    cache_allowed: bool,
    cache_limit: usize,
) -> (r: bool)
    ensures
        r == (status_allows && cache_allowed && match response_range {
            Option::Some(rr) => rr.bytes_len <= cache_limit,
            Option::None => false,
        }),
{
    let within = match response_range {
        Some(rr) => rr.bytes_len <= cache_limit,
        None => false,
    };
    status_allows && cache_allowed && within
}

/// A head request gets headers only: its streamed range collapses to the
/// empty range at the same start.
pub fn empty_range_if_head(is_head: bool, range: core::ops::Range<usize>) -> (r: core::ops::Range<
    usize,
>)
    ensures
        is_head ==> r.start == range.start && r.end == range.start,
        !is_head ==> r == range,
{
    if is_head {
        let start = range.start;
        core::ops::Range { start, end: start }
    } else {
        range
    }
}

} // verus!
