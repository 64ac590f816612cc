//! Reading the total size of a resource from the answer to a probe request.
//!
//! A probe asks for the first byte only (`Range: bytes=0-0`). A server that
//! honours the range answers `206 Partial Content` with a header
//! `Content-Range: bytes 0-0/<total>`; one that ignores it answers with the
//! whole body and its `Content-Length`.
use vstd::prelude::*;
use crate::error::TransferError;

verus! {

/// HTTP status of a partial-content answer.
pub const PARTIAL_CONTENT: u16 = 206;

/// An ASCII decimal digit.
pub open spec fn is_digit(b: u8) -> bool {
    48 <= b <= 57
}

/// A non-empty run of ASCII decimal digits.
pub open spec fn all_digits(s: Seq<u8>) -> bool {
    s.len() > 0 && forall|i: int| 0 <= i < s.len() ==> is_digit(#[trigger] s[i])
}

/// The number that a run of decimal digits denotes.
pub open spec fn decimal_value(s: Seq<u8>) -> nat
    decreases s.len(),
{
    if s.len() == 0 {
        0
    } else {
        decimal_value(s.drop_last()) * 10 + (s.last() - 48) as nat
    }
}

/// The unit that opens a byte-range header: `bytes` and a space.
pub open spec fn bytes_unit() -> Seq<u8> {
    seq![98u8, 121u8, 116u8, 101u8, 115u8, 32u8]
}

/// The range part of a `Content-Range` value: `*`, or `first-last` with both
/// bounds in decimal digits.
pub open spec fn valid_range_part(r: Seq<u8>) -> bool {
    r == seq![42u8] || exists|q: int|
        0 <= q < r.len() && r[q] == 45u8 && all_digits(#[trigger] r.take(q)) && all_digits(
            r.skip(q + 1),
        )
}

/// `h` reads `bytes <range>/<total>` with its slash at position `p`.
pub open spec fn content_range_split(h: Seq<u8>, p: int) -> bool {
    &&& 6 <= p < h.len()
    &&& h.take(6) == bytes_unit()
    &&& h[p] == 47u8
    &&& valid_range_part(h.subrange(6, p))
    &&& all_digits(h.skip(p + 1))
}

/// The complete length that a `Content-Range` value announces, if it is well
/// formed and gives one.
pub open spec fn content_range_total(h: Seq<u8>) -> Option<nat> {
    if exists|p: int| content_range_split(h, p) {
        Some(decimal_value(h.skip((choose|p: int| content_range_split(h, p)) + 1)))
    } else {
        None
    }
}

/// A number as a `u64`, when it fits one.
pub open spec fn as_u64(v: Option<nat>) -> Option<u64> {
    match v {
        Some(n) => if n <= u64::MAX {
            Some(n as u64)
        } else {
            None
        },
        None => None,
    }
}

/// The total size that a probe answer gives: the total of a well-formed
/// `Content-Range`; failing that, the `Content-Length` of an answer that is
/// not partial (the length of a partial answer is that of the part).
pub open spec fn probe_total_size(status: u16, content_length: Option<u64>, content_range: Option<
    Seq<u8>,
>) -> Option<u64> {
    let from_range = match content_range {
        Some(h) => as_u64(content_range_total(h)),
        None => None,
    };
    if from_range is Some {
        from_range
    } else if status != PARTIAL_CONTENT {
        content_length
    } else {
        None
    }
}

proof fn lemma_decimal_value_step(s: Seq<u8>, i: int)
    requires
        0 <= i < s.len(),
    ensures
        decimal_value(s.take(i + 1)) == decimal_value(s.take(i)) * 10 + (s[i] - 48) as nat,
{
    assert(s.take(i + 1).drop_last() =~= s.take(i));
}

proof fn lemma_decimal_value_grows(s: Seq<u8>, i: int, j: int)
    requires
        0 <= i <= j <= s.len(),
        forall|k: int| 0 <= k < s.len() ==> is_digit(#[trigger] s[k]),
    ensures
        decimal_value(s.take(i)) <= decimal_value(s.take(j)),
    decreases j - i,
{
    if i < j {
        lemma_decimal_value_grows(s, i, j - 1);
        lemma_decimal_value_step(s, j - 1);
    }
}

/// The value of the decimal digits `s[lo..hi]`, when they are all digits, at
/// least one, and their value fits a `u64`.
fn parse_decimal(s: &[u8], lo: usize, hi: usize) -> (r: Option<u64>)
    requires
        lo <= hi <= s@.len(),
    ensures
        r == (if all_digits(s@.subrange(lo as int, hi as int)) {
            as_u64(Some(decimal_value(s@.subrange(lo as int, hi as int))))
        } else {
            None
        }),
{
    let ghost d = s@.subrange(lo as int, hi as int);
    if !parse_decimal_shape(s, lo, hi) {
        return None;
    }
    assert(all_digits(d));
    let mut v: u64 = 0;
    let mut i: usize = lo;
    assert(d.take(0) =~= Seq::<u8>::empty());
    while i < hi
        invariant
            lo <= i <= hi <= s@.len(),
            d == s@.subrange(lo as int, hi as int),
            all_digits(d),
            v as nat == decimal_value(d.take(i - lo)),
        decreases hi - i,
    {
        assert(is_digit(d[i - lo]));
        assert(d[i - lo] == s@[i as int]);
        let digit = (s[i] - 48) as u64;
        proof {
            lemma_decimal_value_step(d, i - lo);
        }
        if v > (u64::MAX - digit) / 10 {
            proof {
                lemma_decimal_value_grows(d, i - lo + 1, d.len() as int);
                assert(d.take(d.len() as int) =~= d);
                assert(v * 10 + digit > u64::MAX) by (nonlinear_arith)
                    requires
                        v > (u64::MAX - digit) / 10,
                        digit <= 9,
                ;
            }
            return None;
        }
        assert(v * 10 + digit <= u64::MAX) by (nonlinear_arith)
            requires
                v <= (u64::MAX - digit) / 10,
                digit <= 9,
        ;
        v = v * 10 + digit;
        i = i + 1;
    }
    assert(d.take(d.len() as int) =~= d);
    Some(v)
}

/// A valid range part holds no slash.
proof fn lemma_range_part_has_no_slash(r: Seq<u8>, k: int)
    requires
        valid_range_part(r),
        0 <= k < r.len(),
    ensures
        r[k] != 47u8,
{
    if r != seq![42u8] {
        let q = choose|q: int|
            0 <= q < r.len() && r[q] == 45u8 && all_digits(#[trigger] r.take(q)) && all_digits(
                r.skip(q + 1),
            );
        if k < q {
            assert(is_digit(r.take(q)[k]));
        } else if k > q {
            assert(is_digit(r.skip(q + 1)[k - q - 1]));
        }
    }
}

/// Whether `r` is a valid range part.
fn check_range_part(h: &[u8], lo: usize, hi: usize) -> (ok: bool)
    requires
        lo <= hi <= h@.len(),
    ensures
        ok == valid_range_part(h@.subrange(lo as int, hi as int)),
{
    let ghost r = h@.subrange(lo as int, hi as int);
    if hi - lo == 1 && h[lo] == 42 {
        assert(r =~= seq![42u8]);
        return true;
    }
    assert(r != seq![42u8]) by {
        if r == seq![42u8] {
            assert(r.len() == 1 && r[0] == 42u8);
        }
    }
    let mut q: usize = lo;
    while q < hi && h[q] != 45
        invariant
            lo <= q <= hi <= h@.len(),
            r == h@.subrange(lo as int, hi as int),
            forall|m: int| 0 <= m < q - lo ==> r[m] != 45u8,
        decreases hi - q,
    {
        q = q + 1;
    }
    if q == hi {
        assert(!valid_range_part(r)) by {
            if exists|q2: int|
                0 <= q2 < r.len() && r[q2] == 45u8 && all_digits(#[trigger] r.take(q2))
                    && all_digits(r.skip(q2 + 1)) {
                let q2 = choose|q2: int|
                    0 <= q2 < r.len() && r[q2] == 45u8 && all_digits(#[trigger] r.take(q2))
                        && all_digits(r.skip(q2 + 1));
                assert(r[q2] != 45u8);
            }
        }
        return false;
    }
    let ghost qi = q - lo;
    let before = parse_decimal_shape(h, lo, q);
    let after = parse_decimal_shape(h, q + 1, hi);
    assert(r.take(qi) =~= h@.subrange(lo as int, q as int));
    assert(r.skip(qi + 1) =~= h@.subrange(q + 1, hi as int));
    proof {
        if exists|q2: int|
            0 <= q2 < r.len() && r[q2] == 45u8 && all_digits(#[trigger] r.take(q2)) && all_digits(
                r.skip(q2 + 1),
            ) {
            let q2 = choose|q2: int|
                0 <= q2 < r.len() && r[q2] == 45u8 && all_digits(#[trigger] r.take(q2))
                    && all_digits(r.skip(q2 + 1));
            if q2 > qi {
                assert(is_digit(r.take(q2)[qi]));
            }
            assert(q2 == qi);
        }
    }
    before && after
}

/// Whether `h[lo..hi]` is a non-empty run of decimal digits.
fn parse_decimal_shape(h: &[u8], lo: usize, hi: usize) -> (ok: bool)
    requires
        lo <= hi <= h@.len(),
    ensures
        ok == all_digits(h@.subrange(lo as int, hi as int)),
{
    let ghost d = h@.subrange(lo as int, hi as int);
    if lo == hi {
        return false;
    }
    let mut k: usize = lo;
    while k < hi
        invariant
            lo <= k <= hi <= h@.len(),
            d == h@.subrange(lo as int, hi as int),
            forall|m: int| 0 <= m < k - lo ==> is_digit(#[trigger] d[m]),
        decreases hi - k,
    {
        if h[k] < 48 || h[k] > 57 {
            assert(!is_digit(d[k - lo]));
            return false;
        }
        k = k + 1;
    }
    true
}

/// The complete length announced by a `Content-Range` header value such as
/// `bytes 0-0/702517648`; `None` when the value is not of that form (an
/// unknown total `*` included) or the total does not fit a `u64`.
pub fn parse_content_range_total(h: &[u8]) -> (r: Option<u64>)
    ensures
        r == as_u64(content_range_total(h@)),
{
    if h.len() < 6 || h[0] != 98 || h[1] != 121 || h[2] != 116 || h[3] != 101 || h[4] != 115
        || h[5] != 32 {
        assert(!exists|p: int| content_range_split(h@, p)) by {
            if exists|p: int| content_range_split(h@, p) {
                let p = choose|p: int| content_range_split(h@, p);
                assert(h@.take(6)[0] == 98u8 && h@.take(6)[1] == 121u8 && h@.take(6)[2] == 116u8
                    && h@.take(6)[3] == 101u8 && h@.take(6)[4] == 115u8 && h@.take(6)[5] == 32u8);
            }
        }
        return None;
    }
    assert(h@.take(6) =~= bytes_unit());
    let mut p: usize = 6;
    while p < h.len() && h[p] != 47
        invariant
            6 <= p <= h@.len(),
            forall|m: int| 6 <= m < p ==> h@[m] != 47u8,
        decreases h@.len() - p,
    {
        p = p + 1;
    }
    // Any split of the header has its slash at the first one.
    assert forall|p2: int| #[trigger] content_range_split(h@, p2) implies p2 == p by {
        if p2 > p {
            lemma_range_part_has_no_slash(h@.subrange(6, p2), p - 6);
        }
    }
    if p == h.len() {
        return None;
    }
    let range_ok = check_range_part(h, 6, p);
    if !range_ok {
        return None;
    }
    let total = parse_decimal(h, p + 1, h.len());
    assert(h@.subrange(p + 1, h@.len() as int) =~= h@.skip(p + 1));
    if total.is_none() {
        return None;
    }
    assert(content_range_split(h@, p as int));
    total
}

/// The total size of a resource from the answer to its probe: the status, the
/// `Content-Length` if the answer had one, and the raw `Content-Range` value if
/// it had one. Fails with `SizeUnavailable` when neither gives the size, before
/// any chunk is planned.
pub fn resolve_total_size(status: u16, content_length: Option<u64>, content_range: Option<&[u8]>)
    -> (r: Result<u64, TransferError>)
    ensures
        r == (match probe_total_size(
            status,
            content_length,
            match content_range {
                Some(h) => Some(h@),
                None => None,
            },
        ) {
            Some(n) => Ok::<u64, TransferError>(n),
            None => Err(TransferError::SizeUnavailable),
        }),
{
    let from_range = match content_range {
        Some(h) => parse_content_range_total(h),
        None => None,
    };
    match from_range {
        Some(n) => Ok(n),
        None => {
            if status != PARTIAL_CONTENT {
                match content_length {
                    Some(n) => Ok(n),
                    None => Err(TransferError::SizeUnavailable),
                }
            } else {
                Err(TransferError::SizeUnavailable)
            }
        },
    }
}

} // verus!
