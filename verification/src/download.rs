//! Chunked parallel downloader, compute side: the byte-range partition
//! a known-size resource is split into, the content-length preflight
//! parse, per-unit progress accounting, the range request header, and
//! the all-units-succeeded fan-in decision.
//!
//! The partition pads each range's start by its own index, so there is
//! a one-byte gap between neighbouring ranges and the last range may
//! overshoot the resource size by up to one byte per thread.  That is
//! the downloader's documented behaviour, kept exactly as stated.

use vstd::prelude::*;

use crate::text::{dec_of, push_decimal, push_str_chars, string_from_chars};

verus! {

/// Errors of the download step.
#[derive(Clone, Copy, PartialEq, Eq, Structural, Debug)]
pub enum DownloadError {
    /// The preflight response carried no usable content-length.
    SizeUnknown,
    /// A ranged fetch failed.
    RangeFetchError,
    /// A write into the local file failed.
    WriteError,
}

/// Bytes each thread is assigned: the resource size divided by the
/// thread count, rounded down.
pub open spec fn spec_chunk_size(size: u64, threads: u8) -> int {
    size as int / threads as int
}

/// Start offset of range `i`: `i` chunks plus the `i`-byte pad.
pub open spec fn spec_range_start(size: u64, threads: u8, i: int) -> int {
    spec_chunk_size(size, threads) * i + i
}

/// End offset (exclusive) of range `i`.
pub open spec fn spec_range_end(size: u64, threads: u8, i: int) -> int {
    spec_range_start(size, threads, i) + spec_chunk_size(size, threads)
}

/// Computes the `threads`-way byte-range partition of `[0, size)`.
///
/// Range `i` is `[chunk * i + i, chunk * i + i + chunk)` with
/// `chunk = size / threads`: exactly the stated formula, pad included.
pub fn partition(size: u64, threads: u8) -> (r: Vec<(u64, u64)>)
    requires
        threads >= 1,
        size + threads <= u64::MAX,
    ensures
        r@.len() == threads as int,
        forall|i: int|
            0 <= i < threads as int ==> r@[i].0 == spec_range_start(size, threads, i) && r@[i].1
                == spec_range_end(size, threads, i),
{
    let t64 = threads as u64;
    let chunk = size / t64;
    let mut r: Vec<(u64, u64)> = Vec::new();
    let mut i: u8 = 0;
    while i < threads
        invariant
            1 <= threads,
            size + threads <= u64::MAX,
            t64 == threads as u64,
            chunk == spec_chunk_size(size, threads),
            i <= threads,
            r@.len() == i as int,
            forall|k: int|
                0 <= k < i as int ==> r@[k].0 == spec_range_start(size, threads, k) && r@[k].1
                    == spec_range_end(size, threads, k),
        decreases threads - i,
    {
        let pad = i as u64;
        proof {
            lemma_range_end_bound(size, threads, i as int);
        }
        let start = chunk * pad + pad;
        let end = start + chunk;
        r.push((start, end));
        i += 1;
    }
    r
}

/// Every range end stays within `size + threads - 1`, so the offsets
/// fit in the machine word whenever `size + threads` does.
proof fn lemma_range_end_bound(size: u64, threads: u8, i: int)
    requires
        1 <= threads,
        0 <= i < threads as int,
    ensures
        0 <= spec_chunk_size(size, threads),
        spec_range_end(size, threads, i) <= size as int + threads as int - 1,
{
    let c = spec_chunk_size(size, threads);
    let t = threads as int;
    vstd::arithmetic::div_mod::lemma_fundamental_div_mod(size as int, t);
    vstd::arithmetic::div_mod::lemma_mod_bound(size as int, t);
    vstd::arithmetic::div_mod::lemma_div_pos_is_pos(size as int, t);
    vstd::arithmetic::mul::lemma_mul_inequality(i + 1, t, c);
    vstd::arithmetic::mul::lemma_mul_is_distributive_add(c, i, 1);
    vstd::arithmetic::mul::lemma_mul_is_commutative(c, t);
    assert(c * (i + 1) == c * i + c);
    assert(c * (i + 1) <= c * t);
    assert(spec_range_end(size, threads, i) == c * (i + 1) + i);
}

/// The partition's load-bearing shape, for every size and thread
/// count: the first range starts at 0; each range starts one byte
/// past the previous one's end (so all ranges are pairwise disjoint);
/// and the last range's end is within `threads - 1` of the resource
/// size (at or past it, never more than the pad total beyond it).
pub proof fn lemma_partition_shape(size: u64, threads: u8)
    requires
        1 <= threads,
    ensures
        spec_range_start(size, threads, 0) == 0,
        forall|i: int|
            0 <= i < threads as int - 1 ==> spec_range_start(size, threads, i + 1)
                == spec_range_end(size, threads, i) + 1,
        forall|i: int, j: int|
            0 <= i < j < threads as int ==> spec_range_end(size, threads, i) < spec_range_start(
                size,
                threads,
                j,
            ),
        size as int <= spec_range_end(size, threads, threads as int - 1) <= size as int
            + threads as int - 1,
{
    let c = spec_chunk_size(size, threads);
    let t = threads as int;
    vstd::arithmetic::div_mod::lemma_fundamental_div_mod(size as int, t);
    vstd::arithmetic::div_mod::lemma_mod_bound(size as int, t);
    vstd::arithmetic::div_mod::lemma_div_pos_is_pos(size as int, t);
    assert(c >= 0);
    assert forall|i: int| 0 <= i < t - 1 implies spec_range_start(size, threads, i + 1)
        == spec_range_end(size, threads, i) + 1 by {
        assert(c * (i + 1) == c * i + c) by (nonlinear_arith);
    }
    assert forall|i: int, j: int| 0 <= i < j < t implies spec_range_end(size, threads, i)
        < spec_range_start(size, threads, j) by {
        vstd::arithmetic::mul::lemma_mul_inequality(i + 1, j, c);
        assert(c * (i + 1) == c * i + c) by (nonlinear_arith);
    }
    assert(c * (t - 1) + c == c * t) by (nonlinear_arith);
    assert(c * t == t * c) by (nonlinear_arith);
    assert(spec_range_end(size, threads, t - 1) == t * c + t - 1);
}

/// Digits are the ASCII decimal digits.
pub open spec fn all_digits(s: Seq<char>) -> bool {
    forall|i: int| 0 <= i < s.len() ==> '0' <= s[i] && s[i] <= '9'
}

/// Numeric value of a digit sequence, most significant digit first.
pub open spec fn dec_val(s: Seq<char>) -> int
    decreases s.len(),
{
    if s.len() == 0 {
        0
    } else {
        dec_val(s.drop_last()) * 10 + (s.last() as int - '0' as int)
    }
}

/// The digit part of a content-length value: an optional leading `+`
/// is dropped, the rest must be all digits.
pub open spec fn spec_cl_digits(s: Seq<char>) -> Seq<char> {
    if s.len() > 0 && s[0] == '+' {
        s.drop_first()
    } else {
        s
    }
}

/// Whether a string parses as a content-length: non-empty digits
/// (after an optional `+`) whose value fits the machine word.
pub open spec fn spec_cl_ok(s: Seq<char>) -> bool {
    let d = spec_cl_digits(s);
    d.len() > 0 && all_digits(d) && dec_val(d) <= u64::MAX
}

proof fn lemma_dec_val_nonneg(s: Seq<char>)
    requires
        all_digits(s),
    ensures
        dec_val(s) >= 0,
    decreases s.len(),
{
    if s.len() > 0 {
        assert(all_digits(s.drop_last()));
        lemma_dec_val_nonneg(s.drop_last());
    }
}

/// A digit string's value only grows as digits are appended.
proof fn lemma_dec_val_prefix(s: Seq<char>, k: int)
    requires
        all_digits(s),
        0 <= k <= s.len(),
    ensures
        dec_val(s.take(k)) <= dec_val(s),
    decreases s.len() - k,
{
    if k == s.len() {
        assert(s.take(k) =~= s);
    } else {
        assert(all_digits(s.drop_last()));
        lemma_dec_val_nonneg(s.drop_last());
        assert(s.take(k) =~= s.drop_last().take(k));
        lemma_dec_val_prefix(s.drop_last(), k);
    }
}

/// Parses a content-length string into a byte count.
///
/// Succeeds exactly on non-empty digit strings (an optional leading
/// `+` allowed) whose value fits; everything else is `SizeUnknown`.
pub fn parse_content_length(s: &str) -> (r: Result<u64, DownloadError>)
    ensures
        r is Ok <==> spec_cl_ok(s@),
        r is Ok ==> r->Ok_0 == dec_val(spec_cl_digits(s@)),
        r is Err ==> r->Err_0 == DownloadError::SizeUnknown,
{
    let n = s.unicode_len();
    let start: usize = if n > 0 && s.get_char(0) == '+' {
        1
    } else {
        0
    };
    proof {
        if start == 1 {
            assert(spec_cl_digits(s@) =~= s@.subrange(1, n as int));
        } else {
            assert(spec_cl_digits(s@) =~= s@.subrange(0, n as int));
        }
    }
    if start == n {
        return Err(DownloadError::SizeUnknown);
    }
    let ghost digits: Seq<char> = s@.subrange(start as int, n as int);
    let mut val: u64 = 0;
    let mut i: usize = start;
    while i < n
        invariant
            n == s@.len(),
            start <= i <= n,
            start < n,
            digits == s@.subrange(start as int, n as int),
            digits == spec_cl_digits(s@),
            all_digits(s@.subrange(start as int, i as int)),
            val == dec_val(s@.subrange(start as int, i as int)),
        decreases n - i,
    {
        let c = s.get_char(i);
        if c < '0' || c > '9' {
            proof {
                assert(digits[i - start] == s@[i as int]);
                assert(!all_digits(digits));
            }
            return Err(DownloadError::SizeUnknown);
        }
        let d: u64 = ((c as u32) - 48) as u64;
        let next: u128 = (val as u128) * 10 + (d as u128);
        proof {
            assert(s@.subrange(start as int, i + 1 as int).drop_last() =~= s@.subrange(
                start as int,
                i as int,
            ));
            assert(s@.subrange(start as int, i + 1 as int).last() == s@[i as int]);
        }
        if next > u64::MAX as u128 {
            proof {
                let taken = s@.subrange(start as int, i + 1 as int);
                assert(all_digits(taken));
                assert(dec_val(taken) > u64::MAX);
                if all_digits(digits) {
                    assert(taken =~= digits.take(i + 1 - start as int));
                    lemma_dec_val_prefix(digits, i + 1 - start as int);
                }
            }
            return Err(DownloadError::SizeUnknown);
        }
        val = next as u64;
        i += 1;
    }
    proof {
        assert(s@.subrange(start as int, n as int) =~= digits);
    }
    Ok(val)
}

/// Reads the preflight's content-length header value: absent or
/// unparsable means the resource's size is unknown and the download
/// cannot be planned.
pub fn preflight_size(header: Option<&str>) -> (r: Result<u64, DownloadError>)
    ensures
        r is Ok <==> (header is Some && spec_cl_ok(header->0@)),
        (r is Ok && header is Some) ==> r->Ok_0 == dec_val(spec_cl_digits(header->0@)),
        r is Err ==> r->Err_0 == DownloadError::SizeUnknown,
{
    match header {
        Some(h) => parse_content_length(h),
        None => Err(DownloadError::SizeUnknown),
    }
}

/// The value of the `Range` request header for one byte range:
/// `bytes=<start>-<end>`.
pub fn range_header_value(start: u64, end: u64) -> (r: String)
    ensures
        r@ == "bytes="@ + dec_of(start as int) + "-"@ + dec_of(end as int),
{
    let mut v: Vec<char> = Vec::new();
    push_str_chars(&mut v, "bytes=");
    push_decimal(&mut v, start);
    push_str_chars(&mut v, "-");
    push_decimal(&mut v, end);
    proof {
        assert(v@ =~= "bytes="@ + dec_of(start as int) + "-"@ + dec_of(end as int));
    }
    string_from_chars(v)
}

/// One unit's progress position after another chunk of the response
/// body arrived: advanced by the chunk's length, but never reported
/// past the unit's own range total.
pub fn progress_advance(progress: u64, chunk_len: u64, total: u64) -> (r: u64)
    requires
        progress <= total,
    ensures
        r == if progress + chunk_len >= total {
            total as int
        } else {
            progress + chunk_len
        },
        r <= total,
{
    if chunk_len >= total - progress {
        total
    } else {
        progress + chunk_len
    }
}

/// The fan-in decision: a download is complete only when every
/// concurrent unit finished without error.  One failed unit fails the
/// whole download, however many others succeeded.
pub fn all_units_ok(results: &Vec<bool>) -> (r: bool)
    ensures
        r <==> (forall|i: int| 0 <= i < results@.len() ==> results@[i]),
{
    let n = results.len();
    let mut i: usize = 0;
    while i < n
        invariant
            n == results@.len(),
            i <= n,
            forall|j: int| 0 <= j < i ==> results@[j],
        decreases n - i,
    {
        if !results[i] {
            return false;
        }
        i += 1;
    }
    true
}

} // verus!
