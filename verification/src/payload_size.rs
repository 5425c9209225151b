//! Sizing a transfer before it is sent.

use vstd::prelude::*;
use vstd::arithmetic::div_mod::{lemma_fundamental_div_mod, lemma_mod_bound};

verus! {

/// Size of a chunk header in bytes: three digits twice (id and total) plus
/// the two-character separator, as in `013OF078`.
pub const HEADER_SIZE_BYTES: u64 = 8;

/// How many pieces a payload of `len` units falls into when every piece
/// carries at most `per` units: `len / per` rounded up.
pub open spec fn chunk_count(len: int, per: int) -> int
    recommends
        len >= 0,
        per >= 1,
{
    (len + per - 1) / per
}

/// The rounded-up quotient computed from floor division and remainder.
pub proof fn lemma_chunk_count_from_div(len: int, per: int)
    requires
        len >= 0,
        per >= 1,
    ensures
        chunk_count(len, per) == len / per + (if len % per == 0 {
            0int
        } else {
            1int
        }),
{
    lemma_fundamental_div_mod(len, per);
    lemma_mod_bound(len, per);
    let q = len / per;
    let m = len % per;
    if m == 0 {
        assert((per * q + per - 1) / per == q) by (nonlinear_arith)
            requires
                per >= 1,
                q >= 0,
        ;
    } else {
        assert((per * q + m + per - 1) / per == q + 1) by (nonlinear_arith)
            requires
                per >= 1,
                q >= 0,
                1 <= m < per,
        ;
    }
}

/// Bounds tying the rounded-up count to the payload it covers.
pub proof fn lemma_chunk_count_bounds(len: int, per: int)
    requires
        len >= 0,
        per >= 1,
    ensures
        chunk_count(len, per) >= 0,
        chunk_count(len, per) * per >= len,
        len > 0 ==> (chunk_count(len, per) - 1) * per < len,
        chunk_count(len, per) > 0 <==> len > 0,
        chunk_count(len, per) <= len,
{
    lemma_fundamental_div_mod(len, per);
    lemma_mod_bound(len, per);
    let q = len / per;
    let m = len % per;
    lemma_chunk_count_from_div(len, per);
    if m == 0 {
        assert(chunk_count(len, per) == q);
        assert(q * per == len) by (nonlinear_arith)
            requires
                len == per * q + m,
                m == 0,
        ;
        assert(len > 0 ==> (q - 1) * per < len && q > 0 && q <= len) by (nonlinear_arith)
            requires
                len == q * per,
                per >= 1,
                q >= 0,
        ;
        assert(len == 0 ==> q == 0) by (nonlinear_arith)
            requires
                len == q * per,
                per >= 1,
                q >= 0,
        ;
    } else {
        assert(chunk_count(len, per) == q + 1);
        assert((q + 1) * per >= len && q * per < len && q + 1 > 0 && q + 1 <= len)
            by (nonlinear_arith)
            requires
                len == per * q + m,
                per >= 1,
                q >= 0,
                1 <= m < per,
        ;
    }
}

/// How many chunks of `chunk_size_bytes` carry a payload of
/// `payload_size_bytes`, when each chunk spends `HEADER_SIZE_BYTES` of its
/// size on its own header.
pub fn number_chunks_overhead(payload_size_bytes: u64, chunk_size_bytes: u16) -> (r: u64)
    requires
        chunk_size_bytes as u64 > HEADER_SIZE_BYTES,
    ensures
        r == chunk_count(
            payload_size_bytes as int,
            chunk_size_bytes as int - HEADER_SIZE_BYTES as int,
        ),
{
    let chunk_payload_size_bytes: u64 = (chunk_size_bytes as u64) - HEADER_SIZE_BYTES;
    let q = payload_size_bytes / chunk_payload_size_bytes;
    let m = payload_size_bytes % chunk_payload_size_bytes;
    proof {
        lemma_chunk_count_from_div(
            payload_size_bytes as int,
            chunk_payload_size_bytes as int,
        );
        lemma_chunk_count_bounds(payload_size_bytes as int, chunk_payload_size_bytes as int);
    }
    if m == 0 {
        q
    } else {
        q + 1
    }
}


/// How many chunks a payload of `len` units falls into when every chunk
/// carries up to `per` units.
pub fn number_chunks(len: u64, per: u64) -> (r: u64)
    requires
        per >= 1,
    ensures
        r == chunk_count(len as int, per as int),
{
    let q = len / per;
    let m = len % per;
    proof {
        lemma_chunk_count_from_div(len as int, per as int);
        lemma_chunk_count_bounds(len as int, per as int);
    }
    if m == 0 {
        q
    } else {
        q + 1
    }
}

} // verus!
