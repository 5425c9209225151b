//! Structural parsing of one raw chunk line.
//!
//! The parse is intentionally minimal: it recovers the id, checks the
//! separator, recovers the total and takes the rest of the line as payload,
//! in that order, and the first failing step wins. No range or cross-chunk
//! consistency check happens here; those belong to the validator.

use vstd::prelude::*;
use vstd::string::{StrSliceExecFns, StringExecFns};
use crate::chunk::{ChunkModel, EncodedChunk};
use crate::errors::ChunkParseError;

verus! {

/// Whether `c` is a decimal digit character.
pub open spec fn is_digit(c: char) -> bool {
    '0' <= c && c <= '9'
}

/// The numeric value of a decimal digit character.
pub open spec fn digit_val(c: char) -> int
    recommends
        is_digit(c),
{
    c as int - 48
}

/// Whether the three characters of `s` starting at `at` are decimal digits.
pub open spec fn three_digits_at(s: Seq<char>, at: int) -> bool
    recommends
        0 <= at,
        at + 3 <= s.len(),
{
    is_digit(s[at]) && is_digit(s[at + 1]) && is_digit(s[at + 2])
}

/// The value of the three-digit decimal number at offset `at` of `s`.
pub open spec fn three_digit_val(s: Seq<char>, at: int) -> int
    recommends
        0 <= at,
        at + 3 <= s.len(),
        three_digits_at(s, at),
{
    100 * digit_val(s[at]) + 10 * digit_val(s[at + 1]) + digit_val(s[at + 2])
}

/// What parsing one raw line yields: the structured chunk, or the first
/// header field that fails, checked in the wire order id, separator, total,
/// payload.
pub open spec fn parse_spec(s: Seq<char>) -> Result<ChunkModel, ChunkParseError> {
    if s.len() < 3 || !three_digits_at(s, 0) {
        Err(ChunkParseError::IdMissing)
    } else if s.len() < 5 || s[3] != 'O' || s[4] != 'F' {
        Err(ChunkParseError::BadSeparator)
    } else if s.len() < 8 || !three_digits_at(s, 5) {
        Err(ChunkParseError::TotalMissing)
    } else if s.len() == 8 {
        Err(ChunkParseError::PayloadMissing)
    } else {
        Ok(
            ChunkModel {
                id: three_digit_val(s, 0) as u16,
                total: three_digit_val(s, 5) as u16,
                payload: s.subrange(8, s.len() as int),
            },
        )
    }
}

/// The model of an exec parse result.
pub open spec fn parse_result_view(r: Result<EncodedChunk, ChunkParseError>) -> Result<
    ChunkModel,
    ChunkParseError,
> {
    match r {
        Ok(c) => Ok(c@),
        Err(e) => Err(e),
    }
}

/// Reads the three-digit decimal number at offset `at` of `chunk`, if the
/// three characters there are all digits.
fn read_three_digits(chunk: &str, at: usize) -> (r: Option<u16>)
    requires
        at + 3 <= chunk@.len(),
        chunk@.len() <= usize::MAX,
    ensures
        match r {
            Some(v) => three_digits_at(chunk@, at as int) && v == three_digit_val(
                chunk@,
                at as int,
            ),
            None => !three_digits_at(chunk@, at as int),
        },
{
    let c0 = chunk.get_char(at);
    let c1 = chunk.get_char(at + 1);
    let c2 = chunk.get_char(at + 2);
    if '0' <= c0 && c0 <= '9' && '0' <= c1 && c1 <= '9' && '0' <= c2 && c2 <= '9' {
        let v0: u32 = c0 as u32 - 48;
        let v1: u32 = c1 as u32 - 48;
        let v2: u32 = c2 as u32 - 48;
        Some((100 * v0 + 10 * v1 + v2) as u16)
    } else {
        None
    }
}

/// Parses one raw chunk line into a structured chunk.
///
/// The steps run in wire order and the first failing one wins: the first
/// three characters must form a decimal id, the next two must be the literal
/// `OF`, the next three must form a decimal total, and at least one payload
/// character must remain after the 8-character header.
pub fn parse(chunk: &str) -> (r: Result<EncodedChunk, ChunkParseError>)
    ensures
        parse_result_view(r) == parse_spec(chunk@),
{
    let n = chunk.unicode_len();
    if n < 3 {
        return Err(ChunkParseError::IdMissing);
    }
    let id = match read_three_digits(chunk, 0) {
        Some(v) => v,
        None => { return Err(ChunkParseError::IdMissing) },
    };
    if n < 5 || chunk.get_char(3) != 'O' || chunk.get_char(4) != 'F' {
        return Err(ChunkParseError::BadSeparator);
    }
    if n < 8 {
        return Err(ChunkParseError::TotalMissing);
    }
    let total = match read_three_digits(chunk, 5) {
        Some(v) => v,
        None => { return Err(ChunkParseError::TotalMissing) },
    };
    if n == 8 {
        return Err(ChunkParseError::PayloadMissing);
    }
    let payload = String::from_str(chunk.substring_char(8, n));
    Ok(EncodedChunk { id, total, payload })
}

} // verus!
