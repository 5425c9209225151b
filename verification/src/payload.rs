//! The base64 collaborator boundary, and the two end-to-end operations
//! built on it.
//!
//! The protocol transports text, but callers hand it raw bytes: on the way
//! out the bytes are base64-encoded and the text split into chunk lines,
//! on the way back the reassembled text is base64-decoded. The transcoding
//! itself is the outside crate's work and is only named here; everything
//! around it — the split, the parse, the validation, the reassembly — is
//! verified against those names.

use vstd::prelude::*;
use crate::assemble::{decode, decode_spec};
use crate::chunk::MAX_FIELD;
use crate::chunk_iterator::{split_spec, ChunkIterator};
use crate::errors::RestoreError;
use crate::payload_size::{chunk_count, lemma_chunk_count_bounds};

verus! {

/// The base64 text that the standard alphabet assigns to `data`. The
/// encoding is a function of the bytes alone; it is named here, not
/// written out.
pub uninterp spec fn base64_encode_of(data: Seq<u8>) -> Seq<char>;

/// The bytes that `text` decodes to under the standard base64 alphabet,
/// or `None` where `text` is not valid base64. A function of the text
/// alone; named here, not written out.
pub uninterp spec fn base64_decode_of(text: Seq<char>) -> Option<Seq<u8>>;

/// Relies on `base64::encode` of the base64 crate: it returns the base64
/// text of the input bytes under the standard alphabet.
#[verifier::external_body]
fn b64_encode(data: &Vec<u8>) -> (r: String)
    ensures
        r@ == base64_encode_of(data@),
{
    base64::encode(data)
}

/// Relies on `base64::decode` of the base64 crate: it returns the bytes
/// behind standard-alphabet base64 text, or an error for invalid input.
#[verifier::external_body]
fn b64_decode(text: &str) -> (r: Option<Vec<u8>>)
    ensures
        match r {
            Some(bytes) => base64_decode_of(text@) == Some(bytes@),
            None => base64_decode_of(text@) is None,
        },
{
    base64::decode(text).ok()
}

/// Encodes `data` as base64 and splits the text into chunk lines of
/// `payload_budget` characters each, in id order.
///
/// Returns `None` when the text would split into more chunks than the
/// wire format's three-digit id field can number.
#[verifier::loop_isolation(false)]
pub fn split_payload(data: &Vec<u8>, payload_budget: u64) -> (r: Option<Vec<String>>)
    requires
        payload_budget >= 1,
    ensures
        ({
            let text = base64_encode_of(data@);
            let total = chunk_count(text.len() as int, payload_budget as int);
            match r {
                Some(lines) => total <= MAX_FIELD && lines.deep_view() == split_spec(
                    text,
                    payload_budget as int,
                ),
                None => total > MAX_FIELD,
            }
        }),
{
    let text = b64_encode(data);
    let ghost t = text@;
    let len = text.as_str().unicode_len();
    proof {
        lemma_chunk_count_bounds(t.len() as int, payload_budget as int);
    }
    let total = crate::payload_size::number_chunks(len as u64, payload_budget);
    if total > MAX_FIELD as u64 {
        return None;
    }
    let mut iter = ChunkIterator::new(text, len as u64, payload_budget);
    let mut lines: Vec<String> = Vec::new();
    assert(lines.deep_view() =~= split_spec(t, payload_budget as int).take(0));
    loop
        invariant
            iter.wf(),
            iter@.data == t,
            iter@.chunk_size == payload_budget,
            iter@.chunk_total == chunk_count(t.len() as int, payload_budget as int),
            lines.deep_view() == split_spec(t, payload_budget as int).take(iter@.next_id - 1),
            1 <= iter@.next_id <= iter@.chunk_total + 1,
        decreases iter@.chunk_total + 1 - iter@.next_id,
    {
        let ghost before = iter@;
        match iter.next() {
            Some(line) => {
                proof {
                    assert(before.next_id <= before.chunk_total);
                    assert(line@ == crate::chunk_iterator::split_chunk_line(
                        t,
                        payload_budget as int,
                        before.next_id - 1,
                    ));
                    assert(split_spec(t, payload_budget as int)[before.next_id - 1] == line@);
                }
                lines.push(line);
                assert(lines.deep_view() =~~= split_spec(t, payload_budget as int).take(
                    before.next_id as int,
                ));
            },
            None => {
                assert(lines.deep_view() =~~= split_spec(t, payload_budget as int));
                return Some(lines);
            },
        }
    }
}

/// The full restore: parses every line, validates the batch, reassembles
/// the text and hands it to the base64 decoder.
///
/// `Err` carries the protocol's own diagnostic. `Ok(None)` means the
/// chunks were complete and consistent but their text is not valid
/// base64.
pub fn restore_payload(lines: &Vec<String>) -> (r: Result<Option<Vec<u8>>, RestoreError>)
    requires
        lines@.len() > 0,
    ensures
        ({
            let d = decode_spec(lines.deep_view());
            match r {
                Err(e) => d == Err::<Seq<char>, crate::errors::RestoreModel>(e@),
                Ok(out) => d is Ok && (match out {
                    Some(bytes) => base64_decode_of(d->Ok_0) == Some(bytes@),
                    None => base64_decode_of(d->Ok_0) is None,
                }),
            }
        }),
{
    let text = match decode(lines) {
        Ok(text) => text,
        Err(e) => { return Err(e) },
    };
    Ok(b64_decode(text.as_str()))
}

} // verus!
