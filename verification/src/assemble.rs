//! Reassembly of a validated batch into the transported text.
//!
//! Given the collection of parsed chunks, validation yields the
//! deduplicated batch sorted by ascending id, and reassembly concatenates
//! its payloads into one text blob — the text the splitter originally cut
//! apart, ready to be handed to the caller's decoder. Concatenation itself
//! cannot fail.

use vstd::prelude::*;
use vstd::string::StringExecFns;
use crate::chunk::{ChunkModel, EncodedChunk};
use crate::errors::{RestoreError, RestoreModel};
use crate::parser;
use crate::validator;

verus! {

/// The payloads of `s` concatenated in sequence order.
pub open spec fn concat_payloads(s: Seq<ChunkModel>) -> Seq<char>
    decreases s.len(),
{
    if s.len() == 0 {
        seq![]
    } else {
        concat_payloads(s.drop_last()) + s.last().payload
    }
}

/// What reassembling a non-empty chunk collection yields: the validator's
/// diagnostic, or the payloads of the validated batch concatenated in
/// ascending id order.
pub open spec fn reassemble_spec(s: Seq<ChunkModel>) -> Result<Seq<char>, RestoreModel>
    recommends
        s.len() > 0,
{
    match validator::check_spec(s) {
        Ok(batch) => Ok(concat_payloads(batch)),
        Err(e) => Err(e),
    }
}

/// What parsing a sequence of raw lines yields: the parsed chunks in line
/// order, or the first structural failure wrapped with its offending line.
pub open spec fn parse_lines_spec(lines: Seq<Seq<char>>) -> Result<Seq<ChunkModel>, RestoreModel>
    decreases lines.len(),
{
    if lines.len() == 0 {
        Ok(seq![])
    } else {
        match parse_lines_spec(lines.drop_last()) {
            Ok(chunks) => match parser::parse_spec(lines.last()) {
                Ok(c) => Ok(chunks.push(c)),
                Err(e) => Err(
                    RestoreModel::ChunkDecodeError { error: e, raw_chunk: lines.last() },
                ),
            },
            Err(e) => Err(e),
        }
    }
}

/// What decoding a collection of raw lines yields: the first structural
/// parse failure, or the validator's diagnostic, or the reassembled text.
pub open spec fn decode_spec(lines: Seq<Seq<char>>) -> Result<Seq<char>, RestoreModel>
    recommends
        lines.len() > 0,
{
    match parse_lines_spec(lines) {
        Ok(chunks) => reassemble_spec(chunks),
        Err(e) => Err(e),
    }
}

/// The model of an exec reassembly result.
pub open spec fn text_result_view(r: Result<String, RestoreError>) -> Result<
    Seq<char>,
    RestoreModel,
> {
    match r {
        Ok(t) => Ok(t@),
        Err(e) => Err(e@),
    }
}

/// Validates `chunks` and concatenates the payloads of the validated batch
/// in ascending id order into one text blob.
pub fn reassemble(chunks: &Vec<EncodedChunk>) -> (r: Result<String, RestoreError>)
    requires
        chunks@.len() > 0,
    ensures
        text_result_view(r) == reassemble_spec(chunks.deep_view()),
        r is Ok <==> validator::valid_batch(chunks.deep_view()),
{
    let batch = match validator::check_chunk_range(chunks) {
        Ok(batch) => batch,
        Err(e) => { return Err(e) },
    };
    let ghost b = batch.deep_view();
    let mut text = String::new();
    let mut i: usize = 0;
    assert(text@ =~= concat_payloads(b.take(0)));
    while i < batch.len()
        invariant
            0 <= i <= batch@.len(),
            b == batch.deep_view(),
            text@ == concat_payloads(b.take(i as int)),
        decreases batch@.len() - i,
    {
        text.append(batch[i].payload.as_str());
        proof {
            assert(b.take(i + 1).drop_last() =~= b.take(i as int));
            assert(b.take(i + 1).last() == b[i as int]);
        }
        i += 1;
    }
    assert(b.take(b.len() as int) =~= b);
    Ok(text)
}

/// Parses every line and reassembles the resulting chunks.
///
/// The first line that fails the structural parse aborts the whole decode
/// with `ChunkDecodeError`; once every line parses, the batch is validated
/// and its text reassembled.
pub fn decode(lines: &Vec<String>) -> (r: Result<String, RestoreError>)
    requires
        lines@.len() > 0,
    ensures
        text_result_view(r) == decode_spec(lines.deep_view()),
{
    let ghost ls = lines.deep_view();
    let mut chunks: Vec<EncodedChunk> = Vec::new();
    let mut i: usize = 0;
    assert(parse_lines_spec(ls.take(0)) == Ok::<Seq<ChunkModel>, RestoreModel>(seq![]));
    assert(chunks.deep_view() =~= Seq::<ChunkModel>::empty());
    while i < lines.len()
        invariant
            0 <= i <= lines@.len(),
            ls == lines.deep_view(),
            parse_lines_spec(ls.take(i as int)) == Ok::<Seq<ChunkModel>, RestoreModel>(
                chunks.deep_view(),
            ),
        decreases lines@.len() - i,
    {
        let line = &lines[i];
        match parser::parse(line.as_str()) {
            Ok(c) => {
                chunks.push(c);
            },
            Err(e) => {
                proof {
                    assert(line@ == ls[i as int]);
                    assert(ls.take(i + 1).drop_last() =~= ls.take(i as int));
                    assert(ls.take(i + 1).last() == ls[i as int]);
                    assert(parse_lines_spec(ls.take(i + 1)) is Err);
                    lemma_parse_lines_prefix_err(ls, i + 1);
                }
                return Err(
                    RestoreError::ChunkDecodeError { error: e, raw_chunk: line.clone() },
                );
            },
        }
        proof {
            assert(ls.take(i + 1).drop_last() =~= ls.take(i as int));
            assert(ls.take(i + 1).last() == ls[i as int]);
            assert(chunks.deep_view() =~~= parse_lines_spec(ls.take(i + 1)) -> Ok_0);
        }
        i += 1;
    }
    assert(ls.take(ls.len() as int) =~= ls);
    reassemble(&chunks)
}

/// Once some prefix of the lines fails to parse, the whole collection
/// fails with the same error.
proof fn lemma_parse_lines_prefix_err(lines: Seq<Seq<char>>, k: int)
    requires
        0 <= k <= lines.len(),
        parse_lines_spec(lines.take(k)) is Err,
    ensures
        parse_lines_spec(lines) == parse_lines_spec(lines.take(k)),
    decreases lines.len() - k,
{
    if k < lines.len() {
        assert(lines.take(k + 1).drop_last() =~= lines.take(k));
        lemma_parse_lines_prefix_err(lines, k + 1);
    } else {
        assert(lines.take(k) =~= lines);
    }
}

} // verus!
