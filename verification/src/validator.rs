//! Batch validation and deduplication.
//!
//! The validator takes an unordered, possibly duplicated collection of
//! parsed chunks and either yields the deduplicated, id-sorted, gap-free
//! sequence needed for reassembly, or a precise diagnostic. The checks run
//! in a fixed order: a chunk whose declared total disagrees with the first
//! chunk's fails the whole batch at once; then missing ids are reported,
//! then unexpected ids, and only a complete batch is checked for duplicates
//! with disagreeing payloads.

use vstd::prelude::*;
use crate::chunk::{ChunkModel, EncodedChunk};
use crate::errors::{RestoreError, RestoreModel};

verus! {

/// Largest chunk id representable in the id field's type.
pub const MAX_ID: u16 = 65535;

/// Whether every chunk of `s` declares the total `expected`.
pub open spec fn all_same_total(s: Seq<ChunkModel>, expected: u16) -> bool {
    forall|i: int| 0 <= i < s.len() ==> #[trigger] s[i].total == expected
}

/// The least index of `s` whose chunk declares a total other than
/// `expected`, or `s.len()` when there is none.
pub open spec fn first_clash(s: Seq<ChunkModel>, expected: u16) -> int
    decreases s.len(),
{
    if s.len() == 0 {
        0
    } else if s[0].total != expected {
        0
    } else {
        1 + first_clash(s.drop_first(), expected)
    }
}

/// Whether some chunk of `s` carries the id `id`.
pub open spec fn contains_id(s: Seq<ChunkModel>, id: u16) -> bool {
    exists|i: int| 0 <= i < s.len() && #[trigger] s[i].id == id
}

/// The ids of `lo ..= hi` that no chunk of `s` carries, in ascending order.
pub open spec fn missing_in_range(s: Seq<ChunkModel>, lo: int, hi: int) -> Seq<u16>
    recommends
        0 <= lo,
        hi <= MAX_ID,
    decreases hi - lo + 1,
{
    if lo > hi {
        seq![]
    } else {
        missing_in_range(s, lo, hi - 1) + (if contains_id(s, hi as u16) {
            seq![]
        } else {
            seq![hi as u16]
        })
    }
}

/// The ids of `lo ..= hi` that some chunk of `s` carries, in ascending
/// order.
pub open spec fn present_in_range(s: Seq<ChunkModel>, lo: int, hi: int) -> Seq<u16>
    recommends
        0 <= lo,
        hi <= MAX_ID,
    decreases hi - lo + 1,
{
    if lo > hi {
        seq![]
    } else {
        present_in_range(s, lo, hi - 1) + (if contains_id(s, hi as u16) {
            seq![hi as u16]
        } else {
            seq![]
        })
    }
}

/// The ids of `s` outside the expected range `1 ..= expected`, in ascending
/// order.
pub open spec fn unexpected_ids(s: Seq<ChunkModel>, expected: u16) -> Seq<u16> {
    present_in_range(s, 0, 0) + present_in_range(s, expected as int + 1, MAX_ID as int)
}

/// The least index of `s` whose chunk carries the id `id`.
pub open spec fn first_index_with_id(s: Seq<ChunkModel>, id: u16) -> int
    recommends
        contains_id(s, id),
    decreases s.len(),
{
    if s.len() == 0 {
        0
    } else if s[0].id == id {
        0
    } else {
        1 + first_index_with_id(s.drop_first(), id)
    }
}

/// The (reference chunk, conflicting payload) pairs contributed by the
/// duplicates of id `id` among the indices `r + 1 ..< j` of `s`, where `r`
/// is the index of the group's reference chunk, in index order.
pub open spec fn group_mismatches_upto(
    s: Seq<ChunkModel>,
    id: u16,
    r: int,
    j: int,
) -> Seq<(ChunkModel, Seq<char>)>
    recommends
        0 <= r < s.len(),
        j <= s.len(),
    decreases j - r,
{
    if j <= r + 1 {
        seq![]
    } else {
        group_mismatches_upto(s, id, r, j - 1) + (if s[j - 1].id == id && s[j - 1].payload
            != s[r].payload {
            seq![(s[r], s[j - 1].payload)]
        } else {
            seq![]
        })
    }
}

/// The (reference chunk, conflicting payload) pairs of the duplicate group
/// of id `id`: the group's reference is its first occurrence in `s`, and
/// every later occurrence whose payload disagrees contributes one pair.
pub open spec fn group_mismatches(s: Seq<ChunkModel>, id: u16) -> Seq<(ChunkModel, Seq<char>)> {
    if contains_id(s, id) {
        group_mismatches_upto(s, id, first_index_with_id(s, id), s.len() as int)
    } else {
        seq![]
    }
}

/// All mismatching duplicate pairs of the ids `1 ..= hi`, grouped by
/// ascending id and in index order within a group.
pub open spec fn mismatches_upto(s: Seq<ChunkModel>, hi: int) -> Seq<(ChunkModel, Seq<char>)>
    recommends
        hi <= MAX_ID,
    decreases hi,
{
    if hi <= 0 {
        seq![]
    } else {
        mismatches_upto(s, hi - 1) + group_mismatches(s, hi as u16)
    }
}

/// The deduplicated batch: for each id of `1 ..= expected` in ascending
/// order, the group's reference chunk (its first occurrence in `s`).
pub open spec fn collapsed(s: Seq<ChunkModel>, expected: u16) -> Seq<ChunkModel> {
    Seq::new(expected as nat, |i: int| s[first_index_with_id(s, (i + 1) as u16)])
}

/// What deduplicating a complete batch yields: every duplicate whose
/// payload disagrees with its group's reference, or the collapsed batch.
pub open spec fn collapse_spec(s: Seq<ChunkModel>) -> Result<Seq<ChunkModel>, RestoreModel>
    recommends
        s.len() > 0,
{
    let expected = s[0].total;
    let pairs = mismatches_upto(s, expected as int);
    if pairs.len() > 0 {
        Err(RestoreModel::MismatchingDuplicateChunk { mismatching_chunks: pairs })
    } else {
        Ok(collapsed(s, expected))
    }
}

/// What validating a non-empty chunk collection yields.
///
/// The first chunk is the reference: its declared total is the expected
/// batch size. A chunk declaring another total fails the batch at once, and
/// the first such chunk in collection order is reported. Otherwise, ids
/// absent from `1 ..= expected` are reported as missing; otherwise ids
/// outside that range are reported as unexpected; otherwise duplicates with
/// disagreeing payloads are reported pair by pair; otherwise the collapsed,
/// id-sorted batch is returned. A collection that is at once missing some
/// ids and carrying unexpected ones is reported by its missing ids:
/// without them no reconstruction is possible, whatever else arrived.
pub open spec fn check_spec(s: Seq<ChunkModel>) -> Result<Seq<ChunkModel>, RestoreModel>
    recommends
        s.len() > 0,
{
    let expected = s[0].total;
    if first_clash(s, expected) < s.len() {
        Err(
            RestoreModel::TotalMismatch {
                reference_chunk: s[0],
                clashing_chunk: s[first_clash(s, expected)],
            },
        )
    } else {
        let missing = missing_in_range(s, 1, expected as int);
        let extras = unexpected_ids(s, expected);
        if missing.len() > 0 {
            Err(RestoreModel::MissingChunk { expected_total: expected, missing_chunk_ids: missing })
        } else if extras.len() > 0 {
            Err(
                RestoreModel::TooManyChunks {
                    expected_total: expected,
                    unexpected_chunk_ids: extras,
                },
            )
        } else {
            collapse_spec(s)
        }
    }
}

/// A batch that can be reassembled: non-empty, every chunk declares the
/// same total, every id lies in `1 ..= total`, every id of `1 ..= total`
/// occurs, and chunks sharing an id agree on their payload.
pub open spec fn valid_batch(s: Seq<ChunkModel>) -> bool {
    &&& s.len() > 0
    &&& all_same_total(s, s[0].total)
    &&& forall|i: int| 0 <= i < s.len() ==> 1 <= #[trigger] s[i].id <= s[0].total
    &&& forall|id: u16| 1 <= id <= s[0].total ==> contains_id(s, id)
    &&& forall|i: int, j: int|
        0 <= i < s.len() && 0 <= j < s.len() && s[i].id == s[j].id ==> s[i].payload == s[j].payload
}

/// The model of an exec validation result.
pub open spec fn check_result_view(r: Result<Vec<EncodedChunk>, RestoreError>) -> Result<
    Seq<ChunkModel>,
    RestoreModel,
> {
    match r {
        Ok(v) => Ok(v.deep_view()),
        Err(e) => Err(e@),
    }
}

/// `first_clash` names the least index with a disagreeing total.
pub proof fn lemma_first_clash_char(s: Seq<ChunkModel>, expected: u16)
    ensures
        0 <= first_clash(s, expected) <= s.len(),
        first_clash(s, expected) < s.len() ==> s[first_clash(s, expected)].total != expected,
        forall|j: int| 0 <= j < first_clash(s, expected) ==> #[trigger] s[j].total == expected,
    decreases s.len(),
{
    if s.len() > 0 && s[0].total == expected {
        lemma_first_clash_char(s.drop_first(), expected);
        assert(forall|j: int|
            0 <= j < first_clash(s.drop_first(), expected) ==> #[trigger] s.drop_first()[j].total
                == expected);
        assert forall|j: int| 0 <= j < first_clash(s, expected) implies #[trigger] s[j].total
            == expected by {
            if j > 0 {
                assert(s.drop_first()[j - 1].total == expected);
            }
        }
    }
}

/// `first_index_with_id` names the least index carrying `id`.
pub proof fn lemma_first_index_char(s: Seq<ChunkModel>, id: u16)
    requires
        contains_id(s, id),
    ensures
        0 <= first_index_with_id(s, id) < s.len(),
        s[first_index_with_id(s, id)].id == id,
        forall|j: int| 0 <= j < first_index_with_id(s, id) ==> #[trigger] s[j].id != id,
    decreases s.len(),
{
    if s.len() > 0 && s[0].id != id {
        assert(contains_id(s.drop_first(), id)) by {
            let i = choose|i: int| 0 <= i < s.len() && #[trigger] s[i].id == id;
            assert(s.drop_first()[i - 1].id == id);
        }
        lemma_first_index_char(s.drop_first(), id);
        assert forall|j: int| 0 <= j < first_index_with_id(s, id) implies #[trigger] s[j].id
            != id by {
            if j > 0 {
                assert(s.drop_first()[j - 1].id == id ==> false);
            }
        }
    }
}

/// No id of `lo ..= hi` is missing exactly when each is carried by a chunk.
pub proof fn lemma_missing_empty_iff(s: Seq<ChunkModel>, lo: int, hi: int)
    requires
        0 <= lo,
        hi <= MAX_ID,
    ensures
        missing_in_range(s, lo, hi).len() == 0 <==> (forall|id: int|
            lo <= id <= hi ==> #[trigger] contains_id(s, id as u16)),
    decreases hi - lo + 1,
{
    if lo <= hi {
        lemma_missing_empty_iff(s, lo, hi - 1);
    }
}

/// No id of `lo ..= hi` is present exactly when none is carried by a chunk.
pub proof fn lemma_present_empty_iff(s: Seq<ChunkModel>, lo: int, hi: int)
    requires
        0 <= lo,
        hi <= MAX_ID,
    ensures
        present_in_range(s, lo, hi).len() == 0 <==> (forall|id: int|
            lo <= id <= hi ==> !(#[trigger] contains_id(s, id as u16))),
    decreases hi - lo + 1,
{
    if lo <= hi {
        lemma_present_empty_iff(s, lo, hi - 1);
    }
}

/// Whether some chunk of `chunks` carries the id `id`.
fn contains_id_exec(chunks: &Vec<EncodedChunk>, id: u16) -> (r: bool)
    ensures
        r == contains_id(chunks.deep_view(), id),
{
    let ghost s = chunks.deep_view();
    let mut i: usize = 0;
    while i < chunks.len()
        invariant
            0 <= i <= chunks@.len(),
            s == chunks.deep_view(),
            forall|j: int| 0 <= j < i ==> #[trigger] s[j].id != id,
        decreases chunks@.len() - i,
    {
        if chunks[i].id == id {
            assert(s[i as int].id == id);
            return true;
        }
        i += 1;
    }
    false
}

/// The least index of `chunks` carrying `id`.
fn first_index_exec(chunks: &Vec<EncodedChunk>, id: u16) -> (r: usize)
    requires
        contains_id(chunks.deep_view(), id),
    ensures
        r == first_index_with_id(chunks.deep_view(), id),
        r < chunks@.len(),
{
    let ghost s = chunks.deep_view();
    proof {
        lemma_first_index_char(s, id);
    }
    let mut i: usize = 0;
    while i < chunks.len()
        invariant
            0 <= i <= s.len(),
            s == chunks.deep_view(),
            contains_id(s, id),
            forall|j: int| 0 <= j < i ==> #[trigger] s[j].id != id,
        decreases s.len() - i,
    {
        if chunks[i].id == id {
            proof {
                lemma_first_index_char(s, id);
                let f = first_index_with_id(s, id);
                if i < f {
                    assert(s[i as int].id != id);
                }
                assert(i == f);
            }
            return i;
        }
        i += 1;
    }
    proof {
        lemma_first_index_char(s, id);
        assert(s[first_index_with_id(s, id)].id == id);
        assert(false);
    }
    unreached()
}

/// The ids of `1 ..= expected` that no chunk carries, in ascending order.
fn collect_missing(chunks: &Vec<EncodedChunk>, expected: u16) -> (r: Vec<u16>)
    ensures
        r@ == missing_in_range(chunks.deep_view(), 1, expected as int),
{
    let ghost s = chunks.deep_view();
    let mut r: Vec<u16> = Vec::new();
    let mut id: u32 = 1;
    assert(r@ =~= missing_in_range(s, 1, 0));
    while id <= expected as u32
        invariant
            1 <= id <= expected as u32 + 1,
            s == chunks.deep_view(),
            r@ == missing_in_range(s, 1, id - 1),
        decreases expected as u32 + 1 - id,
    {
        if !contains_id_exec(chunks, id as u16) {
            r.push(id as u16);
        }
        assert(r@ =~= missing_in_range(s, 1, id as int));
        id += 1;
    }
    r
}

/// The ids of `chunks` outside `1 ..= expected`, in ascending order.
fn collect_extras(chunks: &Vec<EncodedChunk>, expected: u16) -> (r: Vec<u16>)
    ensures
        r@ == unexpected_ids(chunks.deep_view(), expected),
{
    let ghost s = chunks.deep_view();
    let mut r: Vec<u16> = Vec::new();
    if contains_id_exec(chunks, 0) {
        r.push(0);
    }
    assert(present_in_range(s, 0, -1) =~= Seq::<u16>::empty());
    assert(r@ =~= present_in_range(s, 0, 0));
    let mut id: u32 = expected as u32 + 1;
    assert(present_in_range(s, expected as int + 1, expected as int) =~= Seq::<u16>::empty());
    while id <= MAX_ID as u32
        invariant
            expected as u32 + 1 <= id <= MAX_ID as u32 + 1,
            s == chunks.deep_view(),
            r@ == present_in_range(s, 0, 0) + present_in_range(s, expected as int + 1, id - 1),
        decreases MAX_ID as u32 + 1 - id,
    {
        if contains_id_exec(chunks, id as u16) {
            r.push(id as u16);
        }
        assert(r@ =~= present_in_range(s, 0, 0) + present_in_range(
            s,
            expected as int + 1,
            id as int,
        ));
        id += 1;
    }
    r
}


/// Collapses each duplicate group of a complete batch to its reference
/// chunk (the group's first occurrence), or reports every duplicate whose
/// payload disagrees with its group's reference.
#[verifier::loop_isolation(false)]
fn collapse_chunks(chunks: &Vec<EncodedChunk>) -> (r: Result<Vec<EncodedChunk>, RestoreError>)
    requires
        chunks@.len() > 0,
        forall|id: u16|
            1 <= id <= chunks.deep_view()[0].total ==> contains_id(chunks.deep_view(), id),
    ensures
        check_result_view(r) == collapse_spec(chunks.deep_view()),
{
    let ghost s = chunks.deep_view();
    let n = chunks.len();
    let expected = chunks[0].total;
    let mut out: Vec<EncodedChunk> = Vec::new();
    let mut pairs: Vec<(EncodedChunk, String)> = Vec::new();
    let mut id: u32 = 1;
    assert(pairs.deep_view() =~~= mismatches_upto(s, 0));
    while id <= expected as u32
        invariant
            1 <= id <= expected as u32 + 1,
            s == chunks.deep_view(),
            s.len() > 0,
            expected == s[0].total,
            forall|k: u16| 1 <= k <= expected ==> contains_id(s, k),
            pairs.deep_view() == mismatches_upto(s, id - 1),
            out.deep_view() == collapsed(s, expected).take(id - 1),
        decreases expected as u32 + 1 - id,
    {
        assert(contains_id(s, id as u16));
        let r = first_index_exec(chunks, id as u16);
        assert(r < n);
        out.push(chunks[r].clone());
        assert(out.deep_view() =~~= collapsed(s, expected).take(id as int));
        let mut j: usize = r + 1;
        assert(group_mismatches_upto(s, id as u16, r as int, j as int) =~= Seq::<(
            ChunkModel,
            Seq<char>,
        )>::empty());
        while j < n
            invariant
                s == chunks.deep_view(),
                s.len() > 0,
                contains_id(s, id as u16),
                r == first_index_with_id(s, id as u16),
                r < s.len(),
                r + 1 <= j <= s.len(),
                1 <= id,
                pairs.deep_view() == mismatches_upto(s, id - 1) + group_mismatches_upto(
                    s,
                    id as u16,
                    r as int,
                    j as int,
                ),
            decreases s.len() - j,
        {
            let ghost pairs_pre = pairs.deep_view();
            let dup = chunks[j].id == id as u16 && !(chunks[j].payload == chunks[r].payload);
            if dup {
                pairs.push((chunks[r].clone(), chunks[j].payload.clone()));
            }
            proof {
                let step = group_mismatches_upto(s, id as u16, r as int, j + 1);
                assert(step == group_mismatches_upto(s, id as u16, r as int, j as int) + (if s[
                    j as int
                ].id == id as u16 && s[j as int].payload != s[r as int].payload {
                    seq![(s[r as int], s[j as int].payload)]
                } else {
                    seq![]
                }));
                assert(dup == (s[j as int].id == id as u16 && s[j as int].payload != s[
                    r as int
                ].payload));
                if dup {
                    assert(pairs.deep_view() =~~= pairs_pre.push(
                        (s[r as int], s[j as int].payload),
                    ));
                } else {
                    assert(pairs.deep_view() == pairs_pre);
                }
                assert(pairs.deep_view() =~~= mismatches_upto(s, id - 1) + step);
            }
            j += 1;
        }
        assert(pairs.deep_view() =~~= mismatches_upto(s, id as int));
        id += 1;
    }
    assert(out.deep_view() =~~= collapsed(s, expected).take(expected as int));
    assert(out.deep_view() =~~= collapsed(s, expected));
    if pairs.len() > 0 {
        assert(pairs.deep_view().len() > 0);
        Err(RestoreError::MismatchingDuplicateChunk { mismatching_chunks: pairs })
    } else {
        assert(pairs.deep_view().len() == 0);
        Ok(out)
    }
}

/// Validates a non-empty chunk collection.
///
/// The first chunk of the collection sets the expected total; the first
/// chunk in collection order that declares another total fails the whole
/// batch with `TotalMismatch`. Then ids missing from `1 ..= expected` are
/// reported with `MissingChunk`, ids outside that range with
/// `TooManyChunks`, and duplicated ids with disagreeing payloads with
/// `MismatchingDuplicateChunk`. Otherwise the batch is returned
/// deduplicated and sorted by ascending id, ready for reassembly.
pub fn check_chunk_range(chunks: &Vec<EncodedChunk>) -> (r: Result<Vec<EncodedChunk>, RestoreError>)
    requires
        chunks@.len() > 0,
    ensures
        check_result_view(r) == check_spec(chunks.deep_view()),
        r is Ok <==> valid_batch(chunks.deep_view()),
{
    let ghost s = chunks.deep_view();
    proof {
        crate::laws::lemma_check_ok_iff_valid(s);
    }
    let expected = chunks[0].total;
    let mut i: usize = 0;
    while i < chunks.len()
        invariant
            0 <= i <= s.len(),
            s == chunks.deep_view(),
            s.len() > 0,
            expected == s[0].total,
            forall|j: int| 0 <= j < i ==> #[trigger] s[j].total == expected,
        decreases s.len() - i,
    {
        if chunks[i].total != expected {
            proof {
                lemma_first_clash_char(s, expected);
                let f = first_clash(s, expected);
                if i < f {
                    assert(s[i as int].total == expected);
                }
                if f < i {
                    assert(s[f].total == expected);
                }
                assert(i == f);
            }
            return Err(
                RestoreError::TotalMismatch {
                    reference_chunk: chunks[0].clone(),
                    clashing_chunk: chunks[i].clone(),
                },
            );
        }
        i += 1;
    }
    proof {
        lemma_first_clash_char(s, expected);
        assert(first_clash(s, expected) == s.len());
    }
    let missing = collect_missing(chunks, expected);
    if missing.len() > 0 {
        return Err(
            RestoreError::MissingChunk { expected_total: expected, missing_chunk_ids: missing },
        );
    }
    let extras = collect_extras(chunks, expected);
    if extras.len() > 0 {
        return Err(
            RestoreError::TooManyChunks { expected_total: expected, unexpected_chunk_ids: extras },
        );
    }
    proof {
        lemma_missing_empty_iff(s, 1, expected as int);
        assert forall|id: u16| 1 <= id <= s[0].total implies contains_id(s, id) by {
            assert(contains_id(s, (id as int) as u16));
        }
    }
    collapse_chunks(chunks)
}

} // verus!
