//! The protocol's global guarantees, stated and proved once over the spec
//! functions that the executable contracts use.
//!
//! Three families of laws live here: the codec and the parser are inverse
//! to one another, validation succeeds exactly on the batches that can be
//! reassembled (and does not care about collection order or exact
//! duplicates), and a split text survives the whole round trip back to
//! itself.

use vstd::prelude::*;
use crate::chunk::{chunk_chars, digit_char, three_digits, ChunkModel, MAX_FIELD};
use crate::parser::{digit_val, is_digit, parse_spec, three_digit_val, three_digits_at};
use crate::validator::{
    check_spec, collapsed, contains_id, first_clash, first_index_with_id, group_mismatches,
    group_mismatches_upto, lemma_first_clash_char, lemma_first_index_char,
    lemma_missing_empty_iff, lemma_present_empty_iff, missing_in_range, mismatches_upto,
    unexpected_ids, valid_batch, MAX_ID,
};
use vstd::arithmetic::div_mod::{lemma_div_denominator, lemma_fundamental_div_mod};
use vstd::seq_lib::group_to_multiset_ensures;
use crate::assemble::{concat_payloads, decode_spec, parse_lines_spec, reassemble_spec};
use crate::chunk_iterator::{piece, piece_end, split_chunk_line, split_spec};
use crate::errors::RestoreModel;
use crate::payload_size::{chunk_count, lemma_chunk_count_bounds};

verus! {

/// A decimal digit character round-trips through its value.
proof fn lemma_digit_char_val(d: int)
    requires
        0 <= d <= 9,
    ensures
        is_digit(digit_char(d)),
        digit_val(digit_char(d)) == d,
{
}

/// A number of at most three digits is recovered from its zero-padded
/// decimal rendering.
proof fn lemma_three_digits_value(n: int)
    requires
        0 <= n <= MAX_FIELD,
    ensures
        is_digit(three_digits(n)[0]),
        is_digit(three_digits(n)[1]),
        is_digit(three_digits(n)[2]),
        100 * digit_val(three_digits(n)[0]) + 10 * digit_val(three_digits(n)[1]) + digit_val(
            three_digits(n)[2],
        ) == n,
{
    lemma_digit_char_val(n / 100);
    lemma_digit_char_val((n / 10) % 10);
    lemma_digit_char_val(n % 10);
    lemma_fundamental_div_mod(n, 10);
    lemma_fundamental_div_mod(n / 10, 10);
    lemma_div_denominator(n, 10, 10);
}

/// The codec and the parser are inverse: any chunk whose numeric fields
/// fit three digits and whose payload is non-empty is recovered exactly
/// from its rendered wire line.
pub proof fn lemma_parse_render_round_trip(c: ChunkModel)
    requires
        c.id <= MAX_FIELD,
        c.total <= MAX_FIELD,
        c.payload.len() >= 1,
    ensures
        parse_spec(chunk_chars(c)) == Ok::<ChunkModel, crate::errors::ChunkParseError>(c),
{
    let s = chunk_chars(c);
    lemma_three_digits_value(c.id as int);
    lemma_three_digits_value(c.total as int);
    assert(s.len() == 8 + c.payload.len());
    assert(s[0] == three_digits(c.id as int)[0]);
    assert(s[1] == three_digits(c.id as int)[1]);
    assert(s[2] == three_digits(c.id as int)[2]);
    assert(s[3] == 'O');
    assert(s[4] == 'F');
    assert(s[5] == three_digits(c.total as int)[0]);
    assert(s[6] == three_digits(c.total as int)[1]);
    assert(s[7] == three_digits(c.total as int)[2]);
    assert(three_digits_at(s, 0));
    assert(three_digits_at(s, 5));
    assert(three_digit_val(s, 0) == c.id);
    assert(three_digit_val(s, 5) == c.total);
    assert(s.subrange(8, s.len() as int) =~= c.payload);
}

/// A group with no recorded mismatch is a group whose members all carry
/// the reference's payload, and conversely.
proof fn lemma_group_upto_empty_iff(s: Seq<ChunkModel>, id: u16, r: int, j: int)
    requires
        0 <= r < s.len(),
        r + 1 <= j <= s.len(),
    ensures
        group_mismatches_upto(s, id, r, j).len() == 0 <==> (forall|k: int|
            r < k < j && (#[trigger] s[k]).id == id ==> s[k].payload == s[r].payload),
    decreases j,
{
    if j > r + 1 {
        lemma_group_upto_empty_iff(s, id, r, j - 1);
    }
}

/// No mismatch is recorded for the ids `1 ..= hi` exactly when every group
/// of such an id is mismatch-free.
proof fn lemma_mismatches_upto_empty_iff(s: Seq<ChunkModel>, hi: int)
    requires
        0 <= hi <= MAX_ID,
    ensures
        mismatches_upto(s, hi).len() == 0 <==> (forall|id: int|
            1 <= id <= hi ==> (#[trigger] group_mismatches(s, id as u16)).len() == 0),
    decreases hi,
{
    if hi > 0 {
        lemma_mismatches_upto_empty_iff(s, hi - 1);
    }
}

/// Validation succeeds on exactly the batches that can be reassembled,
/// and then yields the collapsed batch in ascending id order.
pub proof fn lemma_check_ok_iff_valid(s: Seq<ChunkModel>)
    requires
        s.len() > 0,
    ensures
        check_spec(s) is Ok <==> valid_batch(s),
        valid_batch(s) ==> check_spec(s) == Ok::<Seq<ChunkModel>, crate::errors::RestoreModel>(
            collapsed(s, s[0].total),
        ),
{
    let e = s[0].total;
    lemma_first_clash_char(s, e);
    lemma_missing_empty_iff(s, 1, e as int);
    lemma_present_empty_iff(s, 0, 0);
    lemma_present_empty_iff(s, e as int + 1, MAX_ID as int);
    lemma_mismatches_upto_empty_iff(s, e as int);
    if first_clash(s, e) == s.len() && missing_in_range(s, 1, e as int).len() == 0
        && unexpected_ids(s, e).len() == 0 {
        // every id of 1 ..= e occurs
        assert forall|id: u16| 1 <= id <= e implies contains_id(s, id) by {
            assert(contains_id(s, (id as int) as u16));
        }
        // every chunk's id lies in 1 ..= e
        assert forall|i: int| 0 <= i < s.len() implies 1 <= (#[trigger] s[i]).id <= e by {
            let d = s[i].id;
            assert(contains_id(s, d));
            if d == 0 {
                assert(!contains_id(s, (0 as int) as u16));
            }
            if d > e {
                assert(!contains_id(s, (d as int) as u16));
            }
        }
        if mismatches_upto(s, e as int).len() == 0 {
            // chunks sharing an id agree with the group's reference
            assert forall|i: int, j: int|
                0 <= i < s.len() && 0 <= j < s.len() && s[i].id == s[j].id implies s[i].payload
                == s[j].payload by {
                let d = s[i].id;
                assert(contains_id(s, d));
                lemma_first_index_char(s, d);
                let r = first_index_with_id(s, d);
                assert(group_mismatches(s, (d as int) as u16).len() == 0);
                lemma_group_upto_empty_iff(s, d, r, s.len() as int);
                assert(s[i].payload == s[r].payload);
                assert(s[j].payload == s[r].payload);
            }
            assert(valid_batch(s));
        } else {
            // some group disagrees with its reference: the batch is invalid
            assert(check_spec(s) is Err);
            if valid_batch(s) {
                let d = choose|id: int|
                    1 <= id <= e && (#[trigger] group_mismatches(s, id as u16)).len() != 0;
                let du = d as u16;
                assert(contains_id(s, du));
                lemma_first_index_char(s, du);
                let r = first_index_with_id(s, du);
                lemma_group_upto_empty_iff(s, du, r, s.len() as int);
                assert forall|k: int|
                    r < k < s.len() && (#[trigger] s[k]).id == du implies s[k].payload == s[
                    r
                ].payload by {
                    assert(s[k].payload == s[r].payload);
                }
                assert(false);
            }
        }
    } else {
        // one of the three earlier checks failed: the batch is invalid
        assert(check_spec(s) is Err);
        if valid_batch(s) {
            if first_clash(s, e) < s.len() {
                assert(s[first_clash(s, e)].total == e);
                assert(false);
            }
            assert(missing_in_range(s, 1, e as int).len() == 0) by {
                lemma_missing_empty_iff(s, 1, e as int);
                assert forall|id: int| 1 <= id <= e implies #[trigger] contains_id(
                    s,
                    id as u16,
                ) by {
                    assert(contains_id(s, id as u16));
                }
            }
            assert(unexpected_ids(s, e).len() == 0) by {
                assert forall|id: int| 0 <= id <= 0 implies !(#[trigger] contains_id(
                    s,
                    id as u16,
                )) by {
                    if contains_id(s, id as u16) {
                        let w = choose|i: int|
                            0 <= i < s.len() && (#[trigger] s[i]).id == id as u16;
                        assert(1 <= s[w].id <= e);
                        assert(false);
                    }
                }
                assert forall|id: int| e + 1 <= id <= MAX_ID implies !(#[trigger] contains_id(
                    s,
                    id as u16,
                )) by {
                    if contains_id(s, id as u16) {
                        let w = choose|i: int|
                            0 <= i < s.len() && (#[trigger] s[i]).id == id as u16;
                        assert(1 <= s[w].id <= e);
                        assert(false);
                    }
                }
            }
            assert(false);
        }
    }
}


/// Whenever two collections hold the same chunks with the same
/// multiplicities, each value of one occurs in the other.
proof fn lemma_multiset_membership(s: Seq<ChunkModel>, t: Seq<ChunkModel>)
    requires
        s.to_multiset() == t.to_multiset(),
    ensures
        s.len() == t.len(),
        forall|i: int| 0 <= i < t.len() ==> s.contains(#[trigger] t[i]),
{
    broadcast use group_to_multiset_ensures;

    assert(s.len() == s.to_multiset().len());
    assert(t.len() == t.to_multiset().len());
    assert forall|i: int| 0 <= i < t.len() implies s.contains(#[trigger] t[i]) by {
        assert(t.contains(t[i]));
        assert(t.to_multiset().count(t[i]) > 0);
    }
}

/// A valid batch collapses to the same chunks whatever order its members
/// arrived in: for each id, the group reference of one arrangement carries
/// the payload of the other's.
proof fn lemma_collapsed_permutation(s: Seq<ChunkModel>, t: Seq<ChunkModel>)
    requires
        s.to_multiset() == t.to_multiset(),
        s.len() > 0,
        valid_batch(s),
        valid_batch(t),
        t[0].total == s[0].total,
    ensures
        collapsed(t, t[0].total) == collapsed(s, s[0].total),
{
    let e = s[0].total;
    lemma_multiset_membership(s, t);
    lemma_multiset_membership(t, s);
    assert forall|i: int| 0 <= i < e implies collapsed(t, e)[i] == collapsed(s, e)[i] by {
        let id = (i + 1) as u16;
        assert(contains_id(s, id));
        assert(contains_id(t, id));
        lemma_first_index_char(s, id);
        lemma_first_index_char(t, id);
        let a = s[first_index_with_id(s, id)];
        let b = t[first_index_with_id(t, id)];
        assert(s.contains(b));
        let k = choose|k: int| 0 <= k < s.len() && s[k] == b;
        assert(s[k].payload == a.payload);
        assert(b == a);
    }
    assert(collapsed(t, e) =~= collapsed(s, e));
}

/// Order independence: shuffling the chunk collection before validation
/// neither changes whether it validates nor, when it does, the reassembled
/// text.
pub proof fn lemma_order_independence(s: Seq<ChunkModel>, t: Seq<ChunkModel>)
    requires
        s.to_multiset() == t.to_multiset(),
        s.len() > 0,
    ensures
        valid_batch(s) <==> valid_batch(t),
        valid_batch(s) ==> reassemble_spec(t) == reassemble_spec(s),
{
    if valid_batch(s) {
        lemma_valid_batch_permutation(s, t);
    }
    if valid_batch(t) {
        lemma_valid_batch_permutation(t, s);
    }
    if valid_batch(s) {
        lemma_check_ok_iff_valid(s);
        lemma_check_ok_iff_valid(t);
        lemma_multiset_membership(s, t);
        assert(s.contains(t[0]));
        let w = choose|k: int| 0 <= k < s.len() && s[k] == t[0];
        assert(t[0].total == s[0].total);
        lemma_collapsed_permutation(s, t);
    }
}

/// Validity of a batch depends only on which chunks it holds, not on
/// their arrangement.
proof fn lemma_valid_batch_permutation(s: Seq<ChunkModel>, t: Seq<ChunkModel>)
    requires
        s.to_multiset() == t.to_multiset(),
        valid_batch(s),
    ensures
        valid_batch(t),
{
    let e = s[0].total;
    lemma_multiset_membership(s, t);
    lemma_multiset_membership(t, s);
    assert(t.len() == s.len() > 0);
    assert(s.contains(t[0]));
    assert forall|i: int| 0 <= i < t.len() implies (#[trigger] t[i]).total == e && 1 <= t[i].id
        <= e by {
        assert(s.contains(t[i]));
        let k = choose|k: int| 0 <= k < s.len() && s[k] == t[i];
        assert(s[k].total == e);
        assert(1 <= s[k].id <= e);
    }
    assert(t[0].total == e);
    assert forall|id: u16| 1 <= id <= t[0].total implies contains_id(t, id) by {
        assert(contains_id(s, id));
        let k = choose|k: int| 0 <= k < s.len() && (#[trigger] s[k]).id == id;
        assert(t.contains(s[k]));
        let w = choose|w: int| 0 <= w < t.len() && t[w] == s[k];
        assert(t[w].id == id);
    }
    assert forall|i: int, j: int|
        0 <= i < t.len() && 0 <= j < t.len() && t[i].id == t[j].id implies t[i].payload == t[
        j
    ].payload by {
        assert(s.contains(t[i]));
        assert(s.contains(t[j]));
        let k = choose|k: int| 0 <= k < s.len() && s[k] == t[i];
        let l = choose|l: int| 0 <= l < s.len() && s[l] == t[j];
        assert(s[k].payload == s[l].payload);
    }
}

/// Exact duplicates are tolerated: appending a copy of a chunk already in
/// a valid batch leaves both the verdict and the reassembled text
/// unchanged.
pub proof fn lemma_duplicate_tolerance(s: Seq<ChunkModel>, c: ChunkModel)
    requires
        valid_batch(s),
        s.contains(c),
    ensures
        valid_batch(s.push(c)),
        reassemble_spec(s.push(c)) == reassemble_spec(s),
{
    let t = s.push(c);
    let e = s[0].total;
    let w = choose|k: int| 0 <= k < s.len() && s[k] == c;
    assert(t[0] == s[0]);
    assert forall|i: int| 0 <= i < t.len() implies (#[trigger] t[i]).total == e && 1 <= t[i].id
        <= e by {
        if i < s.len() {
            assert(t[i] == s[i]);
        } else {
            assert(t[i] == s[w]);
        }
    }
    assert forall|id: u16| 1 <= id <= t[0].total implies contains_id(t, id) by {
        assert(contains_id(s, id));
        let k = choose|k: int| 0 <= k < s.len() && (#[trigger] s[k]).id == id;
        assert(t[k].id == id);
    }
    assert forall|i: int, j: int|
        0 <= i < t.len() && 0 <= j < t.len() && t[i].id == t[j].id implies t[i].payload == t[
        j
    ].payload by {
        let ii = if i < s.len() { i } else { w };
        let jj = if j < s.len() { j } else { w };
        assert(t[i] == s[ii]);
        assert(t[j] == s[jj]);
        assert(s[ii].payload == s[jj].payload);
    }
    assert(valid_batch(t));
    lemma_check_ok_iff_valid(s);
    lemma_check_ok_iff_valid(t);
    assert forall|i: int| 0 <= i < e implies collapsed(t, e)[i] == collapsed(s, e)[i] by {
        let id = (i + 1) as u16;
        assert(contains_id(s, id));
        lemma_first_index_push(s, c, id);
        lemma_first_index_char(s, id);
        assert(t[first_index_with_id(s, id)] == s[first_index_with_id(s, id)]);
    }
    assert(collapsed(t, e) =~= collapsed(s, e));
}

/// Appending a chunk does not move the first occurrence of an id that is
/// already present.
proof fn lemma_first_index_push(s: Seq<ChunkModel>, c: ChunkModel, id: u16)
    requires
        contains_id(s, id),
    ensures
        first_index_with_id(s.push(c), id) == first_index_with_id(s, id),
    decreases s.len(),
{
    if s.len() > 0 && s[0].id != id {
        assert(contains_id(s.drop_first(), id)) by {
            let i = choose|i: int| 0 <= i < s.len() && (#[trigger] s[i]).id == id;
            assert(s.drop_first()[i - 1].id == id);
        }
        lemma_first_index_push(s.drop_first(), c, id);
        assert(s.push(c).drop_first() =~= s.drop_first().push(c));
    }
}


/// The structured chunk behind position `i` of a split of `data`.
pub open spec fn split_model(data: Seq<char>, chunk_size: int, i: int) -> ChunkModel {
    ChunkModel {
        id: (i + 1) as u16,
        total: chunk_count(data.len() as int, chunk_size) as u16,
        payload: piece(data, chunk_size, i),
    }
}

/// All structured chunks of a split of `data`, in id order.
pub open spec fn split_models(data: Seq<char>, chunk_size: int) -> Seq<ChunkModel> {
    Seq::new(
        chunk_count(data.len() as int, chunk_size) as nat,
        |i: int| split_model(data, chunk_size, i),
    )
}

/// Every position of a split starts strictly inside the text.
proof fn lemma_piece_in_range(len: int, cs: int, i: int)
    requires
        cs >= 1,
        len >= 0,
        0 <= i < chunk_count(len, cs),
    ensures
        i * cs < len,
{
    lemma_chunk_count_bounds(len, cs);
    let cc = chunk_count(len, cs);
    assert(i * cs < len) by (nonlinear_arith)
        requires
            cs >= 1,
            0 <= i <= cc - 1,
            cc > 0 ==> len > 0,
            len > 0 ==> (cc - 1) * cs < len,
            i < cc,
    ;
}

/// Every line of a split parses back to the chunk it was rendered from.
proof fn lemma_parse_split_prefix(data: Seq<char>, cs: int, k: int)
    requires
        cs >= 1,
        data.len() >= 1,
        chunk_count(data.len() as int, cs) <= MAX_FIELD,
        0 <= k <= chunk_count(data.len() as int, cs),
    ensures
        parse_lines_spec(split_spec(data, cs).take(k)) == Ok::<Seq<ChunkModel>, RestoreModel>(
            split_models(data, cs).take(k),
        ),
    decreases k,
{
    let lines = split_spec(data, cs);
    let models = split_models(data, cs);
    if k > 0 {
        lemma_parse_split_prefix(data, cs, k - 1);
        assert(lines.take(k).drop_last() =~= lines.take(k - 1));
        let c = split_model(data, cs, k - 1);
        lemma_piece_in_range(data.len() as int, cs, k - 1);
        assert(c.payload.len() >= 1);
        lemma_parse_render_round_trip(c);
        assert(lines.take(k).last() == split_chunk_line(data, cs, k - 1));
        assert(split_chunk_line(data, cs, k - 1) == chunk_chars(c));
        assert(models.take(k) =~= models.take(k - 1).push(c));
    } else {
        assert(lines.take(0) =~= Seq::<Seq<char>>::empty());
        assert(models.take(0) =~= Seq::<ChunkModel>::empty());
    }
}

/// The chunks of a split form a valid batch that collapses to itself.
proof fn lemma_split_models_valid(data: Seq<char>, cs: int)
    requires
        cs >= 1,
        data.len() >= 1,
        chunk_count(data.len() as int, cs) <= MAX_FIELD,
    ensures
        valid_batch(split_models(data, cs)),
        collapsed(split_models(data, cs), split_models(data, cs)[0].total) == split_models(
            data,
            cs,
        ),
{
    let m = split_models(data, cs);
    let cc = chunk_count(data.len() as int, cs);
    lemma_chunk_count_bounds(data.len() as int, cs);
    assert(m.len() == cc >= 1);
    let e = m[0].total;
    assert(e == cc as u16);
    assert forall|id: u16| 1 <= id <= e implies contains_id(m, id) by {
        assert(m[id - 1].id == id);
    }
    assert(valid_batch(m));
    assert forall|i: int| 0 <= i < cc implies collapsed(m, e)[i] == m[i] by {
        let id = (i + 1) as u16;
        assert(contains_id(m, id)) by {
            assert(m[i].id == id);
        }
        lemma_first_index_char(m, id);
        let f = first_index_with_id(m, id);
        assert(m[f].id == id);
        assert(f == i);
    }
    assert(collapsed(m, e) =~= m);
}

/// The payloads of a split's first `k` chunks concatenate back to the
/// first `k` pieces of the text.
proof fn lemma_concat_split_prefix(data: Seq<char>, cs: int, k: int)
    requires
        cs >= 1,
        data.len() >= 1,
        chunk_count(data.len() as int, cs) <= MAX_FIELD,
        0 <= k <= chunk_count(data.len() as int, cs),
    ensures
        concat_payloads(split_models(data, cs).take(k)) == data.take(
            if k * cs <= data.len() {
                k * cs
            } else {
                data.len() as int
            },
        ),
    decreases k,
{
    let m = split_models(data, cs);
    let len = data.len() as int;
    if k > 0 {
        lemma_concat_split_prefix(data, cs, k - 1);
        lemma_piece_in_range(len, cs, k - 1);
        assert(m.take(k).drop_last() =~= m.take(k - 1));
        assert(m.take(k).last() == m[k - 1]);
        let a = (k - 1) * cs;
        let b = piece_end(data, cs, a);
        assert((k - 1) * cs + cs == k * cs) by (nonlinear_arith);
        assert(b == if k * cs <= len {
            k * cs
        } else {
            len
        });
        assert(a <= len);
        assert((k - 1) * cs <= len ==> (k - 1) * cs == a);
        assert(m[k - 1].payload == data.subrange(a, b));
        assert(data.take(a) + data.subrange(a, b) =~= data.take(b));
    } else {
        assert(m.take(0) =~= Seq::<ChunkModel>::empty());
        assert(data.take(0) =~= Seq::<char>::empty());
    }
}

/// The round trip: splitting a non-empty text into chunk lines, parsing
/// every line back, validating the collection and concatenating the
/// validated payloads reproduces the text exactly, for any piece size of
/// at least one character whose split fits the wire format's batch cap.
pub proof fn lemma_round_trip(data: Seq<char>, chunk_size: int)
    requires
        chunk_size >= 1,
        data.len() >= 1,
        chunk_count(data.len() as int, chunk_size) <= MAX_FIELD,
    ensures
        decode_spec(split_spec(data, chunk_size)) == Ok::<Seq<char>, RestoreModel>(data),
{
    let len = data.len() as int;
    let cc = chunk_count(len, chunk_size);
    let lines = split_spec(data, chunk_size);
    let m = split_models(data, chunk_size);
    lemma_chunk_count_bounds(len, chunk_size);
    lemma_parse_split_prefix(data, chunk_size, cc);
    assert(lines.take(cc) =~= lines);
    assert(m.take(cc) =~= m);
    assert(parse_lines_spec(lines) == Ok::<Seq<ChunkModel>, RestoreModel>(m));
    lemma_split_models_valid(data, chunk_size);
    lemma_check_ok_iff_valid(m);
    assert(check_spec(m) == Ok::<Seq<ChunkModel>, RestoreModel>(m));
    lemma_concat_split_prefix(data, chunk_size, cc);
    assert(cc * chunk_size >= len);
    assert(concat_payloads(m) == data.take(len));
    assert(data.take(len) =~= data);
}

} // verus!
