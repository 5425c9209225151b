//! The chunk data type and its wire codec.
//!
//! A chunk travels as a single line: an 8-character header followed by the
//! payload, with no delimiter in between. The header is the chunk's 1-based
//! position (`id`) as three zero-padded decimal digits, the literal `OF`, and
//! the declared batch size (`total`) as three zero-padded decimal digits, so
//! a chunk with `id` 7 of 23 and payload `abc` is the line `007OF023abc`.

use vstd::prelude::*;
use vstd::string::StringExecFns;

verus! {

/// Largest value that fits the three-digit wire fields `id` and `total`.
pub const MAX_FIELD: u16 = 999;

/// Mathematical model of one chunk: its position, the declared batch size,
/// and the payload characters it carries.
#[verifier::ext_equal]
pub ghost struct ChunkModel {
    pub id: u16,
    pub total: u16,
    pub payload: Seq<char>,
}

/// A chunk as produced by the splitter or recovered by the parser.
#[derive(Debug, PartialEq, Eq)]
pub struct EncodedChunk {
    /// 1-based position of this chunk within its batch.
    pub id: u16,
    /// Declared number of chunks in the batch this chunk belongs to.
    pub total: u16,
    /// The text fragment assigned to this position.
    pub payload: String,
}

impl View for EncodedChunk {
    type V = ChunkModel;

    open spec fn view(&self) -> ChunkModel {
        ChunkModel { id: self.id, total: self.total, payload: self.payload@ }
    }
}

impl DeepView for EncodedChunk {
    type V = ChunkModel;

    open spec fn deep_view(&self) -> ChunkModel {
        self.view()
    }
}

impl Clone for EncodedChunk {
    fn clone(&self) -> (r: Self)
        ensures
            r == *self,
    {
        EncodedChunk { id: self.id, total: self.total, payload: self.payload.clone() }
    }
}

/// The decimal digit character for `d`, which must lie in `0 ..= 9`.
pub open spec fn digit_char(d: int) -> char
    recommends
        0 <= d <= 9,
{
    ((48 + d) as u8) as char
}

/// `n` rendered as exactly three zero-padded decimal digits.
pub open spec fn three_digits(n: int) -> Seq<char>
    recommends
        0 <= n <= MAX_FIELD,
{
    seq![digit_char(n / 100), digit_char((n / 10) % 10), digit_char(n % 10)]
}

/// The 8-character header of a chunk: id, the literal `OF`, total.
pub open spec fn header_chars(id: int, total: int) -> Seq<char>
    recommends
        0 <= id <= MAX_FIELD,
        0 <= total <= MAX_FIELD,
{
    three_digits(id) + seq!['O', 'F'] + three_digits(total)
}

/// The full wire line of a chunk: header immediately followed by the payload.
pub open spec fn chunk_chars(c: ChunkModel) -> Seq<char>
    recommends
        c.id <= MAX_FIELD,
        c.total <= MAX_FIELD,
{
    header_chars(c.id as int, c.total as int) + c.payload
}

/// Relies on `String::push` of std: it appends the given character at the
/// end of the string.
#[verifier::external_body]
fn push_char(s: &mut String, c: char)
    ensures
        final(s)@ == old(s)@.push(c),
{
    s.push(c)
}

/// Appends `n` to `s` as exactly three zero-padded decimal digits.
fn push_three_digits(s: &mut String, n: u16)
    requires
        n <= MAX_FIELD,
    ensures
        final(s)@ == old(s)@ + three_digits(n as int),
{
    let d0: u16 = n / 100;
    let d1: u16 = (n / 10) % 10;
    let d2: u16 = n % 10;
    push_char(s, (48 + d0 as u8) as char);
    push_char(s, (48 + d1 as u8) as char);
    push_char(s, (48 + d2 as u8) as char);
    assert(s@ =~= old(s)@ + three_digits(n as int));
}

impl EncodedChunk {
    /// Renders this chunk as its wire line. Rendering is pure formatting and
    /// cannot fail while both numeric fields fit their three digits.
    pub fn render(&self) -> (r: String)
        requires
            self.id <= MAX_FIELD,
            self.total <= MAX_FIELD,
        ensures
            r@ == chunk_chars(self@),
    {
        let mut r = String::new();
        push_three_digits(&mut r, self.id);
        push_char(&mut r, 'O');
        push_char(&mut r, 'F');
        push_three_digits(&mut r, self.total);
        r.append(self.payload.as_str());
        assert(r@ =~= chunk_chars(self@));
        r
    }
}

} // verus!
