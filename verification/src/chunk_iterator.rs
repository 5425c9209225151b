//! The lazy chunk splitter.
//!
//! [`BufferedIterator`] cuts an in-memory text into successive pieces of at
//! most `chunk_size` characters; [`ChunkIterator`] turns each piece into a
//! full chunk line, numbering the pieces from 1 and declaring the total
//! computed up front as the rounded-up quotient of the source size by the
//! piece size. Both are forward-only: each call to `next` consumes one
//! piece and yields `None` once the text is exhausted.

use vstd::prelude::*;
use vstd::string::{StrSliceExecFns, StringExecFns};
use crate::chunk::{chunk_chars, ChunkModel, EncodedChunk, MAX_FIELD};
use crate::payload_size::{chunk_count, lemma_chunk_count_bounds, lemma_chunk_count_from_div};

verus! {

/// The end of the piece starting at `from`: `chunk_size` characters later,
/// or the end of the text, whichever comes first.
pub open spec fn piece_end(data: Seq<char>, chunk_size: int, from: int) -> int {
    if from + chunk_size <= data.len() {
        from + chunk_size
    } else {
        data.len() as int
    }
}

/// The piece of `data` at the 0-based position `i` when the text is cut
/// into pieces of `chunk_size` characters.
pub open spec fn piece(data: Seq<char>, chunk_size: int, i: int) -> Seq<char>
    recommends
        chunk_size >= 1,
        0 <= i < chunk_count(data.len() as int, chunk_size),
{
    data.subrange(i * chunk_size, piece_end(data, chunk_size, i * chunk_size))
}

/// The wire line of the chunk at the 0-based position `i` of a split of
/// `data` into pieces of `chunk_size` characters.
pub open spec fn split_chunk_line(data: Seq<char>, chunk_size: int, i: int) -> Seq<char>
    recommends
        chunk_size >= 1,
        0 <= i < chunk_count(data.len() as int, chunk_size) <= MAX_FIELD,
{
    chunk_chars(
        ChunkModel {
            id: (i + 1) as u16,
            total: chunk_count(data.len() as int, chunk_size) as u16,
            payload: piece(data, chunk_size, i),
        },
    )
}

/// All wire lines of a split of `data` into pieces of `chunk_size`
/// characters, in id order.
pub open spec fn split_spec(data: Seq<char>, chunk_size: int) -> Seq<Seq<char>>
    recommends
        chunk_size >= 1,
        chunk_count(data.len() as int, chunk_size) <= MAX_FIELD,
{
    Seq::new(
        chunk_count(data.len() as int, chunk_size) as nat,
        |i: int| split_chunk_line(data, chunk_size, i),
    )
}

/// Reads an in-memory text `chunk_size` characters at a time.
pub struct BufferedIterator {
    data: String,
    pos: usize,
    chunk_size: u64,
}

/// Mathematical state of a [`BufferedIterator`]: the text it reads, the
/// position of the next character to hand out, and the piece size.
pub ghost struct BufferedIteratorModel {
    pub data: Seq<char>,
    pub pos: int,
    pub chunk_size: int,
}

impl View for BufferedIterator {
    type V = BufferedIteratorModel;

    closed spec fn view(&self) -> BufferedIteratorModel {
        BufferedIteratorModel {
            data: self.data@,
            pos: self.pos as int,
            chunk_size: self.chunk_size as int,
        }
    }
}

impl BufferedIterator {
    /// The reader hands out pieces of at least one character and never
    /// stands past the end of its text.
    pub open spec fn wf(&self) -> bool {
        &&& 1 <= self@.chunk_size
        &&& 0 <= self@.pos <= self@.data.len()
    }

    /// A reader over `data`, handing out `chunk_size` characters per read.
    pub fn new(data: String, chunk_size: u64) -> (r: Self)
        requires
            chunk_size >= 1,
        ensures
            r.wf(),
            r@.data == data@,
            r@.pos == 0,
            r@.chunk_size == chunk_size,
    {
        Self { data, pos: 0, chunk_size }
    }

    /// The next piece of the text: the `chunk_size` characters at the
    /// current position (fewer at the end), or `None` once the text is
    /// exhausted.
    pub fn next(&mut self) -> (r: Option<String>)
        requires
            old(self).wf(),
        ensures
            final(self).wf(),
            final(self)@.data == old(self)@.data,
            final(self)@.chunk_size == old(self)@.chunk_size,
            old(self)@.pos == old(self)@.data.len() ==> r is None && final(self)@ == old(self)@,
            old(self)@.pos < old(self)@.data.len() ==> {
                &&& r is Some
                &&& r->Some_0@ == old(self)@.data.subrange(
                    old(self)@.pos,
                    piece_end(old(self)@.data, old(self)@.chunk_size, old(self)@.pos),
                )
                &&& final(self)@.pos == piece_end(
                    old(self)@.data,
                    old(self)@.chunk_size,
                    old(self)@.pos,
                )
            },
    {
        let len = self.data.as_str().unicode_len();
        if self.pos >= len {
            return None;
        }
        let remaining = len - self.pos;
        let step: usize = if self.chunk_size < remaining as u64 {
            self.chunk_size as usize
        } else {
            remaining
        };
        let end = self.pos + step;
        let out = String::from_str(self.data.as_str().substring_char(self.pos, end));
        self.pos = end;
        Some(out)
    }
}

/// Numbers the pieces of a text and renders each as a full chunk line.
pub struct ChunkIterator {
    reader: BufferedIterator,
    /// How many chunks the whole text yields.
    chunk_total: u16,
    /// The id the next produced chunk will carry.
    current_chunk_id: u16,
}

/// Mathematical state of a [`ChunkIterator`].
pub ghost struct ChunkIteratorModel {
    pub data: Seq<char>,
    pub pos: int,
    pub chunk_size: int,
    pub chunk_total: u16,
    pub next_id: u16,
}

impl View for ChunkIterator {
    type V = ChunkIteratorModel;

    closed spec fn view(&self) -> ChunkIteratorModel {
        ChunkIteratorModel {
            data: self.reader@.data,
            pos: self.reader@.pos,
            chunk_size: self.reader@.chunk_size,
            chunk_total: self.chunk_total,
            next_id: self.current_chunk_id,
        }
    }
}

impl ChunkIterator {
    /// The splitter's invariant: the declared total is the rounded-up
    /// quotient of the text length by the piece size and fits the wire
    /// format, and the position always stands at the start of the piece
    /// the next id names (or at the end once every piece is spent).
    pub open spec fn wf(&self) -> bool {
        &&& 1 <= self@.chunk_size
        &&& self@.chunk_total == chunk_count(self@.data.len() as int, self@.chunk_size)
        &&& self@.chunk_total <= MAX_FIELD
        &&& 1 <= self@.next_id <= self@.chunk_total + 1
        &&& if self@.next_id <= self@.chunk_total {
            self@.pos == (self@.next_id - 1) * self@.chunk_size && self@.pos < self@.data.len()
        } else {
            self@.pos == self@.data.len()
        }
    }

    /// A splitter over `data`, which must hold `total_size` characters:
    /// each produced chunk carries up to `chunk_size` payload characters
    /// and declares the total `total_size / chunk_size` rounded up, which
    /// must fit the wire format's three digits.
    pub fn new(data: String, total_size: u64, chunk_size: u64) -> (r: Self)
        requires
            chunk_size >= 1,
            total_size == data@.len(),
            chunk_count(data@.len() as int, chunk_size as int) <= MAX_FIELD,
        ensures
            r.wf(),
            r@.data == data@,
            r@.pos == 0,
            r@.chunk_size == chunk_size,
            r@.chunk_total == chunk_count(data@.len() as int, chunk_size as int),
            r@.next_id == 1,
    {
        proof {
            lemma_chunk_count_from_div(total_size as int, chunk_size as int);
            lemma_chunk_count_bounds(total_size as int, chunk_size as int);
        }
        let q = total_size / chunk_size;
        let m = total_size % chunk_size;
        let chunk_total: u16 = if m == 0 {
            q as u16
        } else {
            (q + 1) as u16
        };
        Self {
            reader: BufferedIterator::new(data, chunk_size),
            chunk_total,
            current_chunk_id: 1,
        }
    }

    /// How many chunks the whole text yields.
    pub fn chunk_total(&self) -> (r: u16)
        ensures
            r == self@.chunk_total,
    {
        self.chunk_total
    }

    /// The next chunk line, or `None` once the text is exhausted. The
    /// produced line is the piece at the position the chunk's id names,
    /// behind a header carrying that id and the fixed total.
    pub fn next(&mut self) -> (r: Option<String>)
        requires
            old(self).wf(),
        ensures
            final(self).wf(),
            final(self)@.data == old(self)@.data,
            final(self)@.chunk_size == old(self)@.chunk_size,
            final(self)@.chunk_total == old(self)@.chunk_total,
            old(self)@.next_id > old(self)@.chunk_total ==> r is None && final(self)@ == old(
                self,
            )@,
            old(self)@.next_id <= old(self)@.chunk_total ==> {
                &&& r is Some
                &&& r->Some_0@ == split_chunk_line(
                    old(self)@.data,
                    old(self)@.chunk_size,
                    old(self)@.next_id - 1,
                )
                &&& final(self)@.next_id == old(self)@.next_id + 1
            },
    {
        let ghost m = self@;
        proof {
            lemma_chunk_count_bounds(m.data.len() as int, m.chunk_size);
        }
        match self.reader.next() {
            None => None,
            Some(buf) => {
                proof {
                    assert(m.next_id <= m.chunk_total);
                    assert(buf@ == piece(m.data, m.chunk_size, m.next_id - 1)) by {
                        assert((m.next_id - 1) * m.chunk_size == m.pos);
                    }
                }
                let chunk = EncodedChunk {
                    id: self.current_chunk_id,
                    total: self.chunk_total,
                    payload: buf,
                };
                let line = chunk.render();
                proof {
                    let new_pos = piece_end(m.data, m.chunk_size, m.pos);
                    if m.next_id + 1 <= m.chunk_total {
                        assert(new_pos == m.next_id * m.chunk_size && new_pos < m.data.len())
                            by (nonlinear_arith)
                            requires
                                m.pos == (m.next_id - 1) * m.chunk_size,
                                new_pos == piece_end(m.data, m.chunk_size, m.pos),
                                m.chunk_size >= 1,
                                m.next_id + 1 <= m.chunk_total,
                                m.chunk_total == chunk_count(m.data.len() as int, m.chunk_size),
                                chunk_count(m.data.len() as int, m.chunk_size) * m.chunk_size
                                    >= m.data.len(),
                                m.data.len() > 0 ==> (chunk_count(
                                    m.data.len() as int,
                                    m.chunk_size,
                                ) - 1) * m.chunk_size < m.data.len(),
                        ;
                    } else {
                        assert(new_pos == m.data.len()) by (nonlinear_arith)
                            requires
                                m.pos == (m.next_id - 1) * m.chunk_size,
                                new_pos == piece_end(m.data, m.chunk_size, m.pos),
                                m.chunk_size >= 1,
                                m.next_id == m.chunk_total,
                                m.chunk_total == chunk_count(m.data.len() as int, m.chunk_size),
                                chunk_count(m.data.len() as int, m.chunk_size) * m.chunk_size
                                    >= m.data.len(),
                        ;
                    }
                }
                self.current_chunk_id = self.current_chunk_id + 1;
                Some(line)
            },
        }
    }
}

} // verus!
