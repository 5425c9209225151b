//! A chunked text transport protocol: a byte payload is carried as a set of
//! small self-describing text chunks, each of which can travel on its own
//! (for instance as an optical code), and the original payload is rebuilt
//! from a collection of chunks that may arrive incomplete, duplicated or out
//! of order.
//!
//! The crate covers the chunk wire format and its codec, the splitter that
//! turns a text payload into chunk strings, the parser that recovers a
//! structured chunk from one raw line, and the validator that either yields
//! the deduplicated gap-free batch needed for reassembly or a precise
//! diagnostic of why the batch cannot be reassembled.

pub mod assemble;
pub mod chunk;
pub mod chunk_iterator;
pub mod errors;
pub mod laws;
pub mod parser;
pub mod payload;
pub mod payload_size;
pub mod validator;
