//! The two layers of failure a restore can run into.
//!
//! Structural errors ([`ChunkParseError`]) name the header field of a single
//! line that could not be parsed. Batch-consistency errors ([`RestoreError`])
//! are computed over the whole collection of parsed chunks and carry enough
//! data to let an operator repair the input: the reference and clashing
//! chunks of a total disagreement, or the explicit list of offending ids.

use vstd::prelude::*;
use crate::chunk::{ChunkModel, EncodedChunk};

verus! {

/// Why one raw line failed to parse as a chunk.
#[derive(Debug, PartialEq, Eq, Clone, Copy)]
pub enum ChunkParseError {
    /// The three leading characters do not form a decimal chunk id.
    IdMissing,
    /// The three characters after the separator do not form a decimal total.
    TotalMissing,
    /// Nothing follows the 8-character header.
    PayloadMissing,
    /// The two characters after the id are not the literal `OF`.
    BadSeparator,
}

/// Why a collection of chunks cannot restore the original payload.
#[derive(Debug, PartialEq, Eq)]
pub enum RestoreError {
    /// Not every id in `1 ..= expected_total` was seen.
    MissingChunk {
        /// The batch size declared by the chunks.
        expected_total: u16,
        /// The ids that were not seen, in ascending order.
        missing_chunk_ids: Vec<u16>,
    },
    /// Ids outside `1 ..= expected_total` were seen.
    TooManyChunks {
        /// The batch size declared by the chunks.
        expected_total: u16,
        /// The ids outside the expected range, in ascending order.
        unexpected_chunk_ids: Vec<u16>,
    },
    /// A chunk declared a total different from the reference chunk's.
    TotalMismatch {
        /// The first chunk of the collection, which sets the expected total.
        reference_chunk: EncodedChunk,
        /// The first chunk whose total disagrees with the reference.
        clashing_chunk: EncodedChunk,
    },
    /// An id was seen more than once with disagreeing payloads.
    MismatchingDuplicateChunk {
        /// Every (reference chunk, conflicting payload) pair found.
        mismatching_chunks: Vec<(EncodedChunk, String)>,
    },
    /// A raw line failed the structural parse.
    ChunkDecodeError {
        /// Which header field failed.
        error: ChunkParseError,
        /// The offending line, verbatim.
        raw_chunk: String,
    },
}

/// Mathematical model of a [`RestoreError`].
#[verifier::ext_equal]
pub ghost enum RestoreModel {
    MissingChunk { expected_total: u16, missing_chunk_ids: Seq<u16> },
    TooManyChunks { expected_total: u16, unexpected_chunk_ids: Seq<u16> },
    TotalMismatch { reference_chunk: ChunkModel, clashing_chunk: ChunkModel },
    MismatchingDuplicateChunk { mismatching_chunks: Seq<(ChunkModel, Seq<char>)> },
    ChunkDecodeError { error: ChunkParseError, raw_chunk: Seq<char> },
}

impl View for RestoreError {
    type V = RestoreModel;

    open spec fn view(&self) -> RestoreModel {
        match self {
            RestoreError::MissingChunk { expected_total, missing_chunk_ids } => {
                RestoreModel::MissingChunk {
                    expected_total: *expected_total,
                    missing_chunk_ids: missing_chunk_ids@,
                }
            },
            RestoreError::TooManyChunks { expected_total, unexpected_chunk_ids } => {
                RestoreModel::TooManyChunks {
                    expected_total: *expected_total,
                    unexpected_chunk_ids: unexpected_chunk_ids@,
                }
            },
            RestoreError::TotalMismatch { reference_chunk, clashing_chunk } => {
                RestoreModel::TotalMismatch {
                    reference_chunk: reference_chunk@,
                    clashing_chunk: clashing_chunk@,
                }
            },
            RestoreError::MismatchingDuplicateChunk { mismatching_chunks } => {
                RestoreModel::MismatchingDuplicateChunk {
                    mismatching_chunks: mismatching_chunks.deep_view(),
                }
            },
            RestoreError::ChunkDecodeError { error, raw_chunk } => {
                RestoreModel::ChunkDecodeError { error: *error, raw_chunk: raw_chunk@ }
            },
        }
    }
}

} // verus!
