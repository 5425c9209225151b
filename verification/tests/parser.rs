use qrxfil::chunk::EncodedChunk;
use qrxfil::errors::{ChunkParseError, RestoreError};
use qrxfil::parser::parse;
use qrxfil::validator::check_chunk_range;

#[test]
fn decode_ok_test() {
    let expected = Ok::<EncodedChunk, ChunkParseError>(EncodedChunk {
        id: 1,
        total: 2,
        payload: "abcdef".to_string(),
    });
    assert_eq!(parse("001OF002abcdef"), expected);
}

#[test]
fn decode_no_id_test() {
    let expected = Err(ChunkParseError::IdMissing);
    assert_eq!(parse("aaaOF002abcdef"), expected);
}

#[test]
fn decode_no_total_test() {
    let expected = Err(ChunkParseError::TotalMissing);
    assert_eq!(parse("003OFBAAabcdef"), expected);
}

#[test]
fn decode_no_payload_test() {
    let expected = Err(ChunkParseError::PayloadMissing);
    assert_eq!(parse("003OF008"), expected);
}

#[test]
fn decode_bad_separator_test() {
    let expected = Err(ChunkParseError::BadSeparator);
    assert_eq!(parse("011BA002abcdef"), expected);
}

#[test]
fn range_ok_test() {
    let total_number_chunks: u16 = 37;
    let first_chunk = EncodedChunk {
        id: 1,
        total: total_number_chunks,
        payload: String::from("payload1"),
    };
    // Create many chunks with proper data
    let chunks: Vec<EncodedChunk> = (1..=total_number_chunks)
        .map(|i| EncodedChunk {
            id: i,
            payload: format!("payload{}", i),
            ..first_chunk
        })
        .collect();

    assert!(check_chunk_range(&chunks).is_ok());
}

#[test]
fn range_missing_chunk_test() {
    let chunks: Vec<EncodedChunk> = vec![
        EncodedChunk {
            id: 1,
            total: 3,
            payload: String::from("payload1"),
        },
        EncodedChunk {
            id: 2,
            total: 3,
            payload: String::from("payload2"),
        }, // missing third chunk
    ];
    let range_check = check_chunk_range(&chunks);
    let error = Err(RestoreError::MissingChunk {
        expected_total: 3,
        missing_chunk_ids: vec![3],
    });
    assert_eq!(range_check, error);
}

#[test]
fn range_too_many_chunks_test() {
    let chunks: Vec<EncodedChunk> = vec![
        EncodedChunk {
            id: 1,
            total: 1,
            payload: String::from("payload1"),
        },
        // "Chunk 2 of 1"
        EncodedChunk {
            id: 2,
            total: 1,
            payload: String::from("payload2"),
        },
    ];
    let range_check = check_chunk_range(&chunks);
    let error = Err(RestoreError::TooManyChunks {
        expected_total: 1,
        unexpected_chunk_ids: vec![2],
    });
    assert_eq!(range_check, error);
}

#[test]
fn range_duplicate_chunk_skipped_test() {
    let payload = String::from("payload1");
    let chunks: Vec<EncodedChunk> = vec![
        EncodedChunk {
            id: 1,
            total: 1,
            payload: payload.clone(),
        },
        // "Chunk 2 of 1"
        EncodedChunk {
            id: 1,
            total: 1,
            payload,
        },
    ];
    assert!(check_chunk_range(&chunks).is_ok());
}

#[test]
fn range_corrupted_duplicate_chunk_error_test() {
    let bad_payload = String::from("mismatching payload");
    let chunks: Vec<EncodedChunk> = vec![
        EncodedChunk {
            id: 1,
            total: 1,
            payload: String::from("payload1"),
        },
        // "Chunk 2 of 1"
        EncodedChunk {
            id: 1,
            total: 1,
            payload: bad_payload.clone(),
        },
    ];
    let range_check = check_chunk_range(&chunks);
    let error = Err(RestoreError::MismatchingDuplicateChunk {
        mismatching_chunks: vec![(chunks[0].clone(), bad_payload)],
    });
    assert_eq!(range_check, error);
}

#[test]
fn range_total_mismatch_test() {
    let reference = EncodedChunk {
        id: 1,
        total: 3,
        payload: String::from("payload1"),
    };
    let clashing = EncodedChunk {
        id: 2,
        total: 4,
        payload: String::from("payload2"),
    };
    let chunks: Vec<EncodedChunk> = vec![reference.clone(), clashing.clone()];
    let range_check = check_chunk_range(&chunks);
    let error = Err(RestoreError::TotalMismatch {
        reference_chunk: reference,
        clashing_chunk: clashing,
    });
    assert_eq!(range_check, error);
}
