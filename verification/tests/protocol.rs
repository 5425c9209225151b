use qrxfil::assemble::{decode, reassemble};
use qrxfil::chunk::EncodedChunk;
use qrxfil::chunk_iterator::ChunkIterator;
use qrxfil::errors::{ChunkParseError, RestoreError};

fn chunk(id: u16, total: u16, payload: &str) -> EncodedChunk {
    EncodedChunk {
        id,
        total,
        payload: String::from(payload),
    }
}

#[test]
fn render_pads_both_fields_to_three_digits() {
    assert_eq!(chunk(7, 23, "abc").render(), "007OF023abc");
    assert_eq!(chunk(1, 999, "x").render(), "001OF999x");
}

// Scenario: a 51-unit source split with a 25-unit budget yields exactly 3
// chunks declaring total 3, the last carrying only the 1 remaining unit.
#[test]
fn split_51_units_with_25_unit_budget_yields_3_chunks() {
    let payload: String = (0..51).map(|i| (b'a' + (i % 26) as u8) as char).collect();
    let mut iter = ChunkIterator::new(payload.clone(), 51, 25);
    assert_eq!(iter.chunk_total(), 3);
    let first = iter.next().expect("first chunk missing");
    let second = iter.next().expect("second chunk missing");
    let third = iter.next().expect("third chunk missing");
    assert_eq!(first, ["001OF003", &payload[..25]].concat());
    assert_eq!(second, ["002OF003", &payload[25..50]].concat());
    assert_eq!(third, ["003OF003", &payload[50..]].concat());
    assert_eq!(third.len(), 8 + 1);
    assert!(iter.next().is_none());
}

#[test]
fn split_lines_decode_back_to_the_source_text() {
    let payload: String = (0..101).map(|i| (b'A' + (i % 26) as u8) as char).collect();
    let mut iter = ChunkIterator::new(payload.clone(), 101, 40);
    let mut lines: Vec<String> = Vec::new();
    while let Some(line) = iter.next() {
        lines.push(line);
    }
    assert_eq!(lines.len(), 3);
    assert_eq!(decode(&lines), Ok(payload));
}

#[test]
fn reassemble_concatenates_in_id_order() {
    let chunks = vec![chunk(1, 3, "foo"), chunk(2, 3, "bar"), chunk(3, 3, "baz")];
    assert_eq!(reassemble(&chunks), Ok(String::from("foobarbaz")));
}

// Scenario for order independence: the same chunks shuffled reassemble to
// the same text.
#[test]
fn reassemble_ignores_scan_order() {
    let sorted = vec![chunk(1, 3, "foo"), chunk(2, 3, "bar"), chunk(3, 3, "baz")];
    let shuffled = vec![chunk(3, 3, "baz"), chunk(1, 3, "foo"), chunk(2, 3, "bar")];
    assert_eq!(reassemble(&shuffled), reassemble(&sorted));
    assert_eq!(reassemble(&shuffled), Ok(String::from("foobarbaz")));
}

// Scenario for duplicate tolerance: an exact duplicate added to a complete
// batch changes nothing.
#[test]
fn reassemble_tolerates_exact_duplicates() {
    let batch = vec![chunk(1, 2, "left"), chunk(2, 2, "right")];
    let mut with_duplicate = batch.clone();
    with_duplicate.push(chunk(2, 2, "right"));
    assert_eq!(reassemble(&with_duplicate), reassemble(&batch));
    assert_eq!(reassemble(&batch), Ok(String::from("leftright")));
}

#[test]
fn decode_reports_the_offending_line() {
    let lines = vec![
        String::from("001OF002abc"),
        String::from("002OF00"),
    ];
    let expected = Err(RestoreError::ChunkDecodeError {
        error: ChunkParseError::TotalMissing,
        raw_chunk: String::from("002OF00"),
    });
    assert_eq!(decode(&lines), expected);
}

#[test]
fn decode_rejects_a_batch_with_clashing_totals() {
    let lines = vec![
        String::from("001OF002abc"),
        String::from("002OF003def"),
    ];
    let expected = Err(RestoreError::TotalMismatch {
        reference_chunk: chunk(1, 2, "abc"),
        clashing_chunk: chunk(2, 3, "def"),
    });
    assert_eq!(decode(&lines), expected);
}

#[test]
fn missing_ids_are_listed_in_ascending_order() {
    let chunks = vec![chunk(2, 5, "b"), chunk(4, 5, "d")];
    let expected = Err(RestoreError::MissingChunk {
        expected_total: 5,
        missing_chunk_ids: vec![1, 3, 5],
    });
    assert_eq!(check_range(&chunks), expected);
}

#[test]
fn unexpected_ids_are_listed_in_ascending_order() {
    let chunks = vec![
        chunk(1, 2, "a"),
        chunk(2, 2, "b"),
        chunk(9, 2, "i"),
        chunk(5, 2, "e"),
    ];
    let expected = Err(RestoreError::TooManyChunks {
        expected_total: 2,
        unexpected_chunk_ids: vec![5, 9],
    });
    assert_eq!(check_range(&chunks), expected);
}

#[test]
fn parse_then_render_is_identity_on_wire_lines() {
    let line = "042OF100some+base64/payload==";
    let parsed = qrxfil::parser::parse(line).expect("wire line must parse");
    assert_eq!(parsed.render(), line);
}

fn check_range(chunks: &Vec<EncodedChunk>) -> Result<Vec<EncodedChunk>, RestoreError> {
    qrxfil::validator::check_chunk_range(chunks)
}

#[test]
fn split_payload_encodes_before_splitting() {
    // 3 raw bytes become 4 base64 characters, and binary bytes cannot
    // appear verbatim in the base64 alphabet.
    let data: Vec<u8> = vec![0xFF, 0x00, 0xAB];
    let lines = qrxfil::payload::split_payload(&data, 100).expect("split must fit one chunk");
    assert_eq!(lines.len(), 1);
    assert_eq!(lines[0], "001OF001/wCr");
}

#[test]
fn restore_payload_undoes_split_payload() {
    let data: Vec<u8> = (0..=255).collect();
    let lines = qrxfil::payload::split_payload(&data, 25).expect("split must fit the cap");
    let restored = qrxfil::payload::restore_payload(&lines)
        .expect("chunks straight from the splitter must validate")
        .expect("text straight from the encoder must be valid base64");
    assert_eq!(restored, data);
}

#[test]
fn restore_payload_rejects_text_that_is_not_base64() {
    let lines = vec![String::from("001OF001???")];
    let restored = qrxfil::payload::restore_payload(&lines)
        .expect("a single consistent chunk must validate");
    assert!(restored.is_none());
}

#[test]
fn split_payload_refuses_batches_beyond_the_id_cap() {
    // 2000 raw bytes encode to 2668 base64 characters: 2668 one-character
    // chunks cannot be numbered with three digits.
    let data: Vec<u8> = vec![7; 2000];
    assert!(qrxfil::payload::split_payload(&data, 1).is_none());
}

// A collection both missing ids and carrying unexpected ones is reported
// by its missing ids.
#[test]
fn missing_ids_take_precedence_over_unexpected_ones() {
    let chunks = vec![chunk(1, 2, "a"), chunk(5, 2, "e")];
    let expected = Err(RestoreError::MissingChunk {
        expected_total: 2,
        missing_chunk_ids: vec![2],
    });
    assert_eq!(check_range(&chunks), expected);
}
