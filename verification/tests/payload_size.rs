use qrxfil::payload_size::number_chunks_overhead;

#[test]
fn test_no_overhead() {
    // Scenario: Single chunk without overhead
    assert_eq!(number_chunks_overhead(1024, 2048), 1);
    // Scenario: Three chunks without overhead
    assert_eq!(number_chunks_overhead(2 * 1024, 1000), 3);
}

#[test]
fn test_exact_align_overhead() {
    // Scenario: 4 KB payload split over 1024 bytes content forces a fifth chunk of overhead
    assert_eq!(number_chunks_overhead(4 * 1024, 1024), 5);
    // Scenario: 120 bytes payload split over 30 bytes content forces a fifth chunk too
    assert_eq!(number_chunks_overhead(120, 30), 6);
}

#[test]
fn test_large_payload_causes_overhead() {
    // Scenario: 500KB payload split over 1KB gives 4 overhead chunks
    // 500 chunks * 8 bytes overhead per chunk = 4000 bytes of overhead = 4 chunks
    assert_eq!(number_chunks_overhead(500 * 1024, 1024), 500 + 4);
}
