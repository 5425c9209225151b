use qrxfil::chunk_iterator::{BufferedIterator, ChunkIterator};

#[test]
fn read_ok_twice_noleftover_test() {
    // Given a 10 byte payload
    let payload: String = String::from("foobarbaz!");
    // And an iterator taking 5 bytes
    let mut iter = BufferedIterator::new(payload.clone(), 5);

    // When I call iterator.next() three times
    let res = match iter.next() {
        None => panic!("iterator returned no data first time"),
        Some(buf) => buf,
    };
    // Then the first two yield Some payload
    assert_eq!(res, payload[..5]);
    let res2 = match iter.next() {
        None => panic!("iterator returned no data"),
        Some(buf) => buf,
    };
    assert_eq!(res2, payload[5..]);
    // But the third returns None
    let res3 = iter.next();
    assert!(res3.is_none());
}

#[test]
fn read_ok_twice_leftover_test() {
    // Given a 11 byte payload
    let payload: String = String::from("foobarmore!");
    // And an iterator taking 6 bytes
    let mut iter = BufferedIterator::new(payload.clone(), 6);

    // When I call iterator.next() thrice
    let res = match iter.next() {
        None => panic!("iterator returned no data first time"),
        Some(buf) => buf,
    };
    // Then the first yields Some payload
    assert_eq!(res, payload[..6]);
    let res2 = match iter.next() {
        None => panic!("iterator returned no data"),
        Some(buf) => buf,
    };
    // And the second returns leftover payload
    assert_eq!(res2, payload[6..]);
    // But the third returns None
    let res3 = iter.next();
    assert!(res3.is_none());
}

#[test]
// Scenario: Reading 2 chunks with no leftover data
fn read_ok_thrice_noleftover_test() {
    // Given a 50 byte payload
    let payload = String::from("Pellentesque condimentum ut suscipit hendrerit est");
    // And an iterator taking 25 bytes
    let mut chunk_iter =
        ChunkIterator::new(payload.clone(), payload.len().try_into().unwrap(), 25);

    // When I call iterator.next() three times
    let res = match chunk_iter.next() {
        None => panic!("iterator returned no data first time"),
        Some(buf) => buf,
    };
    // Then the first two yield Some payload
    assert_eq!(res, ["001OF002", &payload[..25]].concat());
    let res2 = match chunk_iter.next() {
        None => panic!("iterator returned no data"),
        Some(buf) => buf,
    };
    assert_eq!(res2, ["002OF002", &payload[25..]].concat());
    // But the third returns None for empty iterator
    let res3 = chunk_iter.next();
    assert!(res3.is_none());
}

#[test]
// Scenario: Reading a chunk with leftover data on second read
fn chunk_iterator_read_ok_twice_leftover_test() {
    // Given a 40 byte payload
    let payload = String::from("Nullam ante vel est convallis dignissim.");
    // And an iterator taking 23 bytes
    let mut chunk_iter =
        ChunkIterator::new(payload.clone(), payload.len().try_into().unwrap(), 23);

    // When I call iterator.next() three times
    let res = match chunk_iter.next() {
        None => panic!("iterator returned no data first time"),
        Some(buf) => buf,
    };
    // Then the first yields Some payload
    assert_eq!(res, ["001OF002", &payload[..23]].concat());
    let res2 = match chunk_iter.next() {
        None => panic!("iterator returned no data"),
        Some(buf) => buf,
    };
    // And the second returns the leftover payload
    assert_eq!(res2, ["002OF002", &payload[23..]].concat());
    // But the third returns None
    let res3 = chunk_iter.next();
    assert!(res3.is_none());
}
