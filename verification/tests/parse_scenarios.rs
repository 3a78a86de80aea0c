use rdb::{parse, AllFilter, EncodingType, Event, Nil, RdbError, RdbParser, Score};

fn snapshot(body: &[u8]) -> Vec<u8> {
    let mut bytes = b"REDIS0008".to_vec();
    bytes.extend_from_slice(body);
    bytes.push(0xFF);
    bytes.extend_from_slice(&[0u8; 8]);
    bytes
}

fn run(bytes: Vec<u8>) -> Vec<Event> {
    let mut sink = Nil;
    parse(bytes, &mut sink, AllFilter).expect("parse failed")
}

#[test]
fn empty_db() {
    let events = run(snapshot(&[0xFE, 0x00]));
    assert_eq!(
        events,
        vec![
            Event::StartRdb,
            Event::StartDatabase(0),
            Event::EndDatabase(0),
            Event::EndRdb,
            Event::Checksum(vec![0u8; 8]),
        ]
    );
}

#[test]
fn one_string() {
    let mut body = vec![0xFE, 0x00, 0x00, 0x03];
    body.extend_from_slice(b"key");
    body.push(0x05);
    body.extend_from_slice(b"value");
    let events = run(snapshot(&body));
    assert_eq!(
        events,
        vec![
            Event::StartRdb,
            Event::StartDatabase(0),
            Event::SetString(b"key".to_vec(), b"value".to_vec(), None),
            Event::EndDatabase(0),
            Event::EndRdb,
            Event::Checksum(vec![0u8; 8]),
        ]
    );
}

#[test]
fn integer_string() {
    let mut body = vec![0xFE, 0x00, 0x00, 0x03];
    body.extend_from_slice(b"num");
    body.extend_from_slice(&[0xC0, 0x2A]);
    let events = run(snapshot(&body));
    assert_eq!(events[2], Event::SetString(b"num".to_vec(), b"42".to_vec(), None));
}

#[test]
fn negative_packed_integers() {
    // INT8 -1, INT16 -2, INT32 -300000000 under three keys.
    let mut body = vec![0xFE, 0x00];
    body.extend_from_slice(&[0x00, 0x01, b'a', 0xC0, 0xFF]);
    body.extend_from_slice(&[0x00, 0x01, b'b', 0xC1, 0xFE, 0xFF]);
    let v = (-300000000i32) as u32;
    body.extend_from_slice(&[0x00, 0x01, b'c', 0xC2]);
    body.extend_from_slice(&v.to_le_bytes());
    let events = run(snapshot(&body));
    assert_eq!(events[2], Event::SetString(b"a".to_vec(), b"-1".to_vec(), None));
    assert_eq!(events[3], Event::SetString(b"b".to_vec(), b"-2".to_vec(), None));
    assert_eq!(events[4], Event::SetString(b"c".to_vec(), b"-300000000".to_vec(), None));
}

#[test]
fn lzf_string() {
    let value = b"aaaaaaaaaaaaaaaaaaaaaaaaaaaaaaaaaaaaaaaa".to_vec();
    let compressed = lzf::compress(&value).expect("compressible");
    let mut body = vec![0xFE, 0x00, 0x00, 0x01, b'k', 0xC3];
    body.push(compressed.len() as u8);
    body.push(value.len() as u8);
    body.extend_from_slice(&compressed);
    let events = run(snapshot(&body));
    assert_eq!(events[2], Event::SetString(b"k".to_vec(), value, None));
}

#[test]
fn expire_then_set() {
    let ms: u64 = 1_700_000_000_123;
    let mut body = vec![0xFE, 0x00, 0xFC];
    body.extend_from_slice(&ms.to_le_bytes());
    body.extend_from_slice(&[0x00, 0x01, b'k', 0x01, b'v']);
    // The next key must carry no expiry.
    body.extend_from_slice(&[0x00, 0x01, b'x', 0x01, b'y']);
    let events = run(snapshot(&body));
    assert_eq!(events[2], Event::SetString(b"k".to_vec(), b"v".to_vec(), Some(ms)));
    assert_eq!(events[3], Event::SetString(b"x".to_vec(), b"y".to_vec(), None));
}

#[test]
fn expire_seconds_scales_to_ms() {
    let secs: u32 = 12345;
    let mut body = vec![0xFE, 0x00, 0xFD];
    body.extend_from_slice(&secs.to_be_bytes());
    body.extend_from_slice(&[0x00, 0x01, b'k', 0x01, b'v']);
    let events = run(snapshot(&body));
    assert_eq!(events[2], Event::SetString(b"k".to_vec(), b"v".to_vec(), Some(12345000)));
}

#[test]
fn sorted_set_with_plus_infinity() {
    let mut body = vec![0xFE, 0x00, 0x03, 0x02];
    body.extend_from_slice(b"zs");
    body.push(0x01);
    body.extend_from_slice(&[0x01, b'm', 254]);
    let events = run(snapshot(&body));
    assert_eq!(
        events[2],
        Event::StartSortedSet(b"zs".to_vec(), 1, None, EncodingType::Skiplist)
    );
    assert_eq!(
        events[3],
        Event::SortedSetElement(b"zs".to_vec(), Score::PosInf, b"m".to_vec())
    );
    assert_eq!(events[4], Event::EndSortedSet(b"zs".to_vec()));
}

#[test]
fn sorted_set_sentinels_and_text() {
    let mut body = vec![0xFE, 0x00, 0x03, 0x01];
    body.extend_from_slice(b"z");
    body.push(0x03);
    body.extend_from_slice(&[0x01, b'a', 253]);
    body.extend_from_slice(&[0x01, b'b', 255]);
    body.extend_from_slice(&[0x01, b'c', 0x03]);
    body.extend_from_slice(b"1.5");
    let events = run(snapshot(&body));
    assert_eq!(
        events[3],
        Event::SortedSetElement(b"z".to_vec(), Score::NotANumber, b"a".to_vec())
    );
    assert_eq!(
        events[4],
        Event::SortedSetElement(b"z".to_vec(), Score::NegInf, b"b".to_vec())
    );
    assert_eq!(
        events[5],
        Event::SortedSetElement(b"z".to_vec(), Score::Text(b"1.5".to_vec()), b"c".to_vec())
    );
}

#[test]
fn aux_and_resizedb() {
    let mut body = vec![0xFE, 0x00];
    body.extend_from_slice(&[0xFA, 0x03]);
    body.extend_from_slice(b"ver");
    body.push(0x01);
    body.push(b'8');
    body.extend_from_slice(&[0xFB, 0x05, 0x02]);
    let events = run(snapshot(&body));
    assert_eq!(events[2], Event::AuxField(b"ver".to_vec(), b"8".to_vec()));
    assert_eq!(events[3], Event::ResizeDb(5, 2));
}

#[test]
fn length_prefix_widths() {
    // 14-bit, 32-bit and 64-bit length prefixes all decode.
    let long = vec![b'x'; 64];
    let mut body = vec![0xFE, 0x00];
    body.extend_from_slice(&[0x00, 0x01, b'a', 0x40, 64]);
    body.extend_from_slice(&long);
    body.extend_from_slice(&[0x00, 0x01, b'b', 0x80, 0x00, 0x00, 0x00, 0x03]);
    body.extend_from_slice(b"pqr");
    body.extend_from_slice(&[0x00, 0x01, b'c', 0x81, 0, 0, 0, 0, 0, 0, 0, 0x02]);
    body.extend_from_slice(b"hi");
    let events = run(snapshot(&body));
    assert_eq!(events[2], Event::SetString(b"a".to_vec(), long, None));
    assert_eq!(events[3], Event::SetString(b"b".to_vec(), b"pqr".to_vec(), None));
    assert_eq!(events[4], Event::SetString(b"c".to_vec(), b"hi".to_vec(), None));
}

#[test]
fn empty_list_and_set() {
    let mut body = vec![0xFE, 0x00];
    body.extend_from_slice(&[0x01, 0x01, b'l', 0x00]);
    body.extend_from_slice(&[0x02, 0x01, b's', 0x00]);
    let events = run(snapshot(&body));
    assert_eq!(
        &events[2..6],
        &[
            Event::StartList(b"l".to_vec(), 0, None, EncodingType::LinkedList),
            Event::EndList(b"l".to_vec()),
            Event::StartSet(b"s".to_vec(), 0, None, EncodingType::Hashtable),
            Event::EndSet(b"s".to_vec()),
        ]
    );
}

#[test]
fn hash_pairs() {
    let mut body = vec![0xFE, 0x00, 0x04, 0x01, b'h', 0x02];
    body.extend_from_slice(&[0x01, b'f', 0x01, b'v', 0x01, b'g', 0x01, b'w']);
    let events = run(snapshot(&body));
    assert_eq!(
        &events[2..6],
        &[
            Event::StartHash(b"h".to_vec(), 2, None, EncodingType::Hashtable),
            Event::HashElement(b"h".to_vec(), b"f".to_vec(), b"v".to_vec()),
            Event::HashElement(b"h".to_vec(), b"g".to_vec(), b"w".to_vec()),
            Event::EndHash(b"h".to_vec()),
        ]
    );
}

#[test]
fn rejects_bad_magic() {
    let mut bytes = b"RADIS0008".to_vec();
    bytes.push(0xFF);
    let mut parser = RdbParser::new(bytes, AllFilter);
    assert!(matches!(parser.parse(), Err(RdbError::MalformedInput(_))));
}

#[test]
fn rejects_unsupported_version() {
    let mut bytes = b"REDIS0009".to_vec();
    bytes.extend_from_slice(&[0xFE, 0x00, 0xFF]);
    let mut parser = RdbParser::new(bytes, AllFilter);
    assert!(matches!(parser.parse(), Err(RdbError::MalformedInput(_))));
}

#[test]
fn rejects_module_value() {
    let body = [0xFE, 0x00, 0x06, 0x01, b'k'];
    let mut sink = Nil;
    let r = parse(snapshot(&body), &mut sink, AllFilter);
    assert_eq!(r, Err(RdbError::Unsupported(6)));
}

#[test]
fn rejects_truncated_input() {
    let mut bytes = b"REDIS0008".to_vec();
    bytes.extend_from_slice(&[0xFE, 0x00, 0x00, 0x03, b'k']);
    let mut parser = RdbParser::new(bytes, AllFilter);
    assert!(matches!(parser.parse(), Err(RdbError::MalformedInput(_))));
}

#[test]
fn missing_checksum_is_empty() {
    let mut bytes = b"REDIS0008".to_vec();
    bytes.extend_from_slice(&[0xFE, 0x00, 0xFF]);
    let mut sink = Nil;
    let events = parse(bytes, &mut sink, AllFilter).expect("parse failed");
    assert_eq!(events.last(), Some(&Event::Checksum(Vec::new())));
}

#[test]
fn lzf_wrong_declared_length_is_rejected() {
    // The declared uncompressed length must match the decompressed size
    // exactly.
    let value = b"aaaaaaaaaaaaaaaaaaaaaaaaaaaaaaaaaaaaaaaa".to_vec();
    let compressed = lzf::compress(&value).expect("compressible");
    let mut body = vec![0xFE, 0x00, 0x00, 0x01, b'k', 0xC3];
    body.push(compressed.len() as u8);
    body.push((value.len() + 5) as u8);
    body.extend_from_slice(&compressed);
    let mut sink = Nil;
    let r = parse(snapshot(&body), &mut sink, AllFilter);
    assert!(matches!(r, Err(RdbError::MalformedInput(_))));
}

#[test]
fn unknown_type_byte_is_malformed() {
    // Only the module codes are Unsupported; an unknown byte is malformed.
    let body = [0xFE, 0x00, 0x08, 0x01, b'k'];
    let mut sink = Nil;
    let r = parse(snapshot(&body), &mut sink, AllFilter);
    assert!(matches!(r, Err(RdbError::MalformedInput(_))));
    let body2 = [0xFE, 0x00, 0x07, 0x01, b'k'];
    let mut sink2 = Nil;
    assert_eq!(parse(snapshot(&body2), &mut sink2, AllFilter), Err(RdbError::Unsupported(7)));
}
