use rdb::{parse, AllFilter, EncodingType, Event, Nil, Score};

fn snapshot(body: &[u8]) -> Vec<u8> {
    let mut bytes = b"REDIS0008".to_vec();
    bytes.extend_from_slice(body);
    bytes.push(0xFF);
    bytes.extend_from_slice(&[0u8; 8]);
    bytes
}

fn run(bytes: Vec<u8>) -> Vec<Event> {
    let mut sink = Nil;
    parse(bytes, &mut sink, AllFilter).expect("parse failed")
}

// A ziplist blob: header, string entries, terminator.
fn ziplist(entries: &[&[u8]]) -> Vec<u8> {
    let mut zl = Vec::new();
    zl.extend_from_slice(&[0u8; 8]); // total bytes and tail offset, unused here
    zl.extend_from_slice(&(entries.len() as u16).to_le_bytes());
    for e in entries {
        zl.push(0); // previous-entry length
        zl.push(e.len() as u8); // short string flag
        zl.extend_from_slice(e);
    }
    zl.push(0xFF);
    zl
}

fn blob(data: &[u8]) -> Vec<u8> {
    let mut b = vec![data.len() as u8];
    b.extend_from_slice(data);
    b
}

fn list_elements(events: &[Event]) -> Vec<Vec<u8>> {
    events
        .iter()
        .filter_map(|e| match e {
            Event::ListElement(_, v) => Some(v.clone()),
            _ => None,
        })
        .collect()
}

#[test]
fn list_ziplist() {
    let zl = ziplist(&[b"one", b"two"]);
    let mut body = vec![0xFE, 0x00, 0x0A, 0x01, b'l'];
    body.extend_from_slice(&blob(&zl));
    let events = run(snapshot(&body));
    assert_eq!(
        &events[2..6],
        &[
            Event::StartList(b"l".to_vec(), 2, None, EncodingType::Ziplist),
            Event::ListElement(b"l".to_vec(), b"one".to_vec()),
            Event::ListElement(b"l".to_vec(), b"two".to_vec()),
            Event::EndList(b"l".to_vec()),
        ]
    );
}

#[test]
fn ziplist_inline_integers() {
    // Entries: small 0..12 form (value 7), 16-bit, and the 3-byte form
    // whose sign extension matters.
    let mut zl = Vec::new();
    zl.extend_from_slice(&[0u8; 8]);
    zl.extend_from_slice(&3u16.to_le_bytes());
    zl.extend_from_slice(&[0, 0xF8]); // 0xF1..0xFD packs value flag-1
    zl.extend_from_slice(&[0, 0xC0, 0x2C, 0x01]); // 16-bit LE 300
    zl.extend_from_slice(&[0, 0xF0, 0xFF, 0xFF, 0xFF]); // 24-bit -1
    zl.push(0xFF);
    let mut body = vec![0xFE, 0x00, 0x0A, 0x01, b'l'];
    body.extend_from_slice(&blob(&zl));
    let events = run(snapshot(&body));
    assert_eq!(
        list_elements(&events),
        vec![b"7".to_vec(), b"300".to_vec(), b"-1".to_vec()]
    );
}

#[test]
fn list_encodings_agree() {
    // The same logical list stored plain, as one ziplist, and as a
    // quicklist of two ziplists.
    let items: Vec<&[u8]> = vec![b"alpha", b"beta", b"gamma"];
    let mut plain_body = vec![0xFE, 0x00, 0x01, 0x01, b'l', 0x03];
    for it in &items {
        plain_body.extend_from_slice(&blob(it));
    }
    let mut zl_body = vec![0xFE, 0x00, 0x0A, 0x01, b'l'];
    zl_body.extend_from_slice(&blob(&ziplist(&items)));
    let mut ql_body = vec![0xFE, 0x00, 0x0E, 0x01, b'l', 0x02];
    ql_body.extend_from_slice(&blob(&ziplist(&items[..2])));
    ql_body.extend_from_slice(&blob(&ziplist(&items[2..])));

    let plain_events = run(snapshot(&plain_body));
    let zl_events = run(snapshot(&zl_body));
    let ql_events = run(snapshot(&ql_body));
    let expected: Vec<Vec<u8>> = items.iter().map(|i| i.to_vec()).collect();
    assert_eq!(list_elements(&plain_events), expected);
    assert_eq!(list_elements(&zl_events), expected);
    assert_eq!(list_elements(&ql_events), expected);
}

#[test]
fn zset_ziplist_pairs() {
    let zl = ziplist(&[b"member", b"3.25"]);
    let mut body = vec![0xFE, 0x00, 0x0C, 0x01, b'z'];
    body.extend_from_slice(&blob(&zl));
    let events = run(snapshot(&body));
    assert_eq!(
        &events[2..5],
        &[
            Event::StartSortedSet(b"z".to_vec(), 1, None, EncodingType::Ziplist),
            Event::SortedSetElement(b"z".to_vec(), Score::Text(b"3.25".to_vec()),
                b"member".to_vec()),
            Event::EndSortedSet(b"z".to_vec()),
        ]
    );
}

#[test]
fn hash_ziplist_pairs() {
    let zl = ziplist(&[b"f", b"v", b"g", b"w"]);
    let mut body = vec![0xFE, 0x00, 0x0D, 0x01, b'h'];
    body.extend_from_slice(&blob(&zl));
    let events = run(snapshot(&body));
    assert_eq!(
        &events[2..6],
        &[
            Event::StartHash(b"h".to_vec(), 2, None, EncodingType::Ziplist),
            Event::HashElement(b"h".to_vec(), b"f".to_vec(), b"v".to_vec()),
            Event::HashElement(b"h".to_vec(), b"g".to_vec(), b"w".to_vec()),
            Event::EndHash(b"h".to_vec()),
        ]
    );
}

#[test]
fn intset_members() {
    let mut is = Vec::new();
    is.extend_from_slice(&2u32.to_le_bytes()); // width
    is.extend_from_slice(&2u32.to_le_bytes()); // count
    is.extend_from_slice(&42i16.to_le_bytes());
    is.extend_from_slice(&(-2i16).to_le_bytes());
    let mut body = vec![0xFE, 0x00, 0x0B, 0x01, b's'];
    body.extend_from_slice(&blob(&is));
    let events = run(snapshot(&body));
    assert_eq!(
        &events[2..6],
        &[
            Event::StartSet(b"s".to_vec(), 2, None, EncodingType::Intset),
            Event::SetElement(b"s".to_vec(), b"42".to_vec()),
            Event::SetElement(b"s".to_vec(), b"-2".to_vec()),
            Event::EndSet(b"s".to_vec()),
        ]
    );
}

#[test]
fn zipmap_counted() {
    let mut zm = vec![2u8];
    zm.extend_from_slice(&[1, b'f', 1, 0, b'v']);
    zm.extend_from_slice(&[1, b'g', 1, 0, b'w']);
    zm.push(0xFF);
    let mut body = vec![0xFE, 0x00, 0x09, 0x01, b'h'];
    body.extend_from_slice(&blob(&zm));
    let events = run(snapshot(&body));
    assert_eq!(
        &events[2..6],
        &[
            Event::StartHash(b"h".to_vec(), 2, None, EncodingType::Zipmap),
            Event::HashElement(b"h".to_vec(), b"f".to_vec(), b"v".to_vec()),
            Event::HashElement(b"h".to_vec(), b"g".to_vec(), b"w".to_vec()),
            Event::EndHash(b"h".to_vec()),
        ]
    );
}

#[test]
fn zipmap_scan_mode() {
    // A count hint above 254 forces the scan-to-terminator path.
    let mut zm = vec![255u8];
    zm.extend_from_slice(&[1, b'a', 1, 0, b'b']);
    zm.push(0xFF);
    let mut body = vec![0xFE, 0x00, 0x09, 0x01, b'h'];
    body.extend_from_slice(&blob(&zm));
    let events = run(snapshot(&body));
    assert_eq!(
        &events[2..5],
        &[
            Event::StartHash(b"h".to_vec(), 1, None, EncodingType::Zipmap),
            Event::HashElement(b"h".to_vec(), b"a".to_vec(), b"b".to_vec()),
            Event::EndHash(b"h".to_vec()),
        ]
    );
}

#[test]
fn zset2_binary_scores() {
    let mut body = vec![0xFE, 0x00, 0x05, 0x01, b'z', 0x03];
    body.extend_from_slice(&[0x01, b'a']);
    body.extend_from_slice(&f64::INFINITY.to_bits().to_le_bytes());
    body.extend_from_slice(&[0x01, b'b']);
    body.extend_from_slice(&f64::NEG_INFINITY.to_bits().to_le_bytes());
    body.extend_from_slice(&[0x01, b'c']);
    body.extend_from_slice(&2.5f64.to_bits().to_le_bytes());
    let events = run(snapshot(&body));
    assert_eq!(
        events[3],
        Event::SortedSetElement(b"z".to_vec(), Score::PosInf, b"a".to_vec())
    );
    assert_eq!(
        events[4],
        Event::SortedSetElement(b"z".to_vec(), Score::NegInf, b"b".to_vec())
    );
    assert_eq!(
        events[5],
        Event::SortedSetElement(b"z".to_vec(), Score::Packed(2.5f64.to_bits()),
            b"c".to_vec())
    );
}

#[test]
fn ziplist_signed_one_and_eight_byte_integers() {
    let mut zl = Vec::new();
    zl.extend_from_slice(&[0u8; 8]);
    zl.extend_from_slice(&2u16.to_le_bytes());
    zl.extend_from_slice(&[0, 0xFE, 0x80]); // one signed byte: -128
    zl.extend_from_slice(&[0, 0xE0]); // eight bytes little-endian
    zl.extend_from_slice(&(-5i64).to_le_bytes());
    zl.push(0xFF);
    let mut body = vec![0xFE, 0x00, 0x0A, 0x01, b'l'];
    body.extend_from_slice(&blob(&zl));
    let events = run(snapshot(&body));
    assert_eq!(list_elements(&events), vec![b"-128".to_vec(), b"-5".to_vec()]);
}

#[test]
fn ziplist_missing_terminator_is_rejected() {
    let mut zl = Vec::new();
    zl.extend_from_slice(&[0u8; 8]);
    zl.extend_from_slice(&1u16.to_le_bytes());
    zl.extend_from_slice(&[0, 1, b'x']);
    zl.push(0xFE); // wrong terminator
    let mut body = vec![0xFE, 0x00, 0x0A, 0x01, b'l'];
    body.extend_from_slice(&blob(&zl));
    let mut sink = Nil;
    let r = parse(snapshot(&body), &mut sink, AllFilter);
    assert!(matches!(r, Err(rdb::RdbError::MalformedInput(_))));
}
