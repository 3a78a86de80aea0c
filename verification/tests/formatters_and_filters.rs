use rdb::{parse, AllFilter, Event, Nil, RdbParser, StrictFilter, Type, JSON, Plain, Protocol};

fn snapshot(body: &[u8]) -> Vec<u8> {
    let mut bytes = b"REDIS0008".to_vec();
    bytes.extend_from_slice(body);
    bytes.push(0xFF);
    bytes.extend_from_slice(&[0u8; 8]);
    bytes
}

fn one_string_body() -> Vec<u8> {
    let mut body = vec![0xFE, 0x00, 0x00, 0x03];
    body.extend_from_slice(b"key");
    body.push(0x05);
    body.extend_from_slice(b"value");
    body
}

#[test]
fn protocol_output() {
    let mut formatter = Protocol::new();
    parse(snapshot(&one_string_body()), &mut formatter, AllFilter).expect("parse failed");
    let expected = b"*2\r\n$6\r\nSELECT\r\n$1\r\n0\r\n*3\r\n$3\r\nSET\r\n$3\r\nkey\r\n$5\r\nvalue\r\n";
    assert_eq!(formatter.output().as_slice(), &expected[..]);
}

#[test]
fn protocol_expiry_command() {
    let ms: u64 = 1500;
    let mut body = vec![0xFE, 0x00, 0xFC];
    body.extend_from_slice(&ms.to_le_bytes());
    body.extend_from_slice(&[0x00, 0x01, b'k', 0x01, b'v']);
    let mut formatter = Protocol::new();
    parse(snapshot(&body), &mut formatter, AllFilter).expect("parse failed");
    let out = String::from_utf8(formatter.output().clone()).expect("utf8");
    assert!(out.ends_with("*3\r\n$9\r\nPEXPIREAT\r\n$1\r\nk\r\n$4\r\n1500\r\n"));
}

#[test]
fn json_output() {
    let mut formatter = JSON::new();
    parse(snapshot(&one_string_body()), &mut formatter, AllFilter).expect("parse failed");
    assert_eq!(formatter.output().as_slice(), b"[{\"key\":\"value\"}]\n");
}

#[test]
fn json_escapes_quotes() {
    let mut body = vec![0xFE, 0x00, 0x00, 0x01, b'k', 0x03];
    body.extend_from_slice(b"a\"b");
    let mut formatter = JSON::new();
    parse(snapshot(&body), &mut formatter, AllFilter).expect("parse failed");
    assert_eq!(formatter.output().as_slice(), b"[{\"k\":\"a\\\"b\"}]\n");
}

#[test]
fn plain_output_with_checksum() {
    let mut formatter = Plain::new();
    parse(snapshot(&one_string_body()), &mut formatter, AllFilter).expect("parse failed");
    let out = String::from_utf8(formatter.output().clone()).expect("utf8");
    assert!(out.contains("db=0 key -> value\n"));
    assert!(out.contains("checksum 0000000000000000\n"));
}

#[test]
fn strict_filter_by_key_pattern() {
    let mut body = one_string_body();
    body.extend_from_slice(&[0x00, 0x03]);
    body.extend_from_slice(b"oth");
    body.extend_from_slice(&[0x02]);
    body.extend_from_slice(b"no");
    let mut filter = StrictFilter::new();
    filter.add_keys(regex::bytes::Regex::new("^key").expect("pattern"));
    let mut sink = Nil;
    let events = parse(snapshot(&body), &mut sink, filter).expect("parse failed");
    assert!(events.contains(&Event::SetString(b"key".to_vec(), b"value".to_vec(), None)));
    assert!(!events.iter().any(|e| matches!(e, Event::SetString(k, _, _) if k == b"oth")));
}

#[test]
fn strict_filter_by_type() {
    let mut body = one_string_body();
    // An empty list under another key.
    body.extend_from_slice(&[0x01, 0x01, b'l', 0x00]);
    let mut filter = StrictFilter::new();
    filter.add_type(Type::List);
    let mut sink = Nil;
    let events = parse(snapshot(&body), &mut sink, filter).expect("parse failed");
    assert!(!events.iter().any(|e| matches!(e, Event::SetString(_, _, _))));
    assert!(events.contains(&Event::EndList(b"l".to_vec())));
}

#[test]
fn strict_filter_by_database() {
    let mut body = vec![0xFE, 0x00];
    body.extend_from_slice(&[0x00, 0x01, b'a', 0x01, b'1']);
    body.extend_from_slice(&[0xFE, 0x01]);
    body.extend_from_slice(&[0x00, 0x01, b'b', 0x01, b'2']);
    let mut filter = StrictFilter::new();
    filter.add_database(1);
    let mut sink = Nil;
    let events = parse(snapshot(&body), &mut sink, filter).expect("parse failed");
    assert!(!events.contains(&Event::StartDatabase(0)));
    assert!(events.contains(&Event::StartDatabase(1)));
    assert!(events.contains(&Event::SetString(b"b".to_vec(), b"2".to_vec(), None)));
    assert!(!events.iter().any(|e| matches!(e, Event::SetString(k, _, _) if k == b"a")));
}

#[test]
fn expire_clears_across_filtered_key() {
    // The latched expiry is consumed by a filtered-out key; the next key
    // carries none.
    let ms: u64 = 777;
    let mut body = vec![0xFE, 0x00, 0xFC];
    body.extend_from_slice(&ms.to_le_bytes());
    body.extend_from_slice(&[0x00, 0x03]);
    body.extend_from_slice(b"oth");
    body.extend_from_slice(&[0x01, b'x']);
    body.extend_from_slice(&[0x00, 0x03]);
    body.extend_from_slice(b"key");
    body.extend_from_slice(&[0x01, b'v']);
    let mut filter = StrictFilter::new();
    filter.add_keys(regex::bytes::Regex::new("^key").expect("pattern"));
    let mut sink = Nil;
    let events = parse(snapshot(&body), &mut sink, filter).expect("parse failed");
    assert!(events.contains(&Event::SetString(b"key".to_vec(), b"v".to_vec(), None)));
}

#[test]
fn filtered_and_unfiltered_runs_agree_on_consumption() {
    // Any filter consumes exactly the bytes the accept-all run does: the
    // filtered run still parses to the end and sees the same checksum.
    let mut body = one_string_body();
    body.extend_from_slice(&[0x01, 0x01, b'l', 0x02, 0x01, b'p', 0x01, b'q']);
    let bytes = snapshot(&body);
    let mut all_parser = RdbParser::new(bytes.clone(), AllFilter);
    all_parser.parse().expect("accept-all parse failed");
    let mut filter = StrictFilter::new();
    filter.add_keys(regex::bytes::Regex::new("^nothing").expect("pattern"));
    let mut some_parser = RdbParser::new(bytes, filter);
    some_parser.parse().expect("filtered parse failed");
    let all_events = all_parser.take_events();
    let some_events = some_parser.take_events();
    assert_eq!(all_events.last(), some_events.last());
}

#[test]
fn helpers_format_integers() {
    assert_eq!(rdb::helper::int_to_vec(0), b"0".to_vec());
    assert_eq!(rdb::helper::int_to_vec(-7), b"-7".to_vec());
    assert_eq!(rdb::helper::int_to_vec(1234567), b"1234567".to_vec());
    assert_eq!(rdb::helper::i64_to_vec(i64::MIN), b"-9223372036854775808".to_vec());
    assert_eq!(rdb::helper::u64_to_vec(u64::MAX), b"18446744073709551615".to_vec());
}

#[test]
fn type_from_encoding_classifies() {
    assert_eq!(Type::from_encoding(0), Some(Type::String));
    assert_eq!(Type::from_encoding(14), Some(Type::List));
    assert_eq!(Type::from_encoding(11), Some(Type::UnorderedSet));
    assert_eq!(Type::from_encoding(5), Some(Type::SortedSet));
    assert_eq!(Type::from_encoding(9), Some(Type::Hash));
    assert_eq!(Type::from_encoding(6), None);
    assert_eq!(Type::from_encoding(200), None);
}

#[test]
fn json_replaces_invalid_utf8() {
    let body = vec![0xFE, 0x00, 0x00, 0x01, b'k', 0x01, 0xFF];
    let mut formatter = JSON::new();
    parse(snapshot(&body), &mut formatter, AllFilter).expect("parse failed");
    let out = String::from_utf8(formatter.output().clone()).expect("utf8");
    assert!(out.contains('\u{FFFD}'));
}

struct FailingFormatter;

impl rdb::Formatter for FailingFormatter {
    fn start_rdb(&mut self) -> rdb::RdbResult<()> {
        Err(rdb::RdbError::EmitterFailure)
    }
    fn end_rdb(&mut self) -> rdb::RdbResult<()> {
        Ok(())
    }
    fn checksum(&mut self, _checksum: &[u8]) -> rdb::RdbResult<()> {
        Ok(())
    }
    fn start_database(&mut self, _db_index: u64) -> rdb::RdbResult<()> {
        Ok(())
    }
    fn end_database(&mut self, _db_index: u64) -> rdb::RdbResult<()> {
        Ok(())
    }
    fn resizedb(&mut self, _db_size: u64, _expires_size: u64) -> rdb::RdbResult<()> {
        Ok(())
    }
    fn aux_field(&mut self, _key: &[u8], _value: &[u8]) -> rdb::RdbResult<()> {
        Ok(())
    }
    fn set(&mut self, _key: &[u8], _value: &[u8], _expiry: Option<u64>) -> rdb::RdbResult<()> {
        Ok(())
    }
    fn start_hash(&mut self, _key: &[u8], _length: u64, _expiry: Option<u64>,
        _info: rdb::EncodingType) -> rdb::RdbResult<()> {
        Ok(())
    }
    fn end_hash(&mut self, _key: &[u8]) -> rdb::RdbResult<()> {
        Ok(())
    }
    fn hash_element(&mut self, _key: &[u8], _field: &[u8], _value: &[u8]) -> rdb::RdbResult<()> {
        Ok(())
    }
    fn start_set(&mut self, _key: &[u8], _cardinality: u64, _expiry: Option<u64>,
        _info: rdb::EncodingType) -> rdb::RdbResult<()> {
        Ok(())
    }
    fn end_set(&mut self, _key: &[u8]) -> rdb::RdbResult<()> {
        Ok(())
    }
    fn set_element(&mut self, _key: &[u8], _member: &[u8]) -> rdb::RdbResult<()> {
        Ok(())
    }
    fn start_list(&mut self, _key: &[u8], _length: u64, _expiry: Option<u64>,
        _info: rdb::EncodingType) -> rdb::RdbResult<()> {
        Ok(())
    }
    fn end_list(&mut self, _key: &[u8]) -> rdb::RdbResult<()> {
        Ok(())
    }
    fn list_element(&mut self, _key: &[u8], _value: &[u8]) -> rdb::RdbResult<()> {
        Ok(())
    }
    fn start_sorted_set(&mut self, _key: &[u8], _length: u64, _expiry: Option<u64>,
        _info: rdb::EncodingType) -> rdb::RdbResult<()> {
        Ok(())
    }
    fn end_sorted_set(&mut self, _key: &[u8]) -> rdb::RdbResult<()> {
        Ok(())
    }
    fn sorted_set_element(&mut self, _key: &[u8], _score: &rdb::Score, _member: &[u8])
        -> rdb::RdbResult<()> {
        Ok(())
    }
}

#[test]
fn emitter_failure_aborts_the_replay() {
    let mut formatter = FailingFormatter;
    let r = parse(snapshot(&one_string_body()), &mut formatter, AllFilter);
    assert_eq!(r, Err(rdb::RdbError::EmitterFailure));
}
