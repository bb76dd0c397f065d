use redis_starter_rust::rdb::{Rdb, RdbError};
use redis_starter_rust::store::Store;
use redis_starter_rust::types::RedisType;

fn string(out: &mut Vec<u8>, s: &str) {
    out.push(s.len() as u8);
    out.extend_from_slice(s.as_bytes());
}

/// An image with `hello -> world` and `temp -> x` (expired in 2020).
fn image() -> Vec<u8> {
    let mut d = b"REDIS0011".to_vec();
    d.push(0xfa);
    string(&mut d, "redis-ver");
    string(&mut d, "7.2.0");
    d.push(0xfa);
    string(&mut d, "redis-bits");
    d.extend_from_slice(&[0xc0, 0x40]);
    d.extend_from_slice(&[0xfe, 0x00, 0xfb, 0x02, 0x01]);
    d.push(0x00);
    string(&mut d, "hello");
    string(&mut d, "world");
    d.push(0xfc);
    d.extend_from_slice(&1577836800000u64.to_le_bytes());
    d.push(0x00);
    string(&mut d, "temp");
    string(&mut d, "x");
    d.push(0xff);
    d.extend_from_slice(&[0; 8]);
    d
}

#[test]
fn reads_header_and_entries() {
    let mut rdb = Rdb::open(image()).unwrap();
    assert_eq!(rdb.version(), 11);
    assert_eq!(
        rdb.metadata().clone(),
        vec![(b"redis-ver".to_vec(), b"7.2.0".to_vec()), (b"redis-bits".to_vec(), b"64".to_vec())]
    );
    let first = rdb.read_next_entry().unwrap().unwrap();
    assert_eq!(first.key, b"hello".to_vec());
    assert_eq!(first.value.to_vec(), b"$5\r\nworld\r\n".to_vec());
    assert_eq!(first.expires, None);
    let second = rdb.read_next_entry().unwrap().unwrap();
    assert_eq!(second.key, b"temp".to_vec());
    assert_eq!(second.expires, Some(1577836800000));
    assert!(rdb.read_next_entry().unwrap().is_none());
    assert!(rdb.read_next_entry().unwrap().is_none());
}

#[test]
fn loaded_snapshot_serves_live_keys_only() {
    let mut rdb = Rdb::open(image()).unwrap();
    let mut store = Store::new();
    while let Some(e) = rdb.read_next_entry().unwrap() {
        store.write(&e.key, e.value, e.expires);
    }
    let now = 1700000000000u64;
    match store.read_at(b"hello", now) {
        Some(RedisType::String(s)) => assert_eq!(s, b"world".to_vec()),
        _ => panic!("hello missing"),
    }
    assert!(store.read_at(b"temp", now).is_none());
}

#[test]
fn seconds_deadline_and_integer_strings() {
    let mut d = b"REDIS0009".to_vec();
    d.extend_from_slice(&[0xfe, 0x00, 0xfb, 0x01, 0x00]);
    d.push(0xfd);
    d.extend_from_slice(&1000u32.to_le_bytes());
    d.push(0x00);
    d.extend_from_slice(&[0xc1, 0x18, 0xfc]);
    d.extend_from_slice(&[0xc2, 0xff, 0xff, 0xff, 0xff]);
    d.push(0xff);
    let mut rdb = Rdb::open(d).unwrap();
    let e = rdb.read_next_entry().unwrap().unwrap();
    assert_eq!(e.key, b"-1000".to_vec());
    assert_eq!(e.value.to_vec(), b"$2\r\n-1\r\n".to_vec());
    assert_eq!(e.expires, Some(1_000_000));
}

#[test]
fn long_lengths() {
    let mut d = b"REDIS0009".to_vec();
    d.extend_from_slice(&[0xfe, 0x00, 0xfb, 0x41, 0x00, 0x80, 0, 0, 1, 0]);
    d.push(0x00);
    d.extend_from_slice(&[0x40, 0x03]);
    d.extend_from_slice(b"abc");
    d.extend_from_slice(&[0x80, 0, 0, 0, 2]);
    d.extend_from_slice(b"de");
    d.push(0xfe);
    let mut rdb = Rdb::open(d).unwrap();
    let e = rdb.read_next_entry().unwrap().unwrap();
    assert_eq!(e.key, b"abc".to_vec());
    assert_eq!(e.value.to_vec(), b"$2\r\nde\r\n".to_vec());
    assert!(rdb.read_next_entry().unwrap().is_none());
}

#[test]
fn header_errors() {
    assert_eq!(Rdb::open(b"REDIS".to_vec()).err(), Some(RdbError::Truncated));
    assert_eq!(Rdb::open(b"RADIS0011\xfe\x00".to_vec()).err(), Some(RdbError::NotRdb));
    assert_eq!(Rdb::open(b"REDIS00x1\xfe\x00".to_vec()).err(), Some(RdbError::BadVersion));
    assert_eq!(Rdb::open(b"REDIS0011\xfe\x01\xfb\x00\x00".to_vec()).err(), Some(RdbError::MissingDb0));
    assert_eq!(Rdb::open(b"REDIS0011\xfe\x00\x00".to_vec()).err(), Some(RdbError::MissingHashSize));
    assert_eq!(Rdb::open(b"REDIS0011\x07".to_vec()).err(), Some(RdbError::UnknownByte(7, 10)));
    assert_eq!(Rdb::open(b"REDIS0011\xfa\xc3".to_vec()).err(), Some(RdbError::Compressed));
    assert_eq!(Rdb::open(b"REDIS0011\xfa\xc5".to_vec()).err(), Some(RdbError::UnknownEncoding));
}

#[test]
fn entry_errors() {
    let head = b"REDIS0011\xfe\x00\xfb\x00\x00".to_vec();
    let mut list = head.clone();
    list.extend_from_slice(b"\x01\x01k");
    assert_eq!(Rdb::open(list).unwrap().read_next_entry().err(), Some(RdbError::UnsupportedType(1)));
    let mut bad = head.clone();
    bad.push(0x33);
    assert_eq!(Rdb::open(bad).unwrap().read_next_entry().err(), Some(RdbError::UnrecognizedCode(0x33)));
    let mut cut = head.clone();
    cut.extend_from_slice(b"\x00\x05ab");
    assert_eq!(Rdb::open(cut).unwrap().read_next_entry().err(), Some(RdbError::Truncated));
}
