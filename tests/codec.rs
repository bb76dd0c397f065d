use redis_starter_rust::io::{
    format_error, get_string, read_bulk_bytes, read_command, write_array_size, write_bytes,
    write_integer, write_nil, write_ok, write_simple_error, write_simple_string, write_string,
    write_wrongtype, ProtocolError,
};
use redis_starter_rust::types::RedisType;

fn b(s: &str) -> Vec<u8> {
    s.as_bytes().to_vec()
}

fn bulk(s: &str) -> RedisType {
    RedisType::String(b(s))
}

#[test]
fn encodes_scalars() {
    assert_eq!(bulk("hey").to_vec(), b("$3\r\nhey\r\n"));
    assert_eq!(RedisType::Int(-42).to_vec(), b(":-42\r\n"));
    assert_eq!(RedisType::Int(i64::MIN).to_vec(), b(":-9223372036854775808\r\n"));
    assert_eq!(RedisType::Timestamp(1700000000000).to_vec(), b(":1700000000000\r\n"));
    assert_eq!(bulk("").to_vec(), b("$0\r\n\r\n"));
}

#[test]
fn encodes_nested_arrays_in_order() {
    let v = RedisType::Array(vec![
        bulk("a"),
        RedisType::Array(vec![RedisType::Int(1), RedisType::Array(vec![])]),
        bulk("b"),
    ]);
    assert_eq!(v.to_vec(), b("*3\r\n$1\r\na\r\n*2\r\n:1\r\n*0\r\n$1\r\nb\r\n"));
    let mut out = b("x");
    v.write(&mut out);
    assert_eq!(out[1..].to_vec(), v.to_vec());
}

#[test]
fn encodes_deep_nesting() {
    let mut v = RedisType::Array(vec![]);
    for _ in 0..1000 {
        v = RedisType::Array(vec![v]);
    }
    let bytes = v.to_vec();
    assert_eq!(bytes.len(), 1000 * 4 + 4);
    assert!(bytes.starts_with(b"*1\r\n*1\r\n"));
    assert!(bytes.ends_with(b"*1\r\n*0\r\n"));
}

#[test]
fn duplicate_is_equal_encoding() {
    let v = RedisType::Array(vec![bulk("k"), RedisType::Int(3)]);
    assert_eq!(v.duplicate().to_vec(), v.to_vec());
}

#[test]
fn writers_append_replies() {
    let mut out = Vec::new();
    write_ok(&mut out);
    write_nil(&mut out);
    write_simple_string(&mut out, b"PONG");
    write_simple_error(&mut out, b"ERR x");
    write_integer(&mut out, 7);
    write_array_size(&mut out, 2);
    write_string(&mut out, b"ab");
    write_bytes(&mut out, b"RDB");
    assert_eq!(out, b("+OK\r\n$-1\r\n+PONG\r\n-ERR x\r\n:7\r\n*2\r\n$2\r\nab\r\n$3\r\nRDB"));
    let mut w = Vec::new();
    write_wrongtype(&mut w);
    assert_eq!(w, b("-WRONGTYPE Operation against a key holding the wrong kind of value\r\n"));
}

#[test]
fn round_trip_of_a_command() {
    let words = vec![b("SET"), b("key"), b("va\r\nlue"), b("")];
    let v = RedisType::Array(words.iter().map(|w| RedisType::String(w.clone())).collect());
    let mut bytes = v.to_vec();
    let n = bytes.len();
    bytes.extend_from_slice(b"*1\r\n$4\r\nPING\r\n");
    let cmd = read_command(&bytes).unwrap().unwrap();
    assert_eq!(cmd.payload, words);
    assert_eq!(cmd.length, n);
}

#[test]
fn framing_length_counts_every_byte() {
    let frame = b("*2\r\n$4\r\nECHO\r\n$5\r\nhello\r\n");
    let cmd = read_command(&frame).unwrap().unwrap();
    assert_eq!(cmd.length, frame.len());
    assert_eq!(cmd.payload, vec![b("ECHO"), b("hello")]);
}

#[test]
fn incomplete_frames_need_more_bytes() {
    let frame = b("*2\r\n$4\r\nECHO\r\n$5\r\nhello\r\n");
    for cut in 0..frame.len() {
        assert!(read_command(&frame[..cut]).unwrap().is_none(), "cut at {}", cut);
    }
}

#[test]
fn inline_commands_split_at_white_space() {
    let cmd = read_command(b"  PING   hello\tworld \r\nrest").unwrap().unwrap();
    assert_eq!(cmd.payload, vec![b("PING"), b("hello"), b("world")]);
    assert_eq!(cmd.length, 23);
}

#[test]
fn protocol_errors() {
    assert_eq!(read_command(b"*x\r\n").err(), Some(ProtocolError::InvalidMultibulkLength));
    assert_eq!(read_command(b"*1\r\n:3\r\n").err(), Some(ProtocolError::ExpectedDollar(b':')));
    assert_eq!(read_command(b"*1\r\n\r\n").err(), Some(ProtocolError::ExpectedDollar(b' ')));
    assert_eq!(read_command(b"*1\r\n$-1\r\n").err(), Some(ProtocolError::InvalidBulkLength));
    assert_eq!(read_command(b"*1\r\n$2\r\nabXY").err(), Some(ProtocolError::ExpectedCrlf));
    assert_eq!(ProtocolError::ExpectedCrlf.message(), b("Protocol error: expected CRLF after bulk payload"));
    assert_eq!(format_error(b'x'), b("Protocol error: expected '$', got 'x'"));
}

#[test]
fn lines_and_raw_bulks() {
    let line = get_string(b"+PONG\r\nmore", 0).unwrap();
    assert_eq!(line.string, b("+PONG"));
    assert_eq!(line.bytes, 7);
    assert!(get_string(b"+PONG", 0).is_none());
    let (payload, used) = read_bulk_bytes(b"$3\r\nRDB*1\r\n").unwrap().unwrap();
    assert_eq!(payload, b("RDB"));
    assert_eq!(used, 7);
    assert!(read_bulk_bytes(b"$3\r\nRD").unwrap().is_none());
    assert_eq!(read_bulk_bytes(b"+OK\r\n").err(), Some(ProtocolError::ExpectedDollar(b'+')));
}
