use redis_starter_rust::io::{read_bulk_bytes, read_command, Command};
use redis_starter_rust::replica::{HandshakeEvent, HandshakeState, Replica, ReplicaAction};
use redis_starter_rust::store::StoreCommand;

fn b(s: &str) -> Vec<u8> {
    s.as_bytes().to_vec()
}

fn step(state: HandshakeState, event: HandshakeEvent) -> (HandshakeState, Option<String>) {
    let (next, send) = Replica::handshake(state, &event, b"7000");
    (next, send.map(|s| String::from_utf8(s).unwrap()))
}

#[test]
fn handshake_runs_to_streaming() {
    let (s, send) = step(HandshakeState::Connecting, HandshakeEvent::Connected);
    assert_eq!(s, HandshakeState::PingSent);
    assert_eq!(send.unwrap(), "*1\r\n$4\r\nPING\r\n");
    let (s, send) = step(s, HandshakeEvent::Line(b("+PONG")));
    assert_eq!(s, HandshakeState::Replconf1);
    assert_eq!(send.unwrap(), "*3\r\n$8\r\nREPLCONF\r\n$14\r\nlistening-port\r\n$4\r\n7000\r\n");
    let (s, send) = step(s, HandshakeEvent::Line(b("+OK")));
    assert_eq!(s, HandshakeState::Replconf2);
    assert_eq!(send.unwrap(), "*3\r\n$8\r\nREPLCONF\r\n$4\r\ncapa\r\n$6\r\npsync2\r\n");
    let (s, send) = step(s, HandshakeEvent::Line(b("+OK")));
    assert_eq!(s, HandshakeState::PsyncSent);
    assert_eq!(send.unwrap(), "*3\r\n$5\r\nPSYNC\r\n$1\r\n?\r\n$2\r\n-1\r\n");
    let (s, send) = step(s, HandshakeEvent::Line(b("+FULLRESYNC abc 0")));
    assert_eq!(s, HandshakeState::Snapshot);
    assert!(send.is_none());
    let (s, _) = step(s, HandshakeEvent::SnapshotRead);
    assert_eq!(s, HandshakeState::Streaming);
}

#[test]
fn handshake_failures() {
    assert_eq!(step(HandshakeState::PingSent, HandshakeEvent::Timeout).0, HandshakeState::Terminated);
    assert_eq!(step(HandshakeState::PingSent, HandshakeEvent::Line(b("-ERR"))).0, HandshakeState::Terminated);
    assert_eq!(step(HandshakeState::Replconf1, HandshakeEvent::Timeout).0, HandshakeState::Replconf2);
    assert_eq!(step(HandshakeState::PsyncSent, HandshakeEvent::Line(b("+OK"))).0, HandshakeState::Terminated);
    assert_eq!(step(HandshakeState::PsyncSent, HandshakeEvent::Timeout).0, HandshakeState::Terminated);
    assert_eq!(step(HandshakeState::PsyncSent, HandshakeEvent::ReadError).0, HandshakeState::Terminated);
    assert_eq!(step(HandshakeState::Streaming, HandshakeEvent::Connected).0, HandshakeState::Terminated);
}

fn frame(bytes: &[u8]) -> Command {
    read_command(bytes).unwrap().unwrap()
}

#[test]
fn ingest_applies_writes_and_counts_bytes() {
    let mut r = Replica::new();
    let set = frame(b"*3\r\n$3\r\nSET\r\n$3\r\nfoo\r\n$3\r\n123\r\n");
    match r.dispatch(&set, 0) {
        ReplicaAction::Forward(StoreCommand::SetKey { key, value }) => {
            assert_eq!(key, b("foo"));
            assert_eq!(value, b("123"));
        }
        _ => panic!("not forwarded"),
    }
    assert_eq!(r.total_bytes(), 31);
    let ping = frame(b"*1\r\n$4\r\nPING\r\n");
    assert!(matches!(r.dispatch(&ping, 0), ReplicaAction::Nothing));
    assert_eq!(r.total_bytes(), 45);
    let getack = frame(b"*3\r\n$8\r\nREPLCONF\r\n$6\r\nGETACK\r\n$1\r\n*\r\n");
    match r.dispatch(&getack, 0) {
        ReplicaAction::Reply(bytes) => {
            assert_eq!(bytes, b("*3\r\n$8\r\nREPLCONF\r\n$3\r\nACK\r\n$2\r\n82\r\n"))
        }
        _ => panic!("no ack"),
    }
    let set_px = frame(b"*5\r\n$3\r\nSET\r\n$1\r\nk\r\n$1\r\nv\r\n$2\r\npx\r\n$3\r\n100\r\n");
    match r.dispatch(&set_px, 1000) {
        ReplicaAction::Forward(StoreCommand::SetEx { until, .. }) => assert_eq!(until, 1100),
        _ => panic!("not forwarded"),
    }
    let other = frame(b"*1\r\n$4\r\nINFO\r\n");
    assert!(matches!(r.dispatch(&other, 0), ReplicaAction::Ignored));
}

#[test]
fn snapshot_read_stops_after_payload() {
    let bytes = b"$5\r\nREDIS*1\r\n$4\r\nPING\r\n";
    let (payload, used) = read_bulk_bytes(bytes).unwrap().unwrap();
    assert_eq!(payload, b("REDIS"));
    assert_eq!(used, 9);
    assert_eq!(read_command(&bytes[used..]).unwrap().unwrap().payload, vec![b("PING")]);
}
