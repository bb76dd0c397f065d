use redis_starter_rust::cli::{parse_arguments, ArgError};

fn args(words: &[&str]) -> Vec<Vec<u8>> {
    words.iter().map(|w| w.as_bytes().to_vec()).collect()
}

fn b(s: &str) -> Vec<u8> {
    s.as_bytes().to_vec()
}

#[test]
fn reads_options_into_pairs() {
    let pairs = parse_arguments(&args(&["server", "--port", "7000", "stray", "--dir", "/data"])).unwrap();
    assert_eq!(pairs, vec![(b("port"), b("7000")), (b("dir"), b("/data"))]);
}

#[test]
fn replicaof_becomes_host_colon_port() {
    let pairs = parse_arguments(&args(&["server", "--replicaof", "localhost 6379"])).unwrap();
    assert_eq!(pairs, vec![(b("replicaof"), b("localhost:6379"))]);
    assert_eq!(parse_arguments(&args(&["server", "--replicaof", "localhost"])), Err(ArgError::BadReplicaof));
    assert_eq!(parse_arguments(&args(&["server", "--replicaof"])), Err(ArgError::MissingReplicaof));
    assert_eq!(parse_arguments(&args(&["server", "--port"])), Err(ArgError::MissingValue(b("--port"))));
    assert_eq!(parse_arguments(&args(&["server"])), Ok(vec![]));
}
