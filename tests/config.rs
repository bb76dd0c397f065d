use redis_starter_rust::config::{ConfigCommand, ConfigError, ConfigReply, Configuration};
use redis_starter_rust::info::{all_info, info_on};

fn b(s: &str) -> Vec<u8> {
    s.as_bytes().to_vec()
}

#[test]
fn test_default_keys() {
    let config = Configuration::default();
    let defaults = [
        ("bind-source-addr", "127.0.0.1"),
        ("dbfilename", "dump.rdb"),
        ("dir", "."),
        ("port", "6379"),
    ];
    for &(key, value) in defaults.iter() {
        assert_eq!(config.get(key.as_bytes()), Some(b(value)));
    }
}

#[test]
fn test_update_existing_key() {
    let mut config = Configuration::default();
    let key = b("dbfilename");
    let prev = config.get(&key).unwrap();
    let new = b("new_stuff");

    match config.update(key.clone(), new.clone()) {
        Ok(Some(value)) => assert_eq!(value, prev),
        Err(error) => panic!("{:?}", error),
        _ => panic!("Unexpected value"),
    }
    assert_eq!(config.get(&key), Some(new));
}

#[test]
fn test_update_wrong_key() {
    let mut config = Configuration::default();

    assert!(config.update(b("foo"), b("bar")).is_err());
}

#[test]
fn update_of_unset_key_returns_none() {
    let mut config = Configuration::new();
    assert_eq!(config.update(b("dir"), b("/tmp")), Ok(None));
    assert_eq!(config.get(b"dir"), Some(b("/tmp")));
    assert_eq!(config.update(b("nope"), b("x")), Err(ConfigError::UnknownKey(b("nope"))));
}

#[test]
fn bulk_update_stops_at_unknown_key() {
    let mut config = Configuration::default();
    let pairs = vec![(b("port"), b("7000")), (b("bogus"), b("1")), (b("dir"), b("/data"))];
    assert_eq!(config.bulk_update(pairs), Err(ConfigError::UnknownKey(b("bogus"))));
    assert_eq!(config.get(b"port"), Some(b("7000")));
    assert_eq!(config.get(b"dir"), Some(b(".")));
}

#[test]
fn binding_address_joins_addr_and_port() {
    let config = Configuration::default();
    assert_eq!(config.get_binding_address(), Ok(b("127.0.0.1:6379")));
    let empty = Configuration::new();
    assert_eq!(empty.get_binding_address(), Err(ConfigError::MissingAddress));
}

#[test]
fn as_hash_lists_every_pair() {
    let config = Configuration::default();
    let mut pairs = config.as_hash();
    pairs.sort();
    assert_eq!(pairs.len(), 4);
    assert_eq!(pairs[0], (b("bind-source-addr"), b("127.0.0.1")));
}

#[test]
fn replid_is_sha1_of_empty_seed() {
    let config = Configuration::default();
    let id = config.replica_info().digest_string();
    assert_eq!(id, b("da39a3ee5e6b4b0d3255bfef95601890afd80709"));
    assert_eq!(config.replica_info().offset(), 0);
}

#[test]
fn info_replication_on_master() {
    let config = Configuration::default();
    assert!(!config.is_replica());
    let text = String::from_utf8(info_on(&config, b"replication")).unwrap();
    let lines: Vec<&str> = text.split("\r\n").collect();
    assert_eq!(
        lines,
        vec![
            "# Replication",
            "role:master",
            "connected_slaves:0",
            "master_replid:da39a3ee5e6b4b0d3255bfef95601890afd80709",
            "master_repl_offset:0",
        ]
    );
    assert_eq!(all_info(&config), info_on(&config, b"replication"));
    assert_eq!(info_on(&config, b"server"), Vec::<u8>::new());
}

#[test]
fn info_on_replica_says_slave() {
    let mut config = Configuration::default();
    config.update(b("replicaof"), b("host:6000")).unwrap();
    assert!(config.is_replica());
    let text = String::from_utf8(info_on(&config, b"replication")).unwrap();
    assert!(text.split("\r\n").any(|l| l == "role:slave"));
}

#[test]
fn config_answers_requests() {
    let config = Configuration::default();
    match config.answer(&ConfigCommand::Get { items: vec![b("dir"), b("nothing"), b("port")] }) {
        ConfigReply::Values(v) => assert_eq!(v, vec![b("dir"), b("."), b("port"), b("6379")]),
        _ => panic!("wrong reply"),
    }
    match config.answer(&ConfigCommand::InfoOn { sections: vec![b("server"), b("replication")] }) {
        ConfigReply::Sections(v) => {
            assert_eq!(v.len(), 1);
            assert!(v[0].starts_with(b"# Replication\r\n"));
        }
        _ => panic!("wrong reply"),
    }
    match config.answer(&ConfigCommand::ReplicaDigest) {
        ConfigReply::Digest(d) => assert_eq!(d.len(), 40),
        _ => panic!("wrong reply"),
    }
    match config.answer(&ConfigCommand::AllInfo) {
        ConfigReply::Info(t) => assert!(t.starts_with(b"# Replication")),
        _ => panic!("wrong reply"),
    }
}
