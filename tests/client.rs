use redis_starter_rust::client::{init_static_data, Action, Client, Then};
use redis_starter_rust::config::{ConfigCommand, ConfigReply, Configuration};
use redis_starter_rust::store::{CommandResponse, Store, StoreCommand};
use redis_starter_rust::types::RedisType;

fn b(s: &str) -> Vec<u8> {
    s.as_bytes().to_vec()
}

fn cmd(words: &[&str]) -> Vec<Vec<u8>> {
    words.iter().map(|w| b(w)).collect()
}

fn reply(a: Action) -> String {
    match a {
        Action::Reply(bytes) => String::from_utf8(bytes).unwrap(),
        _ => panic!("not a plain reply"),
    }
}

/// Runs one command of a client against a store and a configuration.
fn run(client: &Client, store: &mut Store, config: &Configuration, words: &[&str], now: u64) -> String {
    match client.dispatch(&cmd(words), now) {
        Action::Reply(bytes) => String::from_utf8(bytes).unwrap(),
        Action::Write(c, ok) => {
            store.handle(c, now);
            String::from_utf8(ok).unwrap()
        }
        Action::Store(c, then) => {
            let (_, resp) = store.handle(c, now).reply.unwrap();
            String::from_utf8(Client::complete_store(&then, &resp)).unwrap()
        }
        Action::Config(c, then) => {
            let answer = config.answer(&c);
            String::from_utf8(Client::complete_config(&then, &answer)).unwrap()
        }
        Action::Psync => String::from("PSYNC"),
    }
}

fn setup() -> (Client, Store, Configuration) {
    let mut store = Store::new();
    let id = match store.handle(StoreCommand::InitClient, 0).reply {
        Some((id, _)) => id,
        None => panic!("no id"),
    };
    (Client { id }, store, Configuration::default())
}

#[test]
fn replica_ping_gets_pong() {
    let c = Client { id: 0 };
    assert_eq!(reply(c.dispatch(&cmd(&["PING"]), 0)), "+PONG\r\n");
    assert_eq!(reply(c.dispatch(&cmd(&["ping", "hi"]), 0)), "$2\r\nhi\r\n");
    assert_eq!(
        reply(c.dispatch(&cmd(&["PING", "a", "b"]), 0)),
        "-ERR wrong number of arguments for 'ping' command\r\n"
    );
}

#[test]
fn replconf_listening_port_gets_ok() {
    let c = Client { id: 0 };
    assert_eq!(reply(c.dispatch(&cmd(&["REPLCONF", "listening-port", "7000"]), 0)), "+OK\r\n");
}

#[test]
fn replconf_capa_gets_ok() {
    let c = Client { id: 0 };
    assert_eq!(reply(c.dispatch(&cmd(&["REPLCONF", "capa", "psync2"]), 0)), "+OK\r\n");
}

#[test]
fn psync_starts_a_full_resync() {
    let c = Client { id: 0 };
    assert!(matches!(c.dispatch(&cmd(&["PSYNC", "?", "-1"]), 0), Action::Psync));
    let config = Configuration::default();
    let id = config.replica_info().digest_string();
    let bytes = Client::handle_psync(&id);
    let text = String::from_utf8_lossy(&bytes).to_string();
    let first_line = text.split("\r\n").next().unwrap();
    let parts: Vec<&str> = first_line.split(' ').collect();
    assert_eq!(parts[0], "+FULLRESYNC");
    assert_eq!(parts[1].len(), 40);
    assert!(parts[1].chars().all(|ch| ch.is_ascii_hexdigit()));
    assert_eq!(parts[2], "0");
    let rest = &bytes[first_line.len() + 2..];
    assert_eq!(&rest[..6], b"$18\r\nR");
    assert_eq!(rest.len(), 5 + 18);
    assert_eq!(&rest[5..14], b"REDIS0010");
    assert_eq!(
        reply(c.dispatch(&cmd(&["PSYNC", "abc", "0"]), 0)),
        "-ERR Unsupported PSYNC arguments\r\n"
    );
}

#[test]
fn set_and_get_through_a_client() {
    let (c, mut store, config) = setup();
    assert_eq!(run(&c, &mut store, &config, &["SET", "k", "v"], 0), "+OK\r\n");
    assert_eq!(run(&c, &mut store, &config, &["GET", "k"], 0), "$1\r\nv\r\n");
    assert_eq!(run(&c, &mut store, &config, &["SET", "k", "v2"], 0), "+OK\r\n");
    assert_eq!(run(&c, &mut store, &config, &["get", "k"], 0), "$2\r\nv2\r\n");
    assert_eq!(run(&c, &mut store, &config, &["GET", "nope"], 0), "$-1\r\n");
}

#[test]
fn set_with_px_expires() {
    let (c, mut store, config) = setup();
    match c.dispatch(&cmd(&["SET", "k", "v", "PX", "1000"]), 5000) {
        Action::Write(StoreCommand::SetEx { until, .. }, _) => assert_eq!(until, 6000),
        _ => panic!("not a write with deadline"),
    }
    assert_eq!(run(&c, &mut store, &config, &["SET", "k", "v", "px", "50"], 1000), "+OK\r\n");
    assert_eq!(run(&c, &mut store, &config, &["GET", "k"], 1100), "$-1\r\n");
    assert_eq!(run(&c, &mut store, &config, &["KEYS", "*"], 1100), "*0\r\n");
    assert_eq!(run(&c, &mut store, &config, &["SET", "k", "v", "EX", "5"], 0), "-ERR syntax error\r\n");
    assert_eq!(
        run(&c, &mut store, &config, &["SET", "k", "v", "PX", "soon"], 0),
        "-ERR value is not an integer or out of range\r\n"
    );
    assert_eq!(
        run(&c, &mut store, &config, &["SET", "k", "v", "PX", "18446744073709551615"], 1),
        "-ERR invalid expire time in 'set' command\r\n"
    );
    assert_eq!(
        run(&c, &mut store, &config, &["SET", "k"], 0),
        "-ERR wrong number of arguments for 'set' command\r\n"
    );
}

#[test]
fn keys_literal_and_patterns() {
    let (c, mut store, config) = setup();
    run(&c, &mut store, &config, &["SET", "a", "1"], 0);
    run(&c, &mut store, &config, &["SET", "b", "2"], 0);
    assert_eq!(run(&c, &mut store, &config, &["KEYS", "a"], 0), "*1\r\n$1\r\na\r\n");
    assert_eq!(run(&c, &mut store, &config, &["KEYS", "c"], 0), "*0\r\n");
    assert_eq!(
        run(&c, &mut store, &config, &["KEYS", "a*"], 0),
        "-ERR general pattern matching unsupported\r\n"
    );
}

#[test]
fn keys_star_returns_every_key() {
    let (c, mut store, config) = setup();
    for (k, v) in [("a", "1"), ("b", "2"), ("c", "3")] {
        run(&c, &mut store, &config, &["SET", k, v], 0);
    }
    let text = run(&c, &mut store, &config, &["KEYS", "*"], 0);
    assert!(text.starts_with("*3\r\n"));
    let mut keys: Vec<&str> = text.split("\r\n").filter(|l| l.len() == 1).collect();
    keys.sort();
    assert_eq!(keys, vec!["a", "b", "c"]);
}

#[test]
fn unknown_config_subcommand() {
    let (c, mut store, config) = setup();
    assert_eq!(
        run(&c, &mut store, &config, &["CONFIG", "FOO"], 0),
        "-ERR unknown subcommand 'FOO'. Try CONFIG HELP\r\n"
    );
}

#[test]
fn config_get_and_help() {
    let (c, mut store, config) = setup();
    assert_eq!(
        run(&c, &mut store, &config, &["CONFIG", "GET", "DIR", "nothing"], 0),
        "*2\r\n$3\r\ndir\r\n$1\r\n.\r\n"
    );
    let help = run(&c, &mut store, &config, &["config", "help"], 0);
    assert!(help.starts_with("*5\r\n+CONFIG <subcommand>"));
    assert!(help.ends_with("+    Prints this help.\r\n"));
    assert_eq!(
        run(&c, &mut store, &config, &["CONFIG", "GET"], 0),
        "-ERR wrong number of arguments for 'config|get' command\r\n"
    );
}

#[test]
fn info_replies() {
    let (c, mut store, config) = setup();
    let all = run(&c, &mut store, &config, &["INFO"], 0);
    assert!(all.starts_with("$"));
    assert!(all.contains("role:master\r\nconnected_slaves:0\r\n"));
    assert!(all.ends_with("master_repl_offset:0\r\n\r\n"));
    assert_eq!(run(&c, &mut store, &config, &["INFO", "server"], 0), "$0\r\n\r\n");
    let twice = run(&c, &mut store, &config, &["INFO", "REPLICATION", "replication"], 0);
    assert_eq!(twice, all);
    match c.dispatch(&cmd(&["INFO", "A", "b", "a"]), 0) {
        Action::Config(ConfigCommand::InfoOn { sections }, Then::InfoSections) => {
            assert_eq!(sections, vec![b("a"), b("b")])
        }
        _ => panic!("not an INFO request"),
    }
}

#[test]
fn echo_hello_and_unknown() {
    let c = Client { id: 3 };
    assert_eq!(reply(c.dispatch(&cmd(&["ECHO", "hey"]), 0)), "$3\r\nhey\r\n");
    let hello = reply(c.dispatch(&cmd(&["HELLO"]), 0));
    assert_eq!(hello.as_bytes(), init_static_data().to_vec().as_slice());
    assert!(hello.starts_with("*12\r\n$6\r\nserver\r\n$18\r\ncodecrafters-redis\r\n"));
    assert!(hello.contains("$7\r\nversion\r\n$3\r\n0.2\r\n$5\r\nproto\r\n:2\r\n"));
    assert!(hello.ends_with("$7\r\nmodules\r\n*0\r\n"));
    assert_eq!(
        reply(c.dispatch(&cmd(&["FLY", "a", "b"]), 0)),
        "-ERR unknown command 'FLY', with args beginning with: 'a' 'b'\r\n"
    );
    assert_eq!(reply(c.dispatch(&Vec::new(), 0)), "");
}

#[test]
fn get_of_other_value_kinds() {
    let then = Then::Value;
    let int = CommandResponse::Get(Some(RedisType::Int(-5)));
    assert_eq!(Client::complete_store(&then, &int), b(":-5\r\n"));
    let arr = CommandResponse::Get(Some(RedisType::Array(vec![])));
    assert_eq!(
        Client::complete_store(&then, &arr),
        b("-WRONGTYPE Operation against a key holding the wrong kind of value\r\n")
    );
    let wrong = CommandResponse::ReplicaCount(0);
    assert_eq!(Client::complete_store(&then, &wrong), b("-ERR internal error\r\n"));
    assert_eq!(
        Client::complete_config(&Then::InfoAll, &ConfigReply::Digest(b("x"))),
        b("-ERR internal error\r\n")
    );
}
