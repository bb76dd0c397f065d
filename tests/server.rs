use redis_starter_rust::config::Configuration;
use redis_starter_rust::server::RedisServer;
use redis_starter_rust::types::RedisType;

fn cmd(words: &[&str]) -> Vec<Vec<u8>> {
    words.iter().map(|w| w.as_bytes().to_vec()).collect()
}

fn serve(server: &mut RedisServer, words: &[&str], now: u64) -> String {
    String::from_utf8_lossy(&server.dispatch(&cmd(words), now)).to_string()
}

#[test]
fn server_serves_a_session() {
    let mut server = RedisServer::new(Configuration::default());
    assert_eq!(serve(&mut server, &["PING"], 0), "+PONG\r\n");
    assert_eq!(serve(&mut server, &["SET", "a", "1"], 0), "+OK\r\n");
    assert_eq!(serve(&mut server, &["GET", "a"], 0), "$1\r\n1\r\n");
    assert_eq!(serve(&mut server, &["KEYS", "a"], 0), "*1\r\n$1\r\na\r\n");
    assert_eq!(serve(&mut server, &["CONFIG", "GET", "port"], 0), "*2\r\n$4\r\nport\r\n$4\r\n6379\r\n");
    assert!(serve(&mut server, &["PSYNC", "?", "-1"], 0).starts_with("+FULLRESYNC da39a3ee5e6b4b0d3255bfef95601890afd80709 0\r\n$18\r\n"));
}

#[test]
fn server_write_then_expire() {
    let mut server = RedisServer::new(Configuration::default());
    server.write(b"hello", RedisType::String(b"world".to_vec()), None);
    server.write(b"temp", RedisType::String(b"x".to_vec()), Some(100));
    assert_eq!(serve(&mut server, &["GET", "hello"], 200), "$5\r\nworld\r\n");
    assert_eq!(serve(&mut server, &["GET", "temp"], 200), "$-1\r\n");
    assert_eq!(serve(&mut server, &["KEYS", "*"], 200), "*1\r\n$5\r\nhello\r\n");
}
