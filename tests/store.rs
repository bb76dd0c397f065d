use redis_starter_rust::store::{CommandResponse, Store, StoreCommand, StoreEffect};
use redis_starter_rust::types::RedisType;

fn b(s: &str) -> Vec<u8> {
    s.as_bytes().to_vec()
}

fn get_value(store: &mut Store, id: usize, key: &str, now: u64) -> Option<Vec<u8>> {
    match store.handle(StoreCommand::Get { id, key: b(key) }, now).reply {
        Some((to, CommandResponse::Get(v))) => {
            assert_eq!(to, id);
            v.map(|v| match v {
                RedisType::String(s) => s,
                _ => panic!("not a string"),
            })
        }
        _ => panic!("no answer"),
    }
}

fn register(store: &mut Store) -> usize {
    match store.handle(StoreCommand::InitClient, 0).reply {
        Some((id, CommandResponse::ClientId(same))) => {
            assert_eq!(id, same);
            id
        }
        _ => panic!("no id"),
    }
}

fn sorted_keys(effect: StoreEffect) -> Vec<Vec<u8>> {
    match effect.reply {
        Some((_, CommandResponse::Keys(RedisType::Array(items)))) => {
            let mut keys: Vec<Vec<u8>> = items
                .into_iter()
                .map(|k| match k {
                    RedisType::String(s) => s,
                    _ => panic!("not a key"),
                })
                .collect();
            keys.sort();
            keys
        }
        _ => panic!("no keys"),
    }
}

#[test]
fn client_ids_are_dense() {
    let mut store = Store::new();
    assert_eq!(register(&mut store), 0);
    assert_eq!(register(&mut store), 1);
    assert_eq!(register(&mut store), 2);
}

#[test]
fn set_then_get_and_overwrite() {
    let mut store = Store::default();
    let id = register(&mut store);
    let e = store.handle(StoreCommand::SetKey { key: b("k"), value: b("v") }, 10);
    assert!(e.reply.is_none() && e.broadcast.is_none());
    assert_eq!(get_value(&mut store, id, "k", 11), Some(b("v")));
    store.handle(StoreCommand::SetKey { key: b("k"), value: b("v2") }, 12);
    assert_eq!(get_value(&mut store, id, "k", 13), Some(b("v2")));
    assert_eq!(get_value(&mut store, id, "missing", 13), None);
}

#[test]
fn expired_key_reads_absent_and_leaves_listing() {
    let mut store = Store::new();
    let id = register(&mut store);
    store.handle(StoreCommand::SetEx { key: b("k"), value: b("v"), until: 1050 }, 1000);
    store.handle(StoreCommand::SetKey { key: b("other"), value: b("x") }, 1000);
    assert_eq!(get_value(&mut store, id, "k", 1049), Some(b("v")));
    assert_eq!(get_value(&mut store, id, "k", 1100), None);
    assert_eq!(sorted_keys(store.handle(StoreCommand::AllKeys(id), 1100)), vec![b("other")]);
}

#[test]
fn listing_drops_expired_keys_without_a_read() {
    let mut store = Store::new();
    let id = register(&mut store);
    store.handle(StoreCommand::SetEx { key: b("k"), value: b("v"), until: 50 }, 0);
    assert_eq!(sorted_keys(store.handle(StoreCommand::AllKeys(id), 49)), vec![b("k")]);
    assert_eq!(sorted_keys(store.handle(StoreCommand::AllKeys(id), 50)), Vec::<Vec<u8>>::new());
}

#[test]
fn keys_star_lists_each_key_once() {
    let mut store = Store::new();
    let id = register(&mut store);
    for (k, v) in [("a", "1"), ("b", "2"), ("c", "3"), ("a", "4")] {
        store.handle(StoreCommand::SetKey { key: b(k), value: b(v) }, 0);
    }
    assert_eq!(sorted_keys(store.handle(StoreCommand::AllKeys(id), 0)), vec![b("a"), b("b"), b("c")]);
}

#[test]
fn two_writes_reach_the_replica_in_order() {
    let mut store = Store::new();
    let id = register(&mut store);
    let e = store.handle(StoreCommand::SetKey { key: b("x"), value: b("0") }, 0);
    assert!(e.broadcast.is_none());
    store.handle(StoreCommand::InitReplica, 0);
    let first = store.handle(StoreCommand::SetKey { key: b("a"), value: b("1") }, 0);
    let second = store.handle(StoreCommand::SetKey { key: b("b"), value: b("2") }, 0);
    assert_eq!(first.broadcast, Some(b("*3\r\n$3\r\nSET\r\n$1\r\na\r\n$1\r\n1\r\n")));
    assert_eq!(second.broadcast, Some(b("*3\r\n$3\r\nSET\r\n$1\r\nb\r\n$1\r\n2\r\n")));
    match store.handle(StoreCommand::ReplicaCount(id), 0).reply {
        Some((_, CommandResponse::ReplicaCount(n))) => assert_eq!(n, 1),
        _ => panic!("no count"),
    }
}

#[test]
fn expiring_write_reaches_the_replica_with_pxat() {
    let mut store = Store::new();
    store.handle(StoreCommand::InitReplica, 0);
    let e = store.handle(StoreCommand::SetEx { key: b("k"), value: b("v"), until: 1700000001000 }, 1700000000000);
    assert_eq!(
        e.broadcast,
        Some(b("*5\r\n$3\r\nSET\r\n$1\r\nk\r\n$1\r\nv\r\n$4\r\nPXAT\r\n:1700000001000\r\n"))
    );
}

#[test]
fn write_and_read_at() {
    let mut store = Store::new();
    store.write(b"hello", RedisType::String(b("world")), None);
    store.write(b"temp", RedisType::String(b("x")), Some(5));
    assert_eq!(store.read_at(b"hello", 100).map(|v| v.to_vec()), Some(b("$5\r\nworld\r\n")));
    assert!(store.read_at(b"temp", 100).is_none());
    assert!(store.read(b"temp").is_none());
    assert!(store.read(b"hello").is_some());
}
