use bifrost::codec::prepend_u64;
use bifrost::rpc::{hash_str, ClientPool, RPCClient, Server};
use bifrost::store::{encode_get, encode_set, fn_id_get, fn_id_set, is_query_fn, ValueStore};

#[test]
fn string() {
    let address = String::from("127.0.0.1:2010");
    let mut server: Server<ValueStore> = Server::new(&address);
    let svc = hash_str(&String::from("test"));
    server.register_service(svc, ValueStore::new());

    let reply = server.route(prepend_u64(svc, encode_set(b"The stored text".to_vec())));
    assert_eq!(reply, vec![0]);

    let reply = server.route(prepend_u64(svc, encode_get()));
    assert_eq!(reply, [&[0u8][..], b"The stored text"].concat());

    server.route(prepend_u64(svc, encode_set(b"The altered text".to_vec())));
    let reply = server.route(prepend_u64(svc, encode_get()));
    assert_eq!(reply, [&[0u8][..], b"The altered text"].concat());
}

#[test]
fn queries_and_commands_are_told_apart() {
    assert!(is_query_fn(fn_id_get()));
    assert!(!is_query_fn(fn_id_set()));
    assert_ne!(fn_id_get(), fn_id_set());
}

#[test]
fn store_serves_get_and_set_directly() {
    let mut store = ValueStore::new();
    assert_eq!(store.serve(encode_get()), Ok(vec![]));
    assert_eq!(store.serve(encode_set(b"v1".to_vec())), Ok(vec![]));
    assert_eq!(store.serve(encode_get()), Ok(b"v1".to_vec()));
}

#[test]
fn short_payload_is_refused_not_crashed() {
    let mut store = ValueStore::new();
    assert!(store.serve(vec![1, 2, 3]).is_err());
    assert_eq!(store.value, Vec::<u8>::new());
}

#[test]
fn pool_caches_connections_and_never_caches_failures() {
    let mut pool = ClientPool::new();
    let addr = String::from("127.0.0.1:2010");
    assert!(pool.get_cached(&addr).is_none());

    let io = std::io::Error::new(std::io::ErrorKind::ConnectionRefused, "refused");
    assert!(pool.cache_connection(&addr, Err(io)).is_err());
    assert!(pool.get_cached(&addr).is_none());

    let client = RPCClient { server_id: hash_str(&addr), address: addr.clone() };
    let id = pool.cache_connection(&addr, Ok(client)).unwrap();
    assert_eq!(id, hash_str(&addr));
    let cached = pool.get_cached(&addr).unwrap();
    assert_eq!(cached.server_id, hash_str(&addr));
    assert_eq!(cached.address, addr);
}
