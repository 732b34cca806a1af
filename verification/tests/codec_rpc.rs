use bifrost::codec::{decode_u64_le, encode_u64_le, extract_u64_head, prepend_u64};
use bifrost::proto::{frame, read_frame_len};
use bifrost::rpc::{
    decide_retry, decode_res, encode_res, hash_bytes, hash_str, ClientAction, RPCError,
    RPCRequestError, Server,
};
use bifrost::store::ValueStore;

#[test]
fn u64_little_endian_exact_bytes() {
    let b = encode_u64_le(0x0123_4567_89ab_cdef);
    assert_eq!(b, vec![0xef, 0xcd, 0xab, 0x89, 0x67, 0x45, 0x23, 0x01]);
    assert_eq!(decode_u64_le(&b, 0), 0x0123_4567_89ab_cdef);
    let zero = encode_u64_le(0);
    assert_eq!(zero, vec![0; 8]);
    let max = encode_u64_le(u64::MAX);
    assert_eq!(decode_u64_le(&max, 0), u64::MAX);
}

#[test]
fn request_envelope_round_trip() {
    let req = prepend_u64(42, vec![9, 8, 7]);
    assert_eq!(req.len(), 11);
    let (id, rest) = extract_u64_head(req.clone());
    assert_eq!(id, 42);
    assert_eq!(rest, vec![9, 8, 7]);
    let rebuilt = prepend_u64(id, rest);
    assert_eq!(rebuilt, req);
}

#[test]
fn response_envelope_status_bytes() {
    assert_eq!(encode_res(Ok(vec![7, 8])), vec![0, 7, 8]);
    assert_eq!(encode_res(Err(RPCRequestError::FunctionIdNotFound)), vec![1]);
    assert_eq!(encode_res(Err(RPCRequestError::ServiceIdNotFound)), vec![2]);
    assert_eq!(encode_res(Err(RPCRequestError::Other)), vec![255]);
}

#[test]
fn response_envelope_decodes_each_error() {
    match decode_res(Ok(vec![0, 9])) {
        Ok(p) => assert_eq!(p, vec![9]),
        Err(_) => panic!("success envelope must decode"),
    }
    assert!(matches!(
        decode_res(Ok(vec![1])),
        Err(RPCError::RequestError(RPCRequestError::FunctionIdNotFound))
    ));
    assert!(matches!(
        decode_res(Ok(vec![2])),
        Err(RPCError::RequestError(RPCRequestError::ServiceIdNotFound))
    ));
    assert!(matches!(
        decode_res(Ok(vec![255])),
        Err(RPCError::RequestError(RPCRequestError::Other))
    ));
    let io = std::io::Error::new(std::io::ErrorKind::Other, "down");
    assert!(matches!(decode_res(Err(io)), Err(RPCError::IOError(_))));
}

#[test]
fn response_envelope_round_trips_bytes() {
    for env in [vec![0u8, 5, 6], vec![1u8], vec![2u8], vec![255u8]] {
        let decoded = decode_res(Ok(env.clone()));
        let reencoded = match decoded {
            Ok(p) => encode_res(Ok(p)),
            Err(RPCError::RequestError(e)) => encode_res(Err(e)),
            Err(RPCError::IOError(_)) => panic!("no transport error here"),
        };
        assert_eq!(reencoded, env);
    }
}

#[test]
fn fnv1a_known_digests() {
    assert_eq!(hash_bytes(&[]), 0xcbf2_9ce4_8422_2325);
    assert_eq!(hash_bytes(b"test"), 0xf9e6_e6ef_197c_2b25);
    let a = hash_str(&String::from("127.0.0.1:2010"));
    let b = hash_str(&String::from("127.0.0.1:2010"));
    assert_eq!(a, b);
    assert_ne!(a, hash_str(&String::from("127.0.0.1:2011")));
}

#[test]
fn route_unknown_service_yields_status_two() {
    let address = String::from("127.0.0.1:2010");
    let mut server: Server<ValueStore> = Server::new(&address);
    let reply = server.route(prepend_u64(777, vec![1, 2, 3]));
    assert_eq!(reply, vec![2]);
}

#[test]
fn route_unknown_function_yields_status_one() {
    let address = String::from("127.0.0.1:2010");
    let mut server: Server<ValueStore> = Server::new(&address);
    let svc = hash_str(&String::from("test"));
    server.register_service(svc, ValueStore::new());
    let bogus_fn = prepend_u64(123_456, vec![]);
    let reply = server.route(prepend_u64(svc, bogus_fn));
    assert_eq!(reply, vec![1]);
}

#[test]
fn removed_service_misses_at_once() {
    let address = String::from("127.0.0.1:2010");
    let mut server: Server<ValueStore> = Server::new(&address);
    let svc = hash_str(&String::from("test"));
    server.register_service(svc, ValueStore::new());
    server.remove_service(svc);
    let reply = server.route(prepend_u64(svc, prepend_u64(0, vec![])));
    assert_eq!(reply, vec![2]);
}

#[test]
fn frame_header_carries_length() {
    let framed = frame(vec![1, 2, 3, 4, 5]);
    assert_eq!(framed.len(), 9);
    assert_eq!(read_frame_len(&framed), 5);
    assert_eq!(&framed[4..], &[1, 2, 3, 4, 5]);
}

#[test]
fn retry_policy_follows_error_taxonomy() {
    let ok: Result<Vec<u8>, RPCError> = Ok(vec![1]);
    assert_eq!(decide_retry(&ok, 0), ClientAction::Done);

    let io: Result<Vec<u8>, RPCError> =
        Err(RPCError::IOError(std::io::Error::new(std::io::ErrorKind::Other, "down")));
    assert_eq!(decide_retry(&io, 2), ClientAction::RetrySameAddress);
    assert_eq!(decide_retry(&io, 0), ClientAction::Fail);

    let wrong_node: Result<Vec<u8>, RPCError> =
        Err(RPCError::RequestError(RPCRequestError::ServiceIdNotFound));
    assert_eq!(decide_retry(&wrong_node, 1), ClientAction::ResolveLeaderAndRetry);
    assert_eq!(decide_retry(&wrong_node, 0), ClientAction::Fail);

    let mismatch: Result<Vec<u8>, RPCError> =
        Err(RPCError::RequestError(RPCRequestError::FunctionIdNotFound));
    assert_eq!(decide_retry(&mismatch, 9), ClientAction::Fail);
    let other: Result<Vec<u8>, RPCError> = Err(RPCError::RequestError(RPCRequestError::Other));
    assert_eq!(decide_retry(&other, 9), ClientAction::Fail);
}
