//! The RPC call-routing layer: error taxonomy, the response envelope, node
//! identity, the service registry with its router, and the connection pool.
//!
//! A server owns a registry from service id to service. An incoming request
//! envelope names a service by the id in its first eight bytes; the router
//! forwards the rest to that service's `dispatch` and wraps the outcome in
//! the one-byte-status response envelope. Routing a call in process through
//! [`Server::route`] is the shortcut path; bytes received from a transport
//! go through the very same function, so disabling the shortcut cannot
//! change what a call returns.

use vstd::prelude::*;

use crate::assoc::AssocList;
use crate::codec::extract_u64_head;
use crate::codec::u64_from_le_bytes;
use crate::codec::valid_request_envelope;

verus! {

/// The status byte of a successful response envelope.
pub const STATUS_OK: u8 = 0;

/// The status byte reporting an unknown function id within a known service.
pub const STATUS_FUNCTION_NOT_FOUND: u8 = 1;

/// The status byte reporting an unknown service id.
pub const STATUS_SERVICE_NOT_FOUND: u8 = 2;

/// The status byte reporting any other request failure.
pub const STATUS_OTHER: u8 = 255;

/// A failure detected while a correctly delivered request was served.
#[derive(Clone, Copy, Debug, PartialEq, Eq, Structural)]
pub enum RPCRequestError {
    FunctionIdNotFound,
    ServiceIdNotFound,
    Other,
}

/// Relies on `std::io::Error` from std, carried through unread as the
/// network-level failure of a call.
#[verifier::external_type_specification]
#[verifier::external_body]
pub struct ExIoError(std::io::Error);

/// What a remote call can fail with: a transport failure, or a request
/// failure reported by the remote router.
#[derive(Debug)]
pub enum RPCError {
    IOError(std::io::Error),
    RequestError(RPCRequestError),
}

/// The status byte that reports `e`.
pub open spec fn status_byte(e: RPCRequestError) -> u8 {
    match e {
        RPCRequestError::FunctionIdNotFound => STATUS_FUNCTION_NOT_FOUND,
        RPCRequestError::ServiceIdNotFound => STATUS_SERVICE_NOT_FOUND,
        RPCRequestError::Other => STATUS_OTHER,
    }
}

/// The response envelope for a dispatch outcome: one status byte, then the
/// payload on success and nothing on an error.
pub open spec fn encode_res_spec(res: Result<Seq<u8>, RPCRequestError>) -> Seq<u8> {
    match res {
        Result::Ok(payload) => seq![STATUS_OK] + payload,
        Result::Err(e) => seq![status_byte(e)],
    }
}

/// The dispatch outcome a response envelope reports.
pub open spec fn decode_res_spec(b: Seq<u8>) -> Result<Seq<u8>, RPCRequestError>
    recommends
        b.len() >= 1,
{
    if b[0] == STATUS_OK {
        Result::Ok(b.skip(1))
    } else if b[0] == STATUS_FUNCTION_NOT_FOUND {
        Result::Err(RPCRequestError::FunctionIdNotFound)
    } else if b[0] == STATUS_SERVICE_NOT_FOUND {
        Result::Err(RPCRequestError::ServiceIdNotFound)
    } else {
        Result::Err(RPCRequestError::Other)
    }
}

/// The envelopes the router emits: a success envelope with any payload, or a
/// bare error status byte.
pub open spec fn valid_response_envelope(b: Seq<u8>) -> bool {
    b.len() >= 1 && (b[0] == STATUS_OK || ((b[0] == STATUS_FUNCTION_NOT_FOUND || b[0]
        == STATUS_SERVICE_NOT_FOUND || b[0] == STATUS_OTHER) && b.len() == 1))
}

/// The view of an owned dispatch outcome.
pub open spec fn res_view(res: Result<Vec<u8>, RPCRequestError>) -> Result<Seq<u8>, RPCRequestError> {
    match res {
        Result::Ok(v) => Result::Ok(v@),
        Result::Err(e) => Result::Err(e),
    }
}

/// Wraps a dispatch outcome in the response envelope.
pub fn encode_res(res: Result<Vec<u8>, RPCRequestError>) -> (r: Vec<u8>)
    ensures
        r@ == encode_res_spec(res_view(res)),
        valid_response_envelope(r@),
{
    match res {
        Result::Ok(payload) => {
            let mut r: Vec<u8> = Vec::new();
            r.push(STATUS_OK);
            let n = payload.len();
            let mut i: usize = 0;
            while i < n
                invariant
                    n == payload@.len(),
                    i <= n,
                    r@ == seq![STATUS_OK] + payload@.take(i as int),
                decreases n - i,
            {
                r.push(payload[i]);
                i = i + 1;
                proof {
                    assert(seq![STATUS_OK] + payload@.take(i - 1) + seq![payload@[i - 1]]
                        =~= seq![STATUS_OK] + payload@.take(i as int));
                }
            }
            proof {
                assert(payload@.take(n as int) =~= payload@);
            }
            r
        },
        Result::Err(e) => {
            let code: u8 = match e {
                RPCRequestError::FunctionIdNotFound => STATUS_FUNCTION_NOT_FOUND,
                RPCRequestError::ServiceIdNotFound => STATUS_SERVICE_NOT_FOUND,
                RPCRequestError::Other => STATUS_OTHER,
            };
            let mut r: Vec<u8> = Vec::new();
            r.push(code);
            proof {
                assert(r@ =~= seq![status_byte(e)]);
            }
            r
        },
    }
}

/// Reads a response envelope back into the call's outcome; a transport
/// failure is passed through as `IOError`.
pub fn decode_res(res: Result<Vec<u8>, std::io::Error>) -> (r: Result<Vec<u8>, RPCError>)
    requires
        res matches Result::Ok(v) ==> v@.len() >= 1,
    ensures
        match res {
            Result::Ok(v) => match r {
                Result::Ok(p) => decode_res_spec(v@) == Result::<Seq<u8>, RPCRequestError>::Ok(p@),
                Result::Err(RPCError::RequestError(e)) => decode_res_spec(v@) == Result::<
                    Seq<u8>,
                    RPCRequestError,
                >::Err(e),
                Result::Err(RPCError::IOError(_)) => false,
            },
            Result::Err(e) => r matches Result::Err(f) && f matches RPCError::IOError(_),
        },
{
    match res {
        Result::Ok(v) => {
            let status = v[0];
            if status == STATUS_OK {
                let n = v.len();
                let mut payload: Vec<u8> = Vec::new();
                let mut i: usize = 1;
                while i < n
                    invariant
                        n == v@.len(),
                        1 <= i <= n,
                        payload@ == v@.subrange(1, i as int),
                    decreases n - i,
                {
                    payload.push(v[i]);
                    i = i + 1;
                    proof {
                        assert(v@.subrange(1, i - 1) + seq![v@[i - 1]] =~= v@.subrange(
                            1,
                            i as int,
                        ));
                    }
                }
                proof {
                    assert(v@.subrange(1, n as int) =~= v@.skip(1));
                }
                Result::Ok(payload)
            } else if status == STATUS_FUNCTION_NOT_FOUND {
                Result::Err(RPCError::RequestError(RPCRequestError::FunctionIdNotFound))
            } else if status == STATUS_SERVICE_NOT_FOUND {
                Result::Err(RPCError::RequestError(RPCRequestError::ServiceIdNotFound))
            } else {
                Result::Err(RPCError::RequestError(RPCRequestError::Other))
            }
        },
        Result::Err(e) => Result::Err(RPCError::IOError(e)),
    }
}

/// Reading a valid response envelope back and re-encoding the outcome yields
/// the same bytes.
pub proof fn lemma_response_envelope_round_trip(b: Seq<u8>)
    requires
        valid_response_envelope(b),
    ensures
        encode_res_spec(decode_res_spec(b)) == b,
{
    if b[0] == STATUS_OK {
        assert(seq![STATUS_OK] + b.skip(1) =~= b);
    } else {
        assert(encode_res_spec(decode_res_spec(b)) =~= b);
    }
}

/// Encoding a dispatch outcome and reading it back yields the outcome.
pub proof fn lemma_response_outcome_round_trip(res: Result<Seq<u8>, RPCRequestError>)
    ensures
        decode_res_spec(encode_res_spec(res)) == res,
{
    match res {
        Result::Ok(payload) => {
            assert((seq![STATUS_OK] + payload).skip(1) =~= payload);
        },
        Result::Err(e) => {},
    }
}

/// The 64-bit FNV-1a digest of a byte sequence.
pub open spec fn fnv1a(b: Seq<u8>) -> u64
    decreases b.len(),
{
    if b.len() == 0 {
        0xcbf29ce484222325u64
    } else {
        (fnv1a(b.drop_last()) ^ (b.last() as u64)).wrapping_mul(0x100000001b3u64)
    }
}

/// The node id an address stands for: the digest of its UTF-8 bytes, so that
/// identical addresses always yield identical ids.
pub open spec fn str_id(s: Seq<char>) -> u64 {
    fnv1a(vstd::utf8::encode_utf8(s))
}

/// The FNV-1a digest of a byte slice.
pub fn hash_bytes(b: &[u8]) -> (r: u64)
    ensures
        r == fnv1a(b@),
{
    let n = b.len();
    let mut acc: u64 = 0xcbf29ce484222325u64;
    let mut i: usize = 0;
    while i < n
        invariant
            n == b@.len(),
            i <= n,
            acc == fnv1a(b@.take(i as int)),
        decreases n - i,
    {
        acc = (acc ^ (b[i] as u64)).wrapping_mul(0x100000001b3u64);
        i = i + 1;
        proof {
            assert(b@.take(i as int).drop_last() =~= b@.take(i - 1));
            assert(b@.take(i as int).last() == b@[i - 1]);
        }
    }
    proof {
        assert(b@.take(n as int) =~= b@);
    }
    acc
}

/// The stable numeric id of a node's network address.
pub fn hash_str(s: &String) -> (r: u64)
    ensures
        r == str_id(s@),
{
    hash_bytes(s.as_str().as_bytes())
}

/// What every registered service offers the router: serving one decoded
/// request payload, returning the reply payload or a request error. The two
/// spec methods are the service's model: what outcome a payload gets, and
/// how the service's state may change; `dispatch` is held to both, so the
/// router's reply is tied to the service's own semantics.
pub trait RPCService: Sized {
    /// The outcome the service gives this payload in this state.
    spec fn dispatch_out(pre: Self, data: Seq<u8>) -> Result<Seq<u8>, RPCRequestError>;

    /// How serving this payload relates the state before to the state after.
    spec fn dispatch_post(pre: Self, data: Seq<u8>, post: Self) -> bool;

    fn dispatch(&mut self, data: Vec<u8>) -> (r: Result<Vec<u8>, RPCRequestError>)
        ensures
            res_view(r) == Self::dispatch_out(*old(self), data@),
            Self::dispatch_post(*old(self), data@, *final(self)),
    ;
}

/// One node's RPC server: its registry of services, keyed by service id.
pub struct Server<S> {
    pub services: AssocList<u64, S>,
    pub address: String,
    pub server_id: u64,
}

impl<S: RPCService> Server<S> {
    /// The registry as a map from service id to the registered service.
    pub open spec fn services_map(&self) -> Map<u64, S> {
        self.services.view()
    }

    pub open spec fn wf(&self) -> bool {
        self.services.wf()
    }

    /// A fresh server for `address`, with the node id derived from it and an
    /// empty registry.
    pub fn new(address: &String) -> (r: Server<S>)
        ensures
            r.wf(),
            r.address@ == address@,
            r.server_id == str_id(address@),
            r.services_map() == Map::<u64, S>::empty(),
    {
        Server { services: AssocList::new(), address: address.clone(), server_id: hash_str(address) }
    }

    /// Registers `service` under `service_id`; registration is idempotent per
    /// id and the last writer wins.
    pub fn register_service(&mut self, service_id: u64, service: S)
        requires
            old(self).wf(),
        ensures
            final(self).wf(),
            final(self).services_map() == old(self).services_map().insert(service_id, service),
            final(self).address == old(self).address,
            final(self).server_id == old(self).server_id,
    {
        self.services.insert(service_id, service);
    }

    /// Revokes `service_id`; later lookups miss it at once.
    pub fn remove_service(&mut self, service_id: u64)
        requires
            old(self).wf(),
        ensures
            final(self).wf(),
            final(self).services_map() == old(self).services_map().remove(service_id),
            final(self).address == old(self).address,
            final(self).server_id == old(self).server_id,
    {
        self.services.remove(&service_id);
    }

    pub fn address(&self) -> (r: &String)
        ensures
            r == self.address,
    {
        &self.address
    }

    /// Serves one request envelope: looks the service id up, forwards the
    /// payload to the service's dispatch, and wraps the outcome — the reply
    /// is exactly the envelope of the outcome the service's own model gives
    /// the payload, and the service's state moves as that model says. An
    /// unknown service id yields the bare `STATUS_SERVICE_NOT_FOUND`
    /// envelope and changes nothing.
    pub fn route(&mut self, data: Vec<u8>) -> (r: Vec<u8>)
        requires
            old(self).wf(),
            valid_request_envelope(data@),
        ensures
            final(self).wf(),
            final(self).address == old(self).address,
            final(self).server_id == old(self).server_id,
            valid_response_envelope(r@),
            ({
                let id = u64_from_le_bytes(data@);
                if old(self).services_map().dom().contains(id) {
                    let svc = old(self).services_map()[id];
                    let payload = data@.skip(8);
                    &&& r@ == encode_res_spec(S::dispatch_out(svc, payload))
                    &&& final(self).services_map().dom() == old(self).services_map().dom()
                    &&& S::dispatch_post(svc, payload, final(self).services_map()[id])
                    &&& forall|k: u64|
                        k != id && old(self).services_map().dom().contains(k)
                            ==> final(self).services_map()[k] == old(self).services_map()[k]
                } else {
                    final(self).services_map() == old(self).services_map() && r@ == seq![
                        STATUS_SERVICE_NOT_FOUND,
                    ]
                }
            }),
    {
        let (id, payload) = extract_u64_head(data);
        match self.services.take_out(&id) {
            Option::None => {
                let r = encode_res(Result::Err(RPCRequestError::ServiceIdNotFound));
                proof {
                    assert(r@ =~= seq![STATUS_SERVICE_NOT_FOUND]);
                }
                r
            },
            Option::Some((key, mut service)) => {
                let ghost svc_pre = service;
                let d = service.dispatch(payload);
                let ghost svc_post = service;
                self.services.put_back(key, service);
                proof {
                    assert(self.services_map().dom() =~= old(self).services_map().dom());
                    assert(self.services_map()[u64_from_le_bytes(data@)] == svc_post);
                    assert(svc_pre == old(self).services_map()[u64_from_le_bytes(data@)]);
                }
                let r = encode_res(d);
                proof {
                    assert(r@ == encode_res_spec(res_view(d)));
                }
                r
            },
        }
    }
}

/// What a client does next with a call's outcome, per the error taxonomy:
/// a reply payload ends the call; a network failure is retried against the
/// same address; an unknown service id means the wrong node was asked, so
/// the client re-resolves the leader before retrying; an unknown function id
/// or the catch-all failure is a protocol mismatch and is never retried
/// automatically.
#[derive(Clone, Copy, Debug, PartialEq, Eq, Structural)]
pub enum ClientAction {
    Done,
    RetrySameAddress,
    ResolveLeaderAndRetry,
    Fail,
}

/// Decides the client's next step from one call outcome, with retries only
/// while attempts remain.
pub fn decide_retry(reply: &Result<Vec<u8>, RPCError>, attempts_left: u64) -> (r: ClientAction)
    ensures
        r == (match reply {
            Result::Ok(_) => ClientAction::Done,
            Result::Err(RPCError::IOError(_)) => if attempts_left > 0 {
                ClientAction::RetrySameAddress
            } else {
                ClientAction::Fail
            },
            Result::Err(RPCError::RequestError(RPCRequestError::ServiceIdNotFound)) => if attempts_left > 0 {
                ClientAction::ResolveLeaderAndRetry
            } else {
                ClientAction::Fail
            },
            Result::Err(RPCError::RequestError(RPCRequestError::FunctionIdNotFound)) => ClientAction::Fail,
            Result::Err(RPCError::RequestError(RPCRequestError::Other)) => ClientAction::Fail,
        }),
{
    match reply {
        Result::Ok(_) => ClientAction::Done,
        Result::Err(RPCError::IOError(_)) => {
            if attempts_left > 0 {
                ClientAction::RetrySameAddress
            } else {
                ClientAction::Fail
            }
        },
        Result::Err(RPCError::RequestError(RPCRequestError::ServiceIdNotFound)) => {
            if attempts_left > 0 {
                ClientAction::ResolveLeaderAndRetry
            } else {
                ClientAction::Fail
            }
        },
        Result::Err(RPCError::RequestError(RPCRequestError::FunctionIdNotFound)) => ClientAction::Fail,
        Result::Err(RPCError::RequestError(RPCRequestError::Other)) => ClientAction::Fail,
    }
}

/// A cached connection: the remote node's id and address. The live transport
/// handle this stands for is owned outside the library.
#[derive(Debug)]
pub struct RPCClient {
    pub server_id: u64,
    pub address: String,
}

/// One cached client per remote address, created on first successful
/// connection and reused afterwards; a failed connection is surfaced and
/// never cached, so a retry can attempt a fresh one.
pub struct ClientPool {
    pub clients: AssocList<String, RPCClient>,
}

impl ClientPool {
    pub open spec fn pool_map(&self) -> Map<Seq<char>, RPCClient> {
        self.clients.view()
    }

    pub open spec fn wf(&self) -> bool {
        self.clients.wf()
    }

    pub fn new() -> (r: ClientPool)
        ensures
            r.wf(),
            r.pool_map() == Map::<Seq<char>, RPCClient>::empty(),
    {
        ClientPool { clients: AssocList::new() }
    }

    /// The cached client for `addr`, if one was cached before.
    pub fn get_cached(&self, addr: &String) -> (r: Option<&RPCClient>)
        requires
            self.wf(),
        ensures
            match r {
                Option::Some(c) => self.pool_map().dom().contains(addr@) && *c
                    == self.pool_map()[addr@],
                Option::None => !self.pool_map().dom().contains(addr@),
            },
    {
        self.clients.get(addr)
    }

    /// Settles a connection attempt for `addr`: a connected client is cached
    /// and handed back, a failure is handed back and leaves the pool as it
    /// was.
    pub fn cache_connection(&mut self, addr: &String, conn: Result<RPCClient, std::io::Error>) -> (r: Result<
        u64,
        std::io::Error,
    >)
        requires
            old(self).wf(),
        ensures
            final(self).wf(),
            match conn {
                Result::Ok(c) => r == Result::<u64, std::io::Error>::Ok(c.server_id)
                    && final(self).pool_map() == old(self).pool_map().insert(addr@, c),
                Result::Err(e) => r == Result::<u64, std::io::Error>::Err(e)
                    && final(self).pool_map() == old(self).pool_map(),
            },
    {
        match conn {
            Result::Ok(c) => {
                let id = c.server_id;
                self.clients.insert(addr.clone(), c);
                Result::Ok(id)
            },
            Result::Err(e) => Result::Err(e),
        }
    }
}

} // verus!
