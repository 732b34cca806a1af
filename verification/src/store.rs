//! A replicated value store: the smallest useful command set on the dispatch
//! substrate. Its two commands are `get`, a query that reads the value
//! without touching the log, and `set`, a command that must be committed
//! through the log before it is applied.
//!
//! A command payload names its function by the stable digest of the command
//! name in its first eight bytes; the argument bytes follow. The routing
//! table from function id to handler is the dispatch below, built by hand as
//! one registration per command.

use vstd::prelude::*;

use crate::codec::extract_u64_head;
use crate::codec::prepend_u64;
use crate::codec::u64_from_le_bytes;
use crate::codec::request_envelope;
use crate::raft::StateMachine;
use crate::rpc::fnv1a;
use crate::rpc::hash_bytes;
use crate::rpc::str_id;
use crate::rpc::RPCRequestError;
use crate::rpc::RPCService;

verus! {

/// The function id of the `get` query.
pub open spec fn get_fn_id() -> u64 {
    str_id("get"@)
}

/// The function id of the `set` command.
pub open spec fn set_fn_id() -> u64 {
    str_id("set"@)
}

/// The `get` function id, as a value.
pub fn fn_id_get() -> (r: u64)
    ensures
        r == get_fn_id(),
{
    hash_bytes("get".as_bytes())
}

/// The `set` function id, as a value.
pub fn fn_id_set() -> (r: u64)
    ensures
        r == set_fn_id(),
{
    hash_bytes("set".as_bytes())
}

/// Whether a function id names a query, which may be served without log
/// replication; `set` must go through the log.
pub fn is_query_fn(fid: u64) -> (r: bool)
    ensures
        r == (fid == get_fn_id()),
{
    fid == fn_id_get()
}

/// The payload invoking `set` with `arg`.
pub fn encode_set(arg: Vec<u8>) -> (r: Vec<u8>)
    ensures
        r@ == request_envelope(set_fn_id(), arg@),
{
    prepend_u64(fn_id_set(), arg)
}

/// The payload invoking `get`.
pub fn encode_get() -> (r: Vec<u8>)
    ensures
        r@ == request_envelope(get_fn_id(), Seq::<u8>::empty()),
{
    let empty: Vec<u8> = Vec::new();
    proof {
        assert(request_envelope(get_fn_id(), Seq::<u8>::empty())
            =~= crate::codec::u64_le_bytes(get_fn_id()) + Seq::<u8>::empty());
    }
    let r = prepend_u64(fn_id_get(), empty);
    proof {
        assert(r@ =~= request_envelope(get_fn_id(), Seq::<u8>::empty()));
    }
    r
}

/// The value after one payload is served: only a well-formed `set` command
/// replaces it.
pub open spec fn serve_value(value: Seq<u8>, data: Seq<u8>) -> Seq<u8> {
    if data.len() >= 8 && u64_from_le_bytes(data) == set_fn_id() && u64_from_le_bytes(data)
        != get_fn_id() {
        data.skip(8)
    } else {
        value
    }
}

/// The outcome one payload gets from the store: `get` answers with the
/// value, `set` with nothing; a payload too short to name a function is
/// `Other`, and a function id naming neither command is `FunctionIdNotFound`.
pub open spec fn serve_out(value: Seq<u8>, data: Seq<u8>) -> Result<Seq<u8>, RPCRequestError> {
    if data.len() < 8 {
        Result::Err(RPCRequestError::Other)
    } else if u64_from_le_bytes(data) == get_fn_id() {
        Result::Ok(value)
    } else if u64_from_le_bytes(data) == set_fn_id() {
        Result::Ok(Seq::<u8>::empty())
    } else {
        Result::Err(RPCRequestError::FunctionIdNotFound)
    }
}

/// An unknown function id within the store is refused, never served and
/// never fatal: its response envelope is exactly the function-id-not-found
/// status byte, and the value is untouched.
pub proof fn lemma_unknown_function_status(value: Seq<u8>, data: Seq<u8>)
    requires
        data.len() >= 8,
        u64_from_le_bytes(data) != get_fn_id(),
        u64_from_le_bytes(data) != set_fn_id(),
    ensures
        crate::rpc::encode_res_spec(serve_out(value, data)) == seq![
            crate::rpc::STATUS_FUNCTION_NOT_FOUND,
        ],
        serve_value(value, data) == value,
{
    assert(crate::rpc::encode_res_spec(serve_out(value, data)) =~= seq![
        crate::rpc::STATUS_FUNCTION_NOT_FOUND,
    ]);
}

/// The stored value, one opaque byte string.
pub struct ValueStore {
    pub value: Vec<u8>,
}

impl ValueStore {
    pub fn new() -> (r: ValueStore)
        ensures
            r.value@ == Seq::<u8>::empty(),
    {
        ValueStore { value: Vec::new() }
    }

    /// Serves one decoded payload: `get` answers with the value and changes
    /// nothing, `set` replaces the value and answers with nothing. A payload
    /// too short to name a function is refused as `Other`; a function id
    /// that names neither command is refused as `FunctionIdNotFound`, and
    /// never brings the server down.
    pub fn serve(&mut self, data: Vec<u8>) -> (r: Result<Vec<u8>, RPCRequestError>)
        ensures
            crate::rpc::res_view(r) == serve_out(old(self).value@, data@),
            final(self).value@ == serve_value(old(self).value@, data@),
    {
        if data.len() < 8 {
            return Result::Err(RPCRequestError::Other);
        }
        let (fid, arg) = extract_u64_head(data);
        if fid == fn_id_get() {
            let n = self.value.len();
            let mut out: Vec<u8> = Vec::new();
            let mut i: usize = 0;
            while i < n
                invariant
                    n == self.value@.len(),
                    i <= n,
                    out@ == self.value@.take(i as int),
                    self.value@ == old(self).value@,
                decreases n - i,
            {
                out.push(self.value[i]);
                i = i + 1;
                proof {
                    assert(self.value@.take(i - 1).push(self.value@[i - 1]) =~= self.value@.take(
                        i as int,
                    ));
                }
            }
            proof {
                assert(self.value@.take(n as int) =~= self.value@);
            }
            Result::Ok(out)
        } else if fid == fn_id_set() {
            self.value = arg;
            Result::Ok(Vec::new())
        } else {
            Result::Err(RPCRequestError::FunctionIdNotFound)
        }
    }
}

impl RPCService for ValueStore {
    open spec fn dispatch_out(pre: ValueStore, data: Seq<u8>) -> Result<Seq<u8>, RPCRequestError> {
        serve_out(pre.value@, data)
    }

    open spec fn dispatch_post(pre: ValueStore, data: Seq<u8>, post: ValueStore) -> bool {
        post.value@ == serve_value(pre.value@, data)
    }

    fn dispatch(&mut self, data: Vec<u8>) -> (r: Result<Vec<u8>, RPCRequestError>) {
        self.serve(data)
    }
}

impl StateMachine for ValueStore {
    open spec fn apply_post(pre: ValueStore, index: u64, command: Seq<u8>, post: ValueStore) -> bool {
        post.value@ == serve_value(pre.value@, command)
    }

    open spec fn snapshot_of(m: ValueStore) -> Seq<u8> {
        m.value@
    }

    open spec fn restore_post(pre: ValueStore, data: Seq<u8>, post: ValueStore) -> bool {
        post.value@ == data
    }

    fn apply(&mut self, index: u64, command: &Vec<u8>) -> (r: Vec<u8>)
        ensures
            final(self).value@ == serve_value(old(self).value@, command@),
            r@ == (match serve_out(old(self).value@, command@) {
                Result::Ok(p) => p,
                Result::Err(_) => Seq::<u8>::empty(),
            }),
    {
        let mut own: Vec<u8> = Vec::new();
        let n = command.len();
        let mut i: usize = 0;
        while i < n
            invariant
                n == command@.len(),
                i <= n,
                own@ == command@.take(i as int),
            decreases n - i,
        {
            own.push(command[i]);
            i = i + 1;
            proof {
                assert(command@.take(i - 1).push(command@[i - 1]) =~= command@.take(i as int));
            }
        }
        proof {
            assert(command@.take(n as int) =~= command@);
        }
        match self.serve(own) {
            Result::Ok(p) => p,
            Result::Err(_) => Vec::new(),
        }
    }

    fn snapshot(&self) -> (r: Vec<u8>)
        ensures
            r@ == self.value@,
    {
        let n = self.value.len();
        let mut out: Vec<u8> = Vec::new();
        let mut i: usize = 0;
        while i < n
            invariant
                n == self.value@.len(),
                i <= n,
                out@ == self.value@.take(i as int),
            decreases n - i,
        {
            out.push(self.value[i]);
            i = i + 1;
            proof {
                assert(self.value@.take(i - 1).push(self.value@[i - 1]) =~= self.value@.take(
                    i as int,
                ));
            }
        }
        proof {
            assert(self.value@.take(n as int) =~= self.value@);
        }
        out
    }

    fn restore(&mut self, data: &Vec<u8>)
        ensures
            final(self).value@ == data@,
    {
        let n = data.len();
        let mut own: Vec<u8> = Vec::new();
        let mut i: usize = 0;
        while i < n
            invariant
                n == data@.len(),
                i <= n,
                own@ == data@.take(i as int),
            decreases n - i,
        {
            own.push(data[i]);
            i = i + 1;
            proof {
                assert(data@.take(i - 1).push(data@[i - 1]) =~= data@.take(i as int));
            }
        }
        proof {
            assert(data@.take(n as int) =~= data@);
        }
        self.value = own;
    }
}

} // verus!
