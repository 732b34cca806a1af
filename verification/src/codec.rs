//! Fixed-width integer coding and the request envelope.
//!
//! A request envelope is the service id as eight little-endian bytes followed
//! by the service-specific payload.

use vstd::prelude::*;

verus! {

/// The little-endian bytes of a 64-bit integer, least significant byte first.
pub open spec fn u64_le_bytes(x: u64) -> Seq<u8> {
    seq![
        (x & 0xff) as u8,
        ((x >> 8) & 0xff) as u8,
        ((x >> 16) & 0xff) as u8,
        ((x >> 24) & 0xff) as u8,
        ((x >> 32) & 0xff) as u8,
        ((x >> 40) & 0xff) as u8,
        ((x >> 48) & 0xff) as u8,
        ((x >> 56) & 0xff) as u8,
    ]
}

/// The 64-bit integer whose little-endian bytes are the first eight of `b`.
pub open spec fn u64_from_le_bytes(b: Seq<u8>) -> u64
    recommends
        b.len() >= 8,
{
    ((b[0] as u64) | ((b[1] as u64) << 8) | ((b[2] as u64) << 16) | ((b[3] as u64) << 24)
        | ((b[4] as u64) << 32) | ((b[5] as u64) << 40) | ((b[6] as u64) << 48) | ((b[7] as u64)
        << 56)) as u64
}

pub fn encode_u64_le(x: u64) -> (r: Vec<u8>)
    ensures
        r@ == u64_le_bytes(x),
{
    let mut r: Vec<u8> = Vec::new();
    r.push((x & 0xff) as u8);
    r.push(((x >> 8) & 0xff) as u8);
    r.push(((x >> 16) & 0xff) as u8);
    r.push(((x >> 24) & 0xff) as u8);
    r.push(((x >> 32) & 0xff) as u8);
    r.push(((x >> 40) & 0xff) as u8);
    r.push(((x >> 48) & 0xff) as u8);
    r.push(((x >> 56) & 0xff) as u8);
    proof {
        assert(r@ =~= u64_le_bytes(x));
    }
    r
}

pub fn decode_u64_le(b: &Vec<u8>, off: usize) -> (x: u64)
    requires
        off + 8 <= b@.len(),
    ensures
        x == u64_from_le_bytes(b@.skip(off as int)),
{
    let _n = b.len();
    let x: u64 = (b[off] as u64) | ((b[off + 1] as u64) << 8) | ((b[off + 2] as u64) << 16) | ((b[
        off + 3] as u64) << 24) | ((b[off + 4] as u64) << 32) | ((b[off + 5] as u64) << 40) | ((b[
        off + 6] as u64) << 48) | ((b[off + 7] as u64) << 56);
    x
}

/// Reading back the little-endian bytes of an integer yields the integer.
pub proof fn lemma_u64_le_decode_of_encode(x: u64)
    ensures
        u64_from_le_bytes(u64_le_bytes(x)) == x,
{
    assert(((((x & 0xff) as u8) as u64) | (((((x >> 8) & 0xff) as u8) as u64) << 8) | (((((x >> 16)
        & 0xff) as u8) as u64) << 16) | (((((x >> 24) & 0xff) as u8) as u64) << 24) | (((((x >> 32)
        & 0xff) as u8) as u64) << 32) | (((((x >> 40) & 0xff) as u8) as u64) << 40) | (((((x >> 48)
        & 0xff) as u8) as u64) << 48) | (((((x >> 56) & 0xff) as u8) as u64) << 56)) == x)
        by (bit_vector);
}

/// Re-encoding the integer read from eight bytes yields the same eight bytes.
pub proof fn lemma_u64_le_encode_of_decode(b: Seq<u8>)
    requires
        b.len() == 8,
    ensures
        u64_le_bytes(u64_from_le_bytes(b)) == b,
{
    let b0 = b[0];
    let b1 = b[1];
    let b2 = b[2];
    let b3 = b[3];
    let b4 = b[4];
    let b5 = b[5];
    let b6 = b[6];
    let b7 = b[7];
    let x: u64 = ((b0 as u64) | ((b1 as u64) << 8) | ((b2 as u64) << 16) | ((b3 as u64) << 24) | ((
    b4 as u64) << 32) | ((b5 as u64) << 40) | ((b6 as u64) << 48) | ((b7 as u64) << 56)) as u64;
    assert((x & 0xff) as u8 == b0 && ((x >> 8) & 0xff) as u8 == b1 && ((x >> 16) & 0xff) as u8 == b2
        && ((x >> 24) & 0xff) as u8 == b3 && ((x >> 32) & 0xff) as u8 == b4 && ((x >> 40)
        & 0xff) as u8 == b5 && ((x >> 48) & 0xff) as u8 == b6 && ((x >> 56) & 0xff) as u8 == b7)
        by (bit_vector)
        requires
            x == ((b0 as u64) | ((b1 as u64) << 8) | ((b2 as u64) << 16) | ((b3 as u64) << 24) | ((
            b4 as u64) << 32) | ((b5 as u64) << 40) | ((b6 as u64) << 48) | ((b7 as u64) << 56)),
    ;
    assert(u64_le_bytes(u64_from_le_bytes(b)) =~= b);
}

/// The request envelope around `data`, addressed to service `id`.
pub open spec fn request_envelope(id: u64, data: Seq<u8>) -> Seq<u8> {
    u64_le_bytes(id) + data
}

/// A request envelope carries at least its eight-byte service id.
pub open spec fn valid_request_envelope(b: Seq<u8>) -> bool {
    b.len() >= 8
}

/// Prefixes the payload with the service id, forming a request envelope.
pub fn prepend_u64(id: u64, data: Vec<u8>) -> (r: Vec<u8>)
    ensures
        r@ == request_envelope(id, data@),
{
    let mut r = encode_u64_le(id);
    let n = data.len();
    let mut i: usize = 0;
    while i < n
        invariant
            n == data@.len(),
            i <= n,
            r@ == u64_le_bytes(id) + data@.take(i as int),
        decreases n - i,
    {
        r.push(data[i]);
        i = i + 1;
        proof {
            assert(u64_le_bytes(id) + data@.take(i - 1) + seq![data@[i - 1]] =~= u64_le_bytes(id)
                + data@.take(i as int));
        }
    }
    proof {
        assert(data@.take(n as int) =~= data@);
    }
    r
}

/// Splits a request envelope into its service id and the remaining payload.
pub fn extract_u64_head(data: Vec<u8>) -> (r: (u64, Vec<u8>))
    requires
        valid_request_envelope(data@),
    ensures
        r.0 == u64_from_le_bytes(data@),
        r.1@ == data@.skip(8),
{
    let id = decode_u64_le(&data, 0);
    proof {
        assert(data@.skip(0) =~= data@);
    }
    let n = data.len();
    let mut rest: Vec<u8> = Vec::new();
    let mut i: usize = 8;
    while i < n
        invariant
            n == data@.len(),
            8 <= i <= n,
            rest@ == data@.subrange(8, i as int),
        decreases n - i,
    {
        rest.push(data[i]);
        i = i + 1;
        proof {
            assert(data@.subrange(8, i - 1) + seq![data@[i - 1]] =~= data@.subrange(8, i as int));
        }
    }
    proof {
        assert(data@.subrange(8, n as int) =~= data@.skip(8));
    }
    (id, rest)
}

/// Splitting a request envelope and rebuilding it yields the original bytes.
pub proof fn lemma_request_envelope_round_trip(b: Seq<u8>)
    requires
        valid_request_envelope(b),
    ensures
        request_envelope(u64_from_le_bytes(b), b.skip(8)) == b,
{
    lemma_u64_le_encode_of_decode(b.take(8));
    assert(u64_from_le_bytes(b.take(8)) == u64_from_le_bytes(b));
    assert(u64_le_bytes(u64_from_le_bytes(b)) + b.skip(8) =~= b);
}

/// Building a request envelope and splitting it yields the id and payload.
pub proof fn lemma_request_envelope_extract(id: u64, data: Seq<u8>)
    ensures
        u64_from_le_bytes(request_envelope(id, data)) == id,
        request_envelope(id, data).skip(8) == data,
{
    lemma_u64_le_decode_of_encode(id);
    assert(request_envelope(id, data).take(8) =~= u64_le_bytes(id));
    assert(u64_from_le_bytes(request_envelope(id, data)) == u64_from_le_bytes(u64_le_bytes(id)));
    assert(request_envelope(id, data).skip(8) =~= data);
}

} // verus!
