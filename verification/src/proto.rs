//! The byte-vector wire protocol the transport binds to: every request and
//! every response crosses the wire as one length-prefixed frame. The marker
//! types name the two ends of the protocol; the functions build and read the
//! four-byte big-endian length header, so that what the transport carries is
//! checked here and the socket work stays outside the library.

use vstd::prelude::*;

verus! {

/// The server's end of the framed byte protocol.
pub struct BytesServerProto;

/// The client's end of the framed byte protocol.
pub struct BytesClientProto;

/// The big-endian bytes of a 32-bit frame length, most significant first.
pub open spec fn u32_be_bytes(x: u32) -> Seq<u8> {
    seq![
        ((x >> 24) & 0xff) as u8,
        ((x >> 16) & 0xff) as u8,
        ((x >> 8) & 0xff) as u8,
        (x & 0xff) as u8,
    ]
}

/// The frame around a payload: its length, then its bytes.
pub open spec fn framed(data: Seq<u8>) -> Seq<u8>
    recommends
        data.len() <= 0xffff_ffff,
{
    u32_be_bytes(data.len() as u32) + data
}

/// Wraps a payload in a frame.
pub fn frame(data: Vec<u8>) -> (r: Vec<u8>)
    requires
        data@.len() <= 0xffff_ffff,
    ensures
        r@ == framed(data@),
{
    let len: u32 = data.len() as u32;
    let mut r: Vec<u8> = Vec::new();
    r.push(((len >> 24) & 0xff) as u8);
    r.push(((len >> 16) & 0xff) as u8);
    r.push(((len >> 8) & 0xff) as u8);
    r.push((len & 0xff) as u8);
    let n = data.len();
    let mut i: usize = 0;
    while i < n
        invariant
            n == data@.len(),
            i <= n,
            r@ == u32_be_bytes(n as u32) + data@.take(i as int),
        decreases n - i,
    {
        r.push(data[i]);
        i = i + 1;
        proof {
            assert(u32_be_bytes(n as u32) + data@.take(i - 1) + seq![data@[i - 1]] =~= u32_be_bytes(
                n as u32,
            ) + data@.take(i as int));
        }
    }
    proof {
        assert(data@.take(n as int) =~= data@);
        assert(r@ =~= framed(data@));
    }
    r
}

/// Reads a frame header: the length of the payload that follows it.
pub fn read_frame_len(header: &Vec<u8>) -> (r: u32)
    requires
        header@.len() >= 4,
    ensures
        r == ((header@[0] as u32) << 24) | ((header@[1] as u32) << 16) | ((header@[2] as u32) << 8)
            | (header@[3] as u32),
{
    let _n = header.len();
    ((header[0] as u32) << 24) | ((header[1] as u32) << 16) | ((header[2] as u32) << 8) | (
    header[3] as u32)
}

/// Reading back the header of a frame yields the payload's length.
pub proof fn lemma_frame_round_trip(data: Seq<u8>)
    requires
        data.len() <= 0xffff_ffff,
    ensures
        framed(data).len() == 4 + data.len(),
        framed(data).skip(4) == data,
        ((framed(data)[0] as u32) << 24) | ((framed(data)[1] as u32) << 16) | ((framed(
            data,
        )[2] as u32) << 8) | (framed(data)[3] as u32) == data.len(),
{
    let x: u32 = data.len() as u32;
    assert(((((x >> 24) & 0xff) as u8) as u32) << 24 | ((((x >> 16) & 0xff) as u8) as u32) << 16 | (
    (((x >> 8) & 0xff) as u8) as u32) << 8 | (((x & 0xff) as u8) as u32) == x) by (bit_vector);
    assert(framed(data).skip(4) =~= data);
}

} // verus!
