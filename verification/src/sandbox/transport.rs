//! The framing of messages between the host and the sandbox worker: each
//! message is its length as four big-endian bytes, then the message. The
//! stream itself and the JSON inside a frame are handled on the host.

use vstd::prelude::*;

verus! {

/// The largest message a frame may announce: 16 MiB.
pub const MAX_MESSAGE_BYTES: u32 = 16777216;

/// `n` as four big-endian bytes.
pub open spec fn be_bytes(n: u32) -> Seq<u8> {
    seq![(n >> 24u32) as u8, ((n >> 16u32) & 0xffu32) as u8, ((n >> 8u32) & 0xffu32) as u8, (n & 0xffu32) as u8]
}

/// The number that four big-endian bytes stand for.
pub open spec fn be_value(b: Seq<u8>) -> u32 {
    ((b[0] as u32) << 24u32) | ((b[1] as u32) << 16u32) | ((b[2] as u32) << 8u32) | (b[3] as u32)
}

/// Reading back the bytes of a length gives the length.
pub proof fn lemma_be_round_trip(n: u32)
    ensures
        be_value(be_bytes(n)) == n,
{
    let b0 = (n >> 24u32) as u8;
    let b1 = ((n >> 16u32) & 0xffu32) as u8;
    let b2 = ((n >> 8u32) & 0xffu32) as u8;
    let b3 = (n & 0xffu32) as u8;
    assert(((b0 as u32) << 24u32) | ((b1 as u32) << 16u32) | ((b2 as u32) << 8u32) | (b3 as u32) == n)
        by (bit_vector)
        requires
            b0 == (n >> 24u32) as u8,
            b1 == ((n >> 16u32) & 0xffu32) as u8,
            b2 == ((n >> 8u32) & 0xffu32) as u8,
            b3 == (n & 0xffu32) as u8,
    ;
}

/// The frame of a message: its length, then its bytes; refused when the
/// length does not fit in four bytes.
pub fn frame(payload: &[u8]) -> (r: Result<Vec<u8>, String>)
    ensures
        payload@.len() > u32::MAX ==> (r matches Err(m) && m@ == "message too large to frame"@),
        payload@.len() <= u32::MAX ==> (r matches Ok(f) && f@ == be_bytes(payload@.len() as u32) + payload@),
{
    if payload.len() > 4294967295usize {
        return Err("message too large to frame".to_string());
    }
    let n = payload.len() as u32;
    let mut out: Vec<u8> = Vec::new();
    out.push((n >> 24u32) as u8);
    out.push(((n >> 16u32) & 0xffu32) as u8);
    out.push(((n >> 8u32) & 0xffu32) as u8);
    out.push((n & 0xffu32) as u8);
    let mut i: usize = 0;
    while i < payload.len()
        invariant
            i <= payload@.len(),
            out@ == be_bytes(n) + payload@.take(i as int),
        decreases payload.len() - i,
    {
        out.push(payload[i]);
        i = i + 1;
        assert(out@ =~= be_bytes(n) + payload@.take(i as int));
    }
    assert(payload@.take(i as int) =~= payload@);
    Ok(out)
}

/// The length a frame's header announces; refused above
/// `MAX_MESSAGE_BYTES`, so that no peer can make the reader allocate more.
pub fn frame_length(header: [u8; 4]) -> (r: Result<u32, String>)
    ensures
        be_value(header@) > MAX_MESSAGE_BYTES ==> (r matches Err(m) && m@ == "message exceeds maximum frame size"@),
        be_value(header@) <= MAX_MESSAGE_BYTES ==> r == Ok::<u32, String>(be_value(header@)),
{
    let len: u32 = ((header[0] as u32) << 24u32) | ((header[1] as u32) << 16u32) | ((header[2] as u32) << 8u32)
        | (header[3] as u32);
    assert(len == be_value(header@));
    if len > MAX_MESSAGE_BYTES {
        return Err("message exceeds maximum frame size".to_string());
    }
    Ok(len)
}


/// The header of a message's frame announces exactly the message's length.
pub proof fn lemma_frame_announces_its_length(payload: Seq<u8>)
    requires
        payload.len() <= u32::MAX,
    ensures
        be_value((be_bytes(payload.len() as u32) + payload).take(4)) == payload.len(),
{
    let n = payload.len() as u32;
    lemma_be_round_trip(n);
    assert((be_bytes(n) + payload).take(4) =~= be_bytes(n));
}

} // verus!
