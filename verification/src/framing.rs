use vstd::prelude::*;
use crate::bytes::{spec_u32_be, spec_be_u32, push_u32_be, read_u32_be, lemma_u32_be_roundtrip};

verus! {

/// A packet on a Wi-Fi Direct TCP stream: its length as a big-endian `u32`
/// (4 bytes), then the packet.
pub open spec fn spec_frame(body: Seq<u8>) -> Seq<u8> {
    spec_u32_be(body.len() as u32) + body
}

/// Frames a serialised packet for the TCP stream.
pub fn frame_packet(body: &[u8]) -> (r: Vec<u8>)
    ensures
        r@ == spec_frame(body@),
{
    let mut out: Vec<u8> = Vec::new();
    #[verifier::truncate]
    let len = body.len() as u32;
    push_u32_be(&mut out, len);
    let mut i: usize = 0;
    while i < body.len()
        invariant
            i <= body@.len(),
            out@ =~= spec_u32_be(body@.len() as u32) + body@.take(i as int),
        decreases body@.len() - i,
    {
        out.push(body[i]);
        i = i + 1;
        assert(out@ =~= spec_u32_be(body@.len() as u32) + body@.take(i as int));
    }
    assert(body@.take(i as int) =~= body@);
    out
}

/// Length of the packet that follows a 4-byte frame header.
pub fn frame_length(header: &[u8; 4]) -> (len: usize)
    ensures
        len == spec_be_u32(header@),
{
    read_u32_be(header.as_slice()) as usize
}

/// Framing round trip: the header of a frame gives back the length of the
/// packet, and the packet follows it unchanged (for packets shorter than
/// 4 GiB).
pub proof fn lemma_frame_roundtrip(body: Seq<u8>)
    requires
        body.len() <= u32::MAX,
    ensures
        spec_be_u32(spec_frame(body)) == body.len(),
        spec_frame(body).skip(4) == body,
{
    let f = spec_frame(body);
    let h = spec_u32_be(body.len() as u32);
    lemma_u32_be_roundtrip(body.len() as u32);
    assert(f[0] == h[0] && f[1] == h[1] && f[2] == h[2] && f[3] == h[3]);
    assert(f.skip(4) =~= body);
}

} // verus!
