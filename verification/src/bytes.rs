use vstd::prelude::*;

verus! {

/// Big-endian bytes of a `u64` (what `u64::to_be_bytes` gives).
pub open spec fn spec_u64_be(x: u64) -> Seq<u8> {
    seq![
        (x >> 56u64) as u8,
        (x >> 48u64) as u8,
        (x >> 40u64) as u8,
        (x >> 32u64) as u8,
        (x >> 24u64) as u8,
        (x >> 16u64) as u8,
        (x >> 8u64) as u8,
        x as u8,
    ]
}

/// The `u64` whose big-endian bytes are the first eight of `b` (what
/// `u64::from_be_bytes` gives).
pub open spec fn spec_be_u64(b: Seq<u8>) -> u64
    recommends
        b.len() >= 8,
{
    ((b[0] as u64) << 56u64) | ((b[1] as u64) << 48u64) | ((b[2] as u64) << 40u64) | ((
    b[3] as u64) << 32u64) | ((b[4] as u64) << 24u64) | ((b[5] as u64) << 16u64) | ((
    b[6] as u64) << 8u64) | (b[7] as u64)
}

/// Big-endian bytes of a `u32`.
pub open spec fn spec_u32_be(x: u32) -> Seq<u8> {
    seq![(x >> 24u32) as u8, (x >> 16u32) as u8, (x >> 8u32) as u8, x as u8]
}

/// The `u32` whose big-endian bytes are the first four of `b`.
pub open spec fn spec_be_u32(b: Seq<u8>) -> u32
    recommends
        b.len() >= 4,
{
    ((b[0] as u32) << 24u32) | ((b[1] as u32) << 16u32) | ((b[2] as u32) << 8u32) | (b[3] as u32)
}

/// The `u16` whose big-endian bytes are the first two of `b`.
pub open spec fn spec_be_u16(b: Seq<u8>) -> u16
    recommends
        b.len() >= 2,
{
    ((b[0] as u16) << 8u16) | (b[1] as u16)
}

/// Appends the big-endian bytes of `x` to `out`.
pub fn push_u64_be(out: &mut Vec<u8>, x: u64)
    ensures
        final(out)@ == old(out)@ + spec_u64_be(x),
{
    out.push((x >> 56u64) as u8);
    out.push((x >> 48u64) as u8);
    out.push((x >> 40u64) as u8);
    out.push((x >> 32u64) as u8);
    out.push((x >> 24u64) as u8);
    out.push((x >> 16u64) as u8);
    out.push((x >> 8u64) as u8);
    out.push(x as u8);
    assert(out@ =~= old(out)@ + spec_u64_be(x));
}

/// Appends the big-endian bytes of `x` to `out`.
pub fn push_u32_be(out: &mut Vec<u8>, x: u32)
    ensures
        final(out)@ == old(out)@ + spec_u32_be(x),
{
    out.push((x >> 24u32) as u8);
    out.push((x >> 16u32) as u8);
    out.push((x >> 8u32) as u8);
    out.push(x as u8);
    assert(out@ =~= old(out)@ + spec_u32_be(x));
}

/// Reads a big-endian `u64` from the first eight bytes of `b`.
pub fn read_u64_be(b: &[u8]) -> (x: u64)
    requires
        b@.len() >= 8,
    ensures
        x == spec_be_u64(b@),
{
    ((b[0] as u64) << 56u64) | ((b[1] as u64) << 48u64) | ((b[2] as u64) << 40u64) | ((
    b[3] as u64) << 32u64) | ((b[4] as u64) << 24u64) | ((b[5] as u64) << 16u64) | ((
    b[6] as u64) << 8u64) | (b[7] as u64)
}

/// Reads a big-endian `u32` from the first four bytes of `b`.
pub fn read_u32_be(b: &[u8]) -> (x: u32)
    requires
        b@.len() >= 4,
    ensures
        x == spec_be_u32(b@),
{
    ((b[0] as u32) << 24u32) | ((b[1] as u32) << 16u32) | ((b[2] as u32) << 8u32) | (b[3] as u32)
}

/// Reads a big-endian `u16` from the first two bytes of `b`.
pub fn read_u16_be(b: &[u8]) -> (x: u16)
    requires
        b@.len() >= 2,
    ensures
        x == spec_be_u16(b@),
{
    ((b[0] as u16) << 8u16) | (b[1] as u16)
}

/// Reading back what was written gives the value.
pub proof fn lemma_u64_be_roundtrip(x: u64)
    ensures
        spec_be_u64(spec_u64_be(x)) == x,
{
    let b = spec_u64_be(x);
    let b0 = (x >> 56u64) as u8;
    let b1 = (x >> 48u64) as u8;
    let b2 = (x >> 40u64) as u8;
    let b3 = (x >> 32u64) as u8;
    let b4 = (x >> 24u64) as u8;
    let b5 = (x >> 16u64) as u8;
    let b6 = (x >> 8u64) as u8;
    let b7 = x as u8;
    assert(b[0] == b0 && b[1] == b1 && b[2] == b2 && b[3] == b3);
    assert(b[4] == b4 && b[5] == b5 && b[6] == b6 && b[7] == b7);
    assert(((b0 as u64) << 56u64) | ((b1 as u64) << 48u64) | ((b2 as u64) << 40u64) | ((
    b3 as u64) << 32u64) | ((b4 as u64) << 24u64) | ((b5 as u64) << 16u64) | ((b6 as u64)
        << 8u64) | (b7 as u64) == x) by (bit_vector)
        requires
            b0 == (x >> 56u64) as u8,
            b1 == (x >> 48u64) as u8,
            b2 == (x >> 40u64) as u8,
            b3 == (x >> 32u64) as u8,
            b4 == (x >> 24u64) as u8,
            b5 == (x >> 16u64) as u8,
            b6 == (x >> 8u64) as u8,
            b7 == x as u8,
    ;
}

/// Reading back what was written gives the value.
pub proof fn lemma_u32_be_roundtrip(x: u32)
    ensures
        spec_be_u32(spec_u32_be(x)) == x,
{
    let b = spec_u32_be(x);
    let b0 = (x >> 24u32) as u8;
    let b1 = (x >> 16u32) as u8;
    let b2 = (x >> 8u32) as u8;
    let b3 = x as u8;
    assert(b[0] == b0 && b[1] == b1 && b[2] == b2 && b[3] == b3);
    assert(((b0 as u32) << 24u32) | ((b1 as u32) << 16u32) | ((b2 as u32) << 8u32) | (b3 as u32)
        == x) by (bit_vector)
        requires
            b0 == (x >> 24u32) as u8,
            b1 == (x >> 16u32) as u8,
            b2 == (x >> 8u32) as u8,
            b3 == x as u8,
    ;
}

/// A big-endian `u16` is its first byte times 256 plus its second byte.
pub proof fn lemma_be_u16_value(b: Seq<u8>)
    requires
        b.len() >= 2,
    ensures
        spec_be_u16(b) as int == b[0] as int * 256 + b[1] as int,
{
    let b0 = b[0];
    let b1 = b[1];
    assert(((b0 as u16) << 8u16) | (b1 as u16) == (b0 as u16) * 256 + (b1 as u16)) by (bit_vector);
}

/// A big-endian `u32` is the base-256 number whose digits are its first
/// four bytes, most significant first.
pub proof fn lemma_be_u32_value(b: Seq<u8>)
    requires
        b.len() >= 4,
    ensures
        spec_be_u32(b) as int == ((b[0] as int * 256 + b[1] as int) * 256 + b[2] as int) * 256
            + b[3] as int,
{
    let b0 = b[0];
    let b1 = b[1];
    let b2 = b[2];
    let b3 = b[3];
    assert(((b0 as u32) << 24u32) | ((b1 as u32) << 16u32) | ((b2 as u32) << 8u32) | (b3 as u32)
        == (((b0 as u32) * 256 + (b1 as u32)) * 256 + (b2 as u32)) * 256 + (b3 as u32))
        by (bit_vector);
}

/// A big-endian `u64` is the base-256 number whose digits are its first
/// eight bytes, most significant first.
pub proof fn lemma_be_u64_value(b: Seq<u8>)
    requires
        b.len() >= 8,
    ensures
        spec_be_u64(b) as int == ((((((b[0] as int * 256 + b[1] as int) * 256 + b[2] as int) * 256
            + b[3] as int) * 256 + b[4] as int) * 256 + b[5] as int) * 256 + b[6] as int) * 256
            + b[7] as int,
{
    let b0 = b[0];
    let b1 = b[1];
    let b2 = b[2];
    let b3 = b[3];
    let b4 = b[4];
    let b5 = b[5];
    let b6 = b[6];
    let b7 = b[7];
    assert(((b0 as u64) << 56u64) | ((b1 as u64) << 48u64) | ((b2 as u64) << 40u64) | ((
    b3 as u64) << 32u64) | ((b4 as u64) << 24u64) | ((b5 as u64) << 16u64) | ((b6 as u64)
        << 8u64) | (b7 as u64) == (((((((b0 as u64) * 256 + (b1 as u64)) * 256 + (b2 as u64))
        * 256 + (b3 as u64)) * 256 + (b4 as u64)) * 256 + (b5 as u64)) * 256 + (b6 as u64))
        * 256 + (b7 as u64)) by (bit_vector);
}

} // verus!
