use vstd::prelude::*;

verus! {

/// The eight bytes of `v`, least significant first.
pub open spec fn encode_fixed64(v: u64) -> Seq<u8> {
    seq![
        (v & 0xff) as u8,
        ((v >> 8u64) & 0xff) as u8,
        ((v >> 16u64) & 0xff) as u8,
        ((v >> 24u64) & 0xff) as u8,
        ((v >> 32u64) & 0xff) as u8,
        ((v >> 40u64) & 0xff) as u8,
        ((v >> 48u64) & 0xff) as u8,
        ((v >> 56u64) & 0xff) as u8,
    ]
}

/// The little-endian value of the first eight bytes of `s`.
pub open spec fn decode_fixed64(s: Seq<u8>) -> u64 {
    (s[0] as u64) | ((s[1] as u64) << 8u64) | ((s[2] as u64) << 16u64) | ((s[3] as u64) << 24u64)
        | ((s[4] as u64) << 32u64) | ((s[5] as u64) << 40u64) | ((s[6] as u64) << 48u64) | ((
    s[7] as u64) << 56u64)
}

/// The four bytes of `v`, least significant first.
pub open spec fn encode_fixed32(v: u32) -> Seq<u8> {
    seq![
        (v & 0xff) as u8,
        ((v >> 8u32) & 0xff) as u8,
        ((v >> 16u32) & 0xff) as u8,
        ((v >> 24u32) & 0xff) as u8,
    ]
}

/// The little-endian value of the first four bytes of `s`.
pub open spec fn decode_fixed32(s: Seq<u8>) -> u32 {
    (s[0] as u32) | ((s[1] as u32) << 8u32) | ((s[2] as u32) << 16u32) | ((s[3] as u32) << 24u32)
}

/// Reading back eight encoded bytes gives the value, whatever follows them.
pub proof fn lemma_fixed64_roundtrip(v: u64, rest: Seq<u8>)
    ensures
        (encode_fixed64(v) + rest).len() >= 8,
        decode_fixed64(encode_fixed64(v) + rest) == v,
{
    let s = encode_fixed64(v) + rest;
    let b0 = (v & 0xff) as u8;
    let b1 = ((v >> 8u64) & 0xff) as u8;
    let b2 = ((v >> 16u64) & 0xff) as u8;
    let b3 = ((v >> 24u64) & 0xff) as u8;
    let b4 = ((v >> 32u64) & 0xff) as u8;
    let b5 = ((v >> 40u64) & 0xff) as u8;
    let b6 = ((v >> 48u64) & 0xff) as u8;
    let b7 = ((v >> 56u64) & 0xff) as u8;
    assert(s[0] == b0 && s[1] == b1 && s[2] == b2 && s[3] == b3);
    assert(s[4] == b4 && s[5] == b5 && s[6] == b6 && s[7] == b7);
    assert((b0 as u64) | ((b1 as u64) << 8u64) | ((b2 as u64) << 16u64) | ((b3 as u64) << 24u64)
        | ((b4 as u64) << 32u64) | ((b5 as u64) << 40u64) | ((b6 as u64) << 48u64) | ((b7 as u64)
        << 56u64) == v) by (bit_vector)
        requires
            b0 == (v & 0xff) as u8,
            b1 == ((v >> 8u64) & 0xff) as u8,
            b2 == ((v >> 16u64) & 0xff) as u8,
            b3 == ((v >> 24u64) & 0xff) as u8,
            b4 == ((v >> 32u64) & 0xff) as u8,
            b5 == ((v >> 40u64) & 0xff) as u8,
            b6 == ((v >> 48u64) & 0xff) as u8,
            b7 == ((v >> 56u64) & 0xff) as u8,
    ;
}

/// Reading back four encoded bytes gives the value, whatever follows them.
pub proof fn lemma_fixed32_roundtrip(v: u32, rest: Seq<u8>)
    ensures
        (encode_fixed32(v) + rest).len() >= 4,
        decode_fixed32(encode_fixed32(v) + rest) == v,
{
    let s = encode_fixed32(v) + rest;
    let b0 = (v & 0xff) as u8;
    let b1 = ((v >> 8u32) & 0xff) as u8;
    let b2 = ((v >> 16u32) & 0xff) as u8;
    let b3 = ((v >> 24u32) & 0xff) as u8;
    assert(s[0] == b0 && s[1] == b1 && s[2] == b2 && s[3] == b3);
    assert((b0 as u32) | ((b1 as u32) << 8u32) | ((b2 as u32) << 16u32) | ((b3 as u32) << 24u32)
        == v) by (bit_vector)
        requires
            b0 == (v & 0xff) as u8,
            b1 == ((v >> 8u32) & 0xff) as u8,
            b2 == ((v >> 16u32) & 0xff) as u8,
            b3 == ((v >> 24u32) & 0xff) as u8,
    ;
}

/// The little-endian value of the eight bytes at `pos`.
pub fn fixed64_at(buf: &[u8], pos: usize) -> (r: u64)
    requires
        pos + 8 <= buf@.len(),
    ensures
        r == decode_fixed64(buf@.skip(pos as int)),
{
    (buf[pos] as u64) | ((buf[pos + 1] as u64) << 8u64) | ((buf[pos + 2] as u64) << 16u64) | ((
    buf[pos + 3] as u64) << 24u64) | ((buf[pos + 4] as u64) << 32u64) | ((buf[pos + 5] as u64)
        << 40u64) | ((buf[pos + 6] as u64) << 48u64) | ((buf[pos + 7] as u64) << 56u64)
}

/// The little-endian value of the four bytes at `pos`.
pub fn fixed32_at(buf: &[u8], pos: usize) -> (r: u32)
    requires
        pos + 4 <= buf@.len(),
    ensures
        r == decode_fixed32(buf@.skip(pos as int)),
{
    (buf[pos] as u32) | ((buf[pos + 1] as u32) << 8u32) | ((buf[pos + 2] as u32) << 16u32) | ((
    buf[pos + 3] as u32) << 24u32)
}

/// Appends the eight little-endian bytes of `v`.
pub fn put_fixed64(out: &mut Vec<u8>, v: u64)
    ensures
        final(out)@ == old(out)@ + encode_fixed64(v),
{
    let ghost before = out@;
    out.push((v & 0xff) as u8);
    out.push(((v >> 8u64) & 0xff) as u8);
    out.push(((v >> 16u64) & 0xff) as u8);
    out.push(((v >> 24u64) & 0xff) as u8);
    out.push(((v >> 32u64) & 0xff) as u8);
    out.push(((v >> 40u64) & 0xff) as u8);
    out.push(((v >> 48u64) & 0xff) as u8);
    out.push(((v >> 56u64) & 0xff) as u8);
    assert(out@ =~= before + encode_fixed64(v));
}

/// Appends the four little-endian bytes of `v`.
pub fn put_fixed32(out: &mut Vec<u8>, v: u32)
    ensures
        final(out)@ == old(out)@ + encode_fixed32(v),
{
    let ghost before = out@;
    out.push((v & 0xff) as u8);
    out.push(((v >> 8u32) & 0xff) as u8);
    out.push(((v >> 16u32) & 0xff) as u8);
    out.push(((v >> 24u32) & 0xff) as u8);
    assert(out@ =~= before + encode_fixed32(v));
}

} // verus!
