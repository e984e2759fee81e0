//! Little-endian layouts of the integers that travel on the wire, and the
//! small byte helpers that the message codecs share.
use vstd::prelude::*;

verus! {

/// The two bytes of `v`, least significant first.
pub open spec fn le16(v: u16) -> Seq<u8> {
    seq![(v % 256) as u8, (v / 256) as u8]
}

/// The four bytes of `v`, least significant first.
pub open spec fn le32(v: u32) -> Seq<u8> {
    seq![
        (v % 256) as u8,
        ((v / 256) % 256) as u8,
        ((v / 65536) % 256) as u8,
        (v / 16777216) as u8,
    ]
}

/// The four little-endian bytes of a signed integer: those of its two's complement bits.
pub open spec fn le_i32(v: i32) -> Seq<u8> {
    le32(v as u32)
}

/// The value of two bytes read least significant first.
pub open spec fn from_le16(s: Seq<u8>) -> u16 {
    (s[0] + 256 * s[1]) as u16
}

/// The value of four bytes read least significant first.
pub open spec fn from_le32(s: Seq<u8>) -> u32 {
    (s[0] + 256 * s[1] + 65536 * s[2] + 16777216 * s[3]) as u32
}

/// The signed value of four bytes read least significant first.
pub open spec fn from_le_i32(s: Seq<u8>) -> i32 {
    from_le32(s) as i32
}

pub proof fn lemma_le16_roundtrip(v: u16)
    ensures
        le16(v).len() == 2,
        from_le16(le16(v)) == v,
{
    let s = le16(v);
    assert(s[0] == v % 256);
    assert(s[1] == v / 256);
}

pub proof fn lemma_le32_roundtrip(v: u32)
    ensures
        le32(v).len() == 4,
        from_le32(le32(v)) == v,
{
    let s = le32(v);
    assert(s[0] == v % 256);
    assert(s[1] == (v / 256) % 256);
    assert(s[2] == (v / 65536) % 256);
    assert(s[3] == v / 16777216);
    assert((v % 256) + 256 * ((v / 256) % 256) + 65536 * ((v / 65536) % 256) + 16777216 * (v
        / 16777216) == v) by (nonlinear_arith);
}

pub proof fn lemma_le_i32_roundtrip(v: i32)
    ensures
        le_i32(v).len() == 4,
        from_le_i32(le_i32(v)) == v,
{
    lemma_le32_roundtrip(v as u32);
    assert((v as u32) as i32 == v) by (bit_vector);
}

/// The little-endian bytes of `v`.
pub fn u32_le_bytes(v: u32) -> (r: [u8; 4])
    ensures
        r@ == le32(v),
{
    let r = [(v % 256) as u8, ((v / 256) % 256) as u8, ((v / 65536) % 256) as u8, (v / 16777216) as u8];
    assert(r@ =~= le32(v));
    r
}

/// Appends the little-endian bytes of `v` to `out`.
pub fn push_u32_le(out: &mut Vec<u8>, v: u32)
    ensures
        final(out)@ == old(out)@ + le32(v),
{
    let b = u32_le_bytes(v);
    out.push(b[0]);
    out.push(b[1]);
    out.push(b[2]);
    out.push(b[3]);
    assert(out@ =~= old(out)@ + le32(v));
}

/// Appends the little-endian bytes of a signed `v` to `out`.
pub fn push_i32_le(out: &mut Vec<u8>, v: i32)
    ensures
        final(out)@ == old(out)@ + le_i32(v),
{
    push_u32_le(out, v as u32);
}

/// The value of the four bytes of `input` at `offset`, least significant first,
/// or `None` when they do not all lie inside `input`.
pub fn read_u32(input: &[u8], offset: usize) -> (r: Option<u32>)
    requires
        offset + 4 <= usize::MAX,
    ensures
        r == (if offset + 4 <= input@.len() {
            Some(from_le32(input@.subrange(offset as int, offset + 4)))
        } else {
            None
        }),
{
    if offset + 4 <= input.len() {
        let v = input[offset] as u32 + 256 * (input[offset + 1] as u32) + 65536 * (
        input[offset + 2] as u32) + 16777216 * (input[offset + 3] as u32);
        assert(input@.subrange(offset as int, offset + 4)[3] == input@[offset + 3]);
        Some(v)
    } else {
        None
    }
}

/// The signed value of the four bytes of `input` at `offset`, least significant
/// first, or `None` when they do not all lie inside `input`.
pub fn read_i32(input: &[u8], offset: usize) -> (r: Option<i32>)
    requires
        offset + 4 <= usize::MAX,
    ensures
        r == (if offset + 4 <= input@.len() {
            Some(from_le_i32(input@.subrange(offset as int, offset + 4)))
        } else {
            None
        }),
{
    match read_u32(input, offset) {
        Some(v) => Some(v as i32),
        None => None,
    }
}

} // verus!
