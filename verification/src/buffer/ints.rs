use vstd::prelude::*;

verus! {

/// The unsigned 32-bit value with the same two's-complement bit pattern as a
/// signed one.
pub open spec fn spec_u32_of_i32(v: i32) -> u32 {
    if v >= 0 {
        v as u32
    } else {
        (v + 0x1_0000_0000) as u32
    }
}

/// The signed 32-bit value with the same two's-complement bit pattern as an
/// unsigned one.
pub open spec fn spec_i32_of_u32(x: u32) -> i32 {
    if x < 0x8000_0000 {
        x as i32
    } else {
        (x - 0x1_0000_0000) as i32
    }
}

/// The unsigned 16-bit value with the same bit pattern as a signed one.
pub open spec fn spec_u16_of_i16(v: i16) -> u16 {
    if v >= 0 {
        v as u16
    } else {
        (v + 0x1_0000) as u16
    }
}

/// The signed 16-bit value with the same bit pattern as an unsigned one.
pub open spec fn spec_i16_of_u16(x: u16) -> i16 {
    if x < 0x8000 {
        x as i16
    } else {
        (x - 0x1_0000) as i16
    }
}

pub fn u32_of_i32(v: i32) -> (r: u32)
    ensures
        r == spec_u32_of_i32(v),
{
    if v >= 0 {
        v as u32
    } else {
        ((v as i64) + 0x1_0000_0000) as u32
    }
}

pub fn i32_of_u32(x: u32) -> (r: i32)
    ensures
        r == spec_i32_of_u32(x),
{
    if x < 0x8000_0000 {
        x as i32
    } else {
        ((x as i64) - 0x1_0000_0000) as i32
    }
}

pub fn u16_of_i16(v: i16) -> (r: u16)
    ensures
        r == spec_u16_of_i16(v),
{
    if v >= 0 {
        v as u16
    } else {
        ((v as i32) + 0x1_0000) as u16
    }
}

pub fn i16_of_u16(x: u16) -> (r: i16)
    ensures
        r == spec_i16_of_u16(x),
{
    if x < 0x8000 {
        x as i16
    } else {
        ((x as i32) - 0x1_0000) as i16
    }
}

/// The 4-byte little-endian form of an unsigned 32-bit value.
pub open spec fn spec_le32(x: u32) -> Seq<u8> {
    seq![
        (x & 0xff) as u8,
        ((x >> 8) & 0xff) as u8,
        ((x >> 16) & 0xff) as u8,
        ((x >> 24) & 0xff) as u8,
    ]
}

/// The unsigned 32-bit value held by 4 little-endian bytes.
pub open spec fn spec_from_le32(s: Seq<u8>) -> u32
    recommends
        s.len() == 4,
{
    (s[0] as u32) | ((s[1] as u32) << 8) | ((s[2] as u32) << 16) | ((s[3] as u32) << 24)
}

/// The 2-byte little-endian form of an unsigned 16-bit value.
pub open spec fn spec_le16(x: u16) -> Seq<u8> {
    seq![(x & 0xff) as u8, ((x >> 8) & 0xff) as u8]
}

/// The unsigned 16-bit value held by 2 little-endian bytes.
pub open spec fn spec_from_le16(s: Seq<u8>) -> u16
    recommends
        s.len() == 2,
{
    (s[0] as u16) | ((s[1] as u16) << 8)
}

/// The little-endian conversions are mutually inverse.
pub proof fn lemma_le32_inverse()
    ensures
        forall|x: u32| (#[trigger] spec_le32(x)).len() == 4 && spec_from_le32(spec_le32(x)) == x,
        forall|s: Seq<u8>| s.len() == 4 ==> #[trigger] spec_le32(spec_from_le32(s)) == s,
{
    assert forall|x: u32| (#[trigger] spec_le32(x)).len() == 4 && spec_from_le32(spec_le32(x))
        == x by {
        assert(x & 0xff < 256 && (x >> 8) & 0xff < 256 && (x >> 16) & 0xff < 256 && (x >> 24)
            & 0xff < 256) by (bit_vector);
        assert((x & 0xff) | (((x >> 8) & 0xff) << 8) | (((x >> 16) & 0xff) << 16) | (((x >> 24)
            & 0xff) << 24) == x) by (bit_vector);
    }
    assert forall|s: Seq<u8>| s.len() == 4 implies #[trigger] spec_le32(spec_from_le32(s)) == s by {
        let b0 = s[0] as u32;
        let b1 = s[1] as u32;
        let b2 = s[2] as u32;
        let b3 = s[3] as u32;
        let x = spec_from_le32(s);
        assert((b0 < 256 && b1 < 256 && b2 < 256 && b3 < 256) ==> {
            let y = b0 | (b1 << 8) | (b2 << 16) | (b3 << 24);
            (y & 0xff == b0) && ((y >> 8) & 0xff == b1) && ((y >> 16) & 0xff == b2) && ((y >> 24)
                & 0xff == b3)
        }) by (bit_vector);
        assert(spec_le32(x) =~= s);
    }
}

/// Splits an unsigned 32-bit value into its little-endian bytes.
pub fn le32_bytes(x: u32) -> (r: Vec<u8>)
    ensures
        r@ == spec_le32(x),
{
    proof {
        assert(x & 0xff < 256 && (x >> 8) & 0xff < 256 && (x >> 16) & 0xff < 256 && (x >> 24)
            & 0xff < 256) by (bit_vector);
    }
    let mut r: Vec<u8> = Vec::new();
    r.push((x & 0xff) as u8);
    r.push(((x >> 8) & 0xff) as u8);
    r.push(((x >> 16) & 0xff) as u8);
    r.push(((x >> 24) & 0xff) as u8);
    proof {
        assert(r@ =~= spec_le32(x));
    }
    r
}

/// Splits an unsigned 16-bit value into its little-endian bytes.
pub fn le16_bytes(x: u16) -> (r: Vec<u8>)
    ensures
        r@ == spec_le16(x),
{
    proof {
        assert(x & 0xff < 256 && (x >> 8) & 0xff < 256) by (bit_vector);
    }
    let mut r: Vec<u8> = Vec::new();
    r.push((x & 0xff) as u8);
    r.push(((x >> 8) & 0xff) as u8);
    proof {
        assert(r@ =~= spec_le16(x));
    }
    r
}

/// Assembles an unsigned 32-bit value from its little-endian bytes.
pub fn from_le32(b0: u8, b1: u8, b2: u8, b3: u8) -> (r: u32)
    ensures
        r == spec_from_le32(seq![b0, b1, b2, b3]),
{
    (b0 as u32) | ((b1 as u32) << 8u32) | ((b2 as u32) << 16u32) | ((b3 as u32) << 24u32)
}

/// Assembles an unsigned 16-bit value from its little-endian bytes.
pub fn from_le16(b0: u8, b1: u8) -> (r: u16)
    ensures
        r == spec_from_le16(seq![b0, b1]),
{
    (b0 as u16) | ((b1 as u16) << 8u16)
}

/// Little-endian wire encoding of a signed 32-bit integer.
pub open spec fn spec_enc_i32(v: i32) -> Seq<u8> {
    spec_le32(spec_u32_of_i32(v))
}

/// Little-endian wire encoding of a signed 16-bit integer.
pub open spec fn spec_enc_i16(v: i16) -> Seq<u8> {
    spec_le16(spec_u16_of_i16(v))
}

/// A sequence of `n` zero bytes.
pub open spec fn spec_zeros(n: int) -> Seq<u8> {
    Seq::new(n as nat, |i: int| 0u8)
}

} // verus!
