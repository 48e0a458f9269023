//! Fixed-width integers as byte sequences, in both byte orders.

use vstd::prelude::*;

verus! {

/// The two bytes of `x`, least significant first.
pub open spec fn le16(x: u16) -> Seq<u8> {
    seq![(x % 256) as u8, (x / 256) as u8]
}

/// The two bytes of `x`, most significant first.
pub open spec fn be16(x: u16) -> Seq<u8> {
    seq![(x / 256) as u8, (x % 256) as u8]
}

/// The four bytes of `x`, least significant first.
pub open spec fn le32(x: u32) -> Seq<u8> {
    seq![
        (x % 256) as u8,
        (x / 256 % 256) as u8,
        (x / 65536 % 256) as u8,
        (x / 16777216) as u8,
    ]
}

/// The four bytes of `x`, most significant first.
pub open spec fn be32(x: u32) -> Seq<u8> {
    seq![
        (x / 16777216) as u8,
        (x / 65536 % 256) as u8,
        (x / 256 % 256) as u8,
        (x % 256) as u8,
    ]
}

/// The bytes of `x`, least significant first.
pub fn le16_bytes(x: u16) -> (r: [u8; 2])
    ensures
        r@ == le16(x),
        x == r@[0] + 256 * r@[1],
{
    let r = [(x % 256) as u8, (x / 256) as u8];
    assert(r@ =~= le16(x));
    r
}

/// The bytes of `x`, most significant first.
pub fn be16_bytes(x: u16) -> (r: [u8; 2])
    ensures
        r@ == be16(x),
        x == 256 * r@[0] + r@[1],
{
    let r = [(x / 256) as u8, (x % 256) as u8];
    assert(r@ =~= be16(x));
    r
}

/// The bytes of `x`, least significant first.
pub fn le32_bytes(x: u32) -> (r: [u8; 4])
    ensures
        r@ == le32(x),
        x == r@[0] + 256 * r@[1] + 65536 * r@[2] + 16777216 * r@[3],
{
    let r = [
        (x % 256) as u8,
        (x / 256 % 256) as u8,
        (x / 65536 % 256) as u8,
        (x / 16777216) as u8,
    ];
    assert(r@ =~= le32(x));
    r
}

/// The bytes of `x`, most significant first.
pub fn be32_bytes(x: u32) -> (r: [u8; 4])
    ensures
        r@ == be32(x),
        x == 16777216 * r@[0] + 65536 * r@[1] + 256 * r@[2] + r@[3],
{
    let r = [
        (x / 16777216) as u8,
        (x / 65536 % 256) as u8,
        (x / 256 % 256) as u8,
        (x % 256) as u8,
    ];
    assert(r@ =~= be32(x));
    r
}

/// The value whose bytes are `b0`, `b1`, least significant first.
pub fn le16_value(b0: u8, b1: u8) -> (x: u16)
    ensures
        x == b0 + 256 * b1,
        le16(x) == seq![b0, b1],
{
    let x: u16 = b0 as u16 + 256 * (b1 as u16);
    assert(le16(x) =~= seq![b0, b1]);
    x
}

/// The value whose bytes are `b0`, `b1`, most significant first.
pub fn be16_value(b0: u8, b1: u8) -> (x: u16)
    ensures
        x == 256 * b0 + b1,
        be16(x) == seq![b0, b1],
{
    let x: u16 = 256 * (b0 as u16) + b1 as u16;
    assert(be16(x) =~= seq![b0, b1]);
    x
}

/// The value whose bytes are `b0` to `b3`, least significant first.
pub fn le32_value(b0: u8, b1: u8, b2: u8, b3: u8) -> (x: u32)
    ensures
        x == b0 + 256 * b1 + 65536 * b2 + 16777216 * b3,
        le32(x) == seq![b0, b1, b2, b3],
{
    let x: u32 = b0 as u32 + 256 * (b1 as u32) + 65536 * (b2 as u32) + 16777216 * (b3 as u32);
    assert(x / 256 == b1 + 256 * b2 + 65536 * b3 && x % 256 == b0);
    assert(x / 65536 == b2 + 256 * b3);
    assert(x / 16777216 == b3);
    assert((b1 + 256 * b2 + 65536 * b3) % 256 == b1);
    assert((b2 + 256 * b3) % 256 == b2);
    assert(le32(x) =~= seq![b0, b1, b2, b3]);
    x
}

/// No two values share their little-endian bytes.
pub proof fn le16_injective(a: u16, b: u16)
    requires
        le16(a) == le16(b),
    ensures
        a == b,
{
    assert(le16(a)[0] == le16(b)[0]);
    assert(le16(a)[1] == le16(b)[1]);
}

/// No two values share their little-endian bytes.
pub proof fn le32_injective(a: u32, b: u32)
    requires
        le32(a) == le32(b),
    ensures
        a == b,
{
    assert(le32(a)[0] == le32(b)[0]);
    assert(le32(a)[1] == le32(b)[1]);
    assert(le32(a)[2] == le32(b)[2]);
    assert(le32(a)[3] == le32(b)[3]);
}

/// The bytes of a 16-bit number spell it, in either order.
pub proof fn law_bytes_spell_16(x: u16)
    ensures
        le16(x).len() == 2,
        x == le16(x)[0] + 256 * le16(x)[1],
        be16(x).len() == 2,
        x == 256 * be16(x)[0] + be16(x)[1],
{
}

/// The bytes of a 32-bit number spell it, in either order.
pub proof fn law_bytes_spell_32(x: u32)
    ensures
        le32(x).len() == 4,
        x == le32(x)[0] + 256 * le32(x)[1] + 65536 * le32(x)[2] + 16777216 * le32(x)[3],
        be32(x).len() == 4,
        x == 16777216 * be32(x)[0] + 65536 * be32(x)[1] + 256 * be32(x)[2] + be32(x)[3],
{
}

} // verus!
