use vstd::prelude::*;

verus! {

/// The four bytes that hold `x` in big-endian order: the most significant
/// byte comes first.
pub open spec fn be_bytes(x: u32) -> Seq<u8> {
    seq![
        (x / 0x100_0000) as u8,
        (x / 0x1_0000 % 0x100) as u8,
        (x / 0x100 % 0x100) as u8,
        (x % 0x100) as u8,
    ]
}

/// The number that four bytes hold in big-endian order.
pub open spec fn be_value(s: Seq<u8>) -> u32
    recommends
        s.len() == 4,
{
    (s[0] * 0x100_0000 + s[1] * 0x1_0000 + s[2] * 0x100 + s[3]) as u32
}

/// Writing a number down in big-endian order and reading it back gives the
/// number again.
pub proof fn lemma_be_value_of_bytes(x: u32)
    ensures
        be_bytes(x).len() == 4,
        be_value(be_bytes(x)) == x,
{
}

/// Reading four bytes in big-endian order and writing the number down again
/// gives the same four bytes.
pub proof fn lemma_be_bytes_of_value(s: Seq<u8>)
    requires
        s.len() == 4,
    ensures
        be_bytes(be_value(s)) == s,
{
    let a = s[0] as u32;
    let b = s[1] as u32;
    let c = s[2] as u32;
    let d = s[3] as u32;
    let v = (a * 0x100_0000 + b * 0x1_0000 + c * 0x100 + d) as u32;
    assert(v == be_value(s));
    assert(a < 0x100 && b < 0x100 && c < 0x100 && d < 0x100 && v == a * 0x100_0000 + b * 0x1_0000
        + c * 0x100 + d ==> v / 0x100_0000 == a && v / 0x1_0000 % 0x100 == b && v / 0x100 % 0x100
        == c && v % 0x100 == d) by (bit_vector);
    assert(be_bytes(v) =~= s);
}

/// `x` in big-endian order.
pub fn u32_to_be_bytes(x: u32) -> (r: [u8; 4])
    ensures
        r@ == be_bytes(x),
{
    let b0: u8 = (x >> 24) as u8;
    let b1: u8 = ((x >> 16) & 0xff) as u8;
    let b2: u8 = ((x >> 8) & 0xff) as u8;
    let b3: u8 = (x & 0xff) as u8;
    proof {
        assert(x >> 24 == x / 0x100_0000 && x >> 24 < 0x100) by (bit_vector);
        assert((x >> 16) & 0xff == x / 0x1_0000 % 0x100) by (bit_vector);
        assert((x >> 8) & 0xff == x / 0x100 % 0x100) by (bit_vector);
        assert(x & 0xff == x % 0x100) by (bit_vector);
    }
    let r = [b0, b1, b2, b3];
    assert(r@ =~= be_bytes(x));
    r
}

/// The number that `b` holds in big-endian order.
pub fn u32_from_be_bytes(b: [u8; 4]) -> (r: u32)
    ensures
        r == be_value(b@),
{
    let b0: u32 = b[0] as u32;
    let b1: u32 = b[1] as u32;
    let b2: u32 = b[2] as u32;
    let b3: u32 = b[3] as u32;
    proof {
        assert(b0 < 0x100 && b1 < 0x100 && b2 < 0x100 && b3 < 0x100 ==> (b0 << 24) | (b1 << 16) | (
        b2 << 8) | b3 == b0 * 0x100_0000 + b1 * 0x1_0000 + b2 * 0x100 + b3) by (bit_vector);
    }
    (b0 << 24) | (b1 << 16) | (b2 << 8) | b3
}

} // verus!
