//! Whole numbers as bytes, in either order.
use vstd::prelude::*;

verus! {

/// The 16-bit number whose low byte stands at `at` and whose high byte follows.
pub open spec fn le16(b: Seq<u8>, at: int) -> u16 {
    (b[at] + b[at + 1] * 0x100) as u16
}

/// The 32-bit number whose four bytes stand at `at`, the highest first.
pub open spec fn be32(b: Seq<u8>, at: int) -> u32 {
    (b[at] * 0x100_0000 + b[at + 1] * 0x1_0000 + b[at + 2] * 0x100 + b[at + 3]) as u32
}

/// The 32-bit number whose four bytes stand at `at`, the lowest first.
pub open spec fn le32(b: Seq<u8>, at: int) -> u32 {
    (b[at] + b[at + 1] * 0x100 + b[at + 2] * 0x1_0000 + b[at + 3] * 0x100_0000) as u32
}

/// The 64-bit number whose eight bytes stand at `at`, the highest first.
pub open spec fn be64(b: Seq<u8>, at: int) -> u64 {
    (be32(b, at) * 0x1_0000_0000 + be32(b, at + 4)) as u64
}

/// The bytes of a 16-bit number, the lowest first.
pub open spec fn le16_bytes(n: u16) -> Seq<u8> {
    seq![(n % 0x100) as u8, (n / 0x100) as u8]
}

/// The bytes of a 32-bit number, the highest first.
pub open spec fn be32_bytes(n: u32) -> Seq<u8> {
    seq![
        (n / 0x100_0000) as u8,
        (n / 0x1_0000 % 0x100) as u8,
        (n / 0x100 % 0x100) as u8,
        (n % 0x100) as u8,
    ]
}

/// The bytes of a 64-bit number, the highest first.
pub open spec fn be64_bytes(n: u64) -> Seq<u8> {
    be32_bytes((n / 0x1_0000_0000) as u32) + be32_bytes((n % 0x1_0000_0000) as u32)
}

/// Reads a 16-bit number, the low byte first.
pub fn read_le16(b: &[u8], at: usize) -> (r: u16)
    requires
        at + 2 <= b@.len(),
    ensures
        r == le16(b@, at as int),
{
    b[at] as u16 + b[at + 1] as u16 * 0x100
}

/// Reads a 32-bit number, the high byte first.
pub fn read_be32(b: &[u8], at: usize) -> (r: u32)
    requires
        at + 4 <= b@.len(),
    ensures
        r == be32(b@, at as int),
{
    b[at] as u32 * 0x100_0000 + b[at + 1] as u32 * 0x1_0000 + b[at + 2] as u32 * 0x100
        + b[at + 3] as u32
}

/// Reads a 32-bit number, the low byte first.
pub fn read_le32(b: &[u8], at: usize) -> (r: u32)
    requires
        at + 4 <= b@.len(),
    ensures
        r == le32(b@, at as int),
{
    b[at] as u32 + b[at + 1] as u32 * 0x100 + b[at + 2] as u32 * 0x1_0000 + b[at + 3] as u32
        * 0x100_0000
}

/// Reads a 64-bit number, the high byte first.
pub fn read_be64(b: &[u8], at: usize) -> (r: u64)
    requires
        at + 8 <= b@.len(),
    ensures
        r == be64(b@, at as int),
{
    assert(at + 8 <= b.len());
    read_be32(b, at) as u64 * 0x1_0000_0000 + read_be32(b, at + 4) as u64
}

/// The bytes of a number, the lowest first, give the number back.
pub proof fn lemma_le16(b: Seq<u8>, at: int, n: u16)
    requires
        0 <= at,
        at + 2 <= b.len(),
        b.subrange(at, at + 2) == le16_bytes(n),
    ensures
        le16(b, at) == n,
{
    let s = b.subrange(at, at + 2);
    assert(s[0] == b[at] && s[1] == b[at + 1]);
}

/// The bytes of a number, the highest first, give the number back.
pub proof fn lemma_be32(b: Seq<u8>, at: int, n: u32)
    requires
        0 <= at,
        at + 4 <= b.len(),
        b.subrange(at, at + 4) == be32_bytes(n),
    ensures
        be32(b, at) == n,
{
    let s = b.subrange(at, at + 4);
    assert(s[0] == b[at] && s[1] == b[at + 1] && s[2] == b[at + 2] && s[3] == b[at + 3]);
}

/// The bytes of a number, the highest first, give the number back.
pub proof fn lemma_be64(b: Seq<u8>, at: int, n: u64)
    requires
        0 <= at,
        at + 8 <= b.len(),
        b.subrange(at, at + 8) == be64_bytes(n),
    ensures
        be64(b, at) == n,
{
    let s = b.subrange(at, at + 8);
    assert(b.subrange(at, at + 4) =~= s.subrange(0, 4));
    assert(b.subrange(at + 4, at + 8) =~= s.subrange(4, 8));
    assert(s.subrange(0, 4) =~= be32_bytes((n / 0x1_0000_0000) as u32));
    assert(s.subrange(4, 8) =~= be32_bytes((n % 0x1_0000_0000) as u32));
    lemma_be32(b, at, (n / 0x1_0000_0000) as u32);
    lemma_be32(b, at + 4, (n % 0x1_0000_0000) as u32);
}

/// Of two numbers with the highest byte first, the first byte in which they differ tells which is
/// larger; and the last byte counts single units.
pub proof fn law_high_bytes_decide(b: Seq<u8>, c: Seq<u8>, i: int)
    requires
        b.len() >= 8,
        c.len() >= 8,
        0 <= i < 8,
        forall|j: int| 0 <= j < i ==> #[trigger] b[j] == c[j],
        b[i] < c[i],
    ensures
        i < 4 ==> be32(b, 0) < be32(c, 0),
        be64(b, 0) < be64(c, 0),
        b[0] == 0 && b[1] == 0 && b[2] == 0 ==> be32(b, 0) == b[3],
{
}

/// A number with the lowest byte first is the one that its bytes make in the other order.
pub proof fn law_byte_orders_mirror(b: Seq<u8>)
    requires
        b.len() == 4,
    ensures
        le32(b, 0) == be32(b.reverse(), 0),
        le16(b, 0) == be32(seq![0u8, 0u8, b[1], b[0]], 0),
{
}

} // verus!
