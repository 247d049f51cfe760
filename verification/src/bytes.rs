//! Numbers in bytes.

use vstd::arithmetic::power2::{
    lemma2_to64, lemma_pow2_adds, lemma_pow2_strictly_increases, pow2,
};
use vstd::prelude::*;

verus! {

/// The number that two bytes spell, lowest first.
pub open spec fn le16(b: Seq<u8>, at: int) -> int {
    b[at] + 0x100 * b[at + 1]
}

/// The number that four bytes spell, lowest first.
pub open spec fn le32(b: Seq<u8>, at: int) -> int {
    le16(b, at) + 0x1_0000 * le16(b, at + 2)
}

/// The number that `n` bytes from `at` on spell in network order.
pub open spec fn be(b: Seq<u8>, at: int, n: nat) -> int
    decreases n,
{
    if n == 0 {
        0
    } else {
        0x100 * be(b, at, (n - 1) as nat) + b[at + n - 1]
    }
}

/// Reads a two-byte number, lowest byte first.
pub fn read_le16(b: &[u8], at: usize) -> (r: u16)
    requires
        at + 2 <= b.len(),
    ensures
        r == le16(b@, at as int),
{
    b[at] as u16 + 0x100 * (b[at + 1] as u16)
}

/// Reads a four-byte number, lowest byte first.
pub fn read_le32(b: &[u8], at: usize) -> (r: u32)
    requires
        at + 4 <= b.len(),
    ensures
        r == le32(b@, at as int),
{
    read_le16(b, at) as u32 + 0x1_0000 * (read_le16(b, at + 2) as u32)
}

/// The number that up to sixteen bytes spell in network order.
pub fn read_be(b: &[u8], at: usize, n: usize) -> (r: u128)
    requires
        n <= 16,
        at + n <= b.len(),
    ensures
        r == be(b@, at as int, n as nat),
        r < pow2(8 * n as nat),
{
    let mut r: u128 = 0;
    proof {
        lemma2_to64();
    }
    for i in 0..n
        invariant
            n <= 16,
            at + n <= b.len(),
            r == be(b@, at as int, i as nat),
            r < pow2(8 * i as nat),
    {
        proof {
            lemma_byte_shift(i as nat);
        }
        r = 0x100 * r + b[at + i] as u128;
    }
    r
}

proof fn lemma_byte_shift(i: nat)
    requires
        i < 16,
    ensures
        0x100 * pow2(8 * i) == pow2(8 * (i + 1)),
        pow2(8 * (i + 1)) <= 0x1_0000_0000_0000_0000_0000_0000_0000_0000,
{
    lemma2_to64();
    lemma_pow2_adds(8 * i, 8);
    lemma_pow2_adds(64, 64);
    if i < 15 {
        lemma_pow2_strictly_increases(8 * (i + 1), 128);
    }
}

/// The number that no bytes spell is zero, one byte spells itself, and more bytes spell what the
/// first of them spell, moved up by the size of the rest, and what the rest spell: the first byte
/// counts most.
pub proof fn law_be_is_network_order(b: Seq<u8>, at: int, m: nat, n: nat)
    ensures
        be(b, at, 0) == 0,
        be(b, at, 1) == b[at],
        be(b, at, 2) == 0x100 * b[at] + b[at + 1],
        be(b, at, 4) == 0x100_0000 * b[at] + 0x1_0000 * b[at + 1] + 0x100 * b[at + 2] + b[at + 3],
        be(b, at, m + n) == pow2(8 * n) * be(b, at, m) + be(b, at + m, n),
        0 <= be(b, at, n) < pow2(8 * n),
    decreases n,
{
    reveal_with_fuel(be, 5);
    lemma2_to64();
    if n > 0 {
        law_be_is_network_order(b, at, m, (n - 1) as nat);
        lemma_pow2_adds(8, 8 * (n - 1) as nat);
        let (p, x) = (pow2(8 * (n - 1) as nat) as int, be(b, at, m));
        assert((m + n - 1) as nat == m + (n - 1) as nat);
        assert(at + (m + n) - 1 == at + m + n - 1);
        assert(0x100 * (p * x) == (0x100 * p) * x) by (nonlinear_arith);
        assert(8 + 8 * (n - 1) as nat == 8 * n);
    } else {
        assert(pow2(0) * be(b, at, m) == be(b, at, m)) by (nonlinear_arith)
            requires
                pow2(0) == 1,
        ;
    }
}

/// The lowest byte comes first: each byte counts 256 times as much as the one before it.
pub proof fn law_le_is_lowest_first(b: Seq<u8>, at: int)
    ensures
        le16(b, at) == b[at] + 0x100 * b[at + 1],
        le32(b, at) == b[at] + 0x100 * b[at + 1] + 0x1_0000 * b[at + 2] + 0x100_0000 * b[at + 3],
{
}

} // verus!
