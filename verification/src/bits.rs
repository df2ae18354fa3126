//! Bit-level helpers shared by the cipher components: rotations, block
//! halves, single-bit views and population counts.

use vstd::prelude::*;
use vstd::arithmetic::power2::{pow2, lemma2_to64, lemma_pow2_unfold};

verus! {

/// `x` rotated left by `n` bits (for `0 < n < 32`).
pub open spec fn rotl32(x: u32, n: u32) -> u32 {
    (x << n) | (x >> ((32 - n) as u32))
}

/// `x` rotated right by `n` bits (for `0 < n < 32`): a left rotation by `32 - n`.
pub open spec fn rotr32(x: u32, n: u32) -> u32 {
    rotl32(x, (32 - n) as u32)
}

/// `x` rotated right by `n` bits (for `0 < n < 64`).
pub open spec fn rotr64(x: u64, n: u64) -> u64 {
    (x >> n) | (x << ((64 - n) as u64))
}

/// Rotates a 32-bit word left by `n` bits.
pub fn rotate_left_u32(x: u32, n: u32) -> (r: u32)
    requires
        0 < n < 32,
    ensures
        r == rotl32(x, n),
{
    (x << n) | (x >> (32 - n))
}

/// Rotates a 32-bit word right by `n` bits, which is a left rotation by `32 - n`.
pub fn rotate_right_u32(x: u32, n: u32) -> (r: u32)
    requires
        0 < n < 32,
    ensures
        r == rotr32(x, n),
{
    rotate_left_u32(x, 32 - n)
}

/// Rotates a 64-bit word right by `n` bits.
pub fn rotate_right_u64(x: u64, n: u64) -> (r: u64)
    requires
        0 < n < 64,
    ensures
        r == rotr64(x, n),
{
    (x >> n) | (x << (64 - n))
}

/// The upper 32 bits of a 64-bit block.
pub open spec fn high_half(block: u64) -> u32 {
    (block >> 32u64) as u32
}

/// The lower 32 bits of a 64-bit block.
pub open spec fn low_half(block: u64) -> u32 {
    (block & 0xFFFF_FFFFu64) as u32
}

/// The 64-bit block whose upper half is `hi` and lower half is `lo`.
pub open spec fn join_halves(hi: u32, lo: u32) -> u64 {
    ((hi as u64) << 32u64) | (lo as u64)
}

/// Splitting a joined block gives back its halves.
pub proof fn lemma_split_join(hi: u32, lo: u32)
    ensures
        high_half(join_halves(hi, lo)) == hi,
        low_half(join_halves(hi, lo)) == lo,
{
    assert((((hi as u64) << 32u64) | (lo as u64)) >> 32u64 == hi as u64) by (bit_vector);
    assert(((((hi as u64) << 32u64) | (lo as u64)) & 0xFFFF_FFFFu64) as u32 == lo) by (bit_vector);
}

/// Joining the halves of a block gives back the block.
pub proof fn lemma_join_split(block: u64)
    ensures
        join_halves(high_half(block), low_half(block)) == block,
{
    assert(((((block >> 32u64) as u32) as u64) << 32u64) | (((block & 0xFFFF_FFFFu64) as u32) as u64)
        == block) by (bit_vector);
}

/// Splits a block into its (upper, lower) halves.
pub fn split_block(block: u64) -> (halves: (u32, u32))
    ensures
        halves.0 == high_half(block),
        halves.1 == low_half(block),
{
    ((block >> 32) as u32, (block & 0xFFFF_FFFF) as u32)
}

/// Joins an upper and a lower half into a block.
pub fn join_block(hi: u32, lo: u32) -> (block: u64)
    ensures
        block == join_halves(hi, lo),
{
    ((hi as u64) << 32) | (lo as u64)
}

/// Bit `j` of `x` is set.
pub open spec fn bit(x: u64, j: int) -> bool {
    (x >> (j as u64)) & 1u64 == 1u64
}

/// A bit of an OR is set exactly when it is set in either operand.
pub proof fn lemma_bit_or(a: u64, b: u64, j: int)
    requires
        0 <= j < 64,
    ensures
        bit(a | b, j) == (bit(a, j) || bit(b, j)),
{
    let k = j as u64;
    assert(((a | b) >> k) & 1u64 == 1u64 <==> ((a >> k) & 1u64 == 1u64 || (b >> k) & 1u64 == 1u64))
        by (bit_vector);
}

/// `1 << k` has bit `k` set and no other.
pub proof fn lemma_bit_single(k: int, j: int)
    requires
        0 <= k < 64,
        0 <= j < 64,
    ensures
        bit(1u64 << (k as u64), j) == (k == j),
{
    let kk = k as u64;
    let jj = j as u64;
    assert(((1u64 << kk) >> jj) & 1u64 == 1u64 <==> kk == jj) by (bit_vector)
        requires
            kk < 64,
            jj < 64,
    ;
}

/// Zero has no bit set.
pub proof fn lemma_bit_zero(j: int)
    requires
        0 <= j < 64,
    ensures
        !bit(0u64, j),
{
    let jj = j as u64;
    assert((0u64 >> jj) & 1u64 == 0u64) by (bit_vector);
}

/// Two words that agree on bits `k..64` agree after shifting right by `k`.
proof fn lemma_high_bits_equal(x: u64, y: u64, k: u64)
    requires
        k < 64,
        forall|j: int| k <= j < 64 ==> bit(x, j) == bit(y, j),
    ensures
        x >> k == y >> k,
    decreases 64 - k,
{
    assert(bit(x, k as int) == bit(y, k as int));
    if k == 63 {
        assert(((x >> k) & 1u64 == 1u64) == ((y >> k) & 1u64 == 1u64) ==> x >> k == y >> k)
            by (bit_vector)
            requires
                k == 63,
        ;
    } else {
        lemma_high_bits_equal(x, y, (k + 1) as u64);
        let k1 = (k + 1) as u64;
        assert(x >> k1 == y >> k1 && (((x >> k) & 1u64 == 1u64) == ((y >> k) & 1u64 == 1u64))
            ==> x >> k == y >> k) by (bit_vector)
            requires
                k < 63,
                k1 == k + 1,
        ;
    }
}

/// Two words with the same bits are equal.
pub proof fn lemma_bits_determine(x: u64, y: u64)
    requires
        forall|j: int| 0 <= j < 64 ==> bit(x, j) == bit(y, j),
    ensures
        x == y,
{
    lemma_high_bits_equal(x, y, 0);
    assert(x >> 0u64 == x && y >> 0u64 == y) by (bit_vector);
}

/// The number of one bits in the binary representation of `n`.
pub open spec fn popcount(n: nat) -> nat
    decreases n,
{
    if n == 0 {
        0
    } else {
        n % 2 + popcount(n / 2)
    }
}

/// `u32::count_ones` returns the number of one bits in the binary
/// representation of its argument, as its documentation states.
pub assume_specification[u32::count_ones](x: u32) -> (count: u32)
    ensures
        count == popcount(x as nat),
;

/// A number below `2^k` has at most `k` one bits.
pub proof fn lemma_popcount_bound(n: nat, k: nat)
    requires
        n < pow2(k),
    ensures
        popcount(n) <= k,
    decreases k,
{
    if k == 0 {
        lemma2_to64();
    } else {
        lemma_pow2_unfold(k);
        lemma_popcount_bound(n / 2, (k - 1) as nat);
    }
}

} // verus!
