//! Round function primitives for Feistel networks.

use vstd::prelude::*;
use crate::bits::{rotl32, rotate_left_u32, popcount, lemma_popcount_bound};
use crate::sbox::{SBox, AES_SBOX, aes_sbox};
use vstd::arithmetic::power2::lemma2_to64;

verus! {

/// A round function suitable for use in Feistel networks.
pub trait RoundFunction {
    /// The value of the round function on a half-block and a round key.
    spec fn round_value(&self, input: u32, round_key: u64) -> u32;

    /// Apply the round function to the input half-block using the given round key.
    fn round(&self, input: u32, round_key: u64) -> (output: u32)
        ensures
            output == self.round_value(input, round_key),
    ;
}

/// The simple round function on the S-box table `t`: substitute each byte of
/// the input, mix in the low key word, rotate left by 7, mix in the high key
/// word, rotate left by 11.
pub open spec fn simple_round_value(t: Seq<u8>, input: u32, round_key: u64) -> u32 {
    let b0 = t[((input & 0xFFu32) as u8) as int];
    let b1 = t[(((input >> 8u32) & 0xFFu32) as u8) as int];
    let b2 = t[(((input >> 16u32) & 0xFFu32) as u8) as int];
    let b3 = t[(((input >> 24u32) & 0xFFu32) as u8) as int];
    let substituted = (b0 as u32) | ((b1 as u32) << 8u32) | ((b2 as u32) << 16u32) | ((b3 as u32)
        << 24u32);
    let mixed = substituted ^ ((round_key & 0xFFFF_FFFFu64) as u32);
    let turned = rotl32(mixed, 7);
    let mixed_again = turned ^ (((round_key >> 32u64) & 0xFFFF_FFFFu64) as u32);
    rotl32(mixed_again, 11)
}

/// A simple round function using S-box substitution, rotation, and key mixing.
pub struct SimpleRound {
    sbox: SBox,
}

impl SimpleRound {
    /// The table of the S-box this round function substitutes with.
    pub closed spec fn sbox_table(&self) -> Seq<u8> {
        self.sbox@
    }

    /// Create a new simple round function with the given S-box.
    pub fn new(sbox: SBox) -> (r: Self)
        ensures
            r.sbox_table() == sbox@,
    {
        SimpleRound { sbox }
    }

    /// Create with the AES S-box.
    pub fn aes() -> (r: Self)
        ensures
            r.sbox_table() == AES_SBOX@,
    {
        SimpleRound { sbox: aes_sbox() }
    }
}

impl RoundFunction for SimpleRound {
    open spec fn round_value(&self, input: u32, round_key: u64) -> u32 {
        simple_round_value(self.sbox_table(), input, round_key)
    }

    fn round(&self, input: u32, round_key: u64) -> (output: u32) {
        let b0 = self.sbox.substitute((input & 0xFF) as u8);
        let b1 = self.sbox.substitute(((input >> 8) & 0xFF) as u8);
        let b2 = self.sbox.substitute(((input >> 16) & 0xFF) as u8);
        let b3 = self.sbox.substitute(((input >> 24) & 0xFF) as u8);

        let mut out = (b0 as u32) | ((b1 as u32) << 8) | ((b2 as u32) << 16) | ((b3 as u32) << 24);

        // Mix with round key
        out ^= (round_key & 0xFFFFFFFF) as u32;
        // Rotate
        out = rotate_left_u32(out, 7);
        // Second key mix
        out ^= ((round_key >> 32) & 0xFFFFFFFF) as u32;
        out = rotate_left_u32(out, 11);

        out
    }
}

/// How many output bits of `f` flip when input bit `bit` flips.
pub open spec fn flip_count<F: RoundFunction>(f: &F, input: u32, key: u64, bit: nat) -> nat {
    popcount((f.round_value(input, key) ^ f.round_value(input ^ (1u32 << (bit as u32)), key)) as nat)
}

/// The fewest flipped output bits over input bits `0..n` (`u32::MAX` for none).
pub open spec fn min_flips<F: RoundFunction>(f: &F, input: u32, key: u64, n: nat) -> int
    decreases n,
{
    if n == 0 {
        u32::MAX as int
    } else {
        let rest = min_flips(f, input, key, (n - 1) as nat);
        let here = flip_count(f, input, key, (n - 1) as nat) as int;
        if here < rest {
            here
        } else {
            rest
        }
    }
}

/// The most flipped output bits over input bits `0..n` (0 for none).
pub open spec fn max_flips<F: RoundFunction>(f: &F, input: u32, key: u64, n: nat) -> int
    decreases n,
{
    if n == 0 {
        0
    } else {
        let rest = max_flips(f, input, key, (n - 1) as nat);
        let here = flip_count(f, input, key, (n - 1) as nat) as int;
        if here > rest {
            here
        } else {
            rest
        }
    }
}

/// The total of flipped output bits over input bits `0..n`.
pub open spec fn total_flips<F: RoundFunction>(f: &F, input: u32, key: u64, n: nat) -> int
    decreases n,
{
    if n == 0 {
        0
    } else {
        total_flips(f, input, key, (n - 1) as nat) + flip_count(f, input, key, (n - 1) as nat)
    }
}

/// Over the input bits below `n`, `min_flips` and `max_flips` are the
/// least and the greatest flip count: every count lies between them and
/// each of them is the count of some bit.
pub proof fn lemma_flip_extremes<F: RoundFunction>(f: &F, input: u32, key: u64, n: nat)
    ensures
        forall|b: nat|
            b < n ==> min_flips(f, input, key, n) <= #[trigger] flip_count(f, input, key, b)
                <= max_flips(f, input, key, n),
        n > 0 ==> exists|b: nat| b < n && min_flips(f, input, key, n) == #[trigger] flip_count(f, input, key, b),
        n > 0 ==> exists|b: nat| b < n && max_flips(f, input, key, n) == #[trigger] flip_count(f, input, key, b),
    decreases n,
{
    if n > 0 {
        let m = (n - 1) as nat;
        lemma_flip_extremes(f, input, key, m);
        let here = flip_count(f, input, key, m);
        lemma2_to64();
        lemma_popcount_bound(
            (f.round_value(input, key) ^ f.round_value(input ^ (1u32 << (m as u32)), key)) as nat,
            32,
        );
        assert(here <= 32);
        if min_flips(f, input, key, n) != here {
            let b = choose|b: nat| b < m && min_flips(f, input, key, m) == #[trigger] flip_count(f, input, key, b);
            assert(min_flips(f, input, key, n) == flip_count(f, input, key, b));
        }
        if max_flips(f, input, key, n) != here {
            let b = choose|b: nat| b < m && max_flips(f, input, key, m) == #[trigger] flip_count(f, input, key, b);
            assert(max_flips(f, input, key, n) == flip_count(f, input, key, b));
        }
        assert forall|b: nat| b < n implies min_flips(f, input, key, n) <= #[trigger] flip_count(f, input, key, b)
            <= max_flips(f, input, key, n) by {
            if b < m {
            } else {
                assert(b == m);
            }
        }
    }
}

/// The avalanche counts of `f` at `input` under `key`: over the 32
/// single-bit changes of the input, the fewest, the most and the total
/// number of output bits that flip. Their average is the avalanche score.
pub fn avalanche_counts<F: RoundFunction>(f: &F, input: u32, key: u64) -> (counts: (u32, u32, u32))
    ensures
        counts.0 == min_flips(f, input, key, 32),
        counts.1 == max_flips(f, input, key, 32),
        counts.2 == total_flips(f, input, key, 32),
        forall|b: nat| b < 32 ==> counts.0 <= #[trigger] flip_count(f, input, key, b) <= counts.1,
        exists|b: nat| b < 32 && counts.0 == #[trigger] flip_count(f, input, key, b),
        exists|b: nat| b < 32 && counts.1 == #[trigger] flip_count(f, input, key, b),
{
    proof {
        lemma_flip_extremes(f, input, key, 32);
    }
    let base = f.round(input, key);
    let mut min_flip = u32::MAX;
    let mut max_flip = 0u32;
    let mut total_flip = 0u32;
    let n: u32 = 32;

    let mut bit: u32 = 0;
    while bit < n
        invariant
            n == 32,
            bit <= n,
            base == f.round_value(input, key),
            min_flip == min_flips(f, input, key, bit as nat),
            max_flip == max_flips(f, input, key, bit as nat),
            total_flip == total_flips(f, input, key, bit as nat),
            total_flip <= 32 * bit,
        decreases n - bit,
    {
        let flipped = input ^ (1u32 << bit);
        let out = f.round(flipped, key);
        let diff = (base ^ out).count_ones();
        proof {
            lemma2_to64();
            lemma_popcount_bound((base ^ out) as nat, 32);
        }
        if diff < min_flip {
            min_flip = diff;
        }
        if diff > max_flip {
            max_flip = diff;
        }
        total_flip += diff;
        bit += 1;
    }
    (min_flip, max_flip, total_flip)
}

} // verus!
