//! Key schedule for deriving round keys from a master key.

use vstd::prelude::*;
use crate::bits::{rotr64, rotate_right_u64};

verus! {

/// The 64-bit seed of a master key: starting from a fixed constant, each
/// byte at position `i` is XORed in shifted left by `8 * (i % 8)` bits,
/// then the state is multiplied (wrapping) by a constant and XORed with its
/// right rotation by 47.
pub open spec fn key_seed(key: Seq<u8>) -> u64
    decreases key.len(),
{
    if key.len() == 0 {
        0x517cc1b727220a95u64
    } else {
        let i = key.len() - 1;
        let mixed = key_seed(key.drop_last()) ^ (key.last() as u64).wrapping_shl(
            ((i % 8) * 8) as u32,
        );
        let spread = mixed.wrapping_mul(0x5bd1e9955bd1e995u64);
        spread ^ rotr64(spread, 47)
    }
}

/// How the seed absorbs the key bytes: the empty key has the seed
/// `0x517cc1b727220a95`, and appending a byte `b` to a key `k` XORs `b`
/// into the seed of `k` at bit offset `8 * (k.len() % 8)`, multiplies by
/// `0x5bd1e9955bd1e995` (wrapping) and XORs with the right rotation by 47.
/// Every byte of the key is absorbed, however long the key.
pub proof fn lemma_key_seed_absorbs(k: Seq<u8>, b: u8)
    ensures
        key_seed(Seq::<u8>::empty()) == 0x517cc1b727220a95u64,
        key_seed(k.push(b)) == ({
            let offset = (8 * (k.len() % 8)) as u64;
            let mixed = key_seed(k) ^ ((b as u64) << offset);
            let spread = ((mixed as int * 0x5bd1e9955bd1e995int) % 0x1_0000_0000_0000_0000int) as u64;
            spread ^ rotr64(spread, 47)
        }),
{
    let kb = k.push(b);
    assert(kb.drop_last() =~= k);
    assert(kb.last() == b);
    let i = k.len() as int;
    let sh = ((i % 8) * 8) as u32;
    let offset = (8 * (k.len() % 8)) as u64;
    assert(sh as int == offset as int);
    let bb = b as u64;
    assert(sh < 64);
    assert(bb.wrapping_shl(sh) == bb << (sh % 64u32));
    assert(sh % 64u32 == sh);
    assert(bb << sh == bb << offset) by (bit_vector)
        requires
            sh as u64 == offset,
            sh < 64,
    ;
}

/// The round key for round `round` derived from `seed` by add-rotate-xor
/// mixing: add `round` times the golden-ratio constant, XOR with the right
/// rotation by 17, multiply by a constant, XOR with the right rotation by 31.
pub open spec fn derive_round_key(seed: u64, round: u64) -> u64 {
    let k0 = seed.wrapping_add(round.wrapping_mul(0x9e3779b97f4a7c15u64));
    let k1 = k0 ^ rotr64(k0, 17);
    let k2 = k1.wrapping_mul(0x517cc1b727220a95u64);
    k2 ^ rotr64(k2, 31)
}

/// The round keys for `num_rounds` rounds under `master_key`.
pub open spec fn schedule_keys(master_key: Seq<u8>, num_rounds: nat) -> Seq<u64> {
    Seq::new(num_rounds, |i: int| derive_round_key(key_seed(master_key), i as u64))
}

/// No two round keys are equal.
pub open spec fn all_distinct(keys: Seq<u64>) -> bool {
    forall|i: int, j: int| 0 <= i < j < keys.len() ==> #[trigger] keys[i] != #[trigger] keys[j]
}

/// Key schedule that expands a master key into round subkeys.
#[derive(Clone)]
pub struct KeySchedule {
    /// Round subkeys.
    round_keys: Vec<u64>,
}

impl View for KeySchedule {
    type V = Seq<u64>;

    /// The round subkeys, in round order.
    closed spec fn view(&self) -> Seq<u64> {
        self.round_keys@
    }
}

impl KeySchedule {
    /// Create a new key schedule from a master key and the number of rounds.
    ///
    /// Uses a simple key expansion: each round key is derived by mixing
    /// the master key with the round number using ARX (Add-Rotate-XOR).
    pub fn new(master_key: &[u8], num_rounds: usize) -> (ks: Self)
        ensures
            ks@ == schedule_keys(master_key@, num_rounds as nat),
            ks@.len() == num_rounds,
    {
        // Convert master key to one or more u64 seed values
        let seed = Self::bytes_to_u64(master_key);
        let mut round_keys: Vec<u64> = Vec::new();
        let mut i: usize = 0;
        while i < num_rounds
            invariant
                i <= num_rounds,
                seed == key_seed(master_key@),
                round_keys@ =~= schedule_keys(master_key@, num_rounds as nat).take(i as int),
            decreases num_rounds - i,
        {
            let r = i as u64;
            let mut k = seed;
            k = k.wrapping_add(r.wrapping_mul(0x9e3779b97f4a7c15));
            k ^= rotate_right_u64(k, 17);
            k = k.wrapping_mul(0x517cc1b727220a95);
            k ^= rotate_right_u64(k, 31);
            round_keys.push(k);
            i += 1;
        }
        KeySchedule { round_keys }
    }

    /// Get the round key for a specific round (`round` must be below the
    /// number of rounds).
    pub fn round_key(&self, round: usize) -> (key: u64)
        requires
            round < self@.len(),
        ensures
            key == self@[round as int],
    {
        self.round_keys[round]
    }

    /// Get the number of rounds.
    pub fn num_rounds(&self) -> (n: usize)
        ensures
            n == self@.len(),
    {
        self.round_keys.len()
    }

    /// Get all round keys.
    pub fn all_keys(&self) -> (keys: &[u64])
        ensures
            keys@ == self@,
    {
        self.round_keys.as_slice()
    }

    /// Check that no two round keys are identical.
    pub fn keys_are_unique(&self) -> (unique: bool)
        ensures
            unique == all_distinct(self@),
    {
        let n = self.round_keys.len();
        let mut i: usize = 0;
        while i < n
            invariant
                n == self.round_keys@.len(),
                i <= n,
                forall|a: int, b: int|
                    0 <= a < i && a < b < n ==> #[trigger] self.round_keys@[a]
                        != #[trigger] self.round_keys@[b],
            decreases n - i,
        {
            let mut j = i + 1;
            while j < n
                invariant
                    n == self.round_keys@.len(),
                    i < n,
                    i + 1 <= j <= n,
                    forall|a: int, b: int|
                        0 <= a < i && a < b < n ==> #[trigger] self.round_keys@[a]
                            != #[trigger] self.round_keys@[b],
                    forall|b: int| i < b < j ==> self.round_keys@[i as int] != #[trigger] self.round_keys@[b],
                decreases n - j,
            {
                if self.round_keys[i] == self.round_keys[j] {
                    return false;
                }
                j += 1;
            }
            i += 1;
        }
        true
    }

    /// Convert arbitrary-length key bytes to a u64 seed.
    fn bytes_to_u64(key: &[u8]) -> (seed: u64)
        ensures
            seed == key_seed(key@),
    {
        let mut hash: u64 = 0x517cc1b727220a95;
        let mut i: usize = 0;
        while i < key.len()
            invariant
                i <= key.len(),
                hash == key_seed(key@.take(i as int)),
            decreases key.len() - i,
        {
            let byte = key[i];
            proof {
                assert(key@.take(i + 1).drop_last() =~= key@.take(i as int));
            }
            hash ^= (byte as u64).wrapping_shl(((i % 8) * 8) as u32);
            hash = hash.wrapping_mul(0x5bd1e9955bd1e995);
            hash ^= rotate_right_u64(hash, 47);
            i += 1;
        }
        assert(key@.take(key.len() as int) =~= key@);
        hash
    }
}

} // verus!
