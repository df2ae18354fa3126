//! Feistel network cipher constructions.
//!
//! Balanced and unbalanced Feistel networks on 64-bit blocks split into two
//! 32-bit halves. Each round maps `(L, R)` to `(R, L ^ F(R, k))`; the output
//! block swaps the final halves, so decryption is the same network run with
//! the round keys in reverse order.

use vstd::prelude::*;
use crate::bits::{
    high_half, low_half, join_halves, lemma_split_join, lemma_join_split, split_block, join_block,
    rotl32, rotr32, rotate_left_u32, rotate_right_u32,
};
use crate::key_schedule::KeySchedule;
use crate::round::{RoundFunction, SimpleRound, simple_round_value};
use crate::sbox::AES_SBOX;

verus! {

/// One Feistel round: `(L, R)` becomes `(R, L ^ f(R, k))`.
pub open spec fn feistel_step(f: spec_fn(u32, u64) -> u32, halves: (u32, u32), k: u64) -> (u32, u32) {
    (halves.1, halves.0 ^ f(halves.1, k))
}

/// The halves after running one round per key, first key first.
pub open spec fn feistel_rounds(f: spec_fn(u32, u64) -> u32, halves: (u32, u32), keys: Seq<u64>) -> (u32, u32)
    decreases keys.len(),
{
    if keys.len() == 0 {
        halves
    } else {
        feistel_rounds(f, feistel_step(f, halves, keys[0]), keys.drop_first())
    }
}

/// The block produced by the network: split the block into (upper, lower)
/// halves, run one round per key, and join the final halves swapped.
pub open spec fn feistel_block(f: spec_fn(u32, u64) -> u32, block: u64, keys: Seq<u64>) -> u64 {
    let out = feistel_rounds(f, (high_half(block), low_half(block)), keys);
    join_halves(out.1, out.0)
}

/// Running the rounds for `keys` followed by `k` is one more round after `keys`.
pub proof fn lemma_rounds_push(f: spec_fn(u32, u64) -> u32, halves: (u32, u32), keys: Seq<u64>, k: u64)
    ensures
        feistel_rounds(f, halves, keys.push(k)) == feistel_step(f, feistel_rounds(f, halves, keys), k),
    decreases keys.len(),
{
    if keys.len() == 0 {
        assert(keys.push(k).drop_first() =~= Seq::<u64>::empty());
        assert(feistel_rounds(f, feistel_step(f, halves, k), Seq::<u64>::empty())
            == feistel_step(f, halves, k));
        assert(keys.push(k)[0] == k);
    } else {
        assert(keys.push(k).drop_first() =~= keys.drop_first().push(k));
        assert(keys.push(k)[0] == keys[0]);
        lemma_rounds_push(f, feistel_step(f, halves, keys[0]), keys.drop_first(), k);
    }
}

/// Undoing the rounds: starting from the swapped output halves and running
/// the keys in reverse order gives back the swapped input halves.
pub proof fn lemma_rounds_reverse(f: spec_fn(u32, u64) -> u32, halves: (u32, u32), keys: Seq<u64>)
    ensures
        ({
            let out = feistel_rounds(f, halves, keys);
            feistel_rounds(f, (out.1, out.0), keys.reverse()) == (halves.1, halves.0)
        }),
    decreases keys.len(),
{
    if keys.len() > 0 {
        let k = keys[0];
        let rest = keys.drop_first();
        let next = feistel_step(f, halves, k);
        lemma_rounds_reverse(f, next, rest);
        let out = feistel_rounds(f, halves, keys);
        assert(keys.reverse() =~= rest.reverse().push(k));
        lemma_rounds_push(f, (out.1, out.0), rest.reverse(), k);
        let l = halves.0;
        let fr = f(halves.1, k);
        assert((l ^ fr) ^ fr == l) by (bit_vector);
    } else {
        assert(keys.reverse() =~= keys);
    }
}

/// The central law of a Feistel network: for any round function and any
/// keys, running the network with the keys reversed undoes it.
pub proof fn lemma_feistel_roundtrip(f: spec_fn(u32, u64) -> u32, block: u64, keys: Seq<u64>)
    ensures
        feistel_block(f, feistel_block(f, block, keys), keys.reverse()) == block,
{
    let halves = (high_half(block), low_half(block));
    let out = feistel_rounds(f, halves, keys);
    lemma_split_join(out.1, out.0);
    lemma_rounds_reverse(f, halves, keys);
    lemma_join_split(block);
}

/// Running the network with the keys reversed, then with the keys in order,
/// also gives back the block.
pub proof fn lemma_feistel_roundtrip_reversed(f: spec_fn(u32, u64) -> u32, block: u64, keys: Seq<u64>)
    ensures
        feistel_block(f, feistel_block(f, block, keys.reverse()), keys) == block,
{
    lemma_feistel_roundtrip(f, block, keys.reverse());
    assert(keys.reverse().reverse() =~= keys);
}

/// With no rounds the network only swaps the two halves of the block.
pub proof fn lemma_feistel_no_rounds(f: spec_fn(u32, u64) -> u32, block: u64)
    ensures
        feistel_block(f, block, Seq::<u64>::empty()) == join_halves(low_half(block), high_half(block)),
{
}

/// The first `min(num_rounds, keys.len())` keys: the keys a cipher with
/// `num_rounds` rounds uses.
pub open spec fn keys_used(num_rounds: nat, keys: Seq<u64>) -> Seq<u64> {
    if num_rounds <= keys.len() {
        keys.take(num_rounds as int)
    } else {
        keys
    }
}

/// Runs the network rounds over the first `n` keys, in order or in reverse.
fn run_rounds<F: RoundFunction>(
    f: &F,
    left: u32,
    right: u32,
    round_keys: &[u64],
    n: usize,
    reverse: bool,
) -> (out: (u32, u32))
    requires
        n <= round_keys@.len(),
    ensures
        out == feistel_rounds(
            |x: u32, k: u64| f.round_value(x, k),
            (left, right),
            if reverse {
                round_keys@.take(n as int).reverse()
            } else {
                round_keys@.take(n as int)
            },
        ),
{
    let ghost g = |x: u32, k: u64| f.round_value(x, k);
    let ghost keys = if reverse {
        round_keys@.take(n as int).reverse()
    } else {
        round_keys@.take(n as int)
    };
    let mut l = left;
    let mut r = right;
    let mut i: usize = 0;
    while i < n
        invariant
            n <= round_keys@.len(),
            i <= n,
            keys.len() == n,
            g == (|x: u32, k: u64| f.round_value(x, k)),
            keys == (if reverse {
                round_keys@.take(n as int).reverse()
            } else {
                round_keys@.take(n as int)
            }),
            (l, r) == feistel_rounds(g, (left, right), keys.take(i as int)),
        decreases n - i,
    {
        let rk = if reverse {
            round_keys[n - 1 - i]
        } else {
            round_keys[i]
        };
        assert(rk == keys[i as int]);
        let new_left = r;
        let new_right = l ^ f.round(r, rk);
        proof {
            assert(g(r, rk) == f.round_value(r, rk));
            assert(feistel_step(g, (l, r), rk) == (new_left, new_right));
            lemma_rounds_push(g, (left, right), keys.take(i as int), rk);
            assert(keys.take(i + 1) =~= keys.take(i as int).push(rk));
        }
        l = new_left;
        r = new_right;
        i += 1;
    }
    assert(keys.take(n as int) =~= keys);
    (l, r)
}

/// Balanced Feistel network operating on 64-bit blocks.
pub struct BalancedFeistel {
    round_fn: SimpleRound,
    num_rounds: usize,
}

impl BalancedFeistel {
    /// The number of rounds.
    pub closed spec fn rounds(&self) -> nat {
        self.num_rounds as nat
    }

    /// The S-box table of the round function.
    pub closed spec fn round_table(&self) -> Seq<u8> {
        self.round_fn.sbox_table()
    }

    /// The round function: the simple round on the cipher's S-box.
    pub open spec fn round_spec(&self) -> spec_fn(u32, u64) -> u32 {
        |x: u32, k: u64| simple_round_value(self.round_table(), x, k)
    }

    /// The block `encrypt_block` produces from `block` with `keys`.
    pub open spec fn encrypted(&self, block: u64, keys: Seq<u64>) -> u64 {
        feistel_block(self.round_spec(), block, keys_used(self.rounds(), keys))
    }

    /// The block `decrypt_block` produces from `block` with `keys`: the
    /// network with the used keys in reverse order.
    pub open spec fn decrypted(&self, block: u64, keys: Seq<u64>) -> u64 {
        feistel_block(self.round_spec(), block, keys_used(self.rounds(), keys).reverse())
    }

    /// Create a new balanced Feistel cipher; its round function is the
    /// simple round on the AES S-box (the key schedule is not kept: the round
    /// keys are passed to each call).
    pub fn new(_schedule: KeySchedule, num_rounds: usize) -> (c: Self)
        ensures
            c.rounds() == num_rounds,
            c.round_table() == AES_SBOX@,
    {
        Self { round_fn: SimpleRound::aes(), num_rounds }
    }

    /// Create with a raw key and number of rounds.
    pub fn from_key(key: &[u8], num_rounds: usize) -> (c: Self)
        ensures
            c.rounds() == num_rounds,
            c.round_table() == AES_SBOX@,
    {
        let schedule = KeySchedule::new(key, num_rounds);
        Self::new(schedule, num_rounds)
    }

    /// Encrypt a 64-bit block with the first `num_rounds` round keys (all of
    /// them if there are fewer).
    pub fn encrypt_block(&self, block: u64, round_keys: &[u64]) -> (out: u64)
        ensures
            out == self.encrypted(block, round_keys@),
            out == feistel_block(
                |x: u32, k: u64| simple_round_value(self.round_table(), x, k),
                block,
                round_keys@.subrange(0, rounds_run(self.rounds(), round_keys@.len())),
            ),
    {
        proof {
            lemma_balanced_rounds_run(*self, block, round_keys@);
        }
        let (left, right) = split_block(block);
        let n = if self.num_rounds <= round_keys.len() {
            self.num_rounds
        } else {
            round_keys.len()
        };
        let (l, r) = run_rounds(&self.round_fn, left, right, round_keys, n, false);
        proof {
            assert(round_keys@.take(n as int) =~= keys_used(self.rounds(), round_keys@));
            assert((|x: u32, k: u64| self.round_fn.round_value(x, k)) =~= self.round_spec());
        }
        // Final swap (undo last swap for Feistel structure)
        join_block(r, l)
    }

    /// Decrypt a 64-bit block: the rounds run with the used keys in reverse.
    pub fn decrypt_block(&self, block: u64, round_keys: &[u64]) -> (out: u64)
        ensures
            out == self.decrypted(block, round_keys@),
            out == feistel_block(
                |x: u32, k: u64| simple_round_value(self.round_table(), x, k),
                block,
                round_keys@.subrange(0, rounds_run(self.rounds(), round_keys@.len())).reverse(),
            ),
    {
        proof {
            lemma_balanced_rounds_run(*self, block, round_keys@);
        }
        let (left, right) = split_block(block);
        let n = if self.num_rounds <= round_keys.len() {
            self.num_rounds
        } else {
            round_keys.len()
        };
        let (l, r) = run_rounds(&self.round_fn, left, right, round_keys, n, true);
        proof {
            assert(round_keys@.take(n as int) =~= keys_used(self.rounds(), round_keys@));
            assert((|x: u32, k: u64| self.round_fn.round_value(x, k)) =~= self.round_spec());
        }
        join_block(r, l)
    }

    /// Get the number of rounds.
    pub fn num_rounds(&self) -> (n: usize)
        ensures
            n == self.rounds(),
    {
        self.num_rounds
    }
}

/// Decrypting an encrypted block with the same keys gives back the block.
pub proof fn lemma_balanced_decrypt_encrypt(c: BalancedFeistel, block: u64, keys: Seq<u64>)
    ensures
        c.decrypted(c.encrypted(block, keys), keys) == block,
{
    lemma_feistel_roundtrip(c.round_spec(), block, keys_used(c.rounds(), keys));
}

/// Encrypting a decrypted block with the same keys gives back the block.
pub proof fn lemma_balanced_encrypt_decrypt(c: BalancedFeistel, block: u64, keys: Seq<u64>)
    ensures
        c.encrypted(c.decrypted(block, keys), keys) == block,
{
    lemma_feistel_roundtrip_reversed(c.round_spec(), block, keys_used(c.rounds(), keys));
}

/// Under the same keys, different blocks encrypt to different blocks.
pub proof fn lemma_balanced_encrypt_injective(c: BalancedFeistel, a: u64, b: u64, keys: Seq<u64>)
    requires
        c.encrypted(a, keys) == c.encrypted(b, keys),
    ensures
        a == b,
{
    lemma_balanced_decrypt_encrypt(c, a, keys);
    lemma_balanced_decrypt_encrypt(c, b, keys);
}

/// With zero rounds (or no keys) encryption only swaps the two halves.
pub proof fn lemma_balanced_zero_rounds_swaps(c: BalancedFeistel, block: u64, keys: Seq<u64>)
    requires
        c.rounds() == 0 || keys.len() == 0,
    ensures
        c.encrypted(block, keys) == join_halves(low_half(block), high_half(block)),
{
    assert(keys_used(c.rounds(), keys) =~= Seq::<u64>::empty());
}

/// The round function of the unbalanced network: mix in the low key word,
/// rotate left by 13, multiply (wrapping) by a constant, XOR with the right
/// rotation by 17, add (wrapping) the high key word.
pub open spec fn unbalanced_round_value(input: u32, key: u64) -> u32 {
    let x0 = input ^ ((key & 0xFFFF_FFFFu64) as u32);
    let x1 = rotl32(x0, 13);
    let x2 = x1.wrapping_mul(0x5bd1e995u32);
    let x3 = x2 ^ rotr32(x2, 17);
    x3.wrapping_add((key >> 32u64) as u32)
}

/// Unbalanced Feistel network with source-heavy construction.
/// Operates on 64-bit blocks with a 32/32 split but asymmetric round function.
pub struct UnbalancedFeistel {
    num_rounds: usize,
}

/// The unbalanced network's own round function, so that the shared round
/// loop can run it.
impl RoundFunction for UnbalancedFeistel {
    open spec fn round_value(&self, input: u32, round_key: u64) -> u32 {
        unbalanced_round_value(input, round_key)
    }

    fn round(&self, input: u32, round_key: u64) -> (output: u32) {
        self.round_function(input, round_key)
    }
}

impl UnbalancedFeistel {
    /// The number of rounds.
    pub closed spec fn rounds(&self) -> nat {
        self.num_rounds as nat
    }

    /// The round function as a spec function.
    pub open spec fn round_spec(&self) -> spec_fn(u32, u64) -> u32 {
        |x: u32, k: u64| unbalanced_round_value(x, k)
    }

    /// The block `encrypt_block` produces from `block` with `keys`.
    pub open spec fn encrypted(&self, block: u64, keys: Seq<u64>) -> u64 {
        feistel_block(self.round_spec(), block, keys_used(self.rounds(), keys))
    }

    /// The block `decrypt_block` produces from `block` with `keys`.
    pub open spec fn decrypted(&self, block: u64, keys: Seq<u64>) -> u64 {
        feistel_block(self.round_spec(), block, keys_used(self.rounds(), keys).reverse())
    }

    /// Create a new unbalanced Feistel cipher.
    pub fn new(num_rounds: usize) -> (c: Self)
        ensures
            c.rounds() == num_rounds,
    {
        Self { num_rounds }
    }

    /// Encrypt a 64-bit block using unbalanced Feistel (source-heavy variant).
    /// The round function uses different rotation amounts for each half,
    /// creating asymmetry in the diffusion.
    pub fn encrypt_block(&self, block: u64, round_keys: &[u64]) -> (out: u64)
        ensures
            out == self.encrypted(block, round_keys@),
            out == feistel_block(
                |x: u32, k: u64| unbalanced_round_value(x, k),
                block,
                round_keys@.subrange(0, rounds_run(self.rounds(), round_keys@.len())),
            ),
    {
        proof {
            lemma_unbalanced_rounds_run(*self, block, round_keys@);
        }
        let (left, right) = split_block(block);
        let n = if self.num_rounds <= round_keys.len() {
            self.num_rounds
        } else {
            round_keys.len()
        };
        let (l, r) = run_rounds(self, left, right, round_keys, n, false);
        proof {
            assert(round_keys@.take(n as int) =~= keys_used(self.rounds(), round_keys@));
            assert((|x: u32, k: u64| self.round_value(x, k)) =~= self.round_spec());
        }
        // Swap at end
        join_block(r, l)
    }

    /// Decrypt a 64-bit block.
    pub fn decrypt_block(&self, block: u64, round_keys: &[u64]) -> (out: u64)
        ensures
            out == self.decrypted(block, round_keys@),
            out == feistel_block(
                |x: u32, k: u64| unbalanced_round_value(x, k),
                block,
                round_keys@.subrange(0, rounds_run(self.rounds(), round_keys@.len())).reverse(),
            ),
    {
        proof {
            lemma_unbalanced_rounds_run(*self, block, round_keys@);
        }
        let (left, right) = split_block(block);
        let n = if self.num_rounds <= round_keys.len() {
            self.num_rounds
        } else {
            round_keys.len()
        };
        let (l, r) = run_rounds(self, left, right, round_keys, n, true);
        proof {
            assert(round_keys@.take(n as int) =~= keys_used(self.rounds(), round_keys@));
            assert((|x: u32, k: u64| self.round_value(x, k)) =~= self.round_spec());
        }
        join_block(r, l)
    }

    fn round_function(&self, input: u32, key: u64) -> (output: u32)
        ensures
            output == unbalanced_round_value(input, key),
    {
        let mut x = input;
        x ^= (key & 0xFFFFFFFF) as u32;
        x = rotate_left_u32(x, 13);
        x = x.wrapping_mul(0x5bd1e995);
        x ^= rotate_right_u32(x, 17);
        x = x.wrapping_add((key >> 32) as u32);
        x
    }
}

/// Decrypting an encrypted block with the same keys gives back the block.
pub proof fn lemma_unbalanced_decrypt_encrypt(c: UnbalancedFeistel, block: u64, keys: Seq<u64>)
    ensures
        c.decrypted(c.encrypted(block, keys), keys) == block,
{
    lemma_feistel_roundtrip(c.round_spec(), block, keys_used(c.rounds(), keys));
}

/// Encrypting a decrypted block with the same keys gives back the block.
pub proof fn lemma_unbalanced_encrypt_decrypt(c: UnbalancedFeistel, block: u64, keys: Seq<u64>)
    ensures
        c.encrypted(c.decrypted(block, keys), keys) == block,
{
    lemma_feistel_roundtrip_reversed(c.round_spec(), block, keys_used(c.rounds(), keys));
}

/// Under the same keys, different blocks encrypt to different blocks.
pub proof fn lemma_unbalanced_encrypt_injective(c: UnbalancedFeistel, a: u64, b: u64, keys: Seq<u64>)
    requires
        c.encrypted(a, keys) == c.encrypted(b, keys),
    ensures
        a == b,
{
    lemma_unbalanced_decrypt_encrypt(c, a, keys);
    lemma_unbalanced_decrypt_encrypt(c, b, keys);
}

/// With zero rounds (or no keys) encryption only swaps the two halves.
pub proof fn lemma_unbalanced_zero_rounds_swaps(c: UnbalancedFeistel, block: u64, keys: Seq<u64>)
    requires
        c.rounds() == 0 || keys.len() == 0,
    ensures
        c.encrypted(block, keys) == join_halves(low_half(block), high_half(block)),
{
    assert(keys_used(c.rounds(), keys) =~= Seq::<u64>::empty());
}

/// The number of rounds a cipher with `num_rounds` rounds runs on `len`
/// keys: one per key, at most `num_rounds`.
pub open spec fn rounds_run(num_rounds: nat, len: nat) -> int {
    if num_rounds <= len {
        num_rounds as int
    } else {
        len as int
    }
}

/// One round applied to a block, written out: the output block holds
/// `L ^ f(R, k)` above `R`, where `L` and `R` are the upper and lower halves.
pub proof fn lemma_feistel_one_round(f: spec_fn(u32, u64) -> u32, block: u64, k: u64)
    ensures
        feistel_block(f, block, seq![k]) == join_halves(
            high_half(block) ^ f(low_half(block), k),
            low_half(block),
        ),
{
    let halves = (high_half(block), low_half(block));
    assert(seq![k].drop_first() =~= Seq::<u64>::empty());
    assert(feistel_rounds(f, feistel_step(f, halves, k), Seq::<u64>::empty()) == feistel_step(
        f,
        halves,
        k,
    ));
}

/// The balanced cipher runs one round per key, in order, for the first
/// `min(rounds, keys.len())` keys, whatever the number of keys; decryption
/// runs the same keys in reverse order.
pub proof fn lemma_balanced_rounds_run(c: BalancedFeistel, block: u64, keys: Seq<u64>)
    ensures
        c.encrypted(block, keys) == feistel_block(
            |x: u32, k: u64| simple_round_value(c.round_table(), x, k),
            block,
            keys.subrange(0, rounds_run(c.rounds(), keys.len())),
        ),
        c.decrypted(block, keys) == feistel_block(
            |x: u32, k: u64| simple_round_value(c.round_table(), x, k),
            block,
            keys.subrange(0, rounds_run(c.rounds(), keys.len())).reverse(),
        ),
{
    assert(keys_used(c.rounds(), keys) =~= keys.subrange(0, rounds_run(c.rounds(), keys.len())));
}

/// A balanced cipher with more rounds than keys encrypts as the cipher with
/// exactly one round per key.
pub proof fn lemma_balanced_rounds_capped(c: BalancedFeistel, d: BalancedFeistel, block: u64, keys: Seq<u64>)
    requires
        d.round_table() == c.round_table(),
        d.rounds() == rounds_run(c.rounds(), keys.len()),
    ensures
        c.encrypted(block, keys) == d.encrypted(block, keys),
        c.decrypted(block, keys) == d.decrypted(block, keys),
{
    lemma_balanced_rounds_run(c, block, keys);
    lemma_balanced_rounds_run(d, block, keys);
}

/// With one key (and at least one round) the balanced cipher performs one
/// round: `(L, R)` becomes the block with `L ^ F(R, k)` above `R`.
pub proof fn lemma_balanced_single_round(c: BalancedFeistel, block: u64, k: u64)
    requires
        c.rounds() >= 1,
    ensures
        c.encrypted(block, seq![k]) == join_halves(
            high_half(block) ^ simple_round_value(c.round_table(), low_half(block), k),
            low_half(block),
        ),
{
    lemma_balanced_rounds_run(c, block, seq![k]);
    assert(seq![k].subrange(0, 1) =~= seq![k]);
    lemma_feistel_one_round(
        |x: u32, kk: u64| simple_round_value(c.round_table(), x, kk),
        block,
        k,
    );
}

/// The unbalanced cipher runs one round per key, in order, for the first
/// `min(rounds, keys.len())` keys, whatever the number of keys; decryption
/// runs the same keys in reverse order.
pub proof fn lemma_unbalanced_rounds_run(c: UnbalancedFeistel, block: u64, keys: Seq<u64>)
    ensures
        c.encrypted(block, keys) == feistel_block(
            |x: u32, k: u64| unbalanced_round_value(x, k),
            block,
            keys.subrange(0, rounds_run(c.rounds(), keys.len())),
        ),
        c.decrypted(block, keys) == feistel_block(
            |x: u32, k: u64| unbalanced_round_value(x, k),
            block,
            keys.subrange(0, rounds_run(c.rounds(), keys.len())).reverse(),
        ),
{
    assert(keys_used(c.rounds(), keys) =~= keys.subrange(0, rounds_run(c.rounds(), keys.len())));
}

/// An unbalanced cipher with more rounds than keys encrypts as the cipher
/// with exactly one round per key.
pub proof fn lemma_unbalanced_rounds_capped(
    c: UnbalancedFeistel,
    d: UnbalancedFeistel,
    block: u64,
    keys: Seq<u64>,
)
    requires
        d.rounds() == rounds_run(c.rounds(), keys.len()),
    ensures
        c.encrypted(block, keys) == d.encrypted(block, keys),
        c.decrypted(block, keys) == d.decrypted(block, keys),
{
    lemma_unbalanced_rounds_run(c, block, keys);
    lemma_unbalanced_rounds_run(d, block, keys);
}

/// With one key (and at least one round) the unbalanced cipher performs one
/// round: `(L, R)` becomes the block with `L ^ F(R, k)` above `R`.
pub proof fn lemma_unbalanced_single_round(c: UnbalancedFeistel, block: u64, k: u64)
    requires
        c.rounds() >= 1,
    ensures
        c.encrypted(block, seq![k]) == join_halves(
            high_half(block) ^ unbalanced_round_value(low_half(block), k),
            low_half(block),
        ),
{
    lemma_unbalanced_rounds_run(c, block, seq![k]);
    assert(seq![k].subrange(0, 1) =~= seq![k]);
    lemma_feistel_one_round(|x: u32, kk: u64| unbalanced_round_value(x, kk), block, k);
}

} // verus!
