//! S-box (substitution box) design and analysis.
//!
//! An S-box is a permutation of the 256 byte values, stored with its
//! inverse. Constructors: from a table, the identity, the AES (Rijndael)
//! S-box, and a seeded shuffle.

use vstd::prelude::*;
use crate::counting::{is_hit, lemma_injective_onto};
use crate::walsh::{
    stage_value, walsh_coefficient, max_abs_walsh, sbox_nonlinearity, component_sign,
    butterfly_stage, lemma_first_stage, lemma_last_stage, lemma_walsh_is_block_sum,
    lemma_nonlinearity_is_spectrum_minimum,
};
use vstd::arithmetic::power2::{pow2, lemma2_to64, lemma_pow2_unfold};
use vstd::math::abs;

verus! {

/// A table of 256 bytes in which no value occurs twice, so that every byte
/// value occurs exactly once. (Opaque: its quantifier over pairs of
/// positions is revealed only in the proofs that need it.)
#[verifier::opaque]
pub open spec fn is_byte_permutation(t: Seq<u8>) -> bool {
    &&& t.len() == 256
    &&& forall|i: int, j: int|
        0 <= i < 256 && 0 <= j < 256 && i != j ==> #[trigger] t[i] != #[trigger] t[j]
}

/// Every byte value occurs in a byte permutation.
pub proof fn lemma_byte_permutation_onto(t: Seq<u8>, y: u8)
    requires
        is_byte_permutation(t),
    ensures
        exists|x: int| 0 <= x < 256 && t[x] == y,
{
    reveal(is_byte_permutation);
    let f = |x: int| t[x] as int;
    lemma_injective_onto(f, 256);
    assert(is_hit(f, 256, y as int));
    let x = choose|x: int| 0 <= x < 256 && #[trigger] f(x) == y as int;
    assert(t[x] == y);
}

/// The table holding each byte value at its own position.
pub open spec fn identity_table() -> Seq<u8> {
    Seq::new(256, |x: int| x as u8)
}

/// `t` with the entries at positions `i` and `j` exchanged.
pub open spec fn swap_entries(t: Seq<u8>, i: int, j: int) -> Seq<u8> {
    t.update(i, t[j]).update(j, t[i])
}

/// One step of the linear congruential generator that drives the seeded shuffle.
pub open spec fn lcg_step(state: u64) -> u64 {
    state.wrapping_mul(6364136223846793005u64).wrapping_add(1u64)
}

/// The generator state after `k` steps from `seed`.
pub open spec fn lcg_state(seed: u64, k: nat) -> u64
    decreases k,
{
    if k == 0 {
        seed
    } else {
        lcg_step(lcg_state(seed, (k - 1) as nat))
    }
}

/// The table after the first `k` steps of the seeded Fisher-Yates shuffle of
/// the identity table: step `k` advances the generator and exchanges position
/// `256 - k` with position `(state >> 33) % (257 - k)`.
pub open spec fn shuffle_table(seed: u64, k: nat) -> Seq<u8>
    decreases k,
{
    if k == 0 {
        identity_table()
    } else {
        let i = 256 - k;
        let j = ((lcg_state(seed, k) >> 33u64) as int) % (i + 1);
        swap_entries(shuffle_table(seed, (k - 1) as nat), i, j)
    }
}

/// The table of the S-box generated from `seed`: all 255 shuffle steps.
pub open spec fn seeded_table(seed: u64) -> Seq<u8> {
    shuffle_table(seed, 255)
}

/// The generator: `state_{k+1} = state_k * 6364136223846793005 + 1`
/// modulo `2^64`, starting from the seed.
pub proof fn lemma_lcg_steps(seed: u64, k: nat)
    ensures
        lcg_state(seed, 0) == seed,
        lcg_state(seed, k + 1) as int == (lcg_state(seed, k) as int * 6364136223846793005int + 1)
            % 0x1_0000_0000_0000_0000int,
{
    let x = lcg_state(seed, k);
    let m = x.wrapping_mul(6364136223846793005u64);
    assert(m as int == (x as int * 6364136223846793005int) % 0x1_0000_0000_0000_0000int);
    vstd::arithmetic::div_mod::lemma_add_mod_noop(
        x as int * 6364136223846793005int,
        1,
        0x1_0000_0000_0000_0000int,
    );
    vstd::arithmetic::div_mod::lemma_mod_twice(
        x as int * 6364136223846793005int,
        0x1_0000_0000_0000_0000int,
    );
}

/// The position exchanged with position `256 - k` in step `k` of the shuffle.
pub open spec fn shuffle_partner(seed: u64, k: nat) -> int {
    ((lcg_state(seed, k) >> 33u64) as int) % (257 - k)
}

/// The shuffle runs one step for every position from 255 down to 1: the
/// seeded table is the table after 254 steps with position 1 exchanged
/// with position `(state_255 >> 33) % 2`, and each step `k` (for
/// `1 <= k <= 255`) exchanges position `256 - k` with position
/// `(state_k >> 33) % (257 - k)`, starting from the identity table.
pub proof fn lemma_seeded_table_steps(seed: u64, k: nat)
    requires
        1 <= k <= 255,
    ensures
        shuffle_table(seed, 0) == identity_table(),
        shuffle_table(seed, k) == ({
            let prev = shuffle_table(seed, (k - 1) as nat);
            let p = 256 - k;
            let j = shuffle_partner(seed, k);
            prev.update(p, prev[j]).update(j, prev[p])
        }),
        seeded_table(seed) == ({
            let prev = shuffle_table(seed, 254);
            let j = ((lcg_state(seed, 255) >> 33u64) as int) % 2;
            prev.update(1, prev[j]).update(j, prev[1])
        }),
{
}

/// Once a position `i >= 1` has been the target of its step (step
/// `256 - i`), no later step moves its entry: later steps exchange only
/// positions below `i`.
proof fn lemma_shuffle_settled(seed: u64, i: int, k: nat)
    requires
        1 <= i <= 255,
        256 - i <= k <= 255,
    ensures
        shuffle_table(seed, k)[i] == shuffle_table(seed, (256 - i) as nat)[i],
    decreases k,
{
    if k > 256 - i {
        lemma_shuffle_settled(seed, i, (k - 1) as nat);
        let p = 256 - k;
        let j = ((lcg_state(seed, k) >> 33u64) as int) % (p + 1);
        vstd::arithmetic::div_mod::lemma_mod_bound((lcg_state(seed, k) >> 33u64) as int, p + 1);
        assert(0 <= j <= p < i);
        lemma_shuffle_len(seed, (k - 1) as nat);
        let prev = shuffle_table(seed, (k - 1) as nat);
        assert(swap_entries(prev, p, j)[i] == prev[i]);
    }
}

/// Shuffled tables have 256 entries.
proof fn lemma_shuffle_len(seed: u64, k: nat)
    requires
        k <= 255,
    ensures
        shuffle_table(seed, k).len() == 256,
    decreases k,
{
    if k > 0 {
        lemma_shuffle_len(seed, (k - 1) as nat);
        let prev = shuffle_table(seed, (k - 1) as nat);
        let p = 256 - k;
        let j = ((lcg_state(seed, k) >> 33u64) as int) % (p + 1);
        assert(swap_entries(prev, p, j).len() == 256);
    } else {
        assert(identity_table().len() == 256);
    }
}

/// Every position `i >= 1` of the seeded table holds what the step that
/// targeted it put there: the entry at `i` after step `256 - i`.
pub proof fn lemma_seeded_positions_settled(seed: u64, i: int)
    requires
        1 <= i <= 255,
    ensures
        seeded_table(seed)[i] == shuffle_table(seed, (256 - i) as nat)[i],
{
    lemma_shuffle_settled(seed, i, 255);
}

/// The identity table is a byte permutation.
pub proof fn lemma_identity_is_permutation()
    ensures
        is_byte_permutation(identity_table()),
{
    reveal(is_byte_permutation);
}

/// Exchanging two entries keeps a byte permutation a byte permutation.
pub proof fn lemma_swap_keeps_permutation(t: Seq<u8>, i: int, j: int)
    requires
        is_byte_permutation(t),
        0 <= i < 256,
        0 <= j < 256,
    ensures
        is_byte_permutation(swap_entries(t, i, j)),
{
    reveal(is_byte_permutation);
    let s = swap_entries(t, i, j);
    assert forall|a: int, b: int| 0 <= a < 256 && 0 <= b < 256 && a != b implies #[trigger] s[a]
        != #[trigger] s[b] by {
        let pa = if a == j { i } else if a == i { j } else { a };
        let pb = if b == j { i } else if b == i { j } else { b };
        assert(s[a] == t[pa]);
        assert(s[b] == t[pb]);
    }
}

/// Every shuffled table is a byte permutation.
pub proof fn lemma_shuffle_is_permutation(seed: u64, k: nat)
    requires
        k <= 255,
    ensures
        is_byte_permutation(shuffle_table(seed, k)),
    decreases k,
{
    if k == 0 {
        lemma_identity_is_permutation();
    } else {
        lemma_shuffle_is_permutation(seed, (k - 1) as nat);
        let i = 256 - k;
        let j = ((lcg_state(seed, k) >> 33u64) as int) % (i + 1);
        lemma_swap_keeps_permutation(shuffle_table(seed, (k - 1) as nat), i, j);
    }
}

/// The standard Rijndael (AES) S-box.
pub const AES_SBOX: [u8; 256] = [
    0x63, 0x7c, 0x77, 0x7b, 0xf2, 0x6b, 0x6f, 0xc5, 0x30, 0x01, 0x67, 0x2b, 0xfe, 0xd7, 0xab, 0x76,
    0xca, 0x82, 0xc9, 0x7d, 0xfa, 0x59, 0x47, 0xf0, 0xad, 0xd4, 0xa2, 0xaf, 0x9c, 0xa4, 0x72, 0xc0,
    0xb7, 0xfd, 0x93, 0x26, 0x36, 0x3f, 0xf7, 0xcc, 0x34, 0xa5, 0xe5, 0xf1, 0x71, 0xd8, 0x31, 0x15,
    0x04, 0xc7, 0x23, 0xc3, 0x18, 0x96, 0x05, 0x9a, 0x07, 0x12, 0x80, 0xe2, 0xeb, 0x27, 0xb2, 0x75,
    0x09, 0x83, 0x2c, 0x1a, 0x1b, 0x6e, 0x5a, 0xa0, 0x52, 0x3b, 0xd6, 0xb3, 0x29, 0xe3, 0x2f, 0x84,
    0x53, 0xd1, 0x00, 0xed, 0x20, 0xfc, 0xb1, 0x5b, 0x6a, 0xcb, 0xbe, 0x39, 0x4a, 0x4c, 0x58, 0xcf,
    0xd0, 0xef, 0xaa, 0xfb, 0x43, 0x4d, 0x33, 0x85, 0x45, 0xf9, 0x02, 0x7f, 0x50, 0x3c, 0x9f, 0xa8,
    0x51, 0xa3, 0x40, 0x8f, 0x92, 0x9d, 0x38, 0xf5, 0xbc, 0xb6, 0xda, 0x21, 0x10, 0xff, 0xf3, 0xd2,
    0xcd, 0x0c, 0x13, 0xec, 0x5f, 0x97, 0x44, 0x17, 0xc4, 0xa7, 0x7e, 0x3d, 0x64, 0x5d, 0x19, 0x73,
    0x60, 0x81, 0x4f, 0xdc, 0x22, 0x2a, 0x90, 0x88, 0x46, 0xee, 0xb8, 0x14, 0xde, 0x5e, 0x0b, 0xdb,
    0xe0, 0x32, 0x3a, 0x0a, 0x49, 0x06, 0x24, 0x5c, 0xc2, 0xd3, 0xac, 0x62, 0x91, 0x95, 0xe4, 0x79,
    0xe7, 0xc8, 0x37, 0x6d, 0x8d, 0xd5, 0x4e, 0xa9, 0x6c, 0x56, 0xf4, 0xea, 0x65, 0x7a, 0xae, 0x08,
    0xba, 0x78, 0x25, 0x2e, 0x1c, 0xa6, 0xb4, 0xc6, 0xe8, 0xdd, 0x74, 0x1f, 0x4b, 0xbd, 0x8b, 0x8a,
    0x70, 0x3e, 0xb5, 0x66, 0x48, 0x03, 0xf6, 0x0e, 0x61, 0x35, 0x57, 0xb9, 0x86, 0xc1, 0x1d, 0x9e,
    0xe1, 0xf8, 0x98, 0x11, 0x69, 0xd9, 0x8e, 0x94, 0x9b, 0x1e, 0x87, 0xe9, 0xce, 0x55, 0x28, 0xdf,
    0x8c, 0xa1, 0x89, 0x0d, 0xbf, 0xe6, 0x42, 0x68, 0x41, 0x99, 0x2d, 0x0f, 0xb0, 0x54, 0xbb, 0x16,
];

/// The inverse of the Rijndael S-box; it witnesses that the S-box is a permutation.
pub const AES_INVERSE_SBOX: [u8; 256] = [
    0x52, 0x09, 0x6a, 0xd5, 0x30, 0x36, 0xa5, 0x38, 0xbf, 0x40, 0xa3, 0x9e, 0x81, 0xf3, 0xd7, 0xfb,
    0x7c, 0xe3, 0x39, 0x82, 0x9b, 0x2f, 0xff, 0x87, 0x34, 0x8e, 0x43, 0x44, 0xc4, 0xde, 0xe9, 0xcb,
    0x54, 0x7b, 0x94, 0x32, 0xa6, 0xc2, 0x23, 0x3d, 0xee, 0x4c, 0x95, 0x0b, 0x42, 0xfa, 0xc3, 0x4e,
    0x08, 0x2e, 0xa1, 0x66, 0x28, 0xd9, 0x24, 0xb2, 0x76, 0x5b, 0xa2, 0x49, 0x6d, 0x8b, 0xd1, 0x25,
    0x72, 0xf8, 0xf6, 0x64, 0x86, 0x68, 0x98, 0x16, 0xd4, 0xa4, 0x5c, 0xcc, 0x5d, 0x65, 0xb6, 0x92,
    0x6c, 0x70, 0x48, 0x50, 0xfd, 0xed, 0xb9, 0xda, 0x5e, 0x15, 0x46, 0x57, 0xa7, 0x8d, 0x9d, 0x84,
    0x90, 0xd8, 0xab, 0x00, 0x8c, 0xbc, 0xd3, 0x0a, 0xf7, 0xe4, 0x58, 0x05, 0xb8, 0xb3, 0x45, 0x06,
    0xd0, 0x2c, 0x1e, 0x8f, 0xca, 0x3f, 0x0f, 0x02, 0xc1, 0xaf, 0xbd, 0x03, 0x01, 0x13, 0x8a, 0x6b,
    0x3a, 0x91, 0x11, 0x41, 0x4f, 0x67, 0xdc, 0xea, 0x97, 0xf2, 0xcf, 0xce, 0xf0, 0xb4, 0xe6, 0x73,
    0x96, 0xac, 0x74, 0x22, 0xe7, 0xad, 0x35, 0x85, 0xe2, 0xf9, 0x37, 0xe8, 0x1c, 0x75, 0xdf, 0x6e,
    0x47, 0xf1, 0x1a, 0x71, 0x1d, 0x29, 0xc5, 0x89, 0x6f, 0xb7, 0x62, 0x0e, 0xaa, 0x18, 0xbe, 0x1b,
    0xfc, 0x56, 0x3e, 0x4b, 0xc6, 0xd2, 0x79, 0x20, 0x9a, 0xdb, 0xc0, 0xfe, 0x78, 0xcd, 0x5a, 0xf4,
    0x1f, 0xdd, 0xa8, 0x33, 0x88, 0x07, 0xc7, 0x31, 0xb1, 0x12, 0x10, 0x59, 0x27, 0x80, 0xec, 0x5f,
    0x60, 0x51, 0x7f, 0xa9, 0x19, 0xb5, 0x4a, 0x0d, 0x2d, 0xe5, 0x7a, 0x9f, 0x93, 0xc9, 0x9c, 0xef,
    0xa0, 0xe0, 0x3b, 0x4d, 0xae, 0x2a, 0xf5, 0xb0, 0xc8, 0xeb, 0xbb, 0x3c, 0x83, 0x53, 0x99, 0x61,
    0x17, 0x2b, 0x04, 0x7e, 0xba, 0x77, 0xd6, 0x26, 0xe1, 0x69, 0x14, 0x63, 0x55, 0x21, 0x0c, 0x7d,
];

/// The Rijndael S-box is a byte permutation.
pub proof fn lemma_aes_sbox_is_permutation()
    ensures
        is_byte_permutation(AES_SBOX@),
{
    reveal(is_byte_permutation);
    assert forall|i: int| 0 <= i < 256 implies #[trigger] AES_INVERSE_SBOX[AES_SBOX[i] as int] == i by {
        // Every index below 256 is one of these; each case is a table lookup.
        assert(
            i == 0 || i == 1 || i == 2 || i == 3 || i == 4 || i == 5 || i == 6 || i == 7 ||
            i == 8 || i == 9 || i == 10 || i == 11 || i == 12 || i == 13 || i == 14 || i == 15 ||
            i == 16 || i == 17 || i == 18 || i == 19 || i == 20 || i == 21 || i == 22 || i == 23 ||
            i == 24 || i == 25 || i == 26 || i == 27 || i == 28 || i == 29 || i == 30 || i == 31 ||
            i == 32 || i == 33 || i == 34 || i == 35 || i == 36 || i == 37 || i == 38 || i == 39 ||
            i == 40 || i == 41 || i == 42 || i == 43 || i == 44 || i == 45 || i == 46 || i == 47 ||
            i == 48 || i == 49 || i == 50 || i == 51 || i == 52 || i == 53 || i == 54 || i == 55 ||
            i == 56 || i == 57 || i == 58 || i == 59 || i == 60 || i == 61 || i == 62 || i == 63 ||
            i == 64 || i == 65 || i == 66 || i == 67 || i == 68 || i == 69 || i == 70 || i == 71 ||
            i == 72 || i == 73 || i == 74 || i == 75 || i == 76 || i == 77 || i == 78 || i == 79 ||
            i == 80 || i == 81 || i == 82 || i == 83 || i == 84 || i == 85 || i == 86 || i == 87 ||
            i == 88 || i == 89 || i == 90 || i == 91 || i == 92 || i == 93 || i == 94 || i == 95 ||
            i == 96 || i == 97 || i == 98 || i == 99 || i == 100 || i == 101 || i == 102 || i == 103 ||
            i == 104 || i == 105 || i == 106 || i == 107 || i == 108 || i == 109 || i == 110 || i == 111 ||
            i == 112 || i == 113 || i == 114 || i == 115 || i == 116 || i == 117 || i == 118 || i == 119 ||
            i == 120 || i == 121 || i == 122 || i == 123 || i == 124 || i == 125 || i == 126 || i == 127 ||
            i == 128 || i == 129 || i == 130 || i == 131 || i == 132 || i == 133 || i == 134 || i == 135 ||
            i == 136 || i == 137 || i == 138 || i == 139 || i == 140 || i == 141 || i == 142 || i == 143 ||
            i == 144 || i == 145 || i == 146 || i == 147 || i == 148 || i == 149 || i == 150 || i == 151 ||
            i == 152 || i == 153 || i == 154 || i == 155 || i == 156 || i == 157 || i == 158 || i == 159 ||
            i == 160 || i == 161 || i == 162 || i == 163 || i == 164 || i == 165 || i == 166 || i == 167 ||
            i == 168 || i == 169 || i == 170 || i == 171 || i == 172 || i == 173 || i == 174 || i == 175 ||
            i == 176 || i == 177 || i == 178 || i == 179 || i == 180 || i == 181 || i == 182 || i == 183 ||
            i == 184 || i == 185 || i == 186 || i == 187 || i == 188 || i == 189 || i == 190 || i == 191 ||
            i == 192 || i == 193 || i == 194 || i == 195 || i == 196 || i == 197 || i == 198 || i == 199 ||
            i == 200 || i == 201 || i == 202 || i == 203 || i == 204 || i == 205 || i == 206 || i == 207 ||
            i == 208 || i == 209 || i == 210 || i == 211 || i == 212 || i == 213 || i == 214 || i == 215 ||
            i == 216 || i == 217 || i == 218 || i == 219 || i == 220 || i == 221 || i == 222 || i == 223 ||
            i == 224 || i == 225 || i == 226 || i == 227 || i == 228 || i == 229 || i == 230 || i == 231 ||
            i == 232 || i == 233 || i == 234 || i == 235 || i == 236 || i == 237 || i == 238 || i == 239 ||
            i == 240 || i == 241 || i == 242 || i == 243 || i == 244 || i == 245 || i == 246 || i == 247 ||
            i == 248 || i == 249 || i == 250 || i == 251 || i == 252 || i == 253 || i == 254 || i == 255
        );
    }
    assert forall|i: int, j: int|
        0 <= i < 256 && 0 <= j < 256 && i != j implies #[trigger] AES_SBOX@[i] != #[trigger] AES_SBOX@[j] by {
        assert(AES_INVERSE_SBOX[AES_SBOX[i] as int] == i);
        assert(AES_INVERSE_SBOX[AES_SBOX[j] as int] == j);
    }
}

/// A substitution box mapping 8-bit values to 8-bit values.
#[derive(Clone)]
pub struct SBox {
    /// The substitution table (256 entries for all possible byte inputs).
    table: [u8; 256],
    /// Inverse table for reverse lookup.
    inverse: [u8; 256],
}

impl View for SBox {
    type V = Seq<u8>;

    /// The substitution table.
    closed spec fn view(&self) -> Seq<u8> {
        self.table@
    }
}

impl SBox {
    /// The inverse table.
    pub closed spec fn inverse_view(&self) -> Seq<u8> {
        self.inverse@
    }

    /// The table is a byte permutation and the inverse table undoes it.
    pub open spec fn wf(&self) -> bool {
        &&& is_byte_permutation(self@)
        &&& self.inverse_view().len() == 256
        &&& forall|x: int| 0 <= x < 256 ==> #[trigger] self.inverse_view()[self@[x] as int] == x
    }

    /// Whether `table` can make an S-box: no byte value occurs twice in it.
    pub fn is_valid_table(table: &[u8; 256]) -> (valid: bool)
        ensures
            valid == is_byte_permutation(table@),
    {
        let mut seen = [false; 256];
        let mut i: usize = 0;
        while i < 256
            invariant
                0 <= i <= 256,
                seen@.len() == 256,
                forall|v: int|
                    0 <= v < 256 ==> (#[trigger] seen@[v] <==> exists|x: int|
                        0 <= x < i && table@[x] as int == v),
                forall|x: int, y: int|
                    0 <= x < i && 0 <= y < i && x != y ==> #[trigger] table@[x] != #[trigger] table@[y],
            decreases 256 - i,
        {
            let idx = table[i] as usize;
            if seen[idx] {
                proof {
                    reveal(is_byte_permutation);
                    let x = choose|x: int| 0 <= x < i && table@[x] as int == idx as int;
                    assert(table@[x] == table@[i as int]);
                }
                return false;
            }
            seen[idx] = true;
            i += 1;
        }
        proof {
            reveal(is_byte_permutation);
        }
        true
    }

    /// Create a new S-box from a 256-byte lookup table that is a permutation.
    pub fn new(table: [u8; 256]) -> (s: Self)
        requires
            is_byte_permutation(table@),
        ensures
            s@ == table@,
            s.wf(),
    {
        let mut inverse = [0u8; 256];
        let mut i: usize = 0;
        while i < 256
            invariant
                0 <= i <= 256,
                is_byte_permutation(table@),
                inverse@.len() == 256,
                forall|x: int| 0 <= x < i ==> #[trigger] inverse@[table@[x] as int] == x,
            decreases 256 - i,
        {
            proof {
                reveal(is_byte_permutation);
            }
            let v = table[i];
            inverse[v as usize] = i as u8;
            i += 1;
        }
        SBox { table, inverse }
    }

    /// Apply the S-box substitution to a byte.
    pub fn substitute(&self, input: u8) -> (output: u8)
        ensures
            output == self@[input as int],
    {
        self.table[input as usize]
    }

    /// Apply the inverse S-box substitution: the byte that the S-box maps to `output`.
    pub fn inverse_substitute(&self, output: u8) -> (input: u8)
        requires
            self.wf(),
        ensures
            input == self.inverse_view()[output as int],
            self@[input as int] == output,
    {
        proof {
            lemma_byte_permutation_onto(self@, output);
            let x = choose|x: int| 0 <= x < 256 && self@[x] == output;
            assert(self.inverse_view()[self@[x] as int] == x);
        }
        self.inverse[output as usize]
    }

    /// Get a reference to the substitution table.
    pub fn table(&self) -> (t: &[u8; 256])
        ensures
            t@ == self@,
    {
        &self.table
    }

    /// The Walsh spectrum of the component function of output bit `bit`,
    /// by the iterative fast Walsh-Hadamard transform.
    fn walsh_spectrum(&self, bit: u32) -> (wh: Vec<i32>)
        requires
            bit < 8,
        ensures
            wh@.len() == 256,
            forall|a: int| 0 <= a < 256 ==> #[trigger] wh@[a] as int == walsh_coefficient(self@, bit, a),
    {
        let mut wh: Vec<i32> = Vec::new();
        let mut x: usize = 0;
        while x < 256
            invariant
                bit < 8,
                x <= 256,
                wh@.len() == x,
                forall|i: int| 0 <= i < x ==> #[trigger] wh@[i] as int == stage_value(self@, bit, 1, i),
            decreases 256 - x,
        {
            let v: i32 = if (self.table[x] >> bit) & 1 == 0 {
                1
            } else {
                -1
            };
            proof {
                lemma_first_stage(self@, bit, x as int);
                assert(v == component_sign(self@, bit, x as int));
            }
            wh.push(v);
            x += 1;
        }
        let mut stride: usize = 1;
        let ghost mut k: nat = 0;
        proof {
            lemma2_to64();
        }
        while stride < 256
            invariant
                stride == pow2(k),
                k <= 8,
                wh@.len() == 256,
                forall|i: int| 0 <= i < 256 ==> #[trigger] wh@[i] as int == stage_value(self@, bit, stride as int, i),
            decreases 256 - stride,
        {
            proof {
                lemma2_to64();
                assert(k < 8) by {
                    if k == 8 {
                        assert(stride == 256);
                    }
                }
            }
            butterfly_stage(&mut wh, stride, Ghost(self@), Ghost(bit), Ghost(k));
            stride = stride * 2;
            proof {
                lemma_pow2_unfold(k + 1);
                k = k + 1;
            }
        }
        proof {
            lemma2_to64();
            assert(stride == 256) by {
                assert(k == 0 || k == 1 || k == 2 || k == 3 || k == 4 || k == 5 || k == 6 || k == 7 || k == 8);
            }
            assert forall|a: int| 0 <= a < 256 implies #[trigger] wh@[a] as int == walsh_coefficient(self@, bit, a) by {
                lemma_last_stage(self@, bit, a);
            }
        }
        wh
    }

    /// Compute the nonlinearity of the S-box: the minimum, over the 8
    /// Boolean component functions (one per output bit), of
    /// `128 - max |W(a)| / 2` where `W` is the Walsh spectrum.
    /// Higher values indicate better resistance to linear cryptanalysis.
    pub fn nonlinearity(&self) -> (nl: u32)
        ensures
            nl == sbox_nonlinearity(self@, 8),
            forall|b: u32, a: int|
                b < 8 && 0 <= a < 256 ==> nl <= 128 - abs(#[trigger] walsh_coefficient(self@, b, a)) / 2,
            exists|b: u32, a: int|
                b < 8 && 0 <= a < 256 && nl == 128 - abs(#[trigger] walsh_coefficient(self@, b, a)) / 2,
    {
        proof {
            lemma_nonlinearity_is_spectrum_minimum(self@);
        }
        let mut min_nl = u32::MAX;
        let mut bit: u32 = 0;
        while bit < 8
            invariant
                bit <= 8,
                min_nl == sbox_nonlinearity(self@, bit as nat),
            decreases 8 - bit,
        {
            // Walsh-Hadamard transform of this output bit's Boolean function
            let wh = self.walsh_spectrum(bit);

            let mut max_abs: u32 = 0;
            let mut i: usize = 0;
            while i < 256
                invariant
                    i <= 256,
                    wh@.len() == 256,
                    forall|a: int| 0 <= a < 256 ==> #[trigger] wh@[a] as int == walsh_coefficient(self@, bit, a),
                    max_abs == max_abs_walsh(self@, bit, i as nat),
                    max_abs <= 256,
                decreases 256 - i,
            {
                let v = wh[i];
                proof {
                    lemma_walsh_is_block_sum(self@, bit, i as int);
                }
                let magnitude = if v < 0 {
                    -v
                } else {
                    v
                };
                if magnitude as u32 > max_abs {
                    max_abs = magnitude as u32;
                }
                i += 1;
            }
            // Nonlinearity = 2^(n-1) - 0.5 * max|W(f)|
            let nl = 128 - max_abs / 2;
            if nl < min_nl {
                min_nl = nl;
            }
            bit += 1;
        }
        min_nl
    }

    /// Generate a pseudo-random S-box from a seed with a seeded Fisher-Yates shuffle.
    pub fn from_seed(seed: u64) -> (s: Self)
        ensures
            s@ == seeded_table(seed),
            s.wf(),
            forall|i: int| 1 <= i <= 255 ==> #[trigger] s@[i] == shuffle_table(seed, (256 - i) as nat)[i],
    {
        let mut table = [0u8; 256];
        let mut x: usize = 0;
        while x < 256
            invariant
                0 <= x <= 256,
                table@.len() == 256,
                forall|y: int| 0 <= y < x ==> table@[y] == y as u8,
            decreases 256 - x,
        {
            table[x] = x as u8;
            x += 1;
        }
        assert(table@ =~= identity_table());
        let mut rng = seed;
        let mut i: usize = 255;
        while i >= 1
            invariant
                0 <= i <= 255,
                table@ == shuffle_table(seed, (255 - i) as nat),
                rng == lcg_state(seed, (255 - i) as nat),
            decreases i,
        {
            let ghost k: nat = (256 - i) as nat;
            let ghost prev = table@;
            rng = rng.wrapping_mul(6364136223846793005).wrapping_add(1);
            assert(rng == lcg_state(seed, k));
            let shifted = rng >> 33;
            assert(shifted < 0x8000_0000u64) by (bit_vector)
                requires
                    shifted == rng >> 33u64,
            ;
            let j = (shifted as usize) % (i + 1);
            assert(j == ((lcg_state(seed, k) >> 33u64) as int) % (i + 1));
            let t = table[i];
            table[i] = table[j];
            table[j] = t;
            proof {
                assert(table@ =~= swap_entries(prev, i as int, j as int));
                assert(shuffle_table(seed, k) == swap_entries(prev, i as int, j as int));
            }
            i -= 1;
        }
        proof {
            lemma_shuffle_is_permutation(seed, 255);
            assert forall|i: int| 1 <= i <= 255 implies #[trigger] table@[i] == shuffle_table(seed, (256 - i) as nat)[i] by {
                lemma_seeded_positions_settled(seed, i);
            }
        }
        Self::new(table)
    }
}

/// Substitution and inverse substitution undo each other, in both orders.
pub proof fn lemma_sbox_inverse_roundtrip(s: SBox, x: u8)
    requires
        s.wf(),
    ensures
        s.inverse_view()[s@[x as int] as int] == x,
        s@[s.inverse_view()[x as int] as int] == x,
{
    lemma_byte_permutation_onto(s@, x);
    let y = choose|y: int| 0 <= y < 256 && s@[y] == x;
    assert(s.inverse_view()[s@[y] as int] == y);
}

/// A simple identity S-box (no substitution).
pub fn identity_sbox() -> (s: SBox)
    ensures
        s@ == identity_table(),
        s.wf(),
{
    let mut table = [0u8; 256];
    let mut x: usize = 0;
    while x < 256
        invariant
            0 <= x <= 256,
            table@.len() == 256,
            forall|y: int| 0 <= y < x ==> table@[y] == y as u8,
        decreases 256 - x,
    {
        table[x] = x as u8;
        x += 1;
    }
    assert(table@ =~= identity_table());
    proof {
        lemma_identity_is_permutation();
    }
    SBox::new(table)
}

/// AES-like S-box (standard Rijndael S-box).
pub fn aes_sbox() -> (s: SBox)
    ensures
        s@ == AES_SBOX@,
        s.wf(),
{
    proof {
        lemma_aes_sbox_is_permutation();
    }
    SBox::new(AES_SBOX)
}

} // verus!
