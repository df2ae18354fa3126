//! The Walsh spectrum of the component functions of an S-box, and the
//! nonlinearity measure built on it.
//!
//! For output bit `b`, the component function of a table `t` is
//! `f(x) = (t[x] >> b) & 1`. Its Walsh coefficient at `a` is
//! `W(a) = sum over x < 256 of (-1)^(f(x) + popcount(x & a))`, and its
//! nonlinearity is `128 - max |W(a)| / 2`. The fast transform computes all
//! 256 coefficients by butterflies; the lemmas here show that each butterfly
//! stage combines partial sums into the partial sums of twice the length.

use vstd::prelude::*;
use vstd::arithmetic::power2::{pow2, lemma2_to64, lemma_pow2_unfold};
use crate::bits::popcount;
use vstd::math::abs;

verus! {

/// `(-1)^f(x)` for the component function of output bit `bit` of `t`.
pub open spec fn component_sign(t: Seq<u8>, bit: u32, x: int) -> int {
    if (t[x] >> bit) & 1u8 == 0u8 {
        1
    } else {
        -1
    }
}

/// The character `(-1)^popcount(x & a)` of the group of bytes.
pub open spec fn character(x: int, a: int) -> int {
    if popcount(((x as u32) & (a as u32)) as nat) % 2 == 0 {
        1
    } else {
        -1
    }
}

/// The sum of `g(y)` over `0 <= y < n`.
pub open spec fn sum(g: spec_fn(int) -> int, n: nat) -> int
    decreases n,
{
    if n == 0 {
        0
    } else {
        sum(g, (n - 1) as nat) + g(n - 1)
    }
}

/// The Walsh coefficient at `a` of the component function of output bit
/// `bit` of `t`.
pub open spec fn walsh_coefficient(t: Seq<u8>, bit: u32, a: int) -> int {
    sum(|x: int| character(x, a) * component_sign(t, bit, x), 256)
}

/// The largest `|W(a)|` over `a < n` (0 when `n == 0`).
pub open spec fn max_abs_walsh(t: Seq<u8>, bit: u32, n: nat) -> int
    decreases n,
{
    if n == 0 {
        0
    } else {
        let rest = max_abs_walsh(t, bit, (n - 1) as nat);
        let w = walsh_coefficient(t, bit, n - 1);
        let here = if w < 0 {
            -w
        } else {
            w
        };
        if here > rest {
            here
        } else {
            rest
        }
    }
}

/// The nonlinearity of the component function of output bit `bit`:
/// `128 - max |W(a)| / 2`.
pub open spec fn component_nonlinearity(t: Seq<u8>, bit: u32) -> int {
    128 - max_abs_walsh(t, bit, 256) / 2
}

/// The smallest component nonlinearity over output bits `0..n`
/// (`u32::MAX` when `n == 0`).
pub open spec fn sbox_nonlinearity(t: Seq<u8>, n: nat) -> int
    decreases n,
{
    if n == 0 {
        u32::MAX as int
    } else {
        let rest = sbox_nonlinearity(t, (n - 1) as nat);
        let here = component_nonlinearity(t, (n - 1) as u32);
        if here < rest {
            here
        } else {
            rest
        }
    }
}

/// The partial Walsh sum over the block `base .. base + len` at `r`:
/// the sum over `y < len` of `(-1)^popcount(y & r) * (-1)^f(base + y)`.
pub open spec fn block_sum(t: Seq<u8>, bit: u32, base: int, r: int, len: nat) -> int {
    sum(|y: int| character(y, r) * component_sign(t, bit, base + y), len)
}

/// The value at position `i` after the butterfly stages up to stride `m`:
/// the partial Walsh sum of the length-`m` block holding `i`, at `i % m`.
pub open spec fn stage_value(t: Seq<u8>, bit: u32, m: int, i: int) -> int {
    block_sum(t, bit, i - i % m, i % m, m as nat)
}

/// Sums of pointwise equal functions are equal.
pub proof fn lemma_sum_ext(g: spec_fn(int) -> int, h: spec_fn(int) -> int, n: nat)
    requires
        forall|y: int| 0 <= y < n ==> #[trigger] g(y) == h(y),
    ensures
        sum(g, n) == sum(h, n),
    decreases n,
{
    if n > 0 {
        lemma_sum_ext(g, h, (n - 1) as nat);
    }
}

/// A sum over `n + k` points splits into the first `n` and the next `k`.
pub proof fn lemma_sum_split(g: spec_fn(int) -> int, n: nat, k: nat)
    ensures
        sum(g, n + k) == sum(g, n) + sum(|y: int| g(n + y), k),
    decreases k,
{
    if k > 0 {
        lemma_sum_split(g, n, (k - 1) as nat);
        assert((|y: int| g(n + y))(k - 1) == g(n + k - 1));
    }
}

/// Negating every term negates the sum.
pub proof fn lemma_sum_neg(g: spec_fn(int) -> int, h: spec_fn(int) -> int, n: nat)
    requires
        forall|y: int| 0 <= y < n ==> #[trigger] h(y) == -g(y),
    ensures
        sum(h, n) == -sum(g, n),
    decreases n,
{
    if n > 0 {
        lemma_sum_neg(g, h, (n - 1) as nat);
    }
}

/// A sum of `n` terms in `[-1, 1]` lies in `[-n, n]`.
pub proof fn lemma_sum_bound(g: spec_fn(int) -> int, n: nat)
    requires
        forall|y: int| 0 <= y < n ==> -1 <= #[trigger] g(y) <= 1,
    ensures
        -n <= sum(g, n) <= n,
    decreases n,
{
    if n > 0 {
        lemma_sum_bound(g, (n - 1) as nat);
    }
}

/// Partial Walsh sums over `len` points lie in `[-len, len]`.
pub proof fn lemma_block_sum_bound(t: Seq<u8>, bit: u32, base: int, r: int, len: nat)
    ensures
        -len <= block_sum(t, bit, base, r, len) <= len,
{
    let g = |y: int| character(y, r) * component_sign(t, bit, base + y);
    assert forall|y: int| 0 <= y < len implies -1 <= #[trigger] g(y) <= 1 by {
        let c = character(y, r);
        let s = component_sign(t, bit, base + y);
        assert(c == 1 || c == -1);
        assert(s == 1 || s == -1);
        assert(g(y) == c * s);
        assert(-1 <= c * s <= 1) by (nonlinear_arith)
            requires
                c == 1 || c == -1,
                s == 1 || s == -1,
        ;
    }
    lemma_sum_bound(g, len);
}

/// Adding `2^k` to a number below `2^k` adds one set bit.
pub proof fn lemma_popcount_add_top(z: nat, k: nat)
    requires
        z < pow2(k),
    ensures
        popcount(z + pow2(k)) == popcount(z) + 1,
    decreases k,
{
    if k == 0 {
        lemma2_to64();
        assert(z == 0);
        assert(popcount(1) == 1 + popcount(0));
    } else {
        lemma_pow2_unfold(k);
        let p = pow2((k - 1) as nat);
        lemma_popcount_add_top(z / 2, (k - 1) as nat);
        assert((z + pow2(k)) / 2 == z / 2 + p);
        assert((z + pow2(k)) % 2 == z % 2);
    }
}

/// The bitwise facts behind one butterfly, for `M = 2^k` with `k < 8` and
/// `y, j < M`.
proof fn lemma_butterfly_bits(k: u32, mm: u32, y: u32, j: u32)
    requires
        k < 8,
        mm == 1u32 << k,
        y < mm,
        j < mm,
    ensures
        ((y + mm) as u32) & j == y & j,
        y & ((j + mm) as u32) == y & j,
        ((y + mm) as u32) & ((j + mm) as u32) == (y & j) + mm,
        y & j < mm,
{
    assert(((y + mm) as u32) & j == y & j) by (bit_vector)
        requires
            k < 8,
            mm == 1u32 << k,
            y < mm,
            j < mm,
    ;
    assert(y & ((j + mm) as u32) == y & j) by (bit_vector)
        requires
            k < 8,
            mm == 1u32 << k,
            y < mm,
            j < mm,
    ;
    assert(((y + mm) as u32) & ((j + mm) as u32) == (y & j) + mm) by (bit_vector)
        requires
            k < 8,
            mm == 1u32 << k,
            y < mm,
            j < mm,
    ;
    assert(y & j < mm) by (bit_vector)
        requires
            k < 8,
            mm == 1u32 << k,
            j < mm,
    ;
}

/// One butterfly: the partial sums over `2M` points at `j` and at `j + M`
/// are the sum and the difference of the partial sums over the two halves
/// at `j` (for `M = 2^k`, `k < 8`, `j < M`).
pub proof fn lemma_butterfly(t: Seq<u8>, bit: u32, k: nat, base: int, j: int)
    requires
        k < 8,
        0 <= j < pow2(k),
    ensures
        block_sum(t, bit, base, j, 2 * pow2(k)) == block_sum(t, bit, base, j, pow2(k)) + block_sum(
            t,
            bit,
            base + pow2(k),
            j,
            pow2(k),
        ),
        block_sum(t, bit, base, j + pow2(k), 2 * pow2(k)) == block_sum(t, bit, base, j, pow2(k))
            - block_sum(t, bit, base + pow2(k), j, pow2(k)),
{
    let m = pow2(k);
    lemma2_to64();
    assert(m <= 128) by {
        assert(k == 0 || k == 1 || k == 2 || k == 3 || k == 4 || k == 5 || k == 6 || k == 7);
    }
    vstd::bits::lemma_u32_shl_is_mul(1u32, k as u32);
    vstd::bits::lemma_u32_pow2_no_overflow(k);
    let mm = 1u32 << (k as u32);
    assert(mm as int == m);

    // Sum and difference at `j`.
    let lo = |y: int| character(y, j) * component_sign(t, bit, base + y);
    let hi = |y: int| character(y, j) * component_sign(t, bit, base + m + y);
    lemma_sum_split(lo, m, m);
    let upper = |y: int| lo(m + y);
    assert forall|y: int| 0 <= y < m implies #[trigger] upper(y) == hi(y) by {
        lemma_butterfly_bits(k as u32, mm, y as u32, j as u32);
        assert(((m + y) as u32) == (y as u32) + mm);
        assert(base + (m + y) == base + m + y);
    }
    lemma_sum_ext(upper, hi, m);

    // At `j + M`.
    let lo2 = |y: int| character(y, j + m) * component_sign(t, bit, base + y);
    lemma_sum_split(lo2, m, m);
    assert forall|y: int| 0 <= y < m implies #[trigger] lo2(y) == lo(y) by {
        lemma_butterfly_bits(k as u32, mm, y as u32, j as u32);
        assert(((j + m) as u32) == (j as u32) + mm);
    }
    lemma_sum_ext(lo2, lo, m);
    let upper2 = |y: int| lo2(m + y);
    assert forall|y: int| 0 <= y < m implies #[trigger] upper2(y) == -hi(y) by {
        lemma_butterfly_bits(k as u32, mm, y as u32, j as u32);
        assert(((m + y) as u32) == (y as u32) + mm);
        assert(((j + m) as u32) == (j as u32) + mm);
        let z = ((y as u32) & (j as u32)) as nat;
        lemma_popcount_add_top(z, k);
        assert((((m + y) as u32) & ((j + m) as u32)) as nat == z + m);
        assert(character(m + y, j + m) == -character(y, j));
        let c = character(y, j);
        let sg = component_sign(t, bit, base + m + y);
        assert((-c) * sg == -(c * sg)) by (nonlinear_arith);
        assert(base + (m + y) == base + m + y);
    }
    lemma_sum_neg(hi, upper2, m);
}

/// The Walsh coefficient is the partial sum over the whole table.
pub proof fn lemma_walsh_is_block_sum(t: Seq<u8>, bit: u32, a: int)
    ensures
        walsh_coefficient(t, bit, a) == block_sum(t, bit, 0, a, 256),
        -256 <= walsh_coefficient(t, bit, a) <= 256,
{
    let g = |x: int| character(x, a) * component_sign(t, bit, x);
    let h = |y: int| character(y, a) * component_sign(t, bit, 0 + y);
    assert forall|y: int| 0 <= y < 256 implies #[trigger] g(y) == h(y) by {
        assert(0 + y == y);
    }
    lemma_sum_ext(g, h, 256);
    lemma_block_sum_bound(t, bit, 0, a, 256);
}

/// Where the positions of a block of `2s` points starting at `c * 2s` sit
/// in the blocks of length `s` and of length `2s`.
proof fn lemma_block_positions(c: int, s: int, j: int)
    requires
        s > 0,
        c >= 0,
        0 <= j < s,
    ensures
        (c * (2 * s) + j) % s == j,
        (c * (2 * s) + j + s) % s == j,
        (c * (2 * s) + j) % (2 * s) == j,
        (c * (2 * s) + j + s) % (2 * s) == j + s,
{
    let b = c * (2 * s);
    assert(b == (2 * c) * s && b + s == (2 * c + 1) * s && b == c * (2 * s)) by (nonlinear_arith)
        requires
            b == c * (2 * s),
    ;
    vstd::arithmetic::div_mod::lemma_fundamental_div_mod_converse(b + j, s, 2 * c, j);
    vstd::arithmetic::div_mod::lemma_fundamental_div_mod_converse(b + j + s, s, 2 * c + 1, j);
    vstd::arithmetic::div_mod::lemma_fundamental_div_mod_converse(b + j, 2 * s, c, j);
    vstd::arithmetic::div_mod::lemma_fundamental_div_mod_converse(b + j + s, 2 * s, c, j + s);
}

/// Partial sums of the first stage are the signs of the component function.
pub proof fn lemma_first_stage(t: Seq<u8>, bit: u32, i: int)
    ensures
        stage_value(t, bit, 1, i) == component_sign(t, bit, i),
{
    assert(i % 1 == 0);
    assert(popcount(0) == 0);
    assert(((0int as u32) & (0int as u32)) == 0u32) by (bit_vector);
    let g = |y: int| character(y, 0) * component_sign(t, bit, i + y);
    assert(sum(g, 1) == sum(g, 0) + g(0));
}

/// Partial sums of the last stage are the Walsh coefficients.
pub proof fn lemma_last_stage(t: Seq<u8>, bit: u32, a: int)
    requires
        0 <= a < 256,
    ensures
        stage_value(t, bit, 256, a) == walsh_coefficient(t, bit, a),
{
    vstd::arithmetic::div_mod::lemma_small_mod(a as nat, 256);
    lemma_walsh_is_block_sum(t, bit, a);
}

/// One stage of the fast Walsh-Hadamard transform: combines the partial
/// sums over blocks of `stride = 2^k` points into those over `2 * stride`.
pub(crate) fn butterfly_stage(wh: &mut Vec<i32>, stride: usize, Ghost(t): Ghost<Seq<u8>>, Ghost(bit): Ghost<u32>, Ghost(k): Ghost<nat>)
    requires
        k < 8,
        stride == pow2(k),
        old(wh)@.len() == 256,
        forall|i: int| 0 <= i < 256 ==> #[trigger] old(wh)@[i] as int == stage_value(t, bit, stride as int, i),
    ensures
        final(wh)@.len() == 256,
        forall|i: int| 0 <= i < 256 ==> #[trigger] final(wh)@[i] as int == stage_value(t, bit, 2 * stride, i),
{
    proof {
        lemma2_to64();
        assert(k == 0 || k == 1 || k == 2 || k == 3 || k == 4 || k == 5 || k == 6 || k == 7);
    }
    let ghost s = stride as int;
    let mut blk: usize = 0;
    let ghost mut c: int = 0;
    while blk < 256
        invariant
            k < 8,
            stride == pow2(k),
            s == stride as int,
            s == 1 || s == 2 || s == 4 || s == 8 || s == 16 || s == 32 || s == 64 || s == 128,
            c >= 0,
            blk == c * (2 * s),
            blk <= 256,
            wh@.len() == 256,
            forall|i: int| 0 <= i < blk ==> #[trigger] wh@[i] as int == stage_value(t, bit, 2 * s, i),
            forall|i: int| blk <= i < 256 ==> #[trigger] wh@[i] as int == stage_value(t, bit, s, i),
        decreases 256 - blk,
    {
        assert(blk + 2 * s <= 256) by (nonlinear_arith)
            requires
                s == 1 || s == 2 || s == 4 || s == 8 || s == 16 || s == 32 || s == 64 || s == 128,
                c >= 0,
                blk == c * (2 * s),
                blk < 256,
        ;
        let mut j: usize = 0;
        while j < stride
            invariant
                k < 8,
                stride == pow2(k),
                s == stride as int,
                c >= 0,
                blk == c * (2 * s),
                blk + 2 * s <= 256,
                j <= stride,
                wh@.len() == 256,
                forall|i: int| 0 <= i < blk ==> #[trigger] wh@[i] as int == stage_value(t, bit, 2 * s, i),
                forall|i: int|
                    blk + 2 * s <= i < 256 ==> #[trigger] wh@[i] as int == stage_value(t, bit, s, i),
                forall|i: int|
                    blk <= i < blk + j ==> #[trigger] wh@[i] as int == stage_value(t, bit, 2 * s, i),
                forall|i: int|
                    blk + s <= i < blk + s + j ==> #[trigger] wh@[i] as int == stage_value(t, bit, 2 * s, i),
                forall|i: int|
                    blk + j <= i < blk + s ==> #[trigger] wh@[i] as int == stage_value(t, bit, s, i),
                forall|i: int|
                    blk + s + j <= i < blk + 2 * s ==> #[trigger] wh@[i] as int == stage_value(t, bit, s, i),
            decreases stride - j,
        {
            let lo = blk + j;
            let hi = blk + j + stride;
            let a = wh[lo];
            let b = wh[hi];
            proof {
                lemma_block_positions(c, s, j as int);
                lemma_butterfly(t, bit, k, blk as int, j as int);
                lemma_block_sum_bound(t, bit, blk as int, j as int, s as nat);
                lemma_block_sum_bound(t, bit, blk + s, j as int, s as nat);
                assert(a as int == block_sum(t, bit, blk as int, j as int, s as nat));
                assert(b as int == block_sum(t, bit, blk + s, j as int, s as nat));
                assert(stage_value(t, bit, 2 * s, lo as int) == a + b);
                assert(stage_value(t, bit, 2 * s, hi as int) == a - b);
            }
            wh.set(lo, a + b);
            wh.set(hi, a - b);
            j += 1;
        }
        blk += 2 * stride;
        proof {
            c = c + 1;
            assert(blk == c * (2 * s)) by (nonlinear_arith)
                requires
                    blk == (c - 1) * (2 * s) + 2 * s,
            ;
        }
    }
}

/// `max_abs_walsh(t, bit, n)` is the largest absolute Walsh coefficient
/// over `a < n`: at least every `|W(a)|` and equal to one of them.
pub proof fn lemma_max_abs_walsh_is_max(t: Seq<u8>, bit: u32, n: nat)
    ensures
        0 <= max_abs_walsh(t, bit, n),
        forall|a: int| 0 <= a < n ==> abs(#[trigger] walsh_coefficient(t, bit, a)) <= max_abs_walsh(t, bit, n),
        n > 0 ==> exists|a: int| 0 <= a < n && max_abs_walsh(t, bit, n) == abs(#[trigger] walsh_coefficient(t, bit, a)),
    decreases n,
{
    if n > 0 {
        lemma_max_abs_walsh_is_max(t, bit, (n - 1) as nat);
        let w = walsh_coefficient(t, bit, n - 1);
        if max_abs_walsh(t, bit, n) == abs(w) {
        } else {
            assert(n - 1 > 0);
            let a = choose|a: int| 0 <= a < n - 1 && max_abs_walsh(t, bit, (n - 1) as nat) == abs(#[trigger] walsh_coefficient(t, bit, a));
            assert(max_abs_walsh(t, bit, n) == abs(walsh_coefficient(t, bit, a)));
        }
    }
}

/// `sbox_nonlinearity(t, n)` is the least component nonlinearity over the
/// output bits below `n`: at most each of them and equal to one of them.
pub proof fn lemma_sbox_nonlinearity_is_min(t: Seq<u8>, n: nat)
    requires
        n <= 8,
    ensures
        forall|b: u32| b < n ==> sbox_nonlinearity(t, n) <= #[trigger] component_nonlinearity(t, b),
        n > 0 ==> exists|b: u32| b < n && sbox_nonlinearity(t, n) == #[trigger] component_nonlinearity(t, b),
    decreases n,
{
    if n > 0 {
        lemma_sbox_nonlinearity_is_min(t, (n - 1) as nat);
        let here = component_nonlinearity(t, (n - 1) as u32);
        if sbox_nonlinearity(t, n) == here {
            assert(sbox_nonlinearity(t, n) == component_nonlinearity(t, (n - 1) as u32));
        } else {
            let b = choose|b: u32| b < n - 1 && sbox_nonlinearity(t, (n - 1) as nat) == #[trigger] component_nonlinearity(t, b);
            assert(sbox_nonlinearity(t, n) == component_nonlinearity(t, b));
        }
        assert forall|b: u32| b < n implies sbox_nonlinearity(t, n) <= #[trigger] component_nonlinearity(t, b) by {
            if b < n - 1 {
            } else {
                assert(b == (n - 1) as u32);
            }
        }
    }
}

/// The nonlinearity of an S-box is the least value of
/// `128 - |W_b(a)| / 2` over all output bits `b < 8` and all `a < 256`,
/// where `W_b(a)` is the Walsh coefficient of component `b` at `a`: no
/// coefficient gives a smaller value, and one gives exactly it.
pub proof fn lemma_nonlinearity_is_spectrum_minimum(t: Seq<u8>)
    ensures
        forall|b: u32, a: int|
            b < 8 && 0 <= a < 256 ==> sbox_nonlinearity(t, 8) <= 128 - abs(
                #[trigger] walsh_coefficient(t, b, a),
            ) / 2,
        exists|b: u32, a: int|
            b < 8 && 0 <= a < 256 && sbox_nonlinearity(t, 8) == 128 - abs(
                #[trigger] walsh_coefficient(t, b, a),
            ) / 2,
{
    lemma_sbox_nonlinearity_is_min(t, 8);
    assert forall|b: u32, a: int| b < 8 && 0 <= a < 256 implies sbox_nonlinearity(t, 8) <= 128 - abs(
        #[trigger] walsh_coefficient(t, b, a),
    ) / 2 by {
        lemma_max_abs_walsh_is_max(t, b, 256);
        assert(sbox_nonlinearity(t, 8) <= component_nonlinearity(t, b));
        let m = max_abs_walsh(t, b, 256);
        let w = abs(walsh_coefficient(t, b, a)) as int;
        assert(w <= m);
        assert(w / 2 <= m / 2) by (nonlinear_arith)
            requires
                0 <= w <= m,
        ;
    }
    let b = choose|b: u32| b < 8 && sbox_nonlinearity(t, 8) == #[trigger] component_nonlinearity(t, b);
    lemma_max_abs_walsh_is_max(t, b, 256);
    let a = choose|a: int| 0 <= a < 256 && max_abs_walsh(t, b, 256) == abs(#[trigger] walsh_coefficient(t, b, a));
    assert(sbox_nonlinearity(t, 8) == 128 - abs(walsh_coefficient(t, b, a)) / 2);
}

} // verus!
