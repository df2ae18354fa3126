//! Bit-level permutation networks.

use vstd::prelude::*;
use crate::bits::{bit, lemma_bit_or, lemma_bit_single, lemma_bit_zero, lemma_bits_determine};
use crate::counting::{is_hit, lemma_injective_onto};

verus! {

/// Every entry of `t` is below `n`.
pub open spec fn entries_below(t: Seq<usize>, n: int) -> bool {
    forall|i: int| 0 <= i < t.len() ==> #[trigger] t[i] < n
}

/// Some position below `k` of `t` holds `j`.
pub open spec fn has_preimage_below(t: Seq<usize>, j: int, k: int) -> bool {
    exists|i: int| 0 <= i < k && #[trigger] t[i] as int == j
}

/// `inv` is the inverse table built from the first `k` entries of `t`: for
/// each position `j`, the last `i < k` with `t[i] == j`, or 0 if there is none.
pub open spec fn is_inverse_upto(t: Seq<usize>, inv: Seq<usize>, k: int) -> bool {
    forall|j: int|
        0 <= j < inv.len() ==> {
            &&& has_preimage_below(t, j, k) ==> {
                &&& #[trigger] inv[j] < k
                &&& t[inv[j] as int] as int == j
                &&& forall|i: int| 0 <= i < k && #[trigger] t[i] as int == j ==> i <= inv[j]
            }
            &&& !has_preimage_below(t, j, k) ==> inv[j] == 0
        }
}

/// `t` is a bijection of `[0, t.len())` onto itself.
pub open spec fn is_bijection(t: Seq<usize>) -> bool {
    &&& entries_below(t, t.len() as int)
    &&& forall|i: int, j: int|
        0 <= i < t.len() && 0 <= j < t.len() && i != j ==> #[trigger] t[i] != #[trigger] t[j]
}

/// The word whose bit `t[i]` is set for each set bit `i < width` of `input`.
pub open spec fn permute_bits(t: Seq<usize>, input: u64, width: nat) -> u64
    decreases width,
{
    if width == 0 {
        0
    } else {
        let rest = permute_bits(t, input, (width - 1) as nat);
        if bit(input, width - 1) {
            rest | (1u64 << (t[width - 1] as u64))
        } else {
            rest
        }
    }
}

/// Every set bit `i < width` of `input` is sent below 64 by `t`.
pub open spec fn targets_fit(t: Seq<usize>, input: u64, width: nat) -> bool {
    forall|i: int| 0 <= i < width && #[trigger] bit(input, i) ==> t[i] < 64
}

/// Bit `j` of `permute_bits(t, input, width)` is set exactly when some set
/// bit `i < width` of `input` is sent to `j`.
pub proof fn lemma_permute_bits_bit(t: Seq<usize>, input: u64, width: nat, j: int)
    requires
        width <= t.len(),
        width <= 64,
        targets_fit(t, input, width),
        0 <= j < 64,
    ensures
        bit(permute_bits(t, input, width), j) <==> exists|i: int|
            0 <= i < width && bit(input, i) && #[trigger] t[i] as int == j,
    decreases width,
{
    if width == 0 {
        lemma_bit_zero(j);
    } else {
        let w1 = (width - 1) as nat;
        lemma_permute_bits_bit(t, input, w1, j);
        let rest = permute_bits(t, input, w1);
        if bit(input, width - 1) {
            let target = t[width - 1] as int;
            lemma_bit_or(rest, 1u64 << (target as u64), j);
            lemma_bit_single(target, j);
        }
        if bit(permute_bits(t, input, width), j) {
        } else {
            assert forall|i: int| 0 <= i < width && bit(input, i) implies #[trigger] t[i] as int
                != j by {
                if i == width - 1 {
                    let target = t[width - 1] as int;
                    lemma_bit_single(target, j);
                }
            }
        }
    }
}

/// A permutation that maps bit positions to other bit positions.
#[derive(Clone)]
pub struct Permutation {
    /// Maps source bit position to destination bit position.
    table: Vec<usize>,
    /// Inverse permutation.
    inverse: Vec<usize>,
}

impl Permutation {
    /// The mapping table: position `i` maps to `table_view()[i]`.
    pub closed spec fn table_view(&self) -> Seq<usize> {
        self.table@
    }

    /// The inverse table.
    pub closed spec fn inverse_view(&self) -> Seq<usize> {
        self.inverse@
    }

    /// The table's entries are in range and the inverse table is built from it.
    pub open spec fn wf(&self) -> bool {
        &&& entries_below(self.table_view(), self.table_view().len() as int)
        &&& self.inverse_view().len() == self.table_view().len()
        &&& is_inverse_upto(self.table_view(), self.inverse_view(), self.table_view().len() as int)
    }

    /// Create a permutation from a mapping table.
    /// table[i] = j means bit position i maps to position j.
    pub fn new(table: Vec<usize>) -> (p: Self)
        requires
            entries_below(table@, table@.len() as int),
        ensures
            p.table_view() == table@,
            p.wf(),
    {
        let n = table.len();
        let mut inverse: Vec<usize> = Vec::new();
        let mut k: usize = 0;
        while k < n
            invariant
                n == table@.len(),
                k <= n,
                inverse@.len() == k,
                forall|j: int| 0 <= j < k ==> #[trigger] inverse@[j] == 0,
            decreases n - k,
        {
            inverse.push(0);
            k += 1;
        }
        let mut i: usize = 0;
        while i < n
            invariant
                n == table@.len(),
                i <= n,
                inverse@.len() == n,
                entries_below(table@, n as int),
                is_inverse_upto(table@, inverse@, i as int),
            decreases n - i,
        {
            let j = table[i];
            let ghost old_inv = inverse@;
            inverse.set(j, i);
            proof {
                assert forall|m: int| 0 <= m < inverse@.len() implies {
                    &&& has_preimage_below(table@, m, i + 1) ==> {
                        &&& #[trigger] inverse@[m] < i + 1
                        &&& table@[inverse@[m] as int] as int == m
                        &&& forall|x: int|
                            0 <= x < i + 1 && #[trigger] table@[x] as int == m ==> x <= inverse@[m]
                    }
                    &&& !has_preimage_below(table@, m, i + 1) ==> inverse@[m] == 0
                } by {
                    if m == j as int {
                        assert(table@[i as int] as int == m);
                        assert(has_preimage_below(table@, m, i + 1));
                    } else {
                        assert(inverse@[m] == old_inv[m]);
                        if has_preimage_below(table@, m, i + 1) {
                            let x = choose|x: int| 0 <= x < i + 1 && #[trigger] table@[x] as int == m;
                            assert(has_preimage_below(table@, m, i as int));
                        }
                        if has_preimage_below(table@, m, i as int) {
                            let x = choose|x: int| 0 <= x < i && #[trigger] table@[x] as int == m;
                            assert(has_preimage_below(table@, m, i + 1));
                        }
                    }
                }
            }
            i += 1;
        }
        Self { table, inverse }
    }

    /// Apply the permutation to a value with the given bit width: bit `i`
    /// of the input (for `i < width`) moves to bit `table[i]`.
    pub fn permute(&self, input: u64, width: usize) -> (output: u64)
        requires
            width <= 64,
            width <= self.table_view().len(),
            targets_fit(self.table_view(), input, width as nat),
        ensures
            output == permute_bits(self.table_view(), input, width as nat),
    {
        let mut output = 0u64;
        let mut i: usize = 0;
        while i < width
            invariant
                i <= width,
                width <= 64,
                width <= self.table@.len(),
                targets_fit(self.table@, input, width as nat),
                output == permute_bits(self.table@, input, i as nat),
            decreases width - i,
        {
            if (input >> i) & 1 == 1 {
                assert(bit(input, i as int));
                output |= 1u64 << self.table[i];
            }
            i += 1;
        }
        output
    }

    /// Apply the inverse permutation: bit `i` of the input (for `i < width`)
    /// moves to bit `inverse[i]`.
    pub fn inverse_permute(&self, input: u64, width: usize) -> (output: u64)
        requires
            width <= 64,
            width <= self.inverse_view().len(),
            targets_fit(self.inverse_view(), input, width as nat),
        ensures
            output == permute_bits(self.inverse_view(), input, width as nat),
    {
        let mut output = 0u64;
        let mut i: usize = 0;
        while i < width
            invariant
                i <= width,
                width <= 64,
                width <= self.inverse@.len(),
                targets_fit(self.inverse@, input, width as nat),
                output == permute_bits(self.inverse@, input, i as nat),
            decreases width - i,
        {
            if (input >> i) & 1 == 1 {
                assert(bit(input, i as int));
                output |= 1u64 << self.inverse[i];
            }
            i += 1;
        }
        output
    }

    /// Create a simple P-box that reverses bit order.
    pub fn reverse(width: usize) -> (p: Self)
        ensures
            p.table_view() == Seq::new(width as nat, |i: int| (width - 1 - i) as usize),
            p.wf(),
            is_bijection(p.table_view()),
    {
        let mut table: Vec<usize> = Vec::new();
        let mut i: usize = 0;
        while i < width
            invariant
                i <= width,
                table@ =~= Seq::new(i as nat, |x: int| (width - 1 - x) as usize),
            decreases width - i,
        {
            table.push(width - 1 - i);
            i += 1;
        }
        Self::new(table)
    }

    /// Create a rotation permutation: position `i` maps to `(i + shift) % width`.
    pub fn rotate_left(width: usize, shift: usize) -> (p: Self)
        requires
            width == 0 || width - 1 + shift <= usize::MAX,
        ensures
            p.table_view() == Seq::new(width as nat, |i: int| ((i + shift) % (width as int)) as usize),
            p.wf(),
            is_bijection(p.table_view()),
    {
        let mut table: Vec<usize> = Vec::new();
        let mut i: usize = 0;
        while i < width
            invariant
                i <= width,
                width == 0 || width - 1 + shift <= usize::MAX,
                table@ =~= Seq::new(i as nat, |x: int| ((x + shift) % (width as int)) as usize),
            decreases width - i,
        {
            table.push((i + shift) % width);
            i += 1;
        }
        proof {
            lemma_rotation_is_bijection(width as int, shift as int);
        }
        Self::new(table)
    }
}

/// Moving the bits of `x` by `t` and then by `u` gives back `x` when `u`
/// undoes `t` on `[0, n)` and `x` has no bit at or above `n`.
pub proof fn lemma_permute_bits_undo(t: Seq<usize>, u: Seq<usize>, x: u64, n: nat)
    requires
        n <= 64,
        t.len() == n,
        u.len() == n,
        entries_below(t, n as int),
        entries_below(u, n as int),
        forall|i: int| 0 <= i < n ==> #[trigger] u[t[i] as int] as int == i,
        forall|j: int| n <= j < 64 ==> !#[trigger] bit(x, j),
    ensures
        permute_bits(u, permute_bits(t, x, n), n) == x,
{
    let y = permute_bits(t, x, n);
    let z = permute_bits(u, y, n);
    assert(targets_fit(t, x, n));
    assert(targets_fit(u, y, n));
    assert forall|k: int| 0 <= k < 64 implies bit(z, k) == bit(x, k) by {
        lemma_permute_bits_bit(u, y, n, k);
        if bit(x, k) {
            let j = t[k] as int;
            lemma_permute_bits_bit(t, x, n, j);
            assert(bit(y, j));
            assert(u[j] as int == k);
        }
        if bit(z, k) {
            let j = choose|j: int| 0 <= j < n && bit(y, j) && #[trigger] u[j] as int == k;
            lemma_permute_bits_bit(t, x, n, j);
            let i = choose|i: int| 0 <= i < n && bit(x, i) && #[trigger] t[i] as int == j;
            assert(u[t[i] as int] as int == i);
        }
    }
    lemma_bits_determine(z, x);
}

/// For a bijective table the inverse table undoes it in both directions.
pub proof fn lemma_bijection_inverse(p: Permutation)
    requires
        p.wf(),
        is_bijection(p.table_view()),
    ensures
        entries_below(p.inverse_view(), p.table_view().len() as int),
        forall|i: int|
            0 <= i < p.table_view().len() ==> #[trigger] p.inverse_view()[p.table_view()[i] as int]
                as int == i,
        forall|j: int|
            0 <= j < p.table_view().len() ==> #[trigger] p.table_view()[p.inverse_view()[j] as int]
                as int == j,
{
    let t = p.table_view();
    let u = p.inverse_view();
    let n = t.len();
    let f = |x: int| t[x] as int;
    lemma_injective_onto(f, n);
    assert forall|j: int| 0 <= j < n implies has_preimage_below(t, j, n as int) by {
        assert(is_hit(f, n, j));
        let x = choose|x: int| 0 <= x < n && #[trigger] f(x) == j;
        assert(t[x] as int == j);
    }
    assert forall|j: int| 0 <= j < n implies #[trigger] u[j] < n by {
        assert(has_preimage_below(t, j, n as int));
    }
    assert forall|i: int| 0 <= i < n implies #[trigger] u[t[i] as int] as int == i by {
        let j = t[i] as int;
        assert(has_preimage_below(t, j, n as int));
        assert(t[u[j] as int] as int == j);
    }
    assert forall|j: int| 0 <= j < n implies #[trigger] t[u[j] as int] as int == j by {
        assert(has_preimage_below(t, j, n as int));
    }
}

/// Permuting the low `n` bits of `x` with a bijective table of size `n` and
/// then applying the inverse permutation gives back `x`.
pub proof fn lemma_permute_roundtrip(p: Permutation, x: u64)
    requires
        p.wf(),
        is_bijection(p.table_view()),
        p.table_view().len() <= 64,
        forall|j: int| p.table_view().len() <= j < 64 ==> !#[trigger] bit(x, j),
    ensures
        permute_bits(
            p.inverse_view(),
            permute_bits(p.table_view(), x, p.table_view().len()),
            p.table_view().len(),
        ) == x,
{
    lemma_bijection_inverse(p);
    lemma_permute_bits_undo(p.table_view(), p.inverse_view(), x, p.table_view().len());
}

/// Applying the inverse permutation and then the permutation also gives
/// back `x`.
pub proof fn lemma_inverse_permute_roundtrip(p: Permutation, x: u64)
    requires
        p.wf(),
        is_bijection(p.table_view()),
        p.table_view().len() <= 64,
        forall|j: int| p.table_view().len() <= j < 64 ==> !#[trigger] bit(x, j),
    ensures
        permute_bits(
            p.table_view(),
            permute_bits(p.inverse_view(), x, p.table_view().len()),
            p.table_view().len(),
        ) == x,
{
    lemma_bijection_inverse(p);
    lemma_permute_bits_undo(p.inverse_view(), p.table_view(), x, p.table_view().len());
}

/// A rotation of `[0, width)` is a bijection.
proof fn lemma_rotation_is_bijection(width: int, shift: int)
    requires
        0 <= width <= usize::MAX,
        shift >= 0,
    ensures
        is_bijection(Seq::new(width as nat, |i: int| ((i + shift) % width) as usize)),
{
    let t = Seq::new(width as nat, |i: int| ((i + shift) % width) as usize);
    assert forall|a: int, b: int|
        0 <= a < width && 0 <= b < width && a != b implies #[trigger] t[a] != #[trigger] t[b] by {
        vstd::arithmetic::div_mod::lemma_fundamental_div_mod(a + shift, width);
        vstd::arithmetic::div_mod::lemma_fundamental_div_mod(b + shift, width);
        vstd::arithmetic::div_mod::lemma_mod_bound(a + shift, width);
        vstd::arithmetic::div_mod::lemma_mod_bound(b + shift, width);
        assert(t[a] as int == (a + shift) % width);
        assert(t[b] as int == (b + shift) % width);
        if (a + shift) % width == (b + shift) % width {
            let qa = (a + shift) / width;
            let qb = (b + shift) / width;
            assert(a - b == width * (qa - qb)) by (nonlinear_arith)
                requires
                    a + shift == width * qa + (a + shift) % width,
                    b + shift == width * qb + (b + shift) % width,
                    (a + shift) % width == (b + shift) % width,
            ;
            assert(false) by (nonlinear_arith)
                requires
                    a - b == width * (qa - qb),
                    0 <= a < width,
                    0 <= b < width,
                    a != b,
            ;
        }
    }
    assert forall|i: int| 0 <= i < t.len() implies #[trigger] t[i] < width by {
        vstd::arithmetic::div_mod::lemma_mod_bound(i + shift, width);
    }
}

} // verus!
