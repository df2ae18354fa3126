//! Counting facts about finite maps on integer ranges.

use vstd::prelude::*;
use vstd::relations::injective_on;
use vstd::set_lib::{set_int_range, lemma_int_range, lemma_map_size, lemma_subset_equality};

verus! {

/// Some point of `[0, n)` is sent to `y` by `f`.
pub open spec fn is_hit(f: spec_fn(int) -> int, n: nat, y: int) -> bool {
    exists|x: int| 0 <= x < n && #[trigger] f(x) == y
}

/// A map of `[0, n)` into itself that never sends two points to the same
/// place reaches every point of `[0, n)` (the pigeonhole principle).
pub proof fn lemma_injective_onto(f: spec_fn(int) -> int, n: nat)
    requires
        forall|x: int| 0 <= x < n ==> 0 <= #[trigger] f(x) < n,
        forall|x: int, y: int| 0 <= x < n && 0 <= y < n && x != y ==> #[trigger] f(x) != #[trigger] f(y),
    ensures
        forall|y: int| 0 <= y < n ==> #[trigger] is_hit(f, n, y),
{
    let dom = set_int_range(0, n as int);
    lemma_int_range(0, n as int);
    let img = dom.map(f);
    assert(injective_on(f, dom));
    lemma_map_size(dom, img, f);
    assert(img.subset_of(dom)) by {
        assert forall|y: int| img.contains(y) implies dom.contains(y) by {
            let x = choose|x: int| dom.contains(x) && y == f(x);
        }
    }
    lemma_subset_equality(img, dom);
    assert forall|y: int| 0 <= y < n implies #[trigger] is_hit(f, n, y) by {
        assert(dom.contains(y));
        assert(img.contains(y));
    }
}

} // verus!
