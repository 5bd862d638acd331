//! Counting the indices below a bound at which a predicate holds.

use vstd::prelude::*;

verus! {

/// How many `i` with `0 <= i < n` satisfy `f`.
pub open spec fn tally(f: spec_fn(int) -> bool, n: int) -> int
    decreases n,
{
    if n <= 0 {
        0
    } else {
        tally(f, n - 1) + if f(n - 1) {
            1int
        } else {
            0int
        }
    }
}

/// A tally lies between zero and its bound.
pub proof fn lemma_tally_bounds(f: spec_fn(int) -> bool, n: int)
    requires
        0 <= n,
    ensures
        0 <= tally(f, n) <= n,
    decreases n,
{
    if n > 0 {
        lemma_tally_bounds(f, n - 1);
    }
}

/// Predicates that agree below the bound have the same tally.
pub proof fn lemma_tally_agree(f: spec_fn(int) -> bool, g: spec_fn(int) -> bool, n: int)
    requires
        forall|i: int| 0 <= i < n ==> #[trigger] f(i) == g(i),
    ensures
        tally(f, n) == tally(g, n),
    decreases n,
{
    if n > 0 {
        lemma_tally_agree(f, g, n - 1);
    }
}

/// Turning the predicate on at one index below the bound adds one.
pub proof fn lemma_tally_gain(f: spec_fn(int) -> bool, g: spec_fn(int) -> bool, k: int, n: int)
    requires
        0 <= k < n,
        !f(k),
        g(k),
        forall|i: int| 0 <= i < n && i != k ==> #[trigger] f(i) == g(i),
    ensures
        tally(g, n) == tally(f, n) + 1,
    decreases n,
{
    if k == n - 1 {
        lemma_tally_agree(f, g, n - 1);
    } else {
        lemma_tally_gain(f, g, k, n - 1);
    }
}

/// Where no index satisfies both of two predicates, the tally of those that
/// satisfy either is the sum of the two tallies.
pub proof fn lemma_tally_either(
    f: spec_fn(int) -> bool,
    g: spec_fn(int) -> bool,
    either: spec_fn(int) -> bool,
    n: int,
)
    requires
        forall|i: int| 0 <= i < n ==> !(#[trigger] f(i) && g(i)),
        forall|i: int| 0 <= i < n ==> (#[trigger] either(i) <==> f(i) || g(i)),
    ensures
        tally(either, n) == tally(f, n) + tally(g, n),
    decreases n,
{
    if n > 0 {
        lemma_tally_either(f, g, either, n - 1);
        assert(either(n - 1) <==> f(n - 1) || g(n - 1));
        assert(!(f(n - 1) && g(n - 1)));
    }
}

} // verus!
