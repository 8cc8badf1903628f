//! Counting over integer ranges, used by the analyses' specifications.

use vstd::prelude::*;

verus! {

/// Number of `i` in `0..n` for which `p(i)` holds.
pub open spec fn count_below(n: int, p: spec_fn(int) -> bool) -> int
    decreases n,
{
    if n <= 0 {
        0
    } else {
        count_below(n - 1, p) + if p(n - 1) {
            1int
        } else {
            0int
        }
    }
}

/// A count lies between zero and the size of the range.
pub proof fn lemma_count_below_bounds(n: int, p: spec_fn(int) -> bool)
    requires
        n >= 0,
    ensures
        0 <= count_below(n, p) <= n,
    decreases n,
{
    if n > 0 {
        lemma_count_below_bounds(n - 1, p);
    }
}

/// The count is zero exactly when no index in the range satisfies the predicate.
pub proof fn lemma_count_below_zero(n: int, p: spec_fn(int) -> bool)
    requires
        n >= 0,
    ensures
        (count_below(n, p) == 0) <==> (forall|i: int| 0 <= i < n ==> !#[trigger] p(i)),
    decreases n,
{
    if n > 0 {
        lemma_count_below_zero(n - 1, p);
        lemma_count_below_bounds(n - 1, p);
    }
}


/// The `i` in `0..n` for which `p(i)` holds.
pub open spec fn set_below(n: int, p: spec_fn(int) -> bool) -> Set<int> {
    Set::new(|i: int| 0 <= i < n && p(i))
}

/// Counting the `i` in `0..n` for which `p(i)` holds gives the size of the
/// set of those `i`.
pub proof fn lemma_count_below_is_set_len(n: int, p: spec_fn(int) -> bool)
    requires
        n >= 0,
    ensures
        set_below(n, p).finite(),
        count_below(n, p) == set_below(n, p).len(),
    decreases n,
{
    if n == 0 {
        assert(set_below(0, p) =~= Set::<int>::empty());
    } else {
        lemma_count_below_is_set_len(n - 1, p);
        if p(n - 1) {
            assert(set_below(n, p) =~= set_below(n - 1, p).insert(n - 1));
        } else {
            assert(set_below(n, p) =~= set_below(n - 1, p));
        }
    }
}


/// Two indices in the range that satisfy the predicate make the count at
/// least two.
pub proof fn lemma_count_below_two(n: int, p: spec_fn(int) -> bool, i: int, j: int)
    requires
        0 <= i < j < n,
        p(i),
        p(j),
    ensures
        count_below(n, p) >= 2,
    decreases n,
{
    lemma_count_below_bounds(n - 1, p);
    if j == n - 1 {
        lemma_count_below_zero(n - 1, p);
    } else {
        lemma_count_below_two(n - 1, p, i, j);
    }
}

/// When no two indices in the range satisfy the predicate, the count is at
/// most one.
pub proof fn lemma_count_below_at_most_one(n: int, p: spec_fn(int) -> bool)
    requires
        n >= 0,
        forall|i: int, j: int| 0 <= i < j < n ==> !(#[trigger] p(i) && #[trigger] p(j)),
    ensures
        count_below(n, p) <= 1,
    decreases n,
{
    if n > 0 {
        lemma_count_below_at_most_one(n - 1, p);
        if p(n - 1) {
            assert forall|i: int| 0 <= i < n - 1 implies !#[trigger] p(i) by {
                assert(!(p(i) && p(n - 1)));
            }
            lemma_count_below_zero(n - 1, p);
        }
    }
}

} // verus!
