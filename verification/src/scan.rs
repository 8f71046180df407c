//! First-hit scans: the specification of "check each position in order and
//! report the first failure", shared by the admission and validation passes.

use vstd::prelude::*;

verus! {

/// The first `Some` among `f(0), .., f(k - 1)`.
pub open spec fn first_some<T>(f: spec_fn(int) -> Option<T>, k: int) -> Option<T>
    decreases k,
{
    if k <= 0 {
        None
    } else {
        match first_some(f, k - 1) {
            Some(e) => Some(e),
            None => f(k - 1),
        }
    }
}

/// No position below `k` reports anything, so the scan finds nothing.
pub proof fn lemma_first_some_none<T>(f: spec_fn(int) -> Option<T>, k: int)
    requires
        forall|j: int| 0 <= j < k ==> #[trigger] f(j) is None,
    ensures
        first_some(f, k) is None,
    decreases k,
{
    if k > 0 {
        lemma_first_some_none(f, k - 1);
    }
}

/// Once a scan has found something, scanning further keeps that finding.
pub proof fn lemma_first_some_stable<T>(f: spec_fn(int) -> Option<T>, k: int, m: int)
    requires
        0 <= k <= m,
        first_some(f, k) is Some,
    ensures
        first_some(f, m) == first_some(f, k),
    decreases m - k,
{
    if m > k {
        lemma_first_some_stable(f, k, m - 1);
    }
}

/// A clean prefix of length `i` followed by a hit at `i` makes that hit the
/// result of every longer scan.
pub proof fn lemma_first_some_hit<T>(f: spec_fn(int) -> Option<T>, i: int, m: int)
    requires
        0 <= i < m,
        first_some(f, i) is None,
        f(i) is Some,
    ensures
        first_some(f, m) == f(i),
{
    assert(first_some(f, i + 1) == f(i));
    lemma_first_some_stable(f, i + 1, m);
}

/// A scan that finds nothing over `k` positions finds nothing at any of them.
pub proof fn lemma_first_some_none_all<T>(f: spec_fn(int) -> Option<T>, k: int)
    requires
        first_some(f, k) is None,
    ensures
        forall|j: int| 0 <= j < k ==> #[trigger] f(j) is None,
    decreases k,
{
    if k > 0 {
        lemma_first_some_none_all(f, k - 1);
    }
}

/// A hit reported by the scan comes from some position below `k` whose
/// predecessors are all clean.
pub proof fn lemma_first_some_witness<T>(f: spec_fn(int) -> Option<T>, k: int) -> (i: int)
    requires
        first_some(f, k) is Some,
    ensures
        0 <= i < k,
        first_some(f, i) is None,
        f(i) == first_some(f, k),
    decreases k,
{
    if first_some(f, k - 1) is Some {
        lemma_first_some_witness(f, k - 1)
    } else {
        k - 1
    }
}

} // verus!
