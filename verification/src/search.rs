//! The first position, below a bound, at which a condition holds.

use vstd::prelude::*;

verus! {

/// The least `i` with `0 <= i < n` and `holds(i)`, if there is one.
pub open spec fn first_index(n: int, holds: spec_fn(int) -> bool) -> Option<int>
    decreases n,
{
    if n <= 0 {
        None
    } else {
        match first_index(n - 1, holds) {
            Some(i) => Some(i),
            None => if holds(n - 1) {
                Some(n - 1)
            } else {
                None
            },
        }
    }
}

/// [`first_index`] finds a position where the condition holds and before
/// which it does not; it finds none only where the condition never holds.
pub proof fn lemma_first_index(n: int, holds: spec_fn(int) -> bool)
    ensures
        match first_index(n, holds) {
            Some(i) => 0 <= i < n && holds(i) && forall|j: int| 0 <= j < i ==> !(#[trigger] holds(j)),
            None => forall|j: int| 0 <= j < n ==> !(#[trigger] holds(j)),
        },
    decreases n,
{
    if n > 0 {
        lemma_first_index(n - 1, holds);
    }
}

/// A position where the condition holds, and before which it does not, is
/// the one that [`first_index`] finds.
pub proof fn lemma_first_index_is(n: int, holds: spec_fn(int) -> bool, i: int)
    requires
        0 <= i < n,
        holds(i),
        forall|j: int| 0 <= j < i ==> !(#[trigger] holds(j)),
    ensures
        first_index(n, holds) == Some(i),
{
    lemma_first_index(n, holds);
}

/// Where the condition holds at no position, [`first_index`] finds none.
pub proof fn lemma_first_index_none(n: int, holds: spec_fn(int) -> bool)
    requires
        forall|j: int| 0 <= j < n ==> !(#[trigger] holds(j)),
    ensures
        first_index(n, holds) is None,
{
    lemma_first_index(n, holds);
}

} // verus!
