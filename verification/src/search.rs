//! The first index that has a property.
use vstd::prelude::*;

verus! {

/// The least index below `n` that has the property.
pub open spec fn first(n: nat, p: spec_fn(int) -> bool) -> Option<int>
    decreases n,
{
    if n == 0 {
        None
    } else {
        match first((n - 1) as nat, p) {
            Some(i) => Some(i),
            None => if p(n - 1) {
                Some(n - 1)
            } else {
                None
            },
        }
    }
}

/// `first` gives an index with the property and none below it, or nothing where no index has it.
pub proof fn lemma_first(n: nat, p: spec_fn(int) -> bool)
    ensures
        match first(n, p) {
            Some(i) => 0 <= i < n && p(i) && forall|k: int| 0 <= k < i ==> !#[trigger] p(k),
            None => forall|k: int| 0 <= k < n ==> !#[trigger] p(k),
        },
    decreases n,
{
    if n > 0 {
        lemma_first((n - 1) as nat, p);
    }
}

/// An index with the property and none below it is the one that `first` gives.
pub proof fn lemma_first_is(n: nat, p: spec_fn(int) -> bool, i: int)
    requires
        0 <= i < n,
        p(i),
        forall|k: int| 0 <= k < i ==> !#[trigger] p(k),
    ensures
        first(n, p) == Some(i),
{
    lemma_first(n, p);
    match first(n, p) {
        Some(j) => {
            if i < j {
                assert(!p(i));
            } else if j < i {
                assert(!p(j));
            }
        },
        None => {
            assert(!p(i));
        },
    }
}

} // verus!
