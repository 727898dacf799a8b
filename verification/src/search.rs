//! Least and greatest positions at which a sequence of flags holds.

use vstd::prelude::*;

verus! {

/// The least position at or after `from` whose flag is set, or the length of
/// `flags` where there is none.
pub open spec fn first_true(flags: Seq<bool>, from: int) -> int
    decreases flags.len() - from,
{
    if from >= flags.len() {
        flags.len() as int
    } else if flags[from] {
        from
    } else {
        first_true(flags, from + 1)
    }
}

/// The greatest position below `upto` whose flag is set, or `-1` where there
/// is none.
pub open spec fn last_true(flags: Seq<bool>, upto: int) -> int
    decreases upto,
{
    if upto <= 0 {
        -1
    } else if flags[upto - 1] {
        upto - 1
    } else {
        last_true(flags, upto - 1)
    }
}

/// `first_true` is characterized by its three properties: it lies between
/// `from` and the length, no flag is set before it, and its own flag is set
/// unless it is the length.
pub proof fn lemma_first_true(flags: Seq<bool>, from: int)
    requires
        0 <= from <= flags.len(),
    ensures
        from <= first_true(flags, from) <= flags.len(),
        forall|j: int| from <= j < first_true(flags, from) ==> !flags[j],
        first_true(flags, from) < flags.len() ==> flags[first_true(flags, from)],
    decreases flags.len() - from,
{
    if from < flags.len() && !flags[from] {
        lemma_first_true(flags, from + 1);
    }
}

/// A position with the three properties of `first_true` is `first_true`.
pub proof fn lemma_first_true_is(flags: Seq<bool>, from: int, k: int)
    requires
        0 <= from <= k <= flags.len(),
        forall|j: int| from <= j < k ==> !flags[j],
        k < flags.len() ==> flags[k],
    ensures
        first_true(flags, from) == k,
    decreases k - from,
{
    if from < k {
        lemma_first_true_is(flags, from + 1, k);
    }
}

/// A position with the three properties of `last_true` is `last_true`.
pub proof fn lemma_last_true_is(flags: Seq<bool>, upto: int, k: int)
    requires
        0 <= upto <= flags.len(),
        -1 <= k < upto,
        forall|j: int| k < j < upto ==> !flags[j],
        k >= 0 ==> flags[k],
    ensures
        last_true(flags, upto) == k,
    decreases upto,
{
    if upto > 0 && k < upto - 1 {
        lemma_last_true_is(flags, upto - 1, k);
    }
}

} // verus!
