//! The choice of the log to read among the files of a directory.

use vstd::prelude::*;

verus! {

/// Whether `k` is the position of the latest of `stamps`: no stamp is later,
/// and of the stamps as late as it none comes after it.
pub open spec fn is_latest(stamps: Seq<i128>, k: int) -> bool {
    &&& 0 <= k < stamps.len()
    &&& forall|j: int| 0 <= j < stamps.len() ==> stamps[j] <= stamps[k]
    &&& forall|j: int| k < j < stamps.len() ==> stamps[j] < stamps[k]
}

/// The position of the most recent among the creation times `stamps`, the
/// last one where several are as recent; `None` where there is no stamp.
pub fn most_recent(stamps: &Vec<i128>) -> (r: Option<usize>)
    ensures
        r is None <==> stamps@.len() == 0,
        r matches Some(k) ==> is_latest(stamps@, k as int),
{
    if stamps.len() == 0 {
        return None;
    }
    let mut best: usize = 0;
    let mut i: usize = 1;
    while i < stamps.len()
        invariant
            best < i <= stamps.len(),
            forall|j: int| 0 <= j < i ==> stamps@[j] <= stamps@[best as int],
            forall|j: int| best < j < i ==> stamps@[j] < stamps@[best as int],
        decreases stamps.len() - i,
    {
        if stamps[i] >= stamps[best] {
            best = i;
        }
        i += 1;
    }
    Some(best)
}

/// At most one position is the latest.
pub proof fn lemma_latest_unique(stamps: Seq<i128>, a: int, b: int)
    requires
        is_latest(stamps, a),
        is_latest(stamps, b),
    ensures
        a == b,
{
    if a < b {
        assert(stamps[b] < stamps[a]);
        assert(stamps[a] <= stamps[b]);
    } else if b < a {
        assert(stamps[a] < stamps[b]);
        assert(stamps[b] <= stamps[a]);
    }
}

} // verus!
