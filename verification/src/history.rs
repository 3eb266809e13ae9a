//! Sender history: the per-class observation counts that the history features
//! are built from.

use vstd::prelude::*;

verus! {

/// Per-class observation counts for one sender (a domain or an address), indexed
/// by class: `[p1, p2, p3]`.
pub type ClassCounts = [u32; 3];

/// The "no history" counts, which also stand for a sender whose history is
/// unknown.
pub const ZERO: ClassCounts = [0, 0, 0];

/// The sum of the three counts.
pub open spec fn sum(counts: Seq<u32>) -> int {
    counts[0] + counts[1] + counts[2]
}

/// The total number of observations.
pub fn total(counts: &ClassCounts) -> (r: u32)
    requires
        sum(counts@) <= u32::MAX,
    ensures
        r == sum(counts@),
{
    counts[0] + counts[1] + counts[2]
}

/// The total is that of all three classes: one more observation of any class is one more
/// in the total, and no observations are none.
pub proof fn law_every_observation_counts(counts: Seq<u32>, class: int)
    requires
        counts.len() == 3,
        0 <= class < 3,
        counts[class] < u32::MAX,
    ensures
        sum(counts.update(class, (counts[class] + 1) as u32)) == sum(counts) + 1,
        sum(seq![0u32, 0u32, 0u32]) == 0,
        sum(ZERO@) == 0,
{
}

} // verus!
