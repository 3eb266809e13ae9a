//! The shared vocabulary: the [`Priority`] enum and the single source of truth
//! for the mapping between priorities and tags.
//!
//! Higher is more important:
//!
//! - `P1` is `prio-low`, class index 0
//! - `P2` is `prio-normal`, class index 1
//! - `P3` is `prio-high`, class index 2
//!
//! The flat `auto` marker is no priority and is not modelled here.

use vstd::prelude::*;

use crate::strings::str_eq;

verus! {

/// Ordered email priority: `P1 < P2 < P3`, with `P3` the most important.
#[derive(Debug, Clone, Copy, PartialEq, Eq, Structural)]
pub enum Priority {
    P1,
    P2,
    P3,
}

impl Priority {
    /// All priorities in class-index order.
    pub const ALL: [Priority; 3] = [Priority::P1, Priority::P2, Priority::P3];

    /// The class index of this priority.
    pub open spec fn index(self) -> nat {
        match self {
            Priority::P1 => 0,
            Priority::P2 => 1,
            Priority::P3 => 2,
        }
    }

    /// The tag of this priority.
    pub open spec fn tag(self) -> Seq<char> {
        match self {
            Priority::P1 => "prio-low"@,
            Priority::P2 => "prio-normal"@,
            Priority::P3 => "prio-high"@,
        }
    }

    /// Class index used to position this priority in count and probability
    /// arrays.
    pub fn to_index(self) -> (r: usize)
        ensures
            r == self.index(),
    {
        match self {
            Priority::P1 => 0,
            Priority::P2 => 1,
            Priority::P3 => 2,
        }
    }

    /// Inverse of [`to_index`](Priority::to_index). Returns `None` for
    /// out-of-range indices.
    pub fn from_index(i: usize) -> (r: Option<Priority>)
        ensures
            forall|p: Priority| r == Some(p) <==> #[trigger] p.index() == i,
            r is None <==> i >= 3,
    {
        match i {
            0 => Some(Priority::P1),
            1 => Some(Priority::P2),
            2 => Some(Priority::P3),
            _ => None,
        }
    }

    /// The notmuch tag of this priority. This is the only place the tag strings
    /// are written.
    pub fn to_tag(self) -> (r: &'static str)
        ensures
            r@ == self.tag(),
    {
        match self {
            Priority::P1 => "prio-low",
            Priority::P2 => "prio-normal",
            Priority::P3 => "prio-high",
        }
    }

    /// Parse a notmuch tag back into a priority. Returns `None` for any string
    /// that is not one of the three priority tags.
    pub fn from_tag(tag: &str) -> (r: Option<Priority>)
        ensures
            forall|p: Priority| r == Some(p) <==> #[trigger] p.tag() == tag@,
            r is None <==> forall|p: Priority| #[trigger] p.tag() != tag@,
    {
        proof {
            lemma_tags_differ();
        }
        if str_eq(tag, Priority::P1.to_tag()) {
            Some(Priority::P1)
        } else if str_eq(tag, Priority::P2.to_tag()) {
            Some(Priority::P2)
        } else if str_eq(tag, Priority::P3.to_tag()) {
            Some(Priority::P3)
        } else {
            None
        }
    }
}

proof fn lemma_tags_differ()
    ensures
        forall|p: Priority, q: Priority| #[trigger] p.tag() == #[trigger] q.tag() ==> p == q,
{
    reveal_strlit("prio-low");
    reveal_strlit("prio-normal");
    reveal_strlit("prio-high");
    assert("prio-low"@.len() == 8);
    assert("prio-normal"@.len() == 11);
    assert("prio-high"@.len() == 9);
}

/// The class index tells the priorities apart, so that what
/// [`Priority::to_index`] gives [`Priority::from_index`] turns back.
pub proof fn law_index_round_trips(p: Priority, q: Priority)
    ensures
        p.index() < 3,
        p.index() == q.index() <==> p == q,
{
}

/// [`Priority::ALL`] holds every priority at its class index.
pub proof fn law_all_is_in_index_order(p: Priority)
    ensures
        Priority::ALL@.len() == 3,
        Priority::ALL@[p.index() as int] == p,
{
}

/// The tag tells the priorities apart, so that what [`Priority::to_tag`] gives
/// [`Priority::from_tag`] turns back.
pub proof fn law_tag_round_trips(p: Priority, q: Priority)
    ensures
        p.tag() == q.tag() <==> p == q,
{
    lemma_tags_differ();
}

/// The index and the tag of each priority: the most important has the highest index.
pub proof fn law_priorities()
    ensures
        Priority::P1.index() == 0,
        Priority::P2.index() == 1,
        Priority::P3.index() == 2,
        Priority::P1.tag() == "prio-low"@,
        Priority::P2.tag() == "prio-normal"@,
        Priority::P3.tag() == "prio-high"@,
{
}

} // verus!
