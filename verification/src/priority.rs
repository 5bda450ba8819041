//! Listener priorities.
use vstd::prelude::*;

verus! {

/// How early a listener runs: listeners with a higher priority run first.
///
/// The six levels are totally ordered. Only their relative order matters to the
/// dispatcher; the numeric ranks leave room between neighbouring levels.
#[derive(Debug, Clone, Copy, PartialEq, Eq, Structural, PartialOrd, Ord, Hash)]
pub enum Priority {
    /// Rank 0.
    Lowest,
    /// Rank 25.
    Low,
    /// Rank 50, the default.
    Normal,
    /// Rank 75.
    High,
    /// Rank 100.
    Highest,
    /// Rank 125, to be used sparingly.
    Critical,
}

impl Priority {
    /// The numeric rank of a level.
    pub open spec fn rank(self) -> int {
        match self {
            Priority::Lowest => 0,
            Priority::Low => 25,
            Priority::Normal => 50,
            Priority::High => 75,
            Priority::Highest => 100,
            Priority::Critical => 125,
        }
    }

    /// The levels from the most urgent to the least urgent.
    pub open spec fn descending() -> Seq<Priority> {
        seq![
            Priority::Critical,
            Priority::Highest,
            Priority::High,
            Priority::Normal,
            Priority::Low,
            Priority::Lowest,
        ]
    }

    /// The numeric rank of this level.
    pub fn value(self) -> (r: u8)
        ensures
            r == self.rank(),
    {
        match self {
            Priority::Lowest => 0,
            Priority::Low => 25,
            Priority::Normal => 50,
            Priority::High => 75,
            Priority::Highest => 100,
            Priority::Critical => 125,
        }
    }

    /// Whether this level is at least as urgent as `other`.
    pub fn at_least(self, other: Priority) -> (r: bool)
        ensures
            r == (self.rank() >= other.rank()),
    {
        self.value() >= other.value()
    }

    /// All priority levels, most urgent first.
    pub fn all() -> (r: &'static [Priority])
        ensures
            r@ == Priority::descending(),
    {
        let levels: &'static [Priority] = &[
            Priority::Critical,
            Priority::Highest,
            Priority::High,
            Priority::Normal,
            Priority::Low,
            Priority::Lowest,
        ];
        assert(levels@ =~= Priority::descending());
        levels
    }

    /// The ranks of two levels are equal only if the levels are, so ordering by rank is a
    /// total order on the levels.
    pub proof fn lemma_rank_injective(a: Priority, b: Priority)
        ensures
            a.rank() == b.rank() <==> a == b,
    {
    }

    /// `descending()` lists every level exactly once, in strictly falling rank.
    pub proof fn lemma_descending_complete()
        ensures
            Priority::descending().len() == 6,
            forall|p: Priority| Priority::descending().contains(p),
            forall|i: int, j: int|
                0 <= i < j < 6 ==> Priority::descending()[i].rank() > Priority::descending()[j].rank(),
    {
        let s = Priority::descending();
        assert forall|p: Priority| s.contains(p) by {
            match p {
                Priority::Critical => { assert(s[0] == p); }
                Priority::Highest => { assert(s[1] == p); }
                Priority::High => { assert(s[2] == p); }
                Priority::Normal => { assert(s[3] == p); }
                Priority::Low => { assert(s[4] == p); }
                Priority::Lowest => { assert(s[5] == p); }
            }
        }
    }
}

impl Default for Priority {
    /// The default level is `Normal`.
    fn default() -> (r: Self)
        ensures
            r == Priority::Normal,
    {
        Priority::Normal
    }
}

} // verus!
