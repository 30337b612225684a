//! Aggregate counters for a single entity.

use vstd::prelude::*;

use crate::sat_add;

verus! {

/// The combined activity of a score: all three counters summed, saturating.
pub open spec fn spec_activity(v: ScoreView) -> u64 {
    sat_add(sat_add(v.prs_opened, v.pushes), v.commits)
}

/// Mathematical model of one entity's aggregate counters.
#[verifier::ext_equal]
pub struct ScoreView {
    /// The entity's name, as first observed.
    pub name: Seq<u8>,
    /// How many opened-candidate records with action `"opened"` were counted.
    pub prs_opened: u64,
    /// How many push-candidate records with a positive unit count were counted.
    pub pushes: u64,
    /// The sum of the unit counts of the counted push-candidate records.
    pub commits: u64,
}

/// Aggregate counters for one entity: its identity, its name as first
/// observed, and three monotonically growing counters.
pub struct EntityScore {
    pub id: u64,
    pub name: Vec<u8>,
    pub prs_opened: u64,
    pub pushes: u64,
    pub commits: u64,
}

impl View for EntityScore {
    type V = ScoreView;

    open spec fn view(&self) -> ScoreView {
        ScoreView {
            name: self.name@,
            prs_opened: self.prs_opened,
            pushes: self.pushes,
            commits: self.commits,
        }
    }
}

impl EntityScore {
    /// A fresh score: the observed name, all counters zero.
    pub fn new(id: u64, name: Vec<u8>) -> (r: EntityScore)
        ensures
            r.id == id,
            r@ == (ScoreView { name: name@, prs_opened: 0, pushes: 0, commits: 0 }),
    {
        EntityScore { id, name, prs_opened: 0, pushes: 0, commits: 0 }
    }

    /// The combined activity of this score.
    pub fn activity(&self) -> (t: u64)
        ensures
            t == spec_activity(self@),
    {
        self.prs_opened.saturating_add(self.pushes).saturating_add(self.commits)
    }

    /// An exact copy of this score.
    pub fn duplicate(&self) -> (r: EntityScore)
        ensures
            r.id == self.id,
            r@ == self@,
    {
        let mut name: Vec<u8> = Vec::new();
        name.extend_from_slice(self.name.as_slice());
        assert(name@ =~= self.name@);
        EntityScore {
            id: self.id,
            name,
            prs_opened: self.prs_opened,
            pushes: self.pushes,
            commits: self.commits,
        }
    }
}

} // verus!
