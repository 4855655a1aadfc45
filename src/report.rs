use vstd::prelude::*;
use crate::date_path::Failure;
use crate::traversal::Decision;

verus! {

/// What finally became of one entry of a plan.
#[derive(Clone, Copy, Debug, PartialEq, Eq, Structural)]
pub enum Outcome {
    /// The file was moved to its destination.
    Moved,
    /// The entry was not eligible, or already in place: nothing to do.
    Skipped,
    /// The entry could not be dealt with, for this reason.
    Failed(Failure),
}

/// The outcome that a decision settles by itself, without touching the
/// filesystem; `None` for a relocation, whose outcome depends on the move.
pub fn settled_outcome(d: &Decision) -> (r: Option<Outcome>)
    ensures
        r == match d {
            Decision::Ignore | Decision::AlreadyPlaced => Some(Outcome::Skipped),
            Decision::Skip(f) => Some(Outcome::Failed(*f)),
            Decision::Relocate(_) => None::<Outcome>,
        },
{
    match d {
        Decision::Ignore => Some(Outcome::Skipped),
        Decision::AlreadyPlaced => Some(Outcome::Skipped),
        Decision::Skip(f) => Some(Outcome::Failed(*f)),
        Decision::Relocate(_) => None,
    }
}

/// Adds one to a count, staying at the largest value once it is reached.
pub open spec fn bump(n: u64) -> u64 {
    if n < u64::MAX {
        (n + 1) as u64
    } else {
        n
    }
}

/// Counts of outcomes over a run.
#[derive(Clone, Copy, Debug, PartialEq, Eq, Structural)]
pub struct Summary {
    pub moved: u64,
    pub skipped: u64,
    pub failed: u64,
}

impl Summary {
    /// A summary of no outcome yet.
    pub fn new() -> (r: Summary)
        ensures
            r == (Summary { moved: 0, skipped: 0, failed: 0 }),
    {
        Summary { moved: 0, skipped: 0, failed: 0 }
    }

    /// Counts one more outcome.
    pub fn record(&mut self, outcome: Outcome)
        ensures
            *final(self) == match outcome {
                Outcome::Moved => Summary { moved: bump(old(self).moved), ..*old(self) },
                Outcome::Skipped => Summary { skipped: bump(old(self).skipped), ..*old(self) },
                Outcome::Failed(_) => Summary { failed: bump(old(self).failed), ..*old(self) },
            },
    {
        match outcome {
            Outcome::Moved => {
                if self.moved < u64::MAX {
                    self.moved = self.moved + 1;
                }
            },
            Outcome::Skipped => {
                if self.skipped < u64::MAX {
                    self.skipped = self.skipped + 1;
                }
            },
            Outcome::Failed(_) => {
                if self.failed < u64::MAX {
                    self.failed = self.failed + 1;
                }
            },
        }
    }
}

} // verus!
