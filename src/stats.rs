//! Run-level counters of a batch update.

use vstd::prelude::*;

verus! {

/// Counts accumulated over one run.
#[derive(Clone, Copy, Debug, PartialEq, Eq, Structural)]
pub struct UpdateStats {
    pub papers_processed: usize,
    pub arxiv_updates: usize,
    pub dblp_updates: usize,
    pub errors: usize,
    pub new_publications: usize,
}

/// `x` plus one when `yes`, saturating at the largest value.
pub open spec fn bump(x: usize, yes: bool) -> usize {
    if yes && x < usize::MAX {
        (x + 1) as usize
    } else {
        x
    }
}

/// Adds one to `x` when `yes`, saturating at the largest value.
pub fn bump_count(x: usize, yes: bool) -> (r: usize)
    ensures
        r == bump(x, yes),
{
    if yes && x < usize::MAX {
        x + 1
    } else {
        x
    }
}

impl UpdateStats {
    /// All counts zero.
    pub fn new() -> (r: Self)
        ensures
            r == (UpdateStats {
                papers_processed: 0,
                arxiv_updates: 0,
                dblp_updates: 0,
                errors: 0,
                new_publications: 0,
            }),
    {
        UpdateStats {
            papers_processed: 0,
            arxiv_updates: 0,
            dblp_updates: 0,
            errors: 0,
            new_publications: 0,
        }
    }

    /// Counts one more processed paper.
    pub fn record_paper(&mut self)
        ensures
            *final(self) == (UpdateStats {
                papers_processed: bump(old(self).papers_processed, true),
                ..*old(self)
            }),
    {
        self.papers_processed = bump_count(self.papers_processed, true);
    }

    /// Counts one more error.
    pub fn record_error(&mut self)
        ensures
            *final(self) == (UpdateStats { errors: bump(old(self).errors, true), ..*old(self) }),
    {
        self.errors = bump_count(self.errors, true);
    }
}

} // verus!
