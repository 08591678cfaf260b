//! Garbage collection of chunk files: what to do with each file found on
//! disk, and the tally of a pass.
use vstd::prelude::*;

use crate::index::Index;

verus! {

/// Outcome of an orphan/fsck garbage-collection pass.
#[derive(Debug, Clone)]
pub struct GcReport {
    /// Orphaned chunk files (on disk, unreferenced) that were deleted.
    pub orphans_removed: usize,
    /// Orphan candidates left alone because they were modified within the grace
    /// period (possibly an in-flight upload).
    pub orphans_skipped: usize,
    /// Index entries with no backing file on disk (data loss — logged, not fixed).
    pub dangling: usize,
}

impl Default for GcReport {
    fn default() -> (r: Self)
        ensures
            r.orphans_removed == 0,
            r.orphans_skipped == 0,
            r.dangling == 0,
    {
        GcReport { orphans_removed: 0, orphans_skipped: 0, dangling: 0 }
    }
}

/// What a collection pass does with one chunk file.
pub enum OrphanAction {
    /// The index references the chunk.
    Keep,
    /// Unreferenced but written within the grace period: left alone.
    Skip,
    /// Unreferenced and old enough: deleted.
    Remove,
}

/// The action for a chunk file named by `file_hex`, given whether it was
/// modified within the grace period.
pub open spec fn orphan_action_spec(indexed: bool, recent: bool) -> OrphanAction {
    if indexed {
        OrphanAction::Keep
    } else if recent {
        OrphanAction::Skip
    } else {
        OrphanAction::Remove
    }
}

/// Decides what to do with the chunk file of `file_hex`: keep it when the
/// index tracks the chunk, else skip it when `recent`, else remove it.
pub fn orphan_action(index: &Index, file_hex: &str, recent: bool) -> (r: OrphanAction)
    requires
        index.wf(),
    ensures
        r == orphan_action_spec(index@.chunk_locations.dom().contains(file_hex@), recent),
{
    let indexed = index.get_location_by_hex(file_hex).is_some();
    if indexed {
        OrphanAction::Keep
    } else if recent {
        OrphanAction::Skip
    } else {
        OrphanAction::Remove
    }
}

/// How many of the flags are false.
pub open spec fn missing(present: Seq<bool>) -> nat
    decreases present.len(),
{
    if present.len() == 0 {
        0
    } else {
        missing(present.drop_last()) + if present.last() {
            0nat
        } else {
            1nat
        }
    }
}

impl GcReport {
    /// Counts the outcome of one file: a skip, or a removal that succeeded
    /// (a failed removal is not counted).
    pub fn record(&mut self, action: &OrphanAction, removed: bool)
        requires
            old(self).orphans_removed < usize::MAX,
            old(self).orphans_skipped < usize::MAX,
        ensures
            final(self).dangling == old(self).dangling,
            final(self).orphans_skipped == old(self).orphans_skipped + (if *action is Skip {
                1int
            } else {
                0int
            }),
            final(self).orphans_removed == old(self).orphans_removed + (if *action is Remove
                && removed {
                1int
            } else {
                0int
            }),
    {
        match action {
            OrphanAction::Keep => {},
            OrphanAction::Skip => {
                self.orphans_skipped = self.orphans_skipped + 1;
            },
            OrphanAction::Remove => {
                if removed {
                    self.orphans_removed = self.orphans_removed + 1;
                }
            },
        }
    }

    /// Counts the indexed chunks whose file is missing: `present[i]` says
    /// whether the `i`-th indexed chunk has its file.
    pub fn count_dangling(&mut self, present: &Vec<bool>)
        requires
            old(self).dangling + present@.len() <= usize::MAX,
        ensures
            final(self).dangling == old(self).dangling + missing(present@),
            final(self).orphans_removed == old(self).orphans_removed,
            final(self).orphans_skipped == old(self).orphans_skipped,
    {
        let ghost d0 = self.dangling;
        let mut i: usize = 0;
        while i < present.len()
            invariant
                i <= present@.len(),
                self.dangling == d0 + missing(present@.take(i as int)),
                d0 + present@.len() <= usize::MAX,
                missing(present@.take(i as int)) <= i,
                self.orphans_removed == old(self).orphans_removed,
                self.orphans_skipped == old(self).orphans_skipped,
            decreases present@.len() - i,
        {
            assert(present@.take(i + 1).drop_last() =~= present@.take(i as int));
            if !present[i] {
                self.dangling = self.dangling + 1;
            }
            i = i + 1;
        }
        assert(present@.take(present@.len() as int) =~= present@);
    }

    /// Whether the pass found anything worth reporting.
    pub fn is_notable(&self) -> (r: bool)
        ensures
            r == (self.orphans_removed > 0 || self.dangling > 0),
    {
        self.orphans_removed > 0 || self.dangling > 0
    }
}

} // verus!
