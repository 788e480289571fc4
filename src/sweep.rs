//! The tally of a sweep that strips markers from every file of a directory:
//! a failure on one file is counted and the sweep goes on.

use vstd::prelude::*;
use crate::numbering::{decimal, decimal_string, push_text};

verus! {

/// What stripping did to one file.
#[derive(Clone, Copy, Debug, PartialEq, Eq, Structural)]
pub enum FileOutcome {
    Removed,
    Unchanged,
    Failed,
}

/// Files processed, files from which markers were removed, and files that
/// failed.
#[derive(Clone, Copy, Debug, PartialEq, Eq, Structural)]
pub struct SweepReport {
    pub processed: u64,
    pub removed: u64,
    pub errors: u64,
}

impl SweepReport {
    /// Every removal and every failure is also a processed file.
    pub open spec fn wf(&self) -> bool {
        self.removed + self.errors <= self.processed
    }

    pub fn new() -> (r: SweepReport)
        ensures
            r.wf(),
            r.processed == 0 && r.removed == 0 && r.errors == 0,
    {
        SweepReport { processed: 0, removed: 0, errors: 0 }
    }

    /// Counts one more file, with its outcome.
    pub fn record(&mut self, outcome: FileOutcome)
        requires
            old(self).wf(),
            old(self).processed < u64::MAX,
        ensures
            final(self).wf(),
            final(self).processed == old(self).processed + 1,
            final(self).removed == old(self).removed + if outcome == FileOutcome::Removed {
                1int
            } else {
                0int
            },
            final(self).errors == old(self).errors + if outcome == FileOutcome::Failed {
                1int
            } else {
                0int
            },
    {
        self.processed = self.processed + 1;
        match outcome {
            FileOutcome::Removed => self.removed = self.removed + 1,
            FileOutcome::Failed => self.errors = self.errors + 1,
            FileOutcome::Unchanged => {},
        }
    }

    /// The report as text, one count per line.
    pub fn summary(&self) -> (r: String)
        ensures
            r@ == "Watermark removal completed.\nFiles processed: "@ + decimal(
                self.processed as nat,
            ) + "\nWatermarks removed: "@ + decimal(self.removed as nat) + "\nErrors: "@
                + decimal(self.errors as nat),
    {
        let mut r = String::new();
        push_text(&mut r, "Watermark removal completed.\nFiles processed: ");
        let p = decimal_string(self.processed);
        push_text(&mut r, p.as_str());
        push_text(&mut r, "\nWatermarks removed: ");
        let m = decimal_string(self.removed);
        push_text(&mut r, m.as_str());
        push_text(&mut r, "\nErrors: ");
        let e = decimal_string(self.errors);
        push_text(&mut r, e.as_str());
        r
    }
}

} // verus!
