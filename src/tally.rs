//! The counts that a run over the locales of a directory keeps.

use vstd::prelude::*;

verus! {

/// How the work on one locale ended.
#[derive(Clone, Copy, Debug, PartialEq, Eq)]
pub enum LocaleOutcome {
    /// The locale has no main catalog: nothing was read or written.
    Skipped,
    /// The catalogs of the locale were reconciled.
    Reconciled,
    /// Loading or persisting a catalog of the locale failed.
    Failed,
}

/// Counts of the locales handled so far.
#[derive(Clone, Copy, Debug, PartialEq, Eq)]
pub struct Tally {
    /// Locales that ended without error, skipped ones included.
    pub processed: usize,
    /// Locales whose work failed.
    pub errors: usize,
}

impl Tally {
    pub fn new() -> (r: Tally)
        ensures
            r.processed == 0,
            r.errors == 0,
    {
        Tally { processed: 0, errors: 0 }
    }

    /// Counts one more locale: a failure as an error, anything else as
    /// processed.
    pub fn record(&mut self, outcome: LocaleOutcome)
        requires
            old(self).processed < usize::MAX,
            old(self).errors < usize::MAX,
        ensures
            outcome == LocaleOutcome::Failed ==> final(self).errors == old(self).errors + 1
                && final(self).processed == old(self).processed,
            outcome != LocaleOutcome::Failed ==> final(self).processed == old(self).processed + 1
                && final(self).errors == old(self).errors,
    {
        match outcome {
            LocaleOutcome::Failed => {
                self.errors = self.errors + 1;
            },
            _ => {
                self.processed = self.processed + 1;
            },
        }
    }

    /// A run succeeds when no locale failed.
    pub fn succeeded(&self) -> (r: bool)
        ensures
            r == (self.errors == 0),
    {
        self.errors == 0
    }
}

} // verus!
