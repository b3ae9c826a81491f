//! The batch executor.
//!
//! The executor walks a [`SortPlan`] entry by entry.  It performs no
//! filesystem work itself: when a rename is due it hands the pair out
//! through [`Executor::pending_rename`], and the caller reports back with
//! [`Executor::record_success`] or [`Executor::record_failure`].  On a dry
//! run no rename is ever handed out, and after a failure none is either:
//! the rest of the batch is abandoned, with no rollback of renames already
//! made.

use vstd::prelude::*;

use crate::errors::SortError;
use crate::planner::SortPlan;
use crate::structs::File;

verus! {

/// The lengths of a plan agree: sources and destinations pair up, and the
/// eligible count is their common length.
pub open spec fn plan_wf(p: &SortPlan) -> bool {
    &&& p.sources@.len() == p.destinations@.len()
    &&& p.total_eligible == p.sources@.len()
}

/// The state of one execution pass over a plan.
#[derive(Debug)]
pub struct Executor {
    /// The plan being executed.
    pub plan: SortPlan,
    /// How many entries have been completed so far.
    pub done: usize,
    /// Whether a rename failed; once set, no further rename is handed out.
    pub failed: bool,
    /// Whether this is a dry run: the plan is only walked for reporting,
    /// and no rename is ever handed out.
    pub dry_run: bool,
}

impl Executor {
    /// The state an executor can be in.
    pub open spec fn wf(&self) -> bool {
        &&& plan_wf(&self.plan)
        &&& self.done <= self.plan.sources@.len()
    }

    /// A fresh executor at the start of `plan`.
    pub fn new(plan: SortPlan, dry_run: bool) -> (r: Executor)
        requires
            plan_wf(&plan),
        ensures
            r.wf(),
            r.plan == plan,
            r.done == 0,
            !r.failed,
            r.dry_run == dry_run,
    {
        Executor { plan, done: 0, failed: false, dry_run }
    }

    /// Whether entries remain to process (for renaming, or for reporting on
    /// a dry run).
    pub fn remaining(&self) -> (r: bool)
        ensures
            r == (!self.failed && self.done < self.plan.sources@.len()),
    {
        !self.failed && self.done < self.plan.sources.len()
    }

    /// The rename the caller must perform next: the pending plan entry,
    /// unless this is a dry run, a rename has failed, or the plan is done.
    /// A dry run never mutates the filesystem because no rename is ever
    /// handed out for one.
    pub fn pending_rename(&self) -> (r: Option<(&File, &File)>)
        requires
            self.wf(),
        ensures
            self.dry_run || self.failed || self.done >= self.plan.sources@.len() ==> r is None,
            match r {
                Option::Some(p) => {
                    &&& !self.dry_run
                    &&& !self.failed
                    &&& self.done < self.plan.sources@.len()
                    &&& p.0@ == self.plan.sources@[self.done as int]@
                    &&& p.1@ == self.plan.destinations@[self.done as int]@
                },
                Option::None => self.dry_run || self.failed || self.done
                    >= self.plan.sources@.len(),
            },
    {
        if self.dry_run || self.failed || self.done >= self.plan.sources.len() {
            Option::None
        } else {
            Option::Some((&self.plan.sources[self.done], &self.plan.destinations[self.done]))
        }
    }

    /// Record that the pending entry was completed: renamed, or only
    /// reported on a dry run.
    pub fn record_success(&mut self)
        requires
            old(self).wf(),
            !old(self).failed,
            old(self).done < old(self).plan.sources@.len(),
        ensures
            final(self).wf(),
            final(self).plan == old(self).plan,
            final(self).done == old(self).done + 1,
            !final(self).failed,
            final(self).dry_run == old(self).dry_run,
    {
        self.done = self.done + 1;
    }

    /// Record that the pending rename failed: the run aborts, completed
    /// renames stay, and no further rename is handed out.  The error
    /// returned reports the failed pair.
    pub fn record_failure(&mut self) -> (r: SortError)
        requires
            old(self).wf(),
            old(self).done < old(self).plan.sources@.len(),
        ensures
            final(self).wf(),
            final(self).plan == old(self).plan,
            final(self).done == old(self).done,
            final(self).failed,
            final(self).dry_run == old(self).dry_run,
            r matches SortError::RenameFailed { source, destination }
                && source@ == final(self).plan.sources@[final(self).done as int]@
                && destination@ == final(self).plan.destinations@[final(self).done as int]@,
    {
        self.failed = true;
        SortError::RenameFailed {
            source: self.plan.sources[self.done].to_string(),
            destination: self.plan.destinations[self.done].to_string(),
        }
    }

    /// The progress made so far, as `(items done, total items, percent)`.
    pub fn progress(&self) -> (r: (usize, usize, usize))
        requires
            self.wf(),
            self.plan.sources@.len() > 0,
        ensures
            r.0 == self.done,
            r.1 == self.plan.total_eligible,
            r.2 == (self.done as int) * 100 / (self.plan.total_eligible as int),
    {
        let done = self.done;
        let total = self.plan.total_eligible;
        let percent_wide = (done as u128) * 100 / (total as u128);
        proof {
            vstd::arithmetic::div_mod::lemma_div_is_ordered(
                (done as int) * 100,
                (total as int) * 100,
                total as int,
            );
            vstd::arithmetic::div_mod::lemma_div_multiples_vanish(100, total as int);
            assert(percent_wide <= 100);
        }
        let percent = percent_wide as usize;
        (done, total, percent)
    }

    /// The results of the run, as the tuple `(count, sources,
    /// destinations)`: the eligible count and the planned pairs.
    pub fn into_results(self) -> (r: (usize, Vec<File>, Vec<File>))
        ensures
            r.0 == self.plan.total_eligible,
            r.1 == self.plan.sources,
            r.2 == self.plan.destinations,
    {
        (self.plan.total_eligible, self.plan.sources, self.plan.destinations)
    }
}

} // verus!
