//! The options of a run.

use crate::types::Status;
use vstd::prelude::*;

verus! {

/// The options that the command line sets.
#[derive(Debug, Clone)]
pub struct Args {
    /// Whether the target directory itself is a candidate.
    pub include_dot: bool,
    /// Report only results with the verdict `Safe`.
    pub only_safe: bool,
    /// Report only results with the verdict `Unsafe`.
    pub only_unsafe: bool,
    /// Report only results with the verdict `Unknown`.
    pub only_unknown: bool,
    /// Report as JSON.
    pub json: bool,
    /// Leave untracked entries out of the count of dirty entries.
    pub ignore_untracked: bool,
    /// Let results with the verdict `Unknown` be deleted too.
    pub allow_unknown: bool,
    /// Delete rather than report.
    pub delete: bool,
    /// Do not ask before deleting.
    pub yes: bool,
    /// Move to the trash rather than deleting for good.
    pub trash: bool,
    /// Show what would be deleted and delete nothing.
    pub dry_run: bool,
    /// The directory to scan.
    pub path: String,
}

/// What a run does with the results of the scan.
#[derive(Debug, Clone, Copy, PartialEq, Eq, Structural)]
pub enum RunMode {
    /// Report them.
    Report,
    /// Show the candidates for deletion and delete nothing.
    DryRun,
    /// Delete the candidates.
    Delete,
}

impl Args {
    /// The verdict to which the report is restricted, if it is: the first
    /// of `only_safe`, `only_unsafe`, `only_unknown` that is set decides.
    pub open spec fn spec_status_filter(self) -> Option<Status> {
        if self.only_safe {
            Some(Status::Safe)
        } else if self.only_unsafe {
            Some(Status::Unsafe)
        } else if self.only_unknown {
            Some(Status::Unknown)
        } else {
            None
        }
    }

    /// What the run does: it reports unless `delete` is set, and with
    /// `delete` it deletes unless `dry_run` is set.
    pub open spec fn spec_run_mode(self) -> RunMode {
        if !self.delete {
            RunMode::Report
        } else if self.dry_run {
            RunMode::DryRun
        } else {
            RunMode::Delete
        }
    }

    /// The verdict to which the report is restricted, if it is.
    pub fn status_filter(&self) -> (filter: Option<Status>)
        ensures
            filter == self.spec_status_filter(),
    {
        if self.only_safe {
            Some(Status::Safe)
        } else if self.only_unsafe {
            Some(Status::Unsafe)
        } else if self.only_unknown {
            Some(Status::Unknown)
        } else {
            None
        }
    }

    /// What the run does with the results of the scan.
    pub fn run_mode(&self) -> (mode: RunMode)
        ensures
            mode == self.spec_run_mode(),
    {
        if !self.delete {
            RunMode::Report
        } else if self.dry_run {
            RunMode::DryRun
        } else {
            RunMode::Delete
        }
    }
}

} // verus!
