//! The verdict of a repository check and the evidence behind it.
//!
//! Every executable type has a mathematical view (`Reason` as `ReasonView`,
//! `RepoResult` as `RepoResultView`); the contracts of the whole crate are
//! written over these views.

use crate::seqs::{lemma_filter_next, lemma_filter_none};
use vstd::prelude::*;

verus! {

/// How safe it is to delete a repository.
#[derive(Debug, Clone, Copy, PartialEq, Eq, Structural)]
pub enum Status {
    /// Nothing would be lost.
    Safe,
    /// Work exists only in this clone.
    Unsafe,
    /// The checks could not decide.
    Unknown,
}

impl Status {
    /// Position in the precedence order: `Safe` below `Unknown` below `Unsafe`.
    pub open spec fn rank(self) -> nat {
        match self {
            Status::Safe => 0,
            Status::Unknown => 1,
            Status::Unsafe => 2,
        }
    }

    /// The join of the precedence order: the more severe of the two verdicts.
    pub open spec fn spec_join(self, other: Status) -> Status {
        if self.rank() >= other.rank() {
            self
        } else {
            other
        }
    }

    /// Merges two verdicts; the more severe one wins.
    #[verifier::when_used_as_spec(spec_join)]
    pub fn join(self, other: Status) -> (merged: Status)
        ensures
            merged == self.spec_join(other),
    {
        match (self, other) {
            (Status::Unsafe, _) => Status::Unsafe,
            (_, Status::Unsafe) => Status::Unsafe,
            (Status::Unknown, _) => Status::Unknown,
            (_, Status::Unknown) => Status::Unknown,
            _ => Status::Safe,
        }
    }

    /// The text of the upper-case label of a verdict.
    pub open spec fn label(self) -> Seq<char> {
        match self {
            Status::Safe => "SAFE"@,
            Status::Unsafe => "UNSAFE"@,
            Status::Unknown => "UNKNOWN"@,
        }
    }

    /// The upper-case label under which a verdict is reported.
    pub fn to_string(&self) -> (text: String)
        ensures
            text@ == self.label(),
    {
        match self {
            Status::Safe => "SAFE".to_string(),
            Status::Unsafe => "UNSAFE".to_string(),
            Status::Unknown => "UNKNOWN".to_string(),
        }
    }
}

/// One piece of evidence for a verdict.
#[derive(Debug, Clone, PartialEq, Eq)]
pub enum Reason {
    /// The working tree or the index has uncommitted changes.
    UncommittedChanges,
    /// The stash is not empty.
    StashExists,
    /// Some local branch holds commits that no remote-tracking ref reaches.
    LocalOnlyCommits,
    /// No remote is configured, or there are no remote-tracking refs.
    NoRemoteRefs,
    /// A Git invocation failed; the message says how.
    GitError(String),
    /// Every check ran and found nothing.
    AllChecksOk,
}

/// The mathematical value of a `Reason`.
pub enum ReasonView {
    UncommittedChanges,
    StashExists,
    LocalOnlyCommits,
    NoRemoteRefs,
    GitError(Seq<char>),
    AllChecksOk,
}

impl ReasonView {
    /// The verdict that a finding of this kind calls for.
    pub open spec fn severity(self) -> Status {
        match self {
            ReasonView::UncommittedChanges => Status::Unsafe,
            ReasonView::StashExists => Status::Unsafe,
            ReasonView::LocalOnlyCommits => Status::Unsafe,
            ReasonView::NoRemoteRefs => Status::Unknown,
            ReasonView::GitError(_) => Status::Unknown,
            ReasonView::AllChecksOk => Status::Safe,
        }
    }

    /// The sentence that describes a finding to a reader.
    pub open spec fn description(self) -> Seq<char> {
        match self {
            ReasonView::UncommittedChanges => "Uncommitted changes exist"@,
            ReasonView::StashExists => "Stash entries exist"@,
            ReasonView::LocalOnlyCommits => "Local-only commits exist"@,
            ReasonView::NoRemoteRefs => "No remote tracking refs found"@,
            ReasonView::GitError(message) => "Git error: "@ + message,
            ReasonView::AllChecksOk => "All checks passed"@,
        }
    }
}

/// The verdict that `findings` call for together: the join of their
/// severities, `Safe` where there is none.
pub open spec fn joint_severity(findings: Seq<ReasonView>) -> Status
    decreases findings.len(),
{
    if findings.len() == 0 {
        Status::Safe
    } else {
        joint_severity(findings.drop_last()).spec_join(findings.last().severity())
    }
}

impl View for Reason {
    type V = ReasonView;

    open spec fn view(&self) -> ReasonView {
        match self {
            Reason::UncommittedChanges => ReasonView::UncommittedChanges,
            Reason::StashExists => ReasonView::StashExists,
            Reason::LocalOnlyCommits => ReasonView::LocalOnlyCommits,
            Reason::NoRemoteRefs => ReasonView::NoRemoteRefs,
            Reason::GitError(message) => ReasonView::GitError(message@),
            Reason::AllChecksOk => ReasonView::AllChecksOk,
        }
    }
}

impl DeepView for Reason {
    type V = ReasonView;

    open spec fn deep_view(&self) -> ReasonView {
        self@
    }
}

impl Reason {
    /// The sentence that describes this finding to a reader.
    pub fn to_string(&self) -> (text: String)
        ensures
            text@ == self@.description(),
    {
        match self {
            Reason::UncommittedChanges => "Uncommitted changes exist".to_string(),
            Reason::StashExists => "Stash entries exist".to_string(),
            Reason::LocalOnlyCommits => "Local-only commits exist".to_string(),
            Reason::NoRemoteRefs => "No remote tracking refs found".to_string(),
            Reason::GitError(message) => "Git error: ".to_string().concat(message.as_str()),
            Reason::AllChecksOk => "All checks passed".to_string(),
        }
    }
}

/// What the checks found out about one repository.
#[derive(Debug, Clone)]
pub struct RepoResult {
    /// Where the repository lies; identifies the result.
    pub path: String,
    /// The verdict so far.
    pub status: Status,
    /// The findings, in the order in which the checks made them.
    pub reasons: Vec<Reason>,
    /// Number of entries with uncommitted changes.
    pub dirty_count: usize,
    /// Number of stash entries.
    pub stash_count: usize,
    /// Number of commits that exist only locally.
    pub local_only_commit_count: usize,
    /// The messages of the Git invocations that failed.
    pub errors: Vec<String>,
}

/// The mathematical value of a `RepoResult`.
pub struct RepoResultView {
    pub path: Seq<char>,
    pub status: Status,
    pub reasons: Seq<ReasonView>,
    pub dirty_count: nat,
    pub stash_count: nat,
    pub local_only_commit_count: nat,
    pub errors: Seq<Seq<char>>,
}

impl RepoResultView {
    /// The result with which the checks of the repository at `path` start.
    pub open spec fn fresh(path: Seq<char>) -> RepoResultView {
        RepoResultView {
            path,
            status: Status::Safe,
            reasons: Seq::empty(),
            dirty_count: 0,
            stash_count: 0,
            local_only_commit_count: 0,
            errors: Seq::empty(),
        }
    }

    /// Records `reason` and raises the verdict to the join with `severity`.
    pub open spec fn found(self, severity: Status, reason: ReasonView) -> RepoResultView {
        RepoResultView {
            status: self.status.spec_join(severity),
            reasons: self.reasons.push(reason),
            ..self
        }
    }

    /// Records `reason`; the verdict becomes `Unsafe`.
    pub open spec fn mark_unsafe(self, reason: ReasonView) -> RepoResultView {
        self.found(Status::Unsafe, reason)
    }

    /// Records `reason`; the verdict becomes `Unknown` unless it is `Unsafe`.
    pub open spec fn mark_unknown(self, reason: ReasonView) -> RepoResultView {
        self.found(Status::Unknown, reason)
    }

    /// Whether `AllChecksOk` is among the findings.
    pub open spec fn passed(self) -> bool {
        self.reasons.contains(ReasonView::AllChecksOk)
    }

    /// Whether the verdict is what the findings call for.
    pub open spec fn consistent(self) -> bool {
        self.status == joint_severity(self.reasons)
    }

    /// Seals the result: a verdict that is still `Safe` gets `AllChecksOk`,
    /// unless it has it already.
    pub open spec fn finalize_safe(self) -> RepoResultView {
        if self.status == Status::Safe && !self.passed() {
            self.found(Status::Safe, ReasonView::AllChecksOk)
        } else {
            self
        }
    }
}

impl View for RepoResult {
    type V = RepoResultView;

    open spec fn view(&self) -> RepoResultView {
        RepoResultView {
            path: self.path@,
            status: self.status,
            reasons: self.reasons.deep_view(),
            dirty_count: self.dirty_count as nat,
            stash_count: self.stash_count as nat,
            local_only_commit_count: self.local_only_commit_count as nat,
            errors: self.errors.deep_view(),
        }
    }
}

impl DeepView for RepoResult {
    type V = RepoResultView;

    open spec fn deep_view(&self) -> RepoResultView {
        self@
    }
}

impl RepoResult {
    /// A result for the repository at `path`, before any check has run.
    pub fn new(path: String) -> (result: RepoResult)
        ensures
            result@ == RepoResultView::fresh(path@),
    {
        let result = RepoResult {
            path,
            status: Status::Safe,
            reasons: Vec::new(),
            dirty_count: 0,
            stash_count: 0,
            local_only_commit_count: 0,
            errors: Vec::new(),
        };
        assert(result.reasons.deep_view() =~= Seq::empty());
        assert(result.errors.deep_view() =~= Seq::empty());
        result
    }

    /// Records `reason` and sets the verdict to `Unsafe`.
    pub fn mark_unsafe(&mut self, reason: Reason)
        ensures
            final(self)@ == old(self)@.mark_unsafe(reason@),
            final(self).status == Status::Unsafe,
            final(self).reasons@ == old(self).reasons@.push(reason),
    {
        self.status = Status::Unsafe;
        self.reasons.push(reason);
        assert(self.reasons.deep_view() =~= old(self).reasons.deep_view().push(reason@));
    }

    /// Records `reason` and sets the verdict to `Unknown`, unless it already
    /// is `Unsafe`.
    pub fn mark_unknown(&mut self, reason: Reason)
        ensures
            final(self)@ == old(self)@.mark_unknown(reason@),
            old(self).status == Status::Unsafe ==> final(self).status == Status::Unsafe,
            old(self).status != Status::Unsafe ==> final(self).status == Status::Unknown,
            final(self).reasons@ == old(self).reasons@.push(reason),
    {
        self.status = self.status.join(Status::Unknown);
        self.reasons.push(reason);
        assert(self.reasons.deep_view() =~= old(self).reasons.deep_view().push(reason@));
    }

    /// Decides whether `AllChecksOk` is among the findings.
    pub fn has_passed(&self) -> (answer: bool)
        ensures
            answer == self@.passed(),
    {
        let mut i: usize = 0;
        while i < self.reasons.len()
            invariant
                i <= self.reasons@.len(),
                forall|k: int| 0 <= k < i ==> self.reasons.deep_view()[k] != ReasonView::AllChecksOk,
            decreases self.reasons@.len() - i,
        {
            if matches!(self.reasons[i], Reason::AllChecksOk) {
                assert(self.reasons.deep_view()[i as int] == ReasonView::AllChecksOk);
                return true;
            }
            assert(self.reasons.deep_view()[i as int] == self.reasons@[i as int]@);
            i += 1;
        }
        false
    }

    /// Seals the result after the last check: if the verdict is still
    /// `Safe`, `AllChecksOk` becomes the final finding, once; otherwise
    /// nothing changes.
    pub fn finalize_safe(&mut self)
        ensures
            final(self)@ == old(self)@.finalize_safe(),
            final(self).status == old(self).status,
    {
        if self.status == Status::Safe && !self.has_passed() {
            self.reasons.push(Reason::AllChecksOk);
            assert(self.reasons.deep_view() =~= old(self).reasons.deep_view().push(
                ReasonView::AllChecksOk,
            ));
        }
    }
}

/// The test whether a result has one of the verdicts that are let through.
pub open spec fn status_among(
    with_safe: bool,
    with_unsafe: bool,
    with_unknown: bool,
) -> spec_fn(RepoResult) -> bool {
    |result: RepoResult|
        match result.status {
            Status::Safe => with_safe,
            Status::Unsafe => with_unsafe,
            Status::Unknown => with_unknown,
        }
}

/// Selects, in their order, the results whose verdict is let through.
pub fn select_by_status<'a>(
    results: &'a [RepoResult],
    with_safe: bool,
    with_unsafe: bool,
    with_unknown: bool,
) -> (selected: Vec<&'a RepoResult>)
    ensures
        selected@.map_values(|result: &RepoResult| *result) == results@.filter(
            status_among(with_safe, with_unsafe, with_unknown),
        ),
{
    let ghost keep = status_among(with_safe, with_unsafe, with_unknown);
    let mut selected: Vec<&'a RepoResult> = Vec::new();
    let mut i: usize = 0;
    proof {
        lemma_filter_none(results@.take(0), keep);
        assert(selected@.map_values(|result: &RepoResult| *result) =~= results@.take(0).filter(
            keep,
        ));
    }
    while i < results.len()
        invariant
            i <= results@.len(),
            keep == status_among(with_safe, with_unsafe, with_unknown),
            selected@.map_values(|result: &RepoResult| *result) == results@.take(i as int).filter(
                keep,
            ),
        decreases results@.len() - i,
    {
        let ghost before = selected@.map_values(|result: &RepoResult| *result);
        proof {
            lemma_filter_next(results@, i as int, keep);
        }
        let wanted = match results[i].status {
            Status::Safe => with_safe,
            Status::Unsafe => with_unsafe,
            Status::Unknown => with_unknown,
        };
        if wanted {
            selected.push(&results[i]);
            assert(selected@.map_values(|result: &RepoResult| *result) =~= before.push(
                results@[i as int],
            ));
        }
        i += 1;
    }
    assert(results@.take(results@.len() as int) =~= results@);
    selected
}

/// The merge of verdicts is a join: it does not depend on the order or the
/// grouping of its arguments, merging a verdict with itself changes
/// nothing, `Safe` is neutral and `Unsafe` wins against everything.
pub proof fn lemma_join_is_semilattice(a: Status, b: Status, c: Status)
    ensures
        a.spec_join(b) == b.spec_join(a),
        a.spec_join(b).spec_join(c) == a.spec_join(b.spec_join(c)),
        a.spec_join(a) == a,
        a.spec_join(Status::Safe) == a,
        a.spec_join(Status::Unsafe) == Status::Unsafe,
{
}

/// The merge of two verdicts is the least verdict that is at least as
/// severe as both.
pub proof fn lemma_join_is_least_upper_bound(a: Status, b: Status, c: Status)
    ensures
        a.rank() <= a.spec_join(b).rank(),
        b.rank() <= a.spec_join(b).rank(),
        a.rank() <= c.rank() && b.rank() <= c.rank() ==> a.spec_join(b).rank() <= c.rank(),
{
}

/// No finding lowers a verdict, none changes a verdict of `Unsafe`, and
/// sealing leaves the verdict as it is.
pub proof fn lemma_finding_never_downgrades(
    result: RepoResultView,
    severity: Status,
    reason: ReasonView,
)
    ensures
        result.status.rank() <= result.found(severity, reason).status.rank(),
        result.status == Status::Unsafe ==> result.found(severity, reason).status
            == Status::Unsafe,
        result.finalize_safe().status == result.status,
{
}

/// A finding recorded with its own severity, and sealing, keep the verdict
/// what the findings call for.
pub proof fn lemma_consistent_kept(result: RepoResultView, reason: ReasonView)
    requires
        result.consistent(),
    ensures
        RepoResultView::fresh(result.path).consistent(),
        result.found(reason.severity(), reason).consistent(),
        result.finalize_safe().consistent(),
{
    assert(result.reasons.push(reason).drop_last() =~= result.reasons);
    assert(result.reasons.push(ReasonView::AllChecksOk).drop_last() =~= result.reasons);
}

/// Sealing a sealed result changes nothing.
pub proof fn lemma_finalize_idempotent(result: RepoResultView)
    ensures
        result.finalize_safe().finalize_safe() == result.finalize_safe(),
{
    if result.status == Status::Safe && !result.passed() {
        let sealed = result.finalize_safe();
        assert(sealed.reasons.last() == ReasonView::AllChecksOk);
    }
}

/// A result that did not hold `AllChecksOk` before it was sealed holds it
/// afterwards exactly if its verdict is `Safe`.
pub proof fn lemma_sealed_passed_iff_safe(result: RepoResultView)
    requires
        !result.passed(),
    ensures
        result.finalize_safe().passed() <==> result.finalize_safe().status == Status::Safe,
{
    if result.status == Status::Safe {
        let sealed = result.finalize_safe();
        assert(sealed.reasons.last() == ReasonView::AllChecksOk);
    }
}

/// The answer to the question whether one repository is to be deleted.
#[derive(Debug, Clone, Copy, PartialEq, Eq, Structural)]
pub enum DeleteConfirm {
    /// Delete this one.
    Yes,
    /// Keep this one.
    No,
    /// Delete this one and all that follow, without asking again.
    All,
    /// Stop; keep this one and all that follow.
    Quit,
}

impl DeleteConfirm {
    /// The answer that stands for the entry chosen from the menu
    /// `Yes`, `No`, `All`, `Quit`; no choice, or one outside the menu, is `No`.
    pub open spec fn of_selection(selection: Option<usize>) -> DeleteConfirm {
        match selection {
            Some(index) => if index == 0 {
                DeleteConfirm::Yes
            } else if index == 2 {
                DeleteConfirm::All
            } else if index == 3 {
                DeleteConfirm::Quit
            } else {
                DeleteConfirm::No
            },
            None => DeleteConfirm::No,
        }
    }

    /// Turns the index chosen from the menu into an answer.
    pub fn from_selection(selection: Option<usize>) -> (answer: DeleteConfirm)
        ensures
            answer == DeleteConfirm::of_selection(selection),
    {
        match selection {
            Some(0) => DeleteConfirm::Yes,
            Some(2) => DeleteConfirm::All,
            Some(3) => DeleteConfirm::Quit,
            _ => DeleteConfirm::No,
        }
    }
}

} // verus!
