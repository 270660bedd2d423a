//! The three safety checks and the verdict they add up to.
//!
//! A check reads the reply to its query and updates the result. The
//! checks run in a fixed order: uncommitted changes, stash, local-only
//! commits. The whole classification is the function `classify` of the
//! replies to the five queries; `Classifier` reaches the same result one
//! reply at a time and tells its driver which query is due.

use crate::gateway::{reply_view, GatewayError, Query, Reply, ReplyView};
use crate::text::{blank, count_entries, counted, entry_count, is_blank, lines, untracked};
use crate::types::{Reason, ReasonView, RepoResult, RepoResultView, Status};
use vstd::prelude::*;

verus! {

/// What Git answers to each of the five queries about one repository.
#[derive(Debug)]
pub struct Observation {
    /// The reply to `Query::Status`.
    pub status: Reply,
    /// The reply to `Query::StashList`.
    pub stash: Reply,
    /// The reply to `Query::Remotes`.
    pub remotes: Reply,
    /// The reply to `Query::RemoteRefs`.
    pub remote_refs: Reply,
    /// The reply to `Query::LocalOnlyLog`.
    pub local_only: Reply,
}

/// The mathematical value of an `Observation`.
pub struct ObservationView {
    pub status: ReplyView,
    pub stash: ReplyView,
    pub remotes: ReplyView,
    pub remote_refs: ReplyView,
    pub local_only: ReplyView,
}

impl ObservationView {
    /// The reply to `query`.
    pub open spec fn reply(self, query: Query) -> ReplyView {
        match query {
            Query::Status => self.status,
            Query::StashList => self.stash,
            Query::Remotes => self.remotes,
            Query::RemoteRefs => self.remote_refs,
            Query::LocalOnlyLog => self.local_only,
        }
    }
}

impl View for Observation {
    type V = ObservationView;

    open spec fn view(&self) -> ObservationView {
        ObservationView {
            status: reply_view(self.status),
            stash: reply_view(self.stash),
            remotes: reply_view(self.remotes),
            remote_refs: reply_view(self.remote_refs),
            local_only: reply_view(self.local_only),
        }
    }
}

impl Observation {
    /// The reply to `query`.
    pub fn reply(&self, query: Query) -> (reply: &Reply)
        ensures
            reply_view(*reply) == self@.reply(query),
    {
        match query {
            Query::Status => &self.status,
            Query::StashList => &self.stash,
            Query::Remotes => &self.remotes,
            Query::RemoteRefs => &self.remote_refs,
            Query::LocalOnlyLog => &self.local_only,
        }
    }
}

/// The result after a failed Git invocation: the failure is a finding and
/// an error, and the verdict is `Unknown` unless it is `Unsafe`.
pub open spec fn git_failed(result: RepoResultView, message: Seq<char>) -> RepoResultView {
    RepoResultView {
        errors: result.errors.push(message),
        ..result.mark_unknown(ReasonView::GitError(message))
    }
}

/// The result after the check for uncommitted changes has read `reply`.
pub open spec fn uncommitted_checked(
    result: RepoResultView,
    reply: ReplyView,
    ignore_untracked: bool,
) -> RepoResultView {
    match reply {
        Err(message) => git_failed(result, message),
        Ok(output) => {
            let count = entry_count(output, ignore_untracked);
            let counted = RepoResultView { dirty_count: count, ..result };
            if count > 0 {
                counted.mark_unsafe(ReasonView::UncommittedChanges)
            } else {
                counted
            }
        },
    }
}

/// The result after the check of the stash has read `reply`.
pub open spec fn stash_checked(result: RepoResultView, reply: ReplyView) -> RepoResultView {
    match reply {
        Err(message) => git_failed(result, message),
        Ok(output) => {
            let count = entry_count(output, false);
            let counted = RepoResultView { stash_count: count, ..result };
            if count > 0 {
                counted.mark_unsafe(ReasonView::StashExists)
            } else {
                counted
            }
        },
    }
}

/// Whether a remote is configured and a remote-tracking ref exists, going
/// by the texts that the two queries returned.
pub open spec fn has_remote_refs(remotes: Seq<char>, remote_refs: Seq<char>) -> bool {
    !blank(remotes) && !blank(remote_refs)
}

/// The result after the log of local-only commits has been read.
pub open spec fn log_checked(result: RepoResultView, log: ReplyView) -> RepoResultView {
    match log {
        Err(message) => git_failed(result, message),
        Ok(output) => {
            let count = entry_count(output, false);
            let counted = RepoResultView { local_only_commit_count: count, ..result };
            if count > 0 {
                counted.mark_unsafe(ReasonView::LocalOnlyCommits)
            } else {
                counted
            }
        },
    }
}

/// The result after the check for local-only commits. A failure of the
/// first or the second query ends the check. Without a remote or without
/// remote-tracking refs nothing can be compared, and the log is not read.
pub open spec fn local_only_checked(
    result: RepoResultView,
    remotes: ReplyView,
    remote_refs: ReplyView,
    log: ReplyView,
) -> RepoResultView {
    match remotes {
        Err(message) => git_failed(result, message),
        Ok(names) => match remote_refs {
            Err(message) => git_failed(result, message),
            Ok(refs) => if has_remote_refs(names, refs) {
                log_checked(result, log)
            } else {
                result.mark_unknown(ReasonView::NoRemoteRefs)
            },
        },
    }
}

/// The result of the three checks, in their order, and the sealing, on a
/// result as it stood before.
pub open spec fn classify_from(
    result: RepoResultView,
    observed: ObservationView,
    ignore_untracked: bool,
) -> RepoResultView {
    local_only_checked(
        stash_checked(
            uncommitted_checked(result, observed.status, ignore_untracked),
            observed.stash,
        ),
        observed.remotes,
        observed.remote_refs,
        observed.local_only,
    ).finalize_safe()
}

/// The result of all checks on the repository at `path`, sealed.
pub open spec fn classify(
    path: Seq<char>,
    observed: ObservationView,
    ignore_untracked: bool,
) -> RepoResultView {
    classify_from(RepoResultView::fresh(path), observed, ignore_untracked)
}

/// Whether the working tree is clean at the moment of the recheck: the
/// status query succeeded and printed nothing at all.
pub open spec fn still_clean(reply: ReplyView) -> bool {
    match reply {
        Ok(output) => output.len() == 0,
        Err(_) => false,
    }
}

/// Records a failed Git invocation in `result`.
fn record_git_error(result: &mut RepoResult, error: &GatewayError)
    ensures
        final(result)@ == git_failed(old(result)@, error@),
{
    result.mark_unknown(Reason::GitError(error.message.clone()));
    let ghost before = result.errors.deep_view();
    result.errors.push(error.message.clone());
    assert(result.errors.deep_view() =~= before.push(error@));
}

/// The check for uncommitted changes. `reply` answers `Query::Status`.
///
/// Every non-empty line is one dirty entry; with `ignore_untracked`, lines
/// that mark untracked entries are left out. Any dirty entry makes the
/// verdict `Unsafe`. A failed query is recorded and makes the verdict
/// `Unknown`, unless it is `Unsafe` already.
pub fn check_uncommitted_changes(reply: &Reply, result: &mut RepoResult, ignore_untracked: bool)
    ensures
        final(result)@ == uncommitted_checked(old(result)@, reply_view(*reply), ignore_untracked),
        old(result).status.rank() <= final(result).status.rank(),
{
    match reply {
        Err(error) => {
            record_git_error(result, error);
        },
        Ok(output) => {
            let count = count_entries(output.as_str(), ignore_untracked);
            result.dirty_count = count;
            if count > 0 {
                result.mark_unsafe(Reason::UncommittedChanges);
            }
        },
    }
}

/// The check of the stash. `reply` answers `Query::StashList`.
///
/// Every non-empty line is one stash entry, and any entry makes the
/// verdict `Unsafe`. A failed query is recorded and makes the verdict
/// `Unknown`, unless it is `Unsafe` already.
pub fn check_stash(reply: &Reply, result: &mut RepoResult)
    ensures
        final(result)@ == stash_checked(old(result)@, reply_view(*reply)),
        old(result).status.rank() <= final(result).status.rank(),
{
    match reply {
        Err(error) => {
            record_git_error(result, error);
        },
        Ok(output) => {
            let count = count_entries(output.as_str(), false);
            result.stash_count = count;
            if count > 0 {
                result.mark_unsafe(Reason::StashExists);
            }
        },
    }
}

/// Reads the log of local-only commits into `result`.
fn check_log(log: &Reply, result: &mut RepoResult)
    ensures
        final(result)@ == log_checked(old(result)@, reply_view(*log)),
        old(result).status.rank() <= final(result).status.rank(),
{
    match log {
        Err(error) => {
            record_git_error(result, error);
        },
        Ok(output) => {
            let count = count_entries(output.as_str(), false);
            result.local_only_commit_count = count;
            if count > 0 {
                result.mark_unsafe(Reason::LocalOnlyCommits);
            }
        },
    }
}

/// The check for commits that exist only locally. The replies answer
/// `Query::Remotes`, `Query::RemoteRefs` and `Query::LocalOnlyLog`.
///
/// If the first or the second query failed, the failure is recorded and
/// the check ends. If no remote is configured or no remote-tracking ref
/// exists, the finding is `NoRemoteRefs` and the verdict `Unknown`, unless
/// it is `Unsafe` already. Only otherwise `log` is read: every non-empty
/// line is one local-only commit, and any such commit makes the verdict
/// `Unsafe`.
pub fn check_local_only_commits(
    remotes: &Reply,
    remote_refs: &Reply,
    log: &Reply,
    result: &mut RepoResult,
)
    ensures
        final(result)@ == local_only_checked(
            old(result)@,
            reply_view(*remotes),
            reply_view(*remote_refs),
            reply_view(*log),
        ),
        old(result).status.rank() <= final(result).status.rank(),
{
    let names = match remotes {
        Ok(names) => names,
        Err(error) => {
            record_git_error(result, error);
            return ;
        },
    };
    let refs = match remote_refs {
        Ok(refs) => refs,
        Err(error) => {
            record_git_error(result, error);
            return ;
        },
    };
    if is_blank(names.as_str()) || is_blank(refs.as_str()) {
        result.mark_unknown(Reason::NoRemoteRefs);
        return ;
    }
    check_log(log, result);
}

/// Runs all checks on the repository at `repo_path`, of which `observed`
/// holds what Git answered, and seals the result.
pub fn check_repository(
    repo_path: &str,
    observed: &Observation,
    ignore_untracked: bool,
) -> (result: RepoResult)
    ensures
        result@ == classify(repo_path@, observed@, ignore_untracked),
        result@.passed() <==> result.status == Status::Safe,
{
    let mut result = RepoResult::new(repo_path.to_string());
    check_uncommitted_changes(&observed.status, &mut result, ignore_untracked);
    check_stash(&observed.stash, &mut result);
    check_local_only_commits(
        &observed.remotes,
        &observed.remote_refs,
        &observed.local_only,
        &mut result,
    );
    result.finalize_safe();
    proof {
        lemma_passed_iff_safe(repo_path@, observed@, ignore_untracked);
    }
    result
}

/// The quick check right before a deletion. `reply` answers
/// `Query::Status`, asked anew. The answer is `true` exactly if the query
/// succeeded and its output is empty. Any output, white space too, and
/// any failure give `false`.
pub fn quick_recheck(reply: &Reply) -> (clean: bool)
    ensures
        clean == still_clean(reply_view(*reply)),
        clean <==> reply is Ok && reply->Ok_0@.len() == 0,
{
    match reply {
        Ok(output) => output.as_str().is_empty(),
        Err(_) => false,
    }
}

/// The classification of one repository as a sequence of steps: it names
/// the query that is due, takes the reply, and so on until no query is
/// left. It asks for the remote-tracking refs only once the remotes are
/// known, and for the log only where there is something to compare with.
#[derive(Debug)]
pub struct Classifier {
    result: RepoResult,
    ignore_untracked: bool,
    pending: Option<Query>,
    remotes_blank: bool,
}

/// The mathematical value of a `Classifier`.
pub struct ClassifierView {
    /// The result of the checks that have run.
    pub result: RepoResultView,
    /// Whether lines that mark untracked entries are left out.
    pub ignore_untracked: bool,
    /// The query whose reply is due, if any is.
    pub pending: Option<Query>,
    /// Whether the reply to `Query::Remotes` was blank.
    pub remotes_blank: bool,
}

impl ClassifierView {
    /// The state before the first query.
    pub open spec fn start(path: Seq<char>, ignore_untracked: bool) -> ClassifierView {
        ClassifierView {
            result: RepoResultView::fresh(path),
            ignore_untracked,
            pending: Some(Query::Status),
            remotes_blank: false,
        }
    }

    /// The number of queries that may still be due.
    pub open spec fn steps_left(self) -> nat {
        match self.pending {
            Some(Query::Status) => 5,
            Some(Query::StashList) => 4,
            Some(Query::Remotes) => 3,
            Some(Query::RemoteRefs) => 2,
            Some(Query::LocalOnlyLog) => 1,
            None => 0,
        }
    }

    /// The state after `reply` has answered the pending query. Without a
    /// pending query nothing changes.
    pub open spec fn feed(self, reply: ReplyView) -> ClassifierView {
        match self.pending {
            None => self,
            Some(Query::Status) => ClassifierView {
                result: uncommitted_checked(self.result, reply, self.ignore_untracked),
                pending: Some(Query::StashList),
                ..self
            },
            Some(Query::StashList) => ClassifierView {
                result: stash_checked(self.result, reply),
                pending: Some(Query::Remotes),
                ..self
            },
            Some(Query::Remotes) => match reply {
                Err(message) => ClassifierView {
                    result: git_failed(self.result, message),
                    pending: None,
                    ..self
                },
                Ok(names) => ClassifierView {
                    remotes_blank: blank(names),
                    pending: Some(Query::RemoteRefs),
                    ..self
                },
            },
            Some(Query::RemoteRefs) => match reply {
                Err(message) => ClassifierView {
                    result: git_failed(self.result, message),
                    pending: None,
                    ..self
                },
                Ok(refs) => if self.remotes_blank || blank(refs) {
                    ClassifierView {
                        result: self.result.mark_unknown(ReasonView::NoRemoteRefs),
                        pending: None,
                        ..self
                    }
                } else {
                    ClassifierView { pending: Some(Query::LocalOnlyLog), ..self }
                },
            },
            Some(Query::LocalOnlyLog) => ClassifierView {
                result: log_checked(self.result, reply),
                pending: None,
                ..self
            },
        }
    }

    /// The state after every query that came due was answered from
    /// `observed`.
    pub open spec fn run(self, observed: ObservationView) -> ClassifierView
        decreases self.steps_left(),
    {
        match self.pending {
            None => self,
            Some(query) => self.feed(observed.reply(query)).run(observed),
        }
    }

    /// The sealed result.
    pub open spec fn finish(self) -> RepoResultView {
        self.result.finalize_safe()
    }
}

impl View for Classifier {
    type V = ClassifierView;

    closed spec fn view(&self) -> ClassifierView {
        ClassifierView {
            result: self.result@,
            ignore_untracked: self.ignore_untracked,
            pending: self.pending,
            remotes_blank: self.remotes_blank,
        }
    }
}

impl Classifier {
    /// Starts the classification of the repository at `repo_path`.
    pub fn new(repo_path: &str, ignore_untracked: bool) -> (classifier: Classifier)
        ensures
            classifier@ == ClassifierView::start(repo_path@, ignore_untracked),
    {
        Classifier {
            result: RepoResult::new(repo_path.to_string()),
            ignore_untracked,
            pending: Some(Query::Status),
            remotes_blank: false,
        }
    }

    /// The query to put to Git next; `None` once the checks are through.
    pub fn next_query(&self) -> (query: Option<Query>)
        ensures
            query == self@.pending,
    {
        self.pending
    }

    /// Takes the reply to the pending query.
    pub fn feed(&mut self, reply: &Reply)
        ensures
            final(self)@ == old(self)@.feed(reply_view(*reply)),
            final(self)@.steps_left() < old(self)@.steps_left() || old(self)@.pending is None,
            old(self)@.result.status.rank() <= final(self)@.result.status.rank(),
    {
        match self.pending {
            None => {},
            Some(Query::Status) => {
                check_uncommitted_changes(reply, &mut self.result, self.ignore_untracked);
                self.pending = Some(Query::StashList);
            },
            Some(Query::StashList) => {
                check_stash(reply, &mut self.result);
                self.pending = Some(Query::Remotes);
            },
            Some(Query::Remotes) => match reply {
                Err(error) => {
                    record_git_error(&mut self.result, error);
                    self.pending = None;
                },
                Ok(names) => {
                    self.remotes_blank = is_blank(names.as_str());
                    self.pending = Some(Query::RemoteRefs);
                },
            },
            Some(Query::RemoteRefs) => match reply {
                Err(error) => {
                    record_git_error(&mut self.result, error);
                    self.pending = None;
                },
                Ok(refs) => {
                    if self.remotes_blank || is_blank(refs.as_str()) {
                        self.result.mark_unknown(Reason::NoRemoteRefs);
                        self.pending = None;
                    } else {
                        self.pending = Some(Query::LocalOnlyLog);
                    }
                },
            },
            Some(Query::LocalOnlyLog) => {
                check_log(reply, &mut self.result);
                self.pending = None;
            },
        }
    }

    /// Seals and returns the result, once no query is pending.
    pub fn finish(self) -> (result: RepoResult)
        requires
            self@.pending is None,
        ensures
            result@ == self@.finish(),
    {
        let mut result = self.result;
        result.finalize_safe();
        result
    }
}

/// Answering each query as it comes due gives the classification of what
/// was observed, and leaves no query pending.
pub proof fn lemma_classifier_agrees(
    path: Seq<char>,
    observed: ObservationView,
    ignore_untracked: bool,
)
    ensures
        ClassifierView::start(path, ignore_untracked).run(observed).pending is None,
        ClassifierView::start(path, ignore_untracked).run(observed).finish() == classify(
            path,
            observed,
            ignore_untracked,
        ),
{
    reveal_with_fuel(ClassifierView::run, 6);
}

/// No check records `AllChecksOk`: only sealing does.
pub proof fn lemma_checks_do_not_pass(
    result: RepoResultView,
    observed: ObservationView,
    ignore_untracked: bool,
)
    requires
        !result.passed(),
    ensures
        !uncommitted_checked(result, observed.status, ignore_untracked).passed(),
        !stash_checked(result, observed.stash).passed(),
        !local_only_checked(
            result,
            observed.remotes,
            observed.remote_refs,
            observed.local_only,
        ).passed(),
{
    assert forall|reason: ReasonView| reason != ReasonView::AllChecksOk implies !(
    #[trigger] result.reasons.push(reason)).contains(ReasonView::AllChecksOk) by {
        let pushed = result.reasons.push(reason);
        if pushed.contains(ReasonView::AllChecksOk) {
            let i = choose|i: int| 0 <= i < pushed.len() && pushed[i] == ReasonView::AllChecksOk;
            assert(result.reasons[i] == ReasonView::AllChecksOk);
        }
    }
}

/// In a sealed classification, `AllChecksOk` is among the findings
/// exactly if the verdict is `Safe`.
pub proof fn lemma_passed_iff_safe(
    path: Seq<char>,
    observed: ObservationView,
    ignore_untracked: bool,
)
    ensures
        classify(path, observed, ignore_untracked).passed() <==> classify(
            path,
            observed,
            ignore_untracked,
        ).status == Status::Safe,
{
    let fresh = RepoResultView::fresh(path);
    let first = uncommitted_checked(fresh, observed.status, ignore_untracked);
    let second = stash_checked(first, observed.stash);
    let third = local_only_checked(
        second,
        observed.remotes,
        observed.remote_refs,
        observed.local_only,
    );
    lemma_checks_do_not_pass(fresh, observed, ignore_untracked);
    lemma_checks_do_not_pass(first, observed, ignore_untracked);
    lemma_checks_do_not_pass(second, observed, ignore_untracked);
    crate::types::lemma_sealed_passed_iff_safe(third);
}

/// The verdict only rises: `Unsafe` stays `Unsafe`, and `Unknown` does not
/// become `Safe` again, whatever a check reads.
pub proof fn lemma_checks_never_downgrade(
    result: RepoResultView,
    observed: ObservationView,
    ignore_untracked: bool,
)
    ensures
        result.status.rank() <= uncommitted_checked(
            result,
            observed.status,
            ignore_untracked,
        ).status.rank(),
        result.status.rank() <= stash_checked(result, observed.stash).status.rank(),
        result.status.rank() <= local_only_checked(
            result,
            observed.remotes,
            observed.remote_refs,
            observed.local_only,
        ).status.rank(),
        result.status == Status::Unsafe ==> classify_from(
            result,
            observed,
            ignore_untracked,
        ).status == Status::Unsafe,
{
}

/// The verdict is the join of what the three checks call for, whatever
/// the order in which they are merged.
pub proof fn lemma_verdict_is_join(
    path: Seq<char>,
    observed: ObservationView,
    ignore_untracked: bool,
)
    ensures
        ({
            let fresh = RepoResultView::fresh(path);
            let a = uncommitted_checked(fresh, observed.status, ignore_untracked).status;
            let b = stash_checked(fresh, observed.stash).status;
            let c = local_only_checked(
                fresh,
                observed.remotes,
                observed.remote_refs,
                observed.local_only,
            ).status;
            let verdict = classify(path, observed, ignore_untracked).status;
            &&& verdict == a.spec_join(b).spec_join(c)
            &&& verdict == c.spec_join(a).spec_join(b)
            &&& verdict == b.spec_join(c).spec_join(a)
        }),
{
}

/// The verdict of a classification is what its findings call for: the join
/// of their severities.
pub proof fn lemma_verdict_matches_findings(
    path: Seq<char>,
    observed: ObservationView,
    ignore_untracked: bool,
)
    ensures
        classify(path, observed, ignore_untracked).consistent(),
{
    let fresh = RepoResultView::fresh(path);
    let first = uncommitted_checked(fresh, observed.status, ignore_untracked);
    let second = stash_checked(first, observed.stash);
    let third = local_only_checked(
        second,
        observed.remotes,
        observed.remote_refs,
        observed.local_only,
    );
    lemma_check_keeps_consistent(fresh, observed, ignore_untracked);
    lemma_check_keeps_consistent(first, observed, ignore_untracked);
    lemma_check_keeps_consistent(second, observed, ignore_untracked);
    crate::types::lemma_consistent_kept(third, ReasonView::AllChecksOk);
}

/// Every check keeps the verdict what the findings call for.
pub proof fn lemma_check_keeps_consistent(
    result: RepoResultView,
    observed: ObservationView,
    ignore_untracked: bool,
)
    requires
        result.consistent(),
    ensures
        uncommitted_checked(result, observed.status, ignore_untracked).consistent(),
        stash_checked(result, observed.stash).consistent(),
        local_only_checked(
            result,
            observed.remotes,
            observed.remote_refs,
            observed.local_only,
        ).consistent(),
{
    crate::types::lemma_consistent_kept(result, ReasonView::UncommittedChanges);
    crate::types::lemma_consistent_kept(result, ReasonView::StashExists);
    crate::types::lemma_consistent_kept(result, ReasonView::LocalOnlyCommits);
    crate::types::lemma_consistent_kept(result, ReasonView::NoRemoteRefs);
    if observed.status is Err {
        crate::types::lemma_consistent_kept(result, ReasonView::GitError(observed.status->Err_0));
    }
    if observed.stash is Err {
        crate::types::lemma_consistent_kept(result, ReasonView::GitError(observed.stash->Err_0));
    }
    if observed.remotes is Err {
        crate::types::lemma_consistent_kept(result, ReasonView::GitError(observed.remotes->Err_0));
    }
    if observed.remote_refs is Err {
        crate::types::lemma_consistent_kept(
            result,
            ReasonView::GitError(observed.remote_refs->Err_0),
        );
    }
    if observed.local_only is Err {
        crate::types::lemma_consistent_kept(
            result,
            ReasonView::GitError(observed.local_only->Err_0),
        );
    }
}

/// In a classification, each kind of work at risk is among the findings
/// exactly if its count is positive, and a message is among the errors
/// exactly if it is the message of a `GitError` among the findings.
pub proof fn lemma_findings_match_counts(
    path: Seq<char>,
    observed: ObservationView,
    ignore_untracked: bool,
)
    ensures
        ({
            let result = classify(path, observed, ignore_untracked);
            &&& result.reasons.contains(ReasonView::UncommittedChanges) <==> result.dirty_count > 0
            &&& result.reasons.contains(ReasonView::StashExists) <==> result.stash_count > 0
            &&& result.reasons.contains(ReasonView::LocalOnlyCommits)
                <==> result.local_only_commit_count > 0
            &&& forall|message: Seq<char>|
                result.reasons.contains(ReasonView::GitError(message)) <==> result.errors.contains(
                    message,
                )
        }),
{
    let fresh = RepoResultView::fresh(path);
    let first = uncommitted_checked(fresh, observed.status, ignore_untracked);
    let second = stash_checked(first, observed.stash);
    let third = local_only_checked(
        second,
        observed.remotes,
        observed.remote_refs,
        observed.local_only,
    );
    let result = third.finalize_safe();
    assert(first.reasons.len() <= 1 && first.errors.len() <= 1);
    assert(second.reasons.len() <= 2 && second.errors.len() <= 2);
    assert(third.reasons.len() <= 3 && third.errors.len() <= 3);
    assert(result.reasons.len() <= 4);
    if result.dirty_count > 0 {
        assert(result.reasons[0] == ReasonView::UncommittedChanges);
    }
    if result.stash_count > 0 {
        assert(second.reasons.last() == ReasonView::StashExists);
        assert(result.reasons[second.reasons.len() - 1] == ReasonView::StashExists);
    }
    if result.local_only_commit_count > 0 {
        assert(third.reasons.last() == ReasonView::LocalOnlyCommits);
        assert(result.reasons[third.reasons.len() - 1] == ReasonView::LocalOnlyCommits);
    }
    assert forall|message: Seq<char>|
        result.reasons.contains(ReasonView::GitError(message)) <==> result.errors.contains(
            message,
        ) by {
        if result.errors.contains(message) {
            let k = choose|k: int| 0 <= k < result.errors.len() && result.errors[k] == message;
            if observed.status == Err::<Seq<char>, Seq<char>>(message) {
                assert(result.reasons[0] == ReasonView::GitError(message));
            } else if observed.stash == Err::<Seq<char>, Seq<char>>(message) {
                assert(result.reasons[first.reasons.len() as int] == ReasonView::GitError(
                    message,
                ));
            } else {
                assert(result.reasons[second.reasons.len() as int] == ReasonView::GitError(
                    message,
                ));
            }
        }
        if result.reasons.contains(ReasonView::GitError(message)) {
            let k = choose|k: int|
                0 <= k < result.reasons.len() && result.reasons[k] == ReasonView::GitError(
                    message,
                );
            if observed.status == Err::<Seq<char>, Seq<char>>(message) {
                assert(result.errors[0] == message);
            } else if observed.stash == Err::<Seq<char>, Seq<char>>(message) {
                assert(result.errors[first.errors.len() as int] == message);
            } else {
                assert(result.errors[second.errors.len() as int] == message);
            }
        }
    }
}

/// A repository without uncommitted changes and without stash entries,
/// whose remotes could be queried: if it has remote-tracking refs and no
/// local-only commit, the verdict is `Safe`; if it has no remote-tracking
/// refs, the verdict is `Unknown`.
pub proof fn lemma_clean_verdict(
    path: Seq<char>,
    observed: ObservationView,
    ignore_untracked: bool,
)
    requires
        observed.status is Ok,
        entry_count(observed.status->Ok_0, ignore_untracked) == 0,
        observed.stash is Ok,
        entry_count(observed.stash->Ok_0, false) == 0,
        observed.remotes is Ok,
        observed.remote_refs is Ok,
        !has_remote_refs(observed.remotes->Ok_0, observed.remote_refs->Ok_0) || (
        observed.local_only is Ok && entry_count(observed.local_only->Ok_0, false) == 0),
    ensures
        ({
            let result = classify(path, observed, ignore_untracked);
            let refs = has_remote_refs(observed.remotes->Ok_0, observed.remote_refs->Ok_0);
            &&& result.status == Status::Safe <==> refs
            &&& result.status == Status::Unknown <==> !refs
            &&& refs ==> result.reasons == seq![ReasonView::AllChecksOk]
            &&& !refs ==> result.reasons == seq![ReasonView::NoRemoteRefs]
            &&& result.dirty_count == 0
            &&& result.stash_count == 0
            &&& result.local_only_commit_count == 0
            &&& result.errors == Seq::<Seq<char>>::empty()
        }),
{
    let result = classify(path, observed, ignore_untracked);
    let refs = has_remote_refs(observed.remotes->Ok_0, observed.remote_refs->Ok_0);
    let empty = Seq::<ReasonView>::empty();
    assert(!empty.contains(ReasonView::AllChecksOk));
    if refs {
        assert(result.reasons =~= seq![ReasonView::AllChecksOk]);
    } else {
        assert(result.reasons =~= seq![ReasonView::NoRemoteRefs]);
    }
}

/// A repository with a dirty entry is `Unsafe`, with `UncommittedChanges`
/// as its first finding, whatever the stash and the remotes are like.
pub proof fn lemma_dirty_is_unsafe(
    path: Seq<char>,
    observed: ObservationView,
    ignore_untracked: bool,
)
    requires
        observed.status is Ok,
        entry_count(observed.status->Ok_0, ignore_untracked) >= 1,
    ensures
        ({
            let result = classify(path, observed, ignore_untracked);
            &&& result.status == Status::Unsafe
            &&& result.reasons.contains(ReasonView::UncommittedChanges)
            &&& result.reasons[0] == ReasonView::UncommittedChanges
            &&& result.dirty_count == entry_count(observed.status->Ok_0, ignore_untracked)
        }),
{
    let fresh = RepoResultView::fresh(path);
    let first = uncommitted_checked(fresh, observed.status, ignore_untracked);
    let second = stash_checked(first, observed.stash);
    let third = local_only_checked(
        second,
        observed.remotes,
        observed.remote_refs,
        observed.local_only,
    );
    assert(first.reasons =~= seq![ReasonView::UncommittedChanges]);
    assert(first.status == Status::Unsafe);
    assert(second.reasons[0] == ReasonView::UncommittedChanges);
    assert(third.reasons[0] == ReasonView::UncommittedChanges);
    assert(third.status == Status::Unsafe);
    let result = third.finalize_safe();
    assert(result == third);
}

/// An entry with uncommitted changes, a stash entry or a local-only commit
/// each make the verdict `Unsafe`; and the verdict is `Unsafe` only if one
/// of the three counts is positive.
pub proof fn lemma_unsafe_iff_work_at_risk(
    path: Seq<char>,
    observed: ObservationView,
    ignore_untracked: bool,
)
    ensures
        ({
            let result = classify(path, observed, ignore_untracked);
            result.status == Status::Unsafe <==> (result.dirty_count > 0 || result.stash_count > 0
                || result.local_only_commit_count > 0)
        }),
{
}

/// Lines that mark untracked entries are not counted where untracked
/// entries are ignored: a text whose non-empty lines all mark untracked
/// entries has no entry then.
pub proof fn lemma_untracked_only_is_clean(output: Seq<char>)
    requires
        forall|i: int|
            0 <= i < lines(output).len() && (#[trigger] lines(output)[i]).len() > 0 ==> untracked(
                lines(output)[i],
            ),
    ensures
        entry_count(output, true) == 0,
{
    let keep = |line: Seq<char>| counted(line, true);
    let kept = lines(output).filter(keep);
    if kept.len() > 0 {
        lines(output).lemma_filter_contains_rev(keep, kept[0]);
        let i = choose|i: int| 0 <= i < lines(output).len() && lines(output)[i] == kept[0];
        assert(lines(output)[i].len() > 0);
        assert(untracked(lines(output)[i]));
        lines(output).lemma_filter_pred(keep, 0);
        assert(false);
    }
}

/// A repository whose only changes are untracked entries has a dirty
/// count of zero where untracked entries are ignored.
pub proof fn lemma_ignore_untracked(path: Seq<char>, observed: ObservationView)
    requires
        observed.status is Ok,
        forall|i: int|
            0 <= i < lines(observed.status->Ok_0).len() && (#[trigger] lines(
                observed.status->Ok_0,
            )[i]).len() > 0 ==> untracked(lines(observed.status->Ok_0)[i]),
    ensures
        classify(path, observed, true).dirty_count == 0,
        !classify(path, observed, true).reasons.contains(ReasonView::UncommittedChanges),
{
    lemma_untracked_only_is_clean(observed.status->Ok_0);
    let fresh = RepoResultView::fresh(path);
    let first = uncommitted_checked(fresh, observed.status, true);
    assert(first == fresh);
    let second = stash_checked(first, observed.stash);
    let third = local_only_checked(
        second,
        observed.remotes,
        observed.remote_refs,
        observed.local_only,
    );
    let result = third.finalize_safe();
    assert forall|i: int| 0 <= i < result.reasons.len() implies result.reasons[i]
        != ReasonView::UncommittedChanges by {}
}

/// Classifying twice what is observed as the same gives the same result.
pub proof fn lemma_classify_repeatable(
    path: Seq<char>,
    first: Observation,
    second: Observation,
    ignore_untracked: bool,
)
    requires
        first@ == second@,
    ensures
        classify(path, first@, ignore_untracked) == classify(path, second@, ignore_untracked),
{
}

/// The recheck accepts only what the check for uncommitted changes finds
/// clean: a reply that it accepts holds no dirty entry, untracked ones
/// counted or not; and a reply in which that check counts a dirty entry,
/// as well as a failed one, is rejected.
pub proof fn lemma_recheck_accepts_only_clean(reply: ReplyView, ignore_untracked: bool)
    ensures
        still_clean(reply) ==> reply is Ok && entry_count(reply->Ok_0, ignore_untracked) == 0,
        reply is Err ==> !still_clean(reply),
        reply is Ok && entry_count(reply->Ok_0, ignore_untracked) > 0 ==> !still_clean(reply),
{
    if still_clean(reply) {
        assert(lines(reply->Ok_0) =~= Seq::<Seq<char>>::empty());
    }
}

} // verus!
