//! The deletion guard: which results may be deleted, and how a run of
//! deletions proceeds.
//!
//! Nothing here touches the disk or asks the user. `DeleteRun` names the
//! action that is due for the current candidate; the caller performs it
//! and reports what happened as an event. A candidate is deleted only
//! after a recheck that has just passed.

use crate::checker::{quick_recheck, still_clean};
use crate::gateway::{reply_view, Reply};
use crate::types::{select_by_status, status_among, DeleteConfirm, RepoResult, Status};
use vstd::prelude::*;

verus! {

/// Whether a result with this verdict may be deleted: `Safe` always,
/// `Unknown` where that is allowed, `Unsafe` never.
pub open spec fn deletable(status: Status, allow_unknown: bool) -> bool {
    status == Status::Safe || (allow_unknown && status == Status::Unknown)
}

/// The test whether a result may be deleted.
pub open spec fn is_candidate(allow_unknown: bool) -> spec_fn(RepoResult) -> bool {
    |result: RepoResult| deletable(result.status, allow_unknown)
}

/// Decides whether a result with this verdict may be deleted.
pub fn is_deletable(status: Status, allow_unknown: bool) -> (answer: bool)
    ensures
        answer == deletable(status, allow_unknown),
{
    match status {
        Status::Safe => true,
        Status::Unknown => allow_unknown,
        Status::Unsafe => false,
    }
}

/// Selects the results that may be deleted, in their order.
pub fn get_delete_candidates<'a>(
    results: &'a [RepoResult],
    allow_unknown: bool,
) -> (candidates: Vec<&'a RepoResult>)
    ensures
        candidates@.map_values(|candidate: &RepoResult| *candidate) == results@.filter(
            is_candidate(allow_unknown),
        ),
        forall|k: int|
            0 <= k < candidates@.len() ==> (#[trigger] candidates@[k]).status != Status::Unsafe,
{
    let candidates = select_by_status(results, true, false, allow_unknown);
    proof {
        let keep = is_candidate(allow_unknown);
        assert(keep =~= status_among(true, false, allow_unknown));
        let picked = candidates@.map_values(|candidate: &RepoResult| *candidate);
        assert(picked =~= candidates@.map_values(|result: &RepoResult| *result));
        assert forall|k: int| 0 <= k < candidates@.len() implies (#[trigger] candidates@[k]).status
            != Status::Unsafe by {
            assert(picked[k] == *candidates@[k]);
            results@.lemma_filter_pred(keep, k);
        }
    }
    candidates
}

/// Whether the offer to delete for good what could not be moved to the
/// trash was taken: only the first entry of that menu takes it.
pub open spec fn fallback_taken(selection: Option<usize>) -> bool {
    selection == Some(0usize)
}

/// Decides whether the entry chosen from the menu takes the offer to
/// delete for good.
pub fn fallback_accepted(selection: Option<usize>) -> (answer: bool)
    ensures
        answer == fallback_taken(selection),
{
    match selection {
        Some(0) => true,
        _ => false,
    }
}

/// Where a run of deletions stands with its current candidate.
#[derive(Debug, Clone, Copy, PartialEq, Eq, Structural)]
pub enum DeleteStep {
    /// The user is to be asked whether to delete it.
    Confirm,
    /// Its working tree is to be checked once more.
    Recheck,
    /// It is to be moved to the trash.
    Trash,
    /// The trash failed; the user is to be asked whether to delete for good.
    ConfirmFallback,
    /// It is to be deleted for good.
    Remove,
    /// There is no current candidate: the run is over.
    Done,
}

/// What the caller is to do next. The number is the index of the
/// candidate.
#[derive(Debug, Clone, Copy, PartialEq, Eq, Structural)]
pub enum DeleteAction {
    /// Ask the user whether to delete the candidate.
    Ask(usize),
    /// Put the status query to Git again and report the reply.
    Recheck(usize),
    /// Move the candidate to the trash.
    MoveToTrash(usize),
    /// Tell the user that the trash failed, and ask whether to delete for
    /// good.
    AskFallback(usize),
    /// Delete the candidate for good.
    Remove(usize),
    /// Stop and report the counts.
    Finish,
}

/// What happened when the caller did what was due.
#[derive(Debug)]
pub enum DeleteEvent {
    /// The user answered the question whether to delete.
    Answered(DeleteConfirm),
    /// The status query was put to Git again; this is the reply.
    Rechecked(Reply),
    /// The move to the trash was tried; `true` if it succeeded.
    Trashed(bool),
    /// The user answered the offer to delete for good; `true` if taken.
    FallbackAnswered(bool),
    /// The deletion for good was tried; `true` if it succeeded.
    Removed(bool),
}

/// The mathematical value of a `DeleteEvent`. Of the reply to a recheck it
/// keeps whether the recheck passed: whether the query succeeded with
/// empty output.
pub enum DeleteEventView {
    Answered(DeleteConfirm),
    Rechecked(bool),
    Trashed(bool),
    FallbackAnswered(bool),
    Removed(bool),
}

impl View for DeleteEvent {
    type V = DeleteEventView;

    open spec fn view(&self) -> DeleteEventView {
        match self {
            DeleteEvent::Answered(answer) => DeleteEventView::Answered(*answer),
            DeleteEvent::Rechecked(reply) => DeleteEventView::Rechecked(
                still_clean(reply_view(*reply)),
            ),
            DeleteEvent::Trashed(moved) => DeleteEventView::Trashed(*moved),
            DeleteEvent::FallbackAnswered(taken) => DeleteEventView::FallbackAnswered(*taken),
            DeleteEvent::Removed(removed) => DeleteEventView::Removed(*removed),
        }
    }
}

/// The mathematical values of `events`.
pub open spec fn event_views(events: Seq<DeleteEvent>) -> Seq<DeleteEventView> {
    events.map_values(|event: DeleteEvent| event@)
}

/// The mathematical value of a `DeleteRun`.
pub struct DeleteState {
    /// The number of candidates.
    pub total: nat,
    /// Whether candidates go to the trash rather than being deleted for good.
    pub use_trash: bool,
    /// Whether the user is no longer asked about each candidate.
    pub delete_all: bool,
    /// The index of the current candidate.
    pub index: nat,
    /// Where the run stands with it.
    pub step: DeleteStep,
    /// How many candidates were deleted.
    pub deleted: nat,
    /// How many candidates were skipped.
    pub skipped: nat,
}

impl DeleteState {
    /// The step with which a candidate begins.
    pub open spec fn first_step(self, index: nat) -> DeleteStep {
        if index >= self.total {
            DeleteStep::Done
        } else if self.delete_all {
            DeleteStep::Recheck
        } else {
            DeleteStep::Confirm
        }
    }

    /// The state before anything was done. With `skip_confirm` the user is
    /// never asked about a candidate.
    pub open spec fn start(total: nat, use_trash: bool, skip_confirm: bool) -> DeleteState {
        let blank = DeleteState {
            total,
            use_trash,
            delete_all: skip_confirm,
            index: 0,
            step: DeleteStep::Done,
            deleted: 0,
            skipped: 0,
        };
        DeleteState { step: blank.first_step(0), ..blank }
    }

    /// Whether the counts fit the position: every candidate before the
    /// current one was either deleted or skipped, and a run that is not
    /// over has a current candidate.
    pub open spec fn valid(self) -> bool {
        &&& self.deleted + self.skipped == self.index
        &&& self.index <= self.total
        &&& self.step != DeleteStep::Done ==> self.index < self.total
    }

    /// The state after the current candidate was deleted or skipped: the
    /// run goes on with the next one.
    pub open spec fn settle(self, deleted: bool) -> DeleteState {
        DeleteState {
            index: self.index + 1,
            step: self.first_step(self.index + 1),
            deleted: if deleted {
                self.deleted + 1
            } else {
                self.deleted
            },
            skipped: if deleted {
                self.skipped
            } else {
                self.skipped + 1
            },
            ..self
        }
    }

    /// The state with the same candidate at another step.
    pub open spec fn at(self, step: DeleteStep) -> DeleteState {
        DeleteState { step, ..self }
    }

    /// The state after `event`. An event that does not answer the action
    /// that is due changes nothing.
    pub open spec fn step(self, event: DeleteEventView) -> DeleteState {
        match (self.step, event) {
            (DeleteStep::Confirm, DeleteEventView::Answered(DeleteConfirm::Yes)) => self.at(
                DeleteStep::Recheck,
            ),
            (DeleteStep::Confirm, DeleteEventView::Answered(DeleteConfirm::No)) => self.settle(false),
            (DeleteStep::Confirm, DeleteEventView::Answered(DeleteConfirm::All)) => DeleteState {
                delete_all: true,
                step: DeleteStep::Recheck,
                ..self
            },
            (DeleteStep::Confirm, DeleteEventView::Answered(DeleteConfirm::Quit)) => self.at(
                DeleteStep::Done,
            ),
            (DeleteStep::Recheck, DeleteEventView::Rechecked(clean)) => if clean {
                self.at(
                    if self.use_trash {
                        DeleteStep::Trash
                    } else {
                        DeleteStep::Remove
                    },
                )
            } else {
                self.settle(false)
            },
            (DeleteStep::Trash, DeleteEventView::Trashed(moved)) => if moved {
                self.settle(true)
            } else if self.delete_all {
                self.settle(false)
            } else {
                self.at(DeleteStep::ConfirmFallback)
            },
            (DeleteStep::ConfirmFallback, DeleteEventView::FallbackAnswered(taken)) => if taken {
                self.at(DeleteStep::Remove)
            } else {
                self.settle(false)
            },
            (DeleteStep::Remove, DeleteEventView::Removed(removed)) => self.settle(removed),
            _ => self,
        }
    }

    /// The action that is due.
    pub open spec fn action(self) -> DeleteAction {
        match self.step {
            DeleteStep::Confirm => DeleteAction::Ask(self.index as usize),
            DeleteStep::Recheck => DeleteAction::Recheck(self.index as usize),
            DeleteStep::Trash => DeleteAction::MoveToTrash(self.index as usize),
            DeleteStep::ConfirmFallback => DeleteAction::AskFallback(self.index as usize),
            DeleteStep::Remove => DeleteAction::Remove(self.index as usize),
            DeleteStep::Done => DeleteAction::Finish,
        }
    }

    /// The state after all of `events`, in their order.
    pub open spec fn run(self, events: Seq<DeleteEventView>) -> DeleteState
        decreases events.len(),
    {
        if events.len() == 0 {
            self
        } else {
            self.run(events.drop_last()).step(events.last())
        }
    }

    /// Whether the user answered `Quit` to a question that was due, in the
    /// run from this state through `events`.
    pub open spec fn quit_taken(self, events: Seq<DeleteEventView>) -> bool
        decreases events.len(),
    {
        if events.len() == 0 {
            false
        } else {
            self.quit_taken(events.drop_last()) || (self.run(events.drop_last()).step
                == DeleteStep::Confirm && events.last() == DeleteEventView::Answered(
                DeleteConfirm::Quit,
            ))
        }
    }

    /// Whether the recheck of the current candidate has passed and the
    /// candidate is neither deleted nor skipped yet.
    pub open spec fn cleared(self) -> bool {
        self.step == DeleteStep::Trash || self.step == DeleteStep::ConfirmFallback || self.step
            == DeleteStep::Remove
    }
}

/// The number of rechecks in `events` that found a clean working tree.
pub open spec fn passed_rechecks(events: Seq<DeleteEventView>) -> nat {
    events.filter(|event: DeleteEventView| event == DeleteEventView::Rechecked(true)).len()
}

/// A run of deletions over a list of candidates.
#[derive(Debug)]
pub struct DeleteRun {
    total: usize,
    use_trash: bool,
    delete_all: bool,
    index: usize,
    step: DeleteStep,
    deleted: usize,
    skipped: usize,
}

impl View for DeleteRun {
    type V = DeleteState;

    closed spec fn view(&self) -> DeleteState {
        DeleteState {
            total: self.total as nat,
            use_trash: self.use_trash,
            delete_all: self.delete_all,
            index: self.index as nat,
            step: self.step,
            deleted: self.deleted as nat,
            skipped: self.skipped as nat,
        }
    }
}

impl DeleteRun {
    #[verifier::type_invariant]
    spec fn well_formed(self) -> bool {
        self@.valid()
    }

    /// Starts a run over `total` candidates. With `use_trash` they go to
    /// the trash; with `skip_confirm` the user is not asked about them.
    pub fn new(total: usize, use_trash: bool, skip_confirm: bool) -> (run: DeleteRun)
        ensures
            run@ == DeleteState::start(total as nat, use_trash, skip_confirm),
            run@.valid(),
    {
        let step = if total == 0 {
            DeleteStep::Done
        } else if skip_confirm {
            DeleteStep::Recheck
        } else {
            DeleteStep::Confirm
        };
        DeleteRun {
            total,
            use_trash,
            delete_all: skip_confirm,
            index: 0,
            step,
            deleted: 0,
            skipped: 0,
        }
    }

    /// The action that is due.
    pub fn action(&self) -> (action: DeleteAction)
        ensures
            action == self@.action(),
            self@.valid(),
    {
        proof {
            use_type_invariant(self);
        }
        match self.step {
            DeleteStep::Confirm => DeleteAction::Ask(self.index),
            DeleteStep::Recheck => DeleteAction::Recheck(self.index),
            DeleteStep::Trash => DeleteAction::MoveToTrash(self.index),
            DeleteStep::ConfirmFallback => DeleteAction::AskFallback(self.index),
            DeleteStep::Remove => DeleteAction::Remove(self.index),
            DeleteStep::Done => DeleteAction::Finish,
        }
    }

    /// Whether the run is over.
    pub fn is_done(&self) -> (done: bool)
        ensures
            done == (self@.step == DeleteStep::Done),
    {
        match self.step {
            DeleteStep::Done => true,
            _ => false,
        }
    }

    /// Whether the user is no longer asked about each candidate. A move to
    /// the trash that fails is then a skip, without an offer to delete for
    /// good.
    pub fn deletes_all(&self) -> (all: bool)
        ensures
            all == self@.delete_all,
    {
        self.delete_all
    }

    /// The numbers of candidates deleted and skipped so far.
    pub fn counts(&self) -> (counts: (usize, usize))
        ensures
            counts.0 == self@.deleted,
            counts.1 == self@.skipped,
            counts.0 + counts.1 <= self@.total,
    {
        proof {
            use_type_invariant(self);
        }
        (self.deleted, self.skipped)
    }

    /// Counts the current candidate as deleted or skipped and moves on.
    fn settle(&mut self, deleted: bool)
        requires
            old(self)@.step != DeleteStep::Done,
        ensures
            final(self)@ == old(self)@.settle(deleted),
    {
        proof {
            use_type_invariant(&*self);
        }
        let index = self.index + 1;
        let step = if index >= self.total {
            DeleteStep::Done
        } else if self.delete_all {
            DeleteStep::Recheck
        } else {
            DeleteStep::Confirm
        };
        *self = DeleteRun {
            total: self.total,
            use_trash: self.use_trash,
            delete_all: self.delete_all,
            index,
            step,
            deleted: if deleted {
                self.deleted + 1
            } else {
                self.deleted
            },
            skipped: if deleted {
                self.skipped
            } else {
                self.skipped + 1
            },
        };
    }

    /// Takes in what happened when the caller did what was due. An event
    /// that does not answer the action that is due changes nothing. The
    /// reply to a recheck is judged here: a failure and any output skip
    /// the candidate.
    pub fn advance(&mut self, event: &DeleteEvent)
        ensures
            final(self)@ == old(self)@.step(event@),
            final(self)@.valid(),
    {
        proof {
            use_type_invariant(&*self);
        }
        match (self.step, event) {
            (DeleteStep::Confirm, DeleteEvent::Answered(answer)) => match answer {
                DeleteConfirm::Yes => {
                    self.step = DeleteStep::Recheck;
                },
                DeleteConfirm::No => {
                    self.settle(false);
                },
                DeleteConfirm::All => {
                    self.delete_all = true;
                    self.step = DeleteStep::Recheck;
                },
                DeleteConfirm::Quit => {
                    self.step = DeleteStep::Done;
                },
            },
            (DeleteStep::Recheck, DeleteEvent::Rechecked(reply)) => {
                if !quick_recheck(reply) {
                    self.settle(false);
                } else if self.use_trash {
                    self.step = DeleteStep::Trash;
                } else {
                    self.step = DeleteStep::Remove;
                }
            },
            (DeleteStep::Trash, DeleteEvent::Trashed(moved)) => {
                if *moved {
                    self.settle(true);
                } else if self.delete_all {
                    self.settle(false);
                } else {
                    self.step = DeleteStep::ConfirmFallback;
                }
            },
            (DeleteStep::ConfirmFallback, DeleteEvent::FallbackAnswered(taken)) => {
                if *taken {
                    self.step = DeleteStep::Remove;
                } else {
                    self.settle(false);
                }
            },
            (DeleteStep::Remove, DeleteEvent::Removed(removed)) => {
                self.settle(*removed);
            },
            _ => {},
        }
        proof {
            use_type_invariant(&*self);
        }
    }
}

/// Replays a run of deletions over `total` candidates from the events
/// that the caller met with, and returns how many candidates were deleted
/// and how many were skipped.
pub fn execute_delete(
    total: usize,
    use_trash: bool,
    skip_confirm: bool,
    events: &[DeleteEvent],
) -> (counts: (usize, usize))
    ensures
        counts.0 == DeleteState::start(total as nat, use_trash, skip_confirm).run(
            event_views(events@),
        ).deleted,
        counts.1 == DeleteState::start(total as nat, use_trash, skip_confirm).run(
            event_views(events@),
        ).skipped,
        counts.0 + counts.1 <= total,
        counts.0 <= passed_rechecks(event_views(events@)),
{
    let mut run = DeleteRun::new(total, use_trash, skip_confirm);
    let ghost start = run@;
    let ghost all = event_views(events@);
    let mut i: usize = 0;
    assert(all.take(0) =~= Seq::<DeleteEventView>::empty());
    while i < events.len()
        invariant
            i <= events@.len(),
            all == event_views(events@),
            start == DeleteState::start(total as nat, use_trash, skip_confirm),
            run@ == start.run(all.take(i as int)),
        decreases events@.len() - i,
    {
        assert(all.take(i + 1).drop_last() =~= all.take(i as int));
        assert(all.take(i + 1).last() == events@[i as int]@);
        run.advance(&events[i]);
        i += 1;
    }
    assert(all.take(all.len() as int) =~= all);
    proof {
        lemma_deleted_only_after_recheck(total as nat, use_trash, skip_confirm, all);
    }
    run.counts()
}

/// Every step keeps the counts fitting the position.
pub proof fn lemma_step_keeps_valid(state: DeleteState, event: DeleteEventView)
    requires
        state.valid(),
    ensures
        state.step(event).valid(),
        state.step(event).total == state.total,
        state.step(event).deleted >= state.deleted,
        state.step(event).skipped >= state.skipped,
{
}

/// A recheck that does not find a clean working tree skips the candidate:
/// it is not deleted, whatever events follow for it, because the run has
/// moved on.
pub proof fn lemma_failed_recheck_skips(state: DeleteState)
    requires
        state.valid(),
        state.step == DeleteStep::Recheck,
    ensures
        state.step(DeleteEventView::Rechecked(false)) == state.settle(false),
        state.step(DeleteEventView::Rechecked(false)).deleted == state.deleted,
        state.step(DeleteEventView::Rechecked(false)).skipped == state.skipped + 1,
        state.step(DeleteEventView::Rechecked(false)).index == state.index + 1,
{
}

/// No candidate is deleted or skipped once the user has quit: the run is
/// over, and no event changes a run that is over.
pub proof fn lemma_quit_ends_run(state: DeleteState, later: Seq<DeleteEventView>)
    requires
        state.step == DeleteStep::Confirm,
    ensures
        state.step(DeleteEventView::Answered(DeleteConfirm::Quit)).step == DeleteStep::Done,
        state.step(DeleteEventView::Answered(DeleteConfirm::Quit)).run(later) == state.at(
            DeleteStep::Done,
        ),
    decreases later.len(),
{
    if later.len() > 0 {
        lemma_quit_ends_run(state, later.drop_last());
    }
}

/// A run that is over has dealt with all candidates exactly if the user
/// did not quit: then every candidate was deleted or skipped, and after
/// `Quit` the current candidate and those behind it are neither.
pub proof fn lemma_counts_add_up_unless_quit(
    total: nat,
    use_trash: bool,
    skip_confirm: bool,
    events: Seq<DeleteEventView>,
)
    ensures
        ({
            let start = DeleteState::start(total, use_trash, skip_confirm);
            let end = start.run(events);
            &&& end.valid()
            &&& end.total == total
            &&& start.quit_taken(events) ==> end.step == DeleteStep::Done && end.deleted
                + end.skipped < total
            &&& end.step == DeleteStep::Done ==> (end.deleted + end.skipped == total
                <==> !start.quit_taken(events))
        }),
    decreases events.len(),
{
    let start = DeleteState::start(total, use_trash, skip_confirm);
    if events.len() > 0 {
        lemma_counts_add_up_unless_quit(total, use_trash, skip_confirm, events.drop_last());
        let before = start.run(events.drop_last());
        lemma_step_keeps_valid(before, events.last());
    }
}

/// A candidate is deleted only after its recheck has passed: in every run,
/// whatever the events, at most as many candidates are deleted as rechecks
/// found a clean working tree, and deleted and skipped candidates together
/// are at most all candidates.
pub proof fn lemma_deleted_only_after_recheck(
    total: nat,
    use_trash: bool,
    skip_confirm: bool,
    events: Seq<DeleteEventView>,
)
    ensures
        ({
            let end = DeleteState::start(total, use_trash, skip_confirm).run(events);
            &&& end.valid()
            &&& end.total == total
            &&& end.deleted + end.skipped <= total
            &&& end.deleted + (if end.cleared() {
                1nat
            } else {
                0nat
            }) <= passed_rechecks(events)
        }),
    decreases events.len(),
{
    let start = DeleteState::start(total, use_trash, skip_confirm);
    let passed = |event: DeleteEventView| event == DeleteEventView::Rechecked(true);
    reveal(Seq::filter);
    if events.len() > 0 {
        lemma_deleted_only_after_recheck(total, use_trash, skip_confirm, events.drop_last());
        let before = start.run(events.drop_last());
        lemma_step_keeps_valid(before, events.last());
    }
}

} // verus!
