use repo_check::delete::{
    execute_delete, fallback_accepted, get_delete_candidates, is_deletable, DeleteAction,
    DeleteEvent, DeleteRun,
};
use repo_check::gateway::GatewayError;
use repo_check::types::{DeleteConfirm, Reason, RepoResult, Status};

fn clean() -> DeleteEvent {
    DeleteEvent::Rechecked(Ok(String::new()))
}

fn changed() -> DeleteEvent {
    DeleteEvent::Rechecked(Ok(String::from(" M test.txt\n")))
}

fn result(path: &str, status: Status) -> RepoResult {
    let mut result = RepoResult::new(String::from(path));
    match status {
        Status::Safe => {}
        Status::Unsafe => result.mark_unsafe(Reason::UncommittedChanges),
        Status::Unknown => result.mark_unknown(Reason::NoRemoteRefs),
    }
    result
}

#[test]
fn candidates_are_safe_and_unknown_only_if_allowed() {
    let results = vec![
        result("/safe", Status::Safe),
        result("/unsafe", Status::Unsafe),
        result("/unknown", Status::Unknown),
    ];
    let strict: Vec<&str> =
        get_delete_candidates(&results, false).iter().map(|r| r.path.as_str()).collect();
    assert_eq!(strict, vec!["/safe"]);
    let lenient: Vec<&str> =
        get_delete_candidates(&results, true).iter().map(|r| r.path.as_str()).collect();
    assert_eq!(lenient, vec!["/safe", "/unknown"]);
}

#[test]
fn candidates_keep_their_order() {
    let results = vec![
        result("/c", Status::Unknown),
        result("/a", Status::Safe),
        result("/x", Status::Unsafe),
        result("/b", Status::Safe),
    ];
    let picked: Vec<&str> =
        get_delete_candidates(&results, true).iter().map(|r| r.path.as_str()).collect();
    assert_eq!(picked, vec!["/c", "/a", "/b"]);
    assert!(get_delete_candidates(&[], true).is_empty());
}

#[test]
fn unsafe_is_never_deletable() {
    assert!(is_deletable(Status::Safe, false));
    assert!(is_deletable(Status::Safe, true));
    assert!(!is_deletable(Status::Unknown, false));
    assert!(is_deletable(Status::Unknown, true));
    assert!(!is_deletable(Status::Unsafe, false));
    assert!(!is_deletable(Status::Unsafe, true));
}

#[test]
fn only_the_first_entry_takes_the_fallback() {
    assert!(fallback_accepted(Some(0)));
    assert!(!fallback_accepted(Some(1)));
    assert!(!fallback_accepted(Some(7)));
    assert!(!fallback_accepted(None));
}

#[test]
fn run_without_candidates_is_over_at_once() {
    let run = DeleteRun::new(0, true, false);
    assert!(run.is_done());
    assert_eq!(run.action(), DeleteAction::Finish);
    assert_eq!(run.counts(), (0, 0));
}

#[test]
fn confirmed_candidate_is_rechecked_and_removed() {
    let mut run = DeleteRun::new(1, false, false);
    assert_eq!(run.action(), DeleteAction::Ask(0));
    run.advance(&DeleteEvent::Answered(DeleteConfirm::Yes));
    assert_eq!(run.action(), DeleteAction::Recheck(0));
    run.advance(&clean());
    assert_eq!(run.action(), DeleteAction::Remove(0));
    run.advance(&DeleteEvent::Removed(true));
    assert_eq!(run.action(), DeleteAction::Finish);
    assert_eq!(run.counts(), (1, 0));
}

#[test]
fn failed_recheck_skips_the_candidate() {
    let mut run = DeleteRun::new(2, true, true);
    assert_eq!(run.action(), DeleteAction::Recheck(0));
    run.advance(&changed());
    assert_eq!(run.action(), DeleteAction::Recheck(1));
    assert_eq!(run.counts(), (0, 1));
    // a late report about the skipped candidate changes nothing
    run.advance(&DeleteEvent::Trashed(true));
    run.advance(&DeleteEvent::Removed(true));
    assert_eq!(run.action(), DeleteAction::Recheck(1));
    assert_eq!(run.counts(), (0, 1));
}

#[test]
fn recheck_that_fails_to_run_skips_the_candidate() {
    let mut run = DeleteRun::new(1, false, true);
    let failed = Err(GatewayError { message: String::from("git status --porcelain failed: gone") });
    run.advance(&DeleteEvent::Rechecked(failed));
    assert!(run.is_done());
    assert_eq!(run.counts(), (0, 1));
}

#[test]
fn recheck_with_white_space_only_skips_the_candidate() {
    let mut run = DeleteRun::new(1, false, true);
    run.advance(&DeleteEvent::Rechecked(Ok(String::from(" \n"))));
    assert!(run.is_done());
    assert_eq!(run.counts(), (0, 1));
}

#[test]
fn no_skips_and_moves_on() {
    let mut run = DeleteRun::new(2, false, false);
    run.advance(&DeleteEvent::Answered(DeleteConfirm::No));
    assert_eq!(run.action(), DeleteAction::Ask(1));
    assert_eq!(run.counts(), (0, 1));
}

#[test]
fn all_stops_the_questions() {
    let mut run = DeleteRun::new(3, false, false);
    assert!(!run.deletes_all());
    run.advance(&DeleteEvent::Answered(DeleteConfirm::All));
    assert!(run.deletes_all());
    assert_eq!(run.action(), DeleteAction::Recheck(0));
    run.advance(&clean());
    run.advance(&DeleteEvent::Removed(true));
    assert_eq!(run.action(), DeleteAction::Recheck(1));
    run.advance(&clean());
    run.advance(&DeleteEvent::Removed(false));
    assert_eq!(run.action(), DeleteAction::Recheck(2));
    assert_eq!(run.counts(), (1, 1));
}

#[test]
fn quit_ends_the_run_without_counting_the_rest() {
    let mut run = DeleteRun::new(3, false, false);
    run.advance(&DeleteEvent::Answered(DeleteConfirm::No));
    run.advance(&DeleteEvent::Answered(DeleteConfirm::Quit));
    assert!(run.is_done());
    assert_eq!(run.action(), DeleteAction::Finish);
    assert_eq!(run.counts(), (0, 1));
    run.advance(&DeleteEvent::Answered(DeleteConfirm::Yes));
    run.advance(&clean());
    run.advance(&DeleteEvent::Removed(true));
    assert_eq!(run.counts(), (0, 1));
}

#[test]
fn failed_trash_offers_the_fallback_when_asking() {
    let mut run = DeleteRun::new(2, true, false);
    run.advance(&DeleteEvent::Answered(DeleteConfirm::Yes));
    run.advance(&clean());
    assert_eq!(run.action(), DeleteAction::MoveToTrash(0));
    run.advance(&DeleteEvent::Trashed(false));
    assert_eq!(run.action(), DeleteAction::AskFallback(0));
    run.advance(&DeleteEvent::FallbackAnswered(true));
    assert_eq!(run.action(), DeleteAction::Remove(0));
    run.advance(&DeleteEvent::Removed(true));
    assert_eq!(run.counts(), (1, 0));

    run.advance(&DeleteEvent::Answered(DeleteConfirm::Yes));
    run.advance(&clean());
    run.advance(&DeleteEvent::Trashed(false));
    run.advance(&DeleteEvent::FallbackAnswered(false));
    assert!(run.is_done());
    assert_eq!(run.counts(), (1, 1));
}

#[test]
fn failed_trash_is_a_skip_when_not_asking() {
    let mut run = DeleteRun::new(1, true, true);
    run.advance(&clean());
    assert_eq!(run.action(), DeleteAction::MoveToTrash(0));
    run.advance(&DeleteEvent::Trashed(false));
    assert!(run.is_done());
    assert_eq!(run.counts(), (0, 1));
}

#[test]
fn trash_that_works_deletes() {
    let mut run = DeleteRun::new(1, true, true);
    run.advance(&clean());
    run.advance(&DeleteEvent::Trashed(true));
    assert_eq!(run.counts(), (1, 0));
}

#[test]
fn replay_counts_deleted_and_skipped() {
    let events = [
        DeleteEvent::Answered(DeleteConfirm::Yes),
        clean(),
        DeleteEvent::Removed(true),
        DeleteEvent::Answered(DeleteConfirm::No),
        DeleteEvent::Answered(DeleteConfirm::All),
        changed(),
        clean(),
        DeleteEvent::Removed(true),
    ];
    assert_eq!(execute_delete(5, false, false, &events), (2, 2));
    assert_eq!(execute_delete(5, false, false, &events[..3]), (1, 0));
    assert_eq!(execute_delete(0, false, false, &events), (0, 0));
    assert_eq!(execute_delete(3, true, true, &[]), (0, 0));
}

#[test]
fn nothing_is_deleted_without_a_passed_recheck() {
    let events = [
        DeleteEvent::Answered(DeleteConfirm::All),
        DeleteEvent::Trashed(true),
        DeleteEvent::Removed(true),
        changed(),
        DeleteEvent::Removed(true),
        changed(),
    ];
    assert_eq!(execute_delete(2, false, false, &events), (0, 2));
}

#[test]
fn counts_add_up_unless_the_user_quits() {
    let answered_all = [
        DeleteEvent::Answered(DeleteConfirm::No),
        DeleteEvent::Answered(DeleteConfirm::Yes),
        clean(),
        DeleteEvent::Removed(true),
    ];
    assert_eq!(execute_delete(2, false, false, &answered_all), (1, 1));
    let quit = [DeleteEvent::Answered(DeleteConfirm::No), DeleteEvent::Answered(DeleteConfirm::Quit)];
    assert_eq!(execute_delete(2, false, false, &quit), (0, 1));
}
