use repo_check::checker::{
    check_local_only_commits, check_repository, check_stash, check_uncommitted_changes,
    quick_recheck, Classifier, Observation,
};
use repo_check::gateway::{GatewayError, Query, Reply};
use repo_check::types::{Reason, RepoResult, Status};

fn ok(text: &str) -> Reply {
    Ok(String::from(text))
}

fn failed(message: &str) -> Reply {
    Err(GatewayError { message: String::from(message) })
}

/// A repository with one commit, nothing else.
fn committed_without_remote() -> Observation {
    Observation {
        status: ok(""),
        stash: ok(""),
        remotes: ok(""),
        remote_refs: ok(""),
        local_only: ok("1a2b3c4 initial\n"),
    }
}

/// A repository with one commit, pushed to `origin`.
fn pushed() -> Observation {
    Observation {
        status: ok(""),
        stash: ok(""),
        remotes: ok("origin\n"),
        remote_refs: ok("refs/remotes/origin/master\n"),
        local_only: ok(""),
    }
}

fn drive(repo_path: &str, observed: &Observation, ignore_untracked: bool) -> (RepoResult, Vec<Query>) {
    let mut classifier = Classifier::new(repo_path, ignore_untracked);
    let mut asked = Vec::new();
    while let Some(query) = classifier.next_query() {
        asked.push(query);
        classifier.feed(observed.reply(query));
    }
    (classifier.finish(), asked)
}

fn same(a: &RepoResult, b: &RepoResult) -> bool {
    a.path == b.path
        && a.status == b.status
        && a.reasons == b.reasons
        && a.dirty_count == b.dirty_count
        && a.stash_count == b.stash_count
        && a.local_only_commit_count == b.local_only_commit_count
        && a.errors == b.errors
}

#[test]
fn test_clean_repo_no_remote() {
    let result = check_repository("/tmp/repo", &committed_without_remote(), false);
    // No remote -> UNKNOWN
    assert_eq!(result.status, Status::Unknown);
    assert_eq!(result.reasons, vec![Reason::NoRemoteRefs]);
}

#[test]
fn test_dirty_repo() {
    let observed = Observation { status: ok("?? test.txt\n"), ..committed_without_remote() };
    let result = check_repository("/tmp/repo", &observed, false);
    assert_eq!(result.status, Status::Unsafe);
    assert!(result.dirty_count > 0);
    assert_eq!(result.dirty_count, 1);
    assert_eq!(result.reasons, vec![Reason::UncommittedChanges, Reason::NoRemoteRefs]);
}

#[test]
fn test_stash_detection() {
    let observed = Observation {
        stash: ok("stash@{0}: WIP on master: 1a2b3c4 initial\n"),
        ..committed_without_remote()
    };
    let result = check_repository("/tmp/repo", &observed, false);
    assert_eq!(result.status, Status::Unsafe);
    assert!(result.stash_count > 0);
    assert_eq!(result.stash_count, 1);
    assert_eq!(result.reasons, vec![Reason::StashExists, Reason::NoRemoteRefs]);
}

#[test]
fn test_ignore_untracked() {
    let observed = Observation { status: ok("?? untracked.txt\n"), ..committed_without_remote() };

    // Without ignore_untracked -> UNSAFE
    let result = check_repository("/tmp/repo", &observed, false);
    assert_eq!(result.status, Status::Unsafe);

    // With ignore_untracked -> still UNKNOWN because no remote
    let result = check_repository("/tmp/repo", &observed, true);
    // dirty_count should be 0 since untracked is ignored
    assert_eq!(result.dirty_count, 0);
    assert_eq!(result.status, Status::Unknown);
}

#[test]
fn test_quick_recheck_clean() {
    assert!(quick_recheck(&ok("")));
}

#[test]
fn test_quick_recheck_dirty() {
    assert!(!quick_recheck(&ok("?? test.txt\n")));
}

#[test]
fn test_local_only_commits_with_remote() {
    // All pushed -> SAFE
    let result = check_repository("/tmp/repo", &pushed(), false);
    assert_eq!(result.status, Status::Safe);
    assert_eq!(result.local_only_commit_count, 0);

    // Add unpushed commit -> UNSAFE
    let observed = Observation { local_only: ok("5d6e7f8 local only\n"), ..pushed() };
    let result = check_repository("/tmp/repo", &observed, false);
    assert_eq!(result.status, Status::Unsafe);
    assert!(result.local_only_commit_count > 0);
    assert_eq!(result.local_only_commit_count, 1);
    assert_eq!(result.reasons, vec![Reason::LocalOnlyCommits]);
}

#[test]
fn pushed_repository_passes_all_checks() {
    let result = check_repository("/work/clone", &pushed(), false);
    assert_eq!(result.path, "/work/clone");
    assert_eq!(result.status, Status::Safe);
    assert_eq!(result.reasons, vec![Reason::AllChecksOk]);
    assert_eq!(result.dirty_count, 0);
    assert_eq!(result.stash_count, 0);
    assert_eq!(result.local_only_commit_count, 0);
    assert!(result.errors.is_empty());
}

#[test]
fn clean_repository_is_safe_only_with_remote_refs() {
    let with_refs = check_repository("/r", &pushed(), false);
    assert_eq!(with_refs.status, Status::Safe);

    let remote_without_refs = Observation { remote_refs: ok(""), ..pushed() };
    let result = check_repository("/r", &remote_without_refs, false);
    assert_eq!(result.status, Status::Unknown);
    assert_eq!(result.reasons, vec![Reason::NoRemoteRefs]);

    let refs_without_remote = Observation { remotes: ok(" \n"), ..pushed() };
    let result = check_repository("/r", &refs_without_remote, false);
    assert_eq!(result.status, Status::Unknown);
    assert_eq!(result.reasons, vec![Reason::NoRemoteRefs]);
}

#[test]
fn tracked_change_is_unsafe_whatever_the_remote() {
    for observed in [
        Observation { status: ok(" M test.txt\n"), ..pushed() },
        Observation { status: ok(" M test.txt\n"), ..committed_without_remote() },
        Observation { status: ok(" M test.txt\n"), remotes: failed("git remote failed: x"), ..pushed() },
    ] {
        for ignore_untracked in [false, true] {
            let result = check_repository("/r", &observed, ignore_untracked);
            assert_eq!(result.status, Status::Unsafe);
            assert!(result.reasons.contains(&Reason::UncommittedChanges));
            assert_eq!(result.reasons[0], Reason::UncommittedChanges);
            assert_eq!(result.dirty_count, 1);
        }
    }
}

#[test]
fn unsafe_is_never_downgraded() {
    let mut result = RepoResult::new(String::from("/r"));
    check_uncommitted_changes(&ok(" M a\n M b\n"), &mut result, false);
    assert_eq!(result.status, Status::Unsafe);
    check_stash(&failed("git stash list failed: broken"), &mut result);
    assert_eq!(result.status, Status::Unsafe);
    check_local_only_commits(&ok(""), &ok(""), &ok(""), &mut result);
    assert_eq!(result.status, Status::Unsafe);
    result.finalize_safe();
    assert_eq!(result.status, Status::Unsafe);
    assert_eq!(
        result.reasons,
        vec![
            Reason::UncommittedChanges,
            Reason::GitError(String::from("git stash list failed: broken")),
            Reason::NoRemoteRefs,
        ]
    );
    assert_eq!(result.errors, vec![String::from("git stash list failed: broken")]);
    assert_eq!(result.dirty_count, 2);
}

#[test]
fn unknown_is_overwritten_by_a_later_unsafe() {
    let mut result = RepoResult::new(String::from("/r"));
    check_uncommitted_changes(&failed("git status --porcelain failed: x"), &mut result, false);
    assert_eq!(result.status, Status::Unknown);
    check_stash(&ok("stash@{0}: WIP\nstash@{1}: WIP\n"), &mut result);
    assert_eq!(result.status, Status::Unsafe);
    assert_eq!(result.stash_count, 2);
}

#[test]
fn failed_status_query_is_recorded_and_later_checks_run() {
    let observed = Observation { status: failed("git status --porcelain failed: nope"), ..pushed() };
    let result = check_repository("/r", &observed, false);
    assert_eq!(result.status, Status::Unknown);
    assert_eq!(
        result.reasons,
        vec![Reason::GitError(String::from("git status --porcelain failed: nope"))]
    );
    assert_eq!(result.errors, vec![String::from("git status --porcelain failed: nope")]);
    assert_eq!(result.dirty_count, 0);
}

#[test]
fn failed_remote_queries_end_the_third_check() {
    let mut result = RepoResult::new(String::from("/r"));
    check_local_only_commits(&failed("first"), &failed("second"), &ok("abc x\n"), &mut result);
    assert_eq!(result.status, Status::Unknown);
    assert_eq!(result.reasons, vec![Reason::GitError(String::from("first"))]);
    assert_eq!(result.local_only_commit_count, 0);

    let mut result = RepoResult::new(String::from("/r"));
    check_local_only_commits(&ok("origin\n"), &failed("second"), &ok("abc x\n"), &mut result);
    assert_eq!(result.status, Status::Unknown);
    assert_eq!(result.reasons, vec![Reason::GitError(String::from("second"))]);
    assert_eq!(result.errors, vec![String::from("second")]);

    let mut result = RepoResult::new(String::from("/r"));
    check_local_only_commits(&ok("origin\n"), &ok("refs/remotes/origin/main\n"), &failed("third"), &mut result);
    assert_eq!(result.status, Status::Unknown);
    assert_eq!(result.reasons, vec![Reason::GitError(String::from("third"))]);
}

#[test]
fn log_is_not_read_without_remote_refs() {
    let mut result = RepoResult::new(String::from("/r"));
    check_local_only_commits(&ok(""), &ok("refs/remotes/origin/main\n"), &ok("abc x\n"), &mut result);
    assert_eq!(result.status, Status::Unknown);
    assert_eq!(result.reasons, vec![Reason::NoRemoteRefs]);
    assert_eq!(result.local_only_commit_count, 0);
}

#[test]
fn classification_is_repeatable() {
    let observed = Observation {
        status: ok(" M a\n?? b\n"),
        stash: failed("git stash list failed: x"),
        ..pushed()
    };
    let first = check_repository("/r", &observed, true);
    let second = check_repository("/r", &observed, true);
    assert!(same(&first, &second));
    assert_eq!(first.dirty_count, 1);
}

#[test]
fn recheck_fails_on_error_and_on_any_output() {
    assert!(!quick_recheck(&failed("git status --porcelain failed: gone")));
    assert!(!quick_recheck(&ok(" M test.txt\n")));
    assert!(!quick_recheck(&ok("\n")));
    assert!(!quick_recheck(&ok(" \n")));
    assert!(!quick_recheck(&ok(" ")));
    assert!(quick_recheck(&ok("")));
}

#[test]
fn recheck_sees_a_change_made_after_a_safe_scan() {
    let scanned = check_repository("/r", &pushed(), false);
    assert_eq!(scanned.status, Status::Safe);
    // the file is modified after the scan
    assert!(!quick_recheck(&ok(" M test.txt\n")));
}

#[test]
fn classifier_asks_only_what_is_needed() {
    let (_, asked) = drive("/r", &pushed(), false);
    assert_eq!(
        asked,
        vec![Query::Status, Query::StashList, Query::Remotes, Query::RemoteRefs, Query::LocalOnlyLog]
    );
    let (_, asked) = drive("/r", &committed_without_remote(), false);
    assert_eq!(asked, vec![Query::Status, Query::StashList, Query::Remotes, Query::RemoteRefs]);
    let no_remote_answer = Observation { remotes: failed("x"), ..pushed() };
    let (_, asked) = drive("/r", &no_remote_answer, false);
    assert_eq!(asked, vec![Query::Status, Query::StashList, Query::Remotes]);
}

#[test]
fn classifier_agrees_with_check_repository() {
    let replies = [ok(""), ok("?? x\n"), ok(" M y\n\n"), ok("origin\n"), failed("boom")];
    let mut compared = 0;
    for status in &replies {
        for stash in &replies {
            for remotes in &replies {
                for remote_refs in &replies {
                    for local_only in &replies {
                        let observed = Observation {
                            status: status.clone(),
                            stash: stash.clone(),
                            remotes: remotes.clone(),
                            remote_refs: remote_refs.clone(),
                            local_only: local_only.clone(),
                        };
                        for ignore_untracked in [false, true] {
                            let direct = check_repository("/r", &observed, ignore_untracked);
                            let (stepped, _) = drive("/r", &observed, ignore_untracked);
                            assert!(same(&direct, &stepped));
                            assert_eq!(
                                direct.reasons.contains(&Reason::AllChecksOk),
                                direct.status == Status::Safe
                            );
                            compared += 1;
                        }
                    }
                }
            }
        }
    }
    assert_eq!(compared, 6250);
}

#[test]
fn feeding_a_finished_classifier_changes_nothing() {
    let (before, _) = drive("/r", &committed_without_remote(), false);
    let mut classifier = Classifier::new("/r", false);
    while let Some(query) = classifier.next_query() {
        classifier.feed(committed_without_remote().reply(query));
    }
    classifier.feed(&ok(" M late\n"));
    assert_eq!(classifier.next_query(), None);
    assert!(same(&classifier.finish(), &before));
}
