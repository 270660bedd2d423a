use repo_check::checker::Observation;
use repo_check::gateway::Reply;
use repo_check::order::{insert_by_path, is_path_le, sort_by_path};
use repo_check::scanner::{
    find_repositories, is_git_repository, is_repository_child, scan_repositories, Entry, GitEntry,
};
use repo_check::types::{RepoResult, Status};

fn entry(path: &str, is_dir: bool, git_entry: GitEntry) -> Entry {
    Entry { path: String::from(path), is_dir, git_entry }
}

fn ok(text: &str) -> Reply {
    Ok(String::from(text))
}

fn pushed() -> Observation {
    Observation {
        status: ok(""),
        stash: ok(""),
        remotes: ok("origin\n"),
        remote_refs: ok("refs/remotes/origin/master\n"),
        local_only: ok(""),
    }
}

#[test]
fn test_is_git_repository() {
    // Initially not a Git repository
    assert!(!is_git_repository(&entry("/tmp/dir", true, GitEntry::Missing)));

    // After git init, it becomes a Git repository
    assert!(is_git_repository(&entry("/tmp/dir", true, GitEntry::Directory)));
}

#[test]
fn test_find_repositories() {
    let base = entry("/tmp/base", true, GitEntry::Missing);
    let children = vec![
        entry("/tmp/base/repo_b", true, GitEntry::Directory),
        entry("/tmp/base/not_repo", true, GitEntry::Missing),
        entry("/tmp/base/repo_a", true, GitEntry::Directory),
    ];

    let repos = find_repositories(&base, &children, false);
    assert_eq!(repos.len(), 2);
    assert!(repos[0].ends_with("repo_a"));
    assert!(repos[1].ends_with("repo_b"));
}

#[test]
fn metadata_that_is_a_file_does_not_make_a_repository() {
    assert!(!is_git_repository(&entry("/tmp/dir", true, GitEntry::File)));
    let base = entry("/b", true, GitEntry::File);
    let children = vec![
        entry("/b/linked", true, GitEntry::File),
        entry("/b/plain", true, GitEntry::Directory),
        entry("/b/file", false, GitEntry::Directory),
        entry("/b/empty", true, GitEntry::Missing),
    ];
    assert_eq!(find_repositories(&base, &children, true), vec![String::from("/b/plain")]);
}

#[test]
fn base_is_found_only_when_asked_for() {
    let base = entry("/b", true, GitEntry::Directory);
    let children = vec![entry("/b/x", true, GitEntry::Directory)];
    assert_eq!(find_repositories(&base, &children, false), vec![String::from("/b/x")]);
    assert_eq!(
        find_repositories(&base, &children, true),
        vec![String::from("/b"), String::from("/b/x")]
    );
    assert_eq!(find_repositories(&base, &vec![], true), vec![String::from("/b")]);
    assert_eq!(find_repositories(&base, &vec![], false), Vec::<String>::new());
}

#[test]
fn found_repositories_are_sorted_like_the_standard_library_sorts() {
    let names = ["b-repo", "a-repo", "c-repo", "a", "a.b", "Z", "ä", "a-repo2", ""];
    let base = entry("/base", true, GitEntry::Missing);
    let children: Vec<Entry> =
        names.iter().map(|name| entry(&format!("/base/{}", name), true, GitEntry::Directory)).collect();
    let mut expected: Vec<String> = names.iter().map(|name| format!("/base/{}", name)).collect();
    expected.sort();
    assert_eq!(find_repositories(&base, &children, false), expected);
}

#[test]
fn path_order_is_that_of_strings() {
    let samples = ["", "a", "a/b", "a-b", "b", "ab", "A", "ä", "a\u{10000}", "a\u{ffff}"];
    for a in samples {
        for b in samples {
            assert_eq!(is_path_le(a, b), a <= b, "{:?} {:?}", a, b);
        }
    }
}

#[test]
fn insert_by_path_goes_before_equal_paths() {
    let mut sorted = vec![String::from("a"), String::from("c"), String::from("c")];
    assert_eq!(insert_by_path(&mut sorted, String::from("c")), 1);
    assert_eq!(insert_by_path(&mut sorted, String::from("d")), 4);
    assert_eq!(insert_by_path(&mut sorted, String::from("")), 0);
    assert_eq!(sorted, vec!["", "a", "c", "c", "c", "d"]);
}

#[test]
fn sort_by_path_is_stable() {
    let mut first = RepoResult::new(String::from("/same"));
    first.dirty_count = 1;
    let mut second = RepoResult::new(String::from("/same"));
    second.dirty_count = 2;
    let other = RepoResult::new(String::from("/other"));
    let sorted = sort_by_path(vec![first, second, other]);
    let seen: Vec<(&str, usize)> =
        sorted.iter().map(|result| (result.path.as_str(), result.dirty_count)).collect();
    assert_eq!(seen, vec![("/other", 0), ("/same", 1), ("/same", 2)]);
}

#[test]
fn scan_reports_in_the_order_of_paths() {
    let found = vec![
        (String::from("/base/b-repo"), pushed()),
        (String::from("/base/a-repo"), Observation { status: ok(" M x\n"), ..pushed() }),
        (String::from("/base/c-repo"), Observation { remotes: ok(""), ..pushed() }),
    ];
    let results = scan_repositories(&found, false);
    let seen: Vec<(&str, Status)> =
        results.iter().map(|result| (result.path.as_str(), result.status)).collect();
    assert_eq!(
        seen,
        vec![
            ("/base/a-repo", Status::Unsafe),
            ("/base/b-repo", Status::Safe),
            ("/base/c-repo", Status::Unknown),
        ]
    );
}

#[test]
fn scan_does_not_depend_on_the_order_given() {
    let names = ["b-repo", "a-repo", "c-repo"];
    let orders = [[0, 1, 2], [0, 2, 1], [1, 0, 2], [1, 2, 0], [2, 0, 1], [2, 1, 0]];
    for order in orders {
        let found: Vec<(String, Observation)> =
            order.iter().map(|i| (String::from(names[*i]), pushed())).collect();
        let results = scan_repositories(&found, true);
        let paths: Vec<&str> = results.iter().map(|result| result.path.as_str()).collect();
        assert_eq!(paths, vec!["a-repo", "b-repo", "c-repo"]);
    }
}

#[test]
fn scan_of_nothing_is_empty() {
    assert!(scan_repositories(&vec![], false).is_empty());
}

#[test]
fn child_is_a_repository_only_as_a_directory_with_a_git_directory() {
    assert!(is_repository_child(&entry("/b/x", true, GitEntry::Directory)));
    assert!(!is_repository_child(&entry("/b/x", false, GitEntry::Directory)));
    assert!(!is_repository_child(&entry("/b/x", true, GitEntry::File)));
    assert!(!is_repository_child(&entry("/b/x", true, GitEntry::Missing)));
}

#[test]
fn path_listed_twice_is_found_twice() {
    let base = entry("/b", true, GitEntry::Missing);
    let children = vec![
        entry("/b/x", true, GitEntry::Directory),
        entry("/b/x", true, GitEntry::Directory),
    ];
    assert_eq!(
        find_repositories(&base, &children, false),
        vec![String::from("/b/x"), String::from("/b/x")]
    );
}

#[test]
fn scan_of_sorted_repositories_keeps_their_order() {
    let found = vec![
        (String::from("/a"), Observation { status: ok(" M x\n"), ..pushed() }),
        (String::from("/b"), pushed()),
    ];
    let results = scan_repositories(&found, false);
    assert_eq!(results[0].path, "/a");
    assert_eq!(results[0].status, Status::Unsafe);
    assert_eq!(results[1].path, "/b");
    assert_eq!(results[1].status, Status::Safe);
}
