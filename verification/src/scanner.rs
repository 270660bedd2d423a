//! Discovery of repositories in a directory listing, and the scan of all
//! that were found.
//!
//! The caller lists the directory; this module decides which entries are
//! repositories and in which order they and their results are reported.

use crate::checker::{check_repository, classify, Observation};
use crate::order::{
    insert_by_path, lemma_sorted_stays, ordered, path_le, paths_ordered, sort_by_path,
    sorted_by_path, HasPath,
};
use crate::types::RepoResult;
use vstd::prelude::*;

verus! {

/// What lies at the place of the repository metadata, `.git`, in a
/// directory.
#[derive(Debug, Clone, Copy, PartialEq, Eq, Structural)]
pub enum GitEntry {
    /// Nothing.
    Missing,
    /// A file, as in a linked working tree or a submodule.
    File,
    /// A directory, as in an ordinary repository.
    Directory,
}

/// One entry of a directory listing, or the listed directory itself.
#[derive(Debug, Clone)]
pub struct Entry {
    /// The path of the entry.
    pub path: String,
    /// Whether the entry is a directory.
    pub is_dir: bool,
    /// What lies at `.git` inside it.
    pub git_entry: GitEntry,
}

/// The mathematical value of an `Entry`.
pub struct EntryView {
    pub path: Seq<char>,
    pub is_dir: bool,
    pub git_entry: GitEntry,
}

impl View for Entry {
    type V = EntryView;

    open spec fn view(&self) -> EntryView {
        EntryView { path: self.path@, is_dir: self.is_dir, git_entry: self.git_entry }
    }
}

impl DeepView for Entry {
    type V = EntryView;

    open spec fn deep_view(&self) -> EntryView {
        self@
    }
}

/// Whether `entry` holds repository metadata that is a directory.
pub open spec fn git_repository(entry: EntryView) -> bool {
    entry.git_entry == GitEntry::Directory
}

/// Whether a listed `child` is a repository: a directory whose metadata is
/// a directory.
pub open spec fn qualifies(child: EntryView) -> bool {
    child.is_dir && git_repository(child)
}

/// The paths of the repositories in a listing, in the order of the
/// listing: the listed directory itself, if that is asked for and it is a
/// repository, and then every child that is one.
pub open spec fn discovered(
    base: EntryView,
    children: Seq<EntryView>,
    include_dot: bool,
) -> Seq<Seq<char>> {
    (if include_dot && git_repository(base) {
        seq![base.path]
    } else {
        Seq::empty()
    }) + children.filter(|child: EntryView| qualifies(child)).map_values(
        |child: EntryView| child.path,
    )
}

/// Decides whether the directory `entry` is a Git repository. Only a
/// `.git` that is a directory counts.
pub fn is_git_repository(entry: &Entry) -> (answer: bool)
    ensures
        answer == git_repository(entry@),
{
    match entry.git_entry {
        GitEntry::Directory => true,
        _ => false,
    }
}

/// Decides whether the listed `child` is a repository: a directory whose
/// `.git` is a directory.
pub fn is_repository_child(child: &Entry) -> (answer: bool)
    ensures
        answer == qualifies(child@),
{
    child.is_dir && is_git_repository(child)
}

/// Finds the repositories in the listing of a directory: `base` is the
/// directory itself, `children` are its entries. The result holds `base`
/// only with `include_dot`. It holds the paths discovered, each as often as
/// it was listed, sorted; so the order of the listing does not show in it.
/// A directory that could not be read is one without children.
pub fn find_repositories(
    base: &Entry,
    children: &Vec<Entry>,
    include_dot: bool,
) -> (repos: Vec<String>)
    ensures
        paths_ordered(repos.deep_view()),
        repos.deep_view().to_multiset() == discovered(
            base@,
            children.deep_view(),
            include_dot,
        ).to_multiset(),
        forall|path: Seq<char>|
            repos.deep_view().contains(path) <==> discovered(
                base@,
                children.deep_view(),
                include_dot,
            ).contains(path),
{
    let ghost listed = children.deep_view();
    let mut repos: Vec<String> = Vec::new();
    if include_dot && is_git_repository(base) {
        repos.push(base.path.clone());
    }
    proof {
        assert(listed.take(0) =~= Seq::<EntryView>::empty());
        assert(listed.take(0).filter(|child: EntryView| qualifies(child)) =~= Seq::<
            EntryView,
        >::empty()) by {
            reveal(Seq::filter);
        }
        assert(repos.deep_view() =~= discovered(base@, listed.take(0), include_dot));
    }
    let mut i: usize = 0;
    while i < children.len()
        invariant
            listed == children.deep_view(),
            i <= children@.len(),
            ordered(repos@),
            repos.deep_view().to_multiset() == discovered(
                base@,
                listed.take(i as int),
                include_dot,
            ).to_multiset(),
        decreases children@.len() - i,
    {
        let ghost before = repos.deep_view();
        let ghost known = discovered(base@, listed.take(i as int), include_dot);
        let child = &children[i];
        proof {
            lemma_discovered_step(base@, listed.take(i + 1), include_dot);
            assert(listed.take(i + 1).drop_last() =~= listed.take(i as int));
            assert(listed.take(i + 1).last() == child@);
        }
        if is_repository_child(child) {
            let place = insert_by_path(&mut repos, child.path.clone());
            proof {
                assert(repos.deep_view() =~= before.insert(place as int, child.path@));
                vstd::seq_lib::to_multiset_insert(before, place as int, child.path@);
                vstd::seq_lib::to_multiset_build(known, child.path@);
            }
        }
        i += 1;
    }
    proof {
        assert(listed.take(children@.len() as int) =~= listed);
        let all = discovered(base@, listed, include_dot);
        assert forall|i: int, j: int| 0 <= i < j < repos.deep_view().len() implies path_le(
            #[trigger] repos.deep_view()[i],
            #[trigger] repos.deep_view()[j],
        ) by {
            assert(repos.deep_view()[i] == repos@[i].path_view());
            assert(repos.deep_view()[j] == repos@[j].path_view());
        }
        assert forall|path: Seq<char>| repos.deep_view().contains(path) <==> all.contains(
            path,
        ) by {
            vstd::seq_lib::to_multiset_contains(repos.deep_view(), path);
            vstd::seq_lib::to_multiset_contains(all, path);
        }
    }
    repos
}

/// Whether `classified` holds, in the order of `found`, the classification
/// of each repository by what was observed of it.
pub open spec fn classified_as(
    found: Seq<(String, Observation)>,
    ignore_untracked: bool,
    classified: Seq<RepoResult>,
) -> bool {
    &&& classified.len() == found.len()
    &&& forall|i: int|
        0 <= i < found.len() ==> (#[trigger] classified[i])@ == classify(
            found[i].0@,
            found[i].1@,
            ignore_untracked,
        )
}

/// Scans the repositories at the paths given: classifies each by what was
/// observed of it and returns the results sorted by path. The order in
/// which the repositories are given does not show in the result.
pub fn scan_repositories(
    found: &Vec<(String, Observation)>,
    ignore_untracked: bool,
) -> (results: Vec<RepoResult>)
    ensures
        results@.len() == found@.len(),
        ordered(results@),
        exists|classified: Seq<RepoResult>|
            classified_as(found@, ignore_untracked, classified) && sorted_by_path(
                classified,
                results@,
            ),
{
    let mut classified: Vec<RepoResult> = Vec::new();
    let mut i: usize = 0;
    while i < found.len()
        invariant
            i <= found@.len(),
            classified@.len() == i,
            forall|k: int|
                0 <= k < i ==> (#[trigger] classified@[k])@ == classify(
                    found@[k].0@,
                    found@[k].1@,
                    ignore_untracked,
                ),
        decreases found@.len() - i,
    {
        let result = check_repository(found[i].0.as_str(), &found[i].1, ignore_untracked);
        classified.push(result);
        i += 1;
    }
    let ghost unsorted = classified@;
    let results = sort_by_path(classified);
    assert(classified_as(found@, ignore_untracked, unsorted) && sorted_by_path(
        unsorted,
        results@,
    ));
    results
}

/// A scan of repositories that are given in the order of their paths
/// returns the results in the order given: the result in each place is the
/// classification of the repository in that place.
pub proof fn lemma_scan_keeps_sorted_order(
    found: Seq<(String, Observation)>,
    ignore_untracked: bool,
    classified: Seq<RepoResult>,
    results: Seq<RepoResult>,
)
    requires
        forall|i: int, j: int|
            0 <= i < j < found.len() ==> path_le((#[trigger] found[i]).0@, (#[trigger] found[j]).0@),
        classified_as(found, ignore_untracked, classified),
        sorted_by_path(classified, results),
    ensures
        results == classified,
        forall|i: int|
            0 <= i < found.len() ==> (#[trigger] results[i])@ == classify(
                found[i].0@,
                found[i].1@,
                ignore_untracked,
            ),
{
    assert forall|i: int, j: int| 0 <= i < j < classified.len() implies path_le(
        (#[trigger] classified[i]).path_view(),
        (#[trigger] classified[j]).path_view(),
    ) by {
        assert(classified[i]@.path == found[i].0@);
        assert(classified[j]@.path == found[j].0@);
        assert(path_le(found[i].0@, found[j].0@));
    }
    lemma_sorted_stays(classified, results);
}

/// A listing that names no path twice gives no repository twice: neither
/// the paths discovered nor any sequence that holds just these hold a
/// path twice.
pub proof fn lemma_discovered_once(
    base: EntryView,
    children: Seq<EntryView>,
    include_dot: bool,
    found: Seq<Seq<char>>,
)
    requires
        forall|i: int, j: int|
            0 <= i < j < children.len() ==> (#[trigger] children[i]).path != (
            #[trigger] children[j]).path,
        forall|i: int| 0 <= i < children.len() ==> (#[trigger] children[i]).path != base.path,
        found.to_multiset() == discovered(base, children, include_dot).to_multiset(),
    ensures
        discovered(base, children, include_dot).no_duplicates(),
        found.no_duplicates(),
{
    lemma_discovered_no_duplicates(base, children, include_dot);
    discovered(base, children, include_dot).lemma_multiset_has_no_duplicates();
    found.lemma_multiset_has_no_duplicates_conv();
}

/// The paths discovered in a listing that names no path twice are all
/// different.
proof fn lemma_discovered_no_duplicates(
    base: EntryView,
    children: Seq<EntryView>,
    include_dot: bool,
)
    requires
        forall|i: int, j: int|
            0 <= i < j < children.len() ==> (#[trigger] children[i]).path != (
            #[trigger] children[j]).path,
        forall|i: int| 0 <= i < children.len() ==> (#[trigger] children[i]).path != base.path,
    ensures
        discovered(base, children, include_dot).no_duplicates(),
    decreases children.len(),
{
    let all = discovered(base, children, include_dot);
    if children.len() == 0 {
        reveal(Seq::filter);
        let keep = |child: EntryView| qualifies(child);
        assert(children.filter(keep) =~= Seq::<EntryView>::empty());
        assert(all.len() <= 1);
    } else {
        let front = children.drop_last();
        let last = children.last();
        let shorter = discovered(base, front, include_dot);
        assert forall|i: int, j: int| 0 <= i < j < front.len() implies (#[trigger] front[i]).path
            != (#[trigger] front[j]).path by {
            assert(front[i] == children[i] && front[j] == children[j]);
        }
        assert forall|i: int| 0 <= i < front.len() implies (#[trigger] front[i]).path
            != base.path by {
            assert(front[i] == children[i]);
        }
        lemma_discovered_no_duplicates(base, front, include_dot);
        lemma_discovered_step(base, children, include_dot);
        if qualifies(last) {
            lemma_discovered_exactly_repositories(base, front, include_dot, last.path);
            assert(children[children.len() - 1] == last);
            if shorter.contains(last.path) {
                if !(include_dot && base.git_entry == GitEntry::Directory && base.path
                    == last.path) {
                    let i = choose|i: int|
                        0 <= i < front.len() && (#[trigger] front[i]).is_dir && front[i].git_entry
                            == GitEntry::Directory && front[i].path == last.path;
                    assert(front[i] == children[i]);
                }
                assert(false);
            }
            assert forall|i: int, j: int|
                0 <= i < all.len() && 0 <= j < all.len() && i != j implies all[i] != all[j] by {
                if i < shorter.len() && j < shorter.len() {
                    assert(all[i] == shorter[i] && all[j] == shorter[j]);
                } else if i < shorter.len() {
                    assert(all[i] == shorter[i]);
                    assert(shorter.contains(all[i]));
                } else {
                    assert(all[j] == shorter[j]);
                    assert(shorter.contains(all[j]));
                }
            }
        }
    }
}

/// What one more child adds to the repositories of a listing: its path, if
/// it is a repository, and nothing else.
pub proof fn lemma_discovered_step(base: EntryView, children: Seq<EntryView>, include_dot: bool)
    requires
        children.len() > 0,
    ensures
        discovered(base, children, include_dot) == (if qualifies(children.last()) {
            discovered(base, children.drop_last(), include_dot).push(children.last().path)
        } else {
            discovered(base, children.drop_last(), include_dot)
        }),
{
    reveal(Seq::filter);
    let keep = |child: EntryView| qualifies(child);
    let path_of = |child: EntryView| child.path;
    let shorter = children.drop_last().filter(keep);
    if qualifies(children.last()) {
        assert(children.filter(keep) == shorter.push(children.last()));
        assert(shorter.push(children.last()).map_values(path_of) =~= shorter.map_values(
            path_of,
        ).push(children.last().path));
        assert(discovered(base, children, include_dot) =~= discovered(
            base,
            children.drop_last(),
            include_dot,
        ).push(children.last().path));
    } else {
        assert(children.filter(keep) == shorter);
    }
}

/// Discovery returns repositories only, and all of them: a path is among
/// those discovered exactly if it is the path of the listed directory,
/// asked for and with metadata that is a directory, or the path of a
/// child that is a directory with metadata that is a directory. A child
/// whose metadata is a file is left out.
pub proof fn lemma_discovered_exactly_repositories(
    base: EntryView,
    children: Seq<EntryView>,
    include_dot: bool,
    path: Seq<char>,
)
    ensures
        discovered(base, children, include_dot).contains(path) <==> ((include_dot
            && base.git_entry == GitEntry::Directory && base.path == path) || exists|i: int|
            0 <= i < children.len() && (#[trigger] children[i]).is_dir && children[i].git_entry
                == GitEntry::Directory && children[i].path == path),
    decreases children.len(),
{
    let all = discovered(base, children, include_dot);
    if children.len() == 0 {
        reveal(Seq::filter);
        let keep = |child: EntryView| qualifies(child);
        assert(children.filter(keep) =~= Seq::<EntryView>::empty());
        if include_dot && git_repository(base) {
            assert(all =~= seq![base.path]);
            assert(all[0] == base.path);
        } else {
            assert(all =~= Seq::<Seq<char>>::empty());
        }
    } else {
        let shorter = discovered(base, children.drop_last(), include_dot);
        lemma_discovered_step(base, children, include_dot);
        lemma_discovered_exactly_repositories(base, children.drop_last(), include_dot, path);
        let last = children.last();
        if shorter.contains(path) {
            let k = choose|k: int| 0 <= k < shorter.len() && shorter[k] == path;
            assert(all[k] == path);
            if !(include_dot && base.git_entry == GitEntry::Directory && base.path == path) {
                let i = choose|i: int|
                    0 <= i < children.drop_last().len() && (#[trigger] children.drop_last()[i]).is_dir
                        && children.drop_last()[i].git_entry == GitEntry::Directory
                        && children.drop_last()[i].path == path;
                assert(children[i] == children.drop_last()[i]);
            }
        } else if qualifies(last) && last.path == path {
            assert(all[all.len() - 1] == path);
            assert(children[children.len() - 1] == last);
        } else {
            if all.contains(path) {
                let k = choose|k: int| 0 <= k < all.len() && all[k] == path;
                if k < shorter.len() {
                    assert(shorter[k] == path);
                }
            }
            if exists|i: int|
                0 <= i < children.len() && (#[trigger] children[i]).is_dir && children[i].git_entry
                    == GitEntry::Directory && children[i].path == path {
                let i = choose|i: int|
                    0 <= i < children.len() && (#[trigger] children[i]).is_dir
                        && children[i].git_entry == GitEntry::Directory && children[i].path == path;
                assert(i < children.len() - 1);
                assert(children.drop_last()[i] == children[i]);
            }
        }
    }
}

} // verus!
