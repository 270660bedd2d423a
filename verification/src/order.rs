//! The order of paths, and sorting by it.
//!
//! Paths are ordered as texts, character by character; a path that is the
//! beginning of another comes first. Sorting is stable: items with the
//! same path keep their order.

use crate::seqs::{lemma_filter_none, lemma_filter_one};
use crate::text::chars_of;
use crate::types::RepoResult;
use vstd::prelude::*;

verus! {

/// Whether path `a` equals path `b` or comes before it.
pub open spec fn path_le(a: Seq<char>, b: Seq<char>) -> bool
    decreases a.len(),
{
    if a.len() == 0 {
        true
    } else if b.len() == 0 {
        false
    } else if a[0] == b[0] {
        path_le(a.skip(1), b.skip(1))
    } else {
        (a[0] as int) < (b[0] as int)
    }
}

/// Every path is at most itself.
pub proof fn lemma_path_le_reflexive(a: Seq<char>)
    ensures
        path_le(a, a),
    decreases a.len(),
{
    if a.len() > 0 {
        lemma_path_le_reflexive(a.skip(1));
    }
}

/// Of two paths, one is at most the other.
pub proof fn lemma_path_le_total(a: Seq<char>, b: Seq<char>)
    ensures
        path_le(a, b) || path_le(b, a),
    decreases a.len(),
{
    if a.len() > 0 && b.len() > 0 {
        if a[0] == b[0] {
            lemma_path_le_total(a.skip(1), b.skip(1));
        } else {
            assert(a[0] as int != b[0] as int);
        }
    }
}

/// Two paths that are at most each other are the same path.
pub proof fn lemma_path_le_antisymmetric(a: Seq<char>, b: Seq<char>)
    requires
        path_le(a, b),
        path_le(b, a),
    ensures
        a == b,
    decreases a.len(),
{
    if a.len() == 0 || b.len() == 0 {
        assert(a =~= b);
    } else {
        lemma_path_le_antisymmetric(a.skip(1), b.skip(1));
        assert(a =~= seq![a[0]] + a.skip(1));
        assert(b =~= seq![b[0]] + b.skip(1));
    }
}

/// The order of paths is transitive.
pub proof fn lemma_path_le_transitive(a: Seq<char>, b: Seq<char>, c: Seq<char>)
    requires
        path_le(a, b),
        path_le(b, c),
    ensures
        path_le(a, c),
    decreases a.len(),
{
    if a.len() > 0 && b.len() > 0 && c.len() > 0 && a[0] == b[0] && b[0] == c[0] {
        lemma_path_le_transitive(a.skip(1), b.skip(1), c.skip(1));
    }
}

/// Decides whether `a` equals `b` or comes before it.
pub fn is_path_le(a: &str, b: &str) -> (answer: bool)
    ensures
        answer == path_le(a@, b@),
{
    let left = chars_of(a);
    let right = chars_of(b);
    let mut i: usize = 0;
    assert(left@.skip(0) =~= left@);
    assert(right@.skip(0) =~= right@);
    while i < left.len() && i < right.len()
        invariant
            left@ == a@,
            right@ == b@,
            i <= left@.len(),
            i <= right@.len(),
            path_le(left@, right@) == path_le(left@.skip(i as int), right@.skip(i as int)),
        decreases left@.len() - i,
    {
        if left[i] != right[i] {
            assert(left@.skip(i as int)[0] == left@[i as int]);
            assert(right@.skip(i as int)[0] == right@[i as int]);
            return left[i] < right[i];
        }
        assert(left@.skip(i as int).skip(1) =~= left@.skip(i + 1));
        assert(right@.skip(i as int).skip(1) =~= right@.skip(i + 1));
        i += 1;
    }
    i == left.len()
}

/// Something that lies at a path.
pub trait HasPath {
    /// The path, as a text.
    spec fn path_view(&self) -> Seq<char>;

    /// The path.
    fn path_text(&self) -> (text: &str)
        ensures
            text@ == self.path_view(),
    ;
}

impl HasPath for String {
    open spec fn path_view(&self) -> Seq<char> {
        self@
    }

    fn path_text(&self) -> (text: &str) {
        self.as_str()
    }
}

impl HasPath for RepoResult {
    open spec fn path_view(&self) -> Seq<char> {
        self.path@
    }

    fn path_text(&self) -> (text: &str) {
        self.path.as_str()
    }
}

/// Whether the paths of `items` never go down.
pub open spec fn ordered<T: HasPath>(items: Seq<T>) -> bool {
    forall|i: int, j: int|
        0 <= i < j < items.len() ==> path_le(
            (#[trigger] items[i]).path_view(),
            (#[trigger] items[j]).path_view(),
        )
}

/// Whether `paths` never go down.
pub open spec fn paths_ordered(paths: Seq<Seq<char>>) -> bool {
    forall|i: int, j: int| 0 <= i < j < paths.len() ==> path_le(#[trigger] paths[i], #[trigger] paths[j])
}

/// Whether no two of `items` lie at the same path.
pub open spec fn distinct_paths<T: HasPath>(items: Seq<T>) -> bool {
    forall|i: int, j: int|
        0 <= i < j < items.len() ==> (#[trigger] items[i]).path_view() != (
        #[trigger] items[j]).path_view()
}

/// The test whether an item lies at `path`.
pub open spec fn at_path<T: HasPath>(path: Seq<char>) -> spec_fn(T) -> bool {
    |item: T| item.path_view() == path
}

/// Whether `sorted` holds the items of `items` in the order of their
/// paths, those with the same path in the order they had.
pub open spec fn sorted_by_path<T: HasPath>(items: Seq<T>, sorted: Seq<T>) -> bool {
    &&& ordered(sorted)
    &&& sorted.to_multiset() == items.to_multiset()
    &&& forall|path: Seq<char>| #[trigger]
        sorted.filter(at_path(path)) == items.filter(at_path(path))
}

/// What inserting an item does to the items at each path, where all items
/// before the place of insertion lie at other paths than the new one.
proof fn lemma_insert_filter<T: HasPath>(items: Seq<T>, place: int, item: T, path: Seq<char>)
    requires
        0 <= place <= items.len(),
        forall|i: int| 0 <= i < place ==> (#[trigger] items[i]).path_view() != item.path_view(),
    ensures
        items.insert(place, item).filter(at_path(path)) == seq![item].filter(at_path(path))
            + items.filter(at_path(path)),
{
    let keep = at_path::<T>(path);
    let front = items.take(place);
    let back = items.skip(place);
    let one = seq![item];
    assert(items.insert(place, item) =~= (front + one) + back);
    assert(items =~= front + back);
    Seq::filter_distributes_over_add(front + one, back, keep);
    Seq::filter_distributes_over_add(front, one, keep);
    Seq::filter_distributes_over_add(front, back, keep);
    lemma_filter_one(item, keep);
    if keep(item) {
        assert forall|i: int| 0 <= i < front.len() implies !keep(#[trigger] front[i]) by {
            assert(front[i] == items[i]);
        }
        lemma_filter_none(front, keep);
        assert(front.filter(keep) + one.filter(keep) =~= one.filter(keep) + front.filter(keep));
    } else {
        assert(front.filter(keep) + one.filter(keep) =~= one.filter(keep) + front.filter(keep));
    }
    assert((front.filter(keep) + one.filter(keep)) + back.filter(keep) =~= one.filter(keep) + (
    front.filter(keep) + back.filter(keep)));
}

/// Puts `item` into `sorted` at its place in the order of paths, before
/// any item that lies at the same path, and returns the place.
pub fn insert_by_path<T: HasPath>(sorted: &mut Vec<T>, item: T) -> (place: usize)
    requires
        ordered(old(sorted)@),
    ensures
        place <= old(sorted)@.len(),
        final(sorted)@ == old(sorted)@.insert(place as int, item),
        ordered(final(sorted)@),
        forall|i: int|
            0 <= i < place ==> !path_le(item.path_view(), (#[trigger] old(sorted)@[i]).path_view()),
        forall|i: int|
            place <= i < old(sorted)@.len() ==> path_le(
                item.path_view(),
                (#[trigger] old(sorted)@[i]).path_view(),
            ),
{
    let ghost before = sorted@;
    let mut place: usize = 0;
    while place < sorted.len() && !is_path_le(item.path_text(), sorted[place].path_text())
        invariant
            sorted@ == before,
            place <= sorted@.len(),
            forall|i: int|
                0 <= i < place ==> !path_le(item.path_view(), (#[trigger] sorted@[i]).path_view()),
        decreases sorted@.len() - place,
    {
        place += 1;
    }
    proof {
        assert forall|i: int| place <= i < before.len() implies path_le(
            item.path_view(),
            (#[trigger] before[i]).path_view(),
        ) by {
            if i > place {
                assert(path_le(before[place as int].path_view(), before[i].path_view()));
                lemma_path_le_transitive(
                    item.path_view(),
                    before[place as int].path_view(),
                    before[i].path_view(),
                );
            }
        }
    }
    sorted.insert(place, item);
    proof {
        let after = sorted@;
        assert forall|i: int, j: int| 0 <= i < j < after.len() implies path_le(
            (#[trigger] after[i]).path_view(),
            (#[trigger] after[j]).path_view(),
        ) by {
            if j < place {
                assert(after[i] == before[i] && after[j] == before[j]);
            } else if j == place {
                assert(after[i] == before[i]);
                lemma_path_le_total(item.path_view(), before[i].path_view());
            } else if i < place {
                assert(after[i] == before[i] && after[j] == before[j - 1]);
            } else if i == place {
                assert(after[j] == before[j - 1]);
            } else {
                assert(after[i] == before[i - 1] && after[j] == before[j - 1]);
            }
        }
    }
    place
}

/// Sorts `items` by path. The sort is stable.
pub fn sort_by_path<T: HasPath>(items: Vec<T>) -> (sorted: Vec<T>)
    ensures
        sorted_by_path(items@, sorted@),
        sorted@.len() == items@.len(),
{
    let ghost all = items@;
    let mut rest = items;
    let mut sorted: Vec<T> = Vec::new();
    proof {
        assert(all.skip(all.len() as int) =~= Seq::<T>::empty());
        assert(all.take(all.len() as int) =~= all);
    }
    while rest.len() > 0
        invariant
            rest@ == all.take(rest@.len() as int),
            rest@.len() <= all.len(),
            sorted@.len() + rest@.len() == all.len(),
            ordered(sorted@),
            sorted@.to_multiset() == all.skip(rest@.len() as int).to_multiset(),
            forall|path: Seq<char>| #[trigger]
                sorted@.filter(at_path(path)) == all.skip(rest@.len() as int).filter(
                    at_path(path),
                ),
        decreases rest@.len(),
    {
        let ghost n = rest@.len() as int;
        let ghost before = sorted@;
        let item = rest.pop().unwrap();
        assert(item == all[n - 1]);
        assert(rest@ =~= all.take(n - 1));
        let place = insert_by_path(&mut sorted, item);
        proof {
            let after = sorted@;
            assert forall|i: int| 0 <= i < place implies (#[trigger] before[i]).path_view()
                != item.path_view() by {
                lemma_path_le_reflexive(item.path_view());
            }
            let tail = all.skip(n);
            let longer = all.skip(n - 1);
            assert(longer =~= seq![item] + tail);
            assert(longer =~= tail.insert(0, item));
            vstd::seq_lib::to_multiset_insert(before, place as int, item);
            vstd::seq_lib::to_multiset_insert(tail, 0, item);
            assert forall|path: Seq<char>| #[trigger]
                after.filter(at_path(path)) == longer.filter(at_path(path)) by {
                lemma_insert_filter(before, place as int, item, path);
                Seq::filter_distributes_over_add(seq![item], tail, at_path(path));
                assert(before.filter(at_path(path)) == tail.filter(at_path(path)));
            }
        }
    }
    proof {
        assert(all.skip(0) =~= all);
    }
    sorted
}

/// The items at a path end with the last item of all, if that lies at the
/// path, and are those among the items before it otherwise.
proof fn lemma_at_path_last<T: HasPath>(items: Seq<T>, path: Seq<char>)
    requires
        items.len() > 0,
    ensures
        items.filter(at_path(path)) == (if items.last().path_view() == path {
            items.drop_last().filter(at_path(path)).push(items.last())
        } else {
            items.drop_last().filter(at_path(path))
        }),
{
    reveal(Seq::filter);
}

/// The order of paths and, at each path, the order of arrival pin a
/// sequence down: two ordered sequences that hold at every path the same
/// items in the same order are equal.
pub proof fn lemma_stable_order_unique<T: HasPath>(a: Seq<T>, b: Seq<T>)
    requires
        a.len() == b.len(),
        ordered(a),
        ordered(b),
        forall|path: Seq<char>| #[trigger] a.filter(at_path(path)) == b.filter(at_path(path)),
    ensures
        a == b,
    decreases a.len(),
{
    if a.len() == 0 {
        assert(a =~= b);
    } else {
        let x = a.last();
        let y = b.last();
        let p = x.path_view();
        let q = y.path_view();
        lemma_at_path_last(a, p);
        lemma_at_path_last(b, p);
        lemma_at_path_last(a, q);
        lemma_at_path_last(b, q);
        let at_p = a.filter(at_path(p));
        let at_q = b.filter(at_path(q));
        assert(at_p.last() == x);
        assert(at_q.last() == y);
        assert(b.filter(at_path(p)) == at_p);
        assert(a.filter(at_path(q)) == at_q);
        // `x` stands in `b`, and `y` stands in `a`
        assert(b.filter(at_path(p)).contains(x)) by {
            assert(at_p[at_p.len() - 1] == x);
        }
        assert(a.filter(at_path(q)).contains(y)) by {
            assert(at_q[at_q.len() - 1] == y);
        }
        b.lemma_filter_contains_rev(at_path(p), x);
        a.lemma_filter_contains_rev(at_path(q), y);
        let n = choose|n: int| 0 <= n < b.len() && b[n] == x;
        let m = choose|m: int| 0 <= m < a.len() && a[m] == y;
        lemma_path_le_reflexive(p);
        lemma_path_le_reflexive(q);
        assert(path_le(p, q)) by {
            if n < b.len() - 1 {
                assert(path_le(b[n].path_view(), b[b.len() - 1].path_view()));
            }
        }
        assert(path_le(q, p)) by {
            if m < a.len() - 1 {
                assert(path_le(a[m].path_view(), a[a.len() - 1].path_view()));
            }
        }
        lemma_path_le_antisymmetric(p, q);
        assert(x == y);
        let shorter_a = a.drop_last();
        let shorter_b = b.drop_last();
        assert forall|path: Seq<char>| #[trigger]
            shorter_a.filter(at_path(path)) == shorter_b.filter(at_path(path)) by {
            lemma_at_path_last(a, path);
            lemma_at_path_last(b, path);
            assert(a.filter(at_path(path)) == b.filter(at_path(path)));
            if p == path {
                let fa = shorter_a.filter(at_path(path));
                let fb = shorter_b.filter(at_path(path));
                assert(fa.push(x).drop_last() =~= fa);
                assert(fb.push(y).drop_last() =~= fb);
            }
        }
        assert forall|i: int, j: int| 0 <= i < j < shorter_a.len() implies path_le(
            (#[trigger] shorter_a[i]).path_view(),
            (#[trigger] shorter_a[j]).path_view(),
        ) by {
            assert(shorter_a[i] == a[i] && shorter_a[j] == a[j]);
        }
        assert forall|i: int, j: int| 0 <= i < j < shorter_b.len() implies path_le(
            (#[trigger] shorter_b[i]).path_view(),
            (#[trigger] shorter_b[j]).path_view(),
        ) by {
            assert(shorter_b[i] == b[i] && shorter_b[j] == b[j]);
        }
        lemma_stable_order_unique(shorter_a, shorter_b);
        assert(a =~= shorter_a.push(x));
        assert(b =~= shorter_b.push(y));
    }
}

/// Sorting by path has one result: whatever is sorted from the same items
/// is the same sequence.
pub proof fn lemma_sorted_by_path_unique<T: HasPath>(items: Seq<T>, a: Seq<T>, b: Seq<T>)
    requires
        sorted_by_path(items, a),
        sorted_by_path(items, b),
    ensures
        a == b,
{
    a.to_multiset_ensures();
    b.to_multiset_ensures();
    assert forall|path: Seq<char>| #[trigger]
        a.filter(at_path(path)) == b.filter(at_path(path)) by {
        assert(a.filter(at_path(path)) == items.filter(at_path(path)));
        assert(b.filter(at_path(path)) == items.filter(at_path(path)));
    }
    lemma_stable_order_unique(a, b);
}

/// Sorting leaves alone what is in order already.
pub proof fn lemma_sorted_stays<T: HasPath>(items: Seq<T>, sorted: Seq<T>)
    requires
        ordered(items),
        sorted_by_path(items, sorted),
    ensures
        sorted == items,
{
    lemma_sorted_by_path_unique(items, sorted, items);
}

/// Items at distinct paths have one order only: two sequences that hold
/// the same items and are both in the order of paths are equal, whatever
/// order the items arrived in.
pub proof fn lemma_sorted_order_unique<T: HasPath>(a: Seq<T>, b: Seq<T>)
    requires
        a.to_multiset() == b.to_multiset(),
        ordered(a),
        ordered(b),
        distinct_paths(a),
        distinct_paths(b),
    ensures
        a == b,
{
    a.to_multiset_ensures();
    b.to_multiset_ensures();
    lemma_same_prefix(a, b, a.len() as int);
    assert(a =~= b);
}

/// Paths have one order only: two sequences that hold the same paths, each
/// as often as the other, and that both never go down, are equal.
pub proof fn lemma_ordered_paths_unique(a: Seq<Seq<char>>, b: Seq<Seq<char>>)
    requires
        a.to_multiset() == b.to_multiset(),
        paths_ordered(a),
        paths_ordered(b),
    ensures
        a == b,
    decreases a.len(),
{
    a.to_multiset_ensures();
    b.to_multiset_ensures();
    if a.len() > 0 {
        let x = a.last();
        let y = b.last();
        assert(a.contains(x));
        assert(b.contains(y));
        assert(b.to_multiset().count(x) > 0);
        assert(a.to_multiset().count(y) > 0);
        let m = choose|m: int| 0 <= m < a.len() && a[m] == y;
        let n = choose|n: int| 0 <= n < b.len() && b[n] == x;
        lemma_path_le_reflexive(x);
        lemma_path_le_reflexive(y);
        assert(path_le(y, x)) by {
            if m < a.len() - 1 {
                assert(path_le(a[m], a[a.len() - 1]));
            }
        }
        assert(path_le(x, y)) by {
            if n < b.len() - 1 {
                assert(path_le(b[n], b[b.len() - 1]));
            }
        }
        lemma_path_le_antisymmetric(x, y);
        assert(a.remove(a.len() - 1) =~= a.drop_last());
        assert(b.remove(b.len() - 1) =~= b.drop_last());
        vstd::seq_lib::to_multiset_remove(a, a.len() - 1);
        vstd::seq_lib::to_multiset_remove(b, b.len() - 1);
        lemma_ordered_paths_unique(a.drop_last(), b.drop_last());
        assert(a =~= a.drop_last().push(x));
        assert(b =~= b.drop_last().push(y));
    } else {
        assert(a =~= b);
    }
}

/// The first `k` items of two such sequences are the same.
proof fn lemma_same_prefix<T: HasPath>(a: Seq<T>, b: Seq<T>, k: int)
    requires
        a.to_multiset() == b.to_multiset(),
        a.len() == b.len(),
        ordered(a),
        ordered(b),
        distinct_paths(a),
        distinct_paths(b),
        0 <= k <= a.len(),
    ensures
        forall|i: int| 0 <= i < k ==> a[i] == b[i],
    decreases k,
{
    if k > 0 {
        lemma_same_prefix(a, b, k - 1);
        let x = a[k - 1];
        let y = b[k - 1];
        a.to_multiset_ensures();
        b.to_multiset_ensures();
        assert(a.contains(x));
        assert(b.contains(y));
        assert(b.to_multiset().count(x) > 0);
        assert(a.to_multiset().count(y) > 0);
        assert(b.contains(x));
        assert(a.contains(y));
        let m = choose|m: int| 0 <= m < a.len() && a[m] == y;
        let n = choose|n: int| 0 <= n < b.len() && b[n] == x;
        if m < k - 1 {
            // `y` would stand in `b` twice
            assert(b[m] == a[m]);
            assert(b[m].path_view() != b[k - 1].path_view());
        } else if n < k - 1 {
            assert(a[n] == b[n]);
            assert(a[n].path_view() != a[k - 1].path_view());
        } else {
            if m > k - 1 {
                assert(path_le(a[k - 1].path_view(), a[m].path_view()));
            } else {
                lemma_path_le_reflexive(x.path_view());
            }
            if n > k - 1 {
                assert(path_le(b[k - 1].path_view(), b[n].path_view()));
            } else {
                lemma_path_le_reflexive(y.path_view());
            }
            lemma_path_le_antisymmetric(x.path_view(), y.path_view());
            if m > k - 1 {
                assert(a[k - 1].path_view() != a[m].path_view());
            }
        }
    }
}

} // verus!
