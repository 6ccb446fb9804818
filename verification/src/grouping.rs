//! The directories that a rule's files are moved into: each once, in
//! ascending order, with the number of files that go there.

use vstd::prelude::*;
use vstd::string::*;
use crate::path::{FilePath, PathView};
use crate::plan::{entry_view, entry_views, EntryView, PlanEntry};
use crate::text::{chars_of, owned};

verus! {

/// Whether `a` comes before `b`: by the first character in which they
/// differ, or as a proper prefix.
pub open spec fn text_before(a: Seq<char>, b: Seq<char>) -> bool
    decreases a.len(),
{
    if b.len() == 0 {
        false
    } else if a.len() == 0 {
        true
    } else if a[0] != b[0] {
        (a[0] as u32) < (b[0] as u32)
    } else {
        text_before(a.drop_first(), b.drop_first())
    }
}

/// Whether a name is the one that stands for the directory above.
pub open spec fn is_parent_name(name: Seq<char>) -> bool {
    name == ".."@
}

/// Whether the name `a` comes before the name `b`: the name for the
/// directory above comes before every other name, and other names go by
/// their text.
pub open spec fn name_before(a: Seq<char>, b: Seq<char>) -> bool {
    if is_parent_name(a) {
        !is_parent_name(b)
    } else if is_parent_name(b) {
        false
    } else {
        text_before(a, b)
    }
}

/// Whether the names `a` come before the names `b`: by the first name in
/// which they differ, or as a proper prefix.
pub open spec fn names_before(a: Seq<Seq<char>>, b: Seq<Seq<char>>) -> bool
    decreases a.len(),
{
    if b.len() == 0 {
        false
    } else if a.len() == 0 {
        true
    } else if a[0] != b[0] {
        name_before(a[0], b[0])
    } else {
        names_before(a.drop_first(), b.drop_first())
    }
}

/// The empty path comes first, then the absolute paths, then the others.
pub open spec fn rank(path: PathView) -> int {
    if path.absolute {
        1
    } else if path.components.len() == 0 {
        0
    } else {
        2
    }
}

/// Whether `a` comes before `b` in a sorted list of paths.
pub open spec fn path_before(a: PathView, b: PathView) -> bool {
    rank(a) < rank(b) || (rank(a) == rank(b) && names_before(a.components, b.components))
}

/// Tests whether `a` comes before `b`.
pub fn text_precedes(a: &str, b: &str) -> (out: bool)
    ensures
        out == text_before(a@, b@),
{
    let x = chars_of(a);
    let y = chars_of(b);
    let mut i: usize = 0;
    assert(a@.subrange(0, a@.len() as int) =~= a@);
    assert(b@.subrange(0, b@.len() as int) =~= b@);
    loop
        invariant
            x@ == a@,
            y@ == b@,
            i <= x.len(),
            i <= y.len(),
            text_before(a@, b@) == text_before(
                a@.subrange(i as int, a@.len() as int),
                b@.subrange(i as int, b@.len() as int),
            ),
        decreases x.len() - i,
    {
        let ghost rest_a = a@.subrange(i as int, a@.len() as int);
        let ghost rest_b = b@.subrange(i as int, b@.len() as int);
        if i == y.len() {
            return false;
        }
        if i == x.len() {
            return true;
        }
        assert(rest_a[0] == x@[i as int]);
        assert(rest_b[0] == y@[i as int]);
        if x[i] != y[i] {
            return (x[i] as u32) < (y[i] as u32);
        }
        assert(rest_a.drop_first() =~= a@.subrange(i + 1, a@.len() as int));
        assert(rest_b.drop_first() =~= b@.subrange(i + 1, b@.len() as int));
        i = i + 1;
    }
}

/// Tests whether the name `a` comes before the name `b`.
pub fn name_precedes(a: &String, b: &String) -> (out: bool)
    ensures
        out == name_before(a@, b@),
{
    let above = owned("..");
    if *a == above {
        !(*b == above)
    } else if *b == above {
        false
    } else {
        text_precedes(a.as_str(), b.as_str())
    }
}

fn rank_of(path: &FilePath) -> (out: u8)
    ensures
        out == rank(path@),
{
    if path.is_absolute() {
        1
    } else if path.depth() == 0 {
        0
    } else {
        2
    }
}

/// Tests whether `a` comes before `b` in a sorted list of paths.
pub fn precedes(a: &FilePath, b: &FilePath) -> (out: bool)
    ensures
        out == path_before(a@, b@),
{
    let ra = rank_of(a);
    let rb = rank_of(b);
    if ra != rb {
        return ra < rb;
    }
    let n = a.depth();
    let m = b.depth();
    let ghost xs = a@.components;
    let ghost ys = b@.components;
    let mut i: usize = 0;
    assert(xs.subrange(0, n as int) =~= xs);
    assert(ys.subrange(0, m as int) =~= ys);
    loop
        invariant
            xs == a@.components,
            ys == b@.components,
            n == xs.len(),
            m == ys.len(),
            i <= n,
            i <= m,
            rank(a@) == rank(b@),
            names_before(xs, ys) == names_before(
                xs.subrange(i as int, n as int),
                ys.subrange(i as int, m as int),
            ),
        decreases n - i,
    {
        let ghost rest_a = xs.subrange(i as int, n as int);
        let ghost rest_b = ys.subrange(i as int, m as int);
        if i == m {
            return false;
        }
        if i == n {
            return true;
        }
        assert(rest_a[0] == xs[i as int]);
        assert(rest_b[0] == ys[i as int]);
        let x = a.component(i);
        let y = b.component(i);
        if *x != *y {
            return name_precedes(x, y);
        }
        assert(rest_a.drop_first() =~= xs.subrange(i + 1, n as int));
        assert(rest_b.drop_first() =~= ys.subrange(i + 1, m as int));
        i = i + 1;
    }
}

/// The models of a sequence of paths.
pub open spec fn path_views(paths: Seq<FilePath>) -> Seq<PathView> {
    paths.map_values(|p: FilePath| p@)
}

/// `sorted` with `path` put in its place, unless it is there already.
pub open spec fn inserted(sorted: Seq<PathView>, path: PathView) -> Seq<PathView>
    decreases sorted.len(),
{
    if sorted.len() == 0 {
        seq![path]
    } else if sorted.last() == path {
        sorted
    } else if path_before(sorted.last(), path) {
        sorted.push(path)
    } else {
        inserted(sorted.drop_last(), path).push(sorted.last())
    }
}

/// The paths of `all`, each once, in ascending order.
pub open spec fn sorted_distinct(all: Seq<PathView>) -> Seq<PathView>
    decreases all.len(),
{
    if all.len() == 0 {
        Seq::empty()
    } else {
        inserted(sorted_distinct(all.drop_last()), all.last())
    }
}

/// Every path of `inserted(sorted, path)` is `path` or one of `sorted`, and
/// all of those are in it.
pub proof fn lemma_inserted_holds(sorted: Seq<PathView>, path: PathView, other: PathView)
    ensures
        inserted(sorted, path).contains(other) <==> (other == path || sorted.contains(other)),
    decreases sorted.len(),
{
    let out = inserted(sorted, path);
    if sorted.len() == 0 {
        assert(out[0] == path);
        if out.contains(other) {
            let k = choose|k: int| 0 <= k < out.len() && out[k] == other;
            assert(k == 0);
        }
    } else if sorted.last() == path {
        assert(sorted[sorted.len() - 1] == path);
    } else if path_before(sorted.last(), path) {
        assert(out[out.len() - 1] == path);
        if out.contains(other) {
            let k = choose|k: int| 0 <= k < out.len() && out[k] == other;
            if k < sorted.len() {
                assert(sorted[k] == other);
            }
        }
        if sorted.contains(other) {
            let k = choose|k: int| 0 <= k < sorted.len() && sorted[k] == other;
            assert(out[k] == other);
        }
    } else {
        let front = sorted.drop_last();
        let inner = inserted(front, path);
        lemma_inserted_holds(front, path, other);
        assert(out[out.len() - 1] == sorted.last());
        if out.contains(other) {
            let k = choose|k: int| 0 <= k < out.len() && out[k] == other;
            if k < inner.len() {
                assert(inner[k] == other);
                if front.contains(other) {
                    let j = choose|j: int| 0 <= j < front.len() && front[j] == other;
                    assert(sorted[j] == other);
                }
            } else {
                assert(sorted[sorted.len() - 1] == other);
            }
        }
        if other == path {
            let k = choose|k: int| 0 <= k < inner.len() && inner[k] == other;
            assert(out[k] == other);
        }
        if sorted.contains(other) {
            let j = choose|j: int| 0 <= j < sorted.len() && sorted[j] == other;
            if j < front.len() {
                assert(front[j] == other);
                let k = choose|k: int| 0 <= k < inner.len() && inner[k] == other;
                assert(out[k] == other);
            } else {
                assert(out[out.len() - 1] == other);
            }
        }
    }
}

/// The sorted list holds exactly the paths of the list it was made from.
pub proof fn lemma_sorted_distinct_holds(all: Seq<PathView>, path: PathView)
    ensures
        sorted_distinct(all).contains(path) <==> all.contains(path),
    decreases all.len(),
{
    if all.len() > 0 {
        let front = all.drop_last();
        lemma_sorted_distinct_holds(front, path);
        lemma_inserted_holds(sorted_distinct(front), all.last(), path);
        if all.contains(path) {
            let j = choose|j: int| 0 <= j < all.len() && all[j] == path;
            if j < front.len() {
                assert(front[j] == path);
            }
        }
        if front.contains(path) {
            let j = choose|j: int| 0 <= j < front.len() && front[j] == path;
            assert(all[j] == path);
        }
        assert(all[all.len() - 1] == all.last());
    }
}

/// No text comes before itself.
pub proof fn lemma_text_before_irreflexive(a: Seq<char>)
    ensures
        !text_before(a, a),
    decreases a.len(),
{
    if a.len() > 0 {
        lemma_text_before_irreflexive(a.drop_first());
    }
}

/// A text that comes before a second, which comes before a third, comes
/// before the third.
pub proof fn lemma_text_before_transitive(a: Seq<char>, b: Seq<char>, c: Seq<char>)
    requires
        text_before(a, b),
        text_before(b, c),
    ensures
        text_before(a, c),
    decreases a.len(),
{
    if a.len() > 0 && a[0] == b[0] && b[0] == c[0] {
        lemma_text_before_transitive(a.drop_first(), b.drop_first(), c.drop_first());
    }
}

/// Of two different texts one comes before the other.
pub proof fn lemma_text_before_total(a: Seq<char>, b: Seq<char>)
    requires
        a != b,
    ensures
        text_before(a, b) || text_before(b, a),
    decreases a.len(),
{
    if a.len() > 0 && b.len() > 0 && a[0] == b[0] {
        if a.drop_first() == b.drop_first() {
            assert(a =~= seq![a[0]] + a.drop_first());
            assert(b =~= seq![b[0]] + b.drop_first());
        }
        lemma_text_before_total(a.drop_first(), b.drop_first());
    } else if a.len() == 0 && b.len() == 0 {
        assert(a =~= b);
    } else if a.len() > 0 && b.len() > 0 {
        assert((a[0] as u32) != (b[0] as u32)) by {
            vstd::utf8::char_u32_cast(a[0], a[0] as u32);
            vstd::utf8::char_u32_cast(b[0], b[0] as u32);
        }
    }
}

/// The order of names is a strict total order: no name comes before
/// itself, the order is transitive, and of two different names one comes
/// before the other.
pub proof fn lemma_name_before_is_strict_total(a: Seq<char>, b: Seq<char>, c: Seq<char>)
    ensures
        !name_before(a, a),
        name_before(a, b) && name_before(b, c) ==> name_before(a, c),
        a != b ==> name_before(a, b) || name_before(b, a),
{
    lemma_text_before_irreflexive(a);
    if name_before(a, b) && name_before(b, c) && !is_parent_name(a) {
        lemma_text_before_transitive(a, b, c);
    }
    if a != b && !is_parent_name(a) && !is_parent_name(b) {
        lemma_text_before_total(a, b);
    }
}

/// No sequence of names comes before itself.
pub proof fn lemma_names_before_irreflexive(a: Seq<Seq<char>>)
    ensures
        !names_before(a, a),
    decreases a.len(),
{
    if a.len() > 0 {
        lemma_names_before_irreflexive(a.drop_first());
    }
}

/// The order of name sequences is transitive.
pub proof fn lemma_names_before_transitive(
    a: Seq<Seq<char>>,
    b: Seq<Seq<char>>,
    c: Seq<Seq<char>>,
)
    requires
        names_before(a, b),
        names_before(b, c),
    ensures
        names_before(a, c),
    decreases a.len(),
{
    if a.len() > 0 {
        if a[0] == b[0] && b[0] == c[0] {
            lemma_names_before_transitive(a.drop_first(), b.drop_first(), c.drop_first());
        } else if a[0] != b[0] && b[0] != c[0] {
            lemma_name_before_is_strict_total(a[0], b[0], c[0]);
        }
    }
}

/// Of two different name sequences one comes before the other.
pub proof fn lemma_names_before_total(a: Seq<Seq<char>>, b: Seq<Seq<char>>)
    requires
        a != b,
    ensures
        names_before(a, b) || names_before(b, a),
    decreases a.len(),
{
    if a.len() > 0 && b.len() > 0 {
        if a[0] == b[0] {
            if a.drop_first() == b.drop_first() {
                assert(a =~= seq![a[0]] + a.drop_first());
                assert(b =~= seq![b[0]] + b.drop_first());
            }
            lemma_names_before_total(a.drop_first(), b.drop_first());
        } else {
            lemma_name_before_is_strict_total(a[0], b[0], a[0]);
        }
    } else if a.len() == 0 && b.len() == 0 {
        assert(a =~= b);
    }
}

/// The order of paths is a strict total order: no path comes before
/// itself, the order is transitive, and of two different paths one comes
/// before the other.
pub proof fn lemma_path_before_is_strict_total(a: PathView, b: PathView, c: PathView)
    ensures
        !path_before(a, a),
        path_before(a, b) && path_before(b, c) ==> path_before(a, c),
        a != b ==> path_before(a, b) || path_before(b, a),
{
    lemma_names_before_irreflexive(a.components);
    if path_before(a, b) && path_before(b, c) && rank(a) == rank(b) && rank(b) == rank(c) {
        lemma_names_before_transitive(a.components, b.components, c.components);
    }
    if a != b && rank(a) == rank(b) {
        assert(a.absolute == b.absolute);
        lemma_names_before_total(a.components, b.components);
    }
}

/// Whether each path comes before all that follow it.
pub open spec fn ascending(paths: Seq<PathView>) -> bool {
    forall|i: int, j: int| 0 <= i < j < paths.len() ==> path_before(paths[i], paths[j])
}

/// Putting a path in its place keeps an ascending list ascending.
pub proof fn lemma_inserted_is_ascending(sorted: Seq<PathView>, path: PathView)
    requires
        ascending(sorted),
    ensures
        ascending(inserted(sorted, path)),
    decreases sorted.len(),
{
    let out = inserted(sorted, path);
    if sorted.len() == 0 {
    } else if sorted.last() == path {
    } else if path_before(sorted.last(), path) {
        assert forall|i: int, j: int| 0 <= i < j < out.len() implies path_before(
            out[i],
            out[j],
        ) by {
            if j == sorted.len() && i < sorted.len() - 1 {
                assert(path_before(sorted[i], sorted[sorted.len() - 1]));
                lemma_path_before_is_strict_total(sorted[i], sorted.last(), path);
            }
        }
    } else {
        let front = sorted.drop_last();
        let inner = inserted(front, path);
        assert(ascending(front)) by {
            assert forall|i: int, j: int| 0 <= i < j < front.len() implies path_before(
                front[i],
                front[j],
            ) by {
                assert(path_before(sorted[i], sorted[j]));
            }
        }
        lemma_inserted_is_ascending(front, path);
        lemma_path_before_is_strict_total(sorted.last(), path, path);
        assert forall|i: int, j: int| 0 <= i < j < out.len() implies path_before(
            out[i],
            out[j],
        ) by {
            if j == inner.len() {
                lemma_inserted_holds(front, path, inner[i]);
                assert(inner.contains(inner[i]));
                if inner[i] != path {
                    let m = choose|m: int| 0 <= m < front.len() && front[m] == inner[i];
                    assert(path_before(sorted[m], sorted[sorted.len() - 1]));
                }
            } else {
                assert(path_before(inner[i], inner[j]));
            }
        }
    }
}

/// The sorted list is strictly ascending, so no path occurs in it twice.
pub proof fn lemma_sorted_distinct_is_ascending(all: Seq<PathView>)
    ensures
        ascending(sorted_distinct(all)),
        sorted_distinct(all).no_duplicates(),
    decreases all.len(),
{
    if all.len() > 0 {
        lemma_sorted_distinct_is_ascending(all.drop_last());
        lemma_inserted_is_ascending(sorted_distinct(all.drop_last()), all.last());
    }
    let out = sorted_distinct(all);
    assert forall|i: int, j: int| 0 <= i < out.len() && 0 <= j < out.len() && i != j implies out[i]
        != out[j] by {
        lemma_path_before_is_strict_total(out[i], out[i], out[i]);
        if i < j {
            assert(path_before(out[i], out[j]));
        } else {
            assert(path_before(out[j], out[i]));
        }
    }
}

/// Puts `path` in its place in `sorted`, unless it is there already.
pub fn insert_sorted(sorted: &mut Vec<FilePath>, path: FilePath)
    ensures
        path_views(final(sorted)@) == inserted(path_views(old(sorted)@), path@),
{
    let ghost all = path_views(sorted@);
    let mut j: usize = sorted.len();
    assert(all.subrange(0, j as int) =~= all);
    assert(inserted(all, path@) =~= inserted(all.subrange(0, j as int), path@) + all.subrange(
        j as int,
        all.len() as int,
    ));
    let mut placed = false;
    while j > 0 && !placed
        invariant
            j <= sorted.len(),
            sorted@ == old(sorted)@,
            all == path_views(sorted@),
            inserted(all, path@) == inserted(all.subrange(0, j as int), path@) + all.subrange(
                j as int,
                all.len() as int,
            ),
            placed ==> j > 0 && all[j - 1] != path@ && path_before(all[j - 1], path@),
        decreases j, (if placed { 0int } else { 1int }),
    {
        let ghost front = all.subrange(0, j as int);
        assert(front.last() == sorted@[j - 1]@);
        if sorted[j - 1].same_as(&path) {
            assert(front + all.subrange(j as int, all.len() as int) =~= all);
            return ;
        }
        if precedes(&sorted[j - 1], &path) {
            placed = true;
        } else {
            assert(front.drop_last() =~= all.subrange(0, j - 1));
            assert(inserted(front.drop_last(), path@).push(front.last()) + all.subrange(
                j as int,
                all.len() as int,
            ) =~= inserted(front.drop_last(), path@) + all.subrange(j - 1, all.len() as int));
            j = j - 1;
        }
    }
    let ghost front = all.subrange(0, j as int);
    let ghost item = path@;
    assert(inserted(front, item) =~= front.push(item)) by {
        if j > 0 {
            assert(front.last() == all[j - 1]);
        }
    }
    sorted.insert(j, path);
    assert(path_views(sorted@) =~= front.push(item) + all.subrange(j as int, all.len() as int));
}

/// The directories that the resolved entries move into, in entry order; an
/// entry whose destination has no directory above it adds none.
pub open spec fn destinations(entries: Seq<EntryView>) -> Seq<PathView>
    decreases entries.len(),
{
    if entries.len() == 0 {
        Seq::empty()
    } else {
        let rest = destinations(entries.drop_last());
        match entries.last() {
            Ok(resolved) => match resolved.move_to.parent() {
                Some(directory) => rest.push(directory),
                None => rest,
            },
            Err(_) => rest,
        }
    }
}

/// Collects the directories that the resolved entries move into.
pub fn destinations_of(entries: &Vec<PlanEntry>) -> (out: Vec<FilePath>)
    ensures
        path_views(out@) == destinations(entry_views(entries@)),
{
    let mut out: Vec<FilePath> = Vec::new();
    let mut i: usize = 0;
    assert(entry_views(entries@).subrange(0, 0) =~= Seq::<EntryView>::empty());
    while i < entries.len()
        invariant
            i <= entries.len(),
            path_views(out@) == destinations(entry_views(entries@).subrange(0, i as int)),
        decreases entries.len() - i,
    {
        let ghost before = path_views(out@);
        let ghost seen = entry_views(entries@).subrange(0, i + 1);
        assert(seen.drop_last() =~= entry_views(entries@).subrange(0, i as int));
        assert(seen.last() == entry_view(entries@[i as int]));
        match &entries[i] {
            Ok(resolved) => match resolved.move_to().parent() {
                Some(directory) => {
                    out.push(directory);
                    assert(path_views(out@) =~= before.push(directory@));
                },
                None => {},
            },
            Err(_) => {},
        }
        i = i + 1;
    }
    assert(entry_views(entries@).subrange(0, i as int) =~= entry_views(entries@));
    out
}

/// Sorts paths and drops the repeats.
pub fn sort_distinct(all: &Vec<FilePath>) -> (out: Vec<FilePath>)
    ensures
        path_views(out@) == sorted_distinct(path_views(all@)),
{
    let mut out: Vec<FilePath> = Vec::new();
    let mut i: usize = 0;
    assert(path_views(all@).subrange(0, 0) =~= Seq::<PathView>::empty());
    assert(path_views(out@) =~= Seq::<PathView>::empty());
    while i < all.len()
        invariant
            i <= all.len(),
            path_views(out@) == sorted_distinct(path_views(all@).subrange(0, i as int)),
        decreases all.len() - i,
    {
        let ghost seen = path_views(all@).subrange(0, i + 1);
        assert(seen.drop_last() =~= path_views(all@).subrange(0, i as int));
        assert(seen.last() == all@[i as int]@);
        insert_sorted(&mut out, all[i].clone());
        i = i + 1;
    }
    assert(path_views(all@).subrange(0, i as int) =~= path_views(all@));
    out
}

/// How often `path` occurs in `all`.
pub open spec fn occurrences(all: Seq<PathView>, path: PathView) -> nat
    decreases all.len(),
{
    if all.len() == 0 {
        0
    } else if all.last() == path {
        occurrences(all.drop_last(), path) + 1
    } else {
        occurrences(all.drop_last(), path)
    }
}

/// A path occurs in a list at most as often as the list is long.
pub proof fn lemma_occurrences_bounded(all: Seq<PathView>, path: PathView)
    ensures
        occurrences(all, path) <= all.len(),
    decreases all.len(),
{
    if all.len() > 0 {
        lemma_occurrences_bounded(all.drop_last(), path);
    }
}

/// Counts how often `path` occurs in `all`.
pub fn count_of(all: &Vec<FilePath>, path: &FilePath) -> (out: usize)
    ensures
        out == occurrences(path_views(all@), path@),
{
    let mut out: usize = 0;
    let mut i: usize = 0;
    assert(path_views(all@).subrange(0, 0) =~= Seq::<PathView>::empty());
    while i < all.len()
        invariant
            i <= all.len(),
            out == occurrences(path_views(all@).subrange(0, i as int), path@),
        decreases all.len() - i,
    {
        let ghost seen = path_views(all@).subrange(0, i + 1);
        assert(seen.drop_last() =~= path_views(all@).subrange(0, i as int));
        assert(seen.last() == all@[i as int]@);
        proof {
            lemma_occurrences_bounded(seen.drop_last(), path@);
        }
        if all[i].same_as(path) {
            out = out + 1;
        }
        i = i + 1;
    }
    assert(path_views(all@).subrange(0, i as int) =~= path_views(all@));
    out
}

} // verus!
