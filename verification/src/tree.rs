//! The parent-pointer forest of the item table, and the collection of a
//! subtree with an explicit worklist.

use vstd::prelude::*;
use vstd::string::StringExecFns;
use crate::row::{RowView, StoredRow};

verus! {

/// No two rows share an id.
pub open spec fn distinct_ids(rows: Seq<RowView>) -> bool {
    forall|i: int, j: int| 0 <= i < j < rows.len() ==> rows[i].id != rows[j].id
}

/// Some row has the id `child` and names `parent` as its parent.
pub open spec fn is_child(rows: Seq<RowView>, child: Seq<char>, parent: Seq<char>) -> bool {
    exists|i: int|
        0 <= i < rows.len() && (#[trigger] rows[i]).id == child && rows[i].parent_id == Some(parent)
}

/// `x` is reached from `root` by `depth` steps from parent to child.
pub open spec fn descends(rows: Seq<RowView>, x: Seq<char>, root: Seq<char>, depth: nat) -> bool
    decreases depth,
{
    if depth == 0 {
        x == root
    } else {
        exists|p: Seq<char>| #[trigger]
            is_child(rows, x, p) && descends(rows, p, root, (depth - 1) as nat)
    }
}

/// `x` is `root` or one of its transitive children.
pub open spec fn in_subtree(rows: Seq<RowView>, root: Seq<char>, x: Seq<char>) -> bool {
    exists|depth: nat| descends(rows, x, root, depth)
}

/// How many of the marks are not set.
pub open spec fn unmarked(marks: Seq<bool>) -> nat
    decreases marks.len(),
{
    if marks.len() == 0 {
        0
    } else {
        unmarked(marks.drop_last()) + if marks.last() {
            0nat
        } else {
            1nat
        }
    }
}

/// Setting a mark that was not set leaves one unmarked entry fewer.
proof fn lemma_mark(marks: Seq<bool>, j: int)
    requires
        0 <= j < marks.len(),
        !marks[j],
    ensures
        unmarked(marks.update(j, true)) + 1 == unmarked(marks),
    decreases marks.len(),
{
    let after = marks.update(j, true);
    if j == marks.len() - 1 {
        assert(after.drop_last() =~= marks.drop_last());
    } else {
        lemma_mark(marks.drop_last(), j);
        assert(after.drop_last() =~= marks.drop_last().update(j, true));
    }
}

/// The marks hold the root's own row and its children, and with every
/// marked row its children.
pub open spec fn closed_marks(rows: Seq<RowView>, root: Seq<char>, marks: Seq<bool>) -> bool {
    &&& marks.len() == rows.len()
    &&& forall|j: int|
        0 <= j < rows.len() && ((#[trigger] rows[j]).id == root || rows[j].parent_id == Some(root))
            ==> marks[j]
    &&& forall|k: int, j: int|
        0 <= k < rows.len() && 0 <= j < rows.len() && marks[k] && (#[trigger] rows[j]).parent_id
            == Some((#[trigger] rows[k]).id) ==> marks[j]
}

/// Marks that are closed hold every row of the subtree.
proof fn lemma_closed_marks_are_complete(
    rows: Seq<RowView>,
    root: Seq<char>,
    marks: Seq<bool>,
    i: int,
    depth: nat,
)
    requires
        distinct_ids(rows),
        closed_marks(rows, root, marks),
        0 <= i < rows.len(),
        descends(rows, rows[i].id, root, depth),
    ensures
        marks[i],
    decreases depth,
{
    if depth > 0 {
        let p = choose|p: Seq<char>| #[trigger]
            is_child(rows, rows[i].id, p) && descends(rows, p, root, (depth - 1) as nat);
        let k = choose|k: int|
            0 <= k < rows.len() && (#[trigger] rows[k]).id == rows[i].id && rows[k].parent_id
                == Some(p);
        assert(k == i);
        if depth - 1 > 0 {
            let p2 = choose|p2: Seq<char>| #[trigger]
                is_child(rows, p, p2) && descends(rows, p2, root, (depth - 2) as nat);
            let k2 = choose|k2: int|
                0 <= k2 < rows.len() && (#[trigger] rows[k2]).id == p && rows[k2].parent_id
                    == Some(p2);
            lemma_closed_marks_are_complete(rows, root, marks, k2, (depth - 1) as nat);
            assert(rows[i].parent_id == Some(rows[k2].id));
        }
    }
}

/// The root of a subtree is in it, whether or not a row carries its id.
pub proof fn lemma_root_in_subtree(rows: Seq<RowView>, root: Seq<char>)
    ensures
        in_subtree(rows, root, root),
{
    assert(descends(rows, root, root, 0));
}

/// A child of a row of the subtree is in the subtree.
pub proof fn lemma_child_in_subtree(rows: Seq<RowView>, root: Seq<char>, j: int, parent: Seq<char>)
    requires
        0 <= j < rows.len(),
        rows[j].parent_id == Some(parent),
        in_subtree(rows, root, parent),
    ensures
        in_subtree(rows, root, rows[j].id),
{
    let d = choose|d: nat| descends(rows, parent, root, d);
    assert(is_child(rows, rows[j].id, parent));
    assert(descends(rows, rows[j].id, root, d + 1));
}

/// The rows carry the same ids and parents, position by position.
pub open spec fn same_forest(a: Seq<RowView>, b: Seq<RowView>) -> bool {
    &&& a.len() == b.len()
    &&& forall|i: int|
        0 <= i < a.len() ==> (#[trigger] a[i]).id == b[i].id && a[i].parent_id == b[i].parent_id
}

/// Subtrees depend on ids and parents only: what descends from a root by
/// some number of steps in one table does so in every table with the same
/// forest.
pub proof fn lemma_same_forest_descends(
    a: Seq<RowView>,
    b: Seq<RowView>,
    x: Seq<char>,
    root: Seq<char>,
    depth: nat,
)
    requires
        same_forest(a, b),
        descends(a, x, root, depth),
    ensures
        descends(b, x, root, depth),
    decreases depth,
{
    if depth > 0 {
        let p = choose|p: Seq<char>| #[trigger]
            is_child(a, x, p) && descends(a, p, root, (depth - 1) as nat);
        let i = choose|i: int|
            0 <= i < a.len() && (#[trigger] a[i]).id == x && a[i].parent_id == Some(p);
        assert(b[i].id == x && b[i].parent_id == Some(p));
        assert(is_child(b, x, p));
        lemma_same_forest_descends(a, b, p, root, (depth - 1) as nat);
    }
}

/// Tables with the same forest have the same subtrees.
pub proof fn lemma_same_forest_same_subtrees(
    a: Seq<RowView>,
    b: Seq<RowView>,
    root: Seq<char>,
    x: Seq<char>,
)
    requires
        same_forest(a, b),
    ensures
        in_subtree(a, root, x) == in_subtree(b, root, x),
{
    if in_subtree(a, root, x) {
        let d = choose|d: nat| descends(a, x, root, d);
        lemma_same_forest_descends(a, b, x, root, d);
    }
    if in_subtree(b, root, x) {
        let d = choose|d: nat| descends(b, x, root, d);
        assert(same_forest(b, a)) by {
            assert forall|i: int| 0 <= i < b.len() implies (#[trigger] b[i]).id == a[i].id
                && b[i].parent_id == a[i].parent_id by {
                assert(a[i].id == b[i].id);
            }
        }
        lemma_same_forest_descends(b, a, x, root, d);
    }
}

/// Whether the row names `id` as its parent.
pub fn parent_is(row: &StoredRow, id: &String) -> (b: bool)
    ensures
        b == (row@.parent_id == Some(id@)),
{
    match &row.parent_id {
        Some(p) => *p == *id,
        None => false,
    }
}

/// For every row, whether it belongs to the subtree of `root`: whether
/// its id is `root` or it is reached from `root` through parent links.
pub fn subtree_marks(rows: &Vec<StoredRow>, root: &str) -> (marks: Vec<bool>)
    requires
        distinct_ids(rows.deep_view()),
    ensures
        marks.len() == rows.len(),
        forall|i: int|
            0 <= i < rows.len() ==> marks[i] == in_subtree(
                rows.deep_view(),
                root@,
                #[trigger] rows.deep_view()[i].id,
            ),
{
    let ghost rv = rows.deep_view();
    let n: usize = rows.len();
    let root_id = String::from_str(root);
    let mut marks: Vec<bool> = Vec::new();
    let mut work: Vec<usize> = Vec::new();
    let mut j: usize = 0;
    while j < n
        invariant
            j <= n,
            n == rows.len(),
            rv == rows.deep_view(),
            root_id@ == root@,
            marks.len() == j,
            forall|k: int| 0 <= k < work.len() ==> work[k] < j && marks[work[k] as int],
            forall|k: int| 0 <= k < j && marks[k] ==> #[trigger] work@.contains(k as usize),
            forall|k: int|
                0 <= k < j ==> marks[k] == ((#[trigger] rv[k]).id == root@ || rv[k].parent_id
                    == Some(root@)),
        decreases n - j,
    {
        let seed: bool = rows[j].id == root_id || parent_is(&rows[j], &root_id);
        assert(rows[j as int]@ == rv[j as int]);
        marks.push(seed);
        if seed {
            let ghost w = work@;
            work.push(j);
            assert(work@.last() == j);
            assert forall|k: int| 0 <= k < j && marks[k] implies #[trigger] work@.contains(
                k as usize,
            ) by {
                assert(w.contains(k as usize));
                let at = choose|at: int| 0 <= at < w.len() && w[at] == k as usize;
                assert(work@[at] == k as usize);
            }
        }
        j += 1;
    }
    proof {
        assert forall|k: int| 0 <= k < n && marks[k] implies in_subtree(
            rv,
            root@,
            (#[trigger] rv[k]).id,
        ) by {
            if rv[k].id == root@ {
                assert(descends(rv, rv[k].id, root@, 0));
            } else {
                assert(descends(rv, root@, root@, 0));
                lemma_child_in_subtree(rv, root@, k, root@);
            }
        }
    }
    while work.len() > 0
        invariant
            n == rows.len(),
            rv == rows.deep_view(),
            root_id@ == root@,
            marks.len() == n,
            distinct_ids(rv),
            forall|k: int| 0 <= k < work.len() ==> work[k] < n && marks[work[k] as int],
            forall|k: int| 0 <= k < n && marks[k] ==> in_subtree(rv, root@, (#[trigger] rv[k]).id),
            forall|k: int|
                0 <= k < n && ((#[trigger] rv[k]).id == root@ || rv[k].parent_id == Some(root@))
                    ==> marks[k],
            forall|k: int, c: int|
                0 <= k < n && 0 <= c < n && marks[k] && !work@.contains(k as usize) && (
                #[trigger] rv[c]).parent_id == Some((#[trigger] rv[k]).id) ==> marks[c],
        decreases unmarked(marks@), work.len(),
    {
        let ghost work_before = work@;
        let ghost marks_before = marks@;
        let i: usize = work.pop().unwrap();
        assert(work@ =~= work_before.drop_last());
        let mut c: usize = 0;
        while c < n
            invariant
                c <= n,
                i < n,
                n == rows.len(),
                rv == rows.deep_view(),
                marks.len() == n,
                marks_before.len() == n,
                marks_before[i as int],
                work_before.len() > 0,
                forall|k: int| 0 <= k < work.len() ==> work[k] < n && marks[work[k] as int],
                forall|k: int| 0 <= k < n && marks_before[k] ==> marks[k],
                forall|k: int|
                    0 <= k < n && marks[k] ==> in_subtree(rv, root@, (#[trigger] rv[k]).id),
                forall|k: int|
                    0 <= k < c && (#[trigger] rv[k]).parent_id == Some(rv[i as int].id)
                        ==> marks[k],
                forall|k: int|
                    0 <= k < n && !marks_before[k] && marks[k] ==> #[trigger] work@.contains(
                        k as usize,
                    ),
                forall|k: int|
                    0 <= k < n && work_before.drop_last().contains(k as usize)
                        ==> #[trigger] work@.contains(k as usize),
                unmarked(marks@) <= unmarked(marks_before),
                unmarked(marks@) == unmarked(marks_before) ==> work@ == work_before.drop_last(),
            decreases n - c,
        {
            assert(rows[c as int]@ == rv[c as int]);
            assert(rows[i as int]@ == rv[i as int]);
            if !marks[c] && parent_is(&rows[c], &rows[i].id) {
                proof {
                    lemma_mark(marks@, c as int);
                    lemma_child_in_subtree(rv, root@, c as int, rv[i as int].id);
                }
                let ghost w = work@;
                marks[c] = true;
                work.push(c);
                assert(work@.last() == c);
                assert(work@.contains(c));
                assert forall|k: int|
                    0 <= k < n && w.contains(k as usize) implies #[trigger] work@.contains(
                    k as usize,
                ) by {
                    let at = choose|at: int| 0 <= at < w.len() && w[at] == k as usize;
                    assert(work@[at] == k as usize);
                }
            }
            c += 1;
        }
        proof {
            assert forall|k: int, c: int|
                0 <= k < n && 0 <= c < n && marks[k] && !work@.contains(k as usize) && (
                #[trigger] rv[c]).parent_id == Some((#[trigger] rv[k]).id) implies marks[c] by {
                if k != i {
                    if marks_before[k] {
                        if work_before.contains(k as usize) {
                            let at = choose|at: int|
                                0 <= at < work_before.len() && work_before[at] == k as usize;
                            if at == work_before.len() - 1 {
                                assert(false);
                            } else {
                                assert(work_before.drop_last()[at] == k as usize);
                                assert(work_before.drop_last().contains(k as usize));
                            }
                        }
                    } else {
                        assert(marks[k] && !marks_before[k]);
                        assert(false);
                    }
                }
            }
        }
    }
    proof {
        assert forall|i: int| 0 <= i < n implies marks[i] == in_subtree(
            rv,
            root@,
            (#[trigger] rv[i]).id,
        ) by {
            if in_subtree(rv, root@, rv[i].id) {
                let d = choose|d: nat| descends(rv, rv[i].id, root@, d);
                assert(closed_marks(rv, root@, marks@)) by {
                    assert forall|k: int, c: int|
                        0 <= k < n && 0 <= c < n && marks@[k] && (#[trigger] rv[c]).parent_id
                            == Some((#[trigger] rv[k]).id) implies marks@[c] by {
                        assert(!work@.contains(k as usize));
                    }
                }
                lemma_closed_marks_are_complete(rv, root@, marks@, i, d);
            }
        }
    }
    marks
}

} // verus!
