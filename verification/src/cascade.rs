//! Operations on a whole subtree of the store: soft deletion, restoring and
//! permanent deletion, and emptying the recycling bin.

use vstd::prelude::*;
use vstd::string::StrSliceExecFns;
use vstd::utf8::encode_utf8;
use crate::crypto::Crypto;
use crate::error::Error;
use crate::row::{
    cell_opens, cell_refused, cell_text, clone_opt_bytes, decoded_row, fits, open_text, opt_bytes,
    read_refused_among, row_item, row_readable, row_to_vault_item, seal_instant, RowView,
    StoredRow,
};
use crate::storage::{
    distinct_names, file_index, has_file, has_id, row_index, FileView, PayloadFile, Storage,
    StorageView,
};
use crate::tags::has_tag;
use crate::time::Timestamp;
use crate::tree::{
    distinct_ids, in_subtree, lemma_child_in_subtree, lemma_root_in_subtree,
    lemma_same_forest_same_subtrees, same_forest, subtree_marks,
};

verus! {
/// The rows of the subtree of `root`.
pub open spec fn in_tree(rows: Seq<RowView>, root: Seq<char>) -> spec_fn(RowView) -> bool {
    |r: RowView| in_subtree(rows, root, r.id)
}

/// The rows that carry a deletion stamp, readable or not.
pub open spec fn is_stamped() -> spec_fn(RowView) -> bool {
    |r: RowView| r.deleted_at is Some
}

/// What a filter does not keep.
pub open spec fn except<A>(p: spec_fn(A) -> bool) -> spec_fn(A) -> bool {
    |a: A| !p(a)
}

/// `after` is `before` with the deletion stamp of every row of the subtree
/// of `root` set to `stamp`, and nothing else changed.
pub open spec fn restamped(
    before: Seq<RowView>,
    after: Seq<RowView>,
    root: Seq<char>,
    stamp: Option<Seq<u8>>,
) -> bool {
    &&& after.len() == before.len()
    &&& forall|i: int|
        0 <= i < before.len() ==> #[trigger] after[i] == if in_subtree(
            before,
            root,
            before[i].id,
        ) {
            RowView { deleted_at: stamp, ..before[i] }
        } else {
            before[i]
        }
}

/// `after` is `before` with every row of the subtree of `root` stamped with
/// `stamp`, which opens under `key` to the text of the instant `now`.
pub open spec fn soft_deleted(
    before: Seq<RowView>,
    after: Seq<RowView>,
    root: Seq<char>,
    key: Seq<u8>,
    now: Timestamp,
    stamp: Seq<u8>,
) -> bool {
    &&& now.wf()
    &&& cell_opens(key, stamp, encode_utf8(now.text()))
    &&& restamped(before, after, root, Some(stamp))
}

/// What a soft deletion of `id` at `now` makes of the store: every row of
/// the subtree carries one and the same stamp, which opens to the text of
/// `now`; or nothing is changed, the engine being locked or the text of
/// `now` too long to seal.
pub open spec fn soft_delete_outcome(
    before: StorageView,
    after: StorageView,
    key: Option<Seq<u8>>,
    r: Result<(), Error>,
    id: Seq<char>,
    now: Timestamp,
) -> bool {
    match r {
        Ok(_) => {
            &&& key is Some
            &&& after == (StorageView { rows: after.rows, ..before })
            &&& exists|stamp: Seq<u8>| #[trigger]
                soft_deleted(before.rows, after.rows, id, key.unwrap(), now, stamp)
        },
        Err(e) => {
            &&& after == before
            &&& if key is Some {
                e is Internal && !fits(encode_utf8(now.text()))
            } else {
                e is NotUnlocked
            }
        },
    }
}

/// The payload that a row refers to: the data path of its item, where the
/// row can be read and the path is not empty.
pub open spec fn payload_of_row(key: Option<Seq<u8>>, row: RowView) -> Option<Seq<char>> {
    match decoded_row(key, row) {
        Some(v) => if v.data_path.len() > 0 {
            Some(v.data_path)
        } else {
            None
        },
        None => None,
    }
}

/// The payload that a row's data path alone names, where that cell can be
/// read and the path is not empty.
pub open spec fn payload_of_path(key: Option<Seq<u8>>, row: RowView) -> Option<Seq<char>> {
    match cell_text(key, row.data_path) {
        Some(path) => if path.len() > 0 {
            Some(path)
        } else {
            None
        },
        None => None,
    }
}

/// Some row of the subtree of `root` refers to the payload.
pub open spec fn tree_refers_to(
    rows: Seq<RowView>,
    key: Option<Seq<u8>>,
    root: Seq<char>,
) -> spec_fn(FileView) -> bool {
    |f: FileView|
        exists|i: int|
            0 <= i < rows.len() && in_subtree(rows, root, (#[trigger] rows[i]).id)
                && payload_of_row(key, rows[i]) == Some(f.name)
}

/// Some row with a deletion stamp names the payload.
pub open spec fn bin_refers_to(rows: Seq<RowView>, key: Option<Seq<u8>>) -> spec_fn(
    FileView,
) -> bool {
    |f: FileView|
        exists|i: int|
            0 <= i < rows.len() && (#[trigger] rows[i]).deleted_at is Some && payload_of_path(
                key,
                rows[i],
            ) == Some(f.name)
}

/// Why the data paths of the stamped rows cannot all be read: for the
/// reason that the first of them that cannot be read gives.
pub open spec fn paths_refused(e: Error, key: Option<Seq<u8>>, rows: Seq<RowView>) -> bool {
    exists|i: int|
        {
            &&& 0 <= i < rows.len()
            &&& (#[trigger] rows[i]).deleted_at is Some
            &&& cell_text(key, rows[i].data_path) is None
            &&& cell_refused(e, key, rows[i].data_path)
            &&& forall|k: int|
                0 <= k < i && (#[trigger] rows[k]).deleted_at is Some ==> cell_text(
                    key,
                    rows[k].data_path,
                ) is Some
        }
}

/// What the permanent deletion of the subtree of `id` makes of the store:
/// the rows of the subtree are gone, with the payloads they referred to,
/// whose names are returned; or nothing is changed, the engine being locked
/// or a row of the subtree not being readable.
pub open spec fn permanent_delete_outcome(
    before: StorageView,
    after: StorageView,
    key: Option<Seq<u8>>,
    r: Result<Vec<String>, Error>,
    id: Seq<char>,
) -> bool {
    match r {
        Ok(gone) => {
            &&& key is Some
            &&& forall|i: int|
                0 <= i < before.rows.len() && in_subtree(
                    before.rows,
                    id,
                    (#[trigger] before.rows[i]).id,
                ) ==> row_readable(key, before.rows[i])
            &&& after == (StorageView {
                rows: before.rows.filter(except(in_tree(before.rows, id))),
                files: before.files.filter(except(tree_refers_to(before.rows, key, id))),
                ..before
            })
            &&& gone.deep_view() == names_of(
                before.files.filter(tree_refers_to(before.rows, key, id)),
            )
        },
        Err(e) => {
            &&& after == before
            &&& match key {
                None => e is NotUnlocked,
                Some(_) => read_refused_among(e, key, before.rows, in_tree(before.rows, id)),
            }
        },
    }
}

/// What emptying the recycling bin makes of the store: the stamped rows are
/// gone, with the payloads they named, whose names are returned; or nothing
/// is changed, the engine being locked or the data path of a stamped row
/// not being readable.
pub open spec fn empty_bin_outcome(
    before: StorageView,
    after: StorageView,
    key: Option<Seq<u8>>,
    r: Result<Vec<String>, Error>,
) -> bool {
    match r {
        Ok(gone) => {
            &&& key is Some
            &&& forall|i: int|
                0 <= i < before.rows.len() && (#[trigger] before.rows[i]).deleted_at is Some
                    ==> cell_text(key, before.rows[i].data_path) is Some
            &&& after == (StorageView {
                rows: before.rows.filter(except(is_stamped())),
                files: before.files.filter(except(bin_refers_to(before.rows, key))),
                ..before
            })
            &&& gone.deep_view() == names_of(before.files.filter(bin_refers_to(before.rows, key)))
        },
        Err(e) => {
            &&& after == before
            &&& match key {
                None => e is NotUnlocked,
                Some(_) => paths_refused(e, key, before.rows),
            }
        },
    }
}

/// The names of the payloads.
pub open spec fn names_of(files: Seq<FileView>) -> Seq<Seq<char>> {
    files.map_values(|f: FileView| f.name)
}

/// What is left of rows with distinct ids has distinct ids.
proof fn lemma_kept_rows_distinct(rows: Seq<RowView>, p: spec_fn(RowView) -> bool)
    requires
        distinct_ids(rows),
    ensures
        distinct_ids(rows.filter(p)),
    decreases rows.len(),
{
    reveal(Seq::filter);
    if rows.len() > 0 {
        let init = rows.drop_last();
        let e = rows.last();
        assert(distinct_ids(init)) by {
            assert forall|i: int, j: int| 0 <= i < j < init.len() implies init[i].id != init[j].id by {
                assert(init[i] == rows[i] && init[j] == rows[j]);
            }
        }
        lemma_kept_rows_distinct(init, p);
        assert(rows =~= init.push(e));
        init.lemma_filter_push(e, p);
        let kept = init.filter(p);
        if p(e) {
            assert forall|i: int, j: int| 0 <= i < j < kept.push(e).len() implies kept.push(
                e,
            )[i].id != kept.push(e)[j].id by {
                if j == kept.len() {
                    assert(kept.contains(kept[i]));
                    init.lemma_filter_contains_rev(p, kept[i]);
                    let m = choose|m: int| 0 <= m < init.len() && init[m] == kept[i];
                    assert(rows[m] == kept[i]);
                    assert(rows[rows.len() - 1] == e);
                }
            }
        }
    }
}

/// What is left of payloads with distinct names has distinct names.
proof fn lemma_kept_files_distinct(files: Seq<FileView>, p: spec_fn(FileView) -> bool)
    requires
        distinct_names(files),
    ensures
        distinct_names(files.filter(p)),
    decreases files.len(),
{
    reveal(Seq::filter);
    if files.len() > 0 {
        let init = files.drop_last();
        let e = files.last();
        assert(distinct_names(init)) by {
            assert forall|i: int, j: int| 0 <= i < j < init.len() implies init[i].name
                != init[j].name by {
                assert(init[i] == files[i] && init[j] == files[j]);
            }
        }
        lemma_kept_files_distinct(init, p);
        assert(files =~= init.push(e));
        init.lemma_filter_push(e, p);
        let kept = init.filter(p);
        if p(e) {
            assert forall|i: int, j: int| 0 <= i < j < kept.push(e).len() implies kept.push(
                e,
            )[i].name != kept.push(e)[j].name by {
                if j == kept.len() {
                    assert(kept.contains(kept[i]));
                    init.lemma_filter_contains_rev(p, kept[i]);
                    let m = choose|m: int| 0 <= m < init.len() && init[m] == kept[i];
                    assert(files[m] == kept[i]);
                    assert(files[files.len() - 1] == e);
                }
            }
        }
    }
}

impl Storage {
    /// Sets the deletion stamp of every marked row to a copy of `stamp`.
    fn stamp_marked(
        &mut self,
        marks: &Vec<bool>,
        stamp: &Option<Vec<u8>>,
        Ghost(root): Ghost<Seq<char>>,
    )
        requires
            old(self).wf(),
            marks.len() == old(self)@.rows.len(),
            forall|i: int|
                0 <= i < marks.len() ==> marks[i] == in_subtree(
                    old(self)@.rows,
                    root,
                    #[trigger] old(self)@.rows[i].id,
                ),
        ensures
            final(self).wf(),
            final(self)@ == (StorageView { rows: final(self)@.rows, ..old(self)@ }),
            restamped(old(self)@.rows, final(self)@.rows, root, opt_bytes(*stamp)),
    {
        let ghost before = self@.rows;
        let n: usize = self.rows.len();
        let mut i: usize = 0;
        while i < n
            invariant
                i <= n,
                n == before.len(),
                marks.len() == n,
                self@.rows.len() == n,
                self@ == (StorageView { rows: self@.rows, ..old(self)@ }),
                forall|k: int|
                    0 <= k < n ==> marks[k] == in_subtree(before, root, #[trigger] before[k].id),
                forall|k: int|
                    0 <= k < i ==> #[trigger] self@.rows[k] == if marks[k] {
                        RowView { deleted_at: opt_bytes(*stamp), ..before[k] }
                    } else {
                        before[k]
                    },
                forall|k: int| i <= k < n ==> #[trigger] self@.rows[k] == before[k],
            decreases n - i,
        {
            let ghost rows_then = self@.rows;
            if marks[i] {
                self.rows[i].deleted_at = clone_opt_bytes(stamp);
                assert(self@.rows =~= rows_then.update(
                    i as int,
                    RowView { deleted_at: opt_bytes(*stamp), ..rows_then[i as int] },
                ));
            }
            proof {
                let rows_now = self@.rows;
                assert forall|k: int| 0 <= k < i + 1 implies #[trigger] rows_now[k] == if marks[k] {
                    RowView { deleted_at: opt_bytes(*stamp), ..before[k] }
                } else {
                    before[k]
                } by {
                    if k < i {
                        assert(rows_now[k] == rows_then[k]);
                    }
                }
                assert forall|k: int| i + 1 <= k < n implies #[trigger] rows_now[k] == before[k] by {
                    assert(rows_now[k] == rows_then[k]);
                }
            }
            i += 1;
        }
        proof {
            assert forall|a: int, b: int| 0 <= a < b < n implies self@.rows[a].id
                != self@.rows[b].id by {
                assert(self@.rows[a].id == before[a].id);
                assert(self@.rows[b].id == before[b].id);
            }
        }
    }

    /// Marks `id` and all its transitive children as deleted at `now`. The
    /// instant is sealed once and written into every row of the subtree;
    /// the sealed stamp is returned. Rows that are marked already are
    /// stamped anew.
    ///
    /// Fails, and changes nothing, with `NotUnlocked` where the engine is
    /// locked, else with `Internal` where the instant cannot be sealed.
    pub fn delete_item_and_descendants_at(
        &mut self,
        id: &str,
        now: &Timestamp,
        crypto: &Crypto,
    ) -> (r: Result<Vec<u8>, Error>)
        requires
            old(self).wf(),
            crypto.wf(),
            now.wf(),
        ensures
            final(self).wf(),
            match r {
                Ok(stamp) => {
                    &&& crypto.unlocked()
                    &&& cell_opens(crypto.key().unwrap(), stamp@, encode_utf8(now.text()))
                    &&& final(self)@ == (StorageView { rows: final(self)@.rows, ..old(self)@ })
                    &&& restamped(old(self)@.rows, final(self)@.rows, id@, Some(stamp@))
                },
                Err(e) => {
                    &&& final(self)@ == old(self)@
                    &&& if crypto.unlocked() {
                        e is Internal && !fits(encode_utf8(now.text()))
                    } else {
                        e is NotUnlocked
                    }
                },
            },
    {
        if !crypto.is_unlocked() {
            return Err(Error::NotUnlocked);
        }
        let stamp = seal_instant(now, crypto)?;
        let marks = subtree_marks(&self.rows, id);
        let cell = Some(stamp);
        self.stamp_marked(&marks, &cell, Ghost(id@));
        Ok(cell.unwrap())
    }

    /// Marks `id` and all its transitive children as deleted now.
    ///
    /// Fails, and changes nothing, with `NotUnlocked` where the engine is
    /// locked, else with `Internal` where the instant cannot be sealed.
    pub fn delete_item_and_descendants(&mut self, id: &str, crypto: &Crypto) -> (r: Result<
        (),
        Error,
    >)
        requires
            old(self).wf(),
            crypto.wf(),
        ensures
            final(self).wf(),
            exists|now: Timestamp|
                now.wf() && #[trigger] soft_delete_outcome(
                    old(self)@,
                    final(self)@,
                    crypto.key(),
                    r,
                    id@,
                    now,
                ),
    {
        let now = Timestamp::now();
        let r = match self.delete_item_and_descendants_at(id, &now, crypto) {
            Ok(stamp) => {
                assert(soft_deleted(
                    old(self)@.rows,
                    self@.rows,
                    id@,
                    crypto.key().unwrap(),
                    now,
                    stamp@,
                ));
                Ok(())
            },
            Err(e) => Err(e),
        };
        assert(soft_delete_outcome(old(self)@, self@, crypto.key(), r, id@, now));
        r
    }

    /// Clears the deletion stamp of the row with the id, and of no other
    /// row. Tells whether there is such a row.
    pub fn restore_item(&mut self, id: &str) -> (found: bool)
        requires
            old(self).wf(),
        ensures
            final(self).wf(),
            found == has_id(old(self)@.rows, id@),
            final(self)@ == (StorageView { rows: final(self)@.rows, ..old(self)@ }),
            if found {
                let at = row_index(old(self)@.rows, id@);
                final(self)@.rows == old(self)@.rows.update(
                    at,
                    RowView { deleted_at: None, ..old(self)@.rows[at] },
                )
            } else {
                final(self)@.rows == old(self)@.rows
            },
    {
        match self.find_row(id) {
            Some(i) => {
                let ghost before = self.rows.deep_view();
                self.rows[i].deleted_at = None;
                proof {
                    assert(row_index(before, id@) == i);
                    assert(self.rows.deep_view() =~= before.update(
                        i as int,
                        RowView { deleted_at: None, ..before[i as int] },
                    ));
                    assert forall|a: int, b: int|
                        0 <= a < b < self@.rows.len() implies self@.rows[a].id
                        != self@.rows[b].id by {
                        assert(self@.rows[a].id == before[a].id);
                        assert(self@.rows[b].id == before[b].id);
                    }
                }
                true
            },
            None => false,
        }
    }

    /// Clears the deletion stamp and the parent of the row with the id, and
    /// changes no other row. Tells whether there is such a row.
    pub fn restore_item_to_root(&mut self, id: &str) -> (found: bool)
        requires
            old(self).wf(),
        ensures
            final(self).wf(),
            found == has_id(old(self)@.rows, id@),
            final(self)@ == (StorageView { rows: final(self)@.rows, ..old(self)@ }),
            if found {
                let at = row_index(old(self)@.rows, id@);
                final(self)@.rows == old(self)@.rows.update(
                    at,
                    RowView { deleted_at: None, parent_id: None, ..old(self)@.rows[at] },
                )
            } else {
                final(self)@.rows == old(self)@.rows
            },
    {
        match self.find_row(id) {
            Some(i) => {
                let ghost before = self.rows.deep_view();
                self.rows[i].deleted_at = None;
                self.rows[i].parent_id = None;
                proof {
                    assert(row_index(before, id@) == i);
                    assert(self.rows.deep_view() =~= before.update(
                        i as int,
                        RowView { deleted_at: None, parent_id: None, ..before[i as int] },
                    ));
                    assert forall|a: int, b: int|
                        0 <= a < b < self@.rows.len() implies self@.rows[a].id
                        != self@.rows[b].id by {
                        assert(self@.rows[a].id == before[a].id);
                        assert(self@.rows[b].id == before[b].id);
                    }
                }
                true
            },
            None => false,
        }
    }

    /// Clears the deletion stamp of `id` and of all its transitive children.
    pub fn restore_item_and_descendants(&mut self, id: &str, _crypto: &Crypto)
        requires
            old(self).wf(),
        ensures
            final(self).wf(),
            final(self)@ == (StorageView { rows: final(self)@.rows, ..old(self)@ }),
            restamped(old(self)@.rows, final(self)@.rows, id@, None),
    {
        let marks = subtree_marks(&self.rows, id);
        self.stamp_marked(&marks, &None, Ghost(id@));
    }

    /// Removes the marked rows.
    fn drop_marked_rows(
        &mut self,
        marks: &Vec<bool>,
        Ghost(doomed): Ghost<spec_fn(RowView) -> bool>,
    )
        requires
            old(self).wf(),
            marks.len() == old(self)@.rows.len(),
            forall|i: int|
                0 <= i < marks.len() ==> marks[i] == doomed(#[trigger] old(self)@.rows[i]),
        ensures
            final(self).wf(),
            final(self)@ == (StorageView {
                rows: old(self)@.rows.filter(except(doomed)),
                ..old(self)@
            }),
    {
        let ghost before = self@.rows;
        let ghost keep = except(doomed);
        let mut taken: Vec<StoredRow> = Vec::new();
        std::mem::swap(&mut self.rows, &mut taken);
        let ghost given = taken@;
        assert(taken.deep_view() == before);
        proof {
            reveal(Seq::filter);
            assert(before.take(0).filter(keep) =~= self.rows.deep_view());
        }
        let mut pos: usize = 0;
        for row in it: taken
            invariant
                it.seq() == given,
                pos == it.index(),
                before == Seq::new(given.len(), |i: int| given[i].deep_view()),
                keep == except(doomed),
                marks.len() == before.len(),
                forall|i: int| 0 <= i < marks.len() ==> marks[i] == doomed(#[trigger] before[i]),
                self.rows.deep_view() == before.take(it.index() as int).filter(keep),
                self@ == (StorageView { rows: self@.rows, ..old(self)@ }),
        {
            let ghost idx = it.index() as int;
            let ghost kept = self.rows.deep_view();
            proof {
                before.take(idx).lemma_filter_push(row@, keep);
                assert(before.take(idx).push(row@) =~= before.take(idx + 1));
                assert(before[idx] == row@);
            }
            if !marks[pos] {
                self.rows.push(row);
                assert(self.rows.deep_view() =~= kept.push(row@));
            }
            pos += 1;
        }
        proof {
            assert(before.take(before.len() as int) =~= before);
            lemma_kept_rows_distinct(before, keep);
        }
    }

    /// Removes the payloads whose names are listed, and hands their names back
    /// in the order in which the payloads were stored.
    fn drop_named_files(
        &mut self,
        names: &Vec<String>,
        Ghost(doomed): Ghost<spec_fn(FileView) -> bool>,
    ) -> (gone: Vec<String>)
        requires
            old(self).wf(),
            forall|i: int|
                0 <= i < old(self)@.files.len() ==> names.deep_view().contains(
                    (#[trigger] old(self)@.files[i]).name,
                ) == doomed(old(self)@.files[i]),
        ensures
            final(self).wf(),
            final(self)@ == (StorageView {
                files: old(self)@.files.filter(except(doomed)),
                ..old(self)@
            }),
            gone.deep_view() == names_of(old(self)@.files.filter(doomed)),
    {
        let ghost before = self@.files;
        let ghost keep = except(doomed);
        let mut gone: Vec<String> = Vec::new();
        let mut taken: Vec<PayloadFile> = Vec::new();
        std::mem::swap(&mut self.files, &mut taken);
        let ghost given = taken@;
        assert(taken.deep_view() == before);
        proof {
            reveal(Seq::filter);
            assert(before.take(0).filter(keep) =~= self.files.deep_view());
            assert(names_of(before.take(0).filter(doomed)) =~= gone.deep_view());
        }
        for file in it: taken
            invariant
                it.seq() == given,
                before == Seq::new(given.len(), |i: int| given[i].deep_view()),
                keep == except(doomed),
                forall|i: int|
                    0 <= i < before.len() ==> names.deep_view().contains(
                        (#[trigger] before[i]).name,
                    ) == doomed(before[i]),
                self.files.deep_view() == before.take(it.index() as int).filter(keep),
                gone.deep_view() == names_of(before.take(it.index() as int).filter(doomed)),
                self@ == (StorageView { files: self@.files, ..old(self)@ }),
        {
            let ghost idx = it.index() as int;
            let ghost kept = self.files.deep_view();
            let ghost went = gone.deep_view();
            proof {
                before.take(idx).lemma_filter_push(file@, keep);
                before.take(idx).lemma_filter_push(file@, doomed);
                assert(before.take(idx).push(file@) =~= before.take(idx + 1));
                assert(before[idx] == file@);
            }
            if has_tag(names, &file.name) {
                gone.push(file.name);
                proof {
                    assert(gone.deep_view() =~= went.push(file@.name));
                    assert(names_of(before.take(idx).filter(doomed).push(file@)) =~= names_of(
                        before.take(idx).filter(doomed),
                    ).push(file@.name));
                }
            } else {
                self.files.push(file);
                assert(self.files.deep_view() =~= kept.push(file@));
            }
        }
        proof {
            assert(before.take(before.len() as int) =~= before);
            lemma_kept_files_distinct(before, keep);
        }
        gone
    }

    /// Removes `id` and all its transitive children for good, together with
    /// the payloads that the removed rows refer to. Every row of the subtree
    /// is read first, so that no payload is left behind without a row that
    /// refers to it.
    ///
    /// Returns the names of the removed payloads, so that the files that
    /// held them can be overwritten and unlinked.
    ///
    /// Fails, and changes nothing, with `NotUnlocked` where the engine is
    /// locked, else as `row_to_vault_item` fails on the first row of the
    /// subtree that cannot be read.
    pub fn permanently_delete_item_and_descendants(&mut self, id: &str, crypto: &Crypto) -> (r:
        Result<Vec<String>, Error>)
        requires
            old(self).wf(),
            crypto.wf(),
        ensures
            final(self).wf(),
            permanent_delete_outcome(old(self)@, final(self)@, crypto.key(), r, id@),
    {
        if !crypto.is_unlocked() {
            return Err(Error::NotUnlocked);
        }
        let ghost rv = self@.rows;
        let ghost key = crypto.key();
        let marks = subtree_marks(&self.rows, id);
        let mut paths: Vec<String> = Vec::new();
        let mut i: usize = 0;
        while i < self.rows.len()
            invariant
                i <= self.rows.len(),
                self@ == old(self)@,
                self.wf(),
                rv == self@.rows,
                key == crypto.key(),
                key is Some,
                crypto.wf(),
                marks.len() == rv.len(),
                forall|k: int| 0 <= k < i && marks[k] ==> row_readable(key, #[trigger] rv[k]),
                forall|k: int|
                    0 <= k < rv.len() ==> marks[k] == in_subtree(rv, id@, (#[trigger] rv[k]).id),
                forall|name: Seq<char>| #[trigger]
                    paths.deep_view().contains(name) <==> exists|k: int|
                        0 <= k < i && in_subtree(rv, id@, (#[trigger] rv[k]).id) && payload_of_row(
                            key,
                            rv[k],
                        ) == Some(name),
            decreases self.rows.len() - i,
        {
            let ghost had = paths.deep_view();
            assert(self.rows[i as int]@ == rv[i as int]);
            let mut added: bool = false;
            if marks[i] {
                match row_to_vault_item(&self.rows[i], crypto) {
                    Ok(item) => {
                        if item.data_path.as_str().unicode_len() > 0 {
                            paths.push(item.data_path);
                            added = true;
                        }
                    },
                    Err(e) => {
                        assert(in_tree(rv, id@)(rv[i as int]));
                        return Err(e);
                    },
                }
            }
            proof {
                let now = paths.deep_view();
                if added {
                    assert(now =~= had.push(payload_of_row(key, rv[i as int]).unwrap()));
                } else {
                    assert(now =~= had);
                }
                assert forall|name: Seq<char>| #[trigger]
                    now.contains(name) <==> exists|k: int|
                        0 <= k < i + 1 && in_subtree(rv, id@, (#[trigger] rv[k]).id)
                            && payload_of_row(key, rv[k]) == Some(name) by {
                    if now.contains(name) {
                        let at = choose|at: int| 0 <= at < now.len() && now[at] == name;
                        if at < had.len() {
                            assert(had[at] == name);
                            assert(had.contains(name));
                        } else {
                            assert(in_subtree(rv, id@, rv[i as int].id) && payload_of_row(
                                key,
                                rv[i as int],
                            ) == Some(name));
                        }
                    }
                    if exists|k: int|
                        0 <= k < i + 1 && in_subtree(rv, id@, (#[trigger] rv[k]).id)
                            && payload_of_row(key, rv[k]) == Some(name) {
                        let k = choose|k: int|
                            0 <= k < i + 1 && in_subtree(rv, id@, (#[trigger] rv[k]).id)
                                && payload_of_row(key, rv[k]) == Some(name);
                        if k < i {
                            assert(had.contains(name));
                            let at = choose|at: int| 0 <= at < had.len() && had[at] == name;
                            assert(now[at] == name);
                        } else {
                            assert(now[now.len() - 1] == name);
                        }
                    }
                }
            }
            i += 1;
        }
        let ghost doomed_files = tree_refers_to(rv, key, id@);
        proof {
            assert forall|k: int| 0 <= k < self@.files.len() implies paths.deep_view().contains(
                (#[trigger] self@.files[k]).name,
            ) == doomed_files(self@.files[k]) by {}
            assert forall|k: int| 0 <= k < marks.len() implies marks[k] == in_tree(rv, id@)(
                #[trigger] self@.rows[k],
            ) by {}
        }
        let gone = self.drop_named_files(&paths, Ghost(doomed_files));
        self.drop_marked_rows(&marks, Ghost(in_tree(rv, id@)));
        Ok(gone)
    }

    /// Removes every row that carries a deletion stamp, together with the
    /// payloads that those rows name. Only the data path of such a row is
    /// read, and every one of them is read first, so that no payload is left
    /// behind without a row that names it.
    ///
    /// Returns the names of the removed payloads, so that the files that
    /// held them can be overwritten and unlinked.
    ///
    /// Fails, and changes nothing, with `NotUnlocked` where the engine is
    /// locked, else as `open_text` fails on the data path of the first
    /// stamped row where it cannot be read.
    pub fn permanently_delete_all_deleted_items(&mut self, crypto: &Crypto) -> (r: Result<
        Vec<String>,
        Error,
    >)
        requires
            old(self).wf(),
            crypto.wf(),
        ensures
            final(self).wf(),
            empty_bin_outcome(old(self)@, final(self)@, crypto.key(), r),
    {
        if !crypto.is_unlocked() {
            return Err(Error::NotUnlocked);
        }
        let ghost rv = self@.rows;
        let ghost key = crypto.key();
        let mut marks: Vec<bool> = Vec::new();
        let mut paths: Vec<String> = Vec::new();
        let mut i: usize = 0;
        while i < self.rows.len()
            invariant
                i <= self.rows.len(),
                self@ == old(self)@,
                self.wf(),
                rv == self@.rows,
                key == crypto.key(),
                key is Some,
                crypto.wf(),
                marks.len() == i,
                forall|k: int|
                    0 <= k < i && (#[trigger] rv[k]).deleted_at is Some ==> cell_text(
                        key,
                        rv[k].data_path,
                    ) is Some,
                forall|k: int| 0 <= k < i ==> marks[k] == (#[trigger] rv[k]).deleted_at is Some,
                forall|name: Seq<char>| #[trigger]
                    paths.deep_view().contains(name) <==> exists|k: int|
                        0 <= k < i && (#[trigger] rv[k]).deleted_at is Some && payload_of_path(
                            key,
                            rv[k],
                        ) == Some(name),
            decreases self.rows.len() - i,
        {
            let ghost had = paths.deep_view();
            assert(self.rows[i as int]@ == rv[i as int]);
            let stamped: bool = self.rows[i].deleted_at.is_some();
            marks.push(stamped);
            let mut added: bool = false;
            if stamped {
                match open_text(self.rows[i].data_path.as_slice(), crypto) {
                    Ok(path) => {
                        if path.as_str().unicode_len() > 0 {
                            paths.push(path);
                            added = true;
                        }
                    },
                    Err(e) => {
                        return Err(e);
                    },
                }
            }
            proof {
                let now = paths.deep_view();
                if added {
                    assert(now =~= had.push(payload_of_path(key, rv[i as int]).unwrap()));
                } else {
                    assert(now =~= had);
                }
                assert forall|name: Seq<char>| #[trigger]
                    now.contains(name) <==> exists|k: int|
                        0 <= k < i + 1 && (#[trigger] rv[k]).deleted_at is Some && payload_of_path(
                            key,
                            rv[k],
                        ) == Some(name) by {
                    if now.contains(name) {
                        let at = choose|at: int| 0 <= at < now.len() && now[at] == name;
                        if at < had.len() {
                            assert(had[at] == name);
                            assert(had.contains(name));
                        } else {
                            assert(rv[i as int].deleted_at is Some && payload_of_path(
                                key,
                                rv[i as int],
                            ) == Some(name));
                        }
                    }
                    if exists|k: int|
                        0 <= k < i + 1 && (#[trigger] rv[k]).deleted_at is Some && payload_of_path(
                            key,
                            rv[k],
                        ) == Some(name) {
                        let k = choose|k: int|
                            0 <= k < i + 1 && (#[trigger] rv[k]).deleted_at is Some
                                && payload_of_path(key, rv[k]) == Some(name);
                        if k < i {
                            assert(had.contains(name));
                            let at = choose|at: int| 0 <= at < had.len() && had[at] == name;
                            assert(now[at] == name);
                        } else {
                            assert(now[now.len() - 1] == name);
                        }
                    }
                }
            }
            i += 1;
        }
        let ghost doomed_files = bin_refers_to(rv, key);
        proof {
            assert forall|k: int| 0 <= k < self@.files.len() implies paths.deep_view().contains(
                (#[trigger] self@.files[k]).name,
            ) == doomed_files(self@.files[k]) by {}
            assert forall|k: int| 0 <= k < marks.len() implies marks[k] == is_stamped()(
                #[trigger] self@.rows[k],
            ) by {}
        }
        let gone = self.drop_named_files(&paths, Ghost(doomed_files));
        self.drop_marked_rows(&marks, Ghost(is_stamped()));
        Ok(gone)
    }
}

/// Soft deletion cascades: where one row carries the id that is deleted, a
/// second names it as its parent and a third names the second, all three
/// carry the stamp afterwards.
pub proof fn lemma_soft_delete_cascades(
    before: Seq<RowView>,
    after: Seq<RowView>,
    root: Seq<char>,
    stamp: Seq<u8>,
    a: int,
    b: int,
    c: int,
)
    requires
        restamped(before, after, root, Some(stamp)),
        0 <= a < before.len(),
        0 <= b < before.len(),
        0 <= c < before.len(),
        before[a].id == root,
        before[b].parent_id == Some(root),
        before[c].parent_id == Some(before[b].id),
    ensures
        after[a].deleted_at == Some(stamp),
        after[b].deleted_at == Some(stamp),
        after[c].deleted_at == Some(stamp),
{
    lemma_root_in_subtree(before, root);
    lemma_child_in_subtree(before, root, b, root);
    lemma_child_in_subtree(before, root, c, before[b].id);
}

/// Soft deletion is idempotent but for the stamp: deleting a subtree
/// again leaves the table as one deletion with the later stamp leaves it.
pub proof fn lemma_delete_again_restamps(
    start: Seq<RowView>,
    once: Seq<RowView>,
    twice: Seq<RowView>,
    root: Seq<char>,
    first: Seq<u8>,
    second: Seq<u8>,
)
    requires
        restamped(start, once, root, Some(first)),
        restamped(once, twice, root, Some(second)),
    ensures
        restamped(start, twice, root, Some(second)),
{
    assert(same_forest(start, once)) by {
        assert forall|i: int| 0 <= i < start.len() implies (#[trigger] start[i]).id == once[i].id
            && start[i].parent_id == once[i].parent_id by {
            assert(once[i].id == start[i].id);
        }
    }
    assert forall|i: int| 0 <= i < start.len() implies #[trigger] twice[i] == if in_subtree(
        start,
        root,
        start[i].id,
    ) {
        RowView { deleted_at: Some(second), ..start[i] }
    } else {
        start[i]
    } by {
        lemma_same_forest_same_subtrees(start, once, root, start[i].id);
        assert(once[i].id == start[i].id);
    }
}

/// Permanent deletion cascades: no row of the subtree is left, and no
/// payload that a row of the subtree referred to.
pub proof fn lemma_permanent_delete_cascades(
    rows: Seq<RowView>,
    files: Seq<FileView>,
    key: Option<Seq<u8>>,
    root: Seq<char>,
)
    ensures
        forall|i: int|
            0 <= i < rows.filter(except(in_tree(rows, root))).len() ==> !in_subtree(
                rows,
                root,
                (#[trigger] rows.filter(except(in_tree(rows, root)))[i]).id,
            ),
        forall|j: int|
            0 <= j < files.filter(except(tree_refers_to(rows, key, root))).len()
                ==> !tree_refers_to(rows, key, root)(
                #[trigger] files.filter(except(tree_refers_to(rows, key, root)))[j],
            ),
{
    let keep_rows = except(in_tree(rows, root));
    let keep_files = except(tree_refers_to(rows, key, root));
    assert forall|i: int| 0 <= i < rows.filter(keep_rows).len() implies !in_subtree(
        rows,
        root,
        (#[trigger] rows.filter(keep_rows)[i]).id,
    ) by {
        rows.lemma_filter_pred(keep_rows, i);
    }
    assert forall|j: int| 0 <= j < files.filter(keep_files).len() implies !tree_refers_to(
        rows,
        key,
        root,
    )(#[trigger] files.filter(keep_files)[j]) by {
        files.lemma_filter_pred(keep_files, j);
    }
}

/// Permanent deletion takes the payloads along: where it succeeds, every
/// row of the subtree could be read, no row with the id of one of them is
/// left, no payload that one of them named is left, and each such payload
/// that was there is among the names given back.
pub proof fn lemma_permanent_delete_takes_payloads(
    before: StorageView,
    after: StorageView,
    key: Option<Seq<u8>>,
    gone: Vec<String>,
    root: Seq<char>,
    i: int,
)
    requires
        permanent_delete_outcome(before, after, key, Ok(gone), root),
        0 <= i < before.rows.len(),
        in_subtree(before.rows, root, before.rows[i].id),
    ensures
        decoded_row(key, before.rows[i]) is Some,
        !has_id(after.rows, before.rows[i].id),
        ({
            let path = row_item(key, before.rows[i]).data_path;
            path.len() > 0 ==> {
                &&& !has_file(after.files, path)
                &&& has_file(before.files, path) ==> gone.deep_view().contains(path)
            }
        }),
{
    let rows = before.rows;
    let keep_rows = except(in_tree(rows, root));
    let doomed = tree_refers_to(rows, key, root);
    let keep_files = except(doomed);
    let path = row_item(key, rows[i]).data_path;
    assert(row_readable(key, rows[i]));
    if has_id(after.rows, rows[i].id) {
        let k = row_index(after.rows, rows[i].id);
        rows.lemma_filter_pred(keep_rows, k);
        assert(in_tree(rows, root)(after.rows[k]));
    }
    if path.len() > 0 {
        assert(payload_of_row(key, rows[i]) == Some(path));
        if has_file(after.files, path) {
            let j = file_index(after.files, path);
            before.files.lemma_filter_pred(keep_files, j);
            assert(doomed(after.files[j]));
        }
        if has_file(before.files, path) {
            let j = file_index(before.files, path);
            assert(doomed(before.files[j]));
            before.files.lemma_filter_contains(doomed, j);
            let taken = before.files.filter(doomed);
            let at = choose|at: int| 0 <= at < taken.len() && taken[at] == before.files[j];
            assert(names_of(taken)[at] == path);
        }
    }
}

/// Restoring is not a cascade: after a soft deletion that reached a parent,
/// its child and its grandchild, restoring the child alone leaves the parent
/// and the grandchild deleted, and the child live under the parent it had.
pub proof fn lemma_restore_is_not_a_cascade(
    start: Seq<RowView>,
    deleted: Seq<RowView>,
    restored: Seq<RowView>,
    stamp: Seq<u8>,
    a: int,
    b: int,
    c: int,
)
    requires
        distinct_ids(start),
        0 <= a < start.len(),
        0 <= b < start.len(),
        0 <= c < start.len(),
        start[b].parent_id == Some(start[a].id),
        start[c].parent_id == Some(start[b].id),
        a != b,
        b != c,
        restamped(start, deleted, start[a].id, Some(stamp)),
        restored == deleted.update(
            row_index(deleted, start[b].id),
            RowView { deleted_at: None, ..deleted[row_index(deleted, start[b].id)] },
        ),
    ensures
        restored[a].deleted_at == Some(stamp),
        restored[c].deleted_at == Some(stamp),
        restored[b].deleted_at is None,
        restored[b].parent_id == start[b].parent_id,
{
    lemma_soft_delete_cascades(start, deleted, start[a].id, stamp, a, b, c);
    assert(deleted[b].id == start[b].id);
    let at = row_index(deleted, start[b].id);
    assert(deleted[at].id == start[at].id);
    if at != b {
        if at < b {
            assert(start[at].id != start[b].id);
        } else {
            assert(start[b].id != start[at].id);
        }
    }
}

} // verus!
