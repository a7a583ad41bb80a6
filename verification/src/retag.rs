//! Renaming and removing a tag across the whole store.

use vstd::prelude::*;
use vstd::string::StringExecFns;
use crate::crypto::Crypto;
use crate::error::Error;
use crate::item::ItemView;
use crate::row::{
    all_readable, decode_all, encodable, encode_row, read_refused, row_holds, row_item,
    row_readable, RowView, StoredRow,
};
use crate::storage::{Storage, StorageView};
use crate::tags::{remove_tag, rename_tag, renamed_tags, without_tag};
use crate::time::Timestamp;

verus! {
/// A change to the tag list of every item.
pub enum TagChange {
    /// Write the first tag as the second.
    Rename(String, String),
    /// Take the tag away.
    Remove(String),
}

impl TagChange {
    /// The tag list that the change makes of `tags`.
    pub open spec fn result(self, tags: Seq<Seq<char>>) -> Seq<Seq<char>> {
        match self {
            TagChange::Rename(old, new) => renamed_tags(tags, old@, new@),
            TagChange::Remove(tag) => without_tag(tags, tag@),
        }
    }

    /// Whether the change touches `tags`: a rename where the list comes out
    /// different, a removal where the tag is among them.
    pub open spec fn touches(self, tags: Seq<Seq<char>>) -> bool {
        match self {
            TagChange::Rename(old, new) => renamed_tags(tags, old@, new@) != tags,
            TagChange::Remove(tag) => tags.contains(tag@),
        }
    }

    /// The changed tag list, where the change touches the list.
    pub fn apply(&self, tags: &Vec<String>) -> (r: Option<Vec<String>>)
        ensures
            match r {
                Some(out) => self.touches(tags.deep_view()) && out.deep_view() == self.result(
                    tags.deep_view(),
                ),
                None => !self.touches(tags.deep_view()),
            },
    {
        match self {
            TagChange::Rename(old, new) => rename_tag(tags, old.as_str(), new.as_str()),
            TagChange::Remove(tag) => remove_tag(tags, tag.as_str()),
        }
    }
}

/// The item of a row after a change to its tags at the instant `now`.
pub open spec fn retagged_item(
    key: Option<Seq<u8>>,
    row: RowView,
    change: TagChange,
    now: Timestamp,
) -> ItemView {
    let v = row_item(key, row);
    ItemView { tags: change.result(v.tags), updated_at: now, ..v }
}

/// `after` is `before` after the change: rewritten with the new tags and
/// `now` as the instant of the update where the change touches the row's
/// tags, and the same row where it does not.
pub open spec fn retagged_row(
    key: Option<Seq<u8>>,
    before: RowView,
    after: RowView,
    change: TagChange,
    now: Timestamp,
) -> bool {
    if change.touches(row_item(key, before).tags) {
        key is Some && row_holds(key.unwrap(), after, retagged_item(key, before, change, now))
    } else {
        after == before
    }
}

/// Every row that the change touches can be written again.
pub open spec fn retag_encodable(
    key: Option<Seq<u8>>,
    rows: Seq<RowView>,
    change: TagChange,
    now: Timestamp,
) -> bool {
    forall|i: int|
        0 <= i < rows.len() && change.touches(row_item(key, #[trigger] rows[i]).tags)
            ==> encodable(retagged_item(key, rows[i], change, now))
}

/// `after` is `before` after the change, row by row.
pub open spec fn retagged(
    key: Option<Seq<u8>>,
    before: Seq<RowView>,
    after: Seq<RowView>,
    change: TagChange,
    now: Timestamp,
) -> bool {
    &&& after.len() == before.len()
    &&& forall|i: int|
        0 <= i < before.len() ==> retagged_row(key, before[i], #[trigger] after[i], change, now)
}

/// What a tag change at `now` makes of the store: every row that the
/// change touches is rewritten; or nothing is changed, for the reason that
/// the first row that cannot be read gives, else with `Internal` where a
/// changed item cannot be written.
pub open spec fn retag_outcome(
    before: StorageView,
    after: StorageView,
    key: Option<Seq<u8>>,
    r: Result<(), Error>,
    change: TagChange,
    now: Timestamp,
) -> bool {
    match r {
        Ok(_) => {
            &&& all_readable(key, before.rows)
            &&& retag_encodable(key, before.rows, change, now)
            &&& after == (StorageView { rows: after.rows, ..before })
            &&& retagged(key, before.rows, after.rows, change, now)
        },
        Err(e) => {
            &&& after == before
            &&& if !all_readable(key, before.rows) {
                read_refused(e, key, before.rows)
            } else {
                e is Internal && !retag_encodable(key, before.rows, change, now)
            }
        },
    }
}

/// The renaming of `old_tag` to `new_tag`.
pub open spec fn renames(change: TagChange, old_tag: Seq<char>, new_tag: Seq<char>) -> bool {
    change matches TagChange::Rename(a, b) && a@ == old_tag && b@ == new_tag
}

/// The removal of `tag`.
pub open spec fn removes(change: TagChange, tag: Seq<char>) -> bool {
    change matches TagChange::Remove(a) && a@ == tag
}

impl Storage {
    /// Applies a tag change to every item of the vault at the instant `now`.
    /// All rows are read first and the new rows are sealed before any row is
    /// replaced, so a failure leaves the table as it was.
    ///
    /// Fails as `row_to_vault_item` does on the first row that cannot be
    /// read, else with `Internal` where a changed item cannot be written.
    pub fn change_tags_at(&mut self, change: &TagChange, now: &Timestamp, crypto: &Crypto) -> (r:
        Result<(), Error>)
        requires
            old(self).wf(),
            crypto.wf(),
            now.wf(),
        ensures
            final(self).wf(),
            retag_outcome(old(self)@, final(self)@, crypto.key(), r, *change, *now),
    {
        let ghost before = self@.rows;
        let ghost key = crypto.key();
        let items = decode_all(&self.rows, crypto)?;
        let ghost given = items@;
        let mut staged: Vec<Option<StoredRow>> = Vec::new();
        proof {
            assert(given.len() == items.deep_view().len());
            assert forall|k: int| 0 <= k < given.len() implies (#[trigger] given[k])@ == row_item(
                key,
                before[k],
            ) by {
                assert(given[k]@ == items.deep_view()[k]);
            }
        }
        for item in it: items
            invariant
                it.seq() == given,
                given.len() == before.len(),
                self.wf(),
                key == crypto.key(),
                crypto.wf(),
                now.wf(),
                self@ == old(self)@,
                before == self@.rows,
                all_readable(key, before),
                forall|k: int| 0 <= k < given.len() ==> (#[trigger] given[k])@ == row_item(key, before[k]),
                forall|k: int| 0 <= k < given.len() ==> (#[trigger] given[k])@.wf(),
                staged.len() == it.index(),
                forall|k: int|
                    0 <= k < staged.len() ==> match #[trigger] staged[k] {
                        Some(row) => {
                            &&& change.touches(row_item(key, before[k]).tags)
                            &&& key is Some
                            &&& row_holds(
                                key.unwrap(),
                                row@,
                                retagged_item(key, before[k], *change, *now),
                            )
                        },
                        None => !change.touches(row_item(key, before[k]).tags),
                    },
                forall|k: int|
                    0 <= k < staged.len() && change.touches(row_item(key, #[trigger] before[k]).tags)
                        ==> encodable(retagged_item(key, before[k], *change, *now)),
        {
            let ghost idx = it.index() as int;
            assert(item@ == row_item(key, before[idx]));
            assert(row_readable(key, before[idx]));
            match change.apply(&item.tags) {
                Some(tags) => {
                    let mut item = item;
                    item.tags = tags;
                    item.updated_at = *now;
                    assert(item@ == retagged_item(key, before[idx], *change, *now));
                    match encode_row(&item, crypto) {
                        Ok(row) => {
                            staged.push(Some(row));
                        },
                        Err(e) => {
                            assert(key is Some);
                            assert(!encodable(retagged_item(key, before[idx], *change, *now)));
                            return Err(e);
                        },
                    }
                },
                None => {
                    staged.push(None);
                },
            }
        }
        let ghost planned = staged@;
        let mut pos: usize = 0;
        for slot in it: staged
            invariant
                it.seq() == planned,
                pos == it.index(),
                planned.len() == before.len(),
                self@.rows.len() == before.len(),
                self@ == (StorageView { rows: self@.rows, ..old(self)@ }),
                forall|k: int| 0 <= k < before.len() ==> (#[trigger] self@.rows[k]).id == before[k].id,
                forall|k: int|
                    0 <= k < pos ==> #[trigger] self@.rows[k] == match planned[k] {
                        Some(row) => row@,
                        None => before[k],
                    },
                forall|k: int| pos <= k < before.len() ==> #[trigger] self@.rows[k] == before[k],
                forall|k: int|
                    0 <= k < planned.len() ==> match #[trigger] planned[k] {
                        Some(row) => row@.id == before[k].id,
                        None => true,
                    },
        {
            let ghost rows_then = self@.rows;
            assert(pos < self.rows.len());
            match slot {
                Some(row) => {
                    self.rows[pos] = row;
                    assert(self@.rows =~= rows_then.update(pos as int, row@));
                },
                None => {},
            }
            proof {
                let rows_now = self@.rows;
                assert forall|k: int| 0 <= k < pos + 1 implies #[trigger] rows_now[k]
                    == match planned[k] {
                    Some(row) => row@,
                    None => before[k],
                } by {
                    if k < pos {
                        assert(rows_now[k] == rows_then[k]);
                    }
                }
                assert forall|k: int| pos + 1 <= k < before.len() implies #[trigger] rows_now[k]
                    == before[k] by {
                    assert(rows_now[k] == rows_then[k]);
                }
                assert forall|k: int| 0 <= k < before.len() implies (#[trigger] rows_now[k]).id
                    == before[k].id by {
                    if k != pos {
                        assert(rows_now[k] == rows_then[k]);
                    }
                }
            }
            pos += 1;
        }
        proof {
            assert forall|a: int, b: int| 0 <= a < b < self@.rows.len() implies self@.rows[a].id
                != self@.rows[b].id by {
                assert(self@.rows[a].id == before[a].id);
                assert(self@.rows[b].id == before[b].id);
            }
            assert forall|i: int| 0 <= i < before.len() implies retagged_row(
                key,
                before[i],
                #[trigger] self@.rows[i],
                *change,
                *now,
            ) by {
                assert(planned[i] is Some || planned[i] is None);
            }
        }
        Ok(())
    }

    /// Renames a tag on every item that carries it, at the current instant.
    /// An item that carries the new name already keeps it once. Only items
    /// whose tag list comes out different are written, with the current
    /// instant as the instant of their update.
    ///
    /// Fails, and changes nothing, as `row_to_vault_item` does on the first
    /// row that cannot be read, else with `Internal` where a changed item
    /// cannot be written.
    pub fn rename_tag_in_all_items(&mut self, old_tag: &str, new_tag: &str, crypto: &Crypto) -> (r:
        Result<(), Error>)
        requires
            old(self).wf(),
            crypto.wf(),
        ensures
            final(self).wf(),
            exists|change: TagChange, now: Timestamp|
                renames(change, old_tag@, new_tag@) && now.wf() && #[trigger] retag_outcome(
                    old(self)@,
                    final(self)@,
                    crypto.key(),
                    r,
                    change,
                    now,
                ),
    {
        let change = TagChange::Rename(String::from_str(old_tag), String::from_str(new_tag));
        let now = Timestamp::now();
        let r = self.change_tags_at(&change, &now, crypto);
        assert(retag_outcome(old(self)@, self@, crypto.key(), r, change, now));
        r
    }

    /// Removes a tag from every item that carries it, at the current
    /// instant. Only those items are written, with the current instant as
    /// the instant of their update.
    ///
    /// Fails, and changes nothing, as `row_to_vault_item` does on the first
    /// row that cannot be read, else with `Internal` where a changed item
    /// cannot be written.
    pub fn remove_tag_from_all_items(&mut self, tag_to_remove: &str, crypto: &Crypto) -> (r: Result<
        (),
        Error,
    >)
        requires
            old(self).wf(),
            crypto.wf(),
        ensures
            final(self).wf(),
            exists|change: TagChange, now: Timestamp|
                removes(change, tag_to_remove@) && now.wf() && #[trigger] retag_outcome(
                    old(self)@,
                    final(self)@,
                    crypto.key(),
                    r,
                    change,
                    now,
                ),
    {
        let change = TagChange::Remove(String::from_str(tag_to_remove));
        let now = Timestamp::now();
        let r = self.change_tags_at(&change, &now, crypto);
        assert(retag_outcome(old(self)@, self@, crypto.key(), r, change, now));
        r
    }
}

} // verus!
