//! Sealing the whole store again under another key.

use vstd::prelude::*;
use vstd::string::{StrSliceExecFns, StringExecFns};
use crate::bytes::copy_bytes;
use crate::crypto::{open_under, Crypto};
use crate::error::Error;
use crate::row::{
    all_readable, cell_text, decode_all, decoded_row, encodable, encode_row, fits, item_reads_back,
    items_of, lemma_row_keeps_texts, lemma_row_reads_back, read_refused, reads_back, row_holds,
    row_item, RowView, StoredRow,
};
use crate::storage::{file_index, has_file, FileView, PayloadFile, Storage, StorageView};
use crate::tags::has_tag;

verus! {
/// Some row refers to the payload: the data path of its item is the
/// payload's name.
pub open spec fn rows_refer_to(rows: Seq<RowView>, key: Option<Seq<u8>>) -> spec_fn(
    FileView,
) -> bool {
    |f: FileView|
        f.name.len() > 0 && exists|i: int|
            0 <= i < rows.len() && row_item(key, #[trigger] rows[i]).data_path == f.name
}

/// Every row can be written again.
pub open spec fn all_encodable(key: Option<Seq<u8>>, rows: Seq<RowView>) -> bool {
    forall|i: int| 0 <= i < rows.len() ==> encodable(row_item(key, #[trigger] rows[i]))
}

/// Every item of the rows, written as a row, is read from it as itself.
pub open spec fn all_read_back(key: Option<Seq<u8>>, rows: Seq<RowView>) -> bool {
    forall|i: int| 0 <= i < rows.len() ==> reads_back(row_item(key, #[trigger] rows[i]))
}

/// Every item that names a payload has one.
pub open spec fn payloads_present(v: StorageView, key: Option<Seq<u8>>) -> bool {
    forall|i: int|
        0 <= i < v.rows.len() && row_item(key, #[trigger] v.rows[i]).data_path.len() > 0
            ==> has_file(v.files, row_item(key, v.rows[i]).data_path)
}

/// The sealed bytes that are sealed again: the payloads that rows refer
/// to, and the verification token.
pub open spec fn resealed_cell(v: StorageView, key: Option<Seq<u8>>, cell: Seq<u8>) -> bool {
    ||| v.verification_token == Some(cell)
    ||| exists|j: int|
        0 <= j < v.files.len() && rows_refer_to(v.rows, key)(#[trigger] v.files[j])
            && v.files[j].data == cell
}

/// Every payload that a row refers to opens under the key, and so does
/// the verification token.
pub open spec fn cells_open(v: StorageView, key: Seq<u8>) -> bool {
    forall|cell: Seq<u8>| #[trigger]
        resealed_cell(v, Some(key), cell) ==> open_under(key, cell) is Some
}

/// What the payloads and the token open to is short enough to be sealed.
pub open spec fn cells_fit(v: StorageView, key: Seq<u8>) -> bool {
    forall|cell: Seq<u8>| #[trigger]
        resealed_cell(v, Some(key), cell) && open_under(key, cell) is Some ==> fits(
            open_under(key, cell).unwrap(),
        )
}

/// Why a store cannot be sealed again, both engines holding a key: for the
/// reason that the first row that cannot be read gives; else `Internal`
/// where an item cannot be written again, or would not be read back as it
/// is; else `Storage` where an item names a payload that is not there; else
/// `DecryptionFailed` where such a payload or the token does not open; else
/// `Internal`, what one of them opens to being too long to seal.
pub open spec fn reseal_refused(e: Error, v: StorageView, from: Option<Seq<u8>>) -> bool {
    if !all_readable(from, v.rows) {
        read_refused(e, from, v.rows)
    } else if !all_encodable(from, v.rows) || !all_read_back(from, v.rows) {
        e is Internal
    } else if !payloads_present(v, from) {
        e is Storage
    } else if !cells_open(v, from.unwrap()) {
        e is DecryptionFailed
    } else {
        e is Internal && !cells_fit(v, from.unwrap())
    }
}

/// `after` is `before` sealed under `to` in place of `from`: every row
/// carries the item it carried, every payload that a row refers to opens to
/// what it opened to, and so does the verification token. Payloads that no
/// row refers to are left as they are.
pub open spec fn resealed(
    before: StorageView,
    after: StorageView,
    from: Seq<u8>,
    to: Seq<u8>,
) -> bool {
    &&& after == (StorageView {
        rows: after.rows,
        files: after.files,
        verification_token: after.verification_token,
        ..before
    })
    &&& after.rows.len() == before.rows.len()
    &&& forall|i: int|
        0 <= i < before.rows.len() ==> row_holds(
            to,
            #[trigger] after.rows[i],
            row_item(Some(from), before.rows[i]),
        )
    &&& after.files.len() == before.files.len()
    &&& forall|j: int|
        0 <= j < before.files.len() ==> (#[trigger] after.files[j]).name == before.files[j].name
            && if rows_refer_to(before.rows, Some(from))(before.files[j]) {
            open_under(from, before.files[j].data) is Some && open_under(to, after.files[j].data)
                == open_under(from, before.files[j].data)
        } else {
            after.files[j] == before.files[j]
        }
    &&& match before.verification_token {
        Some(token) => after.verification_token matches Some(sealed) && open_under(from, token)
            is Some && open_under(to, sealed) == open_under(from, token),
        None => after.verification_token is None,
    }
}

/// The paths list the data paths that the rows name.
pub open spec fn lists_paths(
    paths: Seq<Seq<char>>,
    rows: Seq<RowView>,
    key: Option<Seq<u8>>,
) -> bool {
    forall|name: Seq<char>| #[trigger]
        paths.contains(name) <==> name.len() > 0 && exists|k: int|
            0 <= k < rows.len() && row_item(key, #[trigger] rows[k]).data_path == name
}

/// For every payload, what it opens to where a row refers to it, and
/// nothing where none does.
pub open spec fn opened_payloads(
    plains: Seq<Option<Vec<u8>>>,
    v: StorageView,
    key: Option<Seq<u8>>,
) -> bool {
    &&& plains.len() == v.files.len()
    &&& forall|k: int|
        0 <= k < v.files.len() ==> match #[trigger] plains[k] {
            Some(plain) => rows_refer_to(v.rows, key)(v.files[k]) && open_under(
                key.unwrap(),
                v.files[k].data,
            ) == Some(plain@),
            None => !rows_refer_to(v.rows, key)(v.files[k]),
        }
}

/// What the verification token opens to, where there is a token.
pub open spec fn opened_token(
    plain: Option<Vec<u8>>,
    v: StorageView,
    key: Option<Seq<u8>>,
) -> bool {
    match v.verification_token {
        Some(token) => plain matches Some(p) && open_under(key.unwrap(), token) == Some(p@),
        None => plain is None,
    }
}

/// Every row read under `from` and written again under `to`, and the data
/// paths that the items name.
fn reseal_rows(rows: &Vec<StoredRow>, from: &Crypto, to: &Crypto) -> (r: Result<
    (Vec<StoredRow>, Vec<String>),
    Error,
>)
    requires
        from.wf(),
        to.wf(),
        to.unlocked(),
    ensures
        match r {
            Ok((sealed, paths)) => {
                &&& all_readable(from.key(), rows.deep_view())
                &&& all_encodable(from.key(), rows.deep_view())
                &&& all_read_back(from.key(), rows.deep_view())
                &&& sealed.len() == rows.len()
                &&& forall|k: int|
                    0 <= k < rows.len() ==> row_holds(
                        to.key().unwrap(),
                        #[trigger] sealed.deep_view()[k],
                        row_item(from.key(), rows.deep_view()[k]),
                    )
                &&& lists_paths(paths.deep_view(), rows.deep_view(), from.key())
            },
            Err(e) => if !all_readable(from.key(), rows.deep_view()) {
                read_refused(e, from.key(), rows.deep_view())
            } else {
                e is Internal && (!all_encodable(from.key(), rows.deep_view()) || !all_read_back(
                    from.key(),
                    rows.deep_view(),
                ))
            },
        },
{
    let ghost rv = rows.deep_view();
    let ghost fk = from.key();
    let ghost tk = to.key().unwrap();
    let items = decode_all(rows, from)?;
    let n: usize = items.len();
    assert(n == rv.len()) by {
        assert(items.deep_view().len() == items.len());
    }
    let mut sealed: Vec<StoredRow> = Vec::new();
    let mut paths: Vec<String> = Vec::new();
    let mut i: usize = 0;
    while i < n
        invariant
            i <= n,
            n == items.len(),
            n == rv.len(),
            rv == rows.deep_view(),
            fk == from.key(),
            to.wf(),
            to.unlocked(),
            tk == to.key().unwrap(),
            all_readable(fk, rv),
            items.deep_view() == items_of(fk, rv),
            forall|k: int| 0 <= k < n ==> (#[trigger] items[k])@.wf(),
            sealed.len() == i,
            forall|k: int| 0 <= k < i ==> encodable(row_item(fk, #[trigger] rv[k])),
            forall|k: int| 0 <= k < i ==> reads_back(row_item(fk, #[trigger] rv[k])),
            forall|k: int|
                0 <= k < i ==> row_holds(tk, #[trigger] sealed.deep_view()[k], row_item(fk, rv[k])),
            forall|name: Seq<char>| #[trigger]
                paths.deep_view().contains(name) <==> name.len() > 0 && exists|k: int|
                    0 <= k < i && row_item(fk, #[trigger] rv[k]).data_path == name,
        decreases n - i,
    {
        let ghost had = paths.deep_view();
        let ghost done = sealed.deep_view();
        assert(items[i as int]@ == items.deep_view()[i as int]);
        assert(items[i as int]@ == row_item(fk, rv[i as int]));
        if !item_reads_back(&items[i]) {
            return Err(Error::Internal(String::from_str("an item would not be read back as it is")));
        }
        match encode_row(&items[i], to) {
            Ok(row) => {
                sealed.push(row);
                assert(sealed.deep_view() =~= done.push(row@));
            },
            Err(e) => {
                assert(!encodable(row_item(fk, rv[i as int])));
                return Err(e);
            },
        }
        let mut added: bool = false;
        if items[i].data_path.as_str().unicode_len() > 0 {
            paths.push(items[i].data_path.clone());
            added = true;
        }
        proof {
            let now = paths.deep_view();
            let path = row_item(fk, rv[i as int]).data_path;
            if added {
                assert(now =~= had.push(path));
            } else {
                assert(now =~= had);
            }
            lemma_paths_step(had, now, rv, fk, i as int, added);
        }
        i += 1;
    }
    Ok((sealed, paths))
}

/// One more row taken into the list of data paths.
proof fn lemma_paths_step(
    had: Seq<Seq<char>>,
    now: Seq<Seq<char>>,
    rows: Seq<RowView>,
    key: Option<Seq<u8>>,
    i: int,
    added: bool,
)
    requires
        0 <= i < rows.len(),
        forall|name: Seq<char>| #[trigger]
            had.contains(name) <==> name.len() > 0 && exists|k: int|
                0 <= k < i && row_item(key, #[trigger] rows[k]).data_path == name,
        added == (row_item(key, rows[i]).data_path.len() > 0),
        now == if added {
            had.push(row_item(key, rows[i]).data_path)
        } else {
            had
        },
    ensures
        forall|name: Seq<char>| #[trigger]
            now.contains(name) <==> name.len() > 0 && exists|k: int|
                0 <= k < i + 1 && row_item(key, #[trigger] rows[k]).data_path == name,
{
    assert forall|name: Seq<char>| #[trigger]
        now.contains(name) <==> name.len() > 0 && exists|k: int|
            0 <= k < i + 1 && row_item(key, #[trigger] rows[k]).data_path == name by {
        if now.contains(name) {
            let at = choose|at: int| 0 <= at < now.len() && now[at] == name;
            if at < had.len() {
                assert(had[at] == name);
                assert(had.contains(name));
                let k = choose|k: int|
                    0 <= k < i && row_item(key, #[trigger] rows[k]).data_path == name;
                assert(0 <= k < i + 1 && row_item(key, rows[k]).data_path == name);
            } else {
                assert(row_item(key, rows[i]).data_path == name);
            }
        }
        if name.len() > 0 && exists|k: int|
            0 <= k < i + 1 && row_item(key, #[trigger] rows[k]).data_path == name {
            let k = choose|k: int|
                0 <= k < i + 1 && row_item(key, #[trigger] rows[k]).data_path == name;
            if k < i {
                assert(had.contains(name));
                let at = choose|at: int| 0 <= at < had.len() && had[at] == name;
                assert(now[at] == name);
            } else {
                assert(now[now.len() - 1] == name);
            }
        }
    }
}

impl Storage {
    /// Whether every listed payload is stored.
    fn payloads_stored(&self, paths: &Vec<String>) -> (b: bool)
        ensures
            b == (forall|k: int|
                0 <= k < paths.len() ==> has_file(self@.files, #[trigger] paths.deep_view()[k])),
    {
        let mut p: usize = 0;
        while p < paths.len()
            invariant
                p <= paths.len(),
                forall|k: int|
                    0 <= k < p ==> has_file(self@.files, #[trigger] paths.deep_view()[k]),
            decreases paths.len() - p,
        {
            assert(paths[p as int]@ == paths.deep_view()[p as int]);
            if self.find_file(paths[p].as_str()).is_none() {
                return false;
            }
            p += 1;
        }
        true
    }

    /// Opens every payload that is listed, and the verification token.
    fn open_cells(&self, paths: &Vec<String>, from: &Crypto) -> (r: Result<
        (Vec<Option<Vec<u8>>>, Option<Vec<u8>>),
        Error,
    >)
        requires
            from.wf(),
            from.unlocked(),
            lists_paths(paths.deep_view(), self@.rows, from.key()),
        ensures
            match r {
                Ok((plains, token)) => {
                    &&& cells_open(self@, from.key().unwrap())
                    &&& opened_payloads(plains@, self@, from.key())
                    &&& opened_token(token, self@, from.key())
                },
                Err(e) => e is DecryptionFailed && !cells_open(self@, from.key().unwrap()),
            },
    {
        let ghost v = self@;
        let ghost fk = from.key();
        let ghost refers = rows_refer_to(v.rows, fk);
        proof {
            assert forall|k: int| 0 <= k < v.files.len() implies paths.deep_view().contains(
                (#[trigger] v.files[k]).name,
            ) == refers(v.files[k]) by {}
        }
        let m: usize = self.files.len();
        let mut plains: Vec<Option<Vec<u8>>> = Vec::new();
        let mut j: usize = 0;
        while j < m
            invariant
                j <= m,
                m == self.files.len(),
                m == v.files.len(),
                self@ == v,
                from.wf(),
                from.unlocked(),
                fk == from.key(),
                refers == rows_refer_to(v.rows, fk),
                forall|k: int|
                    0 <= k < v.files.len() ==> paths.deep_view().contains(
                        (#[trigger] v.files[k]).name,
                    ) == refers(v.files[k]),
                plains.len() == j,
                forall|k: int|
                    0 <= k < j ==> match #[trigger] plains[k] {
                        Some(plain) => refers(v.files[k]) && open_under(
                            fk.unwrap(),
                            v.files[k].data,
                        ) == Some(plain@),
                        None => !refers(v.files[k]),
                    },
            decreases m - j,
        {
            assert(self.files[j as int]@ == v.files[j as int]);
            if has_tag(paths, &self.files[j].name) {
                match from.decrypt(self.files[j].data.as_slice()) {
                    Ok(plain) => {
                        plains.push(Some(plain));
                    },
                    Err(e) => {
                        proof {
                            assert(resealed_cell(v, fk, v.files[j as int].data));
                        }
                        return Err(e);
                    },
                }
            } else {
                plains.push(None);
            }
            j += 1;
        }
        let token = match &self.verification_token {
            Some(token) => match from.decrypt(token.as_slice()) {
                Ok(plain) => Some(plain),
                Err(e) => {
                    proof {
                        assert(resealed_cell(v, fk, token@));
                    }
                    return Err(e);
                },
            },
            None => None,
        };
        proof {
            assert forall|cell: Seq<u8>| #[trigger] resealed_cell(v, fk, cell) implies open_under(
                fk.unwrap(),
                cell,
            ) is Some by {
                if v.verification_token == Some(cell) {
                } else {
                    let k = choose|k: int|
                        0 <= k < v.files.len() && rows_refer_to(v.rows, fk)(#[trigger] v.files[k])
                            && v.files[k].data == cell;
                    assert(plains[k] is Some);
                }
            }
        }
        Ok((plains, token))
    }

    /// Seals what was opened, and copies the payloads that were not.
    fn seal_cells(
        &self,
        plains: &Vec<Option<Vec<u8>>>,
        token: &Option<Vec<u8>>,
        to: &Crypto,
        Ghost(fk): Ghost<Seq<u8>>,
    ) -> (r: Result<(Vec<PayloadFile>, Option<Vec<u8>>), Error>)
        requires
            self.wf(),
            to.wf(),
            to.unlocked(),
            opened_payloads(plains@, self@, Some(fk)),
            opened_token(*token, self@, Some(fk)),
        ensures
            match r {
                Ok((files, sealed)) => {
                    let v = self@;
                    let tk = to.key().unwrap();
                    &&& files.len() == v.files.len()
                    &&& forall|k: int|
                        0 <= k < v.files.len() ==> (#[trigger] files.deep_view()[k]).name
                            == v.files[k].name && if rows_refer_to(v.rows, Some(fk))(v.files[k]) {
                            open_under(fk, v.files[k].data) is Some && open_under(
                                tk,
                                files.deep_view()[k].data,
                            ) == open_under(fk, v.files[k].data)
                        } else {
                            files.deep_view()[k] == v.files[k]
                        }
                    &&& match v.verification_token {
                        Some(old) => sealed matches Some(new) && open_under(fk, old) is Some
                            && open_under(tk, new@) == open_under(fk, old),
                        None => sealed is None,
                    }
                },
                Err(e) => e is Internal && !cells_fit(self@, fk),
            },
    {
        let ghost v = self@;
        let ghost tk = to.key().unwrap();
        let ghost refers = rows_refer_to(v.rows, Some(fk));
        let m: usize = self.files.len();
        let mut files: Vec<PayloadFile> = Vec::new();
        let mut j: usize = 0;
        while j < m
            invariant
                j <= m,
                m == self.files.len(),
                m == v.files.len(),
                m == plains.len(),
                self@ == v,
                to.wf(),
                to.unlocked(),
                tk == to.key().unwrap(),
                refers == rows_refer_to(v.rows, Some(fk)),
                opened_payloads(plains@, v, Some(fk)),
                files.len() == j,
                forall|k: int|
                    0 <= k < j ==> (#[trigger] files.deep_view()[k]).name == v.files[k].name
                        && if refers(v.files[k]) {
                        open_under(fk, v.files[k].data) is Some && open_under(
                            tk,
                            files.deep_view()[k].data,
                        ) == open_under(fk, v.files[k].data)
                    } else {
                        files.deep_view()[k] == v.files[k]
                    },
            decreases m - j,
        {
            let ghost done = files.deep_view();
            assert(self.files[j as int]@ == v.files[j as int]);
            let data = match &plains[j] {
                Some(plain) => match to.encrypt(plain.as_slice()) {
                    Ok(sealed) => sealed,
                    Err(e) => {
                        proof {
                            assert(resealed_cell(v, Some(fk), v.files[j as int].data));
                            assert(!fits(open_under(fk, v.files[j as int].data).unwrap()));
                        }
                        return Err(e);
                    },
                },
                None => copy_bytes(self.files[j].data.as_slice()),
            };
            let file = PayloadFile { name: self.files[j].name.clone(), data };
            files.push(file);
            assert(files.deep_view() =~= done.push(file@));
            j += 1;
        }
        let sealed = match token {
            Some(plain) => match to.encrypt(plain.as_slice()) {
                Ok(sealed) => Some(sealed),
                Err(e) => {
                    proof {
                        let cell = v.verification_token.unwrap();
                        assert(resealed_cell(v, Some(fk), cell));
                        assert(!fits(open_under(fk, cell).unwrap()));
                    }
                    return Err(e);
                },
            },
            None => None,
        };
        Ok((files, sealed))
    }

    /// Seals the whole vault again, under the key of `to` in place of the
    /// key of `from`: every row, every payload that a row refers to, and the
    /// verification token. Everything is opened, held against what it will
    /// be read as, and sealed before anything is replaced, so a failure
    /// leaves the store as it was, and after a success every row is read
    /// under the new key as the item it was.
    ///
    /// Fails with `NotUnlocked` where one of the engines is locked; else with
    /// the failure of the first row that cannot be read; else with
    /// `Internal` where an item cannot be written again or would not be
    /// read back as it is; else with `Storage` where an item names a payload
    /// that is not there; else with `DecryptionFailed` where such a payload
    /// or the token does not open; else with `Internal` where what one of
    /// them opens to is too long to seal.
    pub fn reencrypt(&mut self, from: &Crypto, to: &Crypto) -> (r: Result<(), Error>)
        requires
            old(self).wf(),
            from.wf(),
            to.wf(),
        ensures
            final(self).wf(),
            match r {
                Ok(_) => {
                    &&& from.unlocked()
                    &&& to.unlocked()
                    &&& all_readable(from.key(), old(self)@.rows)
                    &&& all_encodable(from.key(), old(self)@.rows)
                    &&& all_read_back(from.key(), old(self)@.rows)
                    &&& payloads_present(old(self)@, from.key())
                    &&& resealed(old(self)@, final(self)@, from.key().unwrap(), to.key().unwrap())
                },
                Err(e) => {
                    &&& final(self)@ == old(self)@
                    &&& if !from.unlocked() || !to.unlocked() {
                        e is NotUnlocked
                    } else {
                        reseal_refused(e, old(self)@, from.key())
                    }
                },
            },
    {
        if !from.is_unlocked() || !to.is_unlocked() {
            return Err(Error::NotUnlocked);
        }
        let ghost v = self@;
        let ghost fk = from.key();
        let ghost tk = to.key().unwrap();
        let (rows, paths) = reseal_rows(&self.rows, from, to)?;
        let present: bool = self.payloads_stored(&paths);
        proof {
            if present {
                assert forall|k: int|
                    0 <= k < v.rows.len() && row_item(fk, #[trigger] v.rows[k]).data_path.len()
                        > 0 implies has_file(v.files, row_item(fk, v.rows[k]).data_path) by {
                    let name = row_item(fk, v.rows[k]).data_path;
                    assert(paths.deep_view().contains(name));
                    let at = choose|at: int|
                        0 <= at < paths.deep_view().len() && paths.deep_view()[at] == name;
                }
            } else {
                let at = choose|at: int|
                    0 <= at < paths.len() && !has_file(v.files, #[trigger] paths.deep_view()[at]);
                let name = paths.deep_view()[at];
                assert(paths.deep_view().contains(name));
                let k = choose|k: int|
                    0 <= k < v.rows.len() && row_item(fk, #[trigger] v.rows[k]).data_path == name;
                assert(!has_file(v.files, row_item(fk, v.rows[k]).data_path));
            }
        }
        if !present {
            return Err(
                Error::Storage(String::from_str("an item names a payload that is not there")),
            );
        }
        let (plains, token_plain) = self.open_cells(&paths, from)?;
        let (files, token) = self.seal_cells(&plains, &token_plain, to, Ghost(fk.unwrap()))?;
        self.rows = rows;
        self.files = files;
        self.verification_token = token;
        proof {
            let after = self@;
            assert forall|a: int, b: int| 0 <= a < b < after.rows.len() implies after.rows[a].id
                != after.rows[b].id by {
                assert(after.rows[a].id == v.rows[a].id);
                assert(after.rows[b].id == v.rows[b].id);
            }
            assert forall|a: int, b: int| 0 <= a < b < after.files.len() implies after.files[a].name
                != after.files[b].name by {
                assert(after.files[a].name == v.files[a].name);
                assert(after.files[b].name == v.files[b].name);
            }
        }
        Ok(())
    }
}

/// A key rotation keeps every item: each row is read under the new key as
/// the item that it was read as under the old one.
pub proof fn lemma_rotation_keeps_items(
    before: StorageView,
    after: StorageView,
    from: Seq<u8>,
    to: Seq<u8>,
    i: int,
)
    requires
        resealed(before, after, from, to),
        all_readable(Some(from), before.rows),
        all_read_back(Some(from), before.rows),
        0 <= i < before.rows.len(),
    ensures
        after.rows[i].id == before.rows[i].id,
        decoded_row(Some(to), after.rows[i]) == decoded_row(Some(from), before.rows[i]),
        decoded_row(Some(to), after.rows[i]) is Some,
{
    lemma_row_reads_back(to, after.rows[i], row_item(Some(from), before.rows[i]));
}

/// A key rotation keeps every content: the payload that an item names
/// opens under the new key to what it opened to under the old one, and the
/// item's row still names it.
pub proof fn lemma_rotation_keeps_content(
    before: StorageView,
    after: StorageView,
    from: Seq<u8>,
    to: Seq<u8>,
    i: int,
)
    requires
        before.wf(),
        resealed(before, after, from, to),
        all_readable(Some(from), before.rows),
        0 <= i < before.rows.len(),
        row_item(Some(from), before.rows[i]).data_path.len() > 0,
        has_file(before.files, row_item(Some(from), before.rows[i]).data_path),
    ensures
        ({
            let path = row_item(Some(from), before.rows[i]).data_path;
            &&& cell_text(Some(to), after.rows[i].data_path) == Some(path)
            &&& has_file(after.files, path)
            &&& open_under(from, before.payload(path)) is Some
            &&& open_under(to, after.payload(path)) == open_under(from, before.payload(path))
        }),
{
    let item = row_item(Some(from), before.rows[i]);
    let path = item.data_path;
    lemma_row_keeps_texts(to, after.rows[i], item);
    assert(has_file(before.files, path));
    let j = file_index(before.files, path);
    assert(rows_refer_to(before.rows, Some(from))(before.files[j]));
    assert(after.files[j].name == path);
    let k = file_index(after.files, path);
    assert(after.files[k].name == before.files[k].name);
    if k != j {
        if k < j {
            assert(before.files[k].name != before.files[j].name);
        } else {
            assert(before.files[j].name != before.files[k].name);
        }
    }
}

} // verus!
