//! The import of credentials from the rows of a table, as password managers
//! and browsers export them.

use vstd::prelude::*;
use vstd::string::StringExecFns;
use vstd::utf8::encode_utf8;
use crate::error::Error;
use crate::item::{clone_opt_text, ItemView, VaultItem};
use crate::items::{add_refused, fresh_id, payload_stored, row_added};
use crate::storage::StorageView;
use crate::text::{
    blank, chars_of, first_piece, is_blank, lemma_blank_is_trimmed_empty, push_chars, push_str,
    replace_all, replaced, split, split_on, string_of, trim, trim_end, trimmed, trimmed_end,
};
use crate::time::Timestamp;
use crate::vault::{VaultState, VaultView};

verus! {

/// The table to import and the folder to import into.
pub struct CsvImportArgs {
    pub csv_content: String,
    pub parent_id: Option<String>,
}

/// One row of the table. The columns are those of three kinds of export;
/// a row fills the columns of its kind.
pub struct CsvRow {
    pub account: Option<String>,
    pub login_name: Option<String>,
    pub password: Option<String>,
    pub web_site: Option<String>,
    pub comments: Option<String>,
    pub title: Option<String>,
    pub username: Option<String>,
    pub url: Option<String>,
    pub notes: Option<String>,
    pub tags: Option<String>,
    pub url_browser: Option<String>,
    pub username_browser: Option<String>,
    pub password_browser: Option<String>,
    pub name_browser: Option<String>,
    pub hostname_browser: Option<String>,
}

/// What a row gives to import.
#[derive(Debug)]
pub struct ImportedEntry {
    pub name: String,
    pub content: String,
    pub tags: Vec<String>,
}

/// The mathematical content of an `ImportedEntry`.
pub struct ImportedView {
    pub name: Seq<char>,
    pub content: Seq<char>,
    pub tags: Seq<Seq<char>>,
}

impl DeepView for ImportedEntry {
    type V = ImportedView;

    open spec fn deep_view(&self) -> ImportedView {
        ImportedView { name: self.name@, content: self.content@, tags: self.tags.deep_view() }
    }
}

impl View for ImportedEntry {
    type V = ImportedView;

    open spec fn view(&self) -> ImportedView {
        self.deep_view()
    }
}

/// The first of two optional values that is there.
pub open spec fn or_else(a: Option<Seq<char>>, b: Option<Seq<char>>) -> Option<Seq<char>> {
    match a {
        Some(x) => Some(x),
        None => b,
    }
}

/// The host of an address: what stands before the first slash once
/// `https://` and `http://` are taken out.
pub open spec fn host_of(url: Seq<char>) -> Seq<char> {
    split_on(replaced(replaced(url, "https://"@, Seq::empty()), "http://"@, Seq::empty()), '/')[0]
}

/// The address of a row, from the first of the three columns that holds one.
pub open spec fn row_url(row: CsvRow) -> Option<Seq<char>> {
    or_else(or_else(row.web_site.deep_view(), row.url.deep_view()), row.url_browser.deep_view())
}

/// The title of a row: the first of account, title, name and host name that
/// is there, else the host of the row's address.
pub open spec fn row_title(row: CsvRow) -> Option<Seq<char>> {
    match or_else(
        or_else(
            or_else(row.account.deep_view(), row.title.deep_view()),
            row.name_browser.deep_view(),
        ),
        row.hostname_browser.deep_view(),
    ) {
        Some(t) => Some(t),
        None => match row_url(row) {
            Some(url) => Some(host_of(url)),
            None => None,
        },
    }
}

/// One paragraph of the content: the label and the trimmed value, where the
/// value is there and not blank.
pub open spec fn paragraph(label: Seq<char>, value: Option<Seq<char>>) -> Seq<char> {
    match value {
        Some(v) => if blank(v) {
            Seq::empty()
        } else {
            label + trimmed(v) + "\n\n"@
        },
        None => Seq::empty(),
    }
}

/// The content of a row: user name, password, address and notes, each in a
/// paragraph of its own, without white space at the end.
pub open spec fn row_content(row: CsvRow) -> Seq<char> {
    trimmed_end(
        paragraph(
            "Username: "@,
            or_else(
                or_else(row.login_name.deep_view(), row.username.deep_view()),
                row.username_browser.deep_view(),
            ),
        ) + paragraph(
            "Password: "@,
            or_else(row.password.deep_view(), row.password_browser.deep_view()),
        ) + paragraph("URL: "@, row_url(row)) + paragraph(
            "Notes: "@,
            or_else(row.comments.deep_view(), row.notes.deep_view()),
        ),
    )
}

/// The pieces, trimmed, without those that are empty then.
pub open spec fn trimmed_pieces(pieces: Seq<Seq<char>>) -> Seq<Seq<char>>
    decreases pieces.len(),
{
    if pieces.len() == 0 {
        Seq::empty()
    } else {
        let head = trimmed_pieces(pieces.drop_last());
        if blank(pieces.last()) {
            head
        } else {
            head.push(trimmed(pieces.last()))
        }
    }
}

/// The tags of a row: the pieces of its tags column between commas, trimmed,
/// without the empty ones.
pub open spec fn row_tags(row: CsvRow) -> Seq<Seq<char>> {
    trimmed_pieces(
        split_on(
            match row.tags {
                Some(t) => t@,
                None => Seq::empty(),
            },
            ',',
        ),
    )
}

/// What a row gives to import: nothing where it has no title or a blank one,
/// or where its content is blank; else the trimmed title as the name, the
/// content and the tags.
pub open spec fn imported(row: CsvRow) -> Option<ImportedView> {
    match row_title(row) {
        Some(title) => if blank(title) || blank(row_content(row)) {
            None
        } else {
            Some(
                ImportedView {
                    name: trimmed(title),
                    content: row_content(row),
                    tags: row_tags(row),
                },
            )
        },
        None => None,
    }
}

/// The first of two optional texts that is there.
fn first_of<'a>(a: &'a Option<String>, b: &'a Option<String>) -> (r: &'a Option<String>)
    ensures
        r.deep_view() == or_else(a.deep_view(), b.deep_view()),
{
    match a {
        Some(_) => a,
        None => b,
    }
}

/// The host of an address.
pub fn host(url: &str) -> (h: String)
    ensures
        h@ == host_of(url@),
{
    let chars = chars_of(url);
    let secure = chars_of("https://");
    let plain = chars_of("http://");
    let none: Vec<char> = Vec::new();
    proof {
        reveal_strlit("https://");
        reveal_strlit("http://");
    }
    assert(none@ =~= Seq::<char>::empty());
    let a = replace_all(chars.as_slice(), secure.as_slice(), none.as_slice());
    let b = replace_all(a.as_slice(), plain.as_slice(), none.as_slice());
    let first = first_piece(b.as_slice(), '/');
    string_of(first.as_slice())
}

/// Appends one paragraph of the content.
fn push_paragraph(out: &mut Vec<char>, label: &str, value: &Option<String>)
    ensures
        final(out)@ == old(out)@ + paragraph(label@, value.deep_view()),
{
    match value {
        Some(v) => {
            if !is_blank(v.as_str()) {
                let chars = chars_of(v.as_str());
                let kept = trim(chars.as_slice());
                push_str(out, label);
                push_chars(out, kept.as_slice());
                push_str(out, "\n\n");
                assert(final(out)@ =~= old(out)@ + (label@ + trimmed(v@) + "\n\n"@));
            } else {
                assert(final(out)@ =~= old(out)@ + Seq::<char>::empty());
            }
        },
        None => {
            assert(final(out)@ =~= old(out)@ + Seq::<char>::empty());
        },
    }
}

/// The tags in a tags column.
pub fn parse_tags(column: &str) -> (tags: Vec<String>)
    ensures
        tags.deep_view() == trimmed_pieces(split_on(column@, ',')),
{
    let chars = chars_of(column);
    let pieces = split(chars.as_slice(), ',');
    let ghost pv = pieces.deep_view();
    let mut tags: Vec<String> = Vec::new();
    let mut i: usize = 0;
    assert(pv.take(0) =~= Seq::<Seq<char>>::empty());
    assert(tags.deep_view() =~= trimmed_pieces(pv.take(0)));
    while i < pieces.len()
        invariant
            i <= pieces.len(),
            pv == pieces.deep_view(),
            tags.deep_view() == trimmed_pieces(pv.take(i as int)),
        decreases pieces.len() - i,
    {
        let ghost had = tags.deep_view();
        let ghost next = pv.take(i + 1);
        assert(next.drop_last() =~= pv.take(i as int));
        assert(pieces[i as int].deep_view() =~= pieces[i as int]@);
        assert(next.last() == pieces[i as int]@);
        let kept = trim(pieces[i].as_slice());
        proof {
            lemma_blank_is_trimmed_empty(pieces[i as int]@);
        }
        if kept.len() > 0 {
            tags.push(string_of(kept.as_slice()));
            assert(tags.deep_view() =~= had.push(trimmed(pieces[i as int]@)));
        }
        i += 1;
    }
    assert(pv.take(pieces.len() as int) =~= pv);
    tags
}

/// What a row gives to import.
pub fn import_entry(row: &CsvRow) -> (r: Option<ImportedEntry>)
    ensures
        r.deep_view() == imported(*row),
{
    let named = first_of(
        first_of(first_of(&row.account, &row.title), &row.name_browser),
        &row.hostname_browser,
    );
    let address = first_of(first_of(&row.web_site, &row.url), &row.url_browser);
    let title: String = match named {
        Some(t) => t.clone(),
        None => match address {
            Some(url) => host(url.as_str()),
            None => {
                return None;
            },
        },
    };
    assert(row_title(*row) == Some(title@));
    if is_blank(title.as_str()) {
        return None;
    }
    let mut content: Vec<char> = Vec::new();
    push_paragraph(
        &mut content,
        "Username: ",
        first_of(first_of(&row.login_name, &row.username), &row.username_browser),
    );
    push_paragraph(&mut content, "Password: ", first_of(&row.password, &row.password_browser));
    push_paragraph(&mut content, "URL: ", address);
    push_paragraph(&mut content, "Notes: ", first_of(&row.comments, &row.notes));
    let content = trim_end(content.as_slice());
    assert(content@ == row_content(*row));
    let text = string_of(content.as_slice());
    if is_blank(text.as_str()) {
        return None;
    }
    let tags = match &row.tags {
        Some(t) => parse_tags(t.as_str()),
        None => parse_tags(""),
    };
    proof {
        reveal_strlit("");
        assert(""@ =~= Seq::<char>::empty());
    }
    let name_chars = chars_of(title.as_str());
    let name = string_of(trim(name_chars.as_slice()).as_slice());
    Some(ImportedEntry { name, content: text, tags })
}

/// The name of the payload of an imported item: its id and `.txt`.
pub open spec fn import_path(id: Seq<char>) -> Seq<char> {
    id + ".txt"@
}

/// The item that an imported entry becomes.
pub open spec fn imported_item(
    entry: ImportedView,
    parent: Option<Seq<char>>,
    id: Seq<char>,
    now: Timestamp,
) -> ItemView {
    ItemView {
        id,
        parent_id: parent,
        name: entry.name,
        data_path: import_path(id),
        item_type: "key"@,
        folder_type: None,
        tags: entry.tags,
        created_at: now,
        updated_at: now,
        deleted_at: None,
        totp_secret: None,
    }
}

/// `after` is `before` with the entry imported under `id`.
pub open spec fn entry_imported(
    before: StorageView,
    after: StorageView,
    key: Seq<u8>,
    entry: ImportedView,
    parent: Option<Seq<char>>,
    id: Seq<char>,
    now: Timestamp,
) -> bool {
    &&& now.wf()
    &&& row_added(before, after, key, imported_item(entry, parent, id, now))
    &&& payload_stored(before.files, after.files, key, import_path(id), encode_utf8(entry.content))
    &&& after == (StorageView { rows: after.rows, files: after.files, ..before })
}

impl VaultState {
    /// Imports one row under the given id at the instant `now`, as a
    /// credential whose content is stored under the id with `.txt` behind
    /// it. Tells whether the row gave something to import.
    ///
    /// Fails, and changes nothing, with `VaultLocked` where the vault is
    /// locked; else with `Internal` where the content is too long to seal;
    /// else as `Storage::add_item` fails.
    pub fn import_csv_row_with(
        &mut self,
        row: &CsvRow,
        parent_id: &Option<String>,
        id: String,
        now: &Timestamp,
    ) -> (r: Result<bool, Error>)
        requires
            old(self).wf(),
            now.wf(),
        ensures
            final(self).wf(),
            import_outcome(old(self)@, final(self)@, r, *row, parent_id.deep_view(), id@, *now),
    {
        if !self.crypto.is_unlocked() {
            return Err(Error::VaultLocked);
        }
        let entry = match import_entry(row) {
            Some(entry) => entry,
            None => {
                return Ok(false);
            },
        };
        let ghost found = entry@;
        let data_path = id.clone().concat(".txt");
        proof {
            reveal_strlit(".txt");
            assert(data_path@.len() > 0);
        }
        let item = VaultItem {
            id,
            parent_id: clone_opt_text(parent_id),
            name: entry.name,
            data_path,
            item_type: String::from_str("key"),
            folder_type: None,
            tags: entry.tags,
            created_at: *now,
            updated_at: *now,
            deleted_at: None,
            totp_secret: None,
        };
        assert(item@ == imported_item(found, parent_id.deep_view(), id@, *now));
        match self.store_item_with_payload(&item, entry.content.as_str().as_bytes()) {
            Ok(_) => Ok(true),
            Err(e) => Err(e),
        }
    }

    /// Imports one row under a fresh random id, now. Tells whether the row
    /// gave something to import.
    ///
    /// Fails, and changes nothing, with `VaultLocked` where the vault is
    /// locked; else with `Internal` or `Storage` where the new item cannot
    /// be stored.
    pub fn import_csv_row(&mut self, row: &CsvRow, parent_id: &Option<String>) -> (r: Result<
        bool,
        Error,
    >)
        requires
            old(self).wf(),
        ensures
            final(self).wf(),
            exists|id: Seq<char>, now: Timestamp|
                now.wf() && id.len() == 36 && #[trigger] import_outcome(
                    old(self)@,
                    final(self)@,
                    r,
                    *row,
                    parent_id.deep_view(),
                    id,
                    now,
                ),
    {
        let now = Timestamp::now();
        let id = fresh_id();
        let ghost id_view = id@;
        let r = self.import_csv_row_with(row, parent_id, id, &now);
        assert(import_outcome(old(self)@, self@, r, *row, parent_id.deep_view(), id_view, now));
        r
    }
}

/// What importing one row under `id` at `now` makes of the session.
pub open spec fn import_outcome(
    before: VaultView,
    after: VaultView,
    r: Result<bool, Error>,
    row: CsvRow,
    parent: Option<Seq<char>>,
    id: Seq<char>,
    now: Timestamp,
) -> bool {
    &&& after.key == before.key
    &&& match r {
        Ok(done) => {
            &&& before.key is Some
            &&& done == imported(row) is Some
            &&& if done {
                entry_imported(
                    before.storage,
                    after.storage,
                    before.key.unwrap(),
                    imported(row).unwrap(),
                    parent,
                    id,
                    now,
                )
            } else {
                after.storage == before.storage
            }
        },
        Err(e) => {
            &&& after.storage == before.storage
            &&& if before.key is None {
                e is VaultLocked
            } else {
                &&& imported(row) is Some
                &&& if encode_utf8(imported(row).unwrap().content).len()
                    > crate::crypto::MAX_PLAINTEXT_LEN {
                    e is Internal
                } else {
                    add_refused(
                        e,
                        before.storage,
                        imported_item(
                            imported(row).unwrap(),
                            parent,
                            id,
                            now,
                        ),
                    )
                }
            }
        },
    }
}

} // verus!
