//! Rows of the item table: the id and the parent in the clear, every other
//! column sealed on its own.

use vstd::prelude::*;
use vstd::string::StringExecFns;
use vstd::utf8::{decode_utf8, encode_utf8, valid_utf8};
use crate::bytes::copy_bytes;
use crate::crypto::{open_under, Crypto, MAX_PLAINTEXT_LEN};
use crate::error::Error;
use crate::item::{clone_opt_text, ItemView, VaultItem};
use crate::storage::Storage;
use crate::tags::same_tags;
use crate::time::Timestamp;

verus! {

/// One row as it is persisted.
#[derive(Debug)]
pub struct StoredRow {
    pub id: String,
    pub parent_id: Option<String>,
    pub name: Vec<u8>,
    pub item_type: Vec<u8>,
    pub data_path: Vec<u8>,
    pub folder_type: Option<Vec<u8>>,
    pub tags: Vec<u8>,
    pub created_at: Vec<u8>,
    pub updated_at: Vec<u8>,
    pub deleted_at: Option<Vec<u8>>,
    pub totp_secret: Option<Vec<u8>>,
}

/// The mathematical content of a `StoredRow`.
pub struct RowView {
    pub id: Seq<char>,
    pub parent_id: Option<Seq<char>>,
    pub name: Seq<u8>,
    pub item_type: Seq<u8>,
    pub data_path: Seq<u8>,
    pub folder_type: Option<Seq<u8>>,
    pub tags: Seq<u8>,
    pub created_at: Seq<u8>,
    pub updated_at: Seq<u8>,
    pub deleted_at: Option<Seq<u8>>,
    pub totp_secret: Option<Seq<u8>>,
}

/// The view of an optional byte string.
pub open spec fn opt_bytes(cell: Option<Vec<u8>>) -> Option<Seq<u8>> {
    match cell {
        Some(c) => Some(c@),
        None => None,
    }
}

impl DeepView for StoredRow {
    type V = RowView;

    open spec fn deep_view(&self) -> RowView {
        RowView {
            id: self.id@,
            parent_id: self.parent_id.deep_view(),
            name: self.name@,
            item_type: self.item_type@,
            data_path: self.data_path@,
            folder_type: opt_bytes(self.folder_type),
            tags: self.tags@,
            created_at: self.created_at@,
            updated_at: self.updated_at@,
            deleted_at: opt_bytes(self.deleted_at),
            totp_secret: opt_bytes(self.totp_secret),
        }
    }
}

impl View for StoredRow {
    type V = RowView;

    open spec fn view(&self) -> RowView {
        self.deep_view()
    }
}

/// What `serde_json::to_string` writes for a list of strings, or `None`
/// where it reports an error.
pub uninterp spec fn tags_json(tags: Seq<Seq<char>>) -> Option<Seq<char>>;

/// What `serde_json::from_str::<Vec<String>>` reads from a text, or `None`
/// where it rejects the text.
pub uninterp spec fn tags_from_json(text: Seq<char>) -> Option<Seq<Seq<char>>>;

/// The bytes that the sealed columns of an item's row open to.
pub struct PlainColumns {
    pub name: Seq<u8>,
    pub item_type: Seq<u8>,
    pub data_path: Seq<u8>,
    pub folder_type: Option<Seq<u8>>,
    pub tags: Seq<u8>,
    pub created_at: Seq<u8>,
    pub updated_at: Seq<u8>,
    pub deleted_at: Option<Seq<u8>>,
    pub totp_secret: Option<Seq<u8>>,
}

/// The UTF-8 bytes of an optional text.
pub open spec fn opt_utf8(text: Option<Seq<char>>) -> Option<Seq<u8>> {
    match text {
        Some(t) => Some(encode_utf8(t)),
        None => None,
    }
}

/// The column plaintexts of an item: texts as UTF-8, the tags as a JSON
/// array, instants in RFC 3339 form.
pub open spec fn plain_columns(v: ItemView) -> PlainColumns {
    PlainColumns {
        name: encode_utf8(v.name),
        item_type: encode_utf8(v.item_type),
        data_path: encode_utf8(v.data_path),
        folder_type: opt_utf8(v.folder_type),
        tags: encode_utf8(tags_json(v.tags).unwrap()),
        created_at: encode_utf8(v.created_at.text()),
        updated_at: encode_utf8(v.updated_at.text()),
        deleted_at: match v.deleted_at {
            Some(t) => Some(encode_utf8(t.text())),
            None => None,
        },
        totp_secret: opt_utf8(v.totp_secret),
    }
}

/// Whether a plaintext is short enough to be sealed.
pub open spec fn fits(plain: Seq<u8>) -> bool {
    plain.len() <= MAX_PLAINTEXT_LEN
}

/// Whether an optional plaintext is short enough to be sealed.
pub open spec fn opt_fits(plain: Option<Seq<u8>>) -> bool {
    plain matches Some(p) ==> fits(p)
}

/// Whether every column of the item can be sealed.
pub open spec fn columns_fit(v: ItemView) -> bool {
    let p = plain_columns(v);
    &&& fits(p.name)
    &&& fits(p.item_type)
    &&& fits(p.data_path)
    &&& opt_fits(p.folder_type)
    &&& fits(p.tags)
    &&& fits(p.created_at)
    &&& fits(p.updated_at)
    &&& opt_fits(p.deleted_at)
    &&& opt_fits(p.totp_secret)
}

/// Whether an item can be written as a row: its tags serialise and every
/// column can be sealed.
pub open spec fn encodable(v: ItemView) -> bool {
    tags_json(v.tags) is Some && columns_fit(v)
}

/// The sealed cell opens to the plaintext under the key.
pub open spec fn cell_opens(key: Seq<u8>, cell: Seq<u8>, plain: Seq<u8>) -> bool {
    open_under(key, cell) == Some(plain)
}

/// An optional cell is absent with its plaintext, or opens to it.
pub open spec fn opt_cell_opens(
    key: Seq<u8>,
    cell: Option<Seq<u8>>,
    plain: Option<Seq<u8>>,
) -> bool {
    match (cell, plain) {
        (Some(c), Some(p)) => cell_opens(key, c, p),
        (None, None) => true,
        _ => false,
    }
}

/// The row carries the item: the tags serialise, id and parent are the
/// item's, and every sealed column opens under `key` to the item's plaintext
/// for it.
pub open spec fn row_holds(key: Seq<u8>, row: RowView, v: ItemView) -> bool {
    let p = plain_columns(v);
    &&& tags_json(v.tags) is Some
    &&& row.id == v.id
    &&& row.parent_id == v.parent_id
    &&& cell_opens(key, row.name, p.name)
    &&& cell_opens(key, row.item_type, p.item_type)
    &&& cell_opens(key, row.data_path, p.data_path)
    &&& opt_cell_opens(key, row.folder_type, p.folder_type)
    &&& cell_opens(key, row.tags, p.tags)
    &&& cell_opens(key, row.created_at, p.created_at)
    &&& cell_opens(key, row.updated_at, p.updated_at)
    &&& opt_cell_opens(key, row.deleted_at, p.deleted_at)
    &&& opt_cell_opens(key, row.totp_secret, p.totp_secret)
}

/// The text in a sealed cell, or `None` where the cell does not open under the
/// key or does not hold UTF-8. With no key nothing opens.
pub open spec fn cell_text(key: Option<Seq<u8>>, cell: Seq<u8>) -> Option<Seq<char>> {
    match key {
        Some(k) => match open_under(k, cell) {
            Some(bytes) => if valid_utf8(bytes) {
                Some(decode_utf8(bytes))
            } else {
                None
            },
            None => None,
        },
        None => None,
    }
}

/// The instant in a sealed cell, or `None` where the text cannot be had or
/// is no instant.
pub open spec fn cell_instant(key: Option<Seq<u8>>, cell: Seq<u8>) -> Option<Timestamp> {
    match cell_text(key, cell) {
        Some(text) => Timestamp::parsed(text),
        None => None,
    }
}

/// The tags in a sealed cell: what the JSON text holds, no tags where the
/// text is no JSON list of strings, `None` where the text cannot be had.
pub open spec fn cell_tags(key: Option<Seq<u8>>, cell: Seq<u8>) -> Option<Seq<Seq<char>>> {
    match cell_text(key, cell) {
        Some(text) => match tags_from_json(text) {
            Some(tags) => Some(tags),
            None => Some(Seq::empty()),
        },
        None => None,
    }
}

/// Whether an optional cell of a row can be read: it is absent, or, where
/// `empty_is_absent`, empty, or it holds a text.
pub open spec fn opt_cell_readable(
    key: Option<Seq<u8>>,
    cell: Option<Seq<u8>>,
    empty_is_absent: bool,
) -> bool {
    match cell {
        Some(c) => (empty_is_absent && c.len() == 0) || cell_text(key, c) is Some,
        None => true,
    }
}

/// The text of an optional cell that can be read.
pub open spec fn opt_cell_text(
    key: Option<Seq<u8>>,
    cell: Option<Seq<u8>>,
    empty_is_absent: bool,
) -> Option<Seq<char>> {
    match cell {
        Some(c) => if empty_is_absent && c.len() == 0 {
            None
        } else {
            cell_text(key, c)
        },
        None => None,
    }
}

/// Whether the deletion stamp of a row can be read.
pub open spec fn stamp_readable(key: Option<Seq<u8>>, cell: Option<Seq<u8>>) -> bool {
    match cell {
        Some(c) => c.len() == 0 || cell_instant(key, c) is Some,
        None => true,
    }
}

/// The deletion stamp of a row that can be read.
pub open spec fn stamp_instant(key: Option<Seq<u8>>, cell: Option<Seq<u8>>) -> Option<Timestamp> {
    match cell {
        Some(c) => if c.len() == 0 {
            None
        } else {
            cell_instant(key, c)
        },
        None => None,
    }
}

/// Whether every column of the row can be read under the key.
pub open spec fn row_readable(key: Option<Seq<u8>>, row: RowView) -> bool {
    &&& cell_text(key, row.name) is Some
    &&& cell_text(key, row.item_type) is Some
    &&& cell_text(key, row.data_path) is Some
    &&& opt_cell_readable(key, row.folder_type, false)
    &&& cell_tags(key, row.tags) is Some
    &&& cell_instant(key, row.created_at) is Some
    &&& cell_instant(key, row.updated_at) is Some
    &&& stamp_readable(key, row.deleted_at)
    &&& opt_cell_readable(key, row.totp_secret, true)
}

/// The item that a readable row carries.
pub open spec fn row_item(key: Option<Seq<u8>>, row: RowView) -> ItemView {
    ItemView {
        id: row.id,
        parent_id: row.parent_id,
        name: cell_text(key, row.name).unwrap(),
        data_path: cell_text(key, row.data_path).unwrap(),
        item_type: cell_text(key, row.item_type).unwrap(),
        folder_type: opt_cell_text(key, row.folder_type, false),
        tags: cell_tags(key, row.tags).unwrap(),
        created_at: cell_instant(key, row.created_at).unwrap(),
        updated_at: cell_instant(key, row.updated_at).unwrap(),
        deleted_at: stamp_instant(key, row.deleted_at),
        totp_secret: opt_cell_text(key, row.totp_secret, true),
    }
}

/// The item in a row, or `None` where some column cannot be read.
pub open spec fn decoded_row(key: Option<Seq<u8>>, row: RowView) -> Option<ItemView> {
    if row_readable(key, row) {
        Some(row_item(key, row))
    } else {
        None
    }
}

/// Whether an instant, written as text, is read as itself.
pub open spec fn instant_reads_back(t: Timestamp) -> bool {
    Timestamp::parsed(t.text()) == Some(t)
}

/// Whether an item that is written as a row is read from it as itself:
/// its tags and its instants, written as text, are read as they were. The
/// other columns are texts, which always are.
pub open spec fn reads_back(v: ItemView) -> bool {
    &&& tags_json(v.tags) matches Some(text) && match tags_from_json(text) {
        Some(tags) => tags == v.tags,
        None => v.tags.len() == 0,
    }
    &&& instant_reads_back(v.created_at)
    &&& instant_reads_back(v.updated_at)
    &&& v.deleted_at matches Some(t) ==> instant_reads_back(t)
}

/// Whether an optional cell opens under the key: it is absent, or, where
/// `empty_is_absent`, empty, or it opens.
pub open spec fn opt_cell_unseals(key: Seq<u8>, cell: Option<Seq<u8>>, empty_is_absent: bool) -> bool {
    match cell {
        Some(c) => (empty_is_absent && c.len() == 0) || open_under(key, c) is Some,
        None => true,
    }
}

/// Whether every sealed cell of the row opens under the key, whatever the
/// bytes are that it opens to.
pub open spec fn row_opens(key: Seq<u8>, row: RowView) -> bool {
    &&& open_under(key, row.name) is Some
    &&& open_under(key, row.item_type) is Some
    &&& open_under(key, row.data_path) is Some
    &&& opt_cell_unseals(key, row.folder_type, false)
    &&& open_under(key, row.tags) is Some
    &&& open_under(key, row.created_at) is Some
    &&& open_under(key, row.updated_at) is Some
    &&& opt_cell_unseals(key, row.deleted_at, true)
    &&& opt_cell_unseals(key, row.totp_secret, true)
}

/// Why the text of a cell cannot be had: `NotUnlocked` where no key is
/// held, else `DecryptionFailed` where the cell does not open, else
/// `Storage`, what it opens to being no UTF-8.
pub open spec fn cell_refused(e: Error, key: Option<Seq<u8>>, cell: Seq<u8>) -> bool {
    match key {
        None => e is NotUnlocked,
        Some(k) => if open_under(k, cell) is None {
            e is DecryptionFailed
        } else {
            e is Storage && cell_text(key, cell) is None
        },
    }
}

/// Why a row cannot be read: `NotUnlocked` where no key is held, else
/// `DecryptionFailed` where one of its cells does not open, else `Storage`,
/// every cell opening but one of them holding no text or no instant.
pub open spec fn row_refused(e: Error, key: Option<Seq<u8>>, row: RowView) -> bool {
    match key {
        None => e is NotUnlocked,
        Some(k) => if !row_opens(k, row) {
            e is DecryptionFailed
        } else {
            e is Storage && !row_readable(key, row)
        },
    }
}

/// Why the rows that `wanted` picks cannot all be read: for the reason that
/// the first of them that cannot be read gives.
pub open spec fn read_refused_among(
    e: Error,
    key: Option<Seq<u8>>,
    rows: Seq<RowView>,
    wanted: spec_fn(RowView) -> bool,
) -> bool {
    exists|i: int|
        {
            &&& 0 <= i < rows.len()
            &&& wanted(#[trigger] rows[i])
            &&& !row_readable(key, rows[i])
            &&& row_refused(e, key, rows[i])
            &&& forall|k: int| 0 <= k < i && wanted(#[trigger] rows[k]) ==> row_readable(key, rows[k])
        }
}

/// Every row.
pub open spec fn every_row() -> spec_fn(RowView) -> bool {
    |r: RowView| true
}

/// Why the rows cannot all be read: for the reason that the first of them
/// that cannot be read gives.
pub open spec fn read_refused(e: Error, key: Option<Seq<u8>>, rows: Seq<RowView>) -> bool {
    read_refused_among(e, key, rows, every_row())
}

/// Calls `String::from_utf8`, which accepts exactly the valid UTF-8 byte
/// strings and gives the text they encode.
#[verifier::external_body]
fn text_from_utf8(bytes: Vec<u8>) -> (r: Option<String>)
    ensures
        r is Some <==> valid_utf8(bytes@),
        r matches Some(s) ==> s@ == decode_utf8(bytes@),
{
    String::from_utf8(bytes).ok()
}

/// Calls `serde_json::to_string` on the list of tags. The text, or the
/// failure, is named, not described.
#[verifier::external_body]
fn tags_to_json(tags: &Vec<String>) -> (r: Option<String>)
    ensures
        r.deep_view() == tags_json(tags.deep_view()),
{
    serde_json::to_string(tags).ok()
}

/// Calls `serde_json::from_str::<Vec<String>>` on the text. The list, or
/// the refusal, is named, not described.
#[verifier::external_body]
fn tags_of_json(text: &str) -> (r: Option<Vec<String>>)
    ensures
        r.deep_view() == tags_from_json(text@),
{
    serde_json::from_str::<Vec<String>>(text).ok()
}

/// Seals a text.
fn seal_text(text: &str, crypto: &Crypto) -> (r: Result<Vec<u8>, Error>)
    requires
        crypto.wf(),
        crypto.unlocked(),
    ensures
        match r {
            Ok(cell) => fits(encode_utf8(text@)) && cell_opens(
                crypto.key().unwrap(),
                cell@,
                encode_utf8(text@),
            ),
            Err(e) => e is Internal && !fits(encode_utf8(text@)),
        },
{
    crypto.encrypt(text.as_bytes())
}

/// Seals an optional text.
fn seal_opt_text(text: &Option<String>, crypto: &Crypto) -> (r: Result<Option<Vec<u8>>, Error>)
    requires
        crypto.wf(),
        crypto.unlocked(),
    ensures
        match r {
            Ok(cell) => opt_fits(opt_utf8(text.deep_view())) && opt_cell_opens(
                crypto.key().unwrap(),
                opt_bytes(cell),
                opt_utf8(text.deep_view()),
            ),
            Err(e) => e is Internal && !opt_fits(opt_utf8(text.deep_view())),
        },
{
    match text {
        Some(t) => match seal_text(t.as_str(), crypto) {
            Ok(cell) => Ok(Some(cell)),
            Err(e) => Err(e),
        },
        None => Ok(None),
    }
}

/// Seals an instant in its text form. `NotUnlocked` where the engine is
/// locked, else `Internal` where the text is too long to seal.
pub fn seal_instant(t: &Timestamp, crypto: &Crypto) -> (r: Result<Vec<u8>, Error>)
    requires
        crypto.wf(),
        t.wf(),
    ensures
        match r {
            Ok(cell) => crypto.unlocked() && fits(encode_utf8(t.text())) && cell_opens(
                crypto.key().unwrap(),
                cell@,
                encode_utf8(t.text()),
            ),
            Err(e) => if crypto.unlocked() {
                e is Internal && !fits(encode_utf8(t.text()))
            } else {
                e is NotUnlocked
            },
        },
{
    let text = t.to_rfc3339();
    crypto.encrypt(text.as_str().as_bytes())
}

/// Writes an item as a row, sealing every column but the id and the parent
/// under the engine's key, each with a nonce of its own.
///
/// Fails with `Internal` where the tags do not serialise, else with
/// `NotUnlocked` where the engine is locked, else with `Internal` where a
/// column is too long to seal.
pub fn encode_row(item: &VaultItem, crypto: &Crypto) -> (r: Result<StoredRow, Error>)
    requires
        crypto.wf(),
        item@.wf(),
    ensures
        match r {
            Ok(row) => {
                &&& crypto.unlocked()
                &&& encodable(item@)
                &&& row_holds(crypto.key().unwrap(), row@, item@)
            },
            Err(e) => if tags_json(item@.tags) is None {
                e is Internal
            } else if !crypto.unlocked() {
                e is NotUnlocked
            } else {
                e is Internal && !columns_fit(item@)
            },
        },
{
    let json = match tags_to_json(&item.tags) {
        Some(json) => json,
        None => {
            return Err(Error::Internal(String::from_str("the tags could not be serialised")));
        },
    };
    if !crypto.is_unlocked() {
        return Err(Error::NotUnlocked);
    }
    let name = seal_text(item.name.as_str(), crypto)?;
    let item_type = seal_text(item.item_type.as_str(), crypto)?;
    let data_path = seal_text(item.data_path.as_str(), crypto)?;
    let tags = seal_text(json.as_str(), crypto)?;
    let folder_type = seal_opt_text(&item.folder_type, crypto)?;
    let created_at = seal_instant(&item.created_at, crypto)?;
    let updated_at = seal_instant(&item.updated_at, crypto)?;
    let deleted_at = match &item.deleted_at {
        Some(t) => Some(seal_instant(t, crypto)?),
        None => None,
    };
    let totp_secret = seal_opt_text(&item.totp_secret, crypto)?;
    Ok(
        StoredRow {
            id: item.id.clone(),
            parent_id: clone_opt_text(&item.parent_id),
            name,
            item_type,
            data_path,
            folder_type,
            tags,
            created_at,
            updated_at,
            deleted_at,
            totp_secret,
        },
    )
}

/// A `Storage` failure that names the column that could not be read.
fn unreadable(column: &str) -> (e: Error)
    ensures
        e is Storage,
{
    Error::Storage(String::from_str("unreadable column: ").concat(column))
}

/// Opens a sealed cell and reads it as text.
///
/// Fails with `NotUnlocked` where the engine is locked, else with
/// `DecryptionFailed` where the cell does not open, else with `Storage`
/// where it opens to bytes that are no UTF-8.
pub fn open_text(cell: &[u8], crypto: &Crypto) -> (r: Result<String, Error>)
    requires
        crypto.wf(),
    ensures
        match r {
            Ok(text) => cell_text(crypto.key(), cell@) == Some(text@),
            Err(e) => cell_refused(e, crypto.key(), cell@),
        },
{
    let bytes = crypto.decrypt(cell)?;
    match text_from_utf8(bytes) {
        Some(text) => Ok(text),
        None => Err(unreadable("text")),
    }
}

/// Opens an optional cell, where it is there and not empty while an empty
/// one counts as absent.
fn open_opt_cell(cell: &Option<Vec<u8>>, empty_is_absent: bool, crypto: &Crypto) -> (r: Result<
    Option<Vec<u8>>,
    Error,
>)
    requires
        crypto.wf(),
    ensures
        match r {
            Ok(Some(bytes)) => cell matches Some(c) && !(empty_is_absent && c.len() == 0)
                && crypto.opened(c@) == Some(bytes@),
            Ok(None) => match cell {
                Some(c) => empty_is_absent && c.len() == 0,
                None => true,
            },
            Err(e) => cell is Some && if crypto.unlocked() {
                e is DecryptionFailed && !opt_cell_unseals(
                    crypto.key().unwrap(),
                    opt_bytes(*cell),
                    empty_is_absent,
                )
            } else {
                e is NotUnlocked
            },
        },
{
    match cell {
        Some(c) => {
            if empty_is_absent && c.len() == 0 {
                Ok(None)
            } else {
                match crypto.decrypt(c.as_slice()) {
                    Ok(bytes) => Ok(Some(bytes)),
                    Err(e) => Err(e),
                }
            }
        },
        None => Ok(None),
    }
}

/// The text that opened bytes hold, or a `Storage` failure that names the
/// column.
fn text_of(bytes: Vec<u8>, column: &str) -> (r: Result<String, Error>)
    ensures
        match r {
            Ok(text) => valid_utf8(bytes@) && text@ == decode_utf8(bytes@),
            Err(e) => e is Storage && !valid_utf8(bytes@),
        },
{
    match text_from_utf8(bytes) {
        Some(text) => Ok(text),
        None => Err(unreadable(column)),
    }
}

/// The instant that opened bytes hold, or a `Storage` failure that names
/// the column.
fn instant_of(bytes: Vec<u8>, column: &str) -> (r: Result<Timestamp, Error>)
    ensures
        match r {
            Ok(t) => valid_utf8(bytes@) && Timestamp::parsed(decode_utf8(bytes@)) == Some(t)
                && t.wf(),
            Err(e) => e is Storage && !(valid_utf8(bytes@) && Timestamp::parsed(
                decode_utf8(bytes@),
            ) is Some),
        },
{
    let text = text_of(bytes, column)?;
    match Timestamp::parse(text.as_str()) {
        Some(t) => Ok(t),
        None => Err(unreadable(column)),
    }
}

/// Reads the item out of a row. All cells are opened first, and read then.
/// A tag list that is no JSON reads as no tags; an empty deletion stamp or
/// one-time-password secret reads as absent.
///
/// Fails with `NotUnlocked` where the engine is locked, else with
/// `DecryptionFailed` where a cell does not open, else with `Storage` where
/// every cell opens but one holds bytes that are no UTF-8 or a text that is
/// no instant.
pub fn row_to_vault_item(row: &StoredRow, crypto: &Crypto) -> (r: Result<VaultItem, Error>)
    requires
        crypto.wf(),
    ensures
        match r {
            Ok(item) => decoded_row(crypto.key(), row@) == Some(item@) && item@.wf(),
            Err(e) => row_refused(e, crypto.key(), row@) && decoded_row(crypto.key(), row@)
                is None,
        },
{
    let name = crypto.decrypt(row.name.as_slice())?;
    let item_type = crypto.decrypt(row.item_type.as_slice())?;
    let data_path = crypto.decrypt(row.data_path.as_slice())?;
    let folder_type = open_opt_cell(&row.folder_type, false, crypto)?;
    let tags = crypto.decrypt(row.tags.as_slice())?;
    let created_at = crypto.decrypt(row.created_at.as_slice())?;
    let updated_at = crypto.decrypt(row.updated_at.as_slice())?;
    let deleted_at = open_opt_cell(&row.deleted_at, true, crypto)?;
    let totp_secret = open_opt_cell(&row.totp_secret, true, crypto)?;
    assert(row_opens(crypto.key().unwrap(), row@));
    let name = text_of(name, "name")?;
    let item_type = text_of(item_type, "item_type")?;
    let data_path = text_of(data_path, "data_path")?;
    let folder_type = match folder_type {
        Some(bytes) => Some(text_of(bytes, "folder_type")?),
        None => None,
    };
    let tags = match tags_of_json(text_of(tags, "tags")?.as_str()) {
        Some(tags) => tags,
        None => Vec::new(),
    };
    let created_at = instant_of(created_at, "created_at")?;
    let updated_at = instant_of(updated_at, "updated_at")?;
    let deleted_at = match deleted_at {
        Some(bytes) => Some(instant_of(bytes, "deleted_at")?),
        None => None,
    };
    let totp_secret = match totp_secret {
        Some(bytes) => Some(text_of(bytes, "totp_secret")?),
        None => None,
    };
    let item = VaultItem {
        id: row.id.clone(),
        parent_id: clone_opt_text(&row.parent_id),
        name,
        data_path,
        item_type,
        folder_type,
        tags,
        created_at,
        updated_at,
        deleted_at,
        totp_secret,
    };
    proof {
        assert(item@.tags =~= cell_tags(crypto.key(), row@.tags).unwrap());
        assert(item@ == row_item(crypto.key(), row@));
    }
    Ok(item)
}

/// A row that carries an item is read as that item under the key exactly
/// where the item reads back.
pub proof fn lemma_row_reads_back(key: Seq<u8>, row: RowView, v: ItemView)
    requires
        row_holds(key, row, v),
    ensures
        decoded_row(Some(key), row) == Some(v) <==> reads_back(v),
{
    broadcast use vstd::utf8::encode_utf8_valid_utf8, vstd::utf8::encode_utf8_decode_utf8;

    if v.tags.len() == 0 {
        assert(v.tags =~= Seq::empty());
    }
    if decoded_row(Some(key), row) == Some(v) {
        assert(row_item(Some(key), row) == v);
    }
    if reads_back(v) {
        assert(row_readable(Some(key), row));
        assert(row_item(Some(key), row) == v);
    }
}

/// Whether an instant, written as text, is read as itself. One that the
/// vault cannot store is not.
pub fn instant_round_trips(t: &Timestamp) -> (b: bool)
    ensures
        b == instant_reads_back(*t),
{
    match Timestamp::from_parts(t.secs, t.nanos) {
        Some(same) => match Timestamp::parse(same.to_rfc3339().as_str()) {
            Some(back) => back.secs == t.secs && back.nanos == t.nanos,
            None => false,
        },
        None => false,
    }
}

/// Whether an item that is written as a row is read from it as itself.
pub fn item_reads_back(item: &VaultItem) -> (b: bool)
    ensures
        b == reads_back(item@),
{
    let tags_ok = match tags_to_json(&item.tags) {
        Some(text) => match tags_of_json(text.as_str()) {
            Some(back) => same_tags(&back, &item.tags),
            None => {
                assert(item.tags.deep_view().len() == item.tags.len());
                item.tags.len() == 0
            },
        },
        None => false,
    };
    let stamp_ok = match &item.deleted_at {
        Some(t) => instant_round_trips(t),
        None => true,
    };
    tags_ok && instant_round_trips(&item.created_at) && instant_round_trips(&item.updated_at)
        && stamp_ok
}

/// A row that carries an item can be read back, and the texts, the id and
/// the parent come back as they went in.
pub proof fn lemma_row_keeps_texts(key: Seq<u8>, row: RowView, v: ItemView)
    requires
        row_holds(key, row, v),
    ensures
        cell_text(Some(key), row.name) == Some(v.name),
        cell_text(Some(key), row.item_type) == Some(v.item_type),
        cell_text(Some(key), row.data_path) == Some(v.data_path),
        cell_text(Some(key), row.tags) == tags_json(v.tags),
        cell_text(Some(key), row.created_at) == Some(v.created_at.text()),
        cell_text(Some(key), row.updated_at) == Some(v.updated_at.text()),
        opt_cell_readable(Some(key), row.folder_type, false),
        opt_cell_text(Some(key), row.folder_type, false) == v.folder_type,
{
    broadcast use vstd::utf8::encode_utf8_valid_utf8, vstd::utf8::encode_utf8_decode_utf8;

}

impl StoredRow {
    /// A copy of the row.
    pub fn duplicate(&self) -> (c: StoredRow)
        ensures
            c@ == self@,
    {
        StoredRow {
            id: self.id.clone(),
            parent_id: clone_opt_text(&self.parent_id),
            name: copy_bytes(self.name.as_slice()),
            item_type: copy_bytes(self.item_type.as_slice()),
            data_path: copy_bytes(self.data_path.as_slice()),
            folder_type: clone_opt_bytes(&self.folder_type),
            tags: copy_bytes(self.tags.as_slice()),
            created_at: copy_bytes(self.created_at.as_slice()),
            updated_at: copy_bytes(self.updated_at.as_slice()),
            deleted_at: clone_opt_bytes(&self.deleted_at),
            totp_secret: clone_opt_bytes(&self.totp_secret),
        }
    }
}

/// A copy of an optional byte string.
pub fn clone_opt_bytes(cell: &Option<Vec<u8>>) -> (c: Option<Vec<u8>>)
    ensures
        opt_bytes(c) == opt_bytes(*cell),
{
    match cell {
        Some(b) => Some(copy_bytes(b.as_slice())),
        None => None,
    }
}

/// Every row can be read under the key.
pub open spec fn all_readable(key: Option<Seq<u8>>, rows: Seq<RowView>) -> bool {
    forall|i: int| 0 <= i < rows.len() ==> row_readable(key, #[trigger] rows[i])
}

/// The items that readable rows carry, row by row.
pub open spec fn items_of(key: Option<Seq<u8>>, rows: Seq<RowView>) -> Seq<ItemView> {
    rows.map_values(|r: RowView| row_item(key, r))
}

/// The rows that name `parent` as their parent; with `None`, the rows at the root.
pub open spec fn under_parent(parent: Option<Seq<char>>) -> spec_fn(RowView) -> bool {
    |r: RowView| r.parent_id == parent
}

/// Whether the row names `parent` as its parent, or, with `None`, has none.
pub fn has_parent(row: &StoredRow, parent: &Option<String>) -> (b: bool)
    ensures
        b == (row@.parent_id == parent.deep_view()),
{
    match (&row.parent_id, parent) {
        (Some(a), Some(b)) => *a == *b,
        (None, None) => true,
        _ => false,
    }
}

/// Reads the items out of all the rows, in their order. The first row that
/// cannot be read makes the whole call fail, as `row_to_vault_item` fails
/// on it.
pub fn decode_all(rows: &Vec<StoredRow>, crypto: &Crypto) -> (r: Result<Vec<VaultItem>, Error>)
    requires
        crypto.wf(),
    ensures
        match r {
            Ok(items) => {
                &&& all_readable(crypto.key(), rows.deep_view())
                &&& items.deep_view() == items_of(crypto.key(), rows.deep_view())
                &&& forall|i: int| 0 <= i < items.len() ==> (#[trigger] items[i])@.wf()
            },
            Err(e) => read_refused(e, crypto.key(), rows.deep_view()) && !all_readable(
                crypto.key(),
                rows.deep_view(),
            ),
        },
{
    let ghost rv = rows.deep_view();
    let ghost key = crypto.key();
    let mut items: Vec<VaultItem> = Vec::new();
    let mut i: usize = 0;
    while i < rows.len()
        invariant
            i <= rows.len(),
            rv == rows.deep_view(),
            key == crypto.key(),
            crypto.wf(),
            items.len() == i,
            forall|k: int| 0 <= k < i ==> row_readable(key, #[trigger] rv[k]),
            forall|k: int| 0 <= k < i ==> (#[trigger] items[k])@ == row_item(key, rv[k]),
            forall|k: int| 0 <= k < i ==> (#[trigger] items[k])@.wf(),
        decreases rows.len() - i,
    {
        assert(rows[i as int]@ == rv[i as int]);
        match row_to_vault_item(&rows[i], crypto) {
            Ok(item) => {
                items.push(item);
            },
            Err(e) => {
                assert(!row_readable(key, rv[i as int]));
                assert(every_row()(rv[i as int]));
                return Err(e);
            },
        }
        i += 1;
    }
    assert(items.deep_view() =~= items_of(key, rv));
    Ok(items)
}

/// Reads the items out of the rows under `parent`, in their order. The
/// first such row that cannot be read makes the whole call fail, as
/// `row_to_vault_item` fails on it.
pub fn decode_children(rows: &Vec<StoredRow>, parent: &Option<String>, crypto: &Crypto) -> (r:
    Result<Vec<VaultItem>, Error>)
    requires
        crypto.wf(),
    ensures
        match r {
            Ok(items) => {
                &&& all_readable(
                    crypto.key(),
                    rows.deep_view().filter(under_parent(parent.deep_view())),
                )
                &&& items.deep_view() == items_of(
                    crypto.key(),
                    rows.deep_view().filter(under_parent(parent.deep_view())),
                )
                &&& forall|i: int| 0 <= i < items.len() ==> (#[trigger] items[i])@.wf()
            },
            Err(e) => read_refused_among(
                e,
                crypto.key(),
                rows.deep_view(),
                under_parent(parent.deep_view()),
            ) && !all_readable(
                crypto.key(),
                rows.deep_view().filter(under_parent(parent.deep_view())),
            ),
        },
{
    let ghost rv = rows.deep_view();
    let ghost key = crypto.key();
    let ghost sel = under_parent(parent.deep_view());
    let mut items: Vec<VaultItem> = Vec::new();
    let mut i: usize = 0;
    proof {
        reveal(Seq::filter);
        assert(rv.take(0).filter(sel) =~= Seq::<RowView>::empty());
        assert(items.deep_view() =~= items_of(key, rv.take(0).filter(sel)));
    }
    while i < rows.len()
        invariant
            i <= rows.len(),
            rv == rows.deep_view(),
            key == crypto.key(),
            sel == under_parent(parent.deep_view()),
            crypto.wf(),
            all_readable(key, rv.take(i as int).filter(sel)),
            forall|k: int| 0 <= k < i && sel(#[trigger] rv[k]) ==> row_readable(key, rv[k]),
            items.deep_view() == items_of(key, rv.take(i as int).filter(sel)),
            forall|k: int| 0 <= k < items.len() ==> (#[trigger] items[k])@.wf(),
        decreases rows.len() - i,
    {
        let ghost seen = rv.take(i as int);
        let ghost row = rv[i as int];
        proof {
            assert(rows[i as int]@ == row);
            assert(seen.push(row) =~= rv.take(i + 1));
            seen.lemma_filter_push(row, sel);
        }
        if has_parent(&rows[i], parent) {
            match row_to_vault_item(&rows[i], crypto) {
                Ok(item) => {
                    let ghost before = items.deep_view();
                    items.push(item);
                    proof {
                        assert(items.deep_view() =~= before.push(item@));
                        assert(items_of(key, seen.filter(sel).push(row)) =~= items_of(
                            key,
                            seen.filter(sel),
                        ).push(row_item(key, row)));
                    }
                },
                Err(e) => {
                    proof {
                        assert(!row_readable(key, row));
                        assert(rv.filter(sel).contains(row)) by {
                            rv.lemma_filter_contains(sel, i as int);
                        }
                        let at = choose|at: int|
                            0 <= at < rv.filter(sel).len() && rv.filter(sel)[at] == row;
                        assert(!row_readable(key, rv.filter(sel)[at]));
                    }
                    return Err(e);
                },
            }
        }
        i += 1;
    }
    assert(rv.take(rows.len() as int) =~= rv);
    Ok(items)
}

} // verus!
