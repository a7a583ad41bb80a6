//! The operations of the session on items: adding, updating, reading,
//! listing, deleting and restoring them, and the tags across the vault.

use vstd::prelude::*;
use vstd::string::{StrSliceExecFns, StringExecFns};
use vstd::utf8::encode_utf8;
use crate::cascade::{empty_bin_outcome, permanent_delete_outcome, soft_delete_outcome};
use crate::crypto::open_under;
use crate::error::{invalid_input, Error};
use crate::item::{clone_opt_text, clone_texts, same_text, ItemView, SortOrder, VaultItem};
use crate::listing::{is_listing_of, lemma_filter_keeps_listing};
use crate::retag::{removes, renames, retag_outcome, TagChange};
use crate::row::{
    all_readable, decode_all, decoded_row, encodable, items_of, read_refused, read_refused_among,
    row_holds, row_refused, under_parent, RowView,
};
use crate::storage::{
    file_index, has_file, has_id, order_or_default, row_index, FileView, Storage, StorageView,
};
use crate::tags::{carried_by, collect_tags, strictly_sorted};
use crate::text::{blank, is_blank};
use crate::time::Timestamp;
use crate::validate::{
    check_file_path, check_folder_name, check_item_update, check_text_item, file_path_fault,
    first_fault, folder_name_fault, item_update_fault, text_item_fault,
};
use crate::vault::{VaultState, VaultView};

verus! {

/// The fields of a new text item.
pub struct AddTextItemArgs {
    pub name: String,
    pub content: String,
    pub item_type: String,
    pub tags: Vec<String>,
    pub parent_id: Option<String>,
    pub totp_secret: Option<String>,
}

/// The fields of a new file item.
pub struct AddFileItemArgs {
    pub name: String,
    pub file_path: String,
    pub tags: Vec<String>,
    pub parent_id: Option<String>,
}

/// The fields of a new folder.
pub struct AddFolderArgs {
    pub name: String,
    pub parent_id: Option<String>,
    pub folder_type: Option<String>,
}

/// The new fields of an item.
pub struct UpdateItemArgs {
    pub id: String,
    pub name: String,
    pub content: String,
    pub item_type: String,
    pub tags: Vec<String>,
    pub parent_id: Option<String>,
    pub totp_secret: Option<String>,
}

/// The old and the new name of a tag.
pub struct RenameTagArgs {
    pub old_tag_name: String,
    pub new_tag_name: String,
}

/// The tag to remove.
pub struct DeleteTagArgs {
    pub tag_name: String,
}

/// The type under which a text item is stored: `text` is written out as
/// `text/plain`, every other type is kept.
pub open spec fn stored_type(item_type: Seq<char>) -> Seq<char> {
    if item_type == "text"@ {
        "text/plain"@
    } else {
        item_type
    }
}

/// Whether items of the type carry their content as text: the types
/// `text`, `key` and `text/plain`.
pub open spec fn carries_text(item_type: Seq<char>) -> bool {
    item_type == "text"@ || item_type == "key"@ || item_type == "text/plain"@
}

/// What `mime_guess::from_ext(..).first_or_octet_stream()` gives for a file
/// extension, written out as text.
pub uninterp spec fn guessed_mime(extension: Seq<char>) -> Seq<char>;

/// The type under which a file with the extension is stored: what is
/// guessed for the extension, `application/octet-stream` for none.
pub open spec fn file_type(extension: Option<Seq<char>>) -> Seq<char> {
    match extension {
        Some(ext) => guessed_mime(ext),
        None => "application/octet-stream"@,
    }
}

/// The text item that the fields describe.
pub open spec fn text_item(
    args: AddTextItemArgs,
    id: Seq<char>,
    data_path: Seq<char>,
    now: Timestamp,
) -> ItemView {
    ItemView {
        id,
        parent_id: args.parent_id.deep_view(),
        name: args.name@,
        data_path,
        item_type: stored_type(args.item_type@),
        folder_type: None,
        tags: args.tags.deep_view(),
        created_at: now,
        updated_at: now,
        deleted_at: None,
        totp_secret: args.totp_secret.deep_view(),
    }
}

/// The file item that the fields describe.
pub open spec fn file_item(
    args: AddFileItemArgs,
    extension: Option<Seq<char>>,
    id: Seq<char>,
    data_path: Seq<char>,
    now: Timestamp,
) -> ItemView {
    ItemView {
        id,
        parent_id: args.parent_id.deep_view(),
        name: args.name@,
        data_path,
        item_type: file_type(extension),
        folder_type: None,
        tags: args.tags.deep_view(),
        created_at: now,
        updated_at: now,
        deleted_at: None,
        totp_secret: None,
    }
}

/// The folder that the fields describe.
pub open spec fn folder_item(args: AddFolderArgs, id: Seq<char>, now: Timestamp) -> ItemView {
    ItemView {
        id,
        parent_id: args.parent_id.deep_view(),
        name: args.name@,
        data_path: Seq::empty(),
        item_type: "folder"@,
        folder_type: args.folder_type.deep_view(),
        tags: Seq::empty(),
        created_at: now,
        updated_at: now,
        deleted_at: None,
        totp_secret: None,
    }
}

/// The item after an update: id, parent, name, type and tags as given, the
/// one-time-password secret as given or else as it was, everything else as
/// it was, and `now` as the instant of the update.
pub open spec fn updated_item(
    args: UpdateItemArgs,
    existing: ItemView,
    now: Timestamp,
) -> ItemView {
    ItemView {
        id: args.id@,
        parent_id: args.parent_id.deep_view(),
        name: args.name@,
        data_path: existing.data_path,
        item_type: args.item_type@,
        folder_type: existing.folder_type,
        tags: args.tags.deep_view(),
        created_at: existing.created_at,
        updated_at: now,
        deleted_at: existing.deleted_at,
        totp_secret: match args.totp_secret {
            Some(secret) => Some(secret@),
            None => existing.totp_secret,
        },
    }
}

/// `after` is `before` with one more row, which carries `item`.
pub open spec fn row_added(
    before: StorageView,
    after: StorageView,
    key: Seq<u8>,
    item: ItemView,
) -> bool {
    &&& !has_id(before.rows, item.id)
    &&& after.rows.len() == before.rows.len() + 1
    &&& after.rows.drop_last() == before.rows
    &&& row_holds(key, after.rows.last(), item)
}

/// `after` is `before` with a payload under `name` that opens to `plain`,
/// in place of any payload of that name before.
pub open spec fn payload_stored(
    before: Seq<FileView>,
    after: Seq<FileView>,
    key: Seq<u8>,
    name: Seq<char>,
    plain: Seq<u8>,
) -> bool {
    &&& has_file(after, name)
    &&& open_under(key, after[file_index(after, name)].data) == Some(plain)
    &&& if has_file(before, name) {
        after == before.update(file_index(before, name), after[file_index(after, name)])
    } else {
        after == before.push(after[file_index(after, name)])
    }
}

/// What asking a session for the content of the item with the id gives:
/// what the payload that the item names opens to under the session's key;
/// or `VaultLocked` where the session holds no key, else `ItemNotFound`
/// where no row carries the id, else the failure to read the row, else
/// `Storage` where the item has no payload, else `DecryptionFailed` where
/// the payload does not open.
pub open spec fn content_outcome(v: VaultView, r: Result<Vec<u8>, Error>, id: Seq<char>) -> bool {
    let item = decoded_row(v.key, v.storage.row(id)).unwrap();
    match r {
        Ok(content) => {
            &&& v.key is Some
            &&& has_id(v.storage.rows, id)
            &&& decoded_row(v.key, v.storage.row(id)) is Some
            &&& has_file(v.storage.files, item.data_path)
            &&& open_under(v.key.unwrap(), v.storage.payload(item.data_path)) == Some(content@)
        },
        Err(e) => if v.key is None {
            e is VaultLocked
        } else if !has_id(v.storage.rows, id) {
            e matches Error::ItemNotFound(text) && text@ == id
        } else if decoded_row(v.key, v.storage.row(id)) is None {
            row_refused(e, v.key, v.storage.row(id))
        } else if !has_file(v.storage.files, item.data_path) {
            e is Storage
        } else {
            e is DecryptionFailed && open_under(
                v.key.unwrap(),
                v.storage.payload(item.data_path),
            ) is None
        },
    }
}

/// Why an item cannot be added, the store and the engine being what they
/// are: `Internal` where it cannot be written as a row, `Storage` where
/// its id is taken.
pub open spec fn add_refused(e: Error, before: StorageView, item: ItemView) -> bool {
    if !encodable(item) {
        e is Internal
    } else {
        e is Storage && has_id(before.rows, item.id)
    }
}

/// What is wrong with a new file item, if anything: the fault of its name,
/// else of its tags, else of the path it is read from.
pub open spec fn file_item_fault(args: AddFileItemArgs) -> Option<Seq<char>> {
    first_fault(
        item_update_fault(args.name@, args.tags.deep_view()),
        file_path_fault(args.file_path@),
    )
}

/// `after` is `before` with the file item of `args` added under `id`, its
/// content stored under `data_path`, both sealed under `key`.
pub open spec fn file_item_added(
    before: StorageView,
    after: StorageView,
    key: Seq<u8>,
    args: AddFileItemArgs,
    extension: Option<Seq<char>>,
    content: Seq<u8>,
    id: Seq<char>,
    data_path: Seq<char>,
    now: Timestamp,
) -> bool {
    &&& now.wf()
    &&& data_path.len() > 0
    &&& row_added(before, after, key, file_item(args, extension, id, data_path, now))
    &&& payload_stored(before.files, after.files, key, data_path, content)
    &&& after == (StorageView { rows: after.rows, files: after.files, ..before })
}

/// `after` is `before` with the folder of `args` added under `id`.
pub open spec fn folder_added(
    before: StorageView,
    after: StorageView,
    key: Seq<u8>,
    args: AddFolderArgs,
    id: Seq<char>,
    now: Timestamp,
) -> bool {
    &&& now.wf()
    &&& row_added(before, after, key, folder_item(args, id, now))
    &&& after == (StorageView { rows: after.rows, ..before })
}

/// The view of an optional borrowed text.
pub open spec fn opt_str_view(text: Option<&str>) -> Option<Seq<char>> {
    match text {
        Some(t) => Some(t@),
        None => None,
    }
}

/// The items that carry a deletion stamp.
pub open spec fn is_deleted() -> spec_fn(ItemView) -> bool {
    |v: ItemView| v.deleted_at is Some
}

/// `after` is `before` with the row of `item` rewritten, and with `content`
/// stored under the item's data path where `content` is given.
pub open spec fn item_rewritten(
    before: StorageView,
    after: StorageView,
    key: Seq<u8>,
    item: ItemView,
    content: Option<Seq<u8>>,
) -> bool {
    let at = row_index(before.rows, item.id);
    &&& has_id(before.rows, item.id)
    &&& after.rows == before.rows.update(at, after.rows[at])
    &&& row_holds(key, after.rows[at], item)
    &&& match content {
        Some(plain) => payload_stored(before.files, after.files, key, item.data_path, plain),
        None => after.files == before.files,
    }
    &&& after == (StorageView { rows: after.rows, files: after.files, ..before })
}

/// What adding the text item of `args` under `id`, with its content under
/// `data_path`, at `now` makes of the session.
pub open spec fn add_text_item_outcome(
    before: VaultView,
    after: VaultView,
    r: Result<(), Error>,
    args: AddTextItemArgs,
    id: Seq<char>,
    data_path: Seq<char>,
    now: Timestamp,
) -> bool {
    &&& after.key == before.key
    &&& match r {
        Ok(_) => {
            let key = before.key.unwrap();
            let item = text_item(args, id, data_path, now);
            &&& text_item_fault(args.name@, args.content@, args.tags.deep_view()) is None
            &&& before.key is Some
            &&& data_path.len() > 0
            &&& encodable(item)
            &&& row_added(before.storage, after.storage, key, item)
            &&& payload_stored(
                before.storage.files,
                after.storage.files,
                key,
                data_path,
                encode_utf8(args.content@),
            )
            &&& after.storage == (StorageView {
                rows: after.storage.rows,
                files: after.storage.files,
                ..before.storage
            })
        },
        Err(e) => {
            let fault = text_item_fault(args.name@, args.content@, args.tags.deep_view());
            &&& after.storage == before.storage
            &&& if fault is Some {
                e matches Error::InvalidInput(text) && fault == Some(text@)
            } else if before.key is None {
                e is VaultLocked
            } else if data_path.len() == 0 {
                e is Storage
            } else {
                add_refused(
                    e,
                    before.storage,
                    text_item(args, id, data_path, now),
                )
            }
        },
    }
}

/// What adding the file item of `args` with the given content under `id`,
/// with its content under `data_path`, at `now` makes of the session.
pub open spec fn add_file_item_outcome(
    before: VaultView,
    after: VaultView,
    r: Result<(), Error>,
    args: AddFileItemArgs,
    extension: Option<Seq<char>>,
    content: Seq<u8>,
    id: Seq<char>,
    data_path: Seq<char>,
    now: Timestamp,
) -> bool {
    &&& after.key == before.key
    &&& match r {
        Ok(_) => {
            &&& file_item_fault(args) is None
            &&& before.key is Some
            &&& file_item_added(
                before.storage,
                after.storage,
                before.key.unwrap(),
                args,
                extension,
                content,
                id,
                data_path,
                now,
            )
        },
        Err(e) => {
            let fault = file_item_fault(args);
            &&& after.storage == before.storage
            &&& if fault is Some {
                e matches Error::InvalidInput(text) && fault == Some(text@)
            } else if before.key is None {
                e is VaultLocked
            } else if data_path.len() == 0 {
                e is Storage
            } else if content.len() > crate::crypto::MAX_PLAINTEXT_LEN {
                e is Internal
            } else {
                add_refused(
                    e,
                    before.storage,
                    file_item(args, extension, id, data_path, now),
                )
            }
        },
    }
}

/// What adding the folder of `args` under `id` at `now` makes of the session.
pub open spec fn add_folder_outcome(
    before: VaultView,
    after: VaultView,
    r: Result<(), Error>,
    args: AddFolderArgs,
    id: Seq<char>,
    now: Timestamp,
) -> bool {
    &&& after.key == before.key
    &&& match r {
        Ok(_) => {
            &&& folder_name_fault(args.name@) is None
            &&& before.key is Some
            &&& folder_added(
                before.storage,
                after.storage,
                before.key.unwrap(),
                args,
                id,
                now,
            )
        },
        Err(e) => {
            let fault = folder_name_fault(args.name@);
            &&& after.storage == before.storage
            &&& if fault is Some {
                e matches Error::InvalidInput(text) && fault == Some(text@)
            } else if before.key is None {
                e is VaultLocked
            } else {
                add_refused(e, before.storage, folder_item(args, id, now))
            }
        },
    }
}

/// What the update of `args` at `now` makes of the session.
pub open spec fn update_item_outcome(
    before: VaultView,
    after: VaultView,
    r: Result<(), Error>,
    args: UpdateItemArgs,
    now: Timestamp,
) -> bool {
    &&& after.key == before.key
    &&& match r {
        Ok(_) => {
            let key = before.key;
            let existing = decoded_row(key, before.storage.row(args.id@)).unwrap();
            let item = updated_item(args, existing, now);
            &&& item_update_fault(args.name@, args.tags.deep_view()) is None
            &&& before.key is Some
            &&& has_id(before.storage.rows, args.id@)
            &&& decoded_row(key, before.storage.row(args.id@)) is Some
            &&& encodable(item)
            &&& item_rewritten(
                before.storage,
                after.storage,
                key.unwrap(),
                item,
                if carries_text(args.item_type@) {
                    Some(encode_utf8(args.content@))
                } else {
                    None
                },
            )
        },
        Err(e) => {
            let fault = item_update_fault(args.name@, args.tags.deep_view());
            let key = before.key;
            &&& after.storage == before.storage
            &&& if fault is Some {
                e matches Error::InvalidInput(text) && fault == Some(text@)
            } else if before.key is None {
                e is VaultLocked
            } else if !has_id(before.storage.rows, args.id@) {
                e matches Error::ItemNotFound(text) && text@ == args.id@
            } else if decoded_row(key, before.storage.row(args.id@)) is None {
                row_refused(e, key, before.storage.row(args.id@))
            } else {
                let existing = decoded_row(key, before.storage.row(args.id@)).unwrap();
                if carries_text(args.item_type@) && existing.data_path.len() == 0 {
                    e is Storage
                } else {
                    e is Internal && (!encodable(updated_item(args, existing, now))
                        || encode_utf8(args.content@).len()
                        > crate::crypto::MAX_PLAINTEXT_LEN)
                }
            }
        },
    }
}

/// What the soft deletion of `id` at `now` makes of the session: nothing,
/// with `VaultLocked`, where the vault is locked; else what it makes of the
/// store.
pub open spec fn delete_item_outcome(
    before: VaultView,
    after: VaultView,
    r: Result<bool, Error>,
    id: Seq<char>,
    now: Timestamp,
) -> bool {
    &&& after.key == before.key
    &&& match r {
        Ok(done) => done && before.key is Some && soft_delete_outcome(
            before.storage,
            after.storage,
            before.key,
            Ok(()),
            id,
            now,
        ),
        Err(e) => if before.key is None {
            e is VaultLocked && after.storage == before.storage
        } else {
            soft_delete_outcome(before.storage, after.storage, before.key, Err(e), id, now)
        },
    }
}

/// What the renaming of a tag by `change` at `now` makes of the session:
/// nothing, with `InvalidInput`, where the new name is blank; else nothing,
/// with `VaultLocked`, where the vault is locked; else what `change`, the
/// renaming asked for, makes of the store.
pub open spec fn rename_tag_outcome(
    before: VaultView,
    after: VaultView,
    r: Result<(), Error>,
    args: RenameTagArgs,
    change: TagChange,
    now: Timestamp,
) -> bool {
    &&& after.key == before.key
    &&& if blank(args.new_tag_name@) {
        &&& after.storage == before.storage
        &&& r matches Err(Error::InvalidInput(text)) && text@ == "New tag name cannot be empty"@
    } else if before.key is None {
        after.storage == before.storage && r matches Err(Error::VaultLocked)
    } else {
        &&& renames(change, args.old_tag_name@, args.new_tag_name@)
        &&& retag_outcome(before.storage, after.storage, before.key, r, change, now)
    }
}

/// What the removal of a tag by `change` at `now` makes of the session:
/// nothing, with `VaultLocked`, where the vault is locked; else what
/// `change`, the removal asked for, makes of the store.
pub open spec fn delete_tag_outcome(
    before: VaultView,
    after: VaultView,
    r: Result<(), Error>,
    args: DeleteTagArgs,
    change: TagChange,
    now: Timestamp,
) -> bool {
    &&& after.key == before.key
    &&& if before.key is None {
        after.storage == before.storage && r matches Err(Error::VaultLocked)
    } else {
        &&& removes(change, args.tag_name@)
        &&& retag_outcome(before.storage, after.storage, before.key, r, change, now)
    }
}

/// Calls `uuid::Uuid::new_v4` and writes the result out in its hyphenated
/// form. The value is random; its text is 36 characters long.
#[verifier::external_body]
pub(crate) fn fresh_id() -> (id: String)
    ensures
        id@.len() == 36,
{
    uuid::Uuid::new_v4().to_string()
}

/// Calls `mime_guess::from_ext`, takes `first_or_octet_stream` of the
/// guess and writes it out as text. The text is named, not described.
#[verifier::external_body]
fn guess_mime(extension: &str) -> (mime: String)
    ensures
        mime@ == guessed_mime(extension@),
{
    mime_guess::from_ext(extension).first_or_octet_stream().to_string()
}

/// The type under which a file with the extension is stored.
pub fn mime_type_for(extension: Option<&str>) -> (mime: String)
    ensures
        mime@ == file_type(
            match extension {
                Some(ext) => Some(ext@),
                None => None,
            },
        ),
{
    match extension {
        Some(ext) => guess_mime(ext),
        None => String::from_str("application/octet-stream"),
    }
}

/// An `ItemNotFound` failure for the id.
pub fn item_not_found(id: &str) -> (e: Error)
    ensures
        e matches Error::ItemNotFound(text) && text@ == id@,
{
    Error::ItemNotFound(String::from_str(id))
}

impl VaultState {
    /// Adds a row for `item` and stores `content`, sealed, under the item's
    /// data path. Everything that can fail is done before anything is
    /// changed.
    pub(crate) fn store_item_with_payload(&mut self, item: &VaultItem, content: &[u8]) -> (r:
        Result<(), Error>)
        requires
            old(self).wf(),
            old(self).crypto.unlocked(),
            item@.wf(),
        ensures
            final(self).wf(),
            final(self).crypto.key() == old(self).crypto.key(),
            match r {
                Ok(_) => {
                    let key = old(self).crypto.key().unwrap();
                    &&& item@.data_path.len() > 0
                    &&& encodable(item@)
                    &&& content.len() <= crate::crypto::MAX_PLAINTEXT_LEN
                    &&& row_added(old(self).storage@, final(self).storage@, key, item@)
                    &&& payload_stored(
                        old(self).storage@.files,
                        final(self).storage@.files,
                        key,
                        item@.data_path,
                        content@,
                    )
                    &&& final(self).storage@ == (StorageView {
                        rows: final(self).storage@.rows,
                        files: final(self).storage@.files,
                        ..old(self).storage@
                    })
                },
                Err(e) => {
                    &&& final(self).storage@ == old(self).storage@
                    &&& if item@.data_path.len() == 0 {
                        e is Storage
                    } else if content.len() > crate::crypto::MAX_PLAINTEXT_LEN {
                        e is Internal
                    } else {
                        add_refused(e, old(self).storage@, item@)
                    }
                },
            },
    {
        if item.data_path.as_str().unicode_len() == 0 {
            return Err(Error::Storage(String::from_str("a payload needs a name")));
        }
        let sealed = self.crypto.encrypt(content)?;
        self.storage.add_item(item, &self.crypto)?;
        match self.storage.write_encrypted_file(sealed.as_slice(), item.data_path.as_str()) {
            Ok(_) => Ok(()),
            Err(e) => Err(e),
        }
    }

    /// Adds a text item under the given id and data path, created at `now`.
    ///
    /// Fails, and changes nothing: with `InvalidInput` where a rule on name,
    /// content or tags is broken, whatever the state of the vault; else with
    /// `VaultLocked` where the vault is locked; else with `Storage` where
    /// the data path is empty; else as `Storage::add_item` fails.
    pub fn add_text_item_with(
        &mut self,
        args: &AddTextItemArgs,
        id: String,
        data_path: String,
        now: &Timestamp,
    ) -> (r: Result<(), Error>)
        requires
            old(self).wf(),
            now.wf(),
        ensures
            final(self).wf(),
            add_text_item_outcome(old(self)@, final(self)@, r, *args, id@, data_path@, *now),
    {
        check_text_item(args.name.as_str(), args.content.as_str(), &args.tags)?;
        if !self.crypto.is_unlocked() {
            return Err(Error::VaultLocked);
        }
        let item_type = if same_text(args.item_type.as_str(), "text") {
            String::from_str("text/plain")
        } else {
            args.item_type.clone()
        };
        let item = VaultItem {
            id,
            parent_id: clone_opt_text(&args.parent_id),
            name: args.name.clone(),
            data_path,
            item_type,
            folder_type: None,
            tags: clone_texts(&args.tags),
            created_at: *now,
            updated_at: *now,
            deleted_at: None,
            totp_secret: clone_opt_text(&args.totp_secret),
        };
        assert(item@ == text_item(*args, id@, data_path@, *now));
        self.store_item_with_payload(&item, args.content.as_str().as_bytes())
    }

    /// Adds a text item under a fresh random id and data path, created now.
    ///
    /// Fails, and changes nothing: with `InvalidInput` where a rule on name,
    /// content or tags is broken, whatever the state of the vault; else with
    /// `VaultLocked` where the vault is locked; else as `Storage::add_item`
    /// fails.
    pub fn add_text_item(&mut self, args: &AddTextItemArgs) -> (r: Result<(), Error>)
        requires
            old(self).wf(),
        ensures
            final(self).wf(),
            exists|id: Seq<char>, data_path: Seq<char>, now: Timestamp|
                now.wf() && id.len() == 36 && data_path.len() == 36
                    && #[trigger] add_text_item_outcome(
                    old(self)@,
                    final(self)@,
                    r,
                    *args,
                    id,
                    data_path,
                    now,
                ),
    {
        let now = Timestamp::now();
        let data_path = fresh_id();
        let id = fresh_id();
        let ghost id_view = id@;
        let ghost path_view = data_path@;
        let r = self.add_text_item_with(args, id, data_path, &now);
        assert(add_text_item_outcome(old(self)@, self@, r, *args, id_view, path_view, now));
        r
    }

    /// Adds a file item with the given content under the given id and data
    /// path, created at `now`. The type is guessed from the extension of
    /// the file's name.
    ///
    /// Fails, and changes nothing: with `InvalidInput` where a rule on name,
    /// tags or path is broken, whatever the state of the vault; else with
    /// `VaultLocked` where the vault is locked; else with `Storage` where
    /// the data path is empty; else with `Internal` where the content is too
    /// long to seal; else as `Storage::add_item` fails.
    pub fn add_file_item_with(
        &mut self,
        args: &AddFileItemArgs,
        extension: Option<&str>,
        content: &[u8],
        id: String,
        data_path: String,
        now: &Timestamp,
    ) -> (r: Result<(), Error>)
        requires
            old(self).wf(),
            now.wf(),
        ensures
            final(self).wf(),
            add_file_item_outcome(
                old(self)@,
                final(self)@,
                r,
                *args,
                opt_str_view(extension),
                content@,
                id@,
                data_path@,
                *now,
            ),
    {
        check_item_update(args.name.as_str(), &args.tags)?;
        check_file_path(args.file_path.as_str())?;
        if !self.crypto.is_unlocked() {
            return Err(Error::VaultLocked);
        }
        let item = VaultItem {
            id,
            parent_id: clone_opt_text(&args.parent_id),
            name: args.name.clone(),
            data_path,
            item_type: mime_type_for(extension),
            folder_type: None,
            tags: clone_texts(&args.tags),
            created_at: *now,
            updated_at: *now,
            deleted_at: None,
            totp_secret: None,
        };
        assert(item@ == file_item(*args, opt_str_view(extension), id@, data_path@, *now));
        self.store_item_with_payload(&item, content)
    }

    /// Adds a file item with the given content under a fresh random id and
    /// data path, created now.
    ///
    /// Fails, and changes nothing: with `InvalidInput` where a rule on name,
    /// tags or path is broken, whatever the state of the vault; else with
    /// `VaultLocked` where the vault is locked; else with `Internal` where
    /// the content is too long to seal; else as `Storage::add_item` fails.
    pub fn add_file_item(
        &mut self,
        args: &AddFileItemArgs,
        extension: Option<&str>,
        content: &[u8],
    ) -> (r: Result<(), Error>)
        requires
            old(self).wf(),
        ensures
            final(self).wf(),
            exists|id: Seq<char>, data_path: Seq<char>, now: Timestamp|
                now.wf() && id.len() == 36 && data_path.len() == 36
                    && #[trigger] add_file_item_outcome(
                    old(self)@,
                    final(self)@,
                    r,
                    *args,
                    opt_str_view(extension),
                    content@,
                    id,
                    data_path,
                    now,
                ),
    {
        let now = Timestamp::now();
        let data_path = fresh_id();
        let id = fresh_id();
        let ghost id_view = id@;
        let ghost path_view = data_path@;
        let r = self.add_file_item_with(args, extension, content, id, data_path, &now);
        assert(add_file_item_outcome(
            old(self)@,
            self@,
            r,
            *args,
            opt_str_view(extension),
            content@,
            id_view,
            path_view,
            now,
        ));
        r
    }

    /// Adds a folder under the given id, created at `now`.
    ///
    /// Fails, and changes nothing: with `InvalidInput` where a rule on the
    /// name is broken, whatever the state of the vault; else with
    /// `VaultLocked` where the vault is locked; else as `Storage::add_item`
    /// fails.
    pub fn add_folder_with(&mut self, args: &AddFolderArgs, id: String, now: &Timestamp) -> (r:
        Result<(), Error>)
        requires
            old(self).wf(),
            now.wf(),
        ensures
            final(self).wf(),
            add_folder_outcome(old(self)@, final(self)@, r, *args, id@, *now),
    {
        check_folder_name(args.name.as_str())?;
        if !self.crypto.is_unlocked() {
            return Err(Error::VaultLocked);
        }
        let item = VaultItem {
            id,
            parent_id: clone_opt_text(&args.parent_id),
            name: args.name.clone(),
            data_path: String::new(),
            item_type: String::from_str("folder"),
            folder_type: clone_opt_text(&args.folder_type),
            tags: Vec::new(),
            created_at: *now,
            updated_at: *now,
            deleted_at: None,
            totp_secret: None,
        };
        assert(item@.tags =~= Seq::<Seq<char>>::empty());
        assert(item@ == folder_item(*args, id@, *now));
        self.storage.add_item(&item, &self.crypto)
    }

    /// Adds a folder under a fresh random id, created now.
    ///
    /// Fails, and changes nothing: with `InvalidInput` where a rule on the
    /// name is broken, whatever the state of the vault; else with
    /// `VaultLocked` where the vault is locked; else as `Storage::add_item`
    /// fails.
    pub fn add_folder(&mut self, args: &AddFolderArgs) -> (r: Result<(), Error>)
        requires
            old(self).wf(),
        ensures
            final(self).wf(),
            exists|id: Seq<char>, now: Timestamp|
                now.wf() && id.len() == 36 && #[trigger] add_folder_outcome(
                    old(self)@,
                    final(self)@,
                    r,
                    *args,
                    id,
                    now,
                ),
    {
        let now = Timestamp::now();
        let id = fresh_id();
        let ghost id_view = id@;
        let r = self.add_folder_with(args, id, &now);
        assert(add_folder_outcome(old(self)@, self@, r, *args, id_view, now));
        r
    }

    /// The items directly under a parent that pass a type filter, in listing
    /// order. `VaultLocked` where the vault is locked; else as
    /// `Storage::get_items`.
    pub fn get_vault_items(
        &self,
        parent_id: Option<String>,
        item_type: Option<String>,
        order_by: Option<SortOrder>,
    ) -> (r: Result<Vec<VaultItem>, Error>)
        requires
            self.wf(),
        ensures
            match r {
                Ok(list) => {
                    &&& self.crypto.unlocked()
                    &&& all_readable(
                        self.crypto.key(),
                        self.storage@.children(parent_id.deep_view()),
                    )
                    &&& is_listing_of(
                        list.deep_view(),
                        self.storage@.wanted(
                            self.crypto.key(),
                            parent_id.deep_view(),
                            item_type.deep_view(),
                        ),
                        order_or_default(order_by),
                    )
                },
                Err(e) => if !self.crypto.unlocked() {
                    e is VaultLocked
                } else {
                    read_refused_among(
                        e,
                        self.crypto.key(),
                        self.storage@.rows,
                        under_parent(parent_id.deep_view()),
                    ) && !all_readable(
                        self.crypto.key(),
                        self.storage@.children(parent_id.deep_view()),
                    )
                },
            },
    {
        if !self.crypto.is_unlocked() {
            return Err(Error::VaultLocked);
        }
        self.storage.get_items(parent_id, item_type, order_by, &self.crypto)
    }

    /// Every item of the vault, folders first, then by cleaned name.
    /// `VaultLocked` where the vault is locked; else the failure of the first
    /// row that cannot be read.
    pub fn get_all_vault_items(&self) -> (r: Result<Vec<VaultItem>, Error>)
        requires
            self.wf(),
        ensures
            match r {
                Ok(list) => {
                    &&& self.crypto.unlocked()
                    &&& all_readable(self.crypto.key(), self.storage@.rows)
                    &&& is_listing_of(
                        list.deep_view(),
                        items_of(self.crypto.key(), self.storage@.rows),
                        SortOrder::NameAsc,
                    )
                },
                Err(e) => if !self.crypto.unlocked() {
                    e is VaultLocked
                } else {
                    read_refused(e, self.crypto.key(), self.storage@.rows) && !all_readable(
                        self.crypto.key(),
                        self.storage@.rows,
                    )
                },
            },
    {
        if !self.crypto.is_unlocked() {
            return Err(Error::VaultLocked);
        }
        self.storage.get_all_items_recursive(&self.crypto)
    }

    /// The items that carry a deletion stamp, folders first, then by cleaned
    /// name. `VaultLocked` where the vault is locked; else the failure
    /// of the first row that cannot be read.
    pub fn get_deleted_items(&self) -> (r: Result<Vec<VaultItem>, Error>)
        requires
            self.wf(),
        ensures
            match r {
                Ok(list) => {
                    &&& self.crypto.unlocked()
                    &&& all_readable(self.crypto.key(), self.storage@.rows)
                    &&& is_listing_of(
                        list.deep_view(),
                        items_of(self.crypto.key(), self.storage@.rows).filter(is_deleted()),
                        SortOrder::NameAsc,
                    )
                },
                Err(e) => if !self.crypto.unlocked() {
                    e is VaultLocked
                } else {
                    read_refused(e, self.crypto.key(), self.storage@.rows) && !all_readable(
                        self.crypto.key(),
                        self.storage@.rows,
                    )
                },
            },
    {
        if !self.crypto.is_unlocked() {
            return Err(Error::VaultLocked);
        }
        let all = self.storage.get_all_items_recursive(&self.crypto)?;
        let ghost listed = all.deep_view();
        let ghost given = all@;
        let ghost p = is_deleted();
        let mut out: Vec<VaultItem> = Vec::new();
        proof {
            reveal(Seq::filter);
            assert(listed.take(0).filter(p) =~= out.deep_view());
        }
        for item in it: all
            invariant
                it.seq() == given,
                listed == Seq::new(given.len(), |i: int| given[i].deep_view()),
                p == is_deleted(),
                out.deep_view() == listed.take(it.index() as int).filter(p),
        {
            let ghost idx = it.index() as int;
            let ghost kept = out.deep_view();
            proof {
                listed.take(idx).lemma_filter_push(item@, p);
                assert(listed.take(idx).push(item@) =~= listed.take(idx + 1));
            }
            if item.deleted_at.is_some() {
                out.push(item);
                assert(out.deep_view() =~= kept.push(item@));
            }
        }
        proof {
            assert(listed.take(listed.len() as int) =~= listed);
            lemma_filter_keeps_listing(
                listed,
                items_of(self.crypto.key(), self.storage@.rows),
                p,
                SortOrder::NameAsc,
            );
        }
        Ok(out)
    }

    /// The plaintext content of the item with the id.
    ///
    /// Fails with `VaultLocked` where the vault is locked; else with
    /// `ItemNotFound` where no row carries the id; else as `row_to_vault_item`
    /// fails where the item's row cannot be read; else with `Storage` where
    /// the item has no payload; else with `DecryptionFailed` where the
    /// payload does not open.
    pub fn get_item_content(&self, id: &str) -> (r: Result<Vec<u8>, Error>)
        requires
            self.wf(),
        ensures
            content_outcome(self@, r, id@),
    {
        if !self.crypto.is_unlocked() {
            return Err(Error::VaultLocked);
        }
        let item = match self.storage.get_item(id, &self.crypto)? {
            Some(item) => item,
            None => {
                return Err(item_not_found(id));
            },
        };
        self.storage.read_encrypted_file(item.data_path.as_str(), &self.crypto)
    }

    /// Overwrites the fields of an item at the instant `now`, and stores the
    /// new content in place of the old where the new type carries text.
    /// The data path, the folder type, the instant of creation and the
    /// deletion stamp stay; so does the one-time-password secret where none
    /// is given.
    ///
    /// Fails, and changes nothing: with `InvalidInput` where a rule on name
    /// or tags is broken, whatever the state of the vault; else with
    /// `VaultLocked` where the vault is locked; else with `ItemNotFound`
    /// where no row carries the id; else as `row_to_vault_item` fails where
    /// the row cannot be read; else with `Storage` where content is to be
    /// stored and the item has no data path; else with `Internal` where the
    /// new row or the content cannot be sealed.
    pub fn update_item_at(&mut self, args: &UpdateItemArgs, now: &Timestamp) -> (r: Result<
        (),
        Error,
    >)
        requires
            old(self).wf(),
            now.wf(),
        ensures
            final(self).wf(),
            update_item_outcome(old(self)@, final(self)@, r, *args, *now),
    {
        check_item_update(args.name.as_str(), &args.tags)?;
        if !self.crypto.is_unlocked() {
            return Err(Error::VaultLocked);
        }
        let existing = match self.storage.get_item(args.id.as_str(), &self.crypto)? {
            Some(item) => item,
            None => {
                return Err(item_not_found(args.id.as_str()));
            },
        };
        let ghost was = existing@;
        let kind = args.item_type.as_str();
        let with_text: bool = same_text(kind, "text") || same_text(kind, "key") || same_text(
            kind,
            "text/plain",
        );
        let data_path = existing.data_path.clone();
        let item = VaultItem {
            id: args.id.clone(),
            parent_id: clone_opt_text(&args.parent_id),
            name: args.name.clone(),
            data_path: existing.data_path,
            item_type: args.item_type.clone(),
            folder_type: existing.folder_type,
            tags: clone_texts(&args.tags),
            created_at: existing.created_at,
            updated_at: *now,
            deleted_at: existing.deleted_at,
            totp_secret: match &args.totp_secret {
                Some(secret) => Some(secret.clone()),
                None => existing.totp_secret,
            },
        };
        assert(item@ == updated_item(*args, was, *now));
        if with_text {
            if data_path.as_str().unicode_len() == 0 {
                return Err(Error::Storage(String::from_str("the item has no payload")));
            }
            let sealed = self.crypto.encrypt(args.content.as_str().as_bytes())?;
            self.storage.update_item_fields(&item, &self.crypto)?;
            match self.storage.write_encrypted_file(sealed.as_slice(), data_path.as_str()) {
                Ok(_) => Ok(()),
                Err(e) => Err(e),
            }
        } else {
            self.storage.update_item_fields(&item, &self.crypto)
        }
    }

    /// Overwrites the fields of an item now. See `update_item_at`.
    pub fn update_item(&mut self, args: &UpdateItemArgs) -> (r: Result<(), Error>)
        requires
            old(self).wf(),
        ensures
            final(self).wf(),
            exists|now: Timestamp|
                now.wf() && #[trigger] update_item_outcome(old(self)@, final(self)@, r, *args, now),
    {
        let now = Timestamp::now();
        let r = self.update_item_at(args, &now);
        assert(update_item_outcome(old(self)@, self@, r, *args, now));
        r
    }

    /// Marks an item and all its transitive children as deleted now.
    /// `VaultLocked`, and no change, where the vault is locked; else as
    /// `Storage::delete_item_and_descendants`.
    pub fn delete_item(&mut self, id: &str) -> (r: Result<bool, Error>)
        requires
            old(self).wf(),
        ensures
            final(self).wf(),
            exists|now: Timestamp|
                now.wf() && #[trigger] delete_item_outcome(old(self)@, final(self)@, r, id@, now),
    {
        if !self.crypto.is_unlocked() {
            let r = Err(Error::VaultLocked);
            assert(delete_item_outcome(old(self)@, self@, r, id@, Timestamp { secs: 0, nanos: 0 }));
            return r;
        }
        let done = self.storage.delete_item_and_descendants(id, &self.crypto);
        let ghost now = choose|now: Timestamp|
            now.wf() && #[trigger] soft_delete_outcome(
                old(self).storage@,
                self.storage@,
                self.crypto.key(),
                done,
                id@,
                now,
            );
        let r = match done {
            Ok(_) => Ok(true),
            Err(e) => Err(e),
        };
        assert(delete_item_outcome(old(self)@, self@, r, id@, now));
        r
    }

    /// Removes an item and all its transitive children for good, with the
    /// payloads they refer to, and returns the names of those payloads.
    /// `VaultLocked`, and no change, where the vault is locked; where a row
    /// of the subtree cannot be read, the failure of that reading, and no
    /// change.
    pub fn permanently_delete_item(&mut self, id: &str) -> (r: Result<Vec<String>, Error>)
        requires
            old(self).wf(),
        ensures
            final(self).wf(),
            final(self).crypto.key() == old(self).crypto.key(),
            if old(self).crypto.unlocked() {
                permanent_delete_outcome(
                    old(self).storage@,
                    final(self).storage@,
                    old(self).crypto.key(),
                    r,
                    id@,
                )
            } else {
                r is Err && r->Err_0 is VaultLocked && final(self).storage@ == old(self).storage@
            },
    {
        if !self.crypto.is_unlocked() {
            return Err(Error::VaultLocked);
        }
        self.storage.permanently_delete_item_and_descendants(id, &self.crypto)
    }

    /// Empties the recycling bin: removes every item that carries a
    /// deletion stamp, with the payloads those items name, and returns the
    /// names of those payloads. `VaultLocked`, and no change, where the
    /// vault is locked; where the data path of a stamped row cannot be
    /// read, the failure of that reading, and no change.
    pub fn permanently_delete_all_items(&mut self) -> (r: Result<Vec<String>, Error>)
        requires
            old(self).wf(),
        ensures
            final(self).wf(),
            final(self).crypto.key() == old(self).crypto.key(),
            if old(self).crypto.unlocked() {
                empty_bin_outcome(
                    old(self).storage@,
                    final(self).storage@,
                    old(self).crypto.key(),
                    r,
                )
            } else {
                r is Err && r->Err_0 is VaultLocked && final(self).storage@ == old(self).storage@
            },
    {
        if !self.crypto.is_unlocked() {
            return Err(Error::VaultLocked);
        }
        self.storage.permanently_delete_all_deleted_items(&self.crypto)
    }

    /// Clears the deletion stamp of one item. Its children and its parents
    /// stay as they are. Tells whether there is such an item.
    /// `VaultLocked`, and no change, where the vault is locked.
    pub fn restore_item(&mut self, id: &str) -> (r: Result<bool, Error>)
        requires
            old(self).wf(),
        ensures
            final(self).wf(),
            final(self).crypto.key() == old(self).crypto.key(),
            match r {
                Ok(found) => {
                    let before = old(self).storage@;
                    &&& old(self).crypto.unlocked()
                    &&& found == has_id(before.rows, id@)
                    &&& final(self).storage@ == (StorageView {
                        rows: if found {
                            before.rows.update(
                                row_index(before.rows, id@),
                                RowView { deleted_at: None, ..before.row(id@) },
                            )
                        } else {
                            before.rows
                        },
                        ..before
                    })
                },
                Err(e) => e is VaultLocked && !old(self).crypto.unlocked() && final(self).storage@
                    == old(self).storage@,
            },
    {
        if !self.crypto.is_unlocked() {
            return Err(Error::VaultLocked);
        }
        Ok(self.storage.restore_item(id))
    }

    /// Clears the deletion stamp and the parent of one item, which puts it
    /// at the root. Tells whether there is such an item. `VaultLocked`, and
    /// no change, where the vault is locked.
    pub fn restore_item_to_root(&mut self, id: &str) -> (r: Result<bool, Error>)
        requires
            old(self).wf(),
        ensures
            final(self).wf(),
            final(self).crypto.key() == old(self).crypto.key(),
            match r {
                Ok(found) => {
                    let before = old(self).storage@;
                    &&& old(self).crypto.unlocked()
                    &&& found == has_id(before.rows, id@)
                    &&& final(self).storage@ == (StorageView {
                        rows: if found {
                            before.rows.update(
                                row_index(before.rows, id@),
                                RowView { deleted_at: None, parent_id: None, ..before.row(id@) },
                            )
                        } else {
                            before.rows
                        },
                        ..before
                    })
                },
                Err(e) => e is VaultLocked && !old(self).crypto.unlocked() && final(self).storage@
                    == old(self).storage@,
            },
    {
        if !self.crypto.is_unlocked() {
            return Err(Error::VaultLocked);
        }
        Ok(self.storage.restore_item_to_root(id))
    }

    /// The tags that the items of the vault carry, each once, in dictionary
    /// order. `VaultLocked` where the vault is locked; else the failure
    /// of the first row that cannot be read.
    pub fn get_all_tags(&self) -> (r: Result<Vec<String>, Error>)
        requires
            self.wf(),
        ensures
            match r {
                Ok(tags) => {
                    &&& self.crypto.unlocked()
                    &&& all_readable(self.crypto.key(), self.storage@.rows)
                    &&& strictly_sorted(tags.deep_view())
                    &&& forall|t: Seq<char>|
                        tags.deep_view().contains(t) <==> carried_by(
                            items_of(self.crypto.key(), self.storage@.rows),
                            t,
                        )
                },
                Err(e) => if !self.crypto.unlocked() {
                    e is VaultLocked
                } else {
                    read_refused(e, self.crypto.key(), self.storage@.rows) && !all_readable(
                        self.crypto.key(),
                        self.storage@.rows,
                    )
                },
            },
    {
        if !self.crypto.is_unlocked() {
            return Err(Error::VaultLocked);
        }
        let items = decode_all(self.storage.rows(), &self.crypto)?;
        Ok(collect_tags(&items))
    }

    /// Renames a tag on every item that carries it.
    ///
    /// Fails, and changes nothing: with `InvalidInput` where the new name is
    /// blank, whatever the state of the vault; else with `VaultLocked` where
    /// the vault is locked; else as `Storage::rename_tag_in_all_items`.
    pub fn rename_tag(&mut self, args: &RenameTagArgs) -> (r: Result<(), Error>)
        requires
            old(self).wf(),
        ensures
            final(self).wf(),
            exists|change: TagChange, now: Timestamp|
                now.wf() && #[trigger] rename_tag_outcome(
                    old(self)@,
                    final(self)@,
                    r,
                    *args,
                    change,
                    now,
                ),
    {
        let ghost nothing: TagChange = arbitrary();
        let ghost never = Timestamp { secs: 0, nanos: 0 };
        if is_blank(args.new_tag_name.as_str()) {
            let r = Err(invalid_input("New tag name cannot be empty"));
            assert(rename_tag_outcome(old(self)@, self@, r, *args, nothing, never));
            return r;
        }
        if !self.crypto.is_unlocked() {
            let r = Err(Error::VaultLocked);
            assert(rename_tag_outcome(old(self)@, self@, r, *args, nothing, never));
            return r;
        }
        let r = self.storage.rename_tag_in_all_items(
            args.old_tag_name.as_str(),
            args.new_tag_name.as_str(),
            &self.crypto,
        );
        proof {
            let (change, now) = choose|change: TagChange, now: Timestamp|
                renames(change, args.old_tag_name@, args.new_tag_name@) && now.wf()
                    && #[trigger] retag_outcome(
                    old(self).storage@,
                    self.storage@,
                    self.crypto.key(),
                    r,
                    change,
                    now,
                );
            assert(rename_tag_outcome(old(self)@, self@, r, *args, change, now));
        }
        r
    }

    /// Removes a tag from every item that carries it. `VaultLocked`, and no
    /// change, where the vault is locked; else as
    /// `Storage::remove_tag_from_all_items`.
    pub fn delete_tag(&mut self, args: &DeleteTagArgs) -> (r: Result<(), Error>)
        requires
            old(self).wf(),
        ensures
            final(self).wf(),
            exists|change: TagChange, now: Timestamp|
                now.wf() && #[trigger] delete_tag_outcome(
                    old(self)@,
                    final(self)@,
                    r,
                    *args,
                    change,
                    now,
                ),
    {
        if !self.crypto.is_unlocked() {
            let r = Err(Error::VaultLocked);
            assert(delete_tag_outcome(
                old(self)@,
                self@,
                r,
                *args,
                arbitrary(),
                Timestamp { secs: 0, nanos: 0 },
            ));
            return r;
        }
        let r = self.storage.remove_tag_from_all_items(args.tag_name.as_str(), &self.crypto);
        proof {
            let (change, now) = choose|change: TagChange, now: Timestamp|
                removes(change, args.tag_name@) && now.wf() && #[trigger] retag_outcome(
                    old(self).storage@,
                    self.storage@,
                    self.crypto.key(),
                    r,
                    change,
                    now,
                );
            assert(delete_tag_outcome(old(self)@, self@, r, *args, change, now));
        }
        r
    }
}

} // verus!
