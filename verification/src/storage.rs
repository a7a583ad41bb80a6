//! The metadata store: the item table, the settings, the boundary state that
//! marks a vault as initialized, and the sealed payloads.
//!
//! The store is a value. It is loaded from disk and written back by the
//! program around this library, which also shreds the payload files that an
//! operation here reports as removed.

use vstd::prelude::*;
use vstd::string::{StrSliceExecFns, StringExecFns};
use crate::bytes::copy_bytes;
use crate::crypto::{Crypto, KeyDerivationStrength};
use crate::error::Error;
use crate::item::{ItemView, SortOrder, VaultItem};
use crate::listing::{
    filter_by_type, is_listing_of, lemma_filter_keeps_listing, lemma_listing_members, passes_type,
    sort_items,
};
use crate::row::{
    all_readable, columns_fit, decode_all, decode_children, decoded_row, encodable, encode_row,
    items_of, opt_bytes, read_refused, read_refused_among, row_holds, row_refused,
    row_to_vault_item, tags_json, under_parent, RowView, StoredRow,
};
use crate::settings::{default_brute_force_config, BruteForceConfig, SettingsView, VaultSettings};
use crate::time::Timestamp;
use crate::tree::distinct_ids;

verus! {

/// One sealed payload, under the name that an item's `data_path` gives.
#[derive(Debug)]
pub struct PayloadFile {
    pub name: String,
    pub data: Vec<u8>,
}

/// The mathematical content of a `PayloadFile`.
pub struct FileView {
    pub name: Seq<char>,
    pub data: Seq<u8>,
}

impl DeepView for PayloadFile {
    type V = FileView;

    open spec fn deep_view(&self) -> FileView {
        FileView { name: self.name@, data: self.data@ }
    }
}

impl View for PayloadFile {
    type V = FileView;

    open spec fn view(&self) -> FileView {
        self.deep_view()
    }
}

/// The store.
pub struct Storage {
    pub(crate) vault_path: String,
    pub(crate) rows: Vec<StoredRow>,
    pub(crate) settings: VaultSettings,
    pub(crate) salt: Option<Vec<u8>>,
    pub(crate) verification_token: Option<Vec<u8>>,
    pub(crate) files: Vec<PayloadFile>,
}

/// The mathematical content of the store.
pub struct StorageView {
    pub vault_path: Seq<char>,
    pub rows: Seq<RowView>,
    pub settings: SettingsView,
    pub salt: Option<Seq<u8>>,
    pub verification_token: Option<Seq<u8>>,
    pub files: Seq<FileView>,
}

/// No two payloads share a name.
pub open spec fn distinct_names(files: Seq<FileView>) -> bool {
    forall|i: int, j: int| 0 <= i < j < files.len() ==> files[i].name != files[j].name
}

/// Some row carries the id.
pub open spec fn has_id(rows: Seq<RowView>, id: Seq<char>) -> bool {
    exists|i: int| 0 <= i < rows.len() && (#[trigger] rows[i]).id == id
}

/// The position of the row that carries the id.
pub open spec fn row_index(rows: Seq<RowView>, id: Seq<char>) -> int {
    choose|i: int| 0 <= i < rows.len() && (#[trigger] rows[i]).id == id
}

/// Some payload carries the name.
pub open spec fn has_file(files: Seq<FileView>, name: Seq<char>) -> bool {
    exists|i: int| 0 <= i < files.len() && (#[trigger] files[i]).name == name
}

/// The position of the payload that carries the name.
pub open spec fn file_index(files: Seq<FileView>, name: Seq<char>) -> int {
    choose|i: int| 0 <= i < files.len() && (#[trigger] files[i]).name == name
}

impl StorageView {
    /// The store of a vault that holds nothing.
    pub open spec fn empty(vault_path: Seq<char>) -> StorageView {
        StorageView {
            vault_path,
            rows: Seq::empty(),
            settings: SettingsView::empty(),
            salt: None,
            verification_token: None,
            files: Seq::empty(),
        }
    }

    /// The invariant of the store: ids and payload names are keys, and the
    /// stored instant is one the vault can store.
    pub open spec fn wf(self) -> bool {
        &&& distinct_ids(self.rows)
        &&& distinct_names(self.files)
        &&& self.settings.wf()
    }

    /// The vault holds a salt and a verification token.
    pub open spec fn initialized(self) -> bool {
        self.salt is Some && self.verification_token is Some
    }

    /// The row with the id, where there is one.
    pub open spec fn row(self, id: Seq<char>) -> RowView {
        self.rows[row_index(self.rows, id)]
    }

    /// The sealed payload with the name, where there is one.
    pub open spec fn payload(self, name: Seq<char>) -> Seq<u8> {
        self.files[file_index(self.files, name)].data
    }
}

impl View for Storage {
    type V = StorageView;

    open(crate) spec fn view(&self) -> StorageView {
        StorageView {
            vault_path: self.vault_path@,
            rows: self.rows.deep_view(),
            settings: self.settings@,
            salt: opt_bytes(self.salt),
            verification_token: opt_bytes(self.verification_token),
            files: self.files.deep_view(),
        }
    }
}

/// Whether no two rows share an id.
pub fn rows_have_distinct_ids(rows: &Vec<StoredRow>) -> (b: bool)
    ensures
        b == distinct_ids(rows.deep_view()),
{
    let ghost rv = rows.deep_view();
    let mut j: usize = 0;
    while j < rows.len()
        invariant
            j <= rows.len(),
            rv == rows.deep_view(),
            forall|a: int, b: int| 0 <= a < b < j ==> rv[a].id != rv[b].id,
        decreases rows.len() - j,
    {
        let mut i: usize = 0;
        while i < j
            invariant
                i <= j,
                j < rows.len(),
                rv == rows.deep_view(),
                forall|a: int| 0 <= a < i ==> rv[a].id != rv[j as int].id,
            decreases j - i,
        {
            assert(rows[i as int]@ == rv[i as int] && rows[j as int]@ == rv[j as int]);
            if rows[i].id == rows[j].id {
                return false;
            }
            i += 1;
        }
        j += 1;
    }
    true
}

/// Whether no two payloads share a name.
pub fn files_have_distinct_names(files: &Vec<PayloadFile>) -> (b: bool)
    ensures
        b == distinct_names(files.deep_view()),
{
    let ghost fv = files.deep_view();
    let mut j: usize = 0;
    while j < files.len()
        invariant
            j <= files.len(),
            fv == files.deep_view(),
            forall|a: int, b: int| 0 <= a < b < j ==> fv[a].name != fv[b].name,
        decreases files.len() - j,
    {
        let mut i: usize = 0;
        while i < j
            invariant
                i <= j,
                j < files.len(),
                fv == files.deep_view(),
                forall|a: int| 0 <= a < i ==> fv[a].name != fv[j as int].name,
            decreases j - i,
        {
            assert(files[i as int]@ == fv[i as int] && files[j as int]@ == fv[j as int]);
            if files[i].name == files[j].name {
                return false;
            }
            i += 1;
        }
        j += 1;
    }
    true
}

impl Storage {
    /// The invariant of the store.
    pub open spec fn wf(&self) -> bool {
        self@.wf()
    }

    /// An empty, uninitialized store that belongs at `vault_path`.
    pub fn new(vault_path: String) -> (s: Storage)
        ensures
            s.wf(),
            s@ == StorageView::empty(vault_path@),
    {
        let s = Storage {
            vault_path,
            rows: Vec::new(),
            settings: VaultSettings::new(),
            salt: None,
            verification_token: None,
            files: Vec::new(),
        };
        assert(s.rows.deep_view() =~= Seq::empty());
        assert(s.files.deep_view() =~= Seq::empty());
        s
    }

    /// A store with the given content, as it was read from disk.
    ///
    /// Fails with `Storage` where two rows share an id, two payloads share
    /// a name, or the stored instant of the last failed unlock is out of
    /// range.
    pub fn from_parts(
        vault_path: String,
        rows: Vec<StoredRow>,
        settings: VaultSettings,
        salt: Option<Vec<u8>>,
        verification_token: Option<Vec<u8>>,
        files: Vec<PayloadFile>,
    ) -> (r: Result<Storage, Error>)
        ensures
            match r {
                Ok(s) => s.wf() && s@ == (StorageView {
                    vault_path: vault_path@,
                    rows: rows.deep_view(),
                    settings: settings@,
                    salt: opt_bytes(salt),
                    verification_token: opt_bytes(verification_token),
                    files: files.deep_view(),
                }),
                Err(e) => e is Storage && !(StorageView {
                    vault_path: vault_path@,
                    rows: rows.deep_view(),
                    settings: settings@,
                    salt: opt_bytes(salt),
                    verification_token: opt_bytes(verification_token),
                    files: files.deep_view(),
                }).wf(),
            },
    {
        if !rows_have_distinct_ids(&rows) {
            return Err(Error::Storage(String::from_str("two rows share an id")));
        }
        if !files_have_distinct_names(&files) {
            return Err(Error::Storage(String::from_str("two payloads share a name")));
        }
        match settings.last_failed_attempt {
            Some(t) => {
                if Timestamp::from_parts(t.secs, t.nanos).is_none() {
                    return Err(
                        Error::Storage(String::from_str("a stored instant is out of range")),
                    );
                }
            },
            None => {},
        }
        Ok(Storage { vault_path, rows, settings, salt, verification_token, files })
    }

    /// Where the vault is kept.
    pub fn get_vault_path(&self) -> (path: &String)
        ensures
            path@ == self@.vault_path,
    {
        &self.vault_path
    }

    /// The item table, row by row.
    pub fn rows(&self) -> (rows: &Vec<StoredRow>)
        ensures
            rows.deep_view() == self@.rows,
    {
        &self.rows
    }

    /// The sealed payloads.
    pub fn files(&self) -> (files: &Vec<PayloadFile>)
        ensures
            files.deep_view() == self@.files,
    {
        &self.files
    }

    /// The settings table.
    pub fn settings(&self) -> (settings: &VaultSettings)
        ensures
            settings@ == self@.settings,
    {
        &self.settings
    }

    /// The position of the row with the id.
    pub(crate) fn find_row(&self, id: &str) -> (r: Option<usize>)
        ensures
            match r {
                Some(i) => i < self@.rows.len() && self@.rows[i as int].id == id@,
                None => !has_id(self@.rows, id@),
            },
    {
        let wanted = String::from_str(id);
        let mut i: usize = 0;
        while i < self.rows.len()
            invariant
                i <= self.rows.len(),
                wanted@ == id@,
                forall|k: int| 0 <= k < i ==> (#[trigger] self.rows.deep_view()[k]).id != id@,
            decreases self.rows.len() - i,
        {
            if self.rows[i].id == wanted {
                assert(self.rows.deep_view()[i as int].id == id@);
                return Some(i);
            }
            i += 1;
        }
        None
    }

    /// The position of the payload with the name.
    pub(crate) fn find_file(&self, name: &str) -> (r: Option<usize>)
        ensures
            match r {
                Some(i) => i < self@.files.len() && self@.files[i as int].name == name@,
                None => !has_file(self@.files, name@),
            },
    {
        let wanted = String::from_str(name);
        let mut i: usize = 0;
        while i < self.files.len()
            invariant
                i <= self.files.len(),
                wanted@ == name@,
                forall|k: int| 0 <= k < i ==> (#[trigger] self.files.deep_view()[k]).name != name@,
            decreases self.files.len() - i,
        {
            if self.files[i].name == wanted {
                assert(self.files.deep_view()[i as int].name == name@);
                return Some(i);
            }
            i += 1;
        }
        None
    }

    /// Adds the item as a new row at the end of the table.
    ///
    /// Fails, and changes nothing, where the item cannot be written as a row
    /// (see `encode_row`), and with `Storage` where its id is taken.
    pub fn add_item(&mut self, item: &VaultItem, crypto: &Crypto) -> (r: Result<(), Error>)
        requires
            old(self).wf(),
            crypto.wf(),
            item@.wf(),
        ensures
            final(self).wf(),
            match r {
                Ok(_) => {
                    &&& crypto.unlocked()
                    &&& encodable(item@)
                    &&& !has_id(old(self)@.rows, item@.id)
                    &&& final(self)@.rows.len() == old(self)@.rows.len() + 1
                    &&& final(self)@.rows.drop_last() == old(self)@.rows
                    &&& row_holds(crypto.key().unwrap(), final(self)@.rows.last(), item@)
                    &&& final(self)@ == (StorageView { rows: final(self)@.rows, ..old(self)@ })
                },
                Err(e) => {
                    &&& final(self)@ == old(self)@
                    &&& if tags_json(item@.tags) is None {
                        e is Internal
                    } else if !crypto.unlocked() {
                        e is NotUnlocked
                    } else if !columns_fit(item@) {
                        e is Internal
                    } else {
                        e is Storage && has_id(old(self)@.rows, item@.id)
                    }
                },
            },
    {
        let row = encode_row(item, crypto)?;
        if self.find_row(item.id.as_str()).is_some() {
            return Err(Error::Storage(String::from_str("an item with this id exists already")));
        }
        let ghost before = self.rows.deep_view();
        self.rows.push(row);
        proof {
            assert(self.rows.deep_view().drop_last() =~= before);
            assert(self.rows.deep_view().last() == row@);
            assert forall|i: int, j: int| 0 <= i < j < self@.rows.len() implies self@.rows[i].id
                != self@.rows[j].id by {
                assert(self@.rows[i] == before[i]);
                if j < before.len() {
                    assert(self@.rows[j] == before[j]);
                }
            }
        }
        Ok(())
    }

    /// Overwrites every column of the row that carries the item's id. Where
    /// no row carries it, nothing changes and the call succeeds all the same.
    ///
    /// Fails, and changes nothing, where the item cannot be written as a row.
    pub fn update_item_fields(&mut self, item: &VaultItem, crypto: &Crypto) -> (r: Result<
        (),
        Error,
    >)
        requires
            old(self).wf(),
            crypto.wf(),
            item@.wf(),
        ensures
            final(self).wf(),
            match r {
                Ok(_) => {
                    &&& crypto.unlocked()
                    &&& encodable(item@)
                    &&& final(self)@ == (StorageView { rows: final(self)@.rows, ..old(self)@ })
                    &&& if has_id(old(self)@.rows, item@.id) {
                        let at = row_index(old(self)@.rows, item@.id);
                        &&& final(self)@.rows == old(self)@.rows.update(at, final(self)@.rows[at])
                        &&& row_holds(crypto.key().unwrap(), final(self)@.rows[at], item@)
                    } else {
                        final(self)@.rows == old(self)@.rows
                    }
                },
                Err(e) => {
                    &&& final(self)@ == old(self)@
                    &&& if tags_json(item@.tags) is None {
                        e is Internal
                    } else if !crypto.unlocked() {
                        e is NotUnlocked
                    } else {
                        e is Internal && !columns_fit(item@)
                    }
                },
            },
    {
        let row = encode_row(item, crypto)?;
        match self.find_row(item.id.as_str()) {
            Some(i) => {
                let ghost before = self.rows.deep_view();
                self.rows[i] = row;
                proof {
                    assert(self.rows.deep_view() =~= before.update(i as int, row@));
                    assert(row_index(before, item@.id) == i);
                    assert forall|a: int, b: int|
                        0 <= a < b < self@.rows.len() implies self@.rows[a].id
                        != self@.rows[b].id by {
                        assert(self@.rows[a].id == before[a].id);
                        assert(self@.rows[b].id == before[b].id);
                    }
                }
            },
            None => {},
        }
        Ok(())
    }

    /// The item with the id, read under the engine's key; `None` where no row
    /// carries the id. A row that cannot be read fails as `row_to_vault_item`
    /// does on it.
    pub fn get_item(&self, id: &str, crypto: &Crypto) -> (r: Result<Option<VaultItem>, Error>)
        requires
            self.wf(),
            crypto.wf(),
        ensures
            match r {
                Ok(Some(item)) => has_id(self@.rows, id@) && decoded_row(
                    crypto.key(),
                    self@.row(id@),
                ) == Some(item@) && item@.wf(),
                Ok(None) => !has_id(self@.rows, id@),
                Err(e) => has_id(self@.rows, id@) && row_refused(
                    e,
                    crypto.key(),
                    self@.row(id@),
                ) && decoded_row(crypto.key(), self@.row(id@)) is None,
            },
    {
        match self.find_row(id) {
            Some(i) => {
                assert(row_index(self@.rows, id@) == i);
                assert(self.rows[i as int]@ == self@.rows[i as int]);
                match row_to_vault_item(&self.rows[i], crypto) {
                    Ok(item) => Ok(Some(item)),
                    Err(e) => Err(e),
                }
            },
            None => Ok(None),
        }
    }

    /// Whether the vault holds both a salt and a verification token.
    pub fn is_initialized(&self) -> (b: bool)
        ensures
            b == self@.initialized(),
    {
        self.salt.is_some() && self.verification_token.is_some()
    }

    /// The salt of the vault; a `Storage` failure where none is held.
    pub fn get_salt(&self) -> (r: Result<Vec<u8>, Error>)
        ensures
            match r {
                Ok(salt) => self@.salt == Some(salt@),
                Err(e) => e is Storage && self@.salt is None,
            },
    {
        match &self.salt {
            Some(salt) => Ok(copy_bytes(salt.as_slice())),
            None => Err(Error::Storage(String::from_str("the vault holds no salt"))),
        }
    }

    /// The verification token; a `Storage` failure where none is held.
    pub fn get_verification_token(&self) -> (r: Result<Vec<u8>, Error>)
        ensures
            match r {
                Ok(token) => self@.verification_token == Some(token@),
                Err(e) => e is Storage && self@.verification_token is None,
            },
    {
        match &self.verification_token {
            Some(token) => Ok(copy_bytes(token.as_slice())),
            None => Err(Error::Storage(String::from_str("the vault holds no verification token"))),
        }
    }

    /// Replaces the verification token.
    pub fn store_verification_token(&mut self, token: &[u8])
        ensures
            final(self)@ == (StorageView { verification_token: Some(token@), ..old(self)@ }),
    {
        self.verification_token = Some(copy_bytes(token));
    }

    /// Replaces the salt.
    pub fn update_salt(&mut self, new_salt: &[u8])
        ensures
            final(self)@ == (StorageView { salt: Some(new_salt@), ..old(self)@ }),
    {
        self.salt = Some(copy_bytes(new_salt));
    }

    /// Writes the salt and the settings of a fresh vault: the given
    /// strength, the default policy, no failed attempt. The theme stays.
    pub fn initialize(&mut self, salt: &[u8], strength: KeyDerivationStrength)
        ensures
            final(self)@ == (StorageView {
                salt: Some(salt@),
                settings: SettingsView {
                    kdf_strength: Some(strength),
                    brute_force: Some(default_brute_force_config()),
                    failed_attempts: Some(0),
                    last_failed_attempt: None,
                    theme: old(self)@.settings.theme,
                },
                ..old(self)@
            }),
            old(self).wf() ==> final(self).wf(),
    {
        self.salt = Some(copy_bytes(salt));
        self.settings.kdf_strength = Some(strength);
        self.settings.brute_force = Some(BruteForceConfig::default());
        self.settings.failed_attempts = Some(0);
        self.settings.last_failed_attempt = None;
    }

    /// The derivation strength in force: `Recommended` until one is set.
    pub fn get_key_derivation_strength(&self) -> (strength: KeyDerivationStrength)
        ensures
            strength == self@.settings.strength(),
    {
        match self.settings.kdf_strength {
            Some(s) => s,
            None => KeyDerivationStrength::Recommended,
        }
    }

    /// Sets the derivation strength.
    pub fn set_key_derivation_strength(&mut self, strength: KeyDerivationStrength)
        ensures
            final(self)@ == (StorageView {
                settings: SettingsView { kdf_strength: Some(strength), ..old(self)@.settings },
                ..old(self)@
            }),
            old(self).wf() ==> final(self).wf(),
    {
        self.settings.kdf_strength = Some(strength);
    }

    /// The policy in force: the default until one is set.
    pub fn get_brute_force_config(&self) -> (config: BruteForceConfig)
        ensures
            config == self@.settings.policy(),
    {
        match self.settings.brute_force {
            Some(c) => c,
            None => BruteForceConfig::default(),
        }
    }

    /// Sets the policy.
    pub fn set_brute_force_config(&mut self, config: BruteForceConfig)
        ensures
            final(self)@ == (StorageView {
                settings: SettingsView { brute_force: Some(config), ..old(self)@.settings },
                ..old(self)@
            }),
            old(self).wf() ==> final(self).wf(),
    {
        self.settings.brute_force = Some(config);
    }

    /// The count of failed unlocks: zero until one is recorded.
    pub fn get_failed_login_attempts(&self) -> (attempts: u32)
        ensures
            attempts == self@.settings.attempts(),
    {
        match self.settings.failed_attempts {
            Some(n) => n,
            None => 0,
        }
    }

    /// Sets the count of failed unlocks.
    pub fn set_failed_login_attempts(&mut self, attempts: u32)
        ensures
            final(self)@ == (StorageView {
                settings: SettingsView { failed_attempts: Some(attempts), ..old(self)@.settings },
                ..old(self)@
            }),
            old(self).wf() ==> final(self).wf(),
    {
        self.settings.failed_attempts = Some(attempts);
    }

    /// The instant of the last failed unlock, if one is recorded.
    pub fn get_last_failed_attempt_timestamp(&self) -> (t: Option<Timestamp>)
        ensures
            t == self@.settings.last_failed_attempt,
    {
        self.settings.last_failed_attempt
    }

    /// Records or clears the instant of the last failed unlock.
    pub fn set_last_failed_attempt_timestamp(&mut self, timestamp: Option<Timestamp>)
        requires
            timestamp matches Some(t) ==> t.wf(),
        ensures
            final(self)@ == (StorageView {
                settings: SettingsView { last_failed_attempt: timestamp, ..old(self)@.settings },
                ..old(self)@
            }),
            old(self).wf() ==> final(self).wf(),
    {
        self.settings.last_failed_attempt = timestamp;
    }

    /// The theme in force: `dark` until one is set.
    pub fn get_theme(&self) -> (theme: String)
        ensures
            theme@ == self@.settings.theme_name(),
    {
        match &self.settings.theme {
            Some(t) => t.clone(),
            None => String::from_str("dark"),
        }
    }

    /// Sets the theme.
    pub fn set_theme(&mut self, theme: &str)
        ensures
            final(self)@ == (StorageView {
                settings: SettingsView { theme: Some(theme@), ..old(self)@.settings },
                ..old(self)@
            }),
            old(self).wf() ==> final(self).wf(),
    {
        self.settings.theme = Some(String::from_str(theme));
    }

    /// Whether a payload is stored under the name.
    pub fn has_payload(&self, file_name: &str) -> (b: bool)
        ensures
            b == has_file(self@.files, file_name@),
    {
        self.find_file(file_name).is_some()
    }

    /// Stores a sealed payload under `file_name`, in place of any payload
    /// stored under that name before. The name must not be empty.
    pub fn write_encrypted_file(&mut self, data: &[u8], file_name: &str) -> (r: Result<(), Error>)
        requires
            old(self).wf(),
        ensures
            final(self).wf(),
            match r {
                Ok(_) => {
                    &&& file_name@.len() > 0
                    &&& final(self)@ == (StorageView { files: final(self)@.files, ..old(self)@ })
                    &&& has_file(final(self)@.files, file_name@)
                    &&& final(self)@.payload(file_name@) == data@
                    &&& if has_file(old(self)@.files, file_name@) {
                        final(self)@.files == old(self)@.files.update(
                            file_index(old(self)@.files, file_name@),
                            FileView { name: file_name@, data: data@ },
                        )
                    } else {
                        final(self)@.files == old(self)@.files.push(
                            FileView { name: file_name@, data: data@ },
                        )
                    }
                },
                Err(e) => e is Storage && file_name@.len() == 0 && final(self)@ == old(self)@,
            },
    {
        if file_name.unicode_len() == 0 {
            return Err(Error::Storage(String::from_str("a payload needs a name")));
        }
        let ghost before = self.files.deep_view();
        let file = PayloadFile { name: String::from_str(file_name), data: copy_bytes(data) };
        match self.find_file(file_name) {
            Some(i) => {
                self.files[i] = file;
                proof {
                    assert(file_index(before, file_name@) == i);
                    assert(self.files.deep_view() =~= before.update(i as int, file@));
                    assert forall|a: int, b: int|
                        0 <= a < b < self@.files.len() implies self@.files[a].name
                        != self@.files[b].name by {
                        assert(self@.files[a].name == before[a].name);
                        assert(self@.files[b].name == before[b].name);
                    }
                    assert(self@.files[i as int].name == file_name@);
                    assert(file_index(self@.files, file_name@) == i);
                }
            },
            None => {
                self.files.push(file);
                proof {
                    assert(self.files.deep_view() =~= before.push(file@));
                    assert forall|a: int, b: int|
                        0 <= a < b < self@.files.len() implies self@.files[a].name
                        != self@.files[b].name by {
                        assert(self@.files[a] == before[a]);
                        if b < before.len() {
                            assert(self@.files[b] == before[b]);
                        }
                    }
                    assert(self@.files[before.len() as int].name == file_name@);
                    assert(file_index(self@.files, file_name@) == before.len());
                }
            },
        }
        Ok(())
    }

    /// The plaintext of the payload stored under `file_name`.
    ///
    /// Fails with `Storage` where no payload has that name, else as
    /// `Crypto::decrypt` fails.
    pub fn read_encrypted_file(&self, file_name: &str, crypto: &Crypto) -> (r: Result<
        Vec<u8>,
        Error,
    >)
        requires
            self.wf(),
            crypto.wf(),
        ensures
            match r {
                Ok(plain) => has_file(self@.files, file_name@) && crypto.opened(
                    self@.payload(file_name@),
                ) == Some(plain@),
                Err(e) => if !has_file(self@.files, file_name@) {
                    e is Storage
                } else if !crypto.unlocked() {
                    e is NotUnlocked
                } else {
                    e is DecryptionFailed && crypto.opened(self@.payload(file_name@)) is None
                },
            },
    {
        match self.find_file(file_name) {
            Some(i) => {
                assert(file_index(self@.files, file_name@) == i);
                assert(self.files[i as int]@ == self@.files[i as int]);
                crypto.decrypt(self.files[i].data.as_slice())
            },
            None => Err(Error::Storage(String::from_str("File not found: ").concat(file_name))),
        }
    }

    /// Empties the store: no rows, no settings, no payloads, no salt and no
    /// verification token. The vault is uninitialized afterwards.
    pub fn reset(&mut self)
        ensures
            final(self).wf(),
            !final(self)@.initialized(),
            final(self)@ == StorageView::empty(old(self)@.vault_path),
    {
        self.rows = Vec::new();
        self.settings = VaultSettings::new();
        self.files = Vec::new();
        self.salt = None;
        self.verification_token = None;
        assert(self.rows.deep_view() =~= Seq::empty());
        assert(self.files.deep_view() =~= Seq::empty());
    }

    /// The items directly under `parent_id` (at the root for `None`) that
    /// pass the type filter, in listing order: folders first, then by
    /// `order_by`, newest first where no order is asked for.
    ///
    /// One row under the parent that cannot be read makes the call fail, as
    /// `row_to_vault_item` does on the first such row, whether or not its
    /// item would pass the filter.
    pub fn get_items(
        &self,
        parent_id: Option<String>,
        item_type_filter: Option<String>,
        order_by: Option<SortOrder>,
        crypto: &Crypto,
    ) -> (r: Result<Vec<VaultItem>, Error>)
        requires
            self.wf(),
            crypto.wf(),
        ensures
            match r {
                Ok(list) => {
                    &&& all_readable(crypto.key(), self@.children(parent_id.deep_view()))
                    &&& is_listing_of(
                        list.deep_view(),
                        self@.wanted(
                            crypto.key(),
                            parent_id.deep_view(),
                            item_type_filter.deep_view(),
                        ),
                        order_or_default(order_by),
                    )
                },
                Err(e) => read_refused_among(
                    e,
                    crypto.key(),
                    self@.rows,
                    under_parent(parent_id.deep_view()),
                ) && !all_readable(crypto.key(), self@.children(parent_id.deep_view())),
            },
    {
        let order = match order_by {
            Some(o) => o,
            None => SortOrder::CreatedAtDesc,
        };
        let items = decode_children(&self.rows, &parent_id, crypto)?;
        let ghost decoded = items.deep_view();
        let sorted = sort_items(items, order);
        match item_type_filter {
            Some(filter) => {
                proof {
                    lemma_filter_keeps_listing(
                        sorted.deep_view(),
                        decoded,
                        passes_type(filter@),
                        order,
                    );
                }
                Ok(filter_by_type(sorted, filter.as_str()))
            },
            None => Ok(sorted),
        }
    }

    /// Every item of the vault, deleted or not, whatever its parent: folders
    /// first, then by cleaned name.
    ///
    /// One row that cannot be read makes the call fail, as `row_to_vault_item`
    /// does on the first such row.
    pub fn get_all_items_recursive(&self, crypto: &Crypto) -> (r: Result<Vec<VaultItem>, Error>)
        requires
            self.wf(),
            crypto.wf(),
        ensures
            match r {
                Ok(list) => {
                    &&& all_readable(crypto.key(), self@.rows)
                    &&& is_listing_of(
                        list.deep_view(),
                        items_of(crypto.key(), self@.rows),
                        SortOrder::NameAsc,
                    )
                    &&& forall|i: int| 0 <= i < list.len() ==> (#[trigger] list[i])@.wf()
                },
                Err(e) => read_refused(e, crypto.key(), self@.rows) && !all_readable(
                    crypto.key(),
                    self@.rows,
                ),
            },
    {
        let items = decode_all(&self.rows, crypto)?;
        let ghost decoded = items.deep_view();
        let list = sort_items(items, SortOrder::NameAsc);
        proof {
            assert forall|i: int| 0 <= i < list.len() implies (#[trigger] list[i])@.wf() by {
                lemma_listing_members(list.deep_view(), decoded, SortOrder::NameAsc, i);
                let k = choose|k: int| 0 <= k < decoded.len() && decoded[k] == list.deep_view()[i];
                assert(decoded[k] == items[k]@);
            }
        }
        Ok(list)
    }
}

/// The order of a listing where none is asked for: newest first.
pub open spec fn order_or_default(order_by: Option<SortOrder>) -> SortOrder {
    match order_by {
        Some(o) => o,
        None => SortOrder::CreatedAtDesc,
    }
}

impl StorageView {
    /// The rows directly under a parent.
    pub open spec fn children(self, parent: Option<Seq<char>>) -> Seq<RowView> {
        self.rows.filter(under_parent(parent))
    }

    /// The items directly under a parent that pass an optional type filter.
    pub open spec fn wanted(
        self,
        key: Option<Seq<u8>>,
        parent: Option<Seq<char>>,
        filter: Option<Seq<char>>,
    ) -> Seq<ItemView> {
        match filter {
            Some(f) => items_of(key, self.children(parent)).filter(passes_type(f)),
            None => items_of(key, self.children(parent)),
        }
    }
}

} // verus!
