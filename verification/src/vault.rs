//! The vault session: one store and one encryption engine, with the
//! operations on the vault as a whole: initializing, unlocking and locking,
//! the settings, rotating the key and deleting the vault.

use vstd::prelude::*;
use vstd::string::StringExecFns;
use vstd::utf8::encode_utf8;
use crate::crypto::{
    derived_key, kdf_inputs_ok, open_under, verification_marker, Crypto, KeyDerivationStrength,
};
use crate::error::Error;
use crate::items::content_outcome;
use crate::lockout::{
    failed_at, locked_out, seconds_left, settings_after_check, settings_after_reset, LockoutStatus,
    PersistentRateLimiter,
};
use crate::reseal::{
    all_encodable, all_read_back, lemma_rotation_keeps_content, lemma_rotation_keeps_items,
    payloads_present, reseal_refused, resealed,
};
use crate::row::{all_readable, decoded_row, row_item};
use crate::settings::{default_brute_force_config, BruteForceConfig, SettingsView};
use crate::storage::{has_file, has_id, row_index, Storage, StorageView};
use crate::text::{chars_of, decimal, push_decimal, string_of};
use crate::time::Timestamp;

verus! {

/// The session.
pub struct VaultState {
    pub storage: Storage,
    pub crypto: Crypto,
}

/// What a caller may know of the vault without unlocking it.
#[derive(Clone, Copy, Debug, PartialEq, Eq, Structural)]
pub struct VaultStatus {
    pub initialized: bool,
    pub unlocked: bool,
    pub strength: Option<KeyDerivationStrength>,
}

/// The passphrase and the strength for a new vault.
pub struct InitializeVaultArgs {
    pub master_key: String,
    pub strength: Option<KeyDerivationStrength>,
}

/// The mathematical content of the session: the store, and the key that the
/// engine holds.
pub struct VaultView {
    pub storage: StorageView,
    pub key: Option<Seq<u8>>,
}

impl View for VaultState {
    type V = VaultView;

    open spec fn view(&self) -> VaultView {
        VaultView { storage: self.storage@, key: self.crypto.key() }
    }
}

/// The passphrase that confirms the deletion of the vault.
pub struct DeleteVaultArgs {
    pub master_key: String,
}

/// The passphrases and the strength for a key rotation.
pub struct UpdateMasterKeyArgs {
    pub current_key: String,
    pub new_key: String,
    pub strength: Option<KeyDerivationStrength>,
}

/// The strength asked for, `Recommended` where none is.
pub open spec fn strength_or_default(
    strength: Option<KeyDerivationStrength>,
) -> KeyDerivationStrength {
    match strength {
        Some(s) => s,
        None => KeyDerivationStrength::Recommended,
    }
}

/// The store with other settings.
pub open spec fn with_settings(v: StorageView, settings: SettingsView) -> StorageView {
    StorageView { settings, ..v }
}

/// The store of a vault that was just initialized with `salt`, `strength`
/// and the verification token `token`.
pub open spec fn initialized_store(
    v: StorageView,
    salt: Seq<u8>,
    strength: KeyDerivationStrength,
    token: Seq<u8>,
) -> StorageView {
    StorageView {
        salt: Some(salt),
        verification_token: Some(token),
        settings: SettingsView {
            kdf_strength: Some(strength),
            brute_force: Some(default_brute_force_config()),
            failed_attempts: Some(0),
            last_failed_attempt: None,
            theme: v.settings.theme,
        },
        ..v
    }
}

/// The whole minutes to wait for `seconds`, rounded up.
pub open spec fn minutes_to_wait(seconds: int) -> int {
    (seconds + 59) / 60
}

/// What a caller is told while the vault is locked out.
pub open spec fn lockout_message(minutes: nat) -> Seq<char> {
    "Account locked due to too many failed attempts. Please wait "@ + decimal(minutes)
        + " minutes before trying again."@
}

/// The key that a passphrase gives with the stored salt and strength.
pub open spec fn key_for(v: StorageView, master_key: Seq<char>) -> Seq<u8> {
    derived_key(master_key, v.salt.unwrap(), v.settings.strength())
}

/// Whether no key can be derived for the passphrase: the vault lacks its
/// salt or its token, or the derivation refuses the inputs.
pub open spec fn key_fault(v: StorageView, master_key: Seq<char>) -> bool {
    !v.initialized() || !kdf_inputs_ok(encode_utf8(master_key), v.salt.unwrap())
}

/// Whether the passphrase is the vault's: the key it gives opens the
/// verification token.
pub open spec fn opens_vault(v: StorageView, master_key: Seq<char>) -> bool {
    &&& !key_fault(v, master_key)
    &&& open_under(key_for(v, master_key), v.verification_token.unwrap()) is Some
}

/// The store after a key rotation: sealed again, with the new salt and the
/// new strength.
pub open spec fn rotated(
    before: StorageView,
    after: StorageView,
    from: Seq<u8>,
    to: Seq<u8>,
    salt: Seq<u8>,
    strength: KeyDerivationStrength,
) -> bool {
    exists|sealed: StorageView|
        {
            &&& #[trigger] resealed(before, sealed, from, to)
            &&& after == (StorageView {
                salt: Some(salt),
                settings: SettingsView { kdf_strength: Some(strength), ..sealed.settings },
                ..sealed
            })
        }
}

/// The strength of the new key: the one asked for, else the one in force.
pub open spec fn new_strength(
    v: StorageView,
    asked: Option<KeyDerivationStrength>,
) -> KeyDerivationStrength {
    match asked {
        Some(s) => s,
        None => v.settings.strength(),
    }
}

/// What unlocking with `master_key` at `now` makes of the session.
pub open spec fn unlock_outcome(
    before: VaultView,
    after: VaultView,
    r: Result<(), Error>,
    master_key: Seq<char>,
    now: Timestamp,
) -> bool {
    match r {
        Ok(_) => {
            &&& !locked_out(before.storage.settings, now)
            &&& opens_vault(before.storage, master_key)
            &&& after.key == Some(key_for(before.storage, master_key))
            &&& after.storage == with_settings(
                before.storage,
                settings_after_reset(settings_after_check(before.storage.settings, now)),
            )
        },
        Err(e) => if locked_out(before.storage.settings, now) {
            &&& e matches Error::InvalidInput(text) && text@ == lockout_message(
                minutes_to_wait(seconds_left(before.storage.settings, now)) as nat,
            )
            &&& after.storage == before.storage
            &&& after.key == before.key
        } else if key_fault(before.storage, master_key) {
            &&& e is Storage || e is KeyDerivation
            &&& e is Storage <==> !before.storage.initialized()
            &&& after.key == before.key
            &&& after.storage == with_settings(
                before.storage,
                settings_after_check(before.storage.settings, now),
            )
        } else {
            &&& e is InvalidMasterKey
            &&& !opens_vault(before.storage, master_key)
            &&& after.key is None
            &&& exists|later: Timestamp| #[trigger]
                failed_at(
                    with_settings(
                        before.storage,
                        settings_after_check(before.storage.settings, now),
                    ),
                    after.storage,
                    later,
                )
        },
    }
}

/// What initializing with `args` and `salt` makes of the session.
pub open spec fn initialize_outcome(
    before: VaultView,
    after: VaultView,
    r: Result<(), Error>,
    args: InitializeVaultArgs,
    salt: Seq<u8>,
) -> bool {
    match r {
        Ok(_) => {
            let strength = strength_or_default(args.strength);
            let key = derived_key(args.master_key@, salt, strength);
            &&& !before.storage.initialized()
            &&& kdf_inputs_ok(encode_utf8(args.master_key@), salt)
            &&& after.key == Some(key)
            &&& after.storage.verification_token is Some
            &&& open_under(key, after.storage.verification_token.unwrap()) == Some(
                verification_marker(),
            )
            &&& after.storage == initialized_store(
                before.storage,
                salt,
                strength,
                after.storage.verification_token.unwrap(),
            )
        },
        Err(e) => {
            &&& after.storage == before.storage
            &&& after.key == before.key
            &&& if before.storage.initialized() {
                e is VaultAlreadyInitialized
            } else {
                e is KeyDerivation && !kdf_inputs_ok(encode_utf8(args.master_key@), salt)
            }
        },
    }
}

/// What a key rotation with `args` and the new salt makes of the session:
/// the whole store is sealed again and the session holds the new key; or
/// neither the store nor the key that the session holds is changed.
pub open spec fn rotation_outcome(
    before: VaultView,
    after: VaultView,
    r: Result<(), Error>,
    args: UpdateMasterKeyArgs,
    new_salt: Seq<u8>,
) -> bool {
    let v = before.storage;
    let from = key_for(v, args.current_key@);
    let strength = new_strength(v, args.strength);
    let to = derived_key(args.new_key@, new_salt, strength);
    match r {
        Ok(_) => {
            &&& opens_vault(v, args.current_key@)
            &&& kdf_inputs_ok(encode_utf8(args.new_key@), new_salt)
            &&& all_readable(Some(from), v.rows)
            &&& all_encodable(Some(from), v.rows)
            &&& all_read_back(Some(from), v.rows)
            &&& payloads_present(v, Some(from))
            &&& after.key == Some(to)
            &&& rotated(v, after.storage, from, to, new_salt, strength)
        },
        Err(e) => {
            &&& after.storage == v
            &&& after.key == before.key
            &&& if !v.initialized() {
                e is Storage
            } else if key_fault(v, args.current_key@) {
                e is KeyDerivation
            } else if !opens_vault(v, args.current_key@) {
                e is InvalidMasterKey
            } else if !kdf_inputs_ok(encode_utf8(args.new_key@), new_salt) {
                e is KeyDerivation
            } else {
                reseal_refused(e, v, Some(from))
            }
        },
    }
}

/// What a caller is told while the vault is locked out.
pub fn lockout_notice(remaining_seconds: i64) -> (e: Error)
    requires
        0 <= remaining_seconds <= i64::MAX - 59,
    ensures
        e matches Error::InvalidInput(text) && text@ == lockout_message(
            minutes_to_wait(remaining_seconds as int) as nat,
        ),
{
    let minutes: u64 = ((remaining_seconds + 59) / 60) as u64;
    let mut text = chars_of("Account locked due to too many failed attempts. Please wait ");
    push_decimal(&mut text, minutes);
    let tail = chars_of(" minutes before trying again.");
    let mut i: usize = 0;
    let ghost head = text@;
    while i < tail.len()
        invariant
            i <= tail.len(),
            text@ == head + tail@.subrange(0, i as int),
        decreases tail.len() - i,
    {
        text.push(tail[i]);
        i += 1;
        assert(text@ =~= head + tail@.subrange(0, i as int));
    }
    assert(tail@.subrange(0, tail.len() as int) =~= tail@);
    Error::InvalidInput(string_of(text.as_slice()))
}

/// Derives the key for a passphrase and holds it against the verification
/// token.
///
/// Fails with `Storage` where the vault lacks its salt or its token, else
/// with `KeyDerivation` where the derivation refuses the inputs, else with
/// `InvalidMasterKey` where the key does not open the token.
pub fn check_master_key(storage: &Storage, master_key: &str) -> (r: Result<Vec<u8>, Error>)
    ensures
        match r {
            Ok(key) => opens_vault(storage@, master_key@) && key@ == key_for(storage@, master_key@)
                && key.len() == crate::crypto::KEY_LEN,
            Err(e) => if !storage@.initialized() {
                e is Storage
            } else if key_fault(storage@, master_key@) {
                e is KeyDerivation
            } else {
                e is InvalidMasterKey && !opens_vault(storage@, master_key@)
            },
        },
{
    let salt = storage.get_salt()?;
    let strength = storage.get_key_derivation_strength();
    let token = storage.get_verification_token()?;
    let deriver = Crypto::new();
    let key = deriver.derive_key(master_key, salt.as_slice(), strength)?;
    let mut checker = Crypto::new();
    match checker.unlock(key.as_slice()) {
        Ok(_) => {},
        Err(e) => {
            return Err(e);
        },
    }
    match checker.decrypt(token.as_slice()) {
        Ok(_) => Ok(key),
        Err(_) => Err(Error::InvalidMasterKey),
    }
}

impl VaultState {
    /// The invariant of the session.
    pub open spec fn wf(&self) -> bool {
        self.storage.wf() && self.crypto.wf()
    }

    /// A session on an empty store at `vault_path`, with a locked engine.
    pub fn new(vault_path: String) -> (state: VaultState)
        ensures
            state.wf(),
            !state.crypto.unlocked(),
            state.storage@ == StorageView::empty(vault_path@),
    {
        VaultState { storage: Storage::new(vault_path), crypto: Crypto::new() }
    }

    /// A session on a store that was loaded, with a locked engine.
    pub fn with_storage(storage: Storage) -> (state: VaultState)
        requires
            storage.wf(),
        ensures
            state.wf(),
            !state.crypto.unlocked(),
            state.storage@ == storage@,
    {
        VaultState { storage, crypto: Crypto::new() }
    }

    /// Whether the vault is initialized and unlocked, and with which strength
    /// its key is derived.
    pub fn get_vault_status(&self) -> (status: VaultStatus)
        ensures
            status.initialized == self.storage@.initialized(),
            status.unlocked == self.crypto.unlocked(),
            status.strength == if self.storage@.initialized() {
                Some(self.storage@.settings.strength())
            } else {
                None
            },
    {
        let initialized = self.storage.is_initialized();
        VaultStatus {
            initialized,
            unlocked: self.crypto.is_unlocked(),
            strength: if initialized {
                Some(self.storage.get_key_derivation_strength())
            } else {
                None
            },
        }
    }

    /// The derivation strength of an initialized vault.
    pub fn get_key_derivation_strength(&self) -> (r: Result<KeyDerivationStrength, Error>)
        ensures
            match r {
                Ok(s) => self.storage@.initialized() && s == self.storage@.settings.strength(),
                Err(e) => e is Internal && !self.storage@.initialized(),
            },
    {
        if !self.storage.is_initialized() {
            return Err(Error::Internal(String::from_str("Vault not initialized")));
        }
        Ok(self.storage.get_key_derivation_strength())
    }

    /// Whether the vault holds a salt and a verification token.
    pub fn is_vault_initialized(&self) -> (b: bool)
        ensures
            b == self.storage@.initialized(),
    {
        self.storage.is_initialized()
    }

    /// Initializes the vault with the given salt: derives the key, writes the
    /// salt and the first settings, unlocks the engine and stores the sealed
    /// verification marker.
    ///
    /// Fails, and changes nothing, with `VaultAlreadyInitialized` where the
    /// vault is initialized, else with `KeyDerivation` where the derivation
    /// refuses the passphrase or the salt.
    pub fn initialize_vault_with_salt(&mut self, args: &InitializeVaultArgs, salt: &[u8]) -> (r:
        Result<(), Error>)
        requires
            old(self).wf(),
        ensures
            final(self).wf(),
            initialize_outcome(old(self)@, final(self)@, r, *args, salt@),
    {
        if self.storage.is_initialized() {
            return Err(Error::VaultAlreadyInitialized);
        }
        let strength = match args.strength {
            Some(s) => s,
            None => KeyDerivationStrength::Recommended,
        };
        let key = self.crypto.derive_key(args.master_key.as_str(), salt, strength)?;
        let mut engine = Crypto::new();
        match engine.unlock(key.as_slice()) {
            Ok(_) => {},
            Err(e) => {
                return Err(e);
            },
        }
        let marker = Crypto::generate_verification_token();
        let token = match engine.encrypt(marker.as_slice()) {
            Ok(token) => token,
            Err(e) => {
                return Err(e);
            },
        };
        self.storage.initialize(salt, strength);
        self.storage.store_verification_token(token.as_slice());
        self.crypto = engine;
        Ok(())
    }

    /// Initializes the vault with a fresh random salt.
    ///
    /// Fails, and changes nothing, with `VaultAlreadyInitialized` where the
    /// vault is initialized, else with `KeyDerivation` where the passphrase is
    /// too long for the derivation.
    pub fn initialize_vault(&mut self, args: &InitializeVaultArgs) -> (r: Result<(), Error>)
        requires
            old(self).wf(),
        ensures
            final(self).wf(),
            exists|salt: Seq<u8>|
                salt.len() == crate::crypto::SALT_LEN && #[trigger] initialize_outcome(
                    old(self)@,
                    final(self)@,
                    r,
                    *args,
                    salt,
                ),
    {
        let salt = Crypto::generate_salt();
        let r = self.initialize_vault_with_salt(args, salt.as_slice());
        assert(initialize_outcome(old(self)@, self@, r, *args, salt@));
        r
    }

    /// Forgets the key.
    pub fn lock_vault(&mut self)
        requires
            old(self).wf(),
        ensures
            final(self).wf(),
            !final(self).crypto.unlocked(),
            final(self).storage@ == old(self).storage@,
    {
        self.crypto.lock();
    }

    /// Checks the lockout at the current instant.
    pub fn get_lockout_status(&mut self) -> (status: LockoutStatus)
        requires
            old(self).wf(),
        ensures
            final(self).wf(),
            final(self).crypto.key() == old(self).crypto.key(),
            exists|now: Timestamp| #[trigger]
                crate::lockout::checked_at(old(self).storage@, final(self).storage@, status, now),
    {
        PersistentRateLimiter::check_and_update_lockout(&mut self.storage)
    }

    /// The policy in force.
    pub fn get_brute_force_config(&self) -> (config: BruteForceConfig)
        ensures
            config == self.storage@.settings.policy(),
    {
        self.storage.get_brute_force_config()
    }

    /// Sets the policy. Switching the policy off clears the counter of
    /// failed unlocks and the instant of the last of them.
    pub fn set_brute_force_config(&mut self, config: BruteForceConfig)
        requires
            old(self).wf(),
        ensures
            final(self).wf(),
            final(self).crypto.key() == old(self).crypto.key(),
            final(self).storage@ == with_settings(
                old(self).storage@,
                if config.enabled {
                    SettingsView { brute_force: Some(config), ..old(self).storage@.settings }
                } else {
                    SettingsView {
                        brute_force: Some(config),
                        failed_attempts: Some(0),
                        last_failed_attempt: None,
                        ..old(self).storage@.settings
                    }
                },
            ),
    {
        self.storage.set_brute_force_config(config);
        if !config.enabled {
            self.storage.set_failed_login_attempts(0);
            self.storage.set_last_failed_attempt_timestamp(None);
        }
    }

    /// Clears the counter of failed unlocks.
    pub fn reset_failed_attempts(&mut self)
        requires
            old(self).wf(),
        ensures
            final(self).wf(),
            final(self).crypto.key() == old(self).crypto.key(),
            final(self).storage@ == with_settings(
                old(self).storage@,
                settings_after_reset(old(self).storage@.settings),
            ),
    {
        PersistentRateLimiter::reset_attempts(&mut self.storage);
    }

    /// The theme in force.
    pub fn get_theme(&self) -> (theme: String)
        ensures
            theme@ == self.storage@.settings.theme_name(),
    {
        self.storage.get_theme()
    }

    /// Sets the theme.
    pub fn set_theme(&mut self, theme: &str)
        requires
            old(self).wf(),
        ensures
            final(self).wf(),
            final(self).crypto.key() == old(self).crypto.key(),
            final(self).storage@ == with_settings(
                old(self).storage@,
                SettingsView { theme: Some(theme@), ..old(self).storage@.settings },
            ),
    {
        self.storage.set_theme(theme);
    }

    /// Unlocks the vault with a passphrase, at the instant `now`.
    ///
    /// The lockout is checked first, so that a locked-out caller never
    /// reaches the verification; the check clears a lockout that has run
    /// out. Then the key is derived and held against the verification token.
    /// A key that opens the token stays in the engine and the counter of
    /// failures is cleared. A key that does not is forgotten, the engine is
    /// left locked and one more failure is counted.
    pub fn unlock_vault_at(&mut self, master_key: &str, now: &Timestamp) -> (r: Result<(), Error>)
        requires
            old(self).wf(),
            now.wf(),
        ensures
            final(self).wf(),
            unlock_outcome(old(self)@, final(self)@, r, master_key@, *now),
    {
        let status = PersistentRateLimiter::check_and_update_lockout_at(&mut self.storage, now);
        if status.is_locked_out {
            proof {
                let s = old(self).storage@.settings;
                let last = s.last_failed_attempt.unwrap();
                assert(last.wf());
                assert(0 <= seconds_left(s, *now) <= i64::MAX - 59);
            }
            return Err(lockout_notice(status.remaining_seconds));
        }
        match check_master_key(&self.storage, master_key) {
            Ok(key) => {
                match self.crypto.unlock(key.as_slice()) {
                    Ok(_) => {},
                    Err(e) => {
                        return Err(e);
                    },
                }
                PersistentRateLimiter::reset_attempts(&mut self.storage);
                Ok(())
            },
            Err(e) => {
                match e {
                    Error::InvalidMasterKey => {
                        self.crypto.lock();
                        PersistentRateLimiter::record_failed_attempt(&mut self.storage);
                        Err(Error::InvalidMasterKey)
                    },
                    other => Err(other),
                }
            },
        }
    }

    /// Unlocks the vault with a passphrase, at the current instant.
    pub fn unlock_vault(&mut self, master_key: &str) -> (r: Result<(), Error>)
        requires
            old(self).wf(),
        ensures
            final(self).wf(),
            exists|now: Timestamp|
                now.wf() && #[trigger] unlock_outcome(
                    old(self)@,
                    final(self)@,
                    r,
                    master_key@,
                    now,
                ),
    {
        let now = Timestamp::now();
        let r = self.unlock_vault_at(master_key, &now);
        assert(unlock_outcome(old(self)@, self@, r, master_key@, now));
        r
    }

    /// Deletes the vault: empties the store and locks the engine, once the
    /// passphrase has been verified.
    ///
    /// Fails, and changes nothing, as `check_master_key` fails.
    pub fn delete_vault(&mut self, args: &DeleteVaultArgs) -> (r: Result<(), Error>)
        requires
            old(self).wf(),
        ensures
            final(self).wf(),
            match r {
                Ok(_) => {
                    &&& opens_vault(old(self).storage@, args.master_key@)
                    &&& final(self).storage@ == StorageView::empty(old(self).storage@.vault_path)
                    &&& !final(self).crypto.unlocked()
                },
                Err(e) => {
                    &&& final(self).storage@ == old(self).storage@
                    &&& final(self).crypto.key() == old(self).crypto.key()
                    &&& if !old(self).storage@.initialized() {
                        e is Storage
                    } else if key_fault(old(self).storage@, args.master_key@) {
                        e is KeyDerivation
                    } else {
                        e is InvalidMasterKey && !opens_vault(old(self).storage@, args.master_key@)
                    }
                },
            },
    {
        match check_master_key(&self.storage, args.master_key.as_str()) {
            Ok(_) => {},
            Err(e) => {
                return Err(e);
            },
        }
        self.storage.reset();
        self.crypto.lock();
        Ok(())
    }

    /// Rotates the master key with the given new salt: verifies the current
    /// passphrase, derives the new key, seals the whole vault again from
    /// an engine that holds the current key into one that holds the new
    /// key, both made for the call, and only then replaces the salt, the
    /// strength and the session's engine.
    ///
    /// Fails as `check_master_key` fails for the current passphrase, else
    /// with `KeyDerivation` where the derivation refuses the new passphrase
    /// or salt, else as `Storage::reencrypt` fails. No failure changes the
    /// store or the session's engine: a session that was unlocked stays so,
    /// under the key it held.
    pub fn update_master_key_with_salt(
        &mut self,
        args: &UpdateMasterKeyArgs,
        new_salt: &[u8],
    ) -> (r: Result<(), Error>)
        requires
            old(self).wf(),
        ensures
            final(self).wf(),
            rotation_outcome(old(self)@, final(self)@, r, *args, new_salt@),
    {
        let current = check_master_key(&self.storage, args.current_key.as_str())?;
        let mut holder = Crypto::new();
        match holder.unlock(current.as_slice()) {
            Ok(_) => {},
            Err(e) => {
                return Err(e);
            },
        }
        let strength = match args.strength {
            Some(s) => s,
            None => self.storage.get_key_derivation_strength(),
        };
        let fresh = holder.derive_key(args.new_key.as_str(), new_salt, strength)?;
        let mut engine = Crypto::new();
        match engine.unlock(fresh.as_slice()) {
            Ok(_) => {},
            Err(e) => {
                return Err(e);
            },
        }
        self.storage.reencrypt(&holder, &engine)?;
        let ghost sealed = self.storage@;
        self.storage.update_salt(new_salt);
        self.storage.set_key_derivation_strength(strength);
        self.crypto = engine;
        proof {
            assert(resealed(
                old(self).storage@,
                sealed,
                key_for(old(self).storage@, args.current_key@),
                derived_key(args.new_key@, new_salt@, strength),
            ));
        }
        Ok(())
    }

    /// Rotates the master key with a fresh random salt. See
    /// `update_master_key_with_salt`.
    pub fn update_master_key(&mut self, args: &UpdateMasterKeyArgs) -> (r: Result<(), Error>)
        requires
            old(self).wf(),
        ensures
            final(self).wf(),
            exists|new_salt: Seq<u8>|
                new_salt.len() == crate::crypto::SALT_LEN && #[trigger] rotation_outcome(
                    old(self)@,
                    final(self)@,
                    r,
                    *args,
                    new_salt,
                ),
    {
        let salt = Crypto::generate_salt();
        let r = self.update_master_key_with_salt(args, salt.as_slice());
        assert(rotation_outcome(old(self)@, self@, r, *args, salt@));
        r
    }
}

/// The passphrase that a vault was initialized with opens it: the key that
/// it gives with the stored salt and strength opens the stored token.
pub proof fn lemma_initial_passphrase_opens(
    before: StorageView,
    after: StorageView,
    master_key: Seq<char>,
    salt: Seq<u8>,
    strength: KeyDerivationStrength,
)
    requires
        kdf_inputs_ok(encode_utf8(master_key), salt),
        after.verification_token is Some,
        after == initialized_store(before, salt, strength, after.verification_token.unwrap()),
        open_under(derived_key(master_key, salt, strength), after.verification_token.unwrap())
            == Some(verification_marker()),
    ensures
        opens_vault(after, master_key),
        key_for(after, master_key) == derived_key(master_key, salt, strength),
{
}

/// After a key rotation the new passphrase opens the vault: the key that
/// it gives with the new salt and strength opens the new token, to what the
/// old token opened to.
pub proof fn lemma_new_passphrase_opens(
    before: StorageView,
    after: StorageView,
    from: Seq<u8>,
    new_key: Seq<char>,
    salt: Seq<u8>,
    strength: KeyDerivationStrength,
)
    requires
        before.verification_token is Some,
        kdf_inputs_ok(encode_utf8(new_key), salt),
        rotated(before, after, from, derived_key(new_key, salt, strength), salt, strength),
    ensures
        opens_vault(after, new_key),
        open_under(key_for(after, new_key), after.verification_token.unwrap()) == open_under(
            from,
            before.verification_token.unwrap(),
        ),
{
    let to = derived_key(new_key, salt, strength);
    let sealed = choose|sealed: StorageView|
        {
            &&& #[trigger] resealed(before, sealed, from, to)
            &&& after == (StorageView {
                salt: Some(salt),
                settings: SettingsView { kdf_strength: Some(strength), ..sealed.settings },
                ..sealed
            })
        };
    assert(sealed.verification_token is Some);
}

/// A key rotation keeps every item and every content. Under the key that
/// the session holds afterwards, the row with an item's id is read as the
/// item that it was read as under the key of the current passphrase; and
/// where the item names a payload, that payload is there and opens to what
/// it opened to before. So the content of every item can be had after the
/// rotation, and is what it was.
pub proof fn lemma_rotation_keeps_contents(
    before: VaultView,
    after: VaultView,
    args: UpdateMasterKeyArgs,
    new_salt: Seq<u8>,
    i: int,
)
    requires
        before.storage.wf(),
        rotation_outcome(before, after, Ok(()), args, new_salt),
        0 <= i < before.storage.rows.len(),
    ensures
        ({
            let from = key_for(before.storage, args.current_key@);
            let item = row_item(Some(from), before.storage.rows[i]);
            &&& after.key is Some
            &&& has_id(after.storage.rows, item.id)
            &&& decoded_row(after.key, after.storage.row(item.id)) == Some(item)
            &&& item.data_path.len() > 0 ==> {
                &&& has_file(after.storage.files, item.data_path)
                &&& open_under(from, before.storage.payload(item.data_path)) is Some
                &&& open_under(after.key.unwrap(), after.storage.payload(item.data_path))
                    == open_under(from, before.storage.payload(item.data_path))
            }
        }),
{
    let v = before.storage;
    let from = key_for(v, args.current_key@);
    let strength = new_strength(v, args.strength);
    let to = derived_key(args.new_key@, new_salt, strength);
    let sealed = choose|sealed: StorageView|
        {
            &&& #[trigger] resealed(v, sealed, from, to)
            &&& after.storage == (StorageView {
                salt: Some(new_salt),
                settings: SettingsView { kdf_strength: Some(strength), ..sealed.settings },
                ..sealed
            })
        };
    let item = row_item(Some(from), v.rows[i]);
    lemma_rotation_keeps_items(v, sealed, from, to, i);
    assert(sealed.rows[i].id == item.id);
    let j = row_index(sealed.rows, item.id);
    lemma_rotation_keeps_items(v, sealed, from, to, j);
    assert(v.rows[j].id == v.rows[i].id);
    assert(j == i);
    if item.data_path.len() > 0 {
        assert(has_file(v.files, item.data_path));
        lemma_rotation_keeps_content(v, sealed, from, to, i);
        assert(after.storage.payload(item.data_path) == sealed.payload(item.data_path));
    }
}

/// After a key rotation every content can be had, and is what it was:
/// asking the session for the content of an item that names a payload gives
/// what that payload opened to under the key of the current passphrase
/// before the rotation.
pub proof fn lemma_rotation_keeps_what_is_read(
    before: VaultView,
    after: VaultView,
    args: UpdateMasterKeyArgs,
    new_salt: Seq<u8>,
    i: int,
    read: Result<Vec<u8>, Error>,
)
    requires
        before.storage.wf(),
        rotation_outcome(before, after, Ok(()), args, new_salt),
        0 <= i < before.storage.rows.len(),
        row_item(
            Some(key_for(before.storage, args.current_key@)),
            before.storage.rows[i],
        ).data_path.len() > 0,
        content_outcome(after, read, before.storage.rows[i].id),
    ensures
        ({
            let from = key_for(before.storage, args.current_key@);
            let path = row_item(Some(from), before.storage.rows[i]).data_path;
            read matches Ok(content) && open_under(from, before.storage.payload(path)) == Some(
                content@,
            )
        }),
{
    lemma_rotation_keeps_contents(before, after, args, new_salt, i);
}

} // verus!
