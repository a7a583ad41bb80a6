//! Key derivation and the encryption engine.
//!
//! A passphrase becomes a 256-bit key through Argon2id under one of three cost
//! profiles. The engine holds that key, or none while locked, and seals byte
//! strings with AES-256-GCM under a fresh random nonce that is stored in front
//! of the sealed bytes.

use vstd::prelude::*;
use vstd::slice::slice_to_vec;
use vstd::string::StringExecFns;
use crate::bytes::{concat, copy_range};
use crate::error::Error;

verus! {

/// Length of a derived key in bytes.
pub const KEY_LEN: usize = 32;

/// Length of the nonce that precedes every ciphertext.
pub const NONCE_LEN: usize = 12;

/// Length of the authentication tag that ends every ciphertext.
pub const TAG_LEN: usize = 16;

/// Length of a freshly generated salt.
pub const SALT_LEN: usize = 16;

/// The shortest salt the derivation accepts.
pub const MIN_SALT_LEN: usize = 8;

/// The longest passphrase or salt, in bytes, the derivation accepts.
pub const MAX_KDF_INPUT_LEN: u64 = 0xFFFF_FFFF;

/// The longest plaintext, in bytes, one call may seal.
pub const MAX_PLAINTEXT_LEN: u64 = 0x10_0000_0000;

/// How much work one key derivation costs.
#[derive(Clone, Copy, Debug, PartialEq, Eq, Structural)]
pub enum KeyDerivationStrength {
    Fast,
    Recommended,
    Paranoid,
}

impl Default for KeyDerivationStrength {
    fn default() -> (s: Self)
        ensures
            s == KeyDerivationStrength::Recommended,
    {
        KeyDerivationStrength::Recommended
    }
}

impl KeyDerivationStrength {
    /// Memory used by one derivation, in KiB.
    pub open spec fn spec_memory_kib(self) -> u32 {
        match self {
            KeyDerivationStrength::Fast => 19_456,
            KeyDerivationStrength::Recommended => 65_536,
            KeyDerivationStrength::Paranoid => 131_072,
        }
    }

    /// Passes over the memory.
    pub open spec fn spec_iterations(self) -> u32 {
        match self {
            KeyDerivationStrength::Fast => 2,
            KeyDerivationStrength::Recommended => 3,
            KeyDerivationStrength::Paranoid => 4,
        }
    }

    /// Memory used by one derivation, in KiB.
    #[verifier::when_used_as_spec(spec_memory_kib)]
    pub fn memory_kib(self) -> (m: u32)
        ensures
            m == self.spec_memory_kib(),
    {
        match self {
            KeyDerivationStrength::Fast => 19_456,
            KeyDerivationStrength::Recommended => 65_536,
            KeyDerivationStrength::Paranoid => 131_072,
        }
    }

    /// Passes over the memory.
    #[verifier::when_used_as_spec(spec_iterations)]
    pub fn iterations(self) -> (t: u32)
        ensures
            t == self.spec_iterations(),
    {
        match self {
            KeyDerivationStrength::Fast => 2,
            KeyDerivationStrength::Recommended => 3,
            KeyDerivationStrength::Paranoid => 4,
        }
    }
}

/// Lanes of every cost profile.
pub const KDF_LANES: u32 = 1;

/// The bytes that `argon2::Argon2::hash_password_into` writes for Argon2id,
/// version 0x13, with the given costs and an output of `out_len` bytes.
pub uninterp spec fn argon2id_hash(
    password: Seq<u8>,
    salt: Seq<u8>,
    m_cost: u32,
    t_cost: u32,
    p_cost: u32,
    out_len: nat,
) -> Seq<u8>;

/// What `aes_gcm::Aes256Gcm::encrypt` returns: the ciphertext followed by its tag.
pub uninterp spec fn aes256gcm_seal(key: Seq<u8>, nonce: Seq<u8>, plaintext: Seq<u8>) -> Seq<u8>;

/// What `aes_gcm::Aes256Gcm::decrypt` returns: the plaintext, or `None` where
/// the tag does not verify.
pub uninterp spec fn aes256gcm_open(key: Seq<u8>, nonce: Seq<u8>, sealed: Seq<u8>) -> Option<
    Seq<u8>,
>;

/// Whether the derivation accepts a passphrase and a salt of these lengths.
pub open spec fn kdf_inputs_ok(passphrase: Seq<u8>, salt: Seq<u8>) -> bool {
    passphrase.len() <= MAX_KDF_INPUT_LEN && MIN_SALT_LEN <= salt.len() <= MAX_KDF_INPUT_LEN
}

/// The key that a passphrase and a salt give under a cost profile.
pub open spec fn derived_key(
    passphrase: Seq<char>,
    salt: Seq<u8>,
    strength: KeyDerivationStrength,
) -> Seq<u8> {
    argon2id_hash(
        vstd::utf8::encode_utf8(passphrase),
        salt,
        strength.spec_memory_kib(),
        strength.spec_iterations(),
        KDF_LANES,
        KEY_LEN as nat,
    )
}

/// What a stored byte string opens to under a key: the first `NONCE_LEN` bytes
/// are the nonce, the rest is sealed under it.
pub open spec fn open_under(key: Seq<u8>, data: Seq<u8>) -> Option<Seq<u8>> {
    if data.len() < NONCE_LEN {
        None
    } else {
        aes256gcm_open(
            key,
            data.subrange(0, NONCE_LEN as int),
            data.subrange(NONCE_LEN as int, data.len() as int),
        )
    }
}

/// The marker that is sealed to make a verification token.
pub open spec fn verification_marker() -> Seq<u8> {
    vstd::utf8::encode_utf8("vault-verification-token-v1"@)
}

/// The encryption engine: locked, or unlocked with a key.
pub struct Crypto {
    key: Option<Vec<u8>>,
}

impl Crypto {
    /// The key held, if any.
    pub closed spec fn key(&self) -> Option<Seq<u8>> {
        match self.key {
            Some(k) => Some(k@),
            None => None,
        }
    }

    /// A held key has the length of a key.
    pub open spec fn wf(&self) -> bool {
        self.key() matches Some(k) ==> k.len() == KEY_LEN
    }

    /// Whether a key is held.
    pub open spec fn unlocked(&self) -> bool {
        self.key() is Some
    }

    /// What `decrypt` makes of `data` in the current state.
    pub open spec fn opened(&self, data: Seq<u8>) -> Option<Seq<u8>> {
        match self.key() {
            Some(k) => open_under(k, data),
            None => None,
        }
    }

    /// A locked engine.
    pub fn new() -> (c: Crypto)
        ensures
            c.wf(),
            !c.unlocked(),
    {
        Crypto { key: None }
    }

    /// Whether a key is held.
    pub fn is_unlocked(&self) -> (b: bool)
        ensures
            b == self.unlocked(),
    {
        self.key.is_some()
    }

    /// Takes `key` as the held key, replacing any key held before. A key of
    /// the wrong length is refused and leaves the engine as it was.
    pub fn unlock(&mut self, key: &[u8]) -> (r: Result<(), Error>)
        requires
            old(self).wf(),
        ensures
            final(self).wf(),
            match r {
                Ok(_) => key.len() == KEY_LEN && final(self).key() == Some(key@),
                Err(e) => key.len() != KEY_LEN && e is KeyDerivation && final(self).key() == old(
                    self,
                ).key(),
            },
    {
        if key.len() != KEY_LEN {
            return Err(Error::KeyDerivation(String::from_str("a key must be 32 bytes long")));
        }
        self.wipe();
        self.key = Some(slice_to_vec(key));
        Ok(())
    }

    /// Forgets the held key, after overwriting its bytes with zeros.
    pub fn lock(&mut self)
        requires
            old(self).wf(),
        ensures
            final(self).wf(),
            !final(self).unlocked(),
    {
        self.wipe();
    }

    /// Overwrites the held key with zeros and drops it.
    fn wipe(&mut self)
        ensures
            final(self).key() is None,
    {
        match self.key.take() {
            Some(mut k) => {
                let n: usize = k.len();
                let mut i: usize = 0;
                while i < n
                    invariant
                        i <= n,
                        k.len() == n,
                    decreases n - i,
                {
                    k[i] = 0;
                    i += 1;
                }
            },
            None => {},
        }
    }

    /// Seals `plaintext` under the held key and a fresh random nonce. The
    /// result is the nonce followed by the sealed bytes, and it opens to
    /// `plaintext` again under the same key.
    pub fn encrypt(&self, plaintext: &[u8]) -> (r: Result<Vec<u8>, Error>)
        requires
            self.wf(),
        ensures
            match r {
                Ok(data) => {
                    &&& self.unlocked()
                    &&& plaintext.len() <= MAX_PLAINTEXT_LEN
                    &&& data.len() == NONCE_LEN + plaintext.len() + TAG_LEN
                    &&& self.opened(data@) == Some(plaintext@)
                },
                Err(e) => if self.unlocked() {
                    e is Internal && plaintext.len() > MAX_PLAINTEXT_LEN
                } else {
                    e is NotUnlocked
                },
            },
    {
        match &self.key {
            None => Err(Error::NotUnlocked),
            Some(k) => {
                let nonce = random_bytes(NONCE_LEN);
                match seal(k.as_slice(), nonce.as_slice(), plaintext) {
                    Some(sealed) => {
                        let data = concat(nonce.as_slice(), sealed.as_slice());
                        proof {
                            assert(data@.subrange(0, NONCE_LEN as int) =~= nonce@);
                            assert(data@.subrange(NONCE_LEN as int, data@.len() as int)
                                =~= sealed@);
                        }
                        Ok(data)
                    },
                    None => Err(
                        Error::Internal(String::from_str("the plaintext is too long to seal")),
                    ),
                }
            },
        }
    }

    /// Opens `data` under the held key. Fails where no key is held, where
    /// `data` is shorter than a nonce, and where the tag does not verify.
    pub fn decrypt(&self, data: &[u8]) -> (r: Result<Vec<u8>, Error>)
        requires
            self.wf(),
        ensures
            match r {
                Ok(plaintext) => self.opened(data@) == Some(plaintext@),
                Err(e) => if self.unlocked() {
                    e is DecryptionFailed && self.opened(data@) is None
                } else {
                    e is NotUnlocked
                },
            },
    {
        match &self.key {
            None => Err(Error::NotUnlocked),
            Some(k) => {
                if data.len() < NONCE_LEN {
                    return Err(Error::DecryptionFailed);
                }
                let nonce = copy_range(data, 0, NONCE_LEN);
                let sealed = copy_range(data, NONCE_LEN, data.len());
                match open(k.as_slice(), nonce.as_slice(), sealed.as_slice()) {
                    Some(plaintext) => Ok(plaintext),
                    None => Err(Error::DecryptionFailed),
                }
            },
        }
    }

    /// Derives the key for `passphrase` and `salt` under `strength`. The same
    /// three inputs always give the same key. Only the lengths can make it
    /// fail: a salt under 8 bytes, or an input over 4 GiB.
    pub fn derive_key(
        &self,
        passphrase: &str,
        salt: &[u8],
        strength: KeyDerivationStrength,
    ) -> (r: Result<Vec<u8>, Error>)
        ensures
            match r {
                Ok(key) => {
                    &&& kdf_inputs_ok(vstd::utf8::encode_utf8(passphrase@), salt@)
                    &&& key@ == derived_key(passphrase@, salt@, strength)
                    &&& key.len() == KEY_LEN
                },
                Err(e) => e is KeyDerivation && !kdf_inputs_ok(
                    vstd::utf8::encode_utf8(passphrase@),
                    salt@,
                ),
            },
    {
        match argon2id(
            passphrase.as_bytes(),
            salt,
            strength.memory_kib(),
            strength.iterations(),
            KDF_LANES,
            KEY_LEN,
        ) {
            Some(key) => Ok(key),
            None => Err(
                Error::KeyDerivation(
                    String::from_str("the salt or the passphrase has an unusable length"),
                ),
            ),
        }
    }

    /// A fresh random salt of `SALT_LEN` bytes.
    pub fn generate_salt() -> (salt: Vec<u8>)
        ensures
            salt.len() == SALT_LEN,
    {
        random_bytes(SALT_LEN)
    }

    /// The fixed, non-secret marker whose ciphertext is the verification token.
    pub fn generate_verification_token() -> (marker: Vec<u8>)
        ensures
            marker@ == verification_marker(),
            marker.len() == 27,
    {
        let text = "vault-verification-token-v1";
        proof {
            reveal_strlit("vault-verification-token-v1");
            assert(vstd::string::is_ascii(text)) by {
                assert forall|i: int| 0 <= i < text@.len() implies (text@[i] as nat) < 128 by {}
            }
            vstd::string::is_ascii_spec_bytes(text);
        }
        slice_to_vec(text.as_bytes())
    }
}

/// Calls `rand::RngCore::fill_bytes` on `rand::rngs::OsRng` over a zeroed
/// buffer of `len` bytes. The bytes come from the operating system, so only the
/// length is claimed.
#[verifier::external_body]
pub(crate) fn random_bytes(len: usize) -> (out: Vec<u8>)
    ensures
        out.len() == len,
{
    let mut out = vec![0u8; len];
    rand::RngCore::fill_bytes(&mut rand::rngs::OsRng, &mut out);
    out
}

/// Calls `argon2::Argon2::hash_password_into` for Argon2id, version 0x13, with
/// parameters from `argon2::Params::new`. The call succeeds exactly when the
/// password is at most 0xFFFFFFFF bytes long and the salt between 8 and
/// 0xFFFFFFFF; the output is named, not described.
#[verifier::external_body]
fn argon2id(
    password: &[u8],
    salt: &[u8],
    m_cost: u32,
    t_cost: u32,
    p_cost: u32,
    out_len: usize,
) -> (r: Option<Vec<u8>>)
    requires
        8 <= m_cost,
        1 <= t_cost,
        1 <= p_cost <= 0xFF_FFFF,
        8 * p_cost <= m_cost,
        4 <= out_len <= 0xFFFF_FFFF,
    ensures
        r is Some <==> kdf_inputs_ok(password@, salt@),
        r matches Some(key) ==> key.len() == out_len && key@ == argon2id_hash(
            password@,
            salt@,
            m_cost,
            t_cost,
            p_cost,
            out_len as nat,
        ),
{
    let params = argon2::Params::new(m_cost, t_cost, p_cost, Some(out_len)).ok()?;
    let hasher = argon2::Argon2::new(argon2::Algorithm::Argon2id, argon2::Version::V0x13, params);
    let mut out = vec![0u8; out_len];
    hasher.hash_password_into(password, salt, &mut out).ok()?;
    Some(out)
}

/// Calls `aes_gcm::aead::Aead::encrypt` on an `Aes256Gcm` made from `key`. It
/// fails only for a plaintext over 2^36 bytes. The result is the plaintext's
/// length plus the tag, and `decrypt` with the same key and nonce recomputes
/// the same tag over it and gives the plaintext back.
#[verifier::external_body]
fn seal(key: &[u8], nonce: &[u8], plaintext: &[u8]) -> (r: Option<Vec<u8>>)
    requires
        key.len() == KEY_LEN,
        nonce.len() == NONCE_LEN,
    ensures
        r is Some <==> plaintext.len() <= MAX_PLAINTEXT_LEN,
        r matches Some(sealed) ==> {
            &&& sealed@ == aes256gcm_seal(key@, nonce@, plaintext@)
            &&& sealed.len() == plaintext.len() + TAG_LEN
            &&& aes256gcm_open(key@, nonce@, sealed@) == Some(plaintext@)
        },
{
    let cipher = <aes_gcm::Aes256Gcm as aes_gcm::KeyInit>::new_from_slice(key).ok()?;
    aes_gcm::aead::Aead::encrypt(&cipher, aes_gcm::Nonce::from_slice(nonce), plaintext).ok()
}

/// Calls `aes_gcm::aead::Aead::decrypt` on an `Aes256Gcm` made from `key`.
/// What it gives, the plaintext or the refusal, is named, not described.
#[verifier::external_body]
fn open(key: &[u8], nonce: &[u8], sealed: &[u8]) -> (r: Option<Vec<u8>>)
    requires
        key.len() == KEY_LEN,
        nonce.len() == NONCE_LEN,
    ensures
        match r {
            Some(plaintext) => aes256gcm_open(key@, nonce@, sealed@) == Some(plaintext@),
            None => aes256gcm_open(key@, nonce@, sealed@) is None,
        },
{
    let cipher = <aes_gcm::Aes256Gcm as aes_gcm::KeyInit>::new_from_slice(key).ok()?;
    aes_gcm::aead::Aead::decrypt(&cipher, aes_gcm::Nonce::from_slice(nonce), sealed).ok()
}

} // verus!
