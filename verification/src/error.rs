//! The failures that vault operations report.

use vstd::prelude::*;
use vstd::string::StringExecFns;

verus! {

/// Why a vault operation did not complete.
#[derive(Debug)]
pub enum Error {
    /// The operation needs an unlocked vault.
    VaultLocked,
    /// The vault already holds a salt and a verification token.
    VaultAlreadyInitialized,
    /// The passphrase did not open the verification token.
    InvalidMasterKey,
    /// A caller-supplied value broke a validation rule; the text names the rule.
    InvalidInput(String),
    /// No item carries the given id.
    ItemNotFound(String),
    /// The encryption engine holds no key.
    NotUnlocked,
    /// The authentication tag did not verify, or the ciphertext is malformed.
    DecryptionFailed,
    /// The key-derivation parameters were rejected.
    KeyDerivation(String),
    /// The store could not carry out the request.
    Storage(String),
    /// Anything that should not happen.
    Internal(String),
}

impl Error {
    /// The text carried by the variants that carry one, empty for the others.
    pub open spec fn detail(self) -> Seq<char> {
        match self {
            Error::InvalidInput(s) => s@,
            Error::ItemNotFound(s) => s@,
            Error::KeyDerivation(s) => s@,
            Error::Storage(s) => s@,
            Error::Internal(s) => s@,
            _ => Seq::empty(),
        }
    }

    /// The fixed opening words of the message of each variant.
    pub open spec fn headline(self) -> Seq<char> {
        match self {
            Error::VaultLocked => "Vault is locked"@,
            Error::VaultAlreadyInitialized => "Vault is already initialized"@,
            Error::InvalidMasterKey => "Invalid master key"@,
            Error::InvalidInput(_) => "Invalid input: "@,
            Error::ItemNotFound(_) => "Item not found: "@,
            Error::NotUnlocked => "Crypto engine is not unlocked"@,
            Error::DecryptionFailed => "Decryption failed"@,
            Error::KeyDerivation(_) => "Key derivation error: "@,
            Error::Storage(_) => "Storage error: "@,
            Error::Internal(_) => "Internal error: "@,
        }
    }

    /// A line of text for the user: the headline followed by the detail.
    pub fn message(&self) -> (text: String)
        ensures
            text@ == self.headline() + self.detail(),
    {
        match self {
            Error::VaultLocked => String::from_str("Vault is locked"),
            Error::VaultAlreadyInitialized => String::from_str("Vault is already initialized"),
            Error::InvalidMasterKey => String::from_str("Invalid master key"),
            Error::InvalidInput(s) => String::from_str("Invalid input: ").concat(s.as_str()),
            Error::ItemNotFound(s) => String::from_str("Item not found: ").concat(s.as_str()),
            Error::NotUnlocked => String::from_str("Crypto engine is not unlocked"),
            Error::DecryptionFailed => String::from_str("Decryption failed"),
            Error::KeyDerivation(s) => String::from_str("Key derivation error: ").concat(
                s.as_str(),
            ),
            Error::Storage(s) => String::from_str("Storage error: ").concat(s.as_str()),
            Error::Internal(s) => String::from_str("Internal error: ").concat(s.as_str()),
        }
    }
}

/// An `InvalidInput` failure that carries `text`.
pub fn invalid_input(text: &str) -> (e: Error)
    ensures
        e matches Error::InvalidInput(s) && s@ == text@,
{
    Error::InvalidInput(String::from_str(text))
}

} // verus!
