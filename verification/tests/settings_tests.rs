use fetch_vault::crypto::KeyDerivationStrength;
use fetch_vault::error::{invalid_input, Error};
use fetch_vault::settings::{strength_from_text, strength_to_text, VaultSettings};

#[test]
fn strengths_are_persisted_by_name() {
    assert_eq!(strength_to_text(KeyDerivationStrength::Fast), "Fast");
    assert_eq!(strength_to_text(KeyDerivationStrength::Recommended), "Recommended");
    assert_eq!(strength_to_text(KeyDerivationStrength::Paranoid), "Paranoid");
    for s in [
        KeyDerivationStrength::Fast,
        KeyDerivationStrength::Recommended,
        KeyDerivationStrength::Paranoid,
    ] {
        assert_eq!(strength_from_text(Some(&strength_to_text(s))), s);
    }
}

#[test]
fn unknown_names_read_as_recommended() {
    assert_eq!(strength_from_text(None), KeyDerivationStrength::Recommended);
    for name in ["", "fast", "FAST", "Fast ", "Strong", "Recommended"] {
        assert_eq!(strength_from_text(Some(name)), KeyDerivationStrength::Recommended);
    }
}

#[test]
fn new_settings_hold_nothing() {
    let s = VaultSettings::new();
    assert!(s.kdf_strength.is_none() && s.brute_force.is_none() && s.failed_attempts.is_none());
    assert!(s.last_failed_attempt.is_none() && s.theme.is_none());
    let mut t = s.duplicate();
    t.theme = Some("light".to_string());
    assert_eq!(format!("{:?}", t.duplicate()), format!("{:?}", t));
}

#[test]
fn messages_are_headline_and_detail() {
    assert_eq!(Error::VaultLocked.message(), "Vault is locked");
    assert_eq!(Error::VaultAlreadyInitialized.message(), "Vault is already initialized");
    assert_eq!(Error::InvalidMasterKey.message(), "Invalid master key");
    assert_eq!(Error::NotUnlocked.message(), "Crypto engine is not unlocked");
    assert_eq!(Error::DecryptionFailed.message(), "Decryption failed");
    assert_eq!(invalid_input("too long").message(), "Invalid input: too long");
    assert_eq!(Error::Storage("disk".to_string()).message(), "Storage error: disk");
    assert_eq!(Error::ItemNotFound("abc".to_string()).message(), "Item not found: abc");
    assert_eq!(Error::KeyDerivation("salt".to_string()).message(), "Key derivation error: salt");
    assert_eq!(Error::Internal("oops".to_string()).message(), "Internal error: oops");
}
