use fetch_vault::crypto::{Crypto, KeyDerivationStrength, KEY_LEN, NONCE_LEN, SALT_LEN, TAG_LEN};
use fetch_vault::error::Error;

fn engine_with(byte: u8) -> Crypto {
    let mut c = Crypto::new();
    c.unlock(&[byte; 32]).unwrap();
    c
}

#[test]
fn round_trip_gives_the_plaintext_back() {
    let c = engine_with(7);
    for plain in [&b""[..], &b"a"[..], &b"hello vault"[..], &[0u8; 1000][..]] {
        let sealed = c.encrypt(plain).unwrap();
        assert_eq!(sealed.len(), NONCE_LEN + plain.len() + TAG_LEN);
        assert_eq!(c.decrypt(&sealed).unwrap(), plain.to_vec());
    }
}

#[test]
fn decrypt_fails_under_another_key() {
    let a = engine_with(1);
    let b = engine_with(2);
    let sealed = a.encrypt(b"secret").unwrap();
    assert!(matches!(b.decrypt(&sealed), Err(Error::DecryptionFailed)));
}

#[test]
fn decrypt_fails_on_tampered_and_short_input() {
    let c = engine_with(3);
    let mut sealed = c.encrypt(b"secret").unwrap();
    let last = sealed.len() - 1;
    sealed[last] ^= 1;
    assert!(matches!(c.decrypt(&sealed), Err(Error::DecryptionFailed)));
    assert!(matches!(c.decrypt(&[0u8; 5]), Err(Error::DecryptionFailed)));
    assert!(matches!(c.decrypt(&[]), Err(Error::DecryptionFailed)));
}

#[test]
fn a_locked_engine_refuses_to_seal_and_to_open() {
    let mut c = engine_with(4);
    let sealed = c.encrypt(b"x").unwrap();
    c.lock();
    assert!(!c.is_unlocked());
    assert!(matches!(c.encrypt(b"x"), Err(Error::NotUnlocked)));
    assert!(matches!(c.decrypt(&sealed), Err(Error::NotUnlocked)));
}

#[test]
fn every_call_seals_under_a_fresh_nonce() {
    let c = engine_with(5);
    let a = c.encrypt(b"same").unwrap();
    let b = c.encrypt(b"same").unwrap();
    assert_ne!(a, b);
    assert_ne!(a[..NONCE_LEN], b[..NONCE_LEN]);
}

#[test]
fn unlock_takes_only_keys_of_the_right_length() {
    let mut c = Crypto::new();
    assert!(matches!(c.unlock(&[0u8; 31]), Err(Error::KeyDerivation(_))));
    assert!(!c.is_unlocked());
    assert!(c.unlock(&[0u8; 32]).is_ok());
    assert!(c.is_unlocked());
    assert!(matches!(c.unlock(&[0u8; 33]), Err(Error::KeyDerivation(_))));
    assert!(c.is_unlocked());
}

#[test]
fn unlock_replaces_the_key_held() {
    let mut c = engine_with(1);
    let sealed = c.encrypt(b"x").unwrap();
    c.unlock(&[2u8; 32]).unwrap();
    assert!(matches!(c.decrypt(&sealed), Err(Error::DecryptionFailed)));
}

#[test]
fn derivation_is_a_function_of_its_inputs() {
    let c = Crypto::new();
    let salt = [9u8; 16];
    let a = c.derive_key("correct horse", &salt, KeyDerivationStrength::Fast).unwrap();
    let b = c.derive_key("correct horse", &salt, KeyDerivationStrength::Fast).unwrap();
    assert_eq!(a, b);
    assert_eq!(a.len(), KEY_LEN);
    let other_salt = c.derive_key("correct horse", &[8u8; 16], KeyDerivationStrength::Fast).unwrap();
    assert_ne!(a, other_salt);
    let other_pass = c.derive_key("correct horsf", &salt, KeyDerivationStrength::Fast).unwrap();
    assert_ne!(a, other_pass);
}

#[test]
fn derivation_matches_argon2id_of_the_fast_profile() {
    let c = Crypto::new();
    let salt = [1u8; 16];
    let key = c.derive_key("pw", &salt, KeyDerivationStrength::Fast).unwrap();
    let params = argon2::Params::new(19_456, 2, 1, Some(32)).unwrap();
    let hasher = argon2::Argon2::new(argon2::Algorithm::Argon2id, argon2::Version::V0x13, params);
    let mut expected = [0u8; 32];
    hasher.hash_password_into(b"pw", &salt, &mut expected).unwrap();
    assert_eq!(key, expected.to_vec());
}

#[test]
fn derivation_refuses_a_short_salt_but_no_passphrase() {
    let c = Crypto::new();
    assert!(matches!(
        c.derive_key("pw", &[], KeyDerivationStrength::Fast),
        Err(Error::KeyDerivation(_))
    ));
    assert!(matches!(
        c.derive_key("pw", &[0u8; 7], KeyDerivationStrength::Fast),
        Err(Error::KeyDerivation(_))
    ));
    assert!(c.derive_key("", &[0u8; 8], KeyDerivationStrength::Fast).is_ok());
}

#[test]
fn the_profiles_differ_in_cost_and_in_key() {
    assert_eq!(KeyDerivationStrength::Fast.memory_kib(), 19_456);
    assert_eq!(KeyDerivationStrength::Fast.iterations(), 2);
    assert_eq!(KeyDerivationStrength::Recommended.memory_kib(), 65_536);
    assert_eq!(KeyDerivationStrength::Recommended.iterations(), 3);
    assert_eq!(KeyDerivationStrength::Paranoid.memory_kib(), 131_072);
    assert_eq!(KeyDerivationStrength::Paranoid.iterations(), 4);
    assert_eq!(KeyDerivationStrength::default(), KeyDerivationStrength::Recommended);
    let c = Crypto::new();
    let salt = [3u8; 16];
    let fast = c.derive_key("pw", &salt, KeyDerivationStrength::Fast).unwrap();
    let recommended = c.derive_key("pw", &salt, KeyDerivationStrength::Recommended).unwrap();
    assert_ne!(fast, recommended);
}

#[test]
fn salts_are_fresh_and_of_fixed_length() {
    let a = Crypto::generate_salt();
    let b = Crypto::generate_salt();
    assert_eq!(a.len(), SALT_LEN);
    assert_eq!(b.len(), SALT_LEN);
    assert_ne!(a, b);
}

#[test]
fn the_verification_marker_is_fixed() {
    assert_eq!(Crypto::generate_verification_token(), b"vault-verification-token-v1".to_vec());
    assert_eq!(Crypto::generate_verification_token().len(), 27);
}
