use fetch_vault::error::Error;
use fetch_vault::shred::{
    next_write_len, pattern_buffer, random_buffer, shred_patterns, FALLBACK_PATTERN,
    SHRED_BUFFER_LEN,
};
use fetch_vault::totp::{generate_qr_code, generate_totp, generate_totp_at};

#[test]
fn the_passes_are_four_patterns_in_order() {
    assert_eq!(shred_patterns(), [0x00, 0xFF, 0xAA, 0x55]);
    assert_eq!(FALLBACK_PATTERN, 0x00);
    assert_eq!(SHRED_BUFFER_LEN, 4096);
}

#[test]
fn a_pass_covers_the_file_in_pieces_of_one_buffer() {
    assert_eq!(next_write_len(0, 0), 0);
    assert_eq!(next_write_len(10, 0), 10);
    assert_eq!(next_write_len(10, 4), 6);
    assert_eq!(next_write_len(10, 10), 0);
    assert_eq!(next_write_len(4096, 0), 4096);
    assert_eq!(next_write_len(4097, 0), 4096);
    assert_eq!(next_write_len(4097, 4096), 1);
    assert_eq!(next_write_len(u64::MAX, 0), 4096);
    for size in [0u64, 1, 4095, 4096, 4097, 10_000, 12_288] {
        let mut written = 0u64;
        let mut writes = 0u64;
        loop {
            let len = next_write_len(size, written);
            if len == 0 {
                break;
            }
            written += len as u64;
            writes += 1;
        }
        assert_eq!(written, size);
        assert_eq!(writes, (size + 4095) / 4096);
    }
}

#[test]
fn buffers_hold_the_pattern_or_random_bytes() {
    assert_eq!(pattern_buffer(0xAA, 5), [0xAA; 5]);
    assert!(pattern_buffer(0x55, 0).is_empty());
    assert_eq!(random_buffer(64).len(), 64);
    assert_ne!(random_buffer(64), random_buffer(64));
}

const SECRET: &str = "MTIzNDU2Nzg5MDEyMzQ1Njc4OTA=";

#[test]
fn codes_are_those_of_the_rfc() {
    assert_eq!(generate_totp_at(SECRET, 59).unwrap(), "287082");
    assert_eq!(generate_totp_at(SECRET, 1_111_111_109).unwrap(), "081804");
    assert_eq!(generate_totp_at(SECRET, 1_234_567_890).unwrap(), "005924");
    assert_eq!(generate_totp_at(SECRET, 30).unwrap(), generate_totp_at(SECRET, 59).unwrap());
    assert_ne!(generate_totp_at(SECRET, 60).unwrap(), generate_totp_at(SECRET, 59).unwrap());
    let now = generate_totp(SECRET).unwrap();
    assert_eq!(now.len(), 6);
    assert!(now.chars().all(|c| c.is_ascii_digit()));
}

#[test]
fn a_secret_must_be_base64_and_long_enough() {
    assert!(matches!(generate_totp_at("not base64!", 59), Err(Error::Internal(_))));
    assert!(matches!(generate_totp_at("c2hvcnQ=", 59), Err(Error::Internal(_))));
    assert!(matches!(generate_totp("", ), Err(Error::Internal(_))));
    assert!(matches!(generate_qr_code("item", "issuer", "not base64!"), Err(Error::Internal(_))));
    assert!(matches!(generate_qr_code("item", "iss:uer", SECRET), Err(Error::Internal(_))));
    assert!(matches!(generate_qr_code("it:em", "issuer", SECRET), Err(Error::Internal(_))));
}

#[test]
fn the_image_is_a_png_in_base64() {
    let image = generate_qr_code("My account", "Vault", SECRET).unwrap();
    assert!(image.starts_with("iVBORw0KGgo"));
    assert_eq!(image, generate_qr_code("My account", "Vault", SECRET).unwrap());
    assert_ne!(image, generate_qr_code("Other account", "Vault", SECRET).unwrap());
}
