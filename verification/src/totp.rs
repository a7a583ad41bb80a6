//! One-time passwords and the images by which an authenticator takes
//! them over. The algorithms are those of `totp-rs`.

use vstd::prelude::*;
use vstd::string::StringExecFns;
use crate::error::Error;
use crate::time::Timestamp;

verus! {

/// Digits of a code.
pub const TOTP_DIGITS: usize = 6;

/// Steps before and after the current one in which a code is accepted.
pub const TOTP_SKEW: u8 = 1;

/// Seconds for which one code holds.
pub const TOTP_STEP: u64 = 30;

/// The bytes that `base64::engine::general_purpose::STANDARD` decodes a text
/// to, or `None` where it rejects the text.
pub uninterp spec fn base64_decoded(text: Seq<char>) -> Option<Seq<u8>>;

/// The code that `totp_rs::TOTP::generate` gives at `time` for a SHA-1
/// generator made by `TOTP::new` without issuer or account name, or `None`
/// where `TOTP::new` refuses the parameters.
pub uninterp spec fn totp_code(
    secret: Seq<u8>,
    digits: usize,
    skew: u8,
    step: u64,
    time: u64,
) -> Option<Seq<char>>;

/// The image that `totp_rs::TOTP::get_qr_base64` gives for a SHA-1
/// generator made by `TOTP::new`: a PNG in base64. `None` where `TOTP::new`
/// refuses the parameters or the image cannot be made.
pub uninterp spec fn totp_qr(
    secret: Seq<u8>,
    digits: usize,
    skew: u8,
    step: u64,
    issuer: Seq<char>,
    account: Seq<char>,
) -> Option<Seq<char>>;

/// Calls `base64::Engine::decode` on `STANDARD`. The bytes, or the refusal,
/// are named, not described.
#[verifier::external_body]
fn decode_base64(text: &str) -> (r: Option<Vec<u8>>)
    ensures
        match r {
            Some(bytes) => base64_decoded(text@) == Some(bytes@),
            None => base64_decoded(text@) is None,
        },
{
    base64::Engine::decode(&base64::engine::general_purpose::STANDARD, text).ok()
}

/// Calls `totp_rs::TOTP::new` for SHA-1 without issuer and with an empty
/// account name, and `generate` on the result. The code, or the refusal of
/// the parameters, is named, not described. The step must not be zero:
/// `generate` divides by it.
#[verifier::external_body]
fn code_at(secret: &[u8], digits: usize, skew: u8, step: u64, time: u64) -> (r: Option<String>)
    requires
        step > 0,
    ensures
        r.deep_view() == totp_code(secret@, digits, skew, step, time),
{
    let totp = totp_rs::TOTP::new(
        totp_rs::Algorithm::SHA1,
        digits,
        skew,
        step,
        secret.to_vec(),
        None,
        String::new(),
    ).ok()?;
    Some(totp.generate(time))
}

/// Calls `totp_rs::TOTP::new` for SHA-1 and `get_qr_base64` on the result.
/// The image, or the failure, is named, not described.
#[verifier::external_body]
fn qr_image(secret: &[u8], digits: usize, skew: u8, step: u64, issuer: &str, account: &str) -> (r:
    Option<String>)
    ensures
        r.deep_view() == totp_qr(secret@, digits, skew, step, issuer@, account@),
{
    let totp = totp_rs::TOTP::new(
        totp_rs::Algorithm::SHA1,
        digits,
        skew,
        step,
        secret.to_vec(),
        Some(issuer.to_string()),
        account.to_string(),
    ).ok()?;
    totp.get_qr_base64().ok()
}

/// The code that a secret gives at `time`, the secret being the base64 text
/// of its bytes.
pub open spec fn code_for(secret: Seq<char>, time: u64) -> Option<Seq<char>> {
    match base64_decoded(secret) {
        Some(bytes) => totp_code(bytes, TOTP_DIGITS, TOTP_SKEW, TOTP_STEP, time),
        None => None,
    }
}

/// The image for a secret, an issuer and an item.
pub open spec fn qr_for(secret: Seq<char>, issuer: Seq<char>, item_name: Seq<char>) -> Option<
    Seq<char>,
> {
    match base64_decoded(secret) {
        Some(bytes) => totp_qr(bytes, TOTP_DIGITS, TOTP_SKEW, TOTP_STEP, issuer, item_name),
        None => None,
    }
}

/// What asking for the one-time password of a secret at `time` gives: the
/// code, or `Internal` where the secret is no base64 or is refused as a
/// secret.
pub open spec fn totp_outcome(r: Result<String, Error>, secret: Seq<char>, time: u64) -> bool {
    match r {
        Ok(code) => code_for(secret, time) == Some(code@),
        Err(e) => e is Internal && code_for(secret, time) is None,
    }
}

/// The one-time password for `time`, in seconds since the epoch. `Internal`
/// where the secret is no base64 or is refused as a secret.
pub fn generate_totp_at(secret: &str, time: u64) -> (r: Result<String, Error>)
    ensures
        totp_outcome(r, secret@, time),
{
    let bytes = match decode_base64(secret) {
        Some(bytes) => bytes,
        None => {
            return Err(Error::Internal(String::from_str("Failed to decode TOTP secret")));
        },
    };
    match code_at(bytes.as_slice(), TOTP_DIGITS, TOTP_SKEW, TOTP_STEP, time) {
        Some(code) => Ok(code),
        None => Err(Error::Internal(String::from_str("Failed to create TOTP instance"))),
    }
}

/// The one-time password for the current instant.
pub fn generate_totp(secret: &str) -> (r: Result<String, Error>)
    ensures
        exists|time: u64| #[trigger] totp_outcome(r, secret@, time),
{
    let now = Timestamp::now();
    let time: u64 = now.secs as u64;
    let r = generate_totp_at(secret, time);
    assert(totp_outcome(r, secret@, time));
    r
}

/// The image by which an authenticator takes a secret over: a PNG in base64.
/// `Internal` where the secret is no base64 or is refused, where the issuer
/// or the name holds a colon, and where the image cannot be made.
pub fn generate_qr_code(item_name: &str, issuer: &str, secret: &str) -> (r: Result<String, Error>)
    ensures
        match r {
            Ok(image) => qr_for(secret@, issuer@, item_name@) == Some(image@),
            Err(e) => e is Internal && qr_for(secret@, issuer@, item_name@) is None,
        },
{
    let bytes = match decode_base64(secret) {
        Some(bytes) => bytes,
        None => {
            return Err(Error::Internal(String::from_str("Failed to decode TOTP secret for QR")));
        },
    };
    match qr_image(bytes.as_slice(), TOTP_DIGITS, TOTP_SKEW, TOTP_STEP, issuer, item_name) {
        Some(image) => Ok(image),
        None => Err(Error::Internal(String::from_str("QR generation failed"))),
    }
}

} // verus!
