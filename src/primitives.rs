//! The calls into outside crates and into std functions that vstd leaves
//! unspecified. Every item here is trusted: its contract is believed, not
//! proved, and says only what the called function's source or documentation
//! shows.
use vstd::prelude::*;
use aes_gcm_siv::aead::{Aead, KeyInit};
use base64::Engine;
use rand::RngCore;

verus! {

/// Largest plaintext, in bytes, that AES-256-GCM-SIV accepts.
pub const AEAD_MAX_PLAINTEXT: u64 = 68719476736;

/// Length in bytes of the authentication tag that AES-256-GCM-SIV appends.
pub const AEAD_TAG_LEN: usize = 16;

/// The AES-256-GCM-SIV ciphertext (with tag) of `plaintext` under `key` and `nonce`.
pub uninterp spec fn aead_seal(key: Seq<u8>, nonce: Seq<u8>, plaintext: Seq<u8>) -> Seq<u8>;

/// The AES-256-GCM-SIV decryption of `ciphertext`: `None` when the tag does not verify.
pub uninterp spec fn aead_open(key: Seq<u8>, nonce: Seq<u8>, ciphertext: Seq<u8>) -> Option<Seq<u8>>;

/// The standard, padded base64 text of `bytes`.
pub uninterp spec fn base64_text(bytes: Seq<u8>) -> Seq<char>;

/// The bytes that standard, padded base64 `text` stands for, if it is valid.
pub uninterp spec fn base64_bytes(text: Seq<char>) -> Option<Seq<u8>>;

/// The PBKDF2-HMAC-SHA256 output of 32 bytes.
pub uninterp spec fn pbkdf2_sha256(password: Seq<u8>, salt: Seq<u8>, rounds: u32) -> Seq<u8>;

/// Unicode lowercase of a string.
pub uninterp spec fn lowercase_of(s: Seq<char>) -> Seq<char>;

/// Relies on `Aes256GcmSiv::encrypt` (aes-gcm-siv): it fails only when the
/// plaintext exceeds `P_MAX`, appends a 16-byte tag, and what it returns is
/// opened again by `decrypt` under the same key and nonce.
#[verifier::external_body]
pub(crate) fn aead_encrypt(key: &[u8], nonce: &[u8], plaintext: &[u8]) -> (r: Option<Vec<u8>>)
    requires
        key@.len() == 32,
        nonce@.len() == 12,
    ensures
        r is Some <==> plaintext@.len() <= AEAD_MAX_PLAINTEXT,
        r matches Some(c) ==> c@ == aead_seal(key@, nonce@, plaintext@),
        r matches Some(c) ==> c@.len() == plaintext@.len() + AEAD_TAG_LEN,
        r matches Some(c) ==> aead_open(key@, nonce@, c@) == Some(plaintext@),
{
    let cipher = aes_gcm_siv::Aes256GcmSiv::new(aes_gcm_siv::Key::<aes_gcm_siv::Aes256GcmSiv>::from_slice(key));
    cipher.encrypt(aes_gcm_siv::Nonce::from_slice(nonce), plaintext).ok()
}

/// Relies on `Aes256GcmSiv::decrypt` (aes-gcm-siv): it returns the plaintext
/// when the tag verifies, and an error otherwise, in particular on a
/// ciphertext shorter than the tag.
#[verifier::external_body]
pub(crate) fn aead_decrypt(key: &[u8], nonce: &[u8], ciphertext: &[u8]) -> (r: Option<Vec<u8>>)
    requires
        key@.len() == 32,
        nonce@.len() == 12,
    ensures
        ciphertext@.len() < AEAD_TAG_LEN ==> r is None,
        match r {
            Some(p) => aead_open(key@, nonce@, ciphertext@) == Some(p@),
            None => aead_open(key@, nonce@, ciphertext@) is None,
        },
{
    let cipher = aes_gcm_siv::Aes256GcmSiv::new(aes_gcm_siv::Key::<aes_gcm_siv::Aes256GcmSiv>::from_slice(key));
    cipher.decrypt(aes_gcm_siv::Nonce::from_slice(nonce), ciphertext).ok()
}

/// Relies on base64's `STANDARD.encode`: padded standard base64, four
/// characters for every started group of three bytes, which
/// `STANDARD.decode` turns back into the same bytes.
#[verifier::external_body]
pub(crate) fn base64_encode(bytes: &[u8]) -> (r: String)
    ensures
        r@ == base64_text(bytes@),
        r@.len() == 4 * ((bytes@.len() + 2) / 3),
        base64_bytes(r@) == Some(bytes@),
{
    base64::engine::general_purpose::STANDARD.encode(bytes)
}

/// Relies on base64's `STANDARD.decode`: the bytes, or an error on text that
/// is not valid padded standard base64.
#[verifier::external_body]
pub(crate) fn base64_decode(text: &str) -> (r: Option<Vec<u8>>)
    ensures
        match r {
            Some(b) => base64_bytes(text@) == Some(b@),
            None => base64_bytes(text@) is None,
        },
{
    base64::engine::general_purpose::STANDARD.decode(text).ok()
}

/// Relies on pbkdf2's `pbkdf2_hmac_array::<Sha256, 32>`: deterministic in its
/// arguments; HMAC takes a key of any length, so it does not fail.
#[verifier::external_body]
pub(crate) fn pbkdf2_hmac_sha256(password: &[u8], salt: &[u8], rounds: u32) -> (r: [u8; 32])
    ensures
        r@ == pbkdf2_sha256(password@, salt@, rounds),
{
    pbkdf2::pbkdf2_hmac_array::<sha2::Sha256, 32>(password, salt, rounds)
}

/// Relies on rand's `ThreadRng::fill_bytes`: `len` bytes from the thread's
/// generator, of which nothing else is known.
#[verifier::external_body]
pub(crate) fn random_bytes(len: usize) -> (r: Vec<u8>)
    ensures
        r@.len() == len,
{
    let mut buf = vec![0u8; len];
    rand::rngs::ThreadRng::default().fill_bytes(&mut buf);
    buf
}

/// Relies on `String::from_utf8`: it accepts exactly the valid UTF-8 byte
/// sequences and keeps their characters.
#[verifier::external_body]
pub(crate) fn string_from_utf8(bytes: Vec<u8>) -> (r: Option<String>)
    ensures
        r is Some <==> vstd::utf8::valid_utf8(bytes@),
        r matches Some(s) ==> s@ == vstd::utf8::decode_utf8(bytes@),
{
    String::from_utf8(bytes).ok()
}

/// Relies on `str::to_lowercase`: the result depends on the characters alone,
/// and the empty string stays empty.
#[verifier::external_body]
pub(crate) fn to_lowercase(s: &str) -> (r: String)
    ensures
        r@ == lowercase_of(s@),
        s@.len() == 0 ==> r@.len() == 0,
{
    s.to_lowercase()
}

/// Relies on chrono's `Local::now` and `DateTime::format`: the local time
/// at the moment of the call, written with `pattern`; nothing more is known.
/// Only the vault's own timestamp pattern is admitted: an unknown specifier
/// would make the formatting fail and `to_string` panic.
#[verifier::external_body]
pub(crate) fn local_time_text(pattern: &str) -> String
    requires
        pattern@ == crate::time::TIME_FORMAT@,
{
    chrono::Local::now().format(pattern).to_string()
}

} // verus!
