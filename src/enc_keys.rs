//! Item keys, their wrapping under the master key, and the
//! `nonce ‖ ciphertext` layout that every sealed value uses.
use vstd::prelude::*;
use crate::primitives::{
    aead_decrypt, aead_encrypt, aead_open, aead_seal, base64_bytes, base64_decode, base64_encode,
    base64_text, pbkdf2_hmac_sha256, pbkdf2_sha256, random_bytes, AEAD_MAX_PLAINTEXT, AEAD_TAG_LEN,
};

verus! {

/// Length in bytes of a master key and of an item key.
pub const KEY_LEN: usize = 32;

/// Length in bytes of an AEAD nonce.
pub const NONCE_LEN: usize = 12;

/// Iterations of PBKDF2 used to derive a master key.
pub const KDF_ROUNDS: u32 = 100000;

/// An optional byte vector seen as an optional byte sequence.
pub open spec fn bytes_of(o: Option<Vec<u8>>) -> Option<Seq<u8>> {
    match o {
        Some(v) => Some(v@),
        None => None,
    }
}

/// `data` is `nonce ‖ AEAD(key, nonce, plaintext)` for the nonce it starts with.
pub open spec fn is_sealing_of(data: Seq<u8>, key: Seq<u8>, plaintext: Seq<u8>) -> bool {
    &&& data.len() >= NONCE_LEN
    &&& data.subrange(NONCE_LEN as int, data.len() as int) == aead_seal(
        key,
        data.subrange(0, NONCE_LEN as int),
        plaintext,
    )
}

/// What opening `nonce ‖ ciphertext` under `key` yields: nothing for data
/// too short to hold a nonce and a tag.
pub open spec fn opened_with(key: Seq<u8>, data: Seq<u8>) -> Option<Seq<u8>> {
    if data.len() < NONCE_LEN + AEAD_TAG_LEN {
        None
    } else {
        aead_open(key, data.subrange(0, NONCE_LEN as int), data.subrange(NONCE_LEN as int, data.len() as int))
    }
}

/// What the base64 text of `nonce ‖ ciphertext` opens to under `key`.
pub open spec fn opened_text(text: Seq<char>, key: Seq<u8>) -> Option<Seq<u8>> {
    match base64_bytes(text) {
        Some(data) => opened_with(key, data),
        None => None,
    }
}

/// `text` is the base64 text of a sealing of `plaintext` under `key`.
pub open spec fn is_sealed_text_of(text: Seq<char>, plaintext: Seq<u8>, key: Seq<u8>) -> bool {
    exists|data: Seq<u8>| text == base64_text(data) && #[trigger] is_sealing_of(data, key, plaintext)
}

/// The master key that `password` yields with the base64 salt `salt_text`.
pub open spec fn derived_key(salt_text: Seq<char>, password: Seq<char>) -> Option<Seq<u8>> {
    match base64_bytes(salt_text) {
        Some(salt) => Some(pbkdf2_sha256(vstd::utf8::encode_utf8(password), salt, KDF_ROUNDS)),
        None => None,
    }
}

/// A fresh random item key.
pub fn generate_item_key() -> (r: Vec<u8>)
    ensures
        r@.len() == KEY_LEN,
{
    random_bytes(KEY_LEN)
}

/// A fresh random nonce.
pub fn generate_nonce() -> (r: [u8; 12])
    ensures
        r@.len() == NONCE_LEN,
{
    let v = random_bytes(NONCE_LEN);
    let mut nonce = [0u8; 12];
    let mut i: usize = 0;
    while i < NONCE_LEN
        invariant
            v@.len() == NONCE_LEN,
            nonce@.len() == NONCE_LEN,
        decreases NONCE_LEN - i,
    {
        nonce[i] = v[i];
        i = i + 1;
    }
    nonce
}

/// Seals `plaintext` under `key` with a fresh nonce: `nonce ‖ ciphertext`.
/// Fails only on a plaintext too long for the cipher.
pub fn encrypt_with_key(key: &[u8], plaintext: &[u8]) -> (r: Option<Vec<u8>>)
    requires
        key@.len() == KEY_LEN,
    ensures
        r is Some <==> plaintext@.len() <= AEAD_MAX_PLAINTEXT,
        r matches Some(data) ==> is_sealing_of(data@, key@, plaintext@),
        r matches Some(data) ==> data@.len() == NONCE_LEN + plaintext@.len() + AEAD_TAG_LEN,
        r matches Some(data) ==> opened_with(key@, data@) == Some(plaintext@),
{
    let nonce = generate_nonce();
    let sealed = aead_encrypt(key, nonce.as_slice(), plaintext);
    match sealed {
        Some(mut ciphertext) => {
            let ghost c = ciphertext@;
            let mut result = vstd::slice::slice_to_vec(nonce.as_slice());
            result.append(&mut ciphertext);
            assert(result@.subrange(0, NONCE_LEN as int) =~= nonce@);
            assert(result@.subrange(NONCE_LEN as int, result@.len() as int) =~= c);
            Some(result)
        },
        None => None,
    }
}

/// Opens `nonce ‖ ciphertext` under `key`: `None` on a wrong key, on altered
/// data, or on data shorter than a nonce and a tag.
pub fn decrypt_with_key(key: &[u8], data: &[u8]) -> (r: Option<Vec<u8>>)
    requires
        key@.len() == KEY_LEN,
    ensures
        bytes_of(r) == opened_with(key@, data@),
        data@.len() < NONCE_LEN + AEAD_TAG_LEN ==> r is None,
{
    if data.len() < NONCE_LEN + AEAD_TAG_LEN {
        return None;
    }
    let (nonce, ciphertext) = data.split_at(NONCE_LEN);
    aead_decrypt(key, nonce, ciphertext)
}

/// Wraps `item_key` under `master_key` as base64 text.
pub fn wrap_item_key(item_key: &[u8], master_key: &[u8]) -> (r: Option<String>)
    requires
        master_key@.len() == KEY_LEN,
    ensures
        r is Some <==> item_key@.len() <= AEAD_MAX_PLAINTEXT,
        r matches Some(w) ==> is_sealed_text_of(w@, item_key@, master_key@),
        r matches Some(w) ==> opened_text(w@, master_key@) == Some(item_key@),
        r matches Some(w) ==> base64_bytes(w@) matches Some(b) && b.len() == NONCE_LEN + item_key@.len() + AEAD_TAG_LEN,
        r matches Some(w) ==> w@.len() == 4 * ((NONCE_LEN + item_key@.len() + AEAD_TAG_LEN + 2) / 3) && w@.len() > 0,
{
    match encrypt_with_key(master_key, item_key) {
        Some(data) => {
            let w = base64_encode(data.as_slice());
            assert(is_sealing_of(data@, master_key@, item_key@));
            Some(w)
        },
        None => None,
    }
}

/// Recovers the item key from its wrapped form; `None` when the text is not
/// base64 or the master key does not open it.
pub fn unwrap_item_key(encrypted_item_key: &str, master_key: &[u8]) -> (r: Option<Vec<u8>>)
    requires
        master_key@.len() == KEY_LEN,
    ensures
        bytes_of(r) == opened_text(encrypted_item_key@, master_key@),
{
    match base64_decode(encrypted_item_key) {
        Some(decoded) => decrypt_with_key(master_key, decoded.as_slice()),
        None => None,
    }
}

/// Derives the master key from `password` and the base64 salt; `None` when
/// the salt is not valid base64.
pub fn derive_key(kdf_salt_b64: &str, password: &str) -> (r: Option<[u8; 32]>)
    ensures
        match r {
            Some(k) => derived_key(kdf_salt_b64@, password@) == Some(k@),
            None => derived_key(kdf_salt_b64@, password@) is None,
        },
{
    match base64_decode(kdf_salt_b64) {
        Some(salt) => Some(pbkdf2_hmac_sha256(password.as_bytes(), salt.as_slice(), KDF_ROUNDS)),
        None => None,
    }
}

} // verus!
