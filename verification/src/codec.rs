//! Encodings and ciphers of other crates, on plain bytes and texts.
use vstd::prelude::*;
use vstd::string::*;
use vstd::utf8::{decode_utf8, valid_utf8};

use aes_gcm::aead::rand_core::RngCore;
use aes_gcm::aead::{Aead, OsRng};
use aes_gcm::{Aes256Gcm, KeyInit, Nonce};
use base64::engine::general_purpose::STANDARD;
use base64::Engine;

verus! {

/// The key that HKDF-SHA256 derives from a salt, a secret and a purpose.
pub uninterp spec fn hkdf_sha256(salt: Seq<u8>, secret: Seq<u8>, purpose: Seq<u8>) -> Seq<u8>;

/// `hkdf::Hkdf::<sha2::Sha256>::new` and `expand` into 32 bytes: a key that depends on the
/// three arguments alone. It cannot fail at this length.
#[verifier::external_body]
pub(crate) fn derive_key(salt: &[u8], secret: &[u8], purpose: &[u8]) -> (r: [u8; 32])
    ensures
        r@ == hkdf_sha256(salt@, secret@, purpose@),
{
    let mut key = [0u8; 32];
    hkdf::Hkdf::<sha2::Sha256>::new(Some(salt), secret).expand(purpose, &mut key).unwrap();
    key
}

/// `fill_bytes` of `aes_gcm::aead::OsRng`: twelve random bytes, of which nothing is known.
#[verifier::external_body]
pub(crate) fn fresh_nonce() -> (r: [u8; 12]) {
    let mut nonce = [0u8; 12];
    OsRng.fill_bytes(&mut nonce);
    nonce
}

/// The longest plaintext that one nonce can encrypt, in bytes.
pub const SEALED_BYTES: u64 = 0xF_FFFF_FFE0;

/// What AES-256-GCM makes of a plaintext under a key and a nonce, with its tag behind it.
pub uninterp spec fn sealed(key: Seq<u8>, nonce: Seq<u8>, plain: Seq<u8>) -> Seq<u8>;

/// What AES-256-GCM makes of a ciphertext with its tag, where the tag is right.
pub uninterp spec fn opened(key: Seq<u8>, nonce: Seq<u8>, data: Seq<u8>) -> Option<Seq<u8>>;

/// `encrypt` of `aes_gcm::Aes256Gcm`: the ciphertext, as long as the plaintext, and sixteen
/// bytes of a tag. It depends on the three arguments alone, and decrypting it under the same
/// key and nonce gives the plaintext back.
#[verifier::external_body]
pub(crate) fn seal(key: &[u8; 32], nonce: &[u8; 12], plain: &[u8]) -> (r: Vec<u8>)
    requires
        plain@.len() <= SEALED_BYTES,
    ensures
        r@ == sealed(key@, nonce@, plain@),
        r@.len() == plain@.len() + 16,
        opened(key@, nonce@, r@) == Some(plain@),
{
    let cipher = Aes256Gcm::new_from_slice(key).unwrap();
    cipher.encrypt(Nonce::from_slice(nonce), plain).unwrap()
}

/// `decrypt` of `aes_gcm::Aes256Gcm`: the plaintext, or nothing where the tag is not right. It
/// depends on the three arguments alone.
#[verifier::external_body]
pub(crate) fn open(key: &[u8; 32], nonce: &[u8], data: &[u8]) -> (r: Option<Vec<u8>>)
    requires
        nonce@.len() == 12,
        data@.len() <= SEALED_BYTES + 16,
    ensures
        r.deep_view() == opened(key@, nonce@, data@),
{
    let cipher = Aes256Gcm::new_from_slice(key).unwrap();
    cipher.decrypt(Nonce::from_slice(nonce), data).ok()
}

/// A character of the standard base64 alphabet, or its padding.
pub open spec fn base64_char(c: char) -> bool {
    'A' <= c <= 'Z' || 'a' <= c <= 'z' || '0' <= c <= '9' || c == '+' || c == '/' || c == '='
}

/// Bytes in base64.
pub uninterp spec fn base64_of(bytes: Seq<u8>) -> Seq<char>;

/// The bytes that a base64 text spells.
pub uninterp spec fn base64_in(text: Seq<char>) -> Option<Seq<u8>>;

/// `encode` of `base64::engine::general_purpose::STANDARD`: four characters for every three
/// bytes that are begun, from the standard alphabet. Decoding gives the bytes back.
#[verifier::external_body]
pub(crate) fn encode64(bytes: &[u8]) -> (r: String)
    requires
        bytes@.len() <= usize::MAX / 4,
    ensures
        r@ == base64_of(bytes@),
        r@.len() == (bytes@.len() + 2) / 3 * 4,
        forall|i: int| 0 <= i < r@.len() ==> base64_char(#[trigger] r@[i]),
        base64_in(r@) == Some(bytes@),
{
    STANDARD.encode(bytes)
}

/// `decode` of `base64::engine::general_purpose::STANDARD`: the bytes that a text spells, or
/// nothing where it is no base64. They depend on the text alone.
#[verifier::external_body]
pub(crate) fn decode64(text: &str) -> (r: Option<Vec<u8>>)
    ensures
        r.deep_view() == base64_in(text@),
{
    STANDARD.decode(text).ok()
}

/// `String::from_utf8`: the text that bytes spell, where they are valid UTF-8.
#[verifier::external_body]
pub(crate) fn text_from(bytes: Vec<u8>) -> (r: Option<String>)
    ensures
        match r {
            Some(text) => valid_utf8(bytes@) && text@ == decode_utf8(bytes@),
            None => !valid_utf8(bytes@),
        },
{
    String::from_utf8(bytes).ok()
}

} // verus!
