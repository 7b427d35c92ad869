//! The calls into the cryptography and encoding crates, with what is believed of them.
use aes_gcm::aead::{Aead, AeadCore, KeyInit, OsRng};
use aes_gcm::{Aes256Gcm, Nonce};
use base64::engine::general_purpose::STANDARD;
use base64::Engine;
use sha2::{Digest, Sha256};
use vstd::prelude::*;
use vstd::utf8::*;

verus! {

/// The largest plaintext, in bytes, that AES-GCM takes.
pub const MAX_PLAINTEXT: u64 = 0x10_0000_0000;

/// The length of the padded base64 text of `n` bytes.
pub open spec fn base64_len(n: nat) -> nat {
    4 * ((n + 2) / 3)
}

/// The SHA-256 digest of some bytes.
pub uninterp spec fn sha256_digest(data: Seq<u8>) -> Seq<u8>;

/// The AES-256-GCM ciphertext, tag at the end, of a plaintext without
/// associated data, under a key and a nonce.
pub uninterp spec fn gcm_sealed(key: Seq<u8>, nonce: Seq<u8>, plaintext: Seq<u8>) -> Seq<u8>;

/// The plaintext of an AES-256-GCM ciphertext with its tag at the end, or
/// `None` where the tag does not fit.
pub uninterp spec fn gcm_opened(key: Seq<u8>, nonce: Seq<u8>, sealed: Seq<u8>) -> Option<Seq<u8>>;

/// The padded base64 text of some bytes, in the standard alphabet.
pub uninterp spec fn base64_text(bytes: Seq<u8>) -> Seq<char>;

/// The bytes that a padded base64 text in the standard alphabet stands for,
/// or `None` where it is no such text.
pub uninterp spec fn base64_bytes(text: Seq<char>) -> Option<Seq<u8>>;

/// Calls `sha2::Sha256::digest`. Believed: the digest depends on the bytes
/// alone, and is 32 bytes long.
#[verifier::external_body]
pub(crate) fn sha256(data: &[u8]) -> (res: Vec<u8>)
    ensures
        res@ == sha256_digest(data@),
        res@.len() == 32,
{
    Sha256::digest(data).to_vec()
}

/// Calls `aes_gcm::aead::AeadCore::generate_nonce` for AES-256-GCM, with the
/// operating system's generator. Believed: the nonce is 12 bytes long. Which
/// bytes it holds is left to chance.
#[verifier::external_body]
pub(crate) fn generate_nonce() -> (res: Vec<u8>)
    ensures
        res@.len() == 12,
{
    Aes256Gcm::generate_nonce(&mut OsRng).to_vec()
}

/// Calls `aes_gcm::aead::Aead::encrypt` on the AES-256-GCM cipher of `key`.
/// Believed: it fails on a plaintext above the limit and on no other; the
/// ciphertext depends on key, nonce and plaintext alone; it is 16 bytes (the
/// tag) longer than the plaintext; and decrypting it under the same key and
/// nonce gives the plaintext back.
#[verifier::external_body]
pub(crate) fn gcm_seal(key: &[u8], nonce: &[u8], plaintext: &[u8]) -> (res: Option<Vec<u8>>)
    requires
        key@.len() == 32,
        nonce@.len() == 12,
        plaintext@.len() + 16 <= isize::MAX,
    ensures
        res is Some <==> plaintext@.len() <= MAX_PLAINTEXT,
        res matches Some(sealed) ==> {
            &&& sealed@ == gcm_sealed(key@, nonce@, plaintext@)
            &&& sealed@.len() == plaintext@.len() + 16
            &&& gcm_opened(key@, nonce@, sealed@) == Some(plaintext@)
        },
{
    let cipher = Aes256Gcm::new_from_slice(key).ok()?;
    cipher.encrypt(Nonce::from_slice(nonce), plaintext).ok()
}

/// Calls `aes_gcm::aead::Aead::decrypt` on the AES-256-GCM cipher of `key`.
/// Believed: whether it succeeds, and the plaintext it then gives, depend on
/// key, nonce and ciphertext alone; the plaintext is 16 bytes (the tag)
/// shorter than the ciphertext.
#[verifier::external_body]
pub(crate) fn gcm_open(key: &[u8], nonce: &[u8], sealed: &[u8]) -> (res: Option<Vec<u8>>)
    requires
        key@.len() == 32,
        nonce@.len() == 12,
    ensures
        (match res {
            Some(plaintext) => gcm_opened(key@, nonce@, sealed@) == Some(plaintext@)
                && sealed@.len() == plaintext@.len() + 16,
            None => gcm_opened(key@, nonce@, sealed@) is None,
        }),
{
    let cipher = Aes256Gcm::new_from_slice(key).ok()?;
    cipher.decrypt(Nonce::from_slice(nonce), sealed).ok()
}

/// Calls `base64::Engine::encode` on `STANDARD`. Believed: the text depends on
/// the bytes alone, is ASCII, has four characters for each three bytes begun,
/// and decodes to the bytes.
#[verifier::external_body]
pub(crate) fn base64_encode(bytes: &[u8]) -> (res: String)
    requires
        base64_len(bytes@.len()) <= isize::MAX,
    ensures
        res@ == base64_text(bytes@),
        is_ascii_chars(res@),
        res@.len() == base64_len(bytes@.len()),
        base64_bytes(res@) == Some(bytes@),
{
    STANDARD.encode(bytes)
}

/// Calls `base64::Engine::decode` on `STANDARD`. Believed: whether it
/// succeeds, and the bytes it then gives, depend on the text alone.
#[verifier::external_body]
pub(crate) fn base64_decode(text: &str) -> (res: Option<Vec<u8>>)
    ensures
        (match res {
            Some(bytes) => base64_bytes(text@) == Some(bytes@),
            None => base64_bytes(text@) is None,
        }),
{
    STANDARD.decode(text).ok()
}

/// Calls `String::from_utf8`. Believed: it succeeds on valid UTF-8 and on
/// nothing else, and gives the string whose encoding the bytes are.
#[verifier::external_body]
pub(crate) fn string_from_utf8(bytes: Vec<u8>) -> (res: Option<String>)
    ensures
        res is Some <==> valid_utf8(bytes@),
        res matches Some(text) ==> text@ == decode_utf8(bytes@),
{
    String::from_utf8(bytes).ok()
}

} // verus!
