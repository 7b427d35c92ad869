//! Password-based message encryption.
//!
//! A message is encrypted with AES-256-GCM under the SHA-256 digest of the
//! password. What is sent is the base64 text of the nonce followed by the
//! ciphertext.
use crate::outside::{
    base64_bytes, base64_decode, base64_encode, base64_len, base64_text, gcm_open, gcm_opened,
    gcm_seal, gcm_sealed, generate_nonce, sha256, sha256_digest, string_from_utf8, MAX_PLAINTEXT,
};
use vstd::prelude::*;
use vstd::slice::*;
use vstd::string::*;
use vstd::utf8::*;

verus! {

/// The key of a password.
pub open spec fn message_key(password: Seq<char>) -> Seq<u8> {
    sha256_digest(encode_utf8(password))
}

/// A plaintext of `len` bytes can be encrypted: it is within the cipher's
/// limit, and its encrypted text fits in memory.
pub open spec fn encryptable_len(len: nat) -> bool {
    &&& len <= MAX_PLAINTEXT
    &&& base64_len(len + 28) <= isize::MAX
}

/// The bytes of an encrypted message: the nonce, then the ciphertext.
pub open spec fn sealed_bytes(
    password: Seq<char>,
    nonce: Seq<u8>,
    plaintext: Seq<char>,
) -> Seq<u8> {
    nonce + gcm_sealed(message_key(password), nonce, encode_utf8(plaintext))
}

/// The nonce and the ciphertext in the bytes of an encrypted message, where
/// there are enough bytes for a nonce.
pub open spec fn frame_parts(bytes: Seq<u8>) -> Option<(Seq<u8>, Seq<u8>)> {
    if bytes.len() < 12 {
        None
    } else {
        Some((bytes.take(12), bytes.skip(12)))
    }
}

/// The text that bytes encode in UTF-8, if they do.
pub open spec fn utf8_text(bytes: Seq<u8>) -> Option<Seq<char>> {
    if valid_utf8(bytes) {
        Some(decode_utf8(bytes))
    } else {
        None
    }
}

/// The text of the bytes of an encrypted message.
pub open spec fn opened_text(password: Seq<char>, bytes: Seq<u8>) -> Option<Seq<char>> {
    match frame_parts(bytes) {
        Some((nonce, sealed)) => match gcm_opened(message_key(password), nonce, sealed) {
            Some(plaintext) => utf8_text(plaintext),
            None => None,
        },
        None => None,
    }
}

/// The text of an encrypted message.
pub open spec fn decrypted(password: Seq<char>, data: Seq<char>) -> Option<Seq<char>> {
    match base64_bytes(data) {
        Some(bytes) => opened_text(password, bytes),
        None => None,
    }
}

/// Whether `plaintext` can be encrypted.
pub fn can_encrypt(plaintext: &str) -> (res: bool)
    ensures
        res == encryptable_len(encode_utf8(plaintext@).len()),
{
    let len: u64 = plaintext.as_bytes().len() as u64;
    len <= MAX_PLAINTEXT && 4 * ((len + 30) / 3) <= isize::MAX as u64
}

/// Puts the nonce in front of the ciphertext.
pub fn join_frame(nonce: &[u8], sealed: &[u8]) -> (res: Vec<u8>)
    ensures
        res@ == nonce@ + sealed@,
        nonce@.len() == 12 ==> frame_parts(res@) == Some((nonce@, sealed@)),
{
    let mut res = slice_to_vec(nonce);
    res.extend_from_slice(sealed);
    proof {
        assert(res@ =~= nonce@ + sealed@);
        if nonce@.len() == 12 {
            assert(res@.take(12) =~= nonce@);
            assert(res@.skip(12) =~= sealed@);
        }
    }
    res
}

/// Takes the nonce and the ciphertext apart.
pub fn split_frame<'a>(bytes: &'a [u8]) -> (res: Option<(&'a [u8], &'a [u8])>)
    ensures
        (match res {
            Some((nonce, sealed)) => frame_parts(bytes@) == Some((nonce@, sealed@)),
            None => frame_parts(bytes@) is None,
        }),
{
    if bytes.len() < 12 {
        return None;
    }
    let nonce = slice_subrange(bytes, 0, 12);
    let sealed = slice_subrange(bytes, 12, bytes.len());
    proof {
        assert(nonce@ =~= bytes@.take(12));
        assert(sealed@ =~= bytes@.skip(12));
    }
    Some((nonce, sealed))
}

/// Reads what the cipher gave as text.
pub fn read_plaintext(plaintext: Option<Vec<u8>>) -> (res: Option<String>)
    ensures
        (match plaintext {
            Some(bytes) => match res {
                Some(text) => utf8_text(bytes@) == Some(text@),
                None => utf8_text(bytes@) is None,
            },
            None => res is None,
        }),
{
    match plaintext {
        Some(bytes) => string_from_utf8(bytes),
        None => None,
    }
}

/// Encrypts `plaintext` under `password`, with the given nonce.
pub fn encrypt_with_nonce(password: &str, nonce: &[u8], plaintext: &str) -> (res: String)
    requires
        nonce@.len() == 12,
        encryptable_len(encode_utf8(plaintext@).len()),
    ensures
        res@ == base64_text(sealed_bytes(password@, nonce@, plaintext@)),
        is_ascii_chars(res@),
        res@.len() == base64_len(encode_utf8(plaintext@).len() + 28),
        encode_utf8(res@).len() == base64_len(encode_utf8(plaintext@).len() + 28),
        decrypted(password@, res@) == Some(plaintext@),
{
    let key = sha256(password.as_bytes());
    match gcm_seal(key.as_slice(), nonce, plaintext.as_bytes()) {
        Some(sealed) => {
            let out = join_frame(nonce, sealed.as_slice());
            proof {
                encode_utf8_valid_utf8(plaintext@);
                encode_utf8_decode_utf8(plaintext@);
            }
            let res = base64_encode(out.as_slice());
            proof {
                is_ascii_chars_encode_utf8(res@);
            }
            res
        },
        None => String::new(),
    }
}

/// Encrypts `plaintext` under `password`, with a fresh random nonce.
///
/// Whatever the nonce, the same password decrypts the result to `plaintext`.
pub fn encrypt(password: &str, plaintext: &str) -> (res: String)
    requires
        encryptable_len(encode_utf8(plaintext@).len()),
    ensures
        exists|nonce: Seq<u8>|
            nonce.len() == 12 && res@ == base64_text(
                #[trigger] sealed_bytes(password@, nonce, plaintext@),
            ),
        is_ascii_chars(res@),
        res@.len() == base64_len(encode_utf8(plaintext@).len() + 28),
        encode_utf8(res@).len() == base64_len(encode_utf8(plaintext@).len() + 28),
        decrypted(password@, res@) == Some(plaintext@),
{
    let nonce = generate_nonce();
    encrypt_with_nonce(password, nonce.as_slice(), plaintext)
}

/// Decrypts the bytes of an encrypted message.
pub fn decrypt_bytes(password: &str, bytes: &[u8]) -> (res: Option<String>)
    ensures
        (match res {
            Some(text) => opened_text(password@, bytes@) == Some(text@),
            None => opened_text(password@, bytes@) is None,
        }),
{
    match split_frame(bytes) {
        Some((nonce, sealed)) => {
            let key = sha256(password.as_bytes());
            read_plaintext(gcm_open(key.as_slice(), nonce, sealed))
        },
        None => None,
    }
}

/// Decrypts an encrypted message.
pub fn decrypt(password: &str, data: &str) -> (res: Option<String>)
    ensures
        (match res {
            Some(text) => decrypted(password@, data@) == Some(text@),
            None => decrypted(password@, data@) is None,
        }),
{
    match base64_decode(data) {
        Some(bytes) => decrypt_bytes(password, bytes.as_slice()),
        None => None,
    }
}

/// The nonce and the ciphertext of a frame can be taken apart again; less than
/// a nonce is no frame.
pub proof fn law_frame_parts(nonce: Seq<u8>, sealed: Seq<u8>)
    ensures
        nonce.len() == 12 ==> frame_parts(nonce + sealed) == Some((nonce, sealed)),
        nonce.len() < 12 ==> frame_parts(nonce) is None,
{
    if nonce.len() == 12 {
        assert((nonce + sealed).take(12) =~= nonce);
        assert((nonce + sealed).skip(12) =~= sealed);
    }
}

/// What is encrypted is a frame of the nonce and the AES-GCM ciphertext of the
/// text, under the SHA-256 digest of the password.
pub proof fn law_sealed_bytes(password: Seq<char>, nonce: Seq<u8>, plaintext: Seq<char>)
    requires
        nonce.len() == 12,
    ensures
        frame_parts(sealed_bytes(password, nonce, plaintext)) == Some(
            (
                nonce,
                gcm_sealed(sha256_digest(encode_utf8(password)), nonce, encode_utf8(plaintext)),
            ),
        ),
{
    law_frame_parts(
        nonce,
        gcm_sealed(sha256_digest(encode_utf8(password)), nonce, encode_utf8(plaintext)),
    );
}

/// A text is what a message decrypts to exactly if the message is the base64
/// text of at least a nonce, and the cipher of the password opens what follows
/// the nonce to the bytes of the text. Nothing else decrypts.
pub proof fn law_decrypted(password: Seq<char>, data: Seq<char>, text: Seq<char>)
    ensures
        decrypted(password, data) == Some(text) <==> (base64_bytes(data) matches Some(bytes)
            && bytes.len() >= 12 && gcm_opened(
            sha256_digest(encode_utf8(password)),
            bytes.take(12),
            bytes.skip(12),
        ) == Some(encode_utf8(text))),
{
    encode_utf8_valid_utf8(text);
    encode_utf8_decode_utf8(text);
    match base64_bytes(data) {
        Some(bytes) => if bytes.len() >= 12 {
            match gcm_opened(
                sha256_digest(encode_utf8(password)),
                bytes.take(12),
                bytes.skip(12),
            ) {
                Some(plaintext) => {
                    if valid_utf8(plaintext) {
                        decode_utf8_encode_utf8(plaintext);
                    }
                },
                None => {},
            }
        },
        None => {},
    }
}

/// Whatever its password, a text can be encrypted unless it is above the limit
/// of the cipher, or its encrypted text would not fit in memory.
pub proof fn law_encryptable_len(len: nat)
    ensures
        encryptable_len(len) <==> len <= 0x10_0000_0000 && 4 * ((len + 30) / 3) <= isize::MAX,
{
}

} // verus!
