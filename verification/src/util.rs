//! What both halves of the program share.
use crate::outside::{sha256, sha256_digest};
use crate::text::{hex, hex_value, law_hex, to_hex};
use vstd::prelude::*;
use vstd::string::*;
use vstd::utf8::*;

verus! {

/// The stored form of a password: its SHA-256 digest in hexadecimal.
pub open spec fn password_hash(password: Seq<char>) -> Seq<char> {
    hex(sha256_digest(encode_utf8(password)))
}

/// Computes the stored form of a password.
pub fn hash_password(password: &str) -> (res: String)
    ensures
        res@ == password_hash(password@),
        res@.len() == 64,
{
    let digest = sha256(password.as_bytes());
    to_hex(digest.as_slice())
}

/// The digest of a password can be read from its stored form, digit by digit;
/// so two passwords have the same stored form only if they have the same digest.
pub proof fn law_password_hash(password: Seq<char>, i: int)
    requires
        0 <= i < sha256_digest(encode_utf8(password)).len(),
    ensures
        password_hash(password).len() == 2 * sha256_digest(encode_utf8(password)).len(),
        16 * hex_value(password_hash(password)[2 * i]) + hex_value(
            password_hash(password)[2 * i + 1],
        ) == sha256_digest(encode_utf8(password))[i],
{
    law_hex(sha256_digest(encode_utf8(password)), i);
}

} // verus!
