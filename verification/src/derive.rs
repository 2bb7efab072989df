//! Key derivation: a password becomes the key and the initialization vector
//! of one encryption. The key is the digest of the password's hash, the
//! initialization vector is the salt that the hash was made with.

use crate::block::{BLOCK_SIZE, KEY_SIZE};
use crate::error::ErrorResponse;
use crate::password::{
    argon2id_phc, bytes_in, decode_salt, digest_of, fresh_salt, has_len, hash_password_with_salt,
    hashed_from, phc_digest, salt_bytes, text_of, usable_draw, HASHING_FAILED,
};
use vstd::prelude::*;

verus! {

/// What a password was turned into for one encryption.
pub struct DerivedKey {
    /// The encoded hash of the password, which names the salt.
    pub hash: String,
    /// The cipher key: the digest held by `hash`.
    pub key: Vec<u8>,
    /// The initialization vector: the bytes of the salt. It is no secret and
    /// is kept with the ciphertext.
    pub iv: Vec<u8>,
}

/// Whether `material` is what `password` gives under `salt`: the hash is the
/// hasher's and names the salt, the key is its digest, the initialization
/// vector is the salt, and both have the lengths that the cipher asks for.
pub open spec fn derived_from(password: Seq<u8>, salt: Seq<char>, material: DerivedKey) -> bool {
    &&& hashed_from(password, salt, material.hash@)
    &&& phc_digest(material.hash@) == Some(material.key@)
    &&& salt_bytes(salt) == Some(material.iv@)
    &&& material.key@.len() == KEY_SIZE
    &&& material.iv@.len() == BLOCK_SIZE
}

/// What a derivation from `password` under `salt` gives: key material
/// exactly where the hasher succeeds and the salt stands for as many bytes as
/// an initialization vector has, and else a failure, with the hasher's error
/// text where the failure is the hasher's.
pub open spec fn derivation_under(
    password: Seq<u8>,
    salt: Seq<char>,
    result: Result<DerivedKey, ErrorResponse>,
) -> bool {
    &&& result is Ok == (argon2id_phc(password, salt) is Ok && has_len(
        salt_bytes(salt),
        BLOCK_SIZE as nat,
    ))
    &&& result matches Ok(material) ==> derived_from(password, salt, material)
    &&& result matches Err(e) ==> e.status == HASHING_FAILED
    &&& result matches Err(e) ==> (argon2id_phc(password, salt) matches Err(reason) ==> e.message@
        == reason)
}

/// What a derivation gives after a draw of a salt: the text of the error
/// where the draw failed, under the status [`HASHING_FAILED`], and else what
/// the derivation under the salt drawn gives.
pub open spec fn drawn_derivation(
    password: Seq<u8>,
    draw: Result<Seq<char>, Seq<char>>,
    result: Result<DerivedKey, ErrorResponse>,
) -> bool {
    match draw {
        Ok(salt) => derivation_under(password, salt, result),
        Err(reason) => result matches Err(e) && e.status == HASHING_FAILED && e.message@ == reason,
    }
}

/// Puts the parts of a derivation together, after checking that the digest and
/// the salt have the lengths of a key and an initialization vector.
pub fn assemble(hash: String, digest: Option<Vec<u8>>, salt: Option<Vec<u8>>) -> (result: Result<
    DerivedKey,
    ErrorResponse,
>)
    ensures
        match result {
            Ok(material) => {
                &&& material.hash@ == hash@
                &&& bytes_in(digest) == Some(material.key@)
                &&& bytes_in(salt) == Some(material.iv@)
                &&& material.key@.len() == KEY_SIZE
                &&& material.iv@.len() == BLOCK_SIZE
            },
            Err(e) => {
                &&& e.status == HASHING_FAILED
                &&& !has_len(bytes_in(digest), KEY_SIZE as nat) || !has_len(
                    bytes_in(salt),
                    BLOCK_SIZE as nat,
                )
            },
        },
{
    let key = match digest {
        Some(d) => d,
        None => {
            return Err(
                ErrorResponse {
                    status: HASHING_FAILED,
                    message: "password hash holds no digest".to_string(),
                },
            );
        },
    };
    let iv = match salt {
        Some(s) => s,
        None => {
            return Err(
                ErrorResponse {
                    status: HASHING_FAILED,
                    message: "salt cannot be decoded".to_string(),
                },
            );
        },
    };
    if key.len() != KEY_SIZE {
        return Err(
            ErrorResponse {
                status: HASHING_FAILED,
                message: "digest is not as long as a cipher key".to_string(),
            },
        );
    }
    if iv.len() != BLOCK_SIZE {
        return Err(
            ErrorResponse {
                status: HASHING_FAILED,
                message: "salt is not as long as an initialization vector".to_string(),
            },
        );
    }
    Ok(DerivedKey { hash, key, iv })
}

/// Derives key and initialization vector from `password` under the given
/// salt. The same password and salt always give the same key material. It
/// succeeds where the hasher does and the salt stands for as many bytes as an
/// initialization vector has.
pub fn derive_key_with_salt(password: &[u8], salt: &str) -> (result: Result<
    DerivedKey,
    ErrorResponse,
>)
    ensures
        derivation_under(password@, salt@, result),
{
    let hash = match hash_password_with_salt(password, salt) {
        Ok(encoded) => encoded,
        Err(e) => {
            return Err(e);
        },
    };
    let digest = digest_of(hash.as_str());
    let iv = decode_salt(salt);
    assemble(hash, digest, iv)
}

/// Derives key and initialization vector from `password` under the salt
/// that a draw gave, and reports a failed draw as it reports a failure of the
/// hasher.
pub fn derive_with_draw(password: &[u8], draw: Result<String, String>) -> (result: Result<
    DerivedKey,
    ErrorResponse,
>)
    ensures
        drawn_derivation(password@, text_of(draw), result),
{
    match draw {
        Ok(salt) => derive_key_with_salt(password, salt.as_str()),
        Err(reason) => Err(ErrorResponse { status: HASHING_FAILED, message: reason }),
    }
}

/// Derives key and initialization vector from `password` under a salt drawn
/// afresh; the salt can be read from the hash and from the initialization
/// vector. A failure comes only from a password longer than the hasher takes
/// or from a draw that failed: the salt of a draw
/// that succeeded is usable.
pub fn derive_key(password: &[u8]) -> (result: Result<DerivedKey, ErrorResponse>)
    ensures
        exists|draw: Result<Seq<char>, Seq<char>>|
            usable_draw(draw) && #[trigger] drawn_derivation(password@, draw, result),
        result matches Ok(material) ==> exists|salt: Seq<char>| #[trigger]
            derived_from(password@, salt, material),
        result matches Err(e) ==> e.status == HASHING_FAILED,
{
    let draw = fresh_salt();
    let result = derive_with_draw(password, draw);
    assert(drawn_derivation(password@, text_of(draw), result));
    result
}

} // verus!
