//! Password hashing with Argon2id, for storing and checking passwords and for
//! deriving cipher keys from them. The hashing itself is done by the `argon2`
//! crate; this module decides what is handed to it and what its answers mean.

use crate::error::ErrorResponse;
use argon2::password_hash::{
    PasswordHash, PasswordHasher, PasswordVerifier, Salt, SaltString,
};
use argon2::Argon2;
use rand::rngs::OsRng;
use rand::RngCore;
use vstd::prelude::*;
use vstd::utf8::encode_utf8;

verus! {

/// The longest password, in bytes, that the hasher takes.
pub const MAX_PASSWORD_LEN: usize = 0xFFFF_FFFF;

/// Bytes in the digest that the hasher computes.
pub const DIGEST_SIZE: usize = 32;

/// Bytes in a salt drawn afresh.
pub const SALT_SIZE: usize = 16;

/// The largest degree of parallelism that the hasher works with.
pub const MAX_PARALLELISM: u32 = 0xFF_FFFF;

/// The status that a failure of the hasher is reported with.
pub const HASHING_FAILED: i16 = 500;

/// What Argon2id with the default parameters of the `argon2` crate makes of a
/// password and a salt given in its textual form: the encoded hash, a
/// self-describing string that names algorithm, version, parameters, salt and
/// digest, or the text of the error it fails with.
pub uninterp spec fn argon2id_phc(password: Seq<u8>, salt: Seq<char>) -> Result<
    Seq<char>,
    Seq<char>,
>;

/// The parameters that `encoded` names, in their order, where it can be read
/// as an encoded password hash: each with its name and, where its value is a
/// decimal number that fits 32 bits, that number.
pub uninterp spec fn phc_params(encoded: Seq<char>) -> Option<Seq<(Seq<char>, Option<u32>)>>;

/// Whether hashing `password` with the algorithm, parameters and salt that the
/// well-formed `encoded` names gives the digest that it holds.
pub uninterp spec fn argon2_matches(password: Seq<u8>, encoded: Seq<char>) -> bool;

/// The digest that the well-formed `encoded` holds, if it holds one.
pub uninterp spec fn phc_digest(encoded: Seq<char>) -> Option<Seq<u8>>;

/// The bytes that the textual form `salt` of a salt stands for, if it is one.
pub uninterp spec fn salt_bytes(salt: Seq<char>) -> Option<Seq<u8>>;

/// The characters of a result, in place of the strings that hold them.
pub open spec fn text_of(result: Result<String, String>) -> Result<Seq<char>, Seq<char>> {
    match result {
        Ok(text) => Ok(text@),
        Err(text) => Err(text@),
    }
}

/// The bytes of an optional vector.
pub open spec fn bytes_in(bytes: Option<Vec<u8>>) -> Option<Seq<u8>> {
    match bytes {
        Some(b) => Some(b@),
        None => None,
    }
}

/// Whether `bytes` are there and `len` in number.
pub open spec fn has_len(bytes: Option<Seq<u8>>, len: nat) -> bool {
    bytes matches Some(b) && b.len() == len
}

/// One parameter of an encoded hash.
pub struct Parameter {
    /// The name, such as `m`, `t` or `p`.
    pub name: String,
    /// The value, where it is a decimal number that fits 32 bits.
    pub number: Option<u32>,
}

/// The parameters as plain values.
pub open spec fn params_of(params: Seq<Parameter>) -> Seq<(Seq<char>, Option<u32>)> {
    Seq::new(params.len(), |i: int| (params[i].name@, params[i].number))
}

/// The parameters of an optional list, as plain values.
pub open spec fn params_in(params: Option<Vec<Parameter>>) -> Option<
    Seq<(Seq<char>, Option<u32>)>,
> {
    match params {
        Some(list) => Some(params_of(list@)),
        None => None,
    }
}

/// Whether `encoded` can be read as an encoded password hash.
pub open spec fn phc_well_formed(encoded: Seq<char>) -> bool {
    phc_params(encoded) is Some
}

/// The number of the last parameter named `p`, the one that the hasher
/// takes where the name occurs more than once; `None` where no parameter has
/// that name or the value of the last one is no such number.
pub open spec fn last_parallelism(params: Seq<(Seq<char>, Option<u32>)>) -> Option<u32>
    decreases params.len(),
{
    if params.len() == 0 {
        None
    } else if params.last().0 == seq!['p'] {
        params.last().1
    } else {
        last_parallelism(params.drop_last())
    }
}

/// Whether the parameters ask for no more parallelism than the hasher works
/// with: the number that it takes, if there is one, is at most
/// [`MAX_PARALLELISM`].
pub open spec fn parallelism_fits(params: Seq<(Seq<char>, Option<u32>)>) -> bool {
    last_parallelism(params) matches Some(n) ==> n <= MAX_PARALLELISM
}

/// Whether a password can be checked against `encoded`: it is well formed and
/// asks for no more parallelism than the hasher works with.
pub open spec fn verifiable(encoded: Seq<char>) -> bool {
    phc_params(encoded) matches Some(params) && parallelism_fits(params)
}

/// Whether the stored `encoded` hash vouches for `password`.
pub open spec fn password_matches(password: Seq<u8>, encoded: Seq<char>) -> bool {
    verifiable(encoded) && argon2_matches(password, encoded)
}

/// Whether `salt` is one that the hasher can work with: it stands for 16
/// bytes, and every password of at most [`MAX_PASSWORD_LEN`] bytes can be
/// hashed with it.
pub open spec fn usable_salt(salt: Seq<char>) -> bool {
    &&& has_len(salt_bytes(salt), SALT_SIZE as nat)
    &&& forall|password: Seq<u8>|
        password.len() <= MAX_PASSWORD_LEN ==> (#[trigger] argon2id_phc(password, salt)) is Ok
}

/// Whether a draw, where it gave a salt, gave a usable one.
pub open spec fn usable_draw(draw: Result<Seq<char>, Seq<char>>) -> bool {
    draw matches Ok(salt) ==> usable_salt(salt)
}

/// Draws 16 bytes with `OsRng::try_fill_bytes` from the operating system's
/// random source and gives them in the textual form that
/// `SaltString::encode_b64` makes of them, or the text of the error where the
/// random source or the encoding fails.
///
/// Trusted: a salt that comes out is usable. Nothing is said of which salt it
/// is, nor of when the draw fails.
#[verifier::external_body]
pub(crate) fn fresh_salt() -> (draw: Result<String, String>)
    ensures
        usable_draw(text_of(draw)),
{
    let mut bytes = [0u8; Salt::RECOMMENDED_LENGTH];
    match OsRng.try_fill_bytes(&mut bytes) {
        Err(e) => Err(e.to_string()),
        Ok(()) => match SaltString::encode_b64(&bytes) {
            Ok(salt) => Ok(salt.as_str().to_owned()),
            Err(e) => Err(e.to_string()),
        },
    }
}

/// Hashes a password with `Argon2::default().hash_password`, under the salt
/// that `SaltString::from_b64` reads from `salt`.
///
/// Trusted: the result is a function of the password and the salt. An encoded
/// hash that comes out begins with the algorithm, the version, the default
/// parameters and the salt it was made with, each after a `$`, so that no
/// other salt gives it; it is well formed, matches the password it was made
/// from and holds a digest of 32 bytes.
#[verifier::external_body]
pub(crate) fn argon2_hash(password: &[u8], salt: &str) -> (result: Result<String, String>)
    ensures
        text_of(result) == argon2id_phc(password@, salt@),
        result matches Ok(encoded) ==> phc_prefix(salt@).is_prefix_of(encoded@),
        result matches Ok(encoded) ==> only_under_salt(salt@, encoded@),
        result matches Ok(encoded) ==> password_matches(password@, encoded@),
        result matches Ok(encoded) ==> has_len(phc_digest(encoded@), DIGEST_SIZE as nat),
{
    match SaltString::from_b64(salt) {
        Err(e) => Err(e.to_string()),
        Ok(parsed) => match Argon2::default().hash_password(password, &parsed) {
            Ok(hash) => Ok(hash.to_string()),
            Err(e) => Err(e.to_string()),
        },
    }
}

/// Reads `encoded` with `PasswordHash::new` and hands out its parameters, the
/// number of each as `Value::decimal` gives it.
///
/// Trusted: the result is a function of `encoded`: `None` where it cannot be
/// read, and else its parameters in their order, each occurrence of a name
/// among them.
#[verifier::external_body]
pub(crate) fn read_params(encoded: &str) -> (params: Option<Vec<Parameter>>)
    ensures
        params_in(params) == phc_params(encoded@),
{
    match PasswordHash::new(encoded) {
        Err(_) => None,
        Ok(parsed) => {
            let mut params = Vec::new();
            for (name, value) in parsed.params.iter() {
                params.push(Parameter { name: name.as_str().to_owned(), number: value.decimal().ok() });
            }
            Some(params)
        },
    }
}

/// Reads `encoded` with `PasswordHash::new` and checks `password` against it
/// with `Argon2::default().verify_password`, which compares the digests in
/// constant time.
///
/// The hasher multiplies the parallelism that it takes, the last one named,
/// by eight in 32 bits before it tests its range; a stored hash that asks for
/// more than [`MAX_PARALLELISM`] is therefore never handed to it.
///
/// Trusted: the result tells whether the password matches.
#[verifier::external_body]
pub(crate) fn argon2_check(password: &[u8], encoded: &str) -> (matched: bool)
    requires
        verifiable(encoded@),
    ensures
        matched == argon2_matches(password@, encoded@),
{
    match PasswordHash::new(encoded) {
        Ok(parsed) => Argon2::default().verify_password(password, &parsed).is_ok(),
        Err(_) => false,
    }
}

/// Takes the digest out of an encoded hash read with `PasswordHash::new`.
///
/// Trusted: the result is a function of `encoded`.
#[verifier::external_body]
pub(crate) fn digest_of(encoded: &str) -> (digest: Option<Vec<u8>>)
    ensures
        bytes_in(digest) == phc_digest(encoded@),
{
    match PasswordHash::new(encoded) {
        Err(_) => None,
        Ok(parsed) => match parsed.hash {
            Some(output) => Some(output.as_bytes().to_vec()),
            None => None,
        },
    }
}

/// Decodes the textual form of a salt with `SaltString::decode_b64`.
///
/// Trusted: the result is a function of `salt`.
#[verifier::external_body]
pub(crate) fn decode_salt(salt: &str) -> (bytes: Option<Vec<u8>>)
    ensures
        bytes_in(bytes) == salt_bytes(salt@),
{
    let mut buffer = [0u8; Salt::MAX_LENGTH];
    match SaltString::from_b64(salt) {
        Err(_) => None,
        Ok(parsed) => match parsed.decode_b64(&mut buffer) {
            Ok(decoded) => Some(decoded.to_vec()),
            Err(_) => None,
        },
    }
}

/// How every encoded hash made under `salt` begins: algorithm, version, the
/// hasher's default parameters and the salt, each after a `$`, and the `$`
/// that the digest follows.
pub open spec fn phc_prefix(salt: Seq<char>) -> Seq<char> {
    "$argon2id$v=19$m=19456,t=2,p=1$"@ + salt + "$"@
}

/// Whether `encoded` is the hash of no password under a salt other than
/// `salt`.
pub open spec fn only_under_salt(salt: Seq<char>, encoded: Seq<char>) -> bool {
    forall|password: Seq<u8>, other: Seq<char>|
        #[trigger] argon2id_phc(password, other) == Ok::<Seq<char>, Seq<char>>(encoded) ==> other
            == salt
}

/// What holds of an encoded hash made from `password` under `salt`: it is the
/// hasher's answer, it begins as every hash under this salt does and is the
/// hash of no other salt, it vouches for the password, and its digest is as
/// long as a cipher key.
pub open spec fn hashed_from(password: Seq<u8>, salt: Seq<char>, encoded: Seq<char>) -> bool {
    &&& argon2id_phc(password, salt) == Ok::<Seq<char>, Seq<char>>(encoded)
    &&& phc_prefix(salt).is_prefix_of(encoded)
    &&& only_under_salt(salt, encoded)
    &&& password_matches(password, encoded)
    &&& has_len(phc_digest(encoded), DIGEST_SIZE as nat)
}

/// What the caller is told after a draw of a salt: the text of the error
/// where the draw failed, under the status [`HASHING_FAILED`], and else what
/// hashing `password` under the salt drawn gives.
pub open spec fn drawn_response(
    password: Seq<u8>,
    draw: Result<Seq<char>, Seq<char>>,
    response: Result<String, ErrorResponse>,
) -> bool {
    match draw {
        Ok(salt) => {
            &&& response_of(argon2id_phc(password, salt), response)
            &&& response matches Ok(encoded) ==> hashed_from(password, salt, encoded@)
        },
        Err(reason) => response matches Err(e) && e.status == HASHING_FAILED && e.message@
            == reason,
    }
}

/// What the caller is told of an outcome of the hasher: the encoded hash, or
/// the hasher's error text under the status [`HASHING_FAILED`].
pub open spec fn response_of(outcome: Result<Seq<char>, Seq<char>>, response: Result<
    String,
    ErrorResponse,
>) -> bool {
    match outcome {
        Ok(encoded) => response matches Ok(text) && text@ == encoded,
        Err(reason) => response matches Err(e) && e.status == HASHING_FAILED && e.message@
            == reason,
    }
}

/// Turns an outcome of the hasher into what the caller is told.
pub fn hash_response(outcome: Result<String, String>) -> (response: Result<String, ErrorResponse>)
    ensures
        response_of(text_of(outcome), response),
{
    match outcome {
        Ok(encoded) => Ok(encoded),
        Err(reason) => Err(ErrorResponse { status: HASHING_FAILED, message: reason }),
    }
}

/// Turns an outcome of a check into the answer: only a match is accepted, a
/// mismatch and a stored hash that cannot be read are not told apart.
pub fn accepted(outcome: Option<bool>) -> (ok: bool)
    ensures
        ok == (outcome == Some(true)),
{
    match outcome {
        Some(matched) => matched,
        None => false,
    }
}

/// Hashes `password` under the given salt. The same password and salt always
/// give the same encoded hash.
pub fn hash_password_with_salt(password: &[u8], salt: &str) -> (response: Result<
    String,
    ErrorResponse,
>)
    ensures
        response_of(argon2id_phc(password@, salt@), response),
        response matches Ok(encoded) ==> hashed_from(password@, salt@, encoded@),
{
    hash_response(argon2_hash(password, salt))
}

/// Hashes `password` under the salt that a draw gave, and reports a failed
/// draw as it reports a failure of the hasher.
pub fn hash_with_draw(password: &[u8], draw: Result<String, String>) -> (response: Result<
    String,
    ErrorResponse,
>)
    ensures
        drawn_response(password@, text_of(draw), response),
{
    match draw {
        Ok(salt) => hash_password_with_salt(password, salt.as_str()),
        Err(reason) => Err(ErrorResponse { status: HASHING_FAILED, message: reason }),
    }
}

/// Hashes `password` for storage under a salt drawn afresh, and reports a
/// failure as an [`ErrorResponse`]. A failure comes only from a password of
/// more than [`MAX_PASSWORD_LEN`] bytes or from a draw that failed: the salt
/// of a draw that succeeded is usable.
pub fn hash_password(password: &str) -> (response: Result<String, ErrorResponse>)
    ensures
        exists|draw: Result<Seq<char>, Seq<char>>|
            usable_draw(draw) && #[trigger] drawn_response(encode_utf8(password@), draw, response),
        response matches Ok(encoded) ==> password_matches(encode_utf8(password@), encoded@),
        response matches Ok(encoded) ==> has_len(phc_digest(encoded@), DIGEST_SIZE as nat),
        response matches Err(e) ==> e.status == HASHING_FAILED,
{
    get_pw_hash(password.as_bytes())
}

/// Hashes the bytes `pw` for storage under a salt drawn afresh, and reports a
/// failure as an [`ErrorResponse`]. A failure comes only from a password of
/// more than [`MAX_PASSWORD_LEN`] bytes or from a draw that failed: the salt
/// of a draw that succeeded is usable.
pub fn get_pw_hash(pw: &[u8]) -> (response: Result<String, ErrorResponse>)
    ensures
        exists|draw: Result<Seq<char>, Seq<char>>|
            usable_draw(draw) && #[trigger] drawn_response(pw@, draw, response),
        response matches Ok(encoded) ==> password_matches(pw@, encoded@),
        response matches Ok(encoded) ==> has_len(phc_digest(encoded@), DIGEST_SIZE as nat),
        response matches Err(e) ==> e.status == HASHING_FAILED,
{
    let draw = fresh_salt();
    let response = hash_with_draw(pw, draw);
    assert(drawn_response(pw@, text_of(draw), response));
    response
}

/// Says whether a stored hash asks for no more parallelism than the hasher
/// works with. Of several parameters named `p` the last one counts.
pub fn parallelism_in_range(params: &Vec<Parameter>) -> (fits: bool)
    ensures
        fits == parallelism_fits(params_of(params@)),
{
    let parallelism = "p".to_string();
    proof {
        reveal_strlit("p");
        assert("p"@ =~= seq!['p']);
    }
    let mut last: Option<u32> = None;
    let mut i: usize = 0;
    while i < params.len()
        invariant
            i <= params@.len(),
            parallelism@ == seq!['p'],
            last == last_parallelism(params_of(params@).subrange(0, i as int)),
        decreases params@.len() - i,
    {
        let ghost next = params_of(params@).subrange(0, i + 1);
        assert(next.drop_last() =~= params_of(params@).subrange(0, i as int));
        assert(next.last() == params_of(params@)[i as int]);
        let param = &params[i];
        if param.name == parallelism {
            last = param.number;
        }
        i += 1;
    }
    assert(params_of(params@).subrange(0, params@.len() as int) =~= params_of(params@));
    match last {
        Some(n) => n <= MAX_PARALLELISM,
        None => true,
    }
}

/// A stored hash that cannot be read vouches for no password.
pub proof fn lemma_malformed_hash_rejected(password: Seq<u8>, encoded: Seq<char>)
    requires
        !phc_well_formed(encoded),
    ensures
        !password_matches(password, encoded),
{
}

/// Checks `password` against a stored hash. A stored hash that cannot be
/// read, or that asks for more parallelism than the hasher works with, gives
/// `false`, as a password that does not match does. Where a parameter occurs
/// more than once, the last occurrence counts, as it does for the hasher.
pub fn validate_hash(password: &str, hashed_password: &str) -> (ok: bool)
    ensures
        ok == password_matches(encode_utf8(password@), hashed_password@),
{
    let outcome = match read_params(hashed_password) {
        None => None,
        Some(params) => {
            if parallelism_in_range(&params) {
                Some(argon2_check(password.as_bytes(), hashed_password))
            } else {
                None
            }
        },
    };
    accepted(outcome)
}

} // verus!
