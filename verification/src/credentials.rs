//! Password hashing and signup-token generation.

use vstd::prelude::*;

verus! {

/// Whether bcrypt's verifier accepts the password against the hash.
/// The verdict depends on the two texts alone.
pub uninterp spec fn bcrypt_verifies(password: Seq<char>, hash: Seq<char>) -> bool;

/// Relies on `bcrypt::hash` with the default cost: a fresh salted
/// hash of 60 characters which `bcrypt::verify` accepts for this
/// password. Fails only if the system's randomness source fails.
#[verifier::external_body]
fn bcrypt_hash(password: String) -> (r: String)
    ensures
        r@.len() == 60,
        bcrypt_verifies(password@, r@),
{
    bcrypt::hash(password, bcrypt::DEFAULT_COST).unwrap()
}

/// Relies on `bcrypt::verify`: accepts exactly the passwords hashed
/// into `hash`; a malformed hash is rejected rather than an error.
#[verifier::external_body]
fn bcrypt_verify(password: String, hash: String) -> (r: bool)
    ensures
        r == bcrypt_verifies(password@, hash@),
{
    bcrypt::verify(password, hash.as_str()).unwrap_or(false)
}

/// A fresh salted hash of the password: 60 characters that
/// `verify_password` accepts for it.
pub fn hash_password(password: String) -> (r: String)
    ensures
        r@.len() == 60,
        bcrypt_verifies(password@, r@),
{
    bcrypt_hash(password)
}

/// Whether the password is the one hashed into `hash`.
pub fn verify_password(password: String, hash: String) -> (r: bool)
    ensures
        r == bcrypt_verifies(password@, hash@),
{
    bcrypt_verify(password, hash)
}

/// Relies on rand's thread-local generator: 32 random bytes. Nothing
/// is promised of their values.
#[verifier::external_body]
fn random_bytes_32() -> (r: Vec<u8>)
    ensures
        r@.len() == 32,
{
    let mut b = vec![0u8; 32];
    rand::Rng::fill_bytes(&mut rand::rng(), &mut b[..]);
    b
}

/// What base64's URL-safe unpadded engine writes for these bytes.
pub uninterp spec fn b64url_of(bytes: Seq<u8>) -> Seq<char>;

/// Relies on base64's `URL_SAFE_NO_PAD` engine: four characters for
/// every three bytes, the tail unpadded.
#[verifier::external_body]
fn b64url_encode(b: &Vec<u8>) -> (r: String)
    ensures
        r@ == b64url_of(b@),
        r@.len() == (b@.len() * 4 + 2) / 3,
{
    base64::Engine::encode(&base64::engine::general_purpose::URL_SAFE_NO_PAD, b)
}

/// A fresh random signup token: 43 characters of URL-safe base64.
pub fn generate_hash() -> (r: String)
    ensures
        r@.len() == 43,
{
    let b = random_bytes_32();
    b64url_encode(&b)
}

} // verus!
