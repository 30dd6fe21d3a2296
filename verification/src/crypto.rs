//! Password hashes, content hashes and session identifiers.
//!
//! None of this is computed here. Each function below hands its arguments to
//! a library and is trusted to say what comes back; what is claimed of the
//! result is written in its contract and nothing else is known.

use vstd::prelude::*;

verus! {

/// The cost that new password hashes are made with: the default of the
/// `bcrypt` library.
pub const HASH_COST: u32 = 12;

/// Trusted: the type `bcrypt::BcryptError`, which says why a text is no
/// password hash or why none could be made. Nothing is known of its values.
#[verifier::external_type_specification]
#[verifier::external_body]
pub struct ExBcryptError(bcrypt::BcryptError);

/// What `bcrypt::verify` answers for a password and a stored hash:
/// `Some(true)` when the hash was made of the password, `Some(false)` when
/// it was made of another, `None` when the text is no hash at all.
pub uninterp spec fn bcrypt_verdict(password: Seq<char>, hash: Seq<char>) -> Option<bool>;

/// The SHA-256 digest of `data` in lower-case hexadecimal digits, as
/// `sha2::Sha256::digest` computes it and `{:x}` writes it.
pub uninterp spec fn sha256_hex(data: Seq<u8>) -> Seq<char>;

/// Trusted: `bcrypt::verify`. It splits the stored hash into cost, salt and
/// digest, hashes the password with that cost and salt, and compares: a
/// function of its two arguments alone, which the contract names
/// [`bcrypt_verdict`].
#[verifier::external_body]
pub(crate) fn verify_password(password: &str, hash: &str) -> (r: Result<bool, bcrypt::BcryptError>)
    ensures
        match r {
            Ok(same) => bcrypt_verdict(password@, hash@) == Some(same),
            Err(_) => bcrypt_verdict(password@, hash@).is_none(),
        },
{
    bcrypt::verify(password, hash)
}

/// Trusted: `bcrypt::hash`. It draws a random salt, so two calls differ; of
/// every hash that comes back the contract claims only that `bcrypt::verify`
/// accepts the password for it, which holds because `verify` repeats the
/// computation of `hash` with the cost and salt that it reads back out of
/// the hash.
#[verifier::external_body]
pub(crate) fn hash_password(password: &str, cost: u32) -> (r: Result<String, bcrypt::BcryptError>)
    ensures
        r matches Ok(hash) ==> bcrypt_verdict(password@, hash@) == Some(true),
{
    bcrypt::hash(password, cost)
}

/// Trusted: `uuid::Uuid::new_v4`, written out with `to_string`. The
/// identifier is random; nothing is claimed of it.
#[verifier::external_body]
pub(crate) fn new_session_id() -> (identifier: String) {
    uuid::Uuid::new_v4().to_string()
}

/// Trusted: `sha2::Sha256::digest`, written out in lower-case hexadecimal
/// digits. A function of the data alone, which the contract names
/// [`sha256_hex`].
#[verifier::external_body]
pub(crate) fn sha256_hex_of(data: &[u8]) -> (hex: String)
    ensures
        hex@ == sha256_hex(data@),
{
    format!("{:x}", <sha2::Sha256 as sha2::Digest>::digest(data))
}

} // verus!
