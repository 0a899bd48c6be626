//! One-way password hashing with an adaptive cost, through bcrypt.
use vstd::prelude::*;

verus! {

#[verifier::external_type_specification]
#[verifier::external_body]
pub struct ExBcryptError(bcrypt::BcryptError);

/// Cost factor used for new password hashes.
pub const HASH_COST: u32 = 12;

/// What bcrypt's check of `plain` against the stored hash `hashed` returns:
/// `None` where the stored hash cannot be read, else whether they match.
pub uninterp spec fn password_verdict(plain: Seq<char>, hashed: Seq<char>) -> Option<bool>;

/// Relies on bcrypt::hash: a salted hash that bcrypt::verify accepts for the
/// same password (it re-hashes with the salt and cost read from the output).
#[verifier::external_body]
pub(crate) fn bcrypt_hash(plain: &str, cost: u32) -> (r: Result<String, bcrypt::BcryptError>)
    ensures
        r matches Ok(h) ==> password_verdict(plain@, h@) == Some(true),
{
    bcrypt::hash(plain, cost)
}

/// Relies on bcrypt::verify: reads salt and cost from `hashed`, re-hashes
/// `plain` and compares without early exit.
#[verifier::external_body]
pub(crate) fn bcrypt_verify(plain: &str, hashed: &str) -> (r: Result<bool, bcrypt::BcryptError>)
    ensures
        r is Ok <==> password_verdict(plain@, hashed@) is Some,
        r matches Ok(b) ==> password_verdict(plain@, hashed@) == Some(b),
{
    bcrypt::verify(plain, hashed)
}

/// Relies on bcrypt's `Display` for its error, to describe it.
#[verifier::external_body]
pub(crate) fn bcrypt_error_text(e: &bcrypt::BcryptError) -> String {
    e.to_string()
}

} // verus!
