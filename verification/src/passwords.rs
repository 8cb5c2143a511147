//! Password hashes, made and checked by bcrypt.

use vstd::prelude::*;

verus! {

/// What `bcrypt::verify` says of a password and a hash: whether the hash is
/// one of the password, or `None` where it cannot tell because the hash
/// is not well-formed.
pub uninterp spec fn verified(password: Seq<char>, hash: Seq<char>) -> Option<bool>;

/// Hashes a password with `bcrypt::hash` at the given cost; `None` where
/// bcrypt fails, which it does where the cost is not allowed or the machine
/// gives no random salt. The hash holds that salt, so its text is not
/// claimed; what is claimed is what bcrypt makes hashes for: `bcrypt::verify`
/// finds the hash to be one of the password.
#[verifier::external_body]
pub(crate) fn hash_password(password: &str, cost: u32) -> (hash: Option<String>)
    ensures
        hash matches Some(h) ==> verified(password@, h@) == Some(true),
{
    match bcrypt::hash(password, cost) {
        Ok(hash) => Some(hash),
        Err(_) => None,
    }
}

/// Checks a password against a hash with `bcrypt::verify`.
#[verifier::external_body]
pub(crate) fn verify_password(password: &str, hash: &str) -> (answer: Option<bool>)
    ensures
        answer == verified(password@, hash@),
{
    match bcrypt::verify(password, hash) {
        Ok(same) => Some(same),
        Err(_) => None,
    }
}

} // verus!
