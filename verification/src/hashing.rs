//! The credential hasher: salted one-way password hashing and verification,
//! as thin trusted wrappers around bcrypt, with the password policy and the
//! round-trip law verified on top.

use vstd::prelude::*;

use vstd::std_specs::iter::IteratorSpec;

use crate::errors::AuthError;

verus! {

/// What bcrypt's verifier answers for a password against a stored hash
/// string: `None` when the hash string is structurally corrupt, otherwise
/// whether the password matches. The hash string embeds its cost and salt,
/// so the answer is a function of the two arguments alone.
pub uninterp spec fn bcrypt_result(password: Seq<char>, hash: Seq<char>) -> Option<bool>;

/// Relies on `bcrypt::hash` with `DEFAULT_COST` (12, above the required
/// work factor of 10): the salt comes from the OS RNG, so the output is tied
/// to no function of the input; but whatever hash string comes back embeds
/// that cost and salt, and `bcrypt::verify` recomputes from them, so the
/// same password always verifies against it. Fails only if the RNG fails.
#[verifier::external_body]
pub fn hash_password(password: &str) -> (r: Result<String, AuthError>)
    ensures
        match r {
            Ok(h) => bcrypt_result(password@, h@) == Some(true),
            Err(e) => e == AuthError::HashingError,
        },
{
    match bcrypt::hash(password, bcrypt::DEFAULT_COST) {
        Ok(h) => Ok(h),
        Err(_) => Err(AuthError::HashingError),
    }
}

/// Relies on `bcrypt::verify`: it splits the hash string into cost, salt
/// and digest — failing exactly on a malformed hash string — and compares
/// the recomputed digest in constant time; the outcome depends on the
/// password bytes and the hash string alone.
#[verifier::external_body]
pub fn verify_password(password: &str, hash: &str) -> (r: Result<bool, AuthError>)
    ensures
        match r {
            Ok(b) => bcrypt_result(password@, hash@) == Some(b),
            Err(e) => bcrypt_result(password@, hash@) is None && e == AuthError::HashingError,
        },
{
    match bcrypt::verify(password, hash) {
        Ok(b) => Ok(b),
        Err(_) => Err(AuthError::HashingError),
    }
}

/// A freshly hashed password always verifies against its own hash: the
/// round trip can fail only inside the hasher's RNG, and never returns a
/// successful `false`.
pub fn hashed_password_verifies(password: &str) -> (r: Result<bool, AuthError>)
    ensures
        r matches Ok(b) ==> b,
        r is Err ==> r == Err::<bool, AuthError>(AuthError::HashingError),
{
    let hash = match hash_password(password) {
        Ok(h) => h,
        Err(e) => {
            return Err(e);
        },
    };
    verify_password(password, hash.as_str())
}

/// The password policy callers must enforce before hashing: at least eight
/// characters.
pub fn password_meets_policy(password: &str) -> (r: bool)
    ensures
        r == (password@.len() >= 8),
{
    has_min_chars(password, 8)
}

/// Whether `s` has at least `min` characters, counting at most `min` of
/// them.
pub fn has_min_chars(s: &str, min: usize) -> (r: bool)
    ensures
        r == (s@.len() >= min),
{
    broadcast use vstd::string::axiom_spec_iter;
    broadcast use vstd::string::next_postcondition;

    let mut it = s.chars();
    let mut cnt: usize = 0;
    while cnt < min
        invariant
            0 <= cnt <= min,
            it.obeys_prophetic_iter_laws(),
            it.remaining() =~= s@.skip(cnt as int),
            cnt <= s@.len(),
        decreases min - cnt,
    {
        match it.next() {
            Some(_) => {
                cnt += 1;
                proof {
                    assert(it.remaining() =~= s@.skip(cnt as int));
                }
            },
            None => {
                proof {
                    assert(s@.skip(cnt as int).len() == 0);
                }
                return false;
            },
        }
    }
    true
}

} // verus!
