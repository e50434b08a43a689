use receipt_auth::errors::AuthError;
use receipt_auth::hashing::{
    has_min_chars, hash_password, hashed_password_verifies, password_meets_policy,
    verify_password,
};

#[test]
fn password_verifies_against_its_own_hash() {
    let hash = hash_password("password123").unwrap();
    assert_eq!(verify_password("password123", &hash), Ok(true));
}

#[test]
fn other_password_does_not_verify() {
    let hash = hash_password("password123").unwrap();
    assert_eq!(verify_password("wrongpassword", &hash), Ok(false));
    assert_eq!(verify_password("", &hash), Ok(false));
    assert_eq!(verify_password("password124", &hash), Ok(false));
}

#[test]
fn round_trip_law_holds_on_a_concrete_password() {
    assert_eq!(hashed_password_verifies("s3cr3t-pass"), Ok(true));
}

#[test]
fn hashes_are_salted_but_both_verify() {
    let h1 = hash_password("same-password").unwrap();
    let h2 = hash_password("same-password").unwrap();
    assert_ne!(h1, h2);
    assert_eq!(verify_password("same-password", &h1), Ok(true));
    assert_eq!(verify_password("same-password", &h2), Ok(true));
}

#[test]
fn corrupt_hash_string_is_a_hashing_error() {
    assert_eq!(
        verify_password("password123", "not-a-bcrypt-hash"),
        Err(AuthError::HashingError)
    );
    assert_eq!(
        verify_password("password123", ""),
        Err(AuthError::HashingError)
    );
}

#[test]
fn bcrypt_crate_accepts_our_hash_and_we_accept_its() {
    let ours = hash_password("interop-pass").unwrap();
    assert!(bcrypt::verify("interop-pass", &ours).unwrap());
    let theirs = bcrypt::hash("interop-pass", bcrypt::DEFAULT_COST).unwrap();
    assert_eq!(verify_password("interop-pass", &theirs), Ok(true));
    assert_eq!(verify_password("other-pass", &theirs), Ok(false));
}

#[test]
fn policy_counts_characters_not_bytes() {
    assert!(!password_meets_policy(""));
    assert!(!password_meets_policy("1234567"));
    assert!(password_meets_policy("12345678"));
    assert!(password_meets_policy("pässwörd"));
    assert!(!password_meets_policy("päss"));
}

#[test]
fn min_chars_boundaries() {
    assert!(has_min_chars("", 0));
    assert!(!has_min_chars("", 1));
    assert!(has_min_chars("abc", 3));
    assert!(!has_min_chars("abc", 4));
}
