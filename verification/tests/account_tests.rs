use receipt_auth::account::{
    apply_profile_update, authenticate_user, is_email_shaped, login, may_access_receipt,
    new_user_from_registration, page_offset, page_params, validate_login, validate_registration,
    CredentialRecord, LoginRequest, Pagination, RegisterUserPayload, UpdateUserProfilePayload,
    User,
};
use receipt_auth::clock::{current_unix_time, now_fits_issue_window};
use receipt_auth::cookie::{create_auth_cookie, remove_auth_cookie};
use receipt_auth::errors::AuthError;
use receipt_auth::gate::AuthenticatedUser;
use receipt_auth::hashing::hash_password;
use receipt_auth::token::verify_token;

fn b(s: &str) -> Vec<u8> {
    s.as_bytes().to_vec()
}

const NOW: u64 = 1_700_000_000;

fn record(password: &str) -> CredentialRecord {
    CredentialRecord {
        subject_id: b("user-42"),
        password_hash: hash_password(password).unwrap(),
        role: b("user"),
    }
}

#[test]
fn authenticate_unknown_user_is_credential_mismatch() {
    assert!(matches!(
        authenticate_user(None, "anypassword"),
        Err(AuthError::CredentialMismatch)
    ));
}

#[test]
fn authenticate_wrong_password_is_credential_mismatch() {
    let rec = record("password123");
    assert!(matches!(
        authenticate_user(Some(&rec), "wrongpassword"),
        Err(AuthError::CredentialMismatch)
    ));
}

#[test]
fn authenticate_good_password_returns_principal() {
    let rec = record("password123");
    let user = authenticate_user(Some(&rec), "password123").unwrap();
    assert_eq!(user.id, b("user-42"));
    assert_eq!(user.role, b("user"));
}

#[test]
fn authenticate_corrupt_stored_hash_is_internal() {
    let rec = CredentialRecord {
        subject_id: b("user-42"),
        password_hash: "garbage".to_string(),
        role: b("user"),
    };
    assert!(matches!(
        authenticate_user(Some(&rec), "password123"),
        Err(AuthError::HashingError)
    ));
}

#[test]
fn login_issues_verifiable_token_and_cookie() {
    let rec = record("password123");
    let secret = b("login-secret");
    let outcome = login(Some(&rec), "password123", NOW, &secret).unwrap();
    assert_eq!(outcome.user.id, b("user-42"));
    let claims = verify_token(&outcome.token, &secret, NOW).unwrap();
    assert_eq!(claims.sub, b("user-42"));
    assert_eq!(claims.role, b("user"));
    assert_eq!(claims.exp, NOW + 86400);
    let mut expected = b("token=");
    expected.extend_from_slice(&outcome.token);
    expected.extend_from_slice(b"; Path=/; HttpOnly; Secure; SameSite=Lax; Max-Age=86400");
    assert_eq!(outcome.cookie, expected);
}

#[test]
fn login_failure_paths() {
    let secret = b("login-secret");
    assert!(matches!(
        login(None, "pw", NOW, &secret),
        Err(AuthError::CredentialMismatch)
    ));
    let rec = record("password123");
    assert!(matches!(
        login(Some(&rec), "nope", NOW, &secret),
        Err(AuthError::CredentialMismatch)
    ));
}

#[test]
fn auth_cookie_is_wire_exact() {
    let c = create_auth_cookie(&b("abc"));
    assert_eq!(
        c,
        b("token=abc; Path=/; HttpOnly; Secure; SameSite=Lax; Max-Age=86400")
    );
}

#[test]
fn clear_cookie_expires_immediately() {
    assert_eq!(
        remove_auth_cookie(),
        b("token=; Path=/; HttpOnly; Secure; SameSite=Lax; Max-Age=0")
    );
}

fn registration(email: &str, password: &str) -> RegisterUserPayload {
    RegisterUserPayload {
        email: email.to_string(),
        password: password.to_string(),
        name: "Someone".to_string(),
    }
}

#[test]
fn registration_validation_enforces_policy() {
    assert!(validate_registration(&registration("someone@example.com", "password123")));
    assert!(!validate_registration(&registration("someone@example.com", "short")));
    assert!(!validate_registration(&registration("", "password123")));
}

#[test]
fn registration_requires_an_email_shaped_identifier() {
    assert!(validate_registration(&registration("a@b", "password123")));
    for bad in [
        "no-at-sign",
        "@example.com",
        "someone@",
        "two@at@signs",
        "with space@example.com",
        "someone@exam ple.com",
        "\ttab@example.com",
    ] {
        assert!(!validate_registration(&registration(bad, "password123")), "email {bad:?}");
    }
    assert!(is_email_shaped("user.name+tag@sub.example.com"));
    assert!(!is_email_shaped("token\n@example.com"));
}

#[test]
fn login_validation_requires_identifier() {
    assert!(validate_login(&LoginRequest {
        username_or_email: "GVora".to_string(),
        password: "12345678".to_string(),
    }));
    assert!(!validate_login(&LoginRequest {
        username_or_email: "".to_string(),
        password: "12345678".to_string(),
    }));
}

#[test]
fn registration_always_grants_user_role() {
    let new_user = new_user_from_registration(RegisterUserPayload {
        email: "a@example.com".to_string(),
        password: "password123".to_string(),
        name: "A".to_string(),
    });
    assert_eq!(new_user.role, "user");
    assert_eq!(new_user.email, "a@example.com");
}

fn sample_user() -> User {
    User {
        id: b("u1"),
        email: "old@example.com".to_string(),
        name: "Old Name".to_string(),
        role: b("user"),
        created_at: 1000,
        updated_at: 2000,
    }
}

#[test]
fn profile_update_changes_fields_and_timestamp() {
    let mut user = sample_user();
    let changed = apply_profile_update(
        &mut user,
        &UpdateUserProfilePayload {
            email: Some("new@example.com".to_string()),
            name: None,
        },
        5000,
    );
    assert!(changed);
    assert_eq!(user.email, "new@example.com");
    assert_eq!(user.name, "Old Name");
    assert_eq!(user.updated_at, 5000);
    assert_eq!(user.created_at, 1000);
}

#[test]
fn profile_update_with_identical_values_changes_nothing() {
    let mut user = sample_user();
    let changed = apply_profile_update(
        &mut user,
        &UpdateUserProfilePayload {
            email: Some("old@example.com".to_string()),
            name: Some("Old Name".to_string()),
        },
        5000,
    );
    assert!(!changed);
    assert_eq!(user.updated_at, 2000);
}

#[test]
fn profile_update_without_fields_changes_nothing() {
    let mut user = sample_user();
    let changed = apply_profile_update(
        &mut user,
        &UpdateUserProfilePayload {
            email: None,
            name: None,
        },
        5000,
    );
    assert!(!changed);
    assert_eq!(user.email, "old@example.com");
    assert_eq!(user.updated_at, 2000);
}

#[test]
fn pagination_defaults_and_clamps() {
    let (page, per_page) = page_params(&Pagination {
        page: None,
        per_page: None,
    });
    assert_eq!((page, per_page), (1, 10));
    let (page, per_page) = page_params(&Pagination {
        page: Some(0),
        per_page: Some(0),
    });
    assert_eq!((page, per_page), (1, 1));
    let (page, per_page) = page_params(&Pagination {
        page: Some(3),
        per_page: Some(25),
    });
    assert_eq!((page, per_page), (3, 25));
}

#[test]
fn page_offset_saturates_instead_of_overflowing() {
    assert_eq!(page_offset(1, 10), 0);
    assert_eq!(page_offset(3, 25), 50);
    assert_eq!(page_offset(u32::MAX, u32::MAX), u32::MAX);
}

#[test]
fn receipt_access_for_owner_and_admin_only() {
    let owner = AuthenticatedUser {
        id: b("u1"),
        role: b("user"),
    };
    let admin = AuthenticatedUser {
        id: b("root"),
        role: b("admin"),
    };
    let other = AuthenticatedUser {
        id: b("u2"),
        role: b("user"),
    };
    assert!(may_access_receipt(&b("u1"), &owner));
    assert!(may_access_receipt(&b("u1"), &admin));
    assert!(!may_access_receipt(&b("u1"), &other));
}

#[test]
fn clock_is_sane_and_fits_issue_window() {
    let now = current_unix_time();
    assert!(now > 1_600_000_000);
    assert!(now_fits_issue_window(now));
    assert!(!now_fits_issue_window(u64::MAX));
}
