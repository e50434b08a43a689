use receipt_auth::errors::{AuthError, RejectionClass};
use receipt_auth::gate::{
    require_admin_auth, require_auth, require_auth_with_revocation, require_principal,
    AuthenticatedUser,
};
use receipt_auth::token::{create_jwt, issue_with_expiry};

fn b(s: &str) -> Vec<u8> {
    s.as_bytes().to_vec()
}

const NOW: u64 = 1_700_000_000;

fn secret() -> Vec<u8> {
    b("gate-test-secret")
}

fn bearer(token: &[u8]) -> Vec<u8> {
    let mut h = b"Bearer ".to_vec();
    h.extend_from_slice(token);
    h
}

#[test]
fn standard_gate_attaches_principal_from_bearer_header() {
    let token = create_jwt(&b("u1"), &b("user"), NOW, &secret());
    let auth = bearer(&token);
    let principal = require_auth(Some(&auth), None, &secret(), NOW).unwrap();
    assert_eq!(principal.id, b("u1"));
    assert_eq!(principal.role, b("user"));
}

#[test]
fn standard_gate_accepts_token_from_cookie() {
    let token = create_jwt(&b("u2"), &b("user"), NOW, &secret());
    let mut cookie = b"other=1; token=".to_vec();
    cookie.extend_from_slice(&token);
    let principal = require_auth(None, Some(&cookie), &secret(), NOW).unwrap();
    assert_eq!(principal.id, b("u2"));
}

#[test]
fn standard_gate_without_token_is_missing_token() {
    assert_eq!(
        require_auth(None, None, &secret(), NOW),
        Err(AuthError::MissingToken)
    );
    assert_eq!(AuthError::MissingToken.http_status(), 401);
}

#[test]
fn standard_gate_rejects_expired_token() {
    let token = issue_with_expiry(&b("u1"), &b("user"), NOW - 1, &secret());
    let auth = bearer(&token);
    assert_eq!(
        require_auth(Some(&auth), None, &secret(), NOW),
        Err(AuthError::Expired)
    );
}

#[test]
fn standard_gate_rejects_garbage_token() {
    let auth = b("Bearer not-a-token");
    assert_eq!(
        require_auth(Some(&auth), None, &secret(), NOW),
        Err(AuthError::Malformed)
    );
}

#[test]
fn admin_gate_rejects_user_role_with_forbidden() {
    let token = create_jwt(&b("u1"), &b("user"), NOW, &secret());
    let auth = bearer(&token);
    let r = require_admin_auth(Some(&auth), None, &secret(), NOW);
    assert_eq!(r, Err(AuthError::InsufficientRole));
    assert_eq!(
        AuthError::InsufficientRole.rejection_class(),
        RejectionClass::Forbidden
    );
    assert_eq!(AuthError::InsufficientRole.http_status(), 403);
}

#[test]
fn admin_gate_accepts_admin_role() {
    let token = create_jwt(&b("root"), &b("admin"), NOW, &secret());
    let auth = bearer(&token);
    let principal = require_admin_auth(Some(&auth), None, &secret(), NOW).unwrap();
    assert_eq!(principal.id, b("root"));
    assert_eq!(principal.role, b("admin"));
}

#[test]
fn admin_gate_passes_other_failures_through() {
    assert_eq!(
        require_admin_auth(None, None, &secret(), NOW),
        Err(AuthError::MissingToken)
    );
}

#[test]
fn missing_principal_fails_fast_as_internal() {
    let attached = AuthenticatedUser {
        id: b("u1"),
        role: b("user"),
    };
    let got = require_principal(Some(&attached)).unwrap();
    assert_eq!(got.id, b("u1"));
    let absent = require_principal(None);
    assert_eq!(absent, Err(AuthError::MissingPrincipal));
    assert_eq!(
        AuthError::MissingPrincipal.rejection_class(),
        RejectionClass::Internal
    );
}

#[test]
fn logout_does_not_invalidate_but_revocation_list_does() {
    let token = create_jwt(&b("u1"), &b("user"), NOW, &secret());
    let auth = bearer(&token);
    let no_revocations: Vec<Vec<u8>> = vec![];
    assert!(require_auth_with_revocation(Some(&auth), None, &secret(), NOW, &no_revocations)
        .is_ok());
    let other = create_jwt(&b("u2"), &b("user"), NOW, &secret());
    let revocations = vec![other.clone(), token.clone()];
    assert_eq!(
        require_auth_with_revocation(Some(&auth), None, &secret(), NOW, &revocations),
        Err(AuthError::Expired)
    );
    let unrelated = vec![other];
    assert!(require_auth_with_revocation(Some(&auth), None, &secret(), NOW, &unrelated).is_ok());
}

#[test]
fn every_token_failure_maps_to_unauthorized() {
    for e in [
        AuthError::MissingToken,
        AuthError::Malformed,
        AuthError::InvalidSignature,
        AuthError::Expired,
        AuthError::CredentialMismatch,
    ] {
        assert_eq!(e.rejection_class(), RejectionClass::Unauthorized);
        assert_eq!(e.http_status(), 401);
    }
    assert_eq!(AuthError::HashingError.http_status(), 500);
}
