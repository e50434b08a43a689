use base64::Engine;

use receipt_auth::claims::{parse_claims, Claims};
use receipt_auth::errors::AuthError;
use receipt_auth::token::{create_jwt, issue_with_expiry, issued_token_verifies, verify_token};

fn b(s: &str) -> Vec<u8> {
    s.as_bytes().to_vec()
}

const NOW: u64 = 1_700_000_000;

fn secret() -> Vec<u8> {
    b("a-test-signing-secret")
}

#[test]
fn issue_then_verify_returns_matching_claims() {
    let token = create_jwt(&b("u1"), &b("user"), NOW, &secret());
    let claims = verify_token(&token, &secret(), NOW).unwrap();
    assert_eq!(claims.sub, b("u1"));
    assert_eq!(claims.role, b("user"));
    assert_eq!(claims.exp, NOW + 86400);
}

#[test]
fn issue_then_verify_for_various_subjects() {
    for (sub, role) in [
        ("admin-7", "admin"),
        ("x", "user"),
        ("id with spaces and \"quotes\" and \\slashes", "role\nwith\tcontrol"),
        ("üser-ñame", "user"),
    ] {
        let token = create_jwt(&b(sub), &b(role), NOW, &secret());
        let claims = verify_token(&token, &secret(), NOW).unwrap();
        assert_eq!(claims.sub, b(sub));
        assert_eq!(claims.role, b(role));
    }
}

#[test]
fn round_trip_helper_succeeds() {
    let claims = issued_token_verifies(&b("subject"), &b("user"), NOW, &secret());
    assert_eq!(claims.sub, b("subject"));
    assert_eq!(claims.role, b("user"));
    assert_eq!(claims.exp, NOW + 86400);
}

#[test]
fn token_expires_exactly_at_expiry() {
    let token = create_jwt(&b("u1"), &b("user"), NOW, &secret());
    assert!(verify_token(&token, &secret(), NOW + 86399).is_ok());
    assert_eq!(
        verify_token(&token, &secret(), NOW + 86400),
        Err(AuthError::Expired)
    );
}

#[test]
fn expired_token_rejected_with_expired() {
    let token = issue_with_expiry(&b("u1"), &b("user"), NOW - 100, &secret());
    assert_eq!(verify_token(&token, &secret(), NOW), Err(AuthError::Expired));
    let ancient = issue_with_expiry(&b("u1"), &b("user"), 1, &secret());
    assert_eq!(verify_token(&ancient, &secret(), NOW), Err(AuthError::Expired));
}

#[test]
fn tampering_with_signature_fails_with_invalid_signature() {
    let token = create_jwt(&b("u1"), &b("user"), NOW, &secret());
    let sig_start = token.iter().rposition(|&c| c == b'.').unwrap() + 1;
    for i in sig_start..token.len() {
        let mut tampered = token.clone();
        tampered[i] = if tampered[i] == b'A' { b'B' } else { b'A' };
        assert_eq!(
            verify_token(&tampered, &secret(), NOW),
            Err(AuthError::InvalidSignature),
            "position {i}"
        );
    }
}

#[test]
fn signature_with_extra_character_fails() {
    let mut token = create_jwt(&b("u1"), &b("user"), NOW, &secret());
    token.push(b'x');
    assert_eq!(
        verify_token(&token, &secret(), NOW),
        Err(AuthError::InvalidSignature)
    );
}

#[test]
fn truncated_signature_fails() {
    let mut token = create_jwt(&b("u1"), &b("user"), NOW, &secret());
    token.pop();
    assert_eq!(
        verify_token(&token, &secret(), NOW),
        Err(AuthError::InvalidSignature)
    );
}

#[test]
fn wrong_secret_fails_with_invalid_signature() {
    let token = create_jwt(&b("u1"), &b("user"), NOW, &secret());
    assert_eq!(
        verify_token(&token, &b("another-secret"), NOW),
        Err(AuthError::InvalidSignature)
    );
}

#[test]
fn structurally_broken_tokens_are_malformed() {
    for bad in ["", "abc", "a.b", "a.b.c.d", "..", "a.!!!.c"] {
        assert_eq!(
            verify_token(&b(bad), &secret(), NOW),
            Err(AuthError::Malformed),
            "token {bad:?}"
        );
    }
}

#[test]
fn alternate_algorithm_header_is_rejected() {
    let token = create_jwt(&b("u1"), &b("user"), NOW, &secret());
    let text = String::from_utf8(token).unwrap();
    let mut parts = text.split('.');
    let (_h, p, s) = (
        parts.next().unwrap(),
        parts.next().unwrap(),
        parts.next().unwrap(),
    );
    let none_header = base64::engine::general_purpose::URL_SAFE_NO_PAD
        .encode("{\"alg\":\"none\",\"typ\":\"JWT\"}");
    let forged = format!("{none_header}.{p}.{s}");
    assert_eq!(
        verify_token(&b(&forged), &secret(), NOW),
        Err(AuthError::InvalidSignature)
    );
}

#[test]
fn payload_segment_is_the_canonical_claims_json() {
    let token = create_jwt(&b("u1"), &b("user"), NOW, &secret());
    let text = String::from_utf8(token).unwrap();
    let payload_b64 = text.split('.').nth(1).unwrap();
    let payload = base64::engine::general_purpose::URL_SAFE_NO_PAD
        .decode(payload_b64)
        .unwrap();
    let expected = format!("{{\"sub\":\"u1\",\"role\":\"user\",\"exp\":{}}}", NOW + 86400);
    assert_eq!(payload, expected.as_bytes());
}

#[test]
fn issued_token_decodes_with_jsonwebtoken() {
    let token = create_jwt(&b("u1"), &b("admin"), NOW, &secret());
    let text = String::from_utf8(token).unwrap();
    let mut validation = jsonwebtoken::Validation::new(jsonwebtoken::Algorithm::HS256);
    validation.leeway = 0;
    validation.validate_exp = false;
    let data = jsonwebtoken::decode::<serde_json::Value>(
        &text,
        &jsonwebtoken::DecodingKey::from_secret(b"a-test-signing-secret"),
        &validation,
    )
    .unwrap();
    assert_eq!(data.claims.get("sub").unwrap().as_str().unwrap(), "u1");
    assert_eq!(data.claims.get("role").unwrap().as_str().unwrap(), "admin");
    assert_eq!(data.claims.get("exp").unwrap().as_u64().unwrap(), NOW + 86400);
}

#[test]
fn claims_json_escapes_and_parses_back() {
    let claims = Claims {
        sub: b("a\"b\\c\ncontrol\u{1}"),
        role: b("user"),
        exp: 42,
    };
    let json = receipt_auth::claims::claims_to_json(&claims);
    let parsed = parse_claims(&json).unwrap();
    assert_eq!(parsed.sub, claims.sub);
    assert_eq!(parsed.role, claims.role);
    assert_eq!(parsed.exp, 42);
}

#[test]
fn claims_parser_rejects_non_canonical_objects() {
    for bad in [
        "",
        "{}",
        "{\"sub\":\"a\",\"role\":\"b\"}",
        "{\"role\":\"b\",\"sub\":\"a\",\"exp\":1}",
        "{\"sub\":\"a\",\"role\":\"b\",\"exp\":}",
        "{\"sub\":\"a\",\"role\":\"b\",\"exp\":1x}",
        "{\"sub\":\"a\",\"role\":\"b\",\"exp\":12345678901234567890123}",
        "{\"sub\":\"a\",\"role\":\"b\",\"exp\":1} ",
    ] {
        assert!(parse_claims(&b(bad)).is_none(), "payload {bad:?}");
    }
}

#[test]
fn claims_parser_accepts_exactly_the_wire_form() {
    let parsed = parse_claims(&b("{\"sub\":\"u1\",\"role\":\"admin\",\"exp\":7}")).unwrap();
    assert_eq!(parsed.sub, b("u1"));
    assert_eq!(parsed.role, b("admin"));
    assert_eq!(parsed.exp, 7);
}
