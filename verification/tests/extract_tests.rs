use receipt_auth::errors::AuthError;
use receipt_auth::extract::{bearer_token, cookie_token, extract_token_from_headers};

fn b(s: &str) -> Vec<u8> {
    s.as_bytes().to_vec()
}

#[test]
fn bearer_header_wins_over_cookie() {
    let auth = b("Bearer header-token");
    let cookie = b("token=cookie-token");
    let r = extract_token_from_headers(Some(&auth), Some(&cookie)).unwrap();
    assert_eq!(r, b("header-token"));
}

#[test]
fn cookie_used_when_no_authorization_header() {
    let cookie = b("token=abc; other=xyz");
    let r = extract_token_from_headers(None, Some(&cookie)).unwrap();
    assert_eq!(r, b("abc"));
}

#[test]
fn cookie_used_when_authorization_is_not_bearer() {
    let auth = b("Basic dXNlcjpwYXNz");
    let cookie = b("other=1; token=from-cookie");
    let r = extract_token_from_headers(Some(&auth), Some(&cookie)).unwrap();
    assert_eq!(r, b("from-cookie"));
}

#[test]
fn missing_everywhere_is_missing_token() {
    assert_eq!(
        extract_token_from_headers(None, None),
        Err(AuthError::MissingToken)
    );
}

#[test]
fn whitespace_only_bearer_is_missing_token() {
    let auth = b("Bearer    ");
    assert_eq!(
        extract_token_from_headers(Some(&auth), None),
        Err(AuthError::MissingToken)
    );
}

#[test]
fn whitespace_only_bearer_falls_through_to_cookie() {
    let auth = b("Bearer  \t ");
    let cookie = b("token=tok");
    let r = extract_token_from_headers(Some(&auth), Some(&cookie)).unwrap();
    assert_eq!(r, b("tok"));
}

#[test]
fn empty_cookie_value_is_missing_token() {
    let cookie = b("token=; other=1");
    assert_eq!(
        extract_token_from_headers(None, Some(&cookie)),
        Err(AuthError::MissingToken)
    );
}

#[test]
fn bearer_token_is_trimmed() {
    let auth = b("Bearer   spaced-token  ");
    assert_eq!(bearer_token(&auth), Some(b("spaced-token")));
}

#[test]
fn bearer_requires_exact_prefix() {
    assert_eq!(bearer_token(&b("bearer lower")), None);
    assert_eq!(bearer_token(&b("BearerX tok")), None);
    assert_eq!(bearer_token(&b("Bear tok")), None);
    assert_eq!(bearer_token(&b("")), None);
}

#[test]
fn cookie_pairs_are_trimmed_before_splitting() {
    assert_eq!(cookie_token(&b("  token=abc  ")), Some(b("abc")));
    assert_eq!(cookie_token(&b("a=1;  token=abc ;b=2")), Some(b("abc")));
}

#[test]
fn cookie_name_with_inner_space_does_not_match() {
    assert_eq!(cookie_token(&b("token = abc")), None);
}

#[test]
fn cookie_value_is_trimmed_and_first_equals_splits() {
    assert_eq!(cookie_token(&b("token=  a=b=c  ")), Some(b("a=b=c")));
}

#[test]
fn empty_token_pair_is_skipped_for_a_later_one() {
    assert_eq!(cookie_token(&b("token= ; token=real")), Some(b("real")));
}

#[test]
fn cookie_without_token_pair_finds_nothing() {
    assert_eq!(cookie_token(&b("")), None);
    assert_eq!(cookie_token(&b("a=1; b=2")), None);
    assert_eq!(cookie_token(&b("tokens=1")), None);
    assert_eq!(cookie_token(&b("token")), None);
    assert_eq!(cookie_token(&b(";;;")), None);
}
