//! The token extractor: locates a candidate session token in the incoming
//! request's `Authorization` and `Cookie` header values.
//!
//! Search order, first match wins: a `Bearer <token>` authorization header
//! with a non-empty, whitespace-trimmed token; then a cookie named `token`,
//! found by splitting the cookie header on `;`, trimming each pair, and
//! splitting each pair on its first `=`. Empty tokens count as absent.

use vstd::prelude::*;

use crate::bytes::{
    bytes_eq, find_byte, is_ws, lemma_find_byte_props, match_at, spec_match_at, spec_trim, subvec,
    trim_bytes,
};
use crate::errors::AuthError;

verus! {

/// The bytes of `"Bearer "`.
pub open spec fn bearer_prefix() -> Seq<u8> {
    seq!['B' as u8, 'e' as u8, 'a' as u8, 'r' as u8, 'e' as u8, 'r' as u8, ' ' as u8]
}

/// The bytes of the session cookie's name, `"token"`.
pub open spec fn token_cookie_name() -> Seq<u8> {
    seq!['t' as u8, 'o' as u8, 'k' as u8, 'e' as u8, 'n' as u8]
}

fn bearer_prefix_vec() -> (r: Vec<u8>)
    ensures
        r@ == bearer_prefix(),
{
    let mut v: Vec<u8> = Vec::new();
    v.push('B' as u8);
    v.push('e' as u8);
    v.push('a' as u8);
    v.push('r' as u8);
    v.push('e' as u8);
    v.push('r' as u8);
    v.push(' ' as u8);
    proof {
        assert(v@ =~= bearer_prefix());
    }
    v
}

fn token_cookie_name_vec() -> (r: Vec<u8>)
    ensures
        r@ == token_cookie_name(),
{
    let mut v: Vec<u8> = Vec::new();
    v.push('t' as u8);
    v.push('o' as u8);
    v.push('k' as u8);
    v.push('e' as u8);
    v.push('n' as u8);
    proof {
        assert(v@ =~= token_cookie_name());
    }
    v
}

/// The token carried by an `Authorization` header value: present when the
/// value starts with `Bearer ` and the trimmed remainder is non-empty.
pub open spec fn spec_bearer_token(h: Seq<u8>) -> Option<Seq<u8>> {
    if spec_match_at(h, 0, bearer_prefix()) {
        let t = spec_trim(h.subrange(7, h.len() as int));
        if t.len() > 0 {
            Some(t)
        } else {
            None
        }
    } else {
        None
    }
}

/// The token carried by one trimmed `name=value` cookie pair: present when
/// the pair has an `=`, the part before the first `=` is exactly `token`,
/// and the trimmed value is non-empty.
pub open spec fn spec_pair_token(pair: Seq<u8>) -> Option<Seq<u8>> {
    let eq = find_byte(pair, '=' as u8, 0);
    if eq >= pair.len() {
        None
    } else if pair.subrange(0, eq) == token_cookie_name() {
        let v = spec_trim(pair.subrange(eq + 1, pair.len() as int));
        if v.len() > 0 {
            Some(v)
        } else {
            None
        }
    } else {
        None
    }
}

/// The token carried by a `Cookie` header value, scanning the `;`-separated
/// pairs from `from` onward and returning the first match.
pub open spec fn spec_cookie_token_from(s: Seq<u8>, from: int) -> Option<Seq<u8>>
    decreases s.len() - from,
    when 0 <= from <= s.len()
    via spec_cookie_token_from_decreases
{
    let end = find_byte(s, ';' as u8, from);
    let hit = spec_pair_token(spec_trim(s.subrange(from, end)));
    if hit is Some {
        hit
    } else if end >= s.len() {
        None
    } else {
        spec_cookie_token_from(s, end + 1)
    }
}

#[via_fn]
proof fn spec_cookie_token_from_decreases(s: Seq<u8>, from: int) {
    lemma_find_byte_props(s, ';' as u8, from);
}

/// The token carried by a `Cookie` header value.
pub open spec fn spec_cookie_token(s: Seq<u8>) -> Option<Seq<u8>> {
    spec_cookie_token_from(s, 0)
}

/// The view of an optional header value.
pub open spec fn opt_bytes(o: Option<&Vec<u8>>) -> Option<Seq<u8>> {
    match o {
        Some(v) => Some(v@),
        None => None,
    }
}

/// What extraction finds in a request: the bearer token of the
/// `Authorization` header if there is one, else the `token` cookie of the
/// `Cookie` header if there is one.
pub open spec fn spec_extract(auth: Option<Seq<u8>>, cookie: Option<Seq<u8>>) -> Option<Seq<u8>> {
    let from_auth = match auth {
        Some(h) => spec_bearer_token(h),
        None => None,
    };
    if from_auth is Some {
        from_auth
    } else {
        match cookie {
            Some(c) => spec_cookie_token(c),
            None => None,
        }
    }
}

/// The bearer token of an `Authorization` header value, if any.
pub fn bearer_token(header: &Vec<u8>) -> (r: Option<Vec<u8>>)
    ensures
        match r {
            Some(t) => spec_bearer_token(header@) == Some(t@),
            None => spec_bearer_token(header@) is None,
        },
{
    let prefix = bearer_prefix_vec();
    if !match_at(header, 0, &prefix) {
        return None;
    }
    let rest = subvec(header, 7, header.len());
    let t = trim_bytes(&rest);
    if t.len() > 0 {
        Some(t)
    } else {
        None
    }
}

/// The `token` cookie of one trimmed cookie pair, if any.
fn pair_token(pair: &Vec<u8>) -> (r: Option<Vec<u8>>)
    ensures
        match r {
            Some(t) => spec_pair_token(pair@) == Some(t@),
            None => spec_pair_token(pair@) is None,
        },
{
    let n = pair.len();
    let mut eq: usize = 0;
    while eq < n && pair[eq] != '=' as u8
        invariant
            0 <= eq <= n,
            n == pair@.len(),
            find_byte(pair@, '=' as u8, 0) == find_byte(pair@, '=' as u8, eq as int),
        decreases n - eq,
    {
        eq += 1;
    }
    assert(find_byte(pair@, '=' as u8, 0) == eq);
    if eq == n {
        return None;
    }
    let name = subvec(pair, 0, eq);
    let expected = token_cookie_name_vec();
    if !bytes_eq(&name, &expected) {
        return None;
    }
    let raw = subvec(pair, eq + 1, n);
    let v = trim_bytes(&raw);
    if v.len() > 0 {
        Some(v)
    } else {
        None
    }
}

/// The `token` cookie of a `Cookie` header value, if any.
pub fn cookie_token(header: &Vec<u8>) -> (r: Option<Vec<u8>>)
    ensures
        match r {
            Some(t) => spec_cookie_token(header@) == Some(t@),
            None => spec_cookie_token(header@) is None,
        },
{
    let n = header.len();
    let mut from: usize = 0;
    loop
        invariant
            0 <= from <= n,
            n == header@.len(),
            spec_cookie_token(header@) == spec_cookie_token_from(header@, from as int),
        decreases n - from,
    {
        let mut end: usize = from;
        while end < n && header[end] != ';' as u8
            invariant
                from <= end <= n,
                n == header@.len(),
                find_byte(header@, ';' as u8, from as int) == find_byte(
                    header@,
                    ';' as u8,
                    end as int,
                ),
            decreases n - end,
        {
            end += 1;
        }
        assert(find_byte(header@, ';' as u8, from as int) == end);
        let raw_pair = subvec(header, from, end);
        let pair = trim_bytes(&raw_pair);
        let hit = pair_token(&pair);
        if let Some(t) = hit {
            return Some(t);
        }
        if end >= n {
            return None;
        }
        from = end + 1;
    }
}

/// Locates the candidate token among the request's header values, preferring
/// the `Authorization` header over the `Cookie` header, and fails with
/// `MissingToken` when neither carries a non-empty token.
pub fn extract_token_from_headers(
    authorization: Option<&Vec<u8>>,
    cookie: Option<&Vec<u8>>,
) -> (r: Result<Vec<u8>, AuthError>)
    ensures
        match r {
            Ok(t) => spec_extract(opt_bytes(authorization), opt_bytes(cookie)) == Some(t@),
            Err(e) => spec_extract(opt_bytes(authorization), opt_bytes(cookie)) is None && e
                == AuthError::MissingToken,
        },
{
    if let Some(h) = authorization {
        if let Some(t) = bearer_token(h) {
            return Ok(t);
        }
    }
    if let Some(c) = cookie {
        if let Some(t) = cookie_token(c) {
            return Ok(t);
        }
    }
    Err(AuthError::MissingToken)
}

/// When both headers are present and the authorization header carries a
/// bearer token, extraction returns that token, never the cookie's.
pub proof fn lemma_extract_prefers_bearer(h: Seq<u8>, c: Seq<u8>)
    requires
        spec_bearer_token(h) is Some,
    ensures
        spec_extract(Some(h), Some(c)) == spec_bearer_token(h),
{
}

/// When no authorization header is present, extraction falls back to the
/// cookie header.
pub proof fn lemma_extract_cookie_fallback(h: Option<Seq<u8>>, c: Seq<u8>)
    requires
        match h {
            Some(hv) => spec_bearer_token(hv) is None,
            None => true,
        },
    ensures
        spec_extract(h, Some(c)) == spec_cookie_token(c),
{
}

} // verus!
