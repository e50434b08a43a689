//! The token codec: issues and verifies signed, time-bound session tokens.
//!
//! A token is `base64url(header) . base64url(claims) . signature`, where the
//! header names the one accepted algorithm (HMAC-SHA256), the claims are the
//! canonical JSON of [`crate::claims`], and the signature is the base64url
//! HMAC tag of everything before it. The framing, the claims and the expiry
//! check are verified here; only the HMAC and the base64url codec are
//! trusted, as thin wrappers around outside crates.

use vstd::prelude::*;

use base64::Engine;

use crate::bytes::{
    bytes_eq, find_byte, find_byte_from, lemma_find_byte_at, subvec,
};
use crate::claims::{
    lemma_claims_round_trip, max_wire_exp, parse_claims, spec_claims_json, spec_parse_claims,
    claims_json_bytes, Claims, ClaimsView,
};
use crate::errors::AuthError;

verus! {

/// The base64url signature that HMAC-SHA256 under `secret` gives `message`.
pub uninterp spec fn hmac_tag(message: Seq<u8>, secret: Seq<u8>) -> Seq<u8>;

/// The base64url (URL-safe alphabet, no padding) encoding of `data`.
pub uninterp spec fn b64url(data: Seq<u8>) -> Seq<u8>;

/// The base64url decoding of `data`: `None` on anything but a canonical
/// no-padding encoding.
pub uninterp spec fn b64url_dec(data: Seq<u8>) -> Option<Seq<u8>>;

/// The URL-safe base64 alphabet: `A-Z`, `a-z`, `0-9`, `-`, `_`.
pub open spec fn is_b64url_char(b: u8) -> bool {
    (65 <= b <= 90) || (97 <= b <= 122) || (48 <= b <= 57) || b == 45 || b == 95
}

/// What the base64url codec guarantees of the encoding of `x`: it decodes
/// back to `x`, stays in the URL-safe alphabet, and is empty only for empty
/// input.
pub open spec fn b64_roundtrip_facts(x: Seq<u8>) -> bool {
    &&& b64url_dec(b64url(x)) == Some(x)
    &&& forall|i: int| 0 <= i < b64url(x).len() ==> is_b64url_char(#[trigger] b64url(x)[i])
    &&& (b64url(x).len() == 0 <==> x.len() == 0)
}

/// What the signer guarantees of the tag of `m`: a non-empty string over the
/// URL-safe alphabet.
pub open spec fn tag_facts(m: Seq<u8>, secret: Seq<u8>) -> bool {
    &&& forall|i: int|
        0 <= i < hmac_tag(m, secret).len() ==> is_b64url_char(#[trigger] hmac_tag(m, secret)[i])
    &&& hmac_tag(m, secret).len() > 0
}

/// Relies on base64's `URL_SAFE_NO_PAD` engine: `encode` yields the unpadded
/// URL-safe encoding, whose characters are all in the URL-safe alphabet and
/// which `decode` maps back to the input; the encoding is empty exactly for
/// empty input.
#[verifier::external_body]
fn b64url_encode(data: &Vec<u8>) -> (r: Vec<u8>)
    ensures
        r@ == b64url(data@),
        b64url_dec(r@) == Some(data@),
        forall|i: int| 0 <= i < r@.len() ==> is_b64url_char(#[trigger] r@[i]),
        r@.len() == 0 <==> data@.len() == 0,
{
    base64::engine::general_purpose::URL_SAFE_NO_PAD.encode(data).into_bytes()
}

/// Relies on base64's `URL_SAFE_NO_PAD` engine: `decode` accepts exactly the
/// canonical unpadded encodings (its config rejects padding and non-zero
/// trailing bits) and inverts `encode`.
#[verifier::external_body]
fn b64url_decode(data: &Vec<u8>) -> (r: Option<Vec<u8>>)
    ensures
        match r {
            Some(d) => b64url_dec(data@) == Some(d@),
            None => b64url_dec(data@) is None,
        },
{
    match base64::engine::general_purpose::URL_SAFE_NO_PAD.decode(data) {
        Ok(d) => Some(d),
        Err(_) => None,
    }
}

/// Relies on jsonwebtoken's `crypto::sign` with `Algorithm::HS256`: the
/// result is the base64url HMAC-SHA256 tag of the message under the secret,
/// a function of the two arguments alone; it is a non-empty string over the
/// URL-safe alphabet (32 MAC bytes encode to 43 characters). The call cannot
/// fail: the key from `from_secret` is always of the HMAC family, and the
/// HMAC signer accepts keys of every length and signs infallibly.
#[verifier::external_body]
fn hmac_sign(message: &Vec<u8>, secret: &Vec<u8>) -> (r: Vec<u8>)
    ensures
        r@ == hmac_tag(message@, secret@),
        r@.len() > 0,
        forall|i: int| 0 <= i < r@.len() ==> is_b64url_char(#[trigger] r@[i]),
{
    let key = jsonwebtoken::EncodingKey::from_secret(secret);
    jsonwebtoken::crypto::sign(message, &key, jsonwebtoken::Algorithm::HS256)
        .expect("HMAC signing is infallible")
        .into_bytes()
}

/// Relies on jsonwebtoken's `crypto::verify` with `Algorithm::HS256`: it
/// base64url-decodes the signature and compares it in constant time with the
/// recomputed HMAC-SHA256 tag, so it accepts exactly the tag itself (the
/// decoder takes only canonical encodings). A signature that is not UTF-8 or
/// not valid base64url cannot be the tag and is reported as a mismatch.
#[verifier::external_body]
fn hmac_verify_sig(sig: &Vec<u8>, message: &Vec<u8>, secret: &Vec<u8>) -> (r: bool)
    ensures
        r == (sig@ == hmac_tag(message@, secret@)),
{
    match core::str::from_utf8(sig) {
        Ok(s) => {
            let key = jsonwebtoken::DecodingKey::from_secret(secret);
            jsonwebtoken::crypto::verify(s, message, &key, jsonwebtoken::Algorithm::HS256)
                .unwrap_or(false)
        },
        Err(_) => false,
    }
}

/// The bytes of the one accepted token header, `{"alg":"HS256","typ":"JWT"}`.
pub open spec fn spec_header_json() -> Seq<u8> {
    seq![
        '{' as u8,
        '"' as u8,
        'a' as u8,
        'l' as u8,
        'g' as u8,
        '"' as u8,
        ':' as u8,
        '"' as u8,
        'H' as u8,
        'S' as u8,
        '2' as u8,
        '5' as u8,
        '6' as u8,
        '"' as u8,
        ',' as u8,
        '"' as u8,
        't' as u8,
        'y' as u8,
        'p' as u8,
        '"' as u8,
        ':' as u8,
        '"' as u8,
        'J' as u8,
        'W' as u8,
        'T' as u8,
        '"' as u8,
        '}' as u8,
    ]
}

fn header_json_vec() -> (r: Vec<u8>)
    ensures
        r@ == spec_header_json(),
{
    let mut v: Vec<u8> = Vec::new();
    v.push('{' as u8);
    v.push('"' as u8);
    v.push('a' as u8);
    v.push('l' as u8);
    v.push('g' as u8);
    v.push('"' as u8);
    v.push(':' as u8);
    v.push('"' as u8);
    v.push('H' as u8);
    v.push('S' as u8);
    v.push('2' as u8);
    v.push('5' as u8);
    v.push('6' as u8);
    v.push('"' as u8);
    v.push(',' as u8);
    v.push('"' as u8);
    v.push('t' as u8);
    v.push('y' as u8);
    v.push('p' as u8);
    v.push('"' as u8);
    v.push(':' as u8);
    v.push('"' as u8);
    v.push('J' as u8);
    v.push('W' as u8);
    v.push('T' as u8);
    v.push('"' as u8);
    v.push('}' as u8);
    proof {
        assert(v@ =~= spec_header_json());
    }
    v
}

/// The signed part of a token: encoded header, dot, encoded claims.
pub open spec fn spec_token_message(sub: Seq<u8>, role: Seq<u8>, exp: u64) -> Seq<u8> {
    b64url(spec_header_json()) + seq!['.' as u8] + b64url(spec_claims_json(sub, role, exp))
}

/// The token that issuance produces for these claims under this secret.
pub open spec fn spec_issue(sub: Seq<u8>, role: Seq<u8>, exp: u64, secret: Seq<u8>) -> Seq<u8> {
    spec_token_message(sub, role, exp) + seq!['.' as u8] + hmac_tag(
        spec_token_message(sub, role, exp),
        secret,
    )
}

/// The trusted facts about the encoders that hold of an issued token; they
/// are established by the issuing call and let the round-trip lemmas run.
pub open spec fn spec_issue_facts(sub: Seq<u8>, role: Seq<u8>, exp: u64, secret: Seq<u8>) -> bool {
    &&& b64_roundtrip_facts(spec_header_json())
    &&& b64_roundtrip_facts(spec_claims_json(sub, role, exp))
    &&& tag_facts(spec_token_message(sub, role, exp), secret)
}

/// The three dot-separated segments of a token, or `None` unless there are
/// exactly three.
pub open spec fn spec_split3(t: Seq<u8>) -> Option<(Seq<u8>, Seq<u8>, Seq<u8>)> {
    let d1 = find_byte(t, '.' as u8, 0);
    if d1 >= t.len() {
        None
    } else {
        let d2 = find_byte(t, '.' as u8, d1 + 1);
        if d2 >= t.len() {
            None
        } else {
            let d3 = find_byte(t, '.' as u8, d2 + 1);
            if d3 < t.len() {
                None
            } else {
                Some(
                    (
                        t.subrange(0, d1),
                        t.subrange(d1 + 1, d2),
                        t.subrange(d2 + 1, t.len() as int),
                    ),
                )
            }
        }
    }
}

/// What verification says of a token at time `now` under `secret`:
/// `Malformed` unless the token has three segments, a payload that base64url-
/// decodes, and claims in canonical form; `InvalidSignature` unless the
/// header is the one accepted header and the signature is the tag of the
/// first two segments; `Expired` once the expiry is not in the future; the
/// claims otherwise.
pub open spec fn spec_verify(t: Seq<u8>, secret: Seq<u8>, now: u64) -> Result<
    ClaimsView,
    AuthError,
> {
    match spec_split3(t) {
        None => Err(AuthError::Malformed),
        Some((h, p, sg)) => match b64url_dec(p) {
            None => Err(AuthError::Malformed),
            Some(payload) => match spec_parse_claims(payload) {
                None => Err(AuthError::Malformed),
                Some(c) => if h != b64url(spec_header_json()) {
                    Err(AuthError::InvalidSignature)
                } else if sg != hmac_tag(h + seq!['.' as u8] + p, secret) {
                    Err(AuthError::InvalidSignature)
                } else if c.exp <= now {
                    Err(AuthError::Expired)
                } else {
                    Ok(c)
                },
            },
        },
    }
}

/// Issue a token for `sub` and `role` that expires at `exp`; issuing never
/// fails.
///
/// The expiry must fit the wire form's nineteen decimal digits; every unix
/// time below ten quintillion does.
pub fn issue_with_expiry(sub: &Vec<u8>, role: &Vec<u8>, exp: u64, secret: &Vec<u8>) -> (r: Vec<
    u8,
>)
    requires
        (exp as nat) < max_wire_exp(),
    ensures
        r@ == spec_issue(sub@, role@, exp, secret@),
        spec_issue_facts(sub@, role@, exp, secret@),
{
    let hj = header_json_vec();
    let h = b64url_encode(&hj);
    let cj = claims_json_bytes(sub, role, exp);
    let p = b64url_encode(&cj);
    let mut msg = h;
    msg.push('.' as u8);
    let mut p2 = p;
    msg.append(&mut p2);
    proof {
        assert(msg@ =~= spec_token_message(sub@, role@, exp));
    }
    let mut sig = hmac_sign(&msg, secret);
    let mut token = msg;
    token.push('.' as u8);
    token.append(&mut sig);
    proof {
        assert(token@ =~= spec_issue(sub@, role@, exp, secret@));
    }
    token
}

/// Issue a token at time `now`: the expiry is always `now` plus 24 hours,
/// and issuing never fails.
pub fn create_jwt(user_id: &Vec<u8>, role: &Vec<u8>, now: u64, secret: &Vec<u8>) -> (r: Vec<u8>)
    requires
        (now as nat) + 86400 < max_wire_exp(),
    ensures
        r@ == spec_issue(user_id@, role@, (now + 86400) as u64, secret@),
        spec_issue_facts(user_id@, role@, (now + 86400) as u64, secret@),
{
    proof {
        crate::claims::lemma_pow10_19_value();
    }
    issue_with_expiry(user_id, role, now + 86400, secret)
}

/// A sequence framed as `first . second . third`, where the segments hold no
/// dot and the first is non-empty, splits back into exactly those segments.
proof fn lemma_split3_framed(hh: Seq<u8>, pp: Seq<u8>, sg: Seq<u8>)
    requires
        forall|i: int| 0 <= i < hh.len() ==> #[trigger] hh[i] != '.' as u8,
        forall|i: int| 0 <= i < pp.len() ==> #[trigger] pp[i] != '.' as u8,
        forall|i: int| 0 <= i < sg.len() ==> #[trigger] sg[i] != '.' as u8,
    ensures
        spec_split3((hh + seq!['.' as u8] + pp) + seq!['.' as u8] + sg) == Some(
            (hh, pp, sg),
        ),
{
    let m = hh + seq!['.' as u8] + pp;
    let t = m + seq!['.' as u8] + sg;
    let d1 = hh.len() as int;
    let d2 = m.len() as int;
    assert(m.len() == hh.len() + 1 + pp.len());
    assert(t.len() == m.len() + 1 + sg.len());
    assert forall|k: int| 0 <= k < m.len() implies t[k] == m[k] by {}
    assert forall|k: int| 0 <= k < hh.len() implies t[k] == hh[k] by {
        assert(m[k] == (hh + seq!['.' as u8])[k]);
    }
    assert(t[d1] == 46) by {
        assert(m[d1] == (hh + seq!['.' as u8])[d1]);
    }
    assert forall|k: int| d1 + 1 <= k < d2 implies t[k] == pp[k - d1 - 1] by {
        assert(m[k] == pp[k - (hh.len() + 1)]);
    }
    assert(t[d2] == 46);
    assert forall|k: int| d2 + 1 <= k < t.len() implies t[k] == sg[k - d2 - 1] by {}
    lemma_find_byte_at(t, '.' as u8, 0, d1);
    lemma_find_byte_at(t, '.' as u8, d1 + 1, d2);
    lemma_find_byte_at(t, '.' as u8, d2 + 1, t.len() as int);
    assert(t.subrange(0, d1) =~= hh);
    assert(t.subrange(d1 + 1, d2) =~= pp);
    assert(t.subrange(d2 + 1, t.len() as int) =~= sg);
}

/// Verifying a freshly issued token at time `now` yields exactly the issued
/// claims while `now` is before the expiry, and `Expired` from then on —
/// whatever the subject, role and secret.
pub proof fn lemma_verify_of_issued(
    sub: Seq<u8>,
    role: Seq<u8>,
    exp: u64,
    secret: Seq<u8>,
    now: u64,
)
    requires
        (exp as nat) < max_wire_exp(),
        spec_issue_facts(sub, role, exp, secret),
    ensures
        now < exp ==> spec_verify(spec_issue(sub, role, exp, secret), secret, now) == Ok::<
            ClaimsView,
            AuthError,
        >(ClaimsView { sub, role, exp }),
        exp <= now ==> spec_verify(spec_issue(sub, role, exp, secret), secret, now) == Err::<
            ClaimsView,
            AuthError,
        >(AuthError::Expired),
{
    let hj = spec_header_json();
    let cj = spec_claims_json(sub, role, exp);
    let hh = b64url(hj);
    let pp = b64url(cj);
    let m = spec_token_message(sub, role, exp);
    let sg = hmac_tag(m, secret);
    let t = spec_issue(sub, role, exp, secret);
    assert(hj.len() == 27);
    assert(hh.len() > 0);
    assert forall|i: int| 0 <= i < hh.len() implies #[trigger] hh[i] != '.' as u8 by {
        assert(is_b64url_char(hh[i]));
    }
    assert forall|i: int| 0 <= i < pp.len() implies #[trigger] pp[i] != '.' as u8 by {
        assert(is_b64url_char(pp[i]));
    }
    assert forall|i: int| 0 <= i < sg.len() implies #[trigger] sg[i] != '.' as u8 by {
        assert(is_b64url_char(sg[i]));
    }
    lemma_split3_framed(hh, pp, sg);
    assert(spec_split3(t) == Some((hh, pp, sg)));
    lemma_claims_round_trip(sub, role, exp);
    assert(hmac_tag(hh + seq!['.' as u8] + pp, secret) == sg);
}

/// Tampering with the signature segment of an issued token — replacing it by
/// any dot-free byte string other than the true tag — always fails
/// verification with `InvalidSignature`, at any time and whether or not the
/// token has expired.
pub proof fn lemma_tampered_signature_rejected(
    sub: Seq<u8>,
    role: Seq<u8>,
    exp: u64,
    secret: Seq<u8>,
    now: u64,
    sig2: Seq<u8>,
)
    requires
        (exp as nat) < max_wire_exp(),
        spec_issue_facts(sub, role, exp, secret),
        sig2 != hmac_tag(spec_token_message(sub, role, exp), secret),
        forall|i: int| 0 <= i < sig2.len() ==> #[trigger] sig2[i] != '.' as u8,
    ensures
        spec_verify(
            spec_token_message(sub, role, exp) + seq!['.' as u8] + sig2,
            secret,
            now,
        ) == Err::<ClaimsView, AuthError>(AuthError::InvalidSignature),
{
    let hj = spec_header_json();
    let cj = spec_claims_json(sub, role, exp);
    let hh = b64url(hj);
    let pp = b64url(cj);
    let m = spec_token_message(sub, role, exp);
    let t = m + seq!['.' as u8] + sig2;
    assert(hj.len() == 27);
    assert(hh.len() > 0);
    assert forall|i: int| 0 <= i < hh.len() implies #[trigger] hh[i] != '.' as u8 by {
        assert(is_b64url_char(hh[i]));
    }
    assert forall|i: int| 0 <= i < pp.len() implies #[trigger] pp[i] != '.' as u8 by {
        assert(is_b64url_char(pp[i]));
    }
    lemma_split3_framed(hh, pp, sig2);
    assert(spec_split3(t) == Some((hh, pp, sig2)));
    lemma_claims_round_trip(sub, role, exp);
    assert(hmac_tag(hh + seq!['.' as u8] + pp, secret) == hmac_tag(m, secret));
}

/// A token issued at `now` always verifies successfully at `now`, and hands
/// back exactly the claims that were issued.
pub fn issued_token_verifies(sub: &Vec<u8>, role: &Vec<u8>, now: u64, secret: &Vec<u8>) -> (r:
    Claims)
    requires
        (now as nat) + 86400 < max_wire_exp(),
    ensures
        r.sub@ == sub@,
        r.role@ == role@,
        r.exp == now + 86400,
{
    proof {
        crate::claims::lemma_pow10_19_value();
    }
    let token = create_jwt(sub, role, now, secret);
    let exp = now + 86400;
    proof {
        lemma_verify_of_issued(sub@, role@, exp, secret@, now);
    }
    match verify_token(&token, secret, now) {
        Ok(c) => c,
        Err(_) => vstd::pervasive::unreached(),
    }
}

/// Verify a token: its result corresponds exactly to `spec_verify`.
pub fn verify_token(token: &Vec<u8>, secret: &Vec<u8>, now: u64) -> (r: Result<Claims, AuthError>)
    ensures
        match r {
            Ok(c) => spec_verify(token@, secret@, now) == Ok::<ClaimsView, AuthError>(c@),
            Err(e) => spec_verify(token@, secret@, now) == Err::<ClaimsView, AuthError>(e),
        },
{
    let n = token.len();
    let d1 = find_byte_from(token, '.' as u8, 0);
    if d1 >= n {
        return Err(AuthError::Malformed);
    }
    let d2 = find_byte_from(token, '.' as u8, d1 + 1);
    if d2 >= n {
        return Err(AuthError::Malformed);
    }
    let d3 = find_byte_from(token, '.' as u8, d2 + 1);
    if d3 < n {
        return Err(AuthError::Malformed);
    }
    let h = subvec(token, 0, d1);
    let p = subvec(token, d1 + 1, d2);
    let sg = subvec(token, d2 + 1, n);
    let payload = match b64url_decode(&p) {
        Some(d) => d,
        None => {
            return Err(AuthError::Malformed);
        },
    };
    let claims = match parse_claims(&payload) {
        Some(c) => c,
        None => {
            return Err(AuthError::Malformed);
        },
    };
    let hj = header_json_vec();
    let h_expected = b64url_encode(&hj);
    if !bytes_eq(&h, &h_expected) {
        return Err(AuthError::InvalidSignature);
    }
    let msg = subvec(token, 0, d2);
    proof {
        assert(msg@ =~= h@ + seq!['.' as u8] + p@);
    }
    if !hmac_verify_sig(&sg, &msg, secret) {
        return Err(AuthError::InvalidSignature);
    }
    if claims.exp <= now {
        return Err(AuthError::Expired);
    }
    Ok(claims)
}

} // verus!
