//! The authorization gate: the extract–verify pipeline run on a request's
//! header values, yielding the authenticated principal or a typed
//! rejection. The admin variant additionally demands the administrator role.

use vstd::prelude::*;

use crate::bytes::{is_ws, lemma_trim_noop, spec_match_at};
use crate::claims::{max_wire_exp, ClaimsView};
use crate::errors::AuthError;
use crate::extract::{
    bearer_prefix, extract_token_from_headers, opt_bytes, spec_bearer_token, spec_extract,
};
use crate::spec_is_admin_role;
use crate::token::{
    b64url, hmac_tag, is_b64url_char, spec_header_json, spec_issue, spec_issue_facts,
    spec_token_message, spec_verify, verify_token,
};

verus! {

/// The authenticated identity that a gate attaches to a request.
#[derive(Debug, Clone, PartialEq, Eq)]
pub struct AuthenticatedUser {
    /// The subject identifier from the verified token.
    pub id: Vec<u8>,
    /// The role from the verified token.
    pub role: Vec<u8>,
}

/// The mathematical image of `AuthenticatedUser`.
pub ghost struct PrincipalView {
    pub id: Seq<u8>,
    pub role: Seq<u8>,
}

impl View for AuthenticatedUser {
    type V = PrincipalView;

    open spec fn view(&self) -> PrincipalView {
        PrincipalView { id: self.id@, role: self.role@ }
    }
}

/// What the standard gate decides from the two header values: the error of
/// extraction or verification, or the principal carried by the token.
pub open spec fn spec_authorize(
    auth: Option<Seq<u8>>,
    cookie: Option<Seq<u8>>,
    secret: Seq<u8>,
    now: u64,
) -> Result<PrincipalView, AuthError> {
    match spec_extract(auth, cookie) {
        None => Err(AuthError::MissingToken),
        Some(t) => match spec_verify(t, secret, now) {
            Err(e) => Err(e),
            Ok(c) => Ok(PrincipalView { id: c.sub, role: c.role }),
        },
    }
}

/// What the admin gate decides: as the standard gate, except that a verified
/// principal without the administrator role is rejected with
/// `InsufficientRole`.
pub open spec fn spec_authorize_admin(
    auth: Option<Seq<u8>>,
    cookie: Option<Seq<u8>>,
    secret: Seq<u8>,
    now: u64,
) -> Result<PrincipalView, AuthError> {
    match spec_authorize(auth, cookie, secret, now) {
        Err(e) => Err(e),
        Ok(p) => if !spec_is_admin_role(p.role) {
            Err(AuthError::InsufficientRole)
        } else {
            Ok(p)
        },
    }
}

/// The standard gate: extract a token from the `Authorization` or `Cookie`
/// header value, verify it, and hand back the principal to attach to the
/// request; any failure short-circuits with the typed error.
pub fn require_auth(
    authorization: Option<&Vec<u8>>,
    cookie: Option<&Vec<u8>>,
    secret: &Vec<u8>,
    now: u64,
) -> (r: Result<AuthenticatedUser, AuthError>)
    ensures
        match r {
            Ok(p) => spec_authorize(opt_bytes(authorization), opt_bytes(cookie), secret@, now)
                == Ok::<PrincipalView, AuthError>(p@),
            Err(e) => spec_authorize(opt_bytes(authorization), opt_bytes(cookie), secret@, now)
                == Err::<PrincipalView, AuthError>(e),
        },
{
    let token = match extract_token_from_headers(authorization, cookie) {
        Ok(t) => t,
        Err(e) => {
            return Err(e);
        },
    };
    let claims = match verify_token(&token, secret, now) {
        Ok(c) => c,
        Err(e) => {
            return Err(e);
        },
    };
    Ok(AuthenticatedUser { id: claims.sub, role: claims.role })
}

/// The admin gate: the standard gate, then a role check that rejects any
/// principal whose role is not the administrator role.
pub fn require_admin_auth(
    authorization: Option<&Vec<u8>>,
    cookie: Option<&Vec<u8>>,
    secret: &Vec<u8>,
    now: u64,
) -> (r: Result<AuthenticatedUser, AuthError>)
    ensures
        match r {
            Ok(p) => spec_authorize_admin(
                opt_bytes(authorization),
                opt_bytes(cookie),
                secret@,
                now,
            ) == Ok::<PrincipalView, AuthError>(p@),
            Err(e) => spec_authorize_admin(
                opt_bytes(authorization),
                opt_bytes(cookie),
                secret@,
                now,
            ) == Err::<PrincipalView, AuthError>(e),
        },
{
    let user = match require_auth(authorization, cookie, secret, now) {
        Ok(p) => p,
        Err(e) => {
            return Err(e);
        },
    };
    if !crate::is_admin_role(&user.role) {
        return Err(AuthError::InsufficientRole);
    }
    Ok(user)
}

/// Whether `token` stands on the revocation list.
pub open spec fn spec_is_revoked(token: Seq<u8>, revoked: Seq<Seq<u8>>) -> bool {
    exists|i: int| 0 <= i < revoked.len() && revoked[i] == token
}

/// What the revocation-aware gate decides: as the standard gate, except
/// that an extracted token on the revocation list is rejected as `Expired`
/// before verification.
pub open spec fn spec_authorize_with_revocation(
    auth: Option<Seq<u8>>,
    cookie: Option<Seq<u8>>,
    secret: Seq<u8>,
    now: u64,
    revoked: Seq<Seq<u8>>,
) -> Result<PrincipalView, AuthError> {
    match spec_extract(auth, cookie) {
        None => Err(AuthError::MissingToken),
        Some(t) => if spec_is_revoked(t, revoked) {
            Err(AuthError::Expired)
        } else {
            match spec_verify(t, secret, now) {
                Err(e) => Err(e),
                Ok(c) => Ok(PrincipalView { id: c.sub, role: c.role }),
            }
        },
    }
}

/// The standard gates never revoke: logout clears only the browser cookie,
/// and a bearer of the token stays authenticated until its natural expiry.
/// A deployment that cannot accept that residual risk hands this gate the
/// tokens it has revoked, and they are rejected as expired from then on.
#[verifier::loop_isolation(false)]
pub fn require_auth_with_revocation(
    authorization: Option<&Vec<u8>>,
    cookie: Option<&Vec<u8>>,
    secret: &Vec<u8>,
    now: u64,
    revoked: &Vec<Vec<u8>>,
) -> (r: Result<AuthenticatedUser, AuthError>)
    ensures
        match r {
            Ok(p) => spec_authorize_with_revocation(
                opt_bytes(authorization),
                opt_bytes(cookie),
                secret@,
                now,
                revoked@.map_values(|v: Vec<u8>| v@),
            ) == Ok::<PrincipalView, AuthError>(p@),
            Err(e) => spec_authorize_with_revocation(
                opt_bytes(authorization),
                opt_bytes(cookie),
                secret@,
                now,
                revoked@.map_values(|v: Vec<u8>| v@),
            ) == Err::<PrincipalView, AuthError>(e),
        },
{
    let token = match extract_token_from_headers(authorization, cookie) {
        Ok(t) => t,
        Err(e) => {
            return Err(e);
        },
    };
    let ghost rv = revoked@.map_values(|v: Vec<u8>| v@);
    let mut i: usize = 0;
    while i < revoked.len()
        invariant
            0 <= i <= revoked.len(),
            rv == revoked@.map_values(|v: Vec<u8>| v@),
            forall|k: int| 0 <= k < i ==> rv[k] != token@,
        decreases revoked.len() - i,
    {
        if crate::bytes::bytes_eq(&revoked[i], &token) {
            proof {
                assert(rv[i as int] == token@);
                assert(spec_is_revoked(token@, rv));
            }
            return Err(AuthError::Expired);
        }
        i += 1;
    }
    proof {
        assert(!spec_is_revoked(token@, rv));
    }
    let claims = match verify_token(&token, secret, now) {
        Ok(c) => c,
        Err(e) => {
            return Err(e);
        },
    };
    Ok(AuthenticatedUser { id: claims.sub, role: claims.role })
}

/// A handler's fail-fast read of the attached principal: absence is a
/// misconfigured route, never an identity.
pub fn require_principal<'a>(p: Option<&'a AuthenticatedUser>) -> (r: Result<
    &'a AuthenticatedUser,
    AuthError,
>)
    ensures
        match p {
            Some(u) => r matches Ok(v) && v == u,
            None => r == Err::<&'a AuthenticatedUser, AuthError>(AuthError::MissingPrincipal),
        },
{
    match p {
        Some(u) => Ok(u),
        None => Err(AuthError::MissingPrincipal),
    }
}

/// A request whose `Authorization` header carries a freshly issued,
/// unexpired token passes the standard gate with exactly the issued subject
/// and role, whatever the cookie header holds; the admin gate additionally
/// lets it through only with the administrator role, and rejects any other
/// role with `InsufficientRole` — the forbidden outcome.
pub proof fn lemma_gate_on_issued_bearer(
    sub: Seq<u8>,
    role: Seq<u8>,
    exp: u64,
    secret: Seq<u8>,
    now: u64,
    cookie: Option<Seq<u8>>,
)
    requires
        (exp as nat) < max_wire_exp(),
        spec_issue_facts(sub, role, exp, secret),
        now < exp,
    ensures
        spec_authorize(
            Some(bearer_prefix() + spec_issue(sub, role, exp, secret)),
            cookie,
            secret,
            now,
        ) == Ok::<PrincipalView, AuthError>(PrincipalView { id: sub, role }),
        spec_authorize_admin(
            Some(bearer_prefix() + spec_issue(sub, role, exp, secret)),
            cookie,
            secret,
            now,
        ) == (if spec_is_admin_role(role) {
            Ok::<PrincipalView, AuthError>(PrincipalView { id: sub, role })
        } else {
            Err::<PrincipalView, AuthError>(AuthError::InsufficientRole)
        }),
{
    let t = spec_issue(sub, role, exp, secret);
    let m = spec_token_message(sub, role, exp);
    let hh = b64url(spec_header_json());
    let sg = hmac_tag(m, secret);
    let h = bearer_prefix() + t;
    assert(spec_header_json().len() == 27);
    assert(hh.len() > 0);
    assert(sg.len() > 0);
    assert(t.len() == m.len() + 1 + sg.len());
    assert(m.len() == hh.len() + 1 + b64url(
        crate::claims::spec_claims_json(sub, role, exp),
    ).len());
    assert(t[0] == hh[0]) by {
        assert(m[0] == (hh + seq!['.' as u8])[0]);
    }
    assert(is_b64url_char(hh[0]));
    assert(t[t.len() - 1] == sg[sg.len() - 1]);
    assert(is_b64url_char(sg[sg.len() - 1]));
    assert(!is_ws(t[0]) && !is_ws(t[t.len() - 1]));
    lemma_trim_noop(t);
    assert(spec_match_at(h, 0, bearer_prefix())) by {
        assert(h.subrange(0, 7) =~= bearer_prefix());
    }
    assert(h.subrange(7, h.len() as int) =~= t);
    assert(spec_bearer_token(h) == Some(t));
    assert(spec_extract(Some(h), cookie) == Some(t));
    crate::token::lemma_verify_of_issued(sub, role, exp, secret, now);
    assert(spec_verify(t, secret, now) == Ok::<ClaimsView, AuthError>(
        ClaimsView { sub, role, exp },
    ));
}

/// The admin gate accepts exactly what the standard gate accepts with the
/// administrator role, rejects a valid principal of any other role with
/// `InsufficientRole`, and passes every other failure through unchanged.
pub proof fn lemma_admin_gate_role(
    auth: Option<Seq<u8>>,
    cookie: Option<Seq<u8>>,
    secret: Seq<u8>,
    now: u64,
)
    ensures
        forall|p: PrincipalView|
            spec_authorize(auth, cookie, secret, now) == Ok::<PrincipalView, AuthError>(p)
                ==> #[trigger] spec_authorize_admin(auth, cookie, secret, now) == (
            if spec_is_admin_role(p.role) {
                Ok::<PrincipalView, AuthError>(p)
            } else {
                Err::<PrincipalView, AuthError>(AuthError::InsufficientRole)
            }),
        spec_authorize(auth, cookie, secret, now) matches Err(e) ==> spec_authorize_admin(
            auth,
            cookie,
            secret,
            now,
        ) == Err::<PrincipalView, AuthError>(e),
{
}

} // verus!
