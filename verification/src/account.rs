//! Account-side decisions of the auth core: authenticating a login attempt
//! against a stored credential record, assembling the login response parts,
//! validating registration and login payloads, merging a profile update, and
//! the small request-side helpers the handlers rely on.

use vstd::prelude::*;

use vstd::string::StringSliceAdditionalSpecFns;

use crate::bytes::{bytes_eq, find_byte, is_ws, subvec};
use crate::claims::max_wire_exp;
use crate::cookie::{create_auth_cookie, spec_auth_cookie};
use crate::errors::AuthError;
use crate::gate::AuthenticatedUser;
use crate::hashing::{bcrypt_result, hash_password, password_meets_policy, verify_password};
use crate::spec_is_admin_role;
use crate::token::{create_jwt, spec_issue};

verus! {

/// A stored credential, as handed over by the user-storage collaborator.
#[derive(Debug, Clone)]
pub struct CredentialRecord {
    /// The subject identifier the token will carry.
    pub subject_id: Vec<u8>,
    /// The bcrypt hash of the subject's password.
    pub password_hash: String,
    /// The subject's role.
    pub role: Vec<u8>,
}

/// A stored user profile, with timestamps as unix seconds.
#[derive(Debug, Clone)]
pub struct User {
    pub id: Vec<u8>,
    pub email: String,
    pub name: String,
    pub role: Vec<u8>,
    pub created_at: i64,
    pub updated_at: i64,
}

/// A user record to insert at registration.
#[derive(Debug, Clone)]
pub struct NewUser {
    pub email: String,
    pub password: String,
    pub name: String,
    pub role: String,
}

/// The registration request body.
#[derive(Debug, Clone)]
pub struct RegisterUserPayload {
    pub email: String,
    pub password: String,
    pub name: String,
}

/// The login request body.
#[derive(Debug, Clone)]
pub struct LoginRequest {
    pub username_or_email: String,
    pub password: String,
}

/// The profile-update request body.
#[derive(Debug, Clone)]
pub struct UpdateUserProfilePayload {
    pub email: Option<String>,
    pub name: Option<String>,
}

/// Page selection of a listing request.
#[derive(Debug, Clone)]
pub struct Pagination {
    pub page: Option<u32>,
    pub per_page: Option<u32>,
}

/// What authenticating a password against an optional stored record
/// decides: no record or a non-matching password is a `CredentialMismatch`,
/// a corrupt stored hash an internal `HashingError`, and a match succeeds.
pub open spec fn spec_authenticate(
    record: Option<CredentialRecord>,
    password: Seq<char>,
) -> Result<CredentialRecord, AuthError> {
    match record {
        None => Err(AuthError::CredentialMismatch),
        Some(rec) => match bcrypt_result(password, rec.password_hash@) {
            None => Err(AuthError::HashingError),
            Some(false) => Err(AuthError::CredentialMismatch),
            Some(true) => Ok(rec),
        },
    }
}

/// Authenticate a login attempt: verify the password against the stored
/// hash and, on a match, hand back the principal for the record.
pub fn authenticate_user(record: Option<&CredentialRecord>, password: &str) -> (r: Result<
    AuthenticatedUser,
    AuthError,
>)
    ensures
        match r {
            Ok(u) => spec_authenticate(
                match record {
                    Some(rec) => Some(*rec),
                    None => None,
                },
                password@,
            ) matches Ok(rec) && u.id@ == rec.subject_id@ && u.role@ == rec.role@,
            Err(e) => spec_authenticate(
                match record {
                    Some(rec) => Some(*rec),
                    None => None,
                },
                password@,
            ) == Err::<CredentialRecord, AuthError>(e),
        },
{
    let rec = match record {
        Some(rec) => rec,
        None => {
            return Err(AuthError::CredentialMismatch);
        },
    };
    let matched = match verify_password(password, rec.password_hash.as_str()) {
        Ok(b) => b,
        Err(e) => {
            return Err(e);
        },
    };
    if !matched {
        return Err(AuthError::CredentialMismatch);
    }
    Ok(
        AuthenticatedUser {
            id: subvec(&rec.subject_id, 0, rec.subject_id.len()),
            role: subvec(&rec.role, 0, rec.role.len()),
        },
    )
}

/// Everything a successful login hands back to the client: the principal,
/// the signed token, and the `Set-Cookie` value carrying it.
pub struct LoginOutcome {
    pub user: AuthenticatedUser,
    pub token: Vec<u8>,
    pub cookie: Vec<u8>,
}

/// The whole login decision: authenticate the password against the stored
/// record, issue a 24-hour token for the record's subject and role, and
/// build the session cookie around it. Success is owed exactly when the
/// record matches; the failures are those of authentication.
pub fn login(record: Option<&CredentialRecord>, password: &str, now: u64, secret: &Vec<u8>) -> (r:
    Result<LoginOutcome, AuthError>)
    requires
        (now as nat) + 86400 < max_wire_exp(),
    ensures
        match r {
            Ok(o) => {
                &&& spec_authenticate(
                    match record {
                        Some(rec) => Some(*rec),
                        None => None,
                    },
                    password@,
                ) matches Ok(rec)
                &&& o.user.id@ == rec.subject_id@
                &&& o.user.role@ == rec.role@
                &&& o.token@ == spec_issue(
                    rec.subject_id@,
                    rec.role@,
                    (now + 86400) as u64,
                    secret@,
                )
                &&& o.cookie@ == spec_auth_cookie(o.token@)
            },
            Err(e) => spec_authenticate(
                match record {
                    Some(rec) => Some(*rec),
                    None => None,
                },
                password@,
            ) == Err::<CredentialRecord, AuthError>(e),
        },
{
    let user = match authenticate_user(record, password) {
        Ok(u) => u,
        Err(e) => {
            return Err(e);
        },
    };
    let token = create_jwt(&user.id, &user.role, now, secret);
    let cookie = create_auth_cookie(&token);
    Ok(LoginOutcome { user, token, cookie })
}

/// A minimally email-shaped identifier: exactly one `@`, at least one byte
/// on each side of it, and no whitespace anywhere.
pub open spec fn spec_email_shaped(s: Seq<u8>) -> bool {
    let at = find_byte(s, '@' as u8, 0);
    &&& 0 < at
    &&& at + 1 < s.len()
    &&& find_byte(s, '@' as u8, at + 1) == s.len()
    &&& forall|i: int| 0 <= i < s.len() ==> !is_ws(#[trigger] s[i])
}

/// Whether an identifier is minimally email-shaped.
#[verifier::loop_isolation(false)]
pub fn is_email_shaped(email: &str) -> (r: bool)
    ensures
        r == spec_email_shaped(email.spec_bytes()),
{
    let s: &[u8] = email.as_bytes();
    let n = s.len();
    let mut at: usize = 0;
    while at < n && s[at] != '@' as u8
        invariant
            0 <= at <= n,
            n == s@.len(),
            find_byte(s@, '@' as u8, 0) == find_byte(s@, '@' as u8, at as int),
        decreases n - at,
    {
        at += 1;
    }
    assert(find_byte(s@, '@' as u8, 0) == at);
    if at == 0 || at >= n - 1 {
        return false;
    }
    let mut j: usize = at + 1;
    while j < n && s[j] != '@' as u8
        invariant
            at + 1 <= j <= n,
            n == s@.len(),
            find_byte(s@, '@' as u8, at + 1) == find_byte(s@, '@' as u8, j as int),
        decreases n - j,
    {
        j += 1;
    }
    assert(find_byte(s@, '@' as u8, at + 1) == j);
    if j < n {
        return false;
    }
    let mut i: usize = 0;
    while i < n
        invariant
            0 <= i <= n,
            n == s@.len(),
            forall|k: int| 0 <= k < i ==> !is_ws(#[trigger] s@[k]),
        decreases n - i,
    {
        let b = s[i];
        if b == 32 || b == 9 || b == 10 || b == 11 || b == 12 || b == 13 {
            assert(is_ws(s@[i as int]));
            return false;
        }
        i += 1;
    }
    true
}

/// Registration is acceptable when the identifier is minimally
/// email-shaped and the password meets the minimum-length policy.
pub fn validate_registration(payload: &RegisterUserPayload) -> (r: bool)
    ensures
        r == (spec_email_shaped(vstd::utf8::encode_utf8(payload.email@))
            && payload.password@.len() >= 8),
{
    is_email_shaped(payload.email.as_str()) && password_meets_policy(payload.password.as_str())
}

/// A login request is acceptable when the identifier is non-empty.
pub fn validate_login(payload: &LoginRequest) -> (r: bool)
    ensures
        r == (payload.username_or_email@.len() > 0),
{
    !payload.username_or_email.as_str().is_empty()
}

/// The record a registration inserts: the payload's fields with the
/// non-administrator role.
pub fn new_user_from_registration(payload: RegisterUserPayload) -> (r: NewUser)
    ensures
        r.email@ == payload.email@,
        r.password@ == payload.password@,
        r.name@ == payload.name@,
        r.role@ == "user"@,
{
    NewUser {
        email: payload.email,
        password: payload.password,
        name: payload.name,
        role: "user".to_owned(),
    }
}

/// Hash the password of a new user before it is stored: the stored record
/// never holds the plaintext.
pub fn hashed_credential(new_user: &NewUser) -> (r: Result<String, AuthError>)
    ensures
        match r {
            Ok(h) => bcrypt_result(new_user.password@, h@) == Some(true),
            Err(e) => e == AuthError::HashingError,
        },
{
    hash_password(new_user.password.as_str())
}

/// Whether two optional new field values change a profile.
pub open spec fn spec_profile_changed(
    user: User,
    email: Option<String>,
    name: Option<String>,
) -> bool {
    ||| (email matches Some(e) && e@ != user.email@)
    ||| (name matches Some(nm) && nm@ != user.name@)
}

/// Merge a profile update into a user record: a field is overwritten when
/// the payload carries it, the update timestamp moves only when something
/// actually changed, and identity, role and creation time never move. The
/// result says whether the store must be written.
pub fn apply_profile_update(user: &mut User, payload: &UpdateUserProfilePayload, now: i64) -> (r:
    bool)
    ensures
        r == spec_profile_changed(*old(user), payload.email, payload.name),
        final(user).id@ == old(user).id@,
        final(user).role@ == old(user).role@,
        final(user).created_at == old(user).created_at,
        final(user).email@ == (match payload.email {
            Some(e) => e@,
            None => old(user).email@,
        }),
        final(user).name@ == (match payload.name {
            Some(nm) => nm@,
            None => old(user).name@,
        }),
        final(user).updated_at == if spec_profile_changed(
            *old(user),
            payload.email,
            payload.name,
        ) {
            now
        } else {
            old(user).updated_at
        },
{
    let mut changed = false;
    if let Some(e) = &payload.email {
        if !(*e == user.email) {
            user.email = e.clone();
            changed = true;
        }
    }
    if let Some(nm) = &payload.name {
        if !(*nm == user.name) {
            user.name = nm.clone();
            changed = true;
        }
    }
    if changed {
        user.updated_at = now;
    }
    changed
}

/// The page and page size a listing request asks for: both default and are
/// clamped to at least one, as the handlers always did.
pub fn page_params(p: &Pagination) -> (r: (u32, u32))
    ensures
        r.0 == (match p.page {
            Some(x) => if x < 1 {
                1u32
            } else {
                x
            },
            None => 1u32,
        }),
        r.1 == (match p.per_page {
            Some(x) => if x < 1 {
                1u32
            } else {
                x
            },
            None => 10u32,
        }),
        r.0 >= 1,
        r.1 >= 1,
{
    let page = match p.page {
        Some(x) => if x < 1 {
            1
        } else {
            x
        },
        None => 1,
    };
    let per_page = match p.per_page {
        Some(x) => if x < 1 {
            1
        } else {
            x
        },
        None => 10,
    };
    (page, per_page)
}

/// The row offset of a page: `(page - 1) * per_page`, saturating at
/// `u32::MAX` instead of overflowing.
pub fn page_offset(page: u32, per_page: u32) -> (r: u32)
    requires
        page >= 1,
    ensures
        if (page - 1) * per_page <= u32::MAX {
            r == (page - 1) * per_page
        } else {
            r == u32::MAX
        },
{
    proof {
        vstd::arithmetic::mul::lemma_mul_upper_bound(
            (page - 1) as int,
            0xffff_ffff as int,
            per_page as int,
            0xffff_ffff as int,
        );
    }
    let off: u64 = ((page - 1) as u64) * (per_page as u64);
    if off > 0xffff_ffff {
        u32::MAX
    } else {
        off as u32
    }
}

/// Whether a principal may act on a receipt owned by `owner_id`: the owner
/// may, and so may any administrator.
pub fn may_access_receipt(owner_id: &Vec<u8>, user: &AuthenticatedUser) -> (r: bool)
    ensures
        r == (owner_id@ == user.id@ || spec_is_admin_role(user.role@)),
{
    bytes_eq(owner_id, &user.id) || crate::is_admin_role(&user.role)
}

} // verus!
