//! The error taxonomy of the auth core, with the single mapping point
//! that turns each internal kind into a protocol-level rejection class.

use vstd::prelude::*;

verus! {

/// Every failure the auth core can report.
///
/// - `MissingToken`: no extractable token in the request headers.
/// - `Malformed`: a token string that cannot be parsed into the expected
///   structure.
/// - `InvalidSignature`: a signature mismatch, or a token naming a signing
///   algorithm other than the one configured.
/// - `Expired`: a structurally valid, correctly signed token past its expiry.
/// - `InsufficientRole`: a valid token whose role does not allow an
///   admin-only resource.
/// - `HashingError`: an internal hashing failure, not attributable to the
///   caller.
/// - `CredentialMismatch`: a login attempt whose password does not match the
///   stored credential, or that names no stored credential.
/// - `MissingPrincipal`: a handler asked for the authenticated principal but
///   no gate attached one; a configuration error, not a client error.
#[derive(Clone, Copy, Debug, PartialEq, Eq, Structural)]
pub enum AuthError {
    MissingToken,
    Malformed,
    InvalidSignature,
    Expired,
    InsufficientRole,
    HashingError,
    CredentialMismatch,
    MissingPrincipal,
}

/// How a failure is presented at the protocol boundary.
#[derive(Clone, Copy, Debug, PartialEq, Eq, Structural)]
pub enum RejectionClass {
    /// The request carried no acceptable proof of identity.
    Unauthorized,
    /// The identity was proven but does not allow the resource.
    Forbidden,
    /// The server failed internally; no detail is exposed to the client.
    Internal,
}

/// The rejection class of each error kind: every token or credential failure
/// collapses to `Unauthorized`, a role failure alone is `Forbidden`, and
/// internal failures stay `Internal`.
pub open spec fn spec_rejection_class(e: AuthError) -> RejectionClass {
    match e {
        AuthError::MissingToken => RejectionClass::Unauthorized,
        AuthError::Malformed => RejectionClass::Unauthorized,
        AuthError::InvalidSignature => RejectionClass::Unauthorized,
        AuthError::Expired => RejectionClass::Unauthorized,
        AuthError::CredentialMismatch => RejectionClass::Unauthorized,
        AuthError::InsufficientRole => RejectionClass::Forbidden,
        AuthError::HashingError => RejectionClass::Internal,
        AuthError::MissingPrincipal => RejectionClass::Internal,
    }
}

impl AuthError {
    /// The protocol-level class of this error. Only the authorization layer
    /// maps internal kinds to client-facing rejections.
    pub fn rejection_class(&self) -> (r: RejectionClass)
        ensures
            r == spec_rejection_class(*self),
    {
        match self {
            AuthError::MissingToken => RejectionClass::Unauthorized,
            AuthError::Malformed => RejectionClass::Unauthorized,
            AuthError::InvalidSignature => RejectionClass::Unauthorized,
            AuthError::Expired => RejectionClass::Unauthorized,
            AuthError::CredentialMismatch => RejectionClass::Unauthorized,
            AuthError::InsufficientRole => RejectionClass::Forbidden,
            AuthError::HashingError => RejectionClass::Internal,
            AuthError::MissingPrincipal => RejectionClass::Internal,
        }
    }

    /// The HTTP status code of this error's rejection class.
    pub fn http_status(&self) -> (r: u16)
        ensures
            spec_rejection_class(*self) == RejectionClass::Unauthorized ==> r == 401,
            spec_rejection_class(*self) == RejectionClass::Forbidden ==> r == 403,
            spec_rejection_class(*self) == RejectionClass::Internal ==> r == 500,
    {
        match self.rejection_class() {
            RejectionClass::Unauthorized => 401,
            RejectionClass::Forbidden => 403,
            RejectionClass::Internal => 500,
        }
    }

    /// The client-facing message of every kind, pinned in full: the token
    /// kinds share one generic text, and the internal kinds expose no detail.
    pub fn message(&self) -> (r: &'static str)
        ensures
            *self == AuthError::MissingToken ==> r@ == "Missing or invalid authentication token"@,
            *self == AuthError::Malformed ==> r@ == "Invalid or expired token"@,
            *self == AuthError::InvalidSignature ==> r@ == "Invalid or expired token"@,
            *self == AuthError::Expired ==> r@ == "Invalid or expired token"@,
            *self == AuthError::InsufficientRole ==> r@ == "Admin privileges required"@,
            *self == AuthError::HashingError ==> r@ == "An internal error occurred"@,
            *self == AuthError::CredentialMismatch ==> r@ == "Invalid credentials"@,
            *self == AuthError::MissingPrincipal ==> r@ == "User not authenticated"@,
    {
        match self {
            AuthError::MissingToken => "Missing or invalid authentication token",
            AuthError::Malformed => "Invalid or expired token",
            AuthError::InvalidSignature => "Invalid or expired token",
            AuthError::Expired => "Invalid or expired token",
            AuthError::InsufficientRole => "Admin privileges required",
            AuthError::HashingError => "An internal error occurred",
            AuthError::CredentialMismatch => "Invalid credentials",
            AuthError::MissingPrincipal => "User not authenticated",
        }
    }
}

} // verus!
