//! Error taxonomy of the authentication core, and its mapping to HTTP status
//! classes. Identity failures (`AuthenticationFailed`) and capability failures
//! (`Forbidden`) are deliberately distinct categories.

use vstd::prelude::*;

verus! {

/// Every way a request can be rejected by the authentication and
/// authorization layer. `AuthenticationFailed` deliberately covers both an
/// unknown client id and a wrong secret, so a caller cannot probe which ids
/// exist.
#[derive(Clone, Copy, Debug, PartialEq, Eq, Structural)]
pub enum AuthError {
    /// No `Authorization` header was present on the request.
    MissingHeader,
    /// The `Authorization` header is not of the form `Bearer <token>`.
    MalformedHeader,
    /// The bearer token does not split into a non-empty id and a non-empty
    /// secret.
    MalformedToken,
    /// Unknown client id, or the secret does not match the stored hash.
    AuthenticationFailed,
    /// The client is known, but lacks the capability bit for this action.
    Forbidden,
    /// A target client id does not exist, in contexts where revealing
    /// existence is acceptable.
    NotFound,
    /// The backing store refused a write.
    PersistenceError,
    /// A stored permission bitset holds bits outside the known vocabulary;
    /// the record is rejected rather than partially honoured.
    CorruptPermissionData,
    /// The credential hasher could not produce a hash.
    HashingError,
}

/// The HTTP status class of each rejection: caller faults are 4xx (401 for
/// "who are you", 403 for "what can you do"), server faults are 5xx.
pub open spec fn spec_status_code(e: AuthError) -> u16 {
    match e {
        AuthError::MissingHeader => 400,
        AuthError::MalformedHeader => 400,
        AuthError::MalformedToken => 400,
        AuthError::AuthenticationFailed => 401,
        AuthError::Forbidden => 403,
        AuthError::NotFound => 404,
        AuthError::PersistenceError => 500,
        AuthError::CorruptPermissionData => 500,
        AuthError::HashingError => 500,
    }
}

impl AuthError {
    /// The HTTP status code a rejection is reported with.
    pub fn status_code(&self) -> (r: u16)
        ensures
            r == spec_status_code(*self),
    {
        match self {
            AuthError::MissingHeader => 400,
            AuthError::MalformedHeader => 400,
            AuthError::MalformedToken => 400,
            AuthError::AuthenticationFailed => 401,
            AuthError::Forbidden => 403,
            AuthError::NotFound => 404,
            AuthError::PersistenceError => 500,
            AuthError::CorruptPermissionData => 500,
            AuthError::HashingError => 500,
        }
    }

    /// True for rejections the caller is responsible for (4xx class).
    pub fn is_caller_fault(&self) -> (r: bool)
        ensures
            r == (400 <= spec_status_code(*self) < 500),
    {
        self.status_code() < 500
    }
}

/// The one body shape error responses are serialized with: a single generic
/// message. Raw storage or hashing errors are never echoed to the wire.
pub struct HttpErrorResponse {
    pub error: String,
}

impl HttpErrorResponse {
    /// The message carried in the response body.
    pub fn message(&self) -> (r: &String)
        ensures
            r@ == self.error@,
    {
        &self.error
    }
}

impl From<String> for HttpErrorResponse {
    fn from(message: String) -> (r: Self) {
        HttpErrorResponse { error: message }
    }
}

impl vstd::std_specs::convert::FromSpecImpl<String> for HttpErrorResponse {
    open spec fn obeys_from_spec() -> bool {
        true
    }

    open spec fn from_spec(message: String) -> Self {
        HttpErrorResponse { error: message }
    }
}

} // verus!
