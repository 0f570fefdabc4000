//! The failures an authentication attempt can end in.
use vstd::prelude::*;

verus! {

/// The ways an authentication attempt can fail.
///
/// Every failure is fatal for the attempt it belongs to; none of them is
/// retried. The caller decides whether to go on with other services.
#[derive(Debug, Clone, Copy, PartialEq, Eq, Structural)]
pub enum AuthError {
    /// The token cache cannot be opened, created or parsed.
    StoreUnavailable,
    /// The redirect callback carried no `code` query parameter.
    MalformedRedirect,
    /// The `state` echoed by the provider differs from the one generated
    /// for this attempt, so the authorization code cannot be trusted.
    StateMismatch,
    /// The token endpoint rejected the code, was unreachable, or answered
    /// with a body that holds no access token.
    TokenExchangeFailed,
}

impl AuthError {
    /// A short description of the failure, for reporting to the user.
    pub fn message(&self) -> (r: &'static str)
        ensures
            r@ == self.spec_message(),
    {
        match self {
            AuthError::StoreUnavailable => "token cache unavailable",
            AuthError::MalformedRedirect => "redirect callback carried no authorization code",
            AuthError::StateMismatch => "redirect callback carried a foreign state value",
            AuthError::TokenExchangeFailed => "token endpoint did not yield an access token",
        }
    }

    /// What `message` returns, as a sequence of characters.
    pub open spec fn spec_message(&self) -> Seq<char> {
        match self {
            AuthError::StoreUnavailable => "token cache unavailable"@,
            AuthError::MalformedRedirect => "redirect callback carried no authorization code"@,
            AuthError::StateMismatch => "redirect callback carried a foreign state value"@,
            AuthError::TokenExchangeFailed => "token endpoint did not yield an access token"@,
        }
    }
}

} // verus!
