//! Authentication seam: the sign-in result, the `Authorization` header it
//! yields, and the [`Authenticator`] trait with its in-memory and
//! personal-access-token implementations.
pub mod mock;
pub mod oauth;
pub mod pat;

use crate::text::owned;
use vstd::prelude::*;

verus! {

/// How the token authenticates HTTP requests to Azure DevOps.
#[derive(Clone, Copy, Debug, PartialEq, Eq, Structural)]
pub enum AuthScheme {
    /// Entra ID OAuth access token: `Authorization: Bearer <token>`.
    Bearer,
    /// Personal Access Token: `Authorization: Basic base64(":" <pat>)`.
    BasicPat,
}

/// The result of a successful sign-in.
#[derive(Debug)]
pub struct AuthState {
    pub account: String,
    pub token: String,
    pub scheme: AuthScheme,
}

/// A sign-in failure, described for the status bar.
#[derive(Clone, Debug)]
pub struct AuthError {
    pub message: String,
}

/// The standard (padded, `+/` alphabet) Base64 encoding of the UTF-8 bytes
/// of `text`, as `base64::engine::general_purpose::STANDARD` produces it.
pub uninterp spec fn base64_standard(text: Seq<char>) -> Seq<char>;

/// `STANDARD.encode(text)` of the `base64` crate.
#[verifier::external_body]
fn encode_base64(text: &str) -> (r: String)
    ensures
        r@ == base64_standard(text@),
{
    base64::Engine::encode(&base64::engine::general_purpose::STANDARD, text)
}

/// The `Authorization` header value for a token under a scheme.
pub open spec fn header_of(token: Seq<char>, scheme: AuthScheme) -> Seq<char> {
    match scheme {
        AuthScheme::Bearer => "Bearer "@ + token,
        AuthScheme::BasicPat => "Basic "@ + base64_standard(":"@ + token),
    }
}

impl AuthState {
    /// A field-for-field copy.
    pub fn copy(&self) -> (r: Self)
        ensures
            r.account@ == self.account@,
            r.token@ == self.token@,
            r.scheme == self.scheme,
    {
        AuthState { account: self.account.clone(), token: self.token.clone(), scheme: self.scheme }
    }

    /// The value for the `Authorization` HTTP header.
    pub fn header(&self) -> (r: String)
        ensures
            r@ == header_of(self.token@, self.scheme),
    {
        match self.scheme {
            AuthScheme::Bearer => {
                let mut h = owned("Bearer ");
                h.append(self.token.as_str());
                h
            },
            AuthScheme::BasicPat => {
                let mut raw = owned(":");
                raw.append(self.token.as_str());
                let b64 = encode_base64(raw.as_str());
                let mut h = owned("Basic ");
                h.append(b64.as_str());
                h
            },
        }
    }
}

/// A way to sign in to Azure DevOps.
pub trait Authenticator {
    /// Sign in (interactively, for the real implementation).
    fn login(&mut self) -> Result<AuthState, AuthError>;

    /// The token held, if signed in.
    fn token(&self) -> Option<String>;

    /// The signed-in account, if any.
    fn account(&self) -> Option<String>;

    fn logout(&mut self);

    /// Organisations the signed-in user can access.
    fn list_orgs(&self) -> Vec<String>;
}

} // verus!
