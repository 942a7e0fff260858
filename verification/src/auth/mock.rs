//! An authenticator that hands out a fixed token at once: no network, no
//! browser.
use crate::auth::{AuthError, AuthScheme, AuthState, Authenticator};
use crate::text::{owned, views};
use vstd::prelude::*;

verus! {

pub struct MockAuthenticator {
    pub state: Option<AuthState>,
}

/// The canned organisations.
pub open spec fn mock_orgs() -> Seq<Seq<char>> {
    seq!["contoso"@, "fabrikam"@, "northwind-traders"@, "acme-corp"@]
}

impl MockAuthenticator {
    /// Signed out.
    pub fn new() -> (r: Self)
        ensures
            r.state is None,
    {
        MockAuthenticator { state: None }
    }
}

impl Authenticator for MockAuthenticator {
    /// Sign in as "you@example.com" with the bearer token "mock-token".
    fn login(&mut self) -> (r: Result<AuthState, AuthError>)
        ensures
            r matches Ok(s) && s.account@ == "you@example.com"@ && s.token@ == "mock-token"@ && s.scheme
                == AuthScheme::Bearer,
            final(self).state matches Some(s) && s.account@ == "you@example.com"@ && s.token@
                == "mock-token"@ && s.scheme == AuthScheme::Bearer,
    {
        let state = AuthState { account: owned("you@example.com"), token: owned("mock-token"), scheme: AuthScheme::Bearer };
        self.state = Some(state.copy());
        Ok(state)
    }

    fn token(&self) -> (r: Option<String>)
        ensures
            match self.state {
                Some(s) => r matches Some(t) && t@ == s.token@,
                None => r is None,
            },
    {
        match &self.state {
            Some(s) => Some(s.token.clone()),
            None => None,
        }
    }

    fn account(&self) -> (r: Option<String>)
        ensures
            match self.state {
                Some(s) => r matches Some(a) && a@ == s.account@,
                None => r is None,
            },
    {
        match &self.state {
            Some(s) => Some(s.account.clone()),
            None => None,
        }
    }

    fn logout(&mut self)
        ensures
            final(self).state is None,
    {
        self.state = None;
    }

    /// The canned organisations (see [`mock_orgs`]).
    fn list_orgs(&self) -> (r: Vec<String>)
        ensures
            views(r@) == mock_orgs(),
    {
        let mut v: Vec<String> = Vec::new();
        v.push(owned("contoso"));
        v.push(owned("fabrikam"));
        v.push(owned("northwind-traders"));
        v.push(owned("acme-corp"));
        assert(views(v@) =~= mock_orgs());
        v
    }
}

} // verus!
