//! Personal Access Token authenticator: there is no interactive flow (the
//! token comes from the environment), so it just carries the [`AuthState`].
use crate::auth::{AuthError, AuthState, Authenticator};
use vstd::prelude::*;

verus! {

pub struct PatAuthenticator {
    pub state: AuthState,
}

impl PatAuthenticator {
    pub fn new(state: AuthState) -> (r: Self)
        ensures
            r.state == state,
    {
        PatAuthenticator { state }
    }
}

impl Authenticator for PatAuthenticator {
    /// The carried state.
    fn login(&mut self) -> (r: Result<AuthState, AuthError>)
        ensures
            r matches Ok(s) && s.account@ == old(self).state.account@ && s.token@ == old(self).state.token@
                && s.scheme == old(self).state.scheme,
            final(self).state == old(self).state,
    {
        Ok(self.state.copy())
    }

    fn token(&self) -> (r: Option<String>)
        ensures
            r matches Some(t) && t@ == self.state.token@,
    {
        Some(self.state.token.clone())
    }

    fn account(&self) -> (r: Option<String>)
        ensures
            r matches Some(a) && a@ == self.state.account@,
    {
        Some(self.state.account.clone())
    }

    /// Nothing to forget: the token is the configuration.
    fn logout(&mut self)
        ensures
            final(self).state == old(self).state,
    {
    }

    /// None: a token is scoped to one organisation, taken from the config.
    fn list_orgs(&self) -> (r: Vec<String>)
        ensures
            r@.len() == 0,
    {
        Vec::new()
    }
}

} // verus!
