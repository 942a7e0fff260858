//! The decisions of the Entra ID device-code sign-in: how long to wait
//! between polls, what each token-endpoint reply means, what to tell the
//! user, and whether a cached token is still usable. The HTTP requests, the
//! waiting and the token file are the caller's.
use crate::text::owned;
use vstd::prelude::*;

verus! {

/// The public, pre-consented Azure CLI client, so no app registration is
/// needed.
pub const CLIENT_ID: &'static str = "04b07795-8ddb-461a-bbee-02f9e1bf7b46";

/// The `.default` scope of the Azure DevOps resource, with a refresh token.
pub const DEVOPS_SCOPE: &'static str = "499b84ac-1321-427f-aa17-267ca6975798/.default offline_access";

/// The reply of the token endpoint while polling.
pub struct TokenReply {
    pub access_token: Option<String>,
    pub expires_in: Option<u64>,
    pub error: Option<String>,
}

/// What a poll's reply means.
pub enum PollStep {
    /// Signed in: the access token and its lifetime in seconds.
    Done(String, u64),
    /// Not yet: poll again after the current interval.
    Wait,
    /// Poll again, five seconds more slowly.
    SlowDown,
    /// Sign-in failed, with the message to show.
    Fail(String),
}

/// A token in the reply means success (an hour's lifetime when none is
/// given); otherwise `authorization_pending` means wait, `slow_down` means
/// wait longer, and any other error (or none at all) fails.
pub fn poll_step(reply: TokenReply) -> (r: PollStep)
    ensures
        match reply.access_token {
            Some(t) => r matches PollStep::Done(x, e) && x@ == t@ && e == match reply.expires_in {
                Some(s) => s,
                None => 3600u64,
            },
            None => match reply.error {
                Some(err) => if err@ == "authorization_pending"@ {
                    r is Wait
                } else if err@ == "slow_down"@ {
                    r is SlowDown
                } else {
                    r matches PollStep::Fail(m) && m@ == "sign-in failed: "@ + err@
                },
                None => r matches PollStep::Fail(m) && m@ == "unexpected token response"@,
            },
        },
{
    match reply.access_token {
        Some(t) => {
            let e = match reply.expires_in {
                Some(s) => s,
                None => 3600,
            };
            PollStep::Done(t, e)
        },
        None => match reply.error {
            Some(err) => {
                if crate::text::str_eq(err.as_str(), "authorization_pending") {
                    PollStep::Wait
                } else if crate::text::str_eq(err.as_str(), "slow_down") {
                    PollStep::SlowDown
                } else {
                    let mut m = owned("sign-in failed: ");
                    m.append(err.as_str());
                    PollStep::Fail(m)
                }
            },
            None => PollStep::Fail(owned("unexpected token response")),
        },
    }
}

/// The first polling interval: the server's, at least one second.
pub fn first_interval(server: u64) -> (r: u64)
    ensures
        r == if server >= 1 { server } else { 1 },
{
    if server >= 1 {
        server
    } else {
        1
    }
}

/// The interval after a poll: five seconds longer after `slow_down`
/// (saturating), else unchanged.
pub fn next_interval(interval: u64, step: &PollStep) -> (r: u64)
    ensures
        step is SlowDown ==> r == if interval + 5 <= u64::MAX { interval + 5 } else { u64::MAX as int },
        !(step is SlowDown) ==> r == interval,
{
    match step {
        PollStep::SlowDown => interval.saturating_add(5),
        _ => interval,
    }
}

/// What the user is told to do: the server's message when it sent one,
/// else where to go and which code to enter.
pub open spec fn sign_in_text(message: Option<Seq<char>>, uri: Seq<char>, code: Seq<char>) -> Seq<char> {
    match message {
        Some(m) => m,
        None => "To sign in, open "@ + uri + " and enter code "@ + code,
    }
}

/// The sign-in instructions (see [`sign_in_text`]).
pub fn sign_in_message(message: Option<String>, uri: &str, code: &str) -> (r: String)
    ensures
        r@ == sign_in_text(
            match message {
                Some(m) => Some(m@),
                None => None,
            },
            uri@,
            code@,
        ),
{
    match message {
        Some(m) => m,
        None => {
            let mut s = owned("To sign in, open ");
            s.append(uri);
            s.append(" and enter code ");
            s.append(code);
            s
        },
    }
}

/// How an access token is had at start-up.
#[derive(Clone, Copy, Debug, PartialEq, Eq, Structural)]
pub enum TokenPlan {
    /// Keep the usable cached token.
    Reuse,
    /// Mint a new one silently with the cached refresh token.
    Renew,
    /// Sign in interactively (device code).
    SignIn,
}

/// A forced sign-in (`--login`) always signs in; otherwise a usable cached
/// token is reused, else a cached refresh token renews it silently, and the
/// interactive sign-in is the last resort.
pub fn token_plan(force: bool, usable: bool, refreshable: bool) -> (r: TokenPlan)
    ensures
        r == if force {
            TokenPlan::SignIn
        } else if usable {
            TokenPlan::Reuse
        } else if refreshable {
            TokenPlan::Renew
        } else {
            TokenPlan::SignIn
        },
{
    if force {
        TokenPlan::SignIn
    } else if usable {
        TokenPlan::Reuse
    } else if refreshable {
        TokenPlan::Renew
    } else {
        TokenPlan::SignIn
    }
}

/// The refresh token to keep after a token reply: the one the reply rotated
/// in, else the one held before.
pub fn rotated_refresh(reply: Option<String>, held: Option<String>) -> (r: Option<String>)
    ensures
        r == match reply {
            Some(t) => Some(t),
            None => held,
        },
{
    match reply {
        Some(t) => Some(t),
        None => held,
    }
}

/// A cached token is used only while more than a minute of it is left.
pub fn cache_fresh(expires_at: u64, now: u64) -> (r: bool)
    ensures
        r == (expires_at > now + 60),
{
    if now > u64::MAX - 60 {
        false
    } else {
        expires_at > now + 60
    }
}

/// When a token lasting `expires_in` seconds from `now` expires (saturating).
pub fn expiry(now: u64, expires_in: u64) -> (r: u64)
    ensures
        r == if now + expires_in <= u64::MAX { now + expires_in } else { u64::MAX as int },
{
    now.saturating_add(expires_in)
}

} // verus!
