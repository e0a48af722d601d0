//! The in-app Steam sign-in: what the user is told while a QR sign-in runs,
//! and what each event of the sign-in leads to.

use vstd::prelude::*;
use crate::steam::auth::{Poll, Tokens};
use crate::steam::session::Session;

verus! {

/// What the user interface is told about a sign-in.
#[derive(Debug, Clone, PartialEq, Eq)]
pub enum LoginUpdate {
    /// The QR code is ready; the string is an SVG `data:` URL of it.
    AwaitingScan(String),
    /// Signed in; the string is the account name.
    Success(String),
    Failed(String),
    Cancelled,
}

/// What happened while a sign-in waited.
pub enum LoginEvent {
    /// The user cancelled the sign-in.
    Cancelled,
    /// The time to scan the code ran out.
    TimedOut,
    /// A poll of the session answered.
    Polled(Poll),
    /// A poll failed, for the reason given.
    PollFailed(String),
}

/// What the sign-in does next.
pub enum LoginStep {
    /// Tell the user this and end the sign-in.
    Finish(LoginUpdate),
    /// Keep waiting.
    Continue,
    /// The QR code changed: show the session's new challenge, then wait.
    ShowChallenge,
    /// The user approved: store the sign-in, hand the token on, and tell the
    /// user of the success.
    SignedIn(Tokens),
}

/// The message when a sign-in ran out of time.
pub open spec fn timed_out_message() -> Seq<char> {
    "login timed out; try again"@
}

/// The message when a sign-in is started while another one runs.
pub open spec fn busy_message() -> Seq<char> {
    "a Steam login is already in progress"@
}

/// What the sign-in does after `event`.
pub fn login_step(event: LoginEvent) -> (r: LoginStep)
    ensures
        match event {
            LoginEvent::Cancelled => r matches LoginStep::Finish(LoginUpdate::Cancelled),
            LoginEvent::TimedOut => r matches LoginStep::Finish(LoginUpdate::Failed(m)) && m@
                == timed_out_message(),
            LoginEvent::Polled(Poll::Pending) => r is Continue,
            LoginEvent::Polled(Poll::Rotated) => r is ShowChallenge,
            LoginEvent::Polled(Poll::Done(t)) => r matches LoginStep::SignedIn(u) && u == t,
            LoginEvent::PollFailed(reason) => r matches LoginStep::Finish(LoginUpdate::Failed(m))
                && m@ == reason@,
        },
{
    match event {
        LoginEvent::Cancelled => LoginStep::Finish(LoginUpdate::Cancelled),
        LoginEvent::TimedOut => LoginStep::Finish(
            LoginUpdate::Failed(String::from_str("login timed out; try again")),
        ),
        LoginEvent::Polled(Poll::Pending) => LoginStep::Continue,
        LoginEvent::Polled(Poll::Rotated) => LoginStep::ShowChallenge,
        LoginEvent::Polled(Poll::Done(tokens)) => LoginStep::SignedIn(tokens),
        LoginEvent::PollFailed(reason) => LoginStep::Finish(LoginUpdate::Failed(reason)),
    }
}

/// What a sign-in started while another one runs tells the user.
pub fn busy_update() -> (r: LoginUpdate)
    ensures
        r matches LoginUpdate::Failed(m) && m@ == busy_message(),
{
    LoginUpdate::Failed(String::from_str("a Steam login is already in progress"))
}

/// What a completed sign-in tells the user: the account's name.
pub fn success_update(tokens: &Tokens) -> (r: LoginUpdate)
    ensures
        r matches LoginUpdate::Success(m) && m@ == tokens.account_name@,
{
    LoginUpdate::Success(tokens.account_name.clone())
}

/// The session to store for a completed sign-in.
pub fn session_for(tokens: &Tokens) -> (s: Session)
    ensures
        s.account_name@ == tokens.account_name@,
        s.refresh_token@ == tokens.refresh_token@,
        s.access_token@ == tokens.access_token@,
{
    Session {
        account_name: tokens.account_name.clone(),
        refresh_token: tokens.refresh_token.clone(),
        access_token: tokens.access_token.clone(),
    }
}

/// Whether a sign-in is stored: the stored session, as loaded, is present.
pub fn is_signed_in(stored: &Option<Session>) -> (r: bool)
    ensures
        r == stored.is_some(),
{
    stored.is_some()
}

/// The account name of the stored sign-in, if there is one.
pub fn account_name(stored: Option<Session>) -> (r: Option<String>)
    ensures
        match stored {
            Some(s) => r matches Some(n) && n@ == s.account_name@,
            None => r is None,
        },
{
    match stored {
        Some(s) => Some(s.account_name),
        None => None,
    }
}

} // verus!
