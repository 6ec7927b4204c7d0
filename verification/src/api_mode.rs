//! The readiness of the remote directory session, and the decisions the
//! surrounding login flow makes: which event moves the session to which
//! mode, when a stale remote response must be discarded, and how retry
//! backoff grows.

use vstd::prelude::*;

use crate::strutil::str_eq;

verus! {

/// How far the remote session has come.
#[derive(Debug, Clone, PartialEq, Eq)]
pub enum VrchatApiMode {
    /// Not initialising; perhaps no credentials were supplied.
    NotReady,
    /// Initialisation is under way.
    Preparing,
    /// A second-factor code was supplied and awaits verification.
    TwoFactorCode(String),
    /// The session is ready for requests.
    Ready,
}

impl VrchatApiMode {
    /// The mode of a session that is not initialising.
    pub fn not_ready() -> (r: VrchatApiMode)
        ensures
            r is NotReady,
    {
        VrchatApiMode::NotReady
    }
}

impl Default for VrchatApiMode {
    /// A fresh session is not ready.
    fn default() -> (r: VrchatApiMode)
        ensures
            r is NotReady,
    {
        VrchatApiMode::NotReady
    }
}

/// What the login flow observed.
pub enum AuthEvent {
    /// The interface is up and initialisation may start.
    UiReady,
    /// No stored credentials could be read.
    CredentialsMissing,
    /// The directory accepted the session.
    LoginSucceeded,
    /// The directory wants a second factor.
    TwoFactorRequired,
    /// The user supplied a second-factor token.
    TokenSubmitted(String),
    /// The second factor was rejected.
    VerifyFailed,
    /// The user logged out or cancelled the login.
    LoggedOut,
}

/// The next session mode after an event. A submitted token is only
/// accepted while the flow is preparing or already holds a token; any
/// failure or logout falls back to not ready.
pub open spec fn spec_auth_step(mode: VrchatApiMode, ev: AuthEvent) -> VrchatApiMode {
    match ev {
        AuthEvent::UiReady => VrchatApiMode::Preparing,
        AuthEvent::CredentialsMissing => VrchatApiMode::NotReady,
        AuthEvent::LoginSucceeded => VrchatApiMode::Ready,
        AuthEvent::TwoFactorRequired => VrchatApiMode::Preparing,
        AuthEvent::TokenSubmitted(t) => match mode {
            VrchatApiMode::Preparing => VrchatApiMode::TwoFactorCode(t),
            VrchatApiMode::TwoFactorCode(_) => VrchatApiMode::TwoFactorCode(t),
            _ => mode,
        },
        AuthEvent::VerifyFailed => VrchatApiMode::NotReady,
        AuthEvent::LoggedOut => VrchatApiMode::NotReady,
    }
}

/// Apply one login-flow event to the session mode.
pub fn auth_step(mode: VrchatApiMode, ev: AuthEvent) -> (r: VrchatApiMode)
    ensures
        r == spec_auth_step(mode, ev),
{
    match ev {
        AuthEvent::UiReady => VrchatApiMode::Preparing,
        AuthEvent::CredentialsMissing => VrchatApiMode::NotReady,
        AuthEvent::LoginSucceeded => VrchatApiMode::Ready,
        AuthEvent::TwoFactorRequired => VrchatApiMode::Preparing,
        AuthEvent::TokenSubmitted(t) => match mode {
            VrchatApiMode::Preparing => VrchatApiMode::TwoFactorCode(t),
            VrchatApiMode::TwoFactorCode(_) => VrchatApiMode::TwoFactorCode(t),
            other => other,
        },
        AuthEvent::VerifyFailed => VrchatApiMode::NotReady,
        AuthEvent::LoggedOut => VrchatApiMode::NotReady,
    }
}

/// A late remote result is discarded exactly when the instance changed
/// while the request was in flight: both identifiers are known and they
/// differ. This is the race-safety rule that keeps a stale response
/// from ever touching a newer instance's roster.
pub fn should_discard(started_in: &Option<String>, current: &Option<String>) -> (r: bool)
    ensures
        r == (started_in matches Some(a) && current matches Some(b) && a@ != b@),
{
    match (started_in, current) {
        (Some(a), Some(b)) => !str_eq(a.as_str(), b.as_str()),
        _ => false,
    }
}

/// The retry schedule for a rate-limited remote call: the wait doubles,
/// capped at `max_backoff_secs`, and after `max_attempts` tries the call
/// gives up.
pub fn next_backoff(secs: u64, attempts: u8, max_attempts: u8, max_backoff_secs: u64) -> (r:
    Option<(u64, u8)>)
    ensures
        attempts as int + 1 >= max_attempts as int ==> r is None,
        attempts as int + 1 < max_attempts as int ==> (r matches Some(n) && n.1 == attempts + 1
            && n.0 == (if secs as int * 2 >= max_backoff_secs as int {
            max_backoff_secs as int
        } else {
            secs as int * 2
        })),
{
    let doubled = if secs > u64::MAX / 2 {
        u64::MAX
    } else {
        secs * 2
    };
    let next_secs = if doubled >= max_backoff_secs {
        max_backoff_secs
    } else {
        doubled
    };
    if attempts >= 254 || attempts + 1 >= max_attempts {
        None
    } else {
        Some((next_secs, attempts + 1))
    }
}

} // verus!
