//! The resilient fetch layer: an `AuthSession` owns the bearer token as a
//! single writer, and two bounded-retry state machines decide, attempt by
//! attempt, what the driver does next. The roster endpoint is bearer-gated
//! — a failure invalidates the token so the next attempt logs in afresh;
//! the timeline endpoint is cookie-gated — a failure forces a full
//! re-login. The driver performs the requests and reports back.
use crate::text::{append_u64, dec_chars_of};
use crate::token::BearerToken;
use vstd::prelude::*;

verus! {

/// How many attempts a fetch may use before it gives up.
pub const MAX_RETRIES: u8 = 3;

/// The login session: credentials plus the current bearer token, owned
/// here exclusively. The token is absent until a login installs one, and
/// absent again after `invalidate`.
pub struct AuthSession {
    username: String,
    password: String,
    token: Option<BearerToken>,
}

impl AuthSession {
    /// The bearer token the session currently holds.
    pub closed spec fn spec_token(self) -> Option<BearerToken> {
        self.token
    }

    /// The username the session logs in with.
    pub closed spec fn spec_username(self) -> Seq<char> {
        self.username@
    }

    /// The password the session logs in with.
    pub closed spec fn spec_password(self) -> Seq<char> {
        self.password@
    }

    /// Opens a session from credentials and a token reloaded from disk, if
    /// a valid one was saved.
    pub fn new(username: String, password: String, loaded: Option<BearerToken>) -> (r:
        AuthSession)
        ensures
            r.spec_username() == username@,
            r.spec_password() == password@,
            r.spec_token() == loaded,
    {
        AuthSession { username, password, token: loaded }
    }

    pub fn current(&self) -> (r: &Option<BearerToken>)
        ensures
            *r == self.spec_token(),
    {
        &self.token
    }

    /// Drops the current token, forcing a re-login before the next
    /// bearer-gated request.
    pub fn invalidate(&mut self)
        ensures
            final(self).spec_token() is None,
            final(self).spec_username() == old(self).spec_username(),
            final(self).spec_password() == old(self).spec_password(),
    {
        self.token = None;
    }

    /// Installs the token a successful login issued.
    pub fn install(&mut self, token: BearerToken)
        ensures
            final(self).spec_token() == Some(token),
            final(self).spec_username() == old(self).spec_username(),
            final(self).spec_password() == old(self).spec_password(),
    {
        self.token = Some(token);
    }

    /// A fresh login sequence bound to this session's credentials.
    pub fn login_flow(&self) -> (r: crate::auth::LoginFlow)
        ensures
            r.username@ == self.spec_username(),
            r.password@ == self.spec_password(),
            r.state == crate::auth::LoginState::Ready,
    {
        crate::auth::LoginFlow::new(self.username.clone(), self.password.clone())
    }
}

/// What a fetch driver does next.
#[derive(Clone, Debug)]
pub enum FetchAction {
    /// Run the full login and install the issued token.
    Login,
    /// Issue the request; `record_attempt` must be called for it.
    Request,
    /// Attempts exhausted: fail with the retry bound exceeded.
    GiveUp,
}

/// What a failed attempt costs the session before the next one.
#[derive(Clone, Copy, Debug, PartialEq, Eq, Structural)]
pub enum FailureRecovery {
    /// Drop the bearer token; the next attempt logs in first.
    InvalidateToken,
    /// Log in again unconditionally, token or no token.
    FullRelogin,
}

/// The bounded-retry policy of the roster fetch: log in whenever no token
/// is held, at most `MAX_RETRIES` request attempts, and a failed attempt
/// invalidates the token (the endpoint is bearer-gated).
pub struct RosterRetry {
    pub tries: u8,
}

impl RosterRetry {
    pub fn new() -> (r: RosterRetry)
        ensures
            r.tries == 0,
    {
        RosterRetry { tries: 0 }
    }

    /// What to do next, given whether the session holds a token.
    pub fn next_action(&self, token: &Option<BearerToken>) -> (a: FetchAction)
        ensures
            self.tries >= MAX_RETRIES <==> a is GiveUp,
            self.tries < MAX_RETRIES && token is None <==> a is Login,
            self.tries < MAX_RETRIES && token is Some <==> a is Request,
    {
        if self.tries >= MAX_RETRIES {
            FetchAction::GiveUp
        } else if token.is_none() {
            FetchAction::Login
        } else {
            FetchAction::Request
        }
    }

    /// Counts one issued request against the bound.
    pub fn record_attempt(&mut self)
        requires
            old(self).tries < MAX_RETRIES,
        ensures
            final(self).tries == old(self).tries + 1,
    {
        self.tries = self.tries + 1;
    }

    /// What a failed roster attempt costs: only the token.
    pub fn on_failure(&self) -> (r: FailureRecovery)
        ensures
            r == FailureRecovery::InvalidateToken,
    {
        FailureRecovery::InvalidateToken
    }
}

/// The bounded-retry policy of the timeline fetch: at most `MAX_RETRIES`
/// request attempts, and a failed attempt forces a full re-login (the
/// endpoint is cookie-gated, so failures are session-wide).
pub struct TimelineRetry {
    pub tries: u8,
}

impl TimelineRetry {
    pub fn new() -> (r: TimelineRetry)
        ensures
            r.tries == 0,
    {
        TimelineRetry { tries: 0 }
    }

    /// What to do next: the timeline request needs no bearer token.
    pub fn next_action(&self) -> (a: FetchAction)
        ensures
            self.tries >= MAX_RETRIES <==> a is GiveUp,
            self.tries < MAX_RETRIES <==> a is Request,
    {
        if self.tries >= MAX_RETRIES {
            FetchAction::GiveUp
        } else {
            FetchAction::Request
        }
    }

    /// Counts one issued request against the bound.
    pub fn record_attempt(&mut self)
        requires
            old(self).tries < MAX_RETRIES,
        ensures
            final(self).tries == old(self).tries + 1,
    {
        self.tries = self.tries + 1;
    }

    /// What a failed timeline attempt costs: the whole session.
    pub fn on_failure(&self) -> (r: FailureRecovery)
        ensures
            r == FailureRecovery::FullRelogin,
    {
        FailureRecovery::FullRelogin
    }
}

/// The mission-scoped roster endpoint, dropped persons included.
pub fn roster_url(mission_id: usize) -> (r: String)
    ensures
        r@ == "https://referralmanager.churchofjesuschrist.org/services/people/mission/"@
            + dec_chars_of(mission_id as int) + "?includeDroppedPersons=true"@,
{
    let mut s = "https://referralmanager.churchofjesuschrist.org/services/people/mission/"
        .to_owned();
    append_u64(&mut s, mission_id as u64);
    s.append("?includeDroppedPersons=true");
    s
}

/// The timeline endpoint for one person.
pub fn timeline_url(guid: &str) -> (r: String)
    ensures
        r@ == "https://referralmanager.churchofjesuschrist.org/services/progress/timeline/"@
            + guid@,
{
    let mut s = "https://referralmanager.churchofjesuschrist.org/services/progress/timeline/"
        .to_owned();
    s.append(guid);
    s
}

/// The `Authorization` header value carrying the bearer token.
pub fn bearer_header_value(token: &str) -> (r: String)
    ensures
        r@ == "Bearer "@ + token@,
{
    let mut s = "Bearer ".to_owned();
    s.append(token);
    s
}

} // verus!
