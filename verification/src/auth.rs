//! The login handshake: extracting the state token that the landing page
//! embeds, decoding its escapes, building the bodies of the three
//! handshake posts, and reading the handshake responses. The sequencing
//! itself lives in the `LoginFlow` state machine; the caller performs the
//! HTTP requests and feeds each response body back.
use crate::text::{chars_of, match_at};
use crate::token::{BearerToken, TokenError};
use vstd::prelude::*;

verus! {

/// Why a login attempt failed; any failure aborts the whole sequence.
#[derive(Clone, Copy, Debug, PartialEq, Eq, Structural)]
pub enum AuthError {
    /// The landing page holds no state token between the markers, or the
    /// extracted literal does not resolve to a string.
    StateTokenNotFound,
    /// The extraction markers stand in the wrong order: an empty token.
    InvalidExtractionIndices,
    /// An introspect or identify response carries no `stateHandle` string.
    StateHandleMissing,
    /// The challenge response carries no `success.href` string.
    SuccessUrlMissing,
    /// The auth endpoint's `token` field is missing or not a string.
    TokenFieldMissingOrInvalid,
    /// The issued token does not decode; see `TokenError`.
    TokenDecode(TokenError),
}

/// The first position at or after `from` where the needle occurs.
pub open spec fn spec_find(h: Seq<char>, needle: Seq<char>, from: int) -> Option<int>
    decreases h.len() - from + 1,
{
    if from < 0 || from + needle.len() > h.len() {
        None
    } else if match_at(h, needle, from) {
        Some(from)
    } else {
        spec_find(h, needle, from + 1)
    }
}

pub proof fn lemma_find_some(h: Seq<char>, needle: Seq<char>, from: int, i: int)
    requires
        0 <= from <= i,
        match_at(h, needle, i),
        forall|j: int| from <= j < i ==> !match_at(h, needle, j),
    ensures
        spec_find(h, needle, from) == Some(i),
    decreases i - from,
{
    if from < i {
        lemma_find_some(h, needle, from + 1, i);
    }
}

pub proof fn lemma_find_none(h: Seq<char>, needle: Seq<char>, from: int)
    requires
        0 <= from,
        forall|j: int| from <= j ==> !match_at(h, needle, j),
    ensures
        spec_find(h, needle, from) == None::<int>,
    decreases h.len() - from + 1,
{
    if !(from + needle.len() > h.len()) {
        assert(!match_at(h, needle, from));
        lemma_find_none(h, needle, from + 1);
    }
}

/// The marker before the embedded state token.
pub open spec fn start_marker() -> Seq<char> {
    "\"stateToken\":\""@
}

/// The marker after the embedded state token.
pub open spec fn end_marker() -> Seq<char> {
    "\","@
}

/// The raw string literal between the markers of a landing page, or the
/// extraction failure: missing markers, or an empty span between them.
pub open spec fn spec_state_literal(h: Seq<char>) -> Result<Seq<char>, AuthError> {
    match spec_find(h, start_marker(), 0) {
        None => Err(AuthError::StateTokenNotFound),
        Some(m) => {
            let start = m + start_marker().len();
            match spec_find(h, end_marker(), start) {
                None => Err(AuthError::StateTokenNotFound),
                Some(e) => {
                    if start >= e {
                        Err(AuthError::InvalidExtractionIndices)
                    } else {
                        Ok(h.subrange(start, e))
                    }
                },
            }
        },
    }
}

/// The replacement for a `\xHH` escape the landing page uses, if `HH` is
/// one of the five codes it escapes.
pub open spec fn hex_escape_char(a: char, b: char) -> Option<char> {
    if a == '2' && b == 'D' {
        Some('-')
    } else if a == '5' && b == 'F' {
        Some('_')
    } else if a == '2' && b == 'E' {
        Some('.')
    } else if a == '2' && b == 'F' {
        Some('/')
    } else if a == '3' && b == 'D' {
        Some('=')
    } else {
        None
    }
}

/// Whether an escape the extractor decodes starts at the head of `s`.
pub open spec fn escape_at_head(s: Seq<char>) -> bool {
    s.len() >= 4 && s[0] == '\\' && s[1] == 'x' && hex_escape_char(s[2], s[3]) is Some
}

/// One left-to-right pass replacing the five `\xHH` escapes with their
/// characters; everything else passes through. (The escapes cannot
/// overlap, so a single pass replaces them all.)
pub open spec fn spec_unescape_hex(s: Seq<char>) -> Seq<char>
    decreases s.len(),
{
    if s.len() == 0 {
        Seq::empty()
    } else if escape_at_head(s) {
        seq![hex_escape_char(s[2], s[3])->0] + spec_unescape_hex(s.skip(4))
    } else {
        seq![s[0]] + spec_unescape_hex(s.skip(1))
    }
}

fn escape_replacement(a: char, b: char) -> (r: Option<&'static str>)
    ensures
        match r {
            Some(t) => hex_escape_char(a, b) == Some(t@[0]) && t@.len() == 1,
            None => hex_escape_char(a, b) is None,
        },
{
    proof {
        reveal_strlit("-");
        reveal_strlit("_");
        reveal_strlit(".");
        reveal_strlit("/");
        reveal_strlit("=");
    }
    if a == '2' && b == 'D' {
        Some("-")
    } else if a == '5' && b == 'F' {
        Some("_")
    } else if a == '2' && b == 'E' {
        Some(".")
    } else if a == '2' && b == 'F' {
        Some("/")
    } else if a == '3' && b == 'D' {
        Some("=")
    } else {
        None
    }
}

/// Decodes the `\xHH` escapes (`-`, `_`, `.`, `/`, `=`) that the landing
/// page leaves inside the state-token literal.
pub fn decode_escape_sequences(s: &str) -> (r: String)
    ensures
        r@ == spec_unescape_hex(s@),
{
    let chars = chars_of(s);
    let n = chars.len();
    let mut out = String::new();
    let mut run_start: usize = 0;
    let mut i: usize = 0;
    proof {
        assert(s@.skip(0) =~= s@);
    }
    while i < n
        invariant
            run_start <= i <= n == s@.len(),
            chars@ == s@,
            spec_unescape_hex(s@) == out@ + s@.subrange(run_start as int, i as int)
                + spec_unescape_hex(s@.skip(i as int)),
        decreases n - i,
    {
        let mut replaced = false;
        if n - i >= 4 && chars[i] == '\\' && chars[i + 1] == 'x' {
            match escape_replacement(chars[i + 2], chars[i + 3]) {
                Some(rep) => {
                    proof {
                        assert(s@.skip(i as int)[0] == s@[i as int]);
                        assert(s@.skip(i as int)[1] == s@[i + 1]);
                        assert(s@.skip(i as int)[2] == s@[i + 2]);
                        assert(s@.skip(i as int)[3] == s@[i + 3]);
                        assert(escape_at_head(s@.skip(i as int)));
                        assert(s@.skip(i as int).skip(4) =~= s@.skip(i + 4));
                    }
                    out.append(s.substring_char(run_start, i));
                    out.append(rep);
                    proof {
                        assert(rep@ =~= seq![
                            hex_escape_char(s@[i + 2], s@[i + 3])->0,
                        ]);
                        assert(s@.subrange(i + 4, i + 4) =~= Seq::<char>::empty());
                        assert(spec_unescape_hex(s@) =~= out@ + s@.subrange(i + 4, i + 4)
                            + spec_unescape_hex(s@.skip(i + 4)));
                    }
                    i = i + 4;
                    run_start = i;
                    replaced = true;
                },
                None => {},
            }
        }
        if !replaced {
            proof {
                assert(s@.skip(i as int)[0] == s@[i as int]);
                if s@.skip(i as int).len() >= 4 {
                    assert(s@.skip(i as int)[1] == s@[i + 1]);
                    assert(s@.skip(i as int)[2] == s@[i + 2]);
                    assert(s@.skip(i as int)[3] == s@[i + 3]);
                }
                assert(!escape_at_head(s@.skip(i as int)));
                assert(s@.skip(i as int).drop_first() =~= s@.skip(i + 1));
                assert(s@.subrange(run_start as int, i + 1) =~= s@.subrange(
                    run_start as int,
                    i as int,
                ).push(s@[i as int]));
            }
            i = i + 1;
        }
    }
    out.append(s.substring_char(run_start, n));
    proof {
        assert(s@.skip(n as int) =~= Seq::<char>::empty());
        assert(spec_unescape_hex(Seq::<char>::empty()) =~= Seq::<char>::empty());
        assert(out@ =~= spec_unescape_hex(s@));
    }
    out
}

/// What serde_json resolves the quoted form `"<s>"` to, if it is a valid
/// JSON string literal.
pub uninterp spec fn json_unescaped(s: Seq<char>) -> Option<Seq<char>>;

/// Relies on serde_json's `from_str::<String>`: parsing the input wrapped
/// in quotes as a JSON string literal, a function of the input alone.
#[verifier::external_body]
fn unescape_json_string(s: &str) -> (r: Option<String>)
    ensures
        match r {
            Some(v) => json_unescaped(s@) == Some(v@),
            None => json_unescaped(s@) == None::<Seq<char>>,
        },
{
    serde_json::from_str::<String>(&format!("\"{s}\"")).ok()
}

/// The state token of a landing page: the literal between the markers,
/// with its `\xHH` escapes decoded, resolved as a JSON string literal.
pub open spec fn spec_state_token(h: Seq<char>) -> Result<Seq<char>, AuthError> {
    match spec_state_literal(h) {
        Err(e) => Err(e),
        Ok(lit) => match json_unescaped(spec_unescape_hex(lit)) {
            None => Err(AuthError::StateTokenNotFound),
            Some(tok) => Ok(tok),
        },
    }
}

/// Extracts and decodes the state token embedded in the landing page.
pub fn state_token_from_landing(html: &str) -> (r: Result<String, AuthError>)
    ensures
        match r {
            Ok(tok) => spec_state_token(html@) == Ok::<Seq<char>, AuthError>(tok@),
            Err(e) => spec_state_token(html@) == Err::<Seq<char>, AuthError>(e),
        },
{
    let chars = chars_of(html);
    let smark = chars_of("\"stateToken\":\"");
    let emark = chars_of("\",");
    let m = match crate::text::find_from(&chars, &smark, 0) {
        Some(m) => {
            proof {
                lemma_find_some(html@, start_marker(), 0, m as int);
            }
            m
        },
        None => {
            proof {
                lemma_find_none(html@, start_marker(), 0);
            }
            return Err(AuthError::StateTokenNotFound);
        },
    };
    let n = chars.len();
    proof {
        assert(m + start_marker().len() <= n);
    }
    let start = m + smark.len();
    let e = match crate::text::find_from(&chars, &emark, start) {
        Some(e) => {
            proof {
                lemma_find_some(html@, end_marker(), start as int, e as int);
            }
            e
        },
        None => {
            proof {
                lemma_find_none(html@, end_marker(), start as int);
            }
            return Err(AuthError::StateTokenNotFound);
        },
    };
    if start >= e {
        return Err(AuthError::InvalidExtractionIndices);
    }
    let lit = html.substring_char(start, e);
    let decoded = decode_escape_sequences(lit);
    match unescape_json_string(decoded.as_str()) {
        Some(tok) => Ok(tok),
        None => Err(AuthError::StateTokenNotFound),
    }
}

/// The body of the introspect post for a given state token.
pub open spec fn spec_introspect_body(tok: Seq<char>) -> Seq<char> {
    "{\"stateToken\": \""@ + tok + "\"}"@
}

/// Builds the introspect body, binding the state token.
pub fn introspect_body(tok: &str) -> (r: String)
    ensures
        r@ == spec_introspect_body(tok@),
{
    let mut s = "{\"stateToken\": \"".to_owned();
    s.append(tok);
    s.append("\"}");
    s
}

/// The identify body serde_json prints for a state handle and identifier.
pub uninterp spec fn identify_body_of(handle: Seq<char>, identifier: Seq<char>) -> Seq<char>;

/// Relies on serde_json's `Map` and `Value` serialization: the identify
/// body is a function of the state handle and the identifier alone.
#[verifier::external_body]
fn identify_body(handle: &str, identifier: &str) -> (r: String)
    ensures
        r@ == identify_body_of(handle@, identifier@),
{
    let mut m = serde_json::Map::new();
    m.insert("stateHandle".to_string(), serde_json::Value::String(handle.to_string()));
    m.insert("identifier".to_string(), serde_json::Value::String(identifier.to_string()));
    serde_json::Value::Object(m).to_string()
}

/// The challenge body serde_json prints for a state handle and passcode.
pub uninterp spec fn challenge_body_of(handle: Seq<char>, passcode: Seq<char>) -> Seq<char>;

/// Relies on serde_json's `Map` and `Value` serialization: the challenge
/// body, with the passcode under `credentials`, is a function of the state
/// handle and the passcode alone.
#[verifier::external_body]
fn challenge_body(handle: &str, passcode: &str) -> (r: String)
    ensures
        r@ == challenge_body_of(handle@, passcode@),
{
    let mut c = serde_json::Map::new();
    c.insert("passcode".to_string(), serde_json::Value::String(passcode.to_string()));
    let mut m = serde_json::Map::new();
    m.insert("stateHandle".to_string(), serde_json::Value::String(handle.to_string()));
    m.insert("credentials".to_string(), serde_json::Value::Object(c));
    serde_json::Value::Object(m).to_string()
}

/// The `stateHandle` string of a handshake response, if it has one.
pub uninterp spec fn state_handle_of(body: Seq<char>) -> Option<Seq<char>>;

/// Relies on serde_json's `from_str`, `Value::get` and `Value::as_str`:
/// the `stateHandle` field is a function of the response body alone.
#[verifier::external_body]
fn parse_state_handle(body: &str) -> (r: Option<String>)
    ensures
        match r {
            Some(h) => state_handle_of(body@) == Some(h@),
            None => state_handle_of(body@) == None::<Seq<char>>,
        },
{
    let v: serde_json::Value = serde_json::from_str(body).ok()?;
    Some(v.get("stateHandle")?.as_str()?.to_string())
}

/// The `success.href` string of a challenge response, if it has one.
pub uninterp spec fn success_href_of(body: Seq<char>) -> Option<Seq<char>>;

/// Relies on serde_json's `from_str`, `Value::get` and `Value::as_str`:
/// the `success.href` field is a function of the response body alone.
#[verifier::external_body]
fn parse_success_href(body: &str) -> (r: Option<String>)
    ensures
        match r {
            Some(h) => success_href_of(body@) == Some(h@),
            None => success_href_of(body@) == None::<Seq<char>>,
        },
{
    let v: serde_json::Value = serde_json::from_str(body).ok()?;
    Some(v.get("success")?.get("href")?.as_str()?.to_string())
}

/// The `token` string of the auth response — only if the field is there
/// and is a string.
pub uninterp spec fn token_field_of(body: Seq<char>) -> Option<Seq<char>>;

/// Relies on serde_json's `from_str`, `Value::get` and `Value::as_str`:
/// the `token` field is a function of the response body alone, and any
/// non-string value yields nothing.
#[verifier::external_body]
fn parse_token_field(body: &str) -> (r: Option<String>)
    ensures
        match r {
            Some(t) => token_field_of(body@) == Some(t@),
            None => token_field_of(body@) == None::<Seq<char>>,
        },
{
    let v: serde_json::Value = serde_json::from_str(body).ok()?;
    Some(v.get("token")?.as_str()?.to_string())
}

/// What the landing page's response leads to: the introspect body, or the
/// extraction failure.
pub open spec fn spec_landing_step(html: Seq<char>) -> Result<Seq<char>, AuthError> {
    match spec_state_token(html) {
        Ok(tok) => Ok(spec_introspect_body(tok)),
        Err(e) => Err(e),
    }
}

/// What an introspect response leads to: the identify body binding the
/// fresh state handle to the identifier.
pub open spec fn spec_introspect_step(body: Seq<char>, identifier: Seq<char>) -> Result<
    Seq<char>,
    AuthError,
> {
    match state_handle_of(body) {
        Some(h) => Ok(identify_body_of(h, identifier)),
        None => Err(AuthError::StateHandleMissing),
    }
}

/// What an identify response leads to: the challenge body binding the
/// refreshed state handle to the passcode.
pub open spec fn spec_identify_step(body: Seq<char>, passcode: Seq<char>) -> Result<
    Seq<char>,
    AuthError,
> {
    match state_handle_of(body) {
        Some(h) => Ok(challenge_body_of(h, passcode)),
        None => Err(AuthError::StateHandleMissing),
    }
}

/// What a challenge response leads to: the redirect URL that must be
/// fetched to finalize the session.
pub open spec fn spec_challenge_step(body: Seq<char>) -> Result<Seq<char>, AuthError> {
    match success_href_of(body) {
        Some(h) => Ok(h),
        None => Err(AuthError::SuccessUrlMissing),
    }
}

/// What the auth response leads to: the decoded bearer token, or the error
/// of the token field or of its decoding.
pub open spec fn spec_auth_step(body: Seq<char>) -> Result<usize, AuthError> {
    match token_field_of(body) {
        None => Err(AuthError::TokenFieldMissingOrInvalid),
        Some(raw) => match crate::token::spec_decode_token(raw) {
            Ok(mission) => Ok(mission),
            Err(e) => Err(AuthError::TokenDecode(e)),
        },
    }
}

/// The next HTTP request the login sequence asks its driver to perform.
/// The driver clears the cookie jar before the landing request, so that no
/// stale state leaks into a fresh login.
#[derive(Clone, Debug)]
pub enum LoginRequest {
    /// Clear all session cookies, then fetch the landing page.
    ClearCookiesAndGetLanding,
    PostIntrospect { body: String },
    PostIdentify { body: String },
    PostChallenge { body: String },
    /// Fetch the success redirect, finalizing the server-side session.
    GetSessionUrl { url: String },
    /// Ask the auth endpoint for the bearer token.
    GetAuthToken,
}

/// What a response advances the login to: the next request to perform, or
/// the issued token. On `Done`, the driver persists cookies and the raw
/// token, in that order, before using the token.
#[derive(Clone, Debug)]
pub enum LoginStep {
    Next(LoginRequest),
    Done(BearerToken),
}

/// Where the login sequence stands: which response it waits for.
#[derive(Clone, Copy, Debug, PartialEq, Eq, Structural)]
pub enum LoginState {
    Ready,
    AwaitLanding,
    AwaitIntrospect,
    AwaitIdentify,
    AwaitChallenge,
    AwaitSession,
    AwaitAuth,
    Complete,
    Failed,
}

/// The login handshake as a state machine over response bodies: `start`
/// yields the first request, and each response body fed to `on_response`
/// yields the next request, the issued token, or the typed error that
/// aborts the attempt. No step is retried within one sequence; retrying is
/// the caller's decision, one layer up.
pub struct LoginFlow {
    pub username: String,
    pub password: String,
    pub state: LoginState,
}

impl LoginFlow {
    pub fn new(username: String, password: String) -> (r: LoginFlow)
        ensures
            r.username == username,
            r.password == password,
            r.state == LoginState::Ready,
    {
        LoginFlow { username, password, state: LoginState::Ready }
    }

    /// Begins a fresh attempt: cookies are cleared and the landing page
    /// fetched first, whatever happened before.
    pub fn start(&mut self) -> (r: LoginRequest)
        ensures
            final(self).state == LoginState::AwaitLanding,
            final(self).username == old(self).username,
            final(self).password == old(self).password,
            r is ClearCookiesAndGetLanding,
    {
        self.state = LoginState::AwaitLanding;
        LoginRequest::ClearCookiesAndGetLanding
    }

    /// Advances the sequence with the body of the response to the request
    /// handed out last. Exactly the step function of the state the machine
    /// was in; an error moves it to `Failed`, success through all six
    /// responses ends in `Complete` with the issued token.
    pub fn on_response(&mut self, body: &str) -> (r: Result<LoginStep, AuthError>)
        requires
            old(self).state != LoginState::Ready,
            old(self).state != LoginState::Complete,
            old(self).state != LoginState::Failed,
        ensures
            final(self).username == old(self).username,
            final(self).password == old(self).password,
            match r {
                Ok(step) => match old(self).state {
                    LoginState::AwaitLanding => {
                        &&& final(self).state == LoginState::AwaitIntrospect
                        &&& step matches LoginStep::Next(LoginRequest::PostIntrospect { body: b })
                            && spec_landing_step(body@) == Ok::<Seq<char>, AuthError>(b@)
                    },
                    LoginState::AwaitIntrospect => {
                        &&& final(self).state == LoginState::AwaitIdentify
                        &&& step matches LoginStep::Next(LoginRequest::PostIdentify { body: b })
                            && spec_introspect_step(body@, old(self).username@) == Ok::<
                            Seq<char>,
                            AuthError,
                        >(b@)
                    },
                    LoginState::AwaitIdentify => {
                        &&& final(self).state == LoginState::AwaitChallenge
                        &&& step matches LoginStep::Next(LoginRequest::PostChallenge { body: b })
                            && spec_identify_step(body@, old(self).password@) == Ok::<
                            Seq<char>,
                            AuthError,
                        >(b@)
                    },
                    LoginState::AwaitChallenge => {
                        &&& final(self).state == LoginState::AwaitSession
                        &&& step matches LoginStep::Next(LoginRequest::GetSessionUrl { url: u })
                            && spec_challenge_step(body@) == Ok::<Seq<char>, AuthError>(u@)
                    },
                    LoginState::AwaitSession => {
                        &&& final(self).state == LoginState::AwaitAuth
                        &&& step matches LoginStep::Next(LoginRequest::GetAuthToken)
                    },
                    LoginState::AwaitAuth => {
                        &&& final(self).state == LoginState::Complete
                        &&& step matches LoginStep::Done(t) && spec_auth_step(body@) == Ok::<
                            usize,
                            AuthError,
                        >(t.claims.mission_id) && token_field_of(body@) == Some(t.token@)
                    },
                    _ => false,
                },
                Err(e) => {
                    &&& final(self).state == LoginState::Failed
                    &&& match old(self).state {
                        LoginState::AwaitLanding => spec_landing_step(body@) == Err::<
                            Seq<char>,
                            AuthError,
                        >(e),
                        LoginState::AwaitIntrospect => spec_introspect_step(
                            body@,
                            old(self).username@,
                        ) == Err::<Seq<char>, AuthError>(e),
                        LoginState::AwaitIdentify => spec_identify_step(
                            body@,
                            old(self).password@,
                        ) == Err::<Seq<char>, AuthError>(e),
                        LoginState::AwaitChallenge => spec_challenge_step(body@) == Err::<
                            Seq<char>,
                            AuthError,
                        >(e),
                        LoginState::AwaitSession => false,
                        LoginState::AwaitAuth => spec_auth_step(body@) == Err::<usize, AuthError>(
                            e,
                        ),
                        _ => false,
                    }
                },
            },
    {
        match self.state {
            LoginState::AwaitLanding => match state_token_from_landing(body) {
                Ok(tok) => {
                    self.state = LoginState::AwaitIntrospect;
                    Ok(LoginStep::Next(LoginRequest::PostIntrospect {
                        body: introspect_body(tok.as_str()),
                    }))
                },
                Err(e) => {
                    self.state = LoginState::Failed;
                    Err(e)
                },
            },
            LoginState::AwaitIntrospect => match parse_state_handle(body) {
                Some(h) => {
                    self.state = LoginState::AwaitIdentify;
                    Ok(LoginStep::Next(LoginRequest::PostIdentify {
                        body: identify_body(h.as_str(), self.username.as_str()),
                    }))
                },
                None => {
                    self.state = LoginState::Failed;
                    Err(AuthError::StateHandleMissing)
                },
            },
            LoginState::AwaitIdentify => match parse_state_handle(body) {
                Some(h) => {
                    self.state = LoginState::AwaitChallenge;
                    Ok(LoginStep::Next(LoginRequest::PostChallenge {
                        body: challenge_body(h.as_str(), self.password.as_str()),
                    }))
                },
                None => {
                    self.state = LoginState::Failed;
                    Err(AuthError::StateHandleMissing)
                },
            },
            LoginState::AwaitChallenge => match parse_success_href(body) {
                Some(url) => {
                    self.state = LoginState::AwaitSession;
                    Ok(LoginStep::Next(LoginRequest::GetSessionUrl { url }))
                },
                None => {
                    self.state = LoginState::Failed;
                    Err(AuthError::SuccessUrlMissing)
                },
            },
            LoginState::AwaitSession => {
                self.state = LoginState::AwaitAuth;
                Ok(LoginStep::Next(LoginRequest::GetAuthToken))
            },
            LoginState::AwaitAuth => match parse_token_field(body) {
                Some(raw) => match BearerToken::from_base64(raw) {
                    Ok(token) => {
                        self.state = LoginState::Complete;
                        Ok(LoginStep::Done(token))
                    },
                    Err(e) => {
                        self.state = LoginState::Failed;
                        Err(AuthError::TokenDecode(e))
                    },
                },
                None => {
                    self.state = LoginState::Failed;
                    Err(AuthError::TokenFieldMissingOrInvalid)
                },
            },
            _ => {
                proof {
                    assert(false);
                }
                self.state = LoginState::Failed;
                Err(AuthError::StateTokenNotFound)
            },
        }
    }
}

} // verus!
