use referral_list::auth::{
    decode_escape_sequences, introspect_body, state_token_from_landing, AuthError, LoginFlow,
    LoginRequest, LoginState, LoginStep,
};
use referral_list::token::TokenError;

#[test]
fn escapes_decode_to_their_characters() {
    assert_eq!(decode_escape_sequences("abc"), "abc");
    assert_eq!(decode_escape_sequences("a\\x2Db"), "a-b");
    assert_eq!(decode_escape_sequences("\\x5F\\x2E\\x2F\\x3D"), "_./=");
    // An unknown escape passes through untouched.
    assert_eq!(decode_escape_sequences("a\\x41b"), "a\\x41b");
    // A truncated escape at the end passes through.
    assert_eq!(decode_escape_sequences("ab\\x2"), "ab\\x2");
}

#[test]
fn state_token_is_extracted_and_decoded() {
    let html = "<html>var x = {\"stateToken\":\"tok\\x2Dpart\\x2Fend\",\"o\":1};</html>";
    let tok = state_token_from_landing(html).unwrap();
    assert_eq!(tok, "tok-part/end");
}

#[test]
fn state_token_missing_markers() {
    let r = state_token_from_landing("<html>nothing here</html>");
    assert!(matches!(r, Err(AuthError::StateTokenNotFound)));
    // A start marker without the end marker also fails.
    let r = state_token_from_landing("{\"stateToken\":\"abc");
    assert!(matches!(r, Err(AuthError::StateTokenNotFound)));
}

#[test]
fn state_token_empty_span_is_invalid_indices() {
    let r = state_token_from_landing("{\"stateToken\":\"\",\"o\":1}");
    assert!(matches!(r, Err(AuthError::InvalidExtractionIndices)));
}

#[test]
fn introspect_body_binds_token() {
    assert_eq!(introspect_body("t-1"), "{\"stateToken\": \"t-1\"}");
}

#[test]
fn state_token_resolves_json_escapes() {
    // The extracted literal is a JSON string body: its escapes resolve.
    let html = "{\"stateToken\":\"st\\u0041b\",\"x\":0}";
    assert_eq!(state_token_from_landing(html).unwrap(), "stAb");
}

#[test]
fn handshake_bodies_escape_credentials() {
    let mut flow = LoginFlow::new("u\"x".to_string(), "p".to_string());
    flow.start();
    flow.on_response("{\"stateToken\":\"st\",\"x\":0}").unwrap();
    let step = flow.on_response("{\"stateHandle\":\"h1\"}").unwrap();
    let identify = match step {
        LoginStep::Next(LoginRequest::PostIdentify { body }) => body,
        _ => panic!("expected the identify post"),
    };
    // A quote inside the identifier arrives escaped, as JSON demands.
    assert_eq!(identify, "{\"identifier\":\"u\\\"x\",\"stateHandle\":\"h1\"}");
}

#[test]
fn login_handshake_end_to_end() {
    // Scripted fixture responses for all five handshake calls.
    let mut flow = LoginFlow::new("user1".to_string(), "pw1".to_string());
    let first = flow.start();
    assert!(matches!(first, LoginRequest::ClearCookiesAndGetLanding));
    assert_eq!(flow.state, LoginState::AwaitLanding);

    let landing = "<body>{\"stateToken\":\"st\\x2D1\",\"x\":0}</body>";
    let step = flow.on_response(landing).unwrap();
    let introspect = match step {
        LoginStep::Next(LoginRequest::PostIntrospect { body }) => body,
        _ => panic!("expected the introspect post"),
    };
    assert_eq!(introspect, "{\"stateToken\": \"st-1\"}");

    let step = flow.on_response("{\"stateHandle\":\"h1\",\"v\":1}").unwrap();
    let identify = match step {
        LoginStep::Next(LoginRequest::PostIdentify { body }) => body,
        _ => panic!("expected the identify post"),
    };
    assert_eq!(identify, "{\"identifier\":\"user1\",\"stateHandle\":\"h1\"}");

    let step = flow.on_response("{\"stateHandle\":\"h2\"}").unwrap();
    let challenge = match step {
        LoginStep::Next(LoginRequest::PostChallenge { body }) => body,
        _ => panic!("expected the challenge post"),
    };
    assert_eq!(
        challenge,
        "{\"credentials\":{\"passcode\":\"pw1\"},\"stateHandle\":\"h2\"}"
    );

    let step = flow.on_response("{\"success\":{\"href\":\"https://host/done\"}}").unwrap();
    let url = match step {
        LoginStep::Next(LoginRequest::GetSessionUrl { url }) => url,
        _ => panic!("expected the session redirect"),
    };
    assert_eq!(url, "https://host/done");

    let step = flow.on_response("").unwrap();
    assert!(matches!(step, LoginStep::Next(LoginRequest::GetAuthToken)));

    let auth = "{\"token\":\"eyJhbGciOiJub25lIn0.eyJtaXNzaW9uSWQiOjQyfQ.c2ln\"}";
    let step = flow.on_response(auth).unwrap();
    let token = match step {
        LoginStep::Done(t) => t,
        _ => panic!("expected the issued token"),
    };
    assert_eq!(token.claims.mission_id, 42);
    assert_eq!(flow.state, LoginState::Complete);
}

#[test]
fn login_token_field_must_be_string() {
    let mut flow = LoginFlow::new("u".to_string(), "p".to_string());
    flow.start();
    flow.on_response("{\"stateToken\":\"st\",\"x\":0}").unwrap();
    flow.on_response("{\"stateHandle\":\"h1\"}").unwrap();
    flow.on_response("{\"stateHandle\":\"h2\"}").unwrap();
    flow.on_response("{\"success\":{\"href\":\"u\"}}").unwrap();
    flow.on_response("").unwrap();
    let r = flow.on_response("{\"token\":17}");
    assert!(matches!(r, Err(AuthError::TokenFieldMissingOrInvalid)));
    assert_eq!(flow.state, LoginState::Failed);
}

#[test]
fn login_missing_success_href_fails() {
    let mut flow = LoginFlow::new("u".to_string(), "p".to_string());
    flow.start();
    flow.on_response("{\"stateToken\":\"st\",\"x\":0}").unwrap();
    flow.on_response("{\"stateHandle\":\"h1\"}").unwrap();
    flow.on_response("{\"stateHandle\":\"h2\"}").unwrap();
    let r = flow.on_response("{\"success\":{}}");
    assert!(matches!(r, Err(AuthError::SuccessUrlMissing)));
}

#[test]
fn login_undecodable_token_fails() {
    let mut flow = LoginFlow::new("u".to_string(), "p".to_string());
    flow.start();
    flow.on_response("{\"stateToken\":\"st\",\"x\":0}").unwrap();
    flow.on_response("{\"stateHandle\":\"h1\"}").unwrap();
    flow.on_response("{\"stateHandle\":\"h2\"}").unwrap();
    flow.on_response("{\"success\":{\"href\":\"u\"}}").unwrap();
    flow.on_response("").unwrap();
    let r = flow.on_response("{\"token\":\"only.two\"}");
    assert!(matches!(r, Err(AuthError::TokenDecode(TokenError::MalformedToken))));
}

#[test]
fn login_missing_state_handle_fails() {
    let mut flow = LoginFlow::new("u".to_string(), "p".to_string());
    flow.start();
    flow.on_response("{\"stateToken\":\"st\",\"x\":0}").unwrap();
    let r = flow.on_response("{\"other\":true}");
    assert!(matches!(r, Err(AuthError::StateHandleMissing)));
}
