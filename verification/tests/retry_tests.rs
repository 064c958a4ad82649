use referral_list::retry::{
    bearer_header_value, roster_url, timeline_url, AuthSession, FailureRecovery, FetchAction,
    MAX_RETRIES, RosterRetry, TimelineRetry,
};
use referral_list::token::BearerToken;

fn fixture_token() -> BearerToken {
    BearerToken::from_base64(
        "eyJhbGciOiJub25lIn0.eyJtaXNzaW9uSWQiOjQyfQ.c2ln".to_string(),
    )
    .unwrap()
}

#[test]
fn roster_fetch_reauthenticates_twice_over_three_attempts() {
    // The first two attempts fail at transport; the third succeeds.
    // Exactly one result comes back and exactly two re-authentications run.
    let mut session = AuthSession::new("u".to_string(), "p".to_string(), Some(fixture_token()));
    let mut policy = RosterRetry::new();
    let mut attempt: u8 = 0;
    let mut logins = 0;
    let mut results = 0;
    loop {
        match policy.next_action(session.current()) {
            FetchAction::GiveUp => break,
            FetchAction::Login => {
                logins += 1;
                session.install(fixture_token());
            },
            FetchAction::Request => {
                policy.record_attempt();
                attempt += 1;
                if attempt <= 2 {
                    assert_eq!(policy.on_failure(), FailureRecovery::InvalidateToken);
                    session.invalidate();
                } else {
                    results += 1;
                    break;
                }
            },
        }
    }
    assert_eq!(results, 1);
    assert_eq!(logins, 2);
}

#[test]
fn roster_fetch_gives_up_after_the_bound() {
    let mut session = AuthSession::new("u".to_string(), "p".to_string(), Some(fixture_token()));
    let mut policy = RosterRetry::new();
    let mut attempts = 0;
    let gave_up = loop {
        match policy.next_action(session.current()) {
            FetchAction::GiveUp => break true,
            FetchAction::Login => session.install(fixture_token()),
            FetchAction::Request => {
                policy.record_attempt();
                attempts += 1;
                session.invalidate();
            },
        }
    };
    assert!(gave_up);
    assert_eq!(attempts, MAX_RETRIES);
}

#[test]
fn timeline_fetch_relogs_in_full() {
    let mut policy = TimelineRetry::new();
    assert!(matches!(policy.next_action(), FetchAction::Request));
    policy.record_attempt();
    assert_eq!(policy.on_failure(), FailureRecovery::FullRelogin);
    policy.record_attempt();
    policy.record_attempt();
    assert!(matches!(policy.next_action(), FetchAction::GiveUp));
}

#[test]
fn session_owns_its_token() {
    let mut session = AuthSession::new("u".to_string(), "p".to_string(), None);
    assert!(session.current().is_none());
    session.install(fixture_token());
    assert_eq!(session.current().as_ref().unwrap().claims.mission_id, 42);
    session.invalidate();
    assert!(session.current().is_none());
    let flow = session.login_flow();
    assert_eq!(flow.username, "u");
    assert_eq!(flow.password, "p");
}

#[test]
fn request_pieces_are_assembled() {
    assert_eq!(
        roster_url(42),
        "https://referralmanager.churchofjesuschrist.org/services/people/mission/42?includeDroppedPersons=true"
    );
    assert_eq!(
        timeline_url("abc-def"),
        "https://referralmanager.churchofjesuschrist.org/services/progress/timeline/abc-def"
    );
    assert_eq!(bearer_header_value("tok"), "Bearer tok");
}
