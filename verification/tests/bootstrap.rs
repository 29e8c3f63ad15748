use cordiale::bootstrap::{
    bootstrap, bootstrap_with_bearer, bootstrap_with_login_bearer, Bootstrap, BootstrapError,
    BootstrapOutcome, Next, Reply,
};
use cordiale::client::{Body, GrappaClient, GrappaClientError, LoginError, Request};
use cordiale::json::Json;
use cordiale::protocol::MIN_SUPPORTED_PROTOCOL_VERSION;
use cordiale::rest::{BootResponse, ConfigResponse, LoginRequest, LoginResponse, MeResponse};
use cordiale::text_map::TextMap;

fn client() -> GrappaClient {
    GrappaClient::new("https://g.example")
}

fn login(identifier: &str, password: &str) -> LoginRequest {
    LoginRequest {
        identifier: identifier.to_string(),
        password: password.to_string(),
    }
}

fn config(protocol_version: u32) -> Reply {
    Reply::Config(Ok(ConfigResponse {
        server: "grappa".to_string(),
        version: "1.4.2-abc1234".to_string(),
        protocol_version,
        min_protocol_version: 1,
        push_content_encoding: None,
    }))
}

fn logged_in(token: &str) -> Reply {
    Reply::Login(Ok(LoginResponse {
        token: token.to_string(),
        subject: Json::Text("vjt".to_string()),
    }))
}

fn boot() -> Reply {
    Reply::Boot(Ok(BootResponse {
        networks: Vec::new(),
        channels: TextMap::new(),
        heads: TextMap::new(),
    }))
}

fn me() -> Reply {
    Reply::Me(Ok(MeResponse {
        read_cursors: Json::Null,
        unread_counts: Json::Null,
        badge_count: Json::Null,
        is_admin: false,
        kind: None,
        id: None,
        name: None,
    }))
}

fn refusal(status: u16) -> GrappaClientError {
    GrappaClientError::Http {
        status: Some(status),
        text: "refused".to_string(),
    }
}

fn asked(next: Next) -> (Bootstrap, Request) {
    match next {
        Next::Ask { bootstrap, request } => (bootstrap, request),
        other => panic!("{:?}", other),
    }
}

fn done(next: Next) -> BootstrapOutcome {
    match next {
        Next::Done(outcome) => outcome,
        other => panic!("{:?}", other),
    }
}

fn failed(next: Next) -> BootstrapError {
    match next {
        Next::Failed(error) => error,
        other => panic!("{:?}", other),
    }
}

#[test]
fn the_full_sequence_runs_on_a_compatible_server() {
    let start = bootstrap(client(), login("vjt", "s3cr3t"));
    assert_eq!(start.ask().url, "https://g.example/api/config");
    let (second, request) = asked(start.step(config(MIN_SUPPORTED_PROTOCOL_VERSION)));
    assert_eq!(request.url, "https://g.example/auth/login");
    assert_eq!(request.bearer, None);
    let (third, request) = asked(second.step(logged_in("abc123")));
    assert_eq!(request.url, "https://g.example/boot");
    assert_eq!(request.bearer.as_deref(), Some("abc123"));
    let (fourth, request) = asked(third.step(boot()));
    assert_eq!(request.url, "https://g.example/me");
    assert_eq!(request.bearer.as_deref(), Some("abc123"));
    let outcome = done(fourth.step(me()));
    assert_eq!(outcome.token, "abc123");
    assert_eq!(outcome.subject, Some(Json::Text("vjt".to_string())));
    assert!(outcome.boot.networks.is_empty());
}

#[test]
fn a_saved_bearer_skips_the_login() {
    let start = bootstrap_with_bearer(client(), "saved-bearer".to_string());
    let (second, request) = asked(start.step(config(26)));
    assert_eq!(request.url, "https://g.example/boot");
    assert_eq!(request.bearer.as_deref(), Some("saved-bearer"));
    assert!(matches!(request.body, Body::Empty));
    let (third, _) = asked(second.step(boot()));
    let outcome = done(third.step(me()));
    assert_eq!(outcome.token, "saved-bearer");
    assert_eq!(outcome.subject, None);
}

#[test]
fn a_returning_guest_goes_on_with_the_rotated_bearer() {
    let start = bootstrap_with_login_bearer(
        client(),
        login("guest_nick", ""),
        Some("previous-bearer".to_string()),
    );
    let (second, request) = asked(start.step(config(26)));
    assert_eq!(request.bearer.as_deref(), Some("previous-bearer"));
    let (third, request) = asked(second.step(logged_in("rotated-bearer")));
    assert_eq!(request.bearer.as_deref(), Some("rotated-bearer"));
    let (fourth, request) = asked(third.step(boot()));
    assert_eq!(request.bearer.as_deref(), Some("rotated-bearer"));
    assert_eq!(done(fourth.step(me())).token, "rotated-bearer");
}

#[test]
fn a_rejected_bearer_is_told_from_other_refusals() {
    let start = bootstrap_with_bearer(client(), "revoked-bearer".to_string());
    let (second, _) = asked(start.step(config(26)));
    assert!(matches!(
        failed(second.step(Reply::Boot(Err(refusal(401))))),
        BootstrapError::BearerRejected
    ));
    let start = bootstrap_with_bearer(client(), "b".to_string());
    let (second, _) = asked(start.step(config(26)));
    assert!(matches!(
        failed(second.step(Reply::Boot(Err(refusal(500))))),
        BootstrapError::Boot(_)
    ));
    let start = bootstrap_with_bearer(client(), "b".to_string());
    let (second, _) = asked(start.step(config(26)));
    let (third, _) = asked(second.step(boot()));
    assert!(matches!(
        failed(third.step(Reply::Me(Err(refusal(401))))),
        BootstrapError::BearerRejected
    ));
    let (second, _) = asked(bootstrap(client(), login("a", "b")).step(config(26)));
    let (third, _) = asked(second.step(logged_in("t")));
    let (fourth, _) = asked(third.step(boot()));
    assert!(matches!(
        failed(fourth.step(Reply::Me(Err(refusal(401))))),
        BootstrapError::Me(_)
    ));
}

#[test]
fn a_server_below_the_minimum_version_is_left() {
    let start = bootstrap(client(), login("vjt", "s3cr3t"));
    assert!(matches!(
        failed(start.step(config(0))),
        BootstrapError::IncompatibleServer(_)
    ));
    let start = bootstrap(client(), login("vjt", "s3cr3t"));
    assert!(matches!(
        failed(start.step(Reply::Config(Err(refusal(502))))),
        BootstrapError::Config(_)
    ));
}

#[test]
fn wrong_credentials_end_the_sequence() {
    let (second, _) = asked(bootstrap(client(), login("vjt", "wrong")).step(config(26)));
    assert!(matches!(
        failed(second.step(Reply::Login(Err(LoginError::InvalidCredentials)))),
        BootstrapError::Login(LoginError::InvalidCredentials)
    ));
}
