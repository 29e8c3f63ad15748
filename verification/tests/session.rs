use cordiale::json::Json;
use cordiale::phoenix::PhoenixMessage;
use cordiale::session::{Action, Input, Outcome, Session, SessionCommand, SessionEvent};

fn sent(outcome: Outcome) -> PhoenixMessage {
    match outcome.action {
        Action::Send(message) => message,
        other => panic!("{:?}", other),
    }
}

fn join(topic: &str, presence: bool) -> Input {
    Input::Command(SessionCommand::JoinTopic {
        topic: topic.to_string(),
        presence,
    })
}

fn live(session: &mut Session) {
    assert!(matches!(session.step(Input::Connected).action, Action::Send(_)));
    assert!(matches!(
        session.step(Input::Sent(true)).action,
        Action::Listen
    ));
}

#[test]
fn the_user_topic_is_joined_first() {
    let mut session = Session::new("vjt");
    let message = sent(session.step(Input::Connected));
    assert_eq!(message.topic, "grappa:user:vjt");
    assert_eq!(message.event, "phx_join");
    assert_eq!(message.join_ref, message.message_ref);
    assert_eq!(message.join_ref.as_deref(), Some("1"));
}

#[test]
fn the_join_reply_tells_the_protocol_version() {
    let mut session = Session::new("vjt");
    live(&mut session);
    let reply = PhoenixMessage {
        join_ref: Some("1".to_string()),
        message_ref: Some("1".to_string()),
        topic: "grappa:user:vjt".to_string(),
        event: "phx_reply".to_string(),
        payload: Json::parse(r#"{"status": "ok", "response": {"protocol_version": 26}}"#)
            .expect("a document"),
    };
    let outcome = session.step(Input::Received(reply));
    assert!(outcome.events.iter().any(|event| matches!(
        event,
        SessionEvent::Connected {
            protocol_version: Some(26)
        }
    )));
    assert!(matches!(outcome.action, Action::Listen));
}

#[test]
fn heartbeats_go_out_on_their_own_topic() {
    let mut session = Session::new("vjt");
    live(&mut session);
    let beat = sent(session.step(Input::HeartbeatDue));
    assert_eq!(beat.topic, "phoenix");
    assert_eq!(beat.event, "heartbeat");
    assert_eq!(beat.join_ref, None);
    assert_eq!(beat.message_ref.as_deref(), Some("2"));
}

#[test]
fn commands_need_a_joined_topic() {
    let mut session = Session::new("vjt");
    live(&mut session);
    let command = |topic: &str| {
        Input::Command(SessionCommand::Send {
            topic: topic.to_string(),
            event: "links".to_string(),
            payload: Json::Null,
        })
    };
    assert!(matches!(
        session.step(command("grappa:network:x")).action,
        Action::Listen
    ));
    let message = sent(session.step(join("grappa:network:x", false)));
    assert_eq!(message.payload.print(), r#"{"presence":false}"#);
    session.step(Input::Sent(true));
    let message = sent(session.step(command("grappa:network:x")));
    assert_eq!(message.event, "links");
    assert_eq!(message.join_ref.as_deref(), Some("2"));
}

#[test]
fn every_topic_is_joined_again_after_a_disconnect() {
    let mut session = Session::new("vjt");
    live(&mut session);
    for topic in ["a", "b"] {
        session.step(join(topic, true));
        session.step(Input::Sent(true));
    }
    let lost = session.step(Input::ConnectionLost);
    assert!(lost
        .events
        .iter()
        .any(|event| matches!(event, SessionEvent::Disconnected)));
    assert!(matches!(lost.action, Action::Rest));
    let rested = session.step(Input::Rested);
    assert!(matches!(rested.action, Action::Connect));
    let first = sent(session.step(Input::Connected));
    assert_eq!(first.topic, "grappa:user:vjt");
    let mut topics = Vec::new();
    loop {
        let outcome = session.step(Input::Sent(true));
        match outcome.action {
            Action::Send(message) => topics.push(message.topic),
            Action::Listen => break,
            other => panic!("{:?}", other),
        }
    }
    assert_eq!(topics, vec!["a".to_string(), "b".to_string()]);
}

#[test]
fn a_failed_connection_is_tried_again() {
    let mut session = Session::new("vjt");
    assert!(matches!(
        session.step(Input::ConnectFailed).action,
        Action::Rest
    ));
    assert!(matches!(session.step(Input::Rested).action, Action::Connect));
}

#[test]
fn a_shutdown_ends_the_session() {
    let mut session = Session::new("vjt");
    live(&mut session);
    let over = session.step(Input::Command(SessionCommand::Shutdown));
    assert!(matches!(over.action, Action::Stop));
    let mut other = Session::new("vjt");
    live(&mut other);
    assert!(matches!(
        other.step(Input::CommandsClosed).action,
        Action::Stop
    ));
}

#[test]
fn an_input_out_of_turn_is_told() {
    let mut session = Session::new("vjt");
    assert!(session.can_take(&Input::Connected));
    assert!(session.can_take(&Input::ConnectFailed));
    assert!(!session.can_take(&Input::HeartbeatDue));
    live(&mut session);
    assert!(session.can_take(&Input::HeartbeatDue));
    assert!(session.can_take(&join("grappa:network:x", true)));
    assert!(!session.can_take(&Input::Sent(true)));
    session.step(Input::CommandsClosed);
    assert!(!session.can_take(&Input::Connected));
}

fn user_reply(message_ref: &str, payload: &str) -> Input {
    Input::Received(PhoenixMessage {
        join_ref: Some("1".to_string()),
        message_ref: Some(message_ref.to_string()),
        topic: "grappa:user:vjt".to_string(),
        event: "phx_reply".to_string(),
        payload: Json::parse(payload).expect("a document"),
    })
}

#[test]
fn only_a_granted_join_of_the_user_topic_connects() {
    let mut session = Session::new("vjt");
    live(&mut session);
    let refused = session.step(user_reply("1", r#"{"status": "error", "response": {}}"#));
    assert!(matches!(
        refused.events.as_slice(),
        [SessionEvent::Frame(_)]
    ));
    let command = session.step(user_reply("2", r#"{"status": "ok", "response": {}}"#));
    assert!(matches!(
        command.events.as_slice(),
        [SessionEvent::Frame(_)]
    ));
    let granted = session.step(user_reply("1", r#"{"status": "ok", "response": {}}"#));
    assert!(matches!(
        granted.events.as_slice(),
        [
            SessionEvent::Connected {
                protocol_version: None
            },
            SessionEvent::Frame(_)
        ]
    ));
}
