use cordiale::json::Json;
use cordiale::phoenix::{CodecError, PhoenixMessage, RefCounter, HEARTBEAT_EVENT, HEARTBEAT_TOPIC};

fn json(text: &str) -> Json {
    Json::parse(text).expect("a document")
}

#[test]
fn message_round_trips_as_a_five_element_array() {
    let message = PhoenixMessage {
        join_ref: Some("1".to_string()),
        message_ref: Some("2".to_string()),
        topic: "grappa:user:vjt".to_string(),
        event: "phx_join".to_string(),
        payload: json(r##"{}"##),
    };

    let json = message.to_json();
    assert_eq!(json, r#"["1","2","grappa:user:vjt","phx_join",{}]"#);

    let decoded = PhoenixMessage::from_json(&json).expect("deserialize");
    assert_eq!(decoded, message);
}

#[test]
fn message_round_trips_with_null_refs() {
    let message = PhoenixMessage {
        join_ref: None,
        message_ref: None,
        topic: HEARTBEAT_TOPIC.to_string(),
        event: HEARTBEAT_EVENT.to_string(),
        payload: json(r##"{}"##),
    };

    let json = message.to_json();
    assert_eq!(json, r#"[null,null,"phoenix","heartbeat",{}]"#);

    let decoded = PhoenixMessage::from_json(&json).expect("deserialize");
    assert_eq!(decoded, message);
}

#[test]
fn message_decodes_an_unrecognized_payload_shape_without_error() {
    // Additive/unknown fields inside `payload` must never fail parsing.
    let json = r#"[
        null, "3", "grappa:user:vjt", "session_identity_changed",
        {"identified": true, "future_field": 42}
    ]"#;
    let decoded = PhoenixMessage::from_json(json).expect("deserialize");
    assert_eq!(decoded.event, "session_identity_changed");
    assert_eq!(
        decoded.payload.get("identified").and_then(|v| v.as_bool()),
        Some(true)
    );
}

#[test]
fn ref_counter_increments_from_one() {
    let mut counter = RefCounter::new();
    assert_eq!(counter.next_ref(), "1");
    assert_eq!(counter.next_ref(), "2");
    assert_eq!(counter.next_ref(), "3");
}

#[test]
fn frames_that_are_no_frames_are_refused() {
    for (text, reason) in [
        ("not json", "expected ident at line 1 column 2"),
        (
            "{}",
            "invalid type: map, expected a tuple of size 5 at line 1 column 0",
        ),
        (
            "[]",
            "invalid length 0, expected a tuple of size 5 at line 1 column 2",
        ),
        (
            "[null,null,\"t\",\"e\"]",
            "invalid length 4, expected a tuple of size 5 at line 1 column 19",
        ),
        (
            "[1,null,\"t\",\"e\",{}]",
            "invalid type: integer `1`, expected a string at line 1 column 2",
        ),
        (
            "[null,null,\"t\",\"e\",{},1]",
            "trailing characters at line 1 column 23",
        ),
    ] {
        let error = CodecError {
            reason: reason.to_string(),
        };
        assert_eq!(PhoenixMessage::from_json(text), Err(error), "{}", text);
    }
}

#[test]
fn refs_are_never_used_twice() {
    let mut counter = RefCounter::new();
    let first: Vec<String> = (0..20).map(|_| counter.next_ref()).collect();
    let mut unique = first.clone();
    unique.sort();
    unique.dedup();
    assert_eq!(unique.len(), first.len());
}
