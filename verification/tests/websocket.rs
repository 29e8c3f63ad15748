use base64::engine::general_purpose::STANDARD_NO_PAD;
use base64::Engine;

use cordiale::phoenix::CodecError;
use cordiale::websocket::{
    bearer_subprotocol, deliver, offered_subprotocols, Arrival, Delivery, PhoenixSocketError,
};

#[test]
fn bearer_subprotocol_base64_encodes_the_token_without_padding() {
    assert_eq!(
        bearer_subprotocol("abc123"),
        format!("base64url.bearer.phx.{}", STANDARD_NO_PAD.encode("abc123"))
    );
}

#[test]
fn bearer_subprotocol_round_trips_back_to_the_original_token() {
    let subprotocol = bearer_subprotocol("s3cr3t-t0ken/with+special=chars");
    let encoded = subprotocol
        .strip_prefix("base64url.bearer.phx.")
        .expect("prefix");
    let decoded = STANDARD_NO_PAD.decode(encoded).expect("valid base64");
    assert_eq!(decoded, b"s3cr3t-t0ken/with+special=chars");
}

#[test]
fn tokens_are_encoded_by_the_letter() {
    assert_eq!(bearer_subprotocol("a"), "base64url.bearer.phx.YQ");
    assert_eq!(bearer_subprotocol("ab"), "base64url.bearer.phx.YWI");
    assert_eq!(bearer_subprotocol("abc"), "base64url.bearer.phx.YWJj");
    assert_ne!(bearer_subprotocol("a"), bearer_subprotocol("b"));
    assert_eq!(
        offered_subprotocols("abc"),
        "phoenix, base64url.bearer.phx.YWJj"
    );
}

#[test]
fn only_text_frames_are_messages() {
    let frame = Arrival::Text(r#"[null,"1","t","e",{}]"#.to_string());
    assert!(matches!(deliver(frame), Delivery::Message(m) if m.event == "e"));
    assert!(matches!(deliver(Arrival::Closed), Delivery::Closed));
    assert!(matches!(deliver(Arrival::Other), Delivery::Again));
    assert!(matches!(
        deliver(Arrival::Failed("reset".to_string())),
        Delivery::Failed(PhoenixSocketError::Connect(_))
    ));
    match deliver(Arrival::Text("{}".to_string())) {
        Delivery::Failed(error) => assert_eq!(
            error.text(),
            "malformed message: invalid type: map, expected a tuple of size 5 at line 1 column 0"
        ),
        other => panic!("{:?}", other),
    }
}

#[test]
fn socket_errors_have_words() {
    assert_eq!(
        PhoenixSocketError::InvalidRequest("x".to_string()).text(),
        "invalid request: x"
    );
    assert_eq!(PhoenixSocketError::Connect("y".to_string()).text(), "y");
    assert_eq!(
        PhoenixSocketError::Codec(CodecError {
            reason: "z".to_string()
        })
        .text(),
        "malformed message: z"
    );
}
