use cordiale::persistence::{log_text, redact_secrets, ServersFile, Settings, Theme};

#[test]
fn settings_default_has_no_language_and_light_theme() {
    let settings = Settings::default();
    assert_eq!(settings.language, None);
    assert_eq!(settings.theme, Theme::Light);
}

#[test]
fn servers_file_default_is_empty() {
    let servers_file = ServersFile::default();
    assert!(servers_file.servers.is_empty());
    assert!(servers_file.profiles.is_empty());
    assert_eq!(servers_file.selected_server_base_url, None);
}

#[test]
fn redact_secrets_masks_the_ws_bearer_subprotocol() {
    let message = "connect failed: base64url.bearer.phx.abcDEF123-_.xyz stuff";
    assert_eq!(
        redact_secrets(message),
        "connect failed: base64url.bearer.phx.[redacted] stuff"
    );
}

#[test]
fn redact_secrets_masks_an_authorization_header() {
    assert_eq!(
        redact_secrets("sent Authorization: Bearer abc123.def456"),
        "sent Authorization: Bearer [redacted]"
    );
}

#[test]
fn redact_secrets_masks_a_debug_derived_password_field() {
    let message = r#"LoginRequest { identifier: "vjt", password: "hunter2" }"#;
    assert_eq!(
        redact_secrets(message),
        r#"LoginRequest { identifier: "vjt", password: "[redacted]" }"#
    );
}

#[test]
fn redact_secrets_masks_a_compact_json_token_field() {
    assert_eq!(
        redact_secrets(r#"{"token":"abc123","subject":{}}"#),
        r#"{"token":"[redacted]","subject":{}}"#
    );
}

#[test]
fn redact_secrets_masks_a_query_string_secret() {
    assert_eq!(
        redact_secrets("GET /x?password=hunter2&next=1"),
        "GET /x?password=[redacted]&next=1"
    );
}

#[test]
fn redact_secrets_leaves_an_unrelated_message_untouched() {
    let message = "connect succeeded: server=https://irc.sindro.me";
    assert_eq!(redact_secrets(message), message);
}

#[test]
fn redact_secrets_masks_every_occurrence() {
    let message = "token=aaa retry token=bbb";
    assert_eq!(redact_secrets(message), "token=[redacted] retry token=[redacted]");
}

#[test]
fn log_lines_are_stamped_and_redacted() {
    assert_eq!(log_text(17, "first line"), "[17] first line\n");
    assert_eq!(
        log_text(0, "token=abc rest"),
        "[0] token=[redacted] rest\n"
    );
}

#[test]
fn the_value_of_a_secret_makes_no_difference() {
    assert_eq!(
        redact_secrets("x password=one&y"),
        redact_secrets("x password=another&y")
    );
}

#[test]
fn a_quoted_value_is_masked_to_its_end() {
    assert_eq!(
        redact_secrets(r#"password: "correct horse""#),
        r#"password: "[redacted]""#
    );
    assert_eq!(
        redact_secrets(r#"{"token":"a, b}","next":1}"#),
        r#"{"token":"[redacted]","next":1}"#
    );
    assert_eq!(
        redact_secrets(r#"secret = 'it is "mine"' ok"#),
        "secret = '[redacted]' ok"
    );
    assert_eq!(
        redact_secrets(r#"password: "a\" b\\" rest"#),
        r#"password: "[redacted]" rest"#
    );
    assert_eq!(
        redact_secrets(r#"password: "" rest"#),
        r#"password: "" [redacted]"#
    );
    assert_eq!(
        redact_secrets(r#"password: " : led by blanks" rest"#),
        r#"password: " : [redacted]" rest"#
    );
    assert_eq!(redact_secrets(r#"token=""x y"#), r#"token=""[redacted] y"#);
    assert_eq!(
        redact_secrets(r#"{"token":"","next":1}"#),
        r#"{"token":""[redacted],"next":1}"#
    );
    assert_eq!(
        redact_secrets(r#"password: "cut sho"#),
        r#"password: "[redacted]"#
    );
}

#[test]
fn masking_again_changes_nothing() {
    for message in [
        r#"password: "correct horse", token=a&b"#,
        "token token token",
        "Authorization: Bearer x secret",
        "bearer.phx.",
        r#""secret":'"#,
        "nothing here",
    ] {
        let once = redact_secrets(message);
        assert_eq!(redact_secrets(&once), once);
    }
}
