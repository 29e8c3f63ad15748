use cordiale::admin::{
    admin_event_line, admin_network_id, admin_network_label, admin_network_settings,
    admin_network_status, admin_server_label, admin_session_id, admin_session_is_alive,
    admin_session_label, admin_session_log_line, admin_user_id, admin_user_is_admin,
    admin_user_label, admin_visitor_id, admin_visitor_label, bytes_to_mib_text, parse_admin_cap,
};
use cordiale::json::{Json, Number};

fn json(text: &str) -> Json {
    Json::parse(text).expect("a document")
}

#[test]
fn admin_event_line_names_subject_and_actor() {
    let line = admin_event_line(&json(r##"{
        "kind": "user_created",
        "user_name": "ada",
        "actor_user_name": "vjt",
        "at": "2026-09-24T10:00:00Z"
    }"##));
    assert_eq!(line, "2026-09-24T10:00:00Z · user_created · ada · by vjt");
    let line = admin_event_line(&json(r##"{
        "kind": "server_added",
        "network_slug": "libera",
        "host": "irc.libera.chat",
        "port": 6697,
        "at": "t"
    }"##));
    assert_eq!(line, "t · server_added · libera · irc.libera.chat:6697");
}

#[test]
fn admin_session_label_prefers_subject_label() {
    let entry = json(r##"{"subject_label": "vjt", "subject_kind": "user"}"##);
    assert_eq!(admin_session_label(&entry), "vjt");
}

#[test]
fn admin_session_label_falls_back_to_kind_and_id() {
    let entry = json(r##"{"subject_kind": "visitor", "subject_id": "abc123"}"##);
    assert_eq!(admin_session_label(&entry), "visitor:abc123");
}

#[test]
fn admin_session_id_builds_the_documented_composite_key() {
    let entry = json(r##"{
        "subject_kind": "user",
        "subject_id": "abc-123",
        "network_id": 7
    }"##);
    assert_eq!(admin_session_id(&entry), Some("user:abc-123:7".to_string()));
}

#[test]
fn admin_session_id_is_none_when_a_field_is_missing() {
    let entry = json(r##"{"subject_kind": "user"}"##);
    assert_eq!(admin_session_id(&entry), None);
}

#[test]
fn admin_session_is_alive_is_false_for_null_live_state() {
    let entry = json(r##"{"live_state": null}"##);
    assert!(!admin_session_is_alive(&entry));
}

#[test]
fn admin_session_is_alive_reads_the_nested_flag() {
    let entry = json(r##"{"live_state": {"alive": true}}"##);
    assert!(admin_session_is_alive(&entry));
}

#[test]
fn admin_user_id_reads_an_integer_id_as_a_string() {
    let entry = json(r##"{"id": 42}"##);
    assert_eq!(admin_user_id(&entry), Some("42".to_string()));
}

#[test]
fn admin_network_status_formats_circuit_and_live_counts() {
    let entry = json(r##"{
        "circuit_state": {"state": "closed"},
        "live_counts": {"users": 3, "visitors": 1}
    }"##);
    assert_eq!(
        admin_network_status(&entry),
        " (closed, 3 user(s), 1 visitor(s))"
    );
}

#[test]
fn admin_network_id_reads_an_integer_id_as_a_string() {
    let entry = json(r##"{"id": 7}"##);
    assert_eq!(admin_network_id(&entry), Some("7".to_string()));
}

#[test]
fn admin_network_status_is_empty_without_circuit_data() {
    assert_eq!(admin_network_status(&json(r##"{}"##)), "");
}

#[test]
fn admin_visitor_label_includes_ip_when_present() {
    let entry = json(r##"{"id": "abc", "ip": "203.0.113.1"}"##);
    assert_eq!(admin_visitor_label(&entry), "abc (203.0.113.1)");
}

#[test]
fn admin_session_log_line_formats_event_and_network() {
    let entry = json(r##"{
        "at": "2026-09-19T10:00:00Z",
        "event": "join",
        "nick": "vjt",
        "network_slug": "libera"
    }"##);
    assert_eq!(
        admin_session_log_line(&entry),
        "2026-09-19T10:00:00Z · join · vjt@libera"
    );
}

#[test]
fn server_labels_mark_tls_and_off() {
    assert_eq!(
        admin_server_label(&json(
            r##"{"host": "irc.libera.chat", "port": 6697, "tls": true, "enabled": false}"##
        )),
        "irc.libera.chat:6697 · TLS · off"
    );
    assert_eq!(admin_server_label(&json("{}")), "?:0");
}

#[test]
fn sizes_read_in_mebibytes() {
    assert_eq!(bytes_to_mib_text(Some(10 * 1024 * 1024)), "10");
    assert_eq!(bytes_to_mib_text(Some(1536 * 1024)), "1.50");
    assert_eq!(bytes_to_mib_text(None), "");
    assert_eq!(bytes_to_mib_text(Some(0)), "0");
}

#[test]
fn sizes_are_rounded_as_doubles_are() {
    let mut samples: Vec<u64> = vec![1, 5242, 5243, 1048575, 1048577, u64::MAX, u64::MAX - 1];
    let mut state: u64 = 0x9e37_79b9_7f4a_7c15;
    for shift in 0..64u32 {
        for _ in 0..50 {
            state = state
                .wrapping_mul(6364136223846793005)
                .wrapping_add(1442695040888963407);
            samples.push(state >> shift);
        }
    }
    for halves in 0..400u64 {
        samples.push(halves * 1024 * 1024 / 200);
        samples.push(halves * 131072 + 65536);
    }
    for bytes in samples {
        let mib: u64 = 1024 * 1024;
        let expected = if bytes % mib == 0 {
            (bytes / mib).to_string()
        } else {
            format!("{:.2}", bytes as f64 / mib as f64)
        };
        assert_eq!(bytes_to_mib_text(Some(bytes)), expected, "{}", bytes);
    }
}

#[test]
fn caps_are_numbers_or_unlimited() {
    assert_eq!(parse_admin_cap("  "), Some(Json::Null));
    assert_eq!(
        parse_admin_cap(" 12 "),
        Some(Json::Number(Number::Unsigned(12)))
    );
    assert_eq!(
        parse_admin_cap("4294967295"),
        Some(Json::Number(Number::Unsigned(4294967295)))
    );
    assert_eq!(parse_admin_cap("4294967296"), None);
    assert_eq!(parse_admin_cap("-1"), None);
    assert_eq!(parse_admin_cap("lots"), None);
}

#[test]
fn entries_without_their_fields_have_placeholders() {
    let none = json("{}");
    assert_eq!(admin_session_label(&none), "session:?");
    assert_eq!(admin_user_label(&none), "(unknown)");
    assert!(!admin_user_is_admin(&none));
    assert_eq!(admin_user_id(&none), None);
    assert_eq!(admin_network_label(&none), "(unknown)");
    assert_eq!(admin_visitor_label(&none), "?");
    assert_eq!(admin_visitor_id(&none), None);
    assert_eq!(admin_session_log_line(&none), " · ? · ?");
    assert_eq!(admin_event_line(&none), " · ?");
    assert_eq!(
        admin_network_settings(&json(
            r##"{"visitor_enabled": true, "max_concurrent_visitor_sessions": 3, "max_per_ip": null}"##
        )),
        (true, "3".to_string(), String::new(), String::new())
    );
}
