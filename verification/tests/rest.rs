use cordiale::json::Json;
use cordiale::profile::{
    AddIgnoreRequest, AliasesView, NetworkIdentityRequest, NotifyAddRequest, PerformUpdateRequest,
    VhostSelectionRequest,
};
use cordiale::rest::{DisplayPrefs, LoginRequest, MeResponse, SendMessageRequest};
use cordiale::text_map::TextMap;

#[test]
fn login_request_serializes_password_field_for_either_auth_method() {
    let request = LoginRequest {
        identifier: "vjt".to_string(),
        password: "either-a-password-or-a-client-token".to_string(),
    };

    let json = request.to_json().print();
    assert!(json.contains("\"identifier\":\"vjt\""));
    assert!(json.contains("\"password\":\"either-a-password-or-a-client-token\""));
}

#[test]
fn guest_login_request_sends_only_the_nickname() {
    let request = LoginRequest {
        identifier: "ada_guest".to_string(),
        password: String::new(),
    };

    let json = request.to_json().print();
    assert_eq!(json, r#"{"identifier":"ada_guest"}"#);
}

#[test]
fn send_message_request_plain_omits_relay_targets() {
    let request = SendMessageRequest::plain("hello there");
    let json = request.to_json().print();
    assert_eq!(json, r#"{"body":"hello there"}"#);
}

#[test]
fn send_message_request_includes_ctcp_target_when_set() {
    let request = SendMessageRequest {
        body: "\u{1}ACTION waves\u{1}".to_string(),
        ctcp_target: Some("vjt".to_string()),
        notice_target: None,
        statusmsg_target: None,
    };
    let json = request.to_json().print();
    assert!(json.contains("\"ctcp_target\":\"vjt\""));
    assert!(!json.contains("notice_target"));
}

#[test]
fn send_message_request_ctcp_frames_the_body_with_args() {
    let request = SendMessageRequest::ctcp("vjt", "PING", Some("123456"));
    assert_eq!(request.body, "\u{1}PING 123456\u{1}");
    assert_eq!(request.ctcp_target, Some("vjt".to_string()));
}

#[test]
fn send_message_request_ctcp_frames_the_body_without_args() {
    let request = SendMessageRequest::ctcp("vjt", "VERSION", None);
    assert_eq!(request.body, "\u{1}VERSION\u{1}");
}

#[test]
fn display_prefs_omits_unset_fields_when_serialized() {
    let prefs = DisplayPrefs {
        colored_nicklist: Some(false),
        ..DisplayPrefs::default()
    };
    let json = prefs.to_json().print();
    assert_eq!(json, r#"{"colored_nicklist":false}"#);
}

#[test]
fn network_identity_request_omits_unset_fields() {
    let request = NetworkIdentityRequest {
        nick: Some("vjt".to_string()),
        ..NetworkIdentityRequest::default()
    };
    let json = request.to_json().print();
    assert_eq!(json, r#"{"nick":"vjt"}"#);
}

#[test]
fn perform_update_request_omits_oper_pass_when_unset() {
    let request = PerformUpdateRequest {
        perform_list: Some("MODE $me +i".to_string()),
        oper_pass: None,
    };
    let json = request.to_json().print();
    assert_eq!(json, r#"{"perform_list":"MODE $me +i"}"#);
}

#[test]
fn list_requests_are_wrapped() {
    let selection = VhostSelectionRequest {
        selection: vec!["1.2.3.4".to_string()],
    };
    assert_eq!(selection.to_json().print(), r#"{"selection":["1.2.3.4"]}"#);
    let nicks = NotifyAddRequest {
        nicks: vec!["a".to_string(), "b".to_string()],
    };
    assert_eq!(nicks.to_json().print(), r#"{"nicks":["a","b"]}"#);
    let mask = AddIgnoreRequest {
        mask: "*!*@spam".to_string(),
    };
    assert_eq!(mask.to_json().print(), r#"{"mask":"*!*@spam"}"#);
    let mut aliases: TextMap<String> = TextMap::new();
    aliases.insert("hi", "PRIVMSG $1 :hello!".to_string());
    assert_eq!(
        AliasesView { aliases }.to_json().print(),
        r#"{"aliases":{"hi":"PRIVMSG $1 :hello!"}}"#
    );
}

fn me(kind: Option<&str>, id: Option<Json>, name: Option<&str>) -> MeResponse {
    MeResponse {
        read_cursors: Json::Null,
        unread_counts: Json::Null,
        badge_count: Json::Null,
        is_admin: false,
        kind: kind.map(str::to_string),
        id,
        name: name.map(str::to_string),
    }
}

#[test]
fn topics_are_labelled_by_the_subject() {
    assert_eq!(
        me(Some("user"), None, Some("vjt")).topic_label(),
        Some("vjt".to_string())
    );
    assert_eq!(
        me(Some("visitor"), Some(Json::Text("x1".to_string())), None).topic_label(),
        Some("visitor:x1".to_string())
    );
    assert_eq!(me(None, None, None).topic_label(), None);
}

#[test]
fn no_aliases_are_the_default() {
    assert!(AliasesView::default().aliases.is_empty());
}
