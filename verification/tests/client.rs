use cordiale::client::{
    display_prefs_of, flag_setting, image_id_of, list_under, login_outcome, members_under,
    number_setting, setting_of, stored_cursor, text_setting, theme_backgrounds, Body, GrappaClient,
    GrappaClientError, LoginError, Method, Request, REQUEST_TIMEOUT, UPLOAD_TIMEOUT,
};
use cordiale::json::Json;
use cordiale::profile::{AliasesView, NetworkIdentityRequest, PerformUpdateRequest};
use cordiale::rest::{DisplayPrefs, LoginRequest, SendMessageRequest};
use cordiale::text_map::TextMap;

fn json(text: &str) -> Json {
    Json::parse(text).expect("a document")
}

fn client() -> GrappaClient {
    GrappaClient::new("https://g.example")
}

/// A request as one line: method, address, bearer and JSON body.
fn line(request: &Request) -> String {
    let method = match request.method {
        Method::Get => "GET",
        Method::Post => "POST",
        Method::Put => "PUT",
        Method::Patch => "PATCH",
        Method::Delete => "DELETE",
    };
    let address = request
        .url
        .strip_prefix("https://g.example")
        .expect("the server");
    let bearer = match &request.bearer {
        Some(bearer) => format!(" [{}]", bearer),
        None => String::new(),
    };
    let body = match &request.body {
        Body::Empty => String::new(),
        Body::Json(json) => format!(" {}", json.print()),
        Body::File(_) => " file".to_string(),
    };
    format!("{} {}{}{}", method, address, bearer, body)
}

fn plan(request: Result<Request, GrappaClientError>) -> String {
    line(&request.expect("an address"))
}

#[test]
fn the_first_calls_are_plain() {
    let client = client();
    assert_eq!(client.base_url(), "https://g.example");
    assert_eq!(line(&client.fetch_config()), "GET /api/config");
    assert_eq!(client.fetch_config().timeout, REQUEST_TIMEOUT);
    let login = LoginRequest {
        identifier: "vjt".to_string(),
        password: "s3cr3t".to_string(),
    };
    assert_eq!(
        line(&client.login(&login)),
        r#"POST /auth/login {"identifier":"vjt","password":"s3cr3t"}"#
    );
    assert_eq!(line(&client.logout("t")), "DELETE /auth/logout [t]");
    assert_eq!(line(&client.fetch_boot("t")), "GET /boot [t]");
    assert_eq!(line(&client.fetch_me("t")), "GET /me [t]");
    assert_eq!(line(&client.fetch_networks("t")), "GET /networks [t]");
}

#[test]
fn a_returning_guest_proves_the_nickname_with_its_bearer() {
    let login = LoginRequest {
        identifier: "guest_nick".to_string(),
        password: String::new(),
    };
    assert_eq!(
        line(&client().login_with_bearer(&login, Some("previous-bearer"))),
        r#"POST /auth/login [previous-bearer] {"identifier":"guest_nick"}"#
    );
}

#[test]
fn login_replies_are_told_apart() {
    assert!(login_outcome(200, None, None).is_ok());
    assert!(matches!(
        login_outcome(202, None, None),
        Err(LoginError::TwoFactorRequired)
    ));
    assert!(matches!(
        login_outcome(401, None, None),
        Err(LoginError::InvalidCredentials)
    ));
    assert!(matches!(
        login_outcome(429, None, None),
        Err(LoginError::TooManyAttempts)
    ));
    let body = json(r#"{"error": "anon_collision"}"#);
    match login_outcome(409, Some(" 42 "), Some(&body)) {
        Err(LoginError::Refused {
            status,
            code,
            retry_after,
        }) => {
            assert_eq!(status, 409);
            assert_eq!(code.as_deref(), Some("anon_collision"));
            assert_eq!(retry_after, Some(42));
        }
        other => panic!("{:?}", other),
    }
    match login_outcome(502, Some("soon"), None) {
        Err(LoginError::Refused {
            status,
            code,
            retry_after,
        }) => {
            assert_eq!(status, 502);
            assert_eq!(code, None);
            assert_eq!(retry_after, None);
        }
        other => panic!("{:?}", other),
    }
}

#[test]
fn errors_have_a_status_when_the_server_refused() {
    let refused = GrappaClientError::Http {
        status: Some(503),
        text: "unavailable".to_string(),
    };
    assert_eq!(refused.status(), Some(503));
    assert_eq!(GrappaClientError::InvalidUrl("x".to_string()).status(), None);
}

#[test]
fn names_are_encoded_as_path_segments() {
    let client = client();
    assert_eq!(
        plan(client.fetch_channels("t", "libera chat")),
        "GET /networks/libera%20chat/channels [t]"
    );
    assert_eq!(
        plan(client.send_message("t", "libera", "#rust", &SendMessageRequest::plain("hello there"))),
        r#"POST /networks/libera/channels/%23rust/messages [t] {"body":"hello there"}"#
    );
    let odd = client
        .part_channel("t", "a/b", "##x?y#z", None)
        .expect("an address");
    assert_eq!(
        odd.url,
        "https://g.example/networks/a%2Fb/channels/%23%23x%3Fy%23z"
    );
    assert!(!odd.url.contains('#'));
}

#[test]
fn message_pages_are_asked_for_by_cursor() {
    let client = client();
    assert_eq!(
        plan(client.fetch_messages("t", "libera", "#rust", None, None)),
        "GET /networks/libera/channels/%23rust/messages [t]"
    );
    assert_eq!(
        plan(client.fetch_messages("t", "libera", "vjt", Some(812), Some(200))),
        "GET /networks/libera/channels/vjt/messages?after=812&limit=200 [t]"
    );
    assert_eq!(
        plan(client.fetch_messages("t", "libera", "vjt", None, Some(5))),
        "GET /networks/libera/channels/vjt/messages?limit=5 [t]"
    );
    assert_eq!(
        plan(client.fetch_messages_before("t", "libera", "#rust", 120, 100)),
        "GET /networks/libera/channels/%23rust/messages?before=120&limit=100 [t]"
    );
}

#[test]
fn a_reason_to_part_goes_as_a_query() {
    let client = client();
    assert_eq!(
        plan(client.part_channel("t", "libera", "#rust", Some(""))),
        "DELETE /networks/libera/channels/%23rust [t]"
    );
    assert_eq!(
        plan(client.part_channel("t", "libera", "#rust", Some("away for now & later"))),
        "DELETE /networks/libera/channels/%23rust?reason=away+for+now+%26+later [t]"
    );
}

#[test]
fn addresses_that_cannot_be_are_refused() {
    match GrappaClient::new("no address").fetch_channels("t", "x") {
        Err(GrappaClientError::InvalidUrl(text)) => {
            assert_eq!(text, "relative URL without a base")
        }
        other => panic!("{:?}", other),
    }
    match GrappaClient::new("mailto:a@b.c").fetch_channels("t", "x") {
        Err(GrappaClientError::InvalidUrl(text)) => assert_eq!(text, "mailto:a@b.c"),
        other => panic!("{:?}", other),
    }
}

#[test]
fn long_names_make_long_addresses() {
    let long = "x".repeat(0x100_0001);
    let request = client().fetch_channels("t", &long).expect("a request");
    assert_eq!(
        request.url.len(),
        "https://g.example/networks//channels".len() + 0x100_0001
    );
}

#[test]
fn display_preferences_that_are_not_edited_are_sent_back() {
    let current = json(
        r#"{"display_prefs": {"time_format": "24h", "bold_mentions": false}, "persisted": true}"#,
    );
    let prefs = DisplayPrefs {
        bold_mentions: Some(true),
        ..DisplayPrefs::default()
    };
    assert_eq!(
        line(&client().update_display_prefs("abc123", &current, &prefs)),
        r#"PUT /me/settings/display-prefs [abc123] {"display_prefs":{"bold_mentions":true,"time_format":"24h"}}"#
    );
    assert_eq!(
        line(&client().update_display_prefs("t", &json("{}"), &prefs)),
        r#"PUT /me/settings/display-prefs [t] {"display_prefs":{"bold_mentions":true}}"#
    );
    assert_eq!(
        line(&client().fetch_display_prefs("t")),
        "GET /me/settings/display-prefs [t]"
    );
    assert_eq!(
        display_prefs_of(&current),
        &json(r#"{"time_format": "24h", "bold_mentions": false}"#)
    );
    let bare = json(r#"{"bold_mentions": true}"#);
    assert_eq!(display_prefs_of(&bare), &bare);
}

#[test]
fn personal_settings_have_keys_of_their_own() {
    let client = client();
    assert_eq!(
        line(&client.fetch_auto_away_debounce("t")),
        "GET /me/settings/auto-away-debounce-seconds [t]"
    );
    assert_eq!(
        line(&client.set_auto_away_debounce("t", Some(0))),
        r#"PUT /me/settings/auto-away-debounce-seconds [t] {"auto_away_debounce_seconds":0}"#
    );
    assert_eq!(
        line(&client.fetch_quit_part_reason("t")),
        "GET /me/settings/quit-part-reason [t]"
    );
    assert_eq!(
        line(&client.set_quit_part_reason("t", None)),
        r#"PUT /me/settings/quit-part-reason [t] {"quit_part_reason":null}"#
    );
    assert_eq!(
        line(&client.fetch_auto_away_reason("t")),
        "GET /me/settings/auto-away-reason [t]"
    );
    assert_eq!(
        line(&client.set_auto_away_reason("t", Some("out"))),
        r#"PUT /me/settings/auto-away-reason [t] {"auto_away_reason":"out"}"#
    );
    assert_eq!(
        line(&client.fetch_show_peer_profiles("t")),
        "GET /me/settings/show-peer-profiles [t]"
    );
    assert_eq!(
        line(&client.set_show_peer_profiles("t", true)),
        r#"PUT /me/settings/show-peer-profiles [t] {"show_peer_profiles":true}"#
    );
    assert_eq!(
        plan(client.fetch_dcc_auto_accept("t", "libera")),
        "GET /networks/libera/dcc-auto-accept [t]"
    );
    assert_eq!(
        plan(client.set_dcc_auto_accept("t", "libera", true)),
        r#"PUT /networks/libera/dcc-auto-accept [t] {"enabled":true}"#
    );
    assert_eq!(
        line(&client.fetch_setting("t", "some-key")),
        "GET /me/settings/some-key [t]"
    );
    assert_eq!(
        line(&client.put_setting("t", "some-key", "some_key", json("[1]"))),
        r#"PUT /me/settings/some-key [t] {"some_key":[1]}"#
    );
}

#[test]
fn replies_are_read_with_their_defaults() {
    let reply = json(r#"{"a": "x", "n": 0, "f": true, "o": {"k": 1}, "l": [1, 2]}"#);
    assert_eq!(text_setting(&reply, "a"), Some("x".to_string()));
    assert_eq!(text_setting(&reply, "n"), None);
    assert_eq!(number_setting(&reply, "n"), Some(0));
    assert_eq!(number_setting(&reply, "a"), None);
    assert!(flag_setting(&reply, "f"));
    assert!(!flag_setting(&reply, "a"));
    assert_eq!(setting_of(&reply, "o"), json(r#"{"k": 1}"#));
    assert_eq!(setting_of(&reply, "missing"), Json::Null);
    assert_eq!(list_under(&reply, "l").len(), 2);
    assert!(list_under(&reply, "o").is_empty());
    assert_eq!(members_under(&reply, "o").list.len(), 1);
    assert!(members_under(&reply, "l").list.is_empty());
}

#[test]
fn cursors_and_images_are_read_from_replies() {
    assert_eq!(stored_cursor(&json(r#"{"last_read_message_id": 42}"#), 7), 42);
    assert_eq!(stored_cursor(&json("{}"), 7), 7);
    assert_eq!(
        image_id_of(&json(r#"{"image_id": "i1"}"#)).expect("an id"),
        "i1"
    );
    match image_id_of(&json("{}")) {
        Err(GrappaClientError::InvalidUrl(text)) => assert_eq!(text, "no image_id in the reply"),
        other => panic!("{:?}", other),
    }
    assert_eq!(
        theme_backgrounds(&json(
            r#"{"backgrounds": [{"key": "a", "name": "A"}, {"name": "no key"}, {"key": "b"}]}"#
        )),
        vec![
            ("a".to_string(), "A".to_string()),
            ("b".to_string(), "b".to_string())
        ]
    );
}

#[test]
fn account_and_network_writes() {
    let client = client();
    assert_eq!(
        line(&client.create_admin_user("t", "ada", "pw-1", false)),
        r#"POST /admin/users [t] {"is_admin":false,"name":"ada","password":"pw-1"}"#
    );
    assert_eq!(
        plan(client.set_admin_user_password("t", "u-1", "pw-2")),
        r#"PUT /admin/users/u-1/password [t] {"password":"pw-2"}"#
    );
    assert_eq!(
        line(&client.create_admin_network("t", "oftc")),
        r#"POST /admin/networks [t] {"slug":"oftc"}"#
    );
    assert_eq!(
        plan(client.update_admin_network(
            "t",
            "libera",
            &json(r#"{"visitor_enabled": true, "max_per_ip": null}"#)
        )),
        r#"PATCH /admin/networks/libera [t] {"max_per_ip":null,"visitor_enabled":true}"#
    );
    assert_eq!(
        plan(client.delete_admin_network("t", "7")),
        "DELETE /admin/networks/7 [t]"
    );
    assert_eq!(
        plan(client.set_admin_user_is_admin("t", "42", true)),
        r#"PATCH /admin/users/42 [t] {"is_admin":true}"#
    );
    assert_eq!(
        plan(client.delete_admin_user("t", "42")),
        "DELETE /admin/users/42 [t]"
    );
    assert_eq!(
        plan(client.disconnect_admin_session("t", "user:vjt:1")),
        "POST /admin/sessions/user:vjt:1/disconnect [t]"
    );
    assert_eq!(
        plan(client.delete_admin_visitor("t", "abc")),
        "DELETE /admin/visitors/abc [t]"
    );
    assert_eq!(
        plan(client.reset_admin_circuit("t", "7")),
        "POST /admin/circuit/7/reset [t]"
    );
}

#[test]
fn servers_and_settings() {
    let client = client();
    assert_eq!(
        plan(client.fetch_admin_servers("t", "7")),
        "GET /admin/networks/7/servers [t]"
    );
    assert_eq!(
        plan(client.add_admin_server("t", "7", "irc2.example", 6667, false)),
        r#"POST /admin/networks/7/servers [t] {"host":"irc2.example","port":6667,"tls":false}"#
    );
    assert_eq!(
        plan(client.delete_admin_server("t", "7", "3")),
        "DELETE /admin/networks/7/servers/3 [t]"
    );
    assert_eq!(
        line(&client.fetch_admin_settings("t")),
        "GET /admin/settings [t]"
    );
    assert_eq!(
        line(&client.update_admin_settings("t", &json(r#"{"dcc": {"max_transfer_bytes": 2048}}"#))),
        r#"PUT /admin/settings [t] {"dcc":{"max_transfer_bytes":2048}}"#
    );
    assert_eq!(
        line(&client.fetch_admin_overview("t")),
        "GET /admin/overview [t]"
    );
    assert_eq!(
        line(&client.fetch_admin_sessions("t")),
        "GET /admin/sessions [t]"
    );
    assert_eq!(line(&client.fetch_admin_users("t")), "GET /admin/users [t]");
    assert_eq!(
        line(&client.fetch_admin_networks("t")),
        "GET /admin/networks [t]"
    );
    assert_eq!(
        line(&client.fetch_admin_visitors("t")),
        "GET /admin/visitors [t]"
    );
    assert_eq!(
        line(&client.fetch_admin_session_log("t", 50)),
        "GET /admin/session_log?limit=50 [t]"
    );
    assert_eq!(
        line(&client.run_admin_reaper("t")),
        "POST /admin/reaper/run [t]"
    );
}

#[test]
fn credentials_and_vhosts() {
    let client = client();
    assert_eq!(
        line(&client.fetch_admin_credentials("t")),
        "GET /admin/credentials [t]"
    );
    assert_eq!(
        line(&client.create_admin_credential("t", &json(r#"{"user_id": "u-1"}"#))),
        r#"POST /admin/credentials [t] {"user_id":"u-1"}"#
    );
    assert_eq!(
        plan(client.delete_admin_credential("t", "u-1", "7")),
        "DELETE /admin/credentials/u-1/7 [t]"
    );
    assert_eq!(line(&client.fetch_admin_vhosts("t")), "GET /admin/vhosts [t]");
    assert_eq!(
        line(&client.create_admin_vhost("t", "1.2.3.4", true)),
        r#"POST /admin/vhosts [t] {"address":"1.2.3.4","in_pool":true}"#
    );
    assert_eq!(
        plan(client.update_admin_vhost("t", "4", &json(r#"{"in_pool": false}"#))),
        r#"PATCH /admin/vhosts/4 [t] {"in_pool":false}"#
    );
    assert_eq!(
        plan(client.delete_admin_vhost("t", "4")),
        "DELETE /admin/vhosts/4 [t]"
    );
    assert_eq!(
        plan(client.grant_admin_vhost("t", "4", "user", "u-1")),
        r#"POST /admin/vhosts/4/grants [t] {"subject_id":"u-1","subject_type":"user"}"#
    );
    assert_eq!(
        plan(client.revoke_admin_vhost_grant("t", "9")),
        "DELETE /admin/vhosts/grants/9 [t]"
    );
    assert_eq!(
        plan(client.search_admin_subjects("t", "a b")),
        "GET /admin/vhosts/subject_search?q=a+b [t]"
    );
}

#[test]
fn profile_requests() {
    let client = client();
    let identity = NetworkIdentityRequest {
        nick: Some("vjt2".to_string()),
        ..NetworkIdentityRequest::default()
    };
    assert_eq!(
        plan(client.update_network_identity("t", "libera", &identity)),
        r#"PATCH /networks/libera/identity [t] {"nick":"vjt2"}"#
    );
    assert_eq!(
        line(&client.fetch_vhost_settings("t")),
        "GET /me/settings/vhost [t]"
    );
    assert_eq!(
        line(&client.update_vhost_selection("t", vec!["1.2.3.4".to_string()])),
        r#"PUT /me/settings/vhost [t] {"selection":["1.2.3.4"]}"#
    );
    assert_eq!(
        plan(client.fetch_ignores("t", "libera")),
        "GET /networks/libera/ignores [t]"
    );
    assert_eq!(
        plan(client.add_ignore("t", "libera", "*!*@spammer.example")),
        r#"POST /networks/libera/ignores [t] {"mask":"*!*@spammer.example"}"#
    );
    assert_eq!(
        plan(client.remove_ignore("t", "libera", "a!b@c")),
        "DELETE /networks/libera/ignores/a!b@c [t]"
    );
    assert_eq!(
        line(&client.fetch_aliases("t")),
        "GET /me/settings/aliases [t]"
    );
    let mut aliases: TextMap<String> = TextMap::new();
    aliases.insert("hi", "msg $1 hello".to_string());
    assert_eq!(
        line(&client.update_aliases("t", &AliasesView { aliases })),
        r#"PUT /me/settings/aliases [t] {"aliases":{"hi":"msg $1 hello"}}"#
    );
    assert_eq!(
        plan(client.fetch_perform("t", "libera")),
        "GET /networks/libera/perform [t]"
    );
    let perform = PerformUpdateRequest {
        perform_list: Some("MODE $me +i".to_string()),
        oper_pass: None,
    };
    assert_eq!(
        plan(client.update_perform("t", "libera", &perform)),
        r#"PUT /networks/libera/perform [t] {"perform_list":"MODE $me +i"}"#
    );
    assert_eq!(
        plan(client.add_notify_nicks("t", "libera", vec!["vjt".to_string()])),
        r#"POST /networks/libera/notify [t] {"nicks":["vjt"]}"#
    );
    assert_eq!(
        plan(client.remove_notify_nick("t", "libera", "vjt")),
        "DELETE /networks/libera/notify/vjt [t]"
    );
}

#[test]
fn directory_archive_and_offers() {
    let client = client();
    assert_eq!(
        plan(client.fetch_directory("t", "libera", "name", "rust", Some("c2"))),
        "GET /networks/libera/directory?sort=name&q=rust&cursor=c2 [t]"
    );
    assert_eq!(
        plan(client.fetch_directory("t", "libera", "users", "", None)),
        "GET /networks/libera/directory?sort=users [t]"
    );
    assert_eq!(
        plan(client.refresh_directory("t", "libera")),
        "POST /networks/libera/directory/refresh [t]"
    );
    assert_eq!(
        plan(client.accept_dcc_offer("t", "libera", "off-1")),
        "POST /networks/libera/dcc_offers/off-1/accept [t]"
    );
    assert_eq!(
        plan(client.refuse_dcc_offer("t", "libera", "off-2")),
        "DELETE /networks/libera/dcc_offers/off-2 [t]"
    );
    assert_eq!(
        plan(client.fetch_archive("t", "libera")),
        "GET /networks/libera/archive [t]"
    );
    assert_eq!(
        plan(client.delete_archive_target("t", "libera", "#old")),
        "DELETE /networks/libera/archive/%23old [t]"
    );
}

#[test]
fn notification_preferences_are_read_wrapped_and_written_bare() {
    let client = client();
    assert_eq!(
        line(&client.fetch_notification_prefs("t")),
        "GET /me/settings/notification-prefs [t]"
    );
    let reply =
        json(r#"{"notification_prefs": {"channel_mentions": true, "muted_targets": {}}}"#);
    let prefs = members_under(&reply, "notification_prefs");
    assert_eq!(
        line(&client.set_notification_prefs("t", prefs)),
        r#"PUT /me/settings/notification-prefs [t] {"channel_mentions":true,"muted_targets":{}}"#
    );
}

#[test]
fn files_are_fetched_from_the_server_alone() {
    let slashed = GrappaClient::new("https://g.example//");
    assert_eq!(
        plan(slashed.fetch_server_file("t", "/avatars/bob.png")),
        "GET /avatars/bob.png [t]"
    );
    assert_eq!(
        plan(client().fetch_server_file("t", "https://g.example/avatars/bob.png")),
        "GET /avatars/bob.png [t]"
    );
    for elsewhere in [
        "https://elsewhere.example/a.png",
        "https://g.example.evil/a.png",
        "https://g.example",
        "",
    ] {
        match client().fetch_server_file("t", elsewhere) {
            Err(GrappaClientError::InvalidUrl(text)) => assert_eq!(text, elsewhere),
            other => panic!("{:?}", other),
        }
    }
}

#[test]
fn theme_requests() {
    let client = client();
    assert_eq!(line(&client.fetch_themes("t")), "GET /themes [t]");
    assert_eq!(line(&client.fetch_my_themes("t")), "GET /me/themes [t]");
    assert_eq!(
        line(&client.save_theme("t", None, "n", &json("{}"))),
        r#"POST /themes [t] {"name":"n","payload":{}}"#
    );
    assert_eq!(
        line(&client.save_theme("t", Some(7), "n", &json("{}"))),
        r#"PATCH /themes/7 [t] {"name":"n","payload":{}}"#
    );
    assert_eq!(line(&client.delete_theme("t", -3)), "DELETE /themes/-3 [t]");
    assert_eq!(
        line(&client.set_theme_published("t", 7, true)),
        "POST /themes/7/publish [t]"
    );
    assert_eq!(
        line(&client.set_theme_published("t", 7, false)),
        "POST /themes/7/unpublish [t]"
    );
    assert_eq!(line(&client.copy_theme("t", 7)), "POST /themes/7/copy [t]");
    assert_eq!(
        line(&client.fetch_theme_backgrounds("t")),
        "GET /themes/backgrounds [t]"
    );
    assert_eq!(line(&client.fetch_active_theme("t")), "GET /me/theme [t]");
    assert_eq!(
        line(&client.set_active_theme("t", 7, None)),
        r#"PUT /me/theme [t] {"dark":null,"light":7}"#
    );
}

#[test]
fn slash_commands_send_their_bodies() {
    let client = client();
    assert_eq!(
        plan(client.join_channel("t", "libera", "#a,#b", Some("k"))),
        r##"POST /networks/libera/channels [t] {"key":"k","name":"#a,#b"}"##
    );
    assert_eq!(
        plan(client.join_channel("t", "libera", "#a", Some(""))),
        r##"POST /networks/libera/channels [t] {"name":"#a"}"##
    );
    assert_eq!(
        plan(client.set_topic("t", "libera", "#rust", "new topic")),
        r#"POST /networks/libera/channels/%23rust/topic [t] {"body":"new topic"}"#
    );
    assert_eq!(
        plan(client.change_nick("t", "libera", "neo")),
        r#"POST /networks/libera/nick [t] {"nick":"neo"}"#
    );
    assert_eq!(
        plan(client.set_connection_state("t", "libera", "parked", Some("bye"))),
        r#"PATCH /networks/libera [t] {"connection_state":"parked","reason":"bye"}"#
    );
    assert_eq!(
        plan(client.set_connection_state("t", "libera", "connected", None)),
        r#"PATCH /networks/libera [t] {"connection_state":"connected"}"#
    );
    assert_eq!(
        plan(client.set_connection_state("t", "libera", "connected", Some("bye"))),
        r#"PATCH /networks/libera [t] {"connection_state":"connected"}"#
    );
    assert_eq!(
        plan(client.set_read_cursor("t", "libera", "#rust", 42)),
        r#"POST /networks/libera/channels/%23rust/read-cursor [t] {"message_id":42}"#
    );
}

#[test]
fn uploads_carry_the_file_and_wait_longer() {
    let client = client();
    let request = client.upload_file("t", "cat.png", "image/png", vec![1, 2, 3], Some(3600));
    assert_eq!(line(&request), "POST /api/uploads [t] file");
    assert_eq!(request.timeout, UPLOAD_TIMEOUT);
    match request.body {
        Body::File(file) => {
            assert_eq!(file.filename, "cat.png");
            assert_eq!(file.mime, "image/png");
            assert_eq!(file.bytes, vec![1, 2, 3]);
            assert_eq!(file.expire, Some(3600));
        }
        other => panic!("{:?}", other),
    }
    let background = client.upload_theme_background("t", "a.png", "image/png", vec![9]);
    assert_eq!(line(&background), "POST /themes/background [t] file");
    assert_eq!(
        line(&client.fetch_upload_ttl("t")),
        "GET /me/settings/upload-ttl-seconds [t]"
    );
    assert_eq!(
        line(&client.set_upload_ttl("t", Some(3600))),
        r#"PUT /me/settings/upload-ttl-seconds [t] {"upload_ttl_seconds":3600}"#
    );
    assert_eq!(
        line(&client.fetch_upload_confirm("t")),
        "GET /me/settings/upload-confirm-enabled [t]"
    );
    assert_eq!(
        line(&client.set_upload_confirm("t", false)),
        r#"PUT /me/settings/upload-confirm-enabled [t] {"upload_confirm_enabled":false}"#
    );
}
