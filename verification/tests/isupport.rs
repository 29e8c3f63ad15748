use cordiale::isupport::{parse_isupport_changed, CaseMapping};
use cordiale::json::Json;

fn json(text: &str) -> Json {
    Json::parse(text).expect("a document")
}

/// Gives a member of an object another value.
fn set(payload: &mut Json, field: &str, value: Json) {
    remove(payload, field);
    match payload {
        Json::Object(members) => members.push((field.to_string(), value)),
        _ => panic!("no object"),
    }
}

fn remove(payload: &mut Json, field: &str) {
    match payload {
        Json::Object(members) => members.retain(|member| member.0 != field),
        _ => panic!("no object"),
    }
}

fn valid_payload() -> Json {
    json(r##"{
        "kind": "isupport_changed",
        "network_id": 7,
        "chanmodes_a": ["b"],
        "chanmodes_b": ["k"],
        "chanmodes_c": ["l"],
        "chanmodes_d": ["i", "m"],
        "list_modes_queryable": ["b"],
        "prefix": {"o": "@", "v": "+"},
        "prefix_order": ["o", "v"],
        "chantypes": ["#", "&"],
        "casemapping": "rfc1459",
        "maxlist": {"b": 100},
        "nicklen": 30,
        "channellen": null,
        "topiclen": 390,
        "frame_budget_base": 4096,
        "future_field": {"is_ignored": true}
    }"##)
}

#[test]
fn parses_complete_snapshot_and_tolerates_additive_fields() {
    let parsed = parse_isupport_changed(&valid_payload()).expect("valid snapshot");

    assert_eq!(parsed.network_id, 7);
    assert_eq!(parsed.state.casemapping, CaseMapping::Rfc1459);
    assert_eq!(parsed.state.prefix.get("o").map(String::as_str), Some("@"));
    assert_eq!(parsed.state.prefix_order, ["o", "v"]);
    assert_eq!(parsed.state.channellen, None);
    assert_eq!(parsed.state.maxlist.get("b"), Some(&100));
}

#[test]
fn accepts_all_casemapping_values_and_empty_maxlist() {
    for (wire, expected) in [
        ("ascii", CaseMapping::Ascii),
        ("rfc1459", CaseMapping::Rfc1459),
        ("rfc1459_strict", CaseMapping::Rfc1459Strict),
    ] {
        let mut payload = valid_payload();
        set(&mut payload, "casemapping", Json::Text(wire.to_string()));
        set(&mut payload, "maxlist", json(r##"{}"##));
        set(&mut payload, "nicklen", Json::Null);
        set(&mut payload, "topiclen", Json::Null);

        let parsed = parse_isupport_changed(&payload).expect("valid enum value");
        assert_eq!(parsed.state.casemapping, expected);
        assert!(parsed.state.maxlist.is_empty());
        assert_eq!(parsed.state.nicklen, None);
        assert_eq!(parsed.state.topiclen, None);
    }
}

#[test]
fn rejects_invalid_required_fields_and_non_positive_limits() {
    for (field, invalid) in [
        ("network_id", json(r##"0"##)),
        ("network_id", json(r##""7""##)),
        ("chanmodes_a", json(r##"["b", 1]"##)),
        ("prefix", json(r##"{"o": 1}"##)),
        ("casemapping", json(r##""unicode""##)),
        ("maxlist", json(r##"{"b": 0}"##)),
        ("nicklen", json(r##"0"##)),
        ("channellen", json(r##"-1"##)),
        ("topiclen", json(r##""390""##)),
        ("frame_budget_base", json(r##"0"##)),
    ] {
        let mut payload = valid_payload();
        set(&mut payload, field, invalid);
        assert_eq!(parse_isupport_changed(&payload), None, "field {field}");
    }

    let mut missing = valid_payload();
    remove(&mut missing, "topiclen");
    assert_eq!(parse_isupport_changed(&missing), None);
}
