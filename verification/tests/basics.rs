use cordiale::address::build_address;
use cordiale::bytes::{byte_count, char_len};
use cordiale::decimal::{decimal_text, read_unsigned, signed_decimal_text};
use cordiale::json::{Json, Number};
use cordiale::order::comes_before;
use cordiale::split::{joined, position_of, split_text, words_of};
use cordiale::text::{chars_of, is_whitespace, lowercase, string_of, trimmed, uppercase};
use cordiale::text_map::TextMap;

#[test]
fn white_space_is_the_same_for_every_character() {
    for n in 0..=0x10ffffu32 {
        if let Some(c) = char::from_u32(n) {
            assert_eq!(is_whitespace(c), c.is_whitespace(), "{:x}", n);
        }
    }
}

#[test]
fn texts_are_trimmed_and_changed_like_ascii() {
    for text in ["", "  ", " a b ", "\u{3000}x\u{a0}", "\u{df}\u{c4}Ab"] {
        let chars = chars_of(text);
        let trimmed_text = string_of(trimmed(&chars));
        assert_eq!(trimmed_text, text.trim());
        let again = chars_of(&trimmed_text);
        assert_eq!(string_of(trimmed(&again)), trimmed_text);
        assert_eq!(string_of(&lowercase(&chars)), text.to_ascii_lowercase());
        assert_eq!(string_of(&uppercase(&chars)), text.to_ascii_uppercase());
    }
}

#[test]
fn numbers_are_written_and_read() {
    for n in [0, 7, 10, 1234567890, u64::MAX] {
        assert_eq!(decimal_text(n), n.to_string());
        assert_eq!(read_unsigned(&chars_of(&n.to_string()), u64::MAX), Some(n));
    }
    for n in [i64::MIN, -1, 0, i64::MAX] {
        assert_eq!(signed_decimal_text(n), n.to_string());
    }
    for text in ["", "+", "-1", "1x", "18446744073709551616", "+7", "007"] {
        assert_eq!(
            read_unsigned(&chars_of(text), u64::MAX),
            text.parse::<u64>().ok(),
            "{}",
            text
        );
    }
}

#[test]
fn texts_are_ordered_like_strings() {
    let texts = ["", "a", "ab", "b", "\u{e9}", "\u{ffff}", "\u{10000}", "Z"];
    for a in texts {
        for b in texts {
            assert_eq!(comes_before(a, b), a < b, "{} {}", a, b);
        }
    }
}

#[test]
fn texts_are_taken_apart_and_joined() {
    let chars = chars_of(" a  b\tc ");
    assert_eq!(words_of(&chars), vec!["a", "b", "c"]);
    assert_eq!(split_text(&chars_of("a,,b"), ','), vec!["a", "", "b"]);
    assert_eq!(joined(&words_of(&chars), "-"), "a-b-c");
    assert_eq!(position_of(&chars, "b\t"), Some(4));
    assert_eq!(position_of(&chars, "x"), None);
}

#[test]
fn bytes_are_counted_like_utf8() {
    let text = "a\u{e9}\u{20ac}\u{1f3b5}";
    let chars = chars_of(text);
    assert_eq!(byte_count(&chars, 0, chars.len()), text.len());
    for c in text.chars() {
        assert_eq!(char_len(c), c.len_utf8());
    }
}

#[test]
fn documents_are_parsed_and_printed() {
    let text = r#"{"b":[1,-2,1.5,null,true,"x"],"a":{}}"#;
    let json = Json::parse(text).expect("a document");
    assert_eq!(json.print(), r#"{"a":{},"b":[1,-2,1.5,null,true,"x"]}"#);
    assert_eq!(json.get("missing"), None);
    match json.get("b") {
        Some(Json::Array(items)) => {
            assert_eq!(items[0], Json::Number(Number::Unsigned(1)));
            assert_eq!(items[1], Json::Number(Number::Negative(-2)));
            assert_eq!(items[1].as_i64(), Some(-2));
            assert_eq!(items[1].as_u64(), None);
            assert_eq!(items[2].as_i64(), None);
            assert_eq!(items[5].as_str(), Some("x"));
        }
        other => panic!("{:?}", other),
    }
    assert!(Json::parse("{").is_err());
    assert!(Json::parse(&"[".repeat(200)).is_err());
    assert_eq!(Json::parse("18446744073709551615").map(|n| n.as_u64()), Ok(Some(u64::MAX)));
}

#[test]
fn maps_hold_one_value_for_a_name() {
    let mut map: TextMap<u8> = TextMap::new();
    assert!(map.is_empty());
    map.insert("a", 1);
    map.insert("b", 2);
    map.insert("a", 3);
    assert_eq!(map.get("a"), Some(&3));
    assert_eq!(map.get("b"), Some(&2));
    assert_eq!(map.get("c"), None);
    assert_eq!(map.entries.len(), 2);
    map.remove("a");
    map.remove("c");
    assert_eq!(map.get("a"), None);
    assert_eq!(map.entries.len(), 1);
}

#[test]
fn addresses_are_built_of_their_parts() {
    let none: Vec<(&str, String)> = Vec::new();
    assert_eq!(
        build_address("https://a.b", &vec!["x y", "#z"], &none),
        Ok("https://a.b/x%20y/%23z".to_string())
    );
    assert_eq!(
        build_address("https://a.b/c", &vec!["d"], &vec![("q", "1 #".to_string())]),
        Ok("https://a.b/c/d?q=1+%23".to_string())
    );
    assert_eq!(
        build_address("data:x", &vec!["d"], &none),
        Err("data:x".to_string())
    );
}
