use cordiale::formatting::{parse_mirc_text, ColorSegment};

#[test]
fn parse_mirc_text_returns_a_single_plain_segment_for_uncoded_text() {
    let segments = parse_mirc_text("hello there");
    assert_eq!(
        segments,
        vec![ColorSegment {
            text: "hello there".to_string(),
            color: None,
            bold: false,
        }]
    );
}

#[test]
fn parse_mirc_text_splits_on_a_color_code() {
    let segments = parse_mirc_text("plain \u{03}4red\u{03}plain again");
    assert_eq!(segments.len(), 3);
    assert_eq!(segments[0].text, "plain ");
    assert_eq!(segments[0].color, None);
    assert_eq!(segments[1].text, "red");
    assert_eq!(segments[1].color, Some((255, 0, 0)));
    assert_eq!(segments[2].text, "plain again");
    assert_eq!(segments[2].color, None);
}

#[test]
fn parse_mirc_text_ignores_a_background_color() {
    let segments = parse_mirc_text("\u{03}4,8red on yellow");
    assert_eq!(segments.len(), 1);
    assert_eq!(segments[0].text, "red on yellow");
    assert_eq!(segments[0].color, Some((255, 0, 0)));
}

#[test]
fn parse_mirc_text_toggles_bold() {
    let segments = parse_mirc_text("normal \u{02}bold\u{02} normal");
    assert_eq!(segments.len(), 3);
    assert!(!segments[0].bold);
    assert!(segments[1].bold);
    assert!(!segments[2].bold);
}

#[test]
fn parse_mirc_text_reset_clears_color_and_bold() {
    let segments = parse_mirc_text("\u{03}4\u{02}bold red\u{0F}plain");
    assert_eq!(segments.len(), 2);
    assert_eq!(segments[0].color, Some((255, 0, 0)));
    assert!(segments[0].bold);
    assert_eq!(segments[1].text, "plain");
    assert_eq!(segments[1].color, None);
    assert!(!segments[1].bold);
}

#[test]
fn parse_mirc_text_strips_unsupported_control_codes() {
    let segments = parse_mirc_text("under\u{1F}line\u{1F} done");
    assert_eq!(segments.len(), 1);
    assert_eq!(segments[0].text, "underline done");
}

#[test]
fn parse_mirc_text_ignores_an_out_of_range_color_index() {
    let segments = parse_mirc_text("\u{03}99oops");
    assert_eq!(segments.len(), 1);
    assert_eq!(segments[0].color, None);
    assert_eq!(segments[0].text, "oops");
}

#[test]
fn runs_show_the_text_without_its_codes() {
    let raw = "a\u{02}b\u{03}4,12c\u{0F}\u{1D}d\u{03}15e";
    let segments = parse_mirc_text(raw);
    let shown: String = segments.iter().map(|s| s.text.as_str()).collect();
    assert_eq!(shown, "abcde");
    assert!(segments.iter().all(|s| !s.text.is_empty()));
    assert_eq!(segments[2].color, Some((255, 0, 0)));
    assert!(segments[2].bold);
    assert!(!segments[3].bold);
    assert!(parse_mirc_text("").is_empty());
}

#[test]
fn a_background_has_two_digits_at_most() {
    assert_eq!(
        parse_mirc_text("\u{03}4,123"),
        vec![ColorSegment {
            text: "3".to_string(),
            color: Some((255, 0, 0)),
            bold: false,
        }]
    );
}

#[test]
fn a_comma_without_digits_is_text() {
    let red = parse_mirc_text("\u{03}4, right");
    assert_eq!(red[0].text, ", right");
    assert_eq!(red[0].color, Some((255, 0, 0)));
    let plain = parse_mirc_text("\u{03},12");
    assert_eq!(plain[0].text, ",12");
    assert_eq!(plain[0].color, None);
}
