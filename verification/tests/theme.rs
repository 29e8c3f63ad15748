use cordiale::text_map::TextMap;
use cordiale::theme::{
    builtin_theme, builtin_themes, default_monospace_family, font_family_for, parse_hex, Platform,
    ThemePalette, BASE_COLOR_KEYS,
};

#[test]
fn parses_short_and_long_hex() {
    assert_eq!(parse_hex("#0a0a0a"), Some((10, 10, 10)));
    assert_eq!(parse_hex("#FFF"), Some((255, 255, 255)));
    assert_eq!(parse_hex("#abc"), Some((0xaa, 0xbb, 0xcc)));
    assert_eq!(parse_hex("0a0a0a"), None);
    assert_eq!(parse_hex("#12345"), None);
    assert_eq!(parse_hex("#gggggg"), None);
}

#[test]
fn every_builtin_theme_has_a_valid_palette() {
    for theme in &builtin_themes() {
        let palette = theme.palette();
        assert_eq!(palette.nicks.len(), 16, "{}", theme.name);
    }
    assert!(builtin_theme("irssi-dark")
        .expect("irssi")
        .palette()
        .is_dark());
    assert!(builtin_theme("sux").expect("sux").palette().is_dark());
    assert!(!builtin_theme("mirc-light")
        .expect("mirc")
        .palette()
        .is_dark());
    assert!(builtin_theme("nope").is_none());
}

#[test]
fn from_colors_needs_all_twenty_seven_keys() {
    let theme = builtin_theme("sux").expect("sux");
    let mut colors: TextMap<String> = TextMap::new();
    for (key, hex) in BASE_COLOR_KEYS.iter().zip(theme.base) {
        colors.insert(key, hex.to_string());
    }
    for (index, hex) in theme.nicks.iter().enumerate() {
        colors.insert(&format!("nick_{index}"), hex.to_string());
    }
    let palette = ThemePalette::from_colors(&colors).expect("complete");
    assert_eq!(palette.accent, (0x00, 0xd7, 0x5f));
    assert_eq!(palette.nick_color(17), palette.nicks[1]);

    colors.remove("nick_15");
    assert_eq!(ThemePalette::from_colors(&colors), None);
}

#[test]
fn darkness_is_a_matter_of_the_background() {
    let mut palette = builtin_theme("sux").expect("sux").palette();
    for r in (0..256u32).step_by(5) {
        for g in (0..256u32).step_by(5) {
            for b in (0..256u32).step_by(5) {
                palette.bg = (r as u8, g as u8, b as u8);
                let luminance = 299 * r + 587 * g + 114 * b;
                assert_eq!(palette.is_dark(), luminance < 128_000);
            }
        }
    }
    palette.bg = (0, 0, 0);
    assert!(palette.is_dark());
    palette.bg = (255, 255, 255);
    assert!(!palette.is_dark());
}

#[test]
fn fonts_fall_back_to_the_platforms_own() {
    assert_eq!(
        font_family_for("mono-default", Platform::Windows),
        default_monospace_family(Platform::Windows)
    );
    assert_eq!(default_monospace_family(Platform::Other), "DejaVu Sans Mono");
}

#[test]
fn signs_are_no_digits_of_a_color() {
    assert_eq!(parse_hex("#+1+2+3"), None);
    assert_eq!(parse_hex("#+12345"), None);
    assert_eq!(parse_hex("#+++"), None);
}

#[test]
fn theme_names_are_found() {
    for theme in builtin_themes() {
        assert_eq!(builtin_theme(theme.name).expect("a theme").name, theme.name);
    }
}
