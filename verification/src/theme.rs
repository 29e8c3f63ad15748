//! Color themes: Grappa's closed palette of colors and built-in copies of its
//! irssi-derived gallery, used when the server offers none.

use vstd::prelude::*;

use crate::decimal::{decimal, push_decimal};
use crate::split::same_text;
use crate::text::chars_of;
use crate::text_map::{place_of, TextMap};

verus! {

/// An sRGB color.
pub type Rgb = (u8, u8, u8);

/// The base color keys of a Grappa theme, in wire order.
pub const BASE_COLOR_KEYS: [&'static str; 11] = [
    "bg",
    "bg_alt",
    "fg",
    "accent",
    "muted",
    "border",
    "mention",
    "mode_op",
    "mode_halfop",
    "mode_voiced",
    "mode_plain",
];

/// The base keys are the listed ones.
pub proof fn base_keys_are_listed(i: int)
    requires
        0 <= i < 11,
    ensures
        BASE_COLOR_KEYS@[i]@ == base_key(i),
{
}

/// The base color keys of a Grappa theme, in wire order.
pub open spec fn base_key(i: int) -> Seq<char> {
    if i == 0 {
        "bg"@
    } else if i == 1 {
        "bg_alt"@
    } else if i == 2 {
        "fg"@
    } else if i == 3 {
        "accent"@
    } else if i == 4 {
        "muted"@
    } else if i == 5 {
        "border"@
    } else if i == 6 {
        "mention"@
    } else if i == 7 {
        "mode_op"@
    } else if i == 8 {
        "mode_halfop"@
    } else if i == 9 {
        "mode_voiced"@
    } else {
        "mode_plain"@
    }
}

/// The key of a nick color.
pub open spec fn nick_key(i: nat) -> Seq<char> {
    "nick_"@ + decimal(i)
}

/// A theme's full palette: the eleven base colors plus sixteen nick colors.
#[derive(Clone, Copy, Debug, PartialEq, Eq)]
pub struct ThemePalette {
    pub bg: Rgb,
    pub bg_alt: Rgb,
    pub fg: Rgb,
    pub accent: Rgb,
    pub muted: Rgb,
    pub border: Rgb,
    pub mention: Rgb,
    pub mode_op: Rgb,
    pub mode_halfop: Rgb,
    pub mode_voiced: Rgb,
    pub mode_plain: Rgb,
    pub nicks: [Rgb; 16],
}

/// The base colors of a palette, in the order of their keys.
pub open spec fn base_color(palette: ThemePalette, i: int) -> Rgb {
    if i == 0 {
        palette.bg
    } else if i == 1 {
        palette.bg_alt
    } else if i == 2 {
        palette.fg
    } else if i == 3 {
        palette.accent
    } else if i == 4 {
        palette.muted
    } else if i == 5 {
        palette.border
    } else if i == 6 {
        palette.mention
    } else if i == 7 {
        palette.mode_op
    } else if i == 8 {
        palette.mode_halfop
    } else if i == 9 {
        palette.mode_voiced
    } else {
        palette.mode_plain
    }
}

/// The value of a hexadecimal digit, in either letter case.
pub open spec fn hex_digit(c: char) -> Option<int> {
    if '0' <= c <= '9' {
        Some(c as int - '0' as int)
    } else if 'a' <= c <= 'f' {
        Some(c as int - 'a' as int + 10)
    } else if 'A' <= c <= 'F' {
        Some(c as int - 'A' as int + 10)
    } else {
        None
    }
}

/// The number in two hexadecimal digits.
pub open spec fn hex_pair(a: char, b: char) -> Option<u8> {
    match (hex_digit(a), hex_digit(b)) {
        (Some(x), Some(y)) => Some((16 * x + y) as u8),
        _ => None,
    }
}

/// The color of three pairs of digits.
pub open spec fn hex_triple(a: Option<u8>, b: Option<u8>, c: Option<u8>) -> Option<Rgb> {
    match (a, b, c) {
        (Some(r), Some(g), Some(b)) => Some((r, g, b)),
        _ => None,
    }
}

/// The color in `#rgb`, each digit taken twice, or in `#rrggbb`.
pub open spec fn hex_color(text: Seq<char>) -> Option<Rgb> {
    if text.len() == 4 && text[0] == '#' {
        hex_triple(
            hex_pair(text[1], text[1]),
            hex_pair(text[2], text[2]),
            hex_pair(text[3], text[3]),
        )
    } else if text.len() == 7 && text[0] == '#' {
        hex_triple(
            hex_pair(text[1], text[2]),
            hex_pair(text[3], text[4]),
            hex_pair(text[5], text[6]),
        )
    } else {
        None
    }
}

fn digit_value(c: char) -> (value: Option<u8>)
    ensures
        match value {
            Some(value) => hex_digit(c) == Some(value as int) && value < 16,
            None => hex_digit(c) is None,
        },
{
    if '0' <= c && c <= '9' {
        Some(c as u8 - 48u8)
    } else if 'a' <= c && c <= 'f' {
        Some(c as u8 - 87u8)
    } else if 'A' <= c && c <= 'F' {
        Some(c as u8 - 55u8)
    } else {
        None
    }
}

fn channel(a: char, b: char) -> (value: Option<u8>)
    ensures
        value == hex_pair(a, b),
{
    match (digit_value(a), digit_value(b)) {
        (Some(x), Some(y)) => Some(16 * x + y),
        _ => None,
    }
}

/// Parses `#rgb` or `#rrggbb` (case-insensitive).
pub fn parse_hex(value: &str) -> (color: Option<Rgb>)
    ensures
        color == hex_color(value@),
{
    let text = chars_of(value);
    if text.len() == 0 || text[0] != '#' {
        return None;
    }
    let (r, g, b) = if text.len() == 4 {
        (channel(text[1], text[1]), channel(text[2], text[2]), channel(text[3], text[3]))
    } else if text.len() == 7 {
        (channel(text[1], text[2]), channel(text[3], text[4]), channel(text[5], text[6]))
    } else {
        return None;
    };
    match (r, g, b) {
        (Some(r), Some(g), Some(b)) => Some((r, g, b)),
        _ => None,
    }
}

/// The color that a map of colors gives a key.
pub open spec fn color_at(colors: Seq<(String, String)>, key: Seq<char>) -> Option<Rgb> {
    let at = place_of(colors, key);
    if at < colors.len() {
        hex_color(colors[at].1@)
    } else {
        None
    }
}

/// Whether a map gives every key of a palette a color.
pub open spec fn is_complete(colors: Seq<(String, String)>) -> bool {
    &&& forall|i: int| 0 <= i < 11 ==> color_at(colors, #[trigger] base_key(i)) is Some
    &&& forall|i: nat| i < 16 ==> color_at(colors, #[trigger] nick_key(i)) is Some
}

/// Whether a palette has the colors that a map gives.
pub open spec fn takes_colors(palette: ThemePalette, colors: Seq<(String, String)>) -> bool {
    &&& forall|i: int|
        0 <= i < 11 ==> color_at(colors, #[trigger] base_key(i)) == Some(base_color(palette, i))
    &&& forall|i: nat|
        i < 16 ==> color_at(colors, #[trigger] nick_key(i)) == Some(palette.nicks@[i as int])
}

fn find_color(colors: &TextMap<String>, key: &str) -> (color: Option<Rgb>)
    ensures
        color == color_at(colors.entries@, key@),
{
    match colors.get(key) {
        Some(value) => parse_hex(value.as_str()),
        None => None,
    }
}

/// The luminance of a color, in thousandths.
pub open spec fn luminance(color: Rgb) -> int {
    299 * color.0 + 587 * color.1 + 114 * color.2
}

impl ThemePalette {
    /// Reads a Grappa theme's `colors` map. Every one of the keys must be
    /// present and a valid `#rgb`/`#rrggbb` color, as the server's own
    /// sanitizer guarantees; otherwise the theme is not usable.
    #[verifier::rlimit(30)]
    pub fn from_colors(colors: &TextMap<String>) -> (palette: Option<Self>)
        ensures
            match palette {
                Some(palette) => takes_colors(palette, colors.entries@),
                None => !is_complete(colors.entries@),
            },
    {
        let mut nicks: [Rgb; 16] = [(0u8, 0u8, 0u8);16];
        let mut i: usize = 0;
        while i < 16
            invariant
                i <= 16,
                nicks@.len() == 16,
                forall|j: nat|
                    j < i ==> color_at(colors.entries@, #[trigger] nick_key(j)) == Some(
                        nicks@[j as int],
                    ),
            decreases 16 - i,
        {
            let mut key = String::new();
            key.append("nick_");
            push_decimal(&mut key, i as u64);
            assert(key@ =~= nick_key(i as nat));
            match find_color(colors, key.as_str()) {
                Some(color) => {
                    nicks[i] = color;
                },
                None => {
                    assert(color_at(colors.entries@, nick_key(i as nat)) is None);
                    return None;
                },
            }
            i += 1;
        }
        let bg = find_color(colors, "bg");
        let bg_alt = find_color(colors, "bg_alt");
        let fg = find_color(colors, "fg");
        let accent = find_color(colors, "accent");
        let muted = find_color(colors, "muted");
        let border = find_color(colors, "border");
        let mention = find_color(colors, "mention");
        let mode_op = find_color(colors, "mode_op");
        let mode_halfop = find_color(colors, "mode_halfop");
        let mode_voiced = find_color(colors, "mode_voiced");
        let mode_plain = find_color(colors, "mode_plain");
        assert(bg == color_at(colors.entries@, base_key(0)));
        assert(bg_alt == color_at(colors.entries@, base_key(1)));
        assert(fg == color_at(colors.entries@, base_key(2)));
        assert(accent == color_at(colors.entries@, base_key(3)));
        assert(muted == color_at(colors.entries@, base_key(4)));
        assert(border == color_at(colors.entries@, base_key(5)));
        assert(mention == color_at(colors.entries@, base_key(6)));
        assert(mode_op == color_at(colors.entries@, base_key(7)));
        assert(mode_halfop == color_at(colors.entries@, base_key(8)));
        assert(mode_voiced == color_at(colors.entries@, base_key(9)));
        assert(mode_plain == color_at(colors.entries@, base_key(10)));
        Some(
            ThemePalette {
                bg: bg?,
                bg_alt: bg_alt?,
                fg: fg?,
                accent: accent?,
                muted: muted?,
                border: border?,
                mention: mention?,
                mode_op: mode_op?,
                mode_halfop: mode_halfop?,
                mode_voiced: mode_voiced?,
                mode_plain: mode_plain?,
                nicks,
            },
        )
    }

    /// Whether the background is dark (perceived luminance below half).
    pub fn is_dark(&self) -> (dark: bool)
        ensures
            dark == (luminance(self.bg) < 128_000),
    {
        let (r, g, b) = self.bg;
        299 * r as u32 + 587 * g as u32 + 114 * b as u32 <= 127_999
    }

    /// The nick color for a stable hash of the nick.
    pub fn nick_color(&self, hash: u32) -> (color: Rgb)
        ensures
            color == self.nicks@[(hash % 16) as int],
    {
        self.nicks[(hash % 16) as usize]
    }
}

/// A theme is read from a map exactly when the map is complete.
pub proof fn complete_maps_are_palettes(palette: ThemePalette, colors: Seq<(String, String)>)
    requires
        takes_colors(palette, colors),
    ensures
        is_complete(colors),
{
}

/// A color that is brighter in no channel than a dark one is dark.
pub proof fn darker_is_dark(a: Rgb, b: Rgb)
    requires
        a.0 <= b.0,
        a.1 <= b.1,
        a.2 <= b.2,
        luminance(b) < 128_000,
    ensures
        luminance(a) < 128_000,
{
}

/// A built-in theme: copies of Grappa's own gallery entries, so the same
/// irssi-style color sets exist when the server has no theme endpoints.
#[derive(Debug, Clone, Copy)]
pub struct BuiltinTheme {
    pub name: &'static str,
    pub base: [&'static str; 11],
    pub nicks: [&'static str; 16],
}

/// The colors of a built-in theme, as they are written.
pub struct ThemeColors {
    pub base: Seq<Seq<char>>,
    pub nicks: Seq<Seq<char>>,
}

impl View for BuiltinTheme {
    type V = ThemeColors;

    open spec fn view(&self) -> ThemeColors {
        ThemeColors {
            base: Seq::new(11, |i: int| self.base@[i]@),
            nicks: Seq::new(16, |i: int| self.nicks@[i]@),
        }
    }
}

/// Whether every color of a built-in theme is one.
pub open spec fn is_valid(theme: ThemeColors) -> bool {
    &&& forall|i: int| 0 <= i < 11 ==> hex_color(#[trigger] theme.base[i]) is Some
    &&& forall|i: int| 0 <= i < 16 ==> hex_color(#[trigger] theme.nicks[i]) is Some
}

/// Whether a palette has the colors of a built-in theme.
pub open spec fn shows_theme(palette: ThemePalette, theme: ThemeColors) -> bool {
    &&& forall|i: int|
        0 <= i < 11 ==> hex_color(#[trigger] theme.base[i]) == Some(base_color(palette, i))
    &&& forall|i: int|
        0 <= i < 16 ==> hex_color(#[trigger] theme.nicks[i]) == Some(palette.nicks@[i])
}

fn base_hex(theme: &BuiltinTheme, i: usize) -> (color: Rgb)
    requires
        i < 11,
        is_valid(theme@),
    ensures
        hex_color(theme@.base[i as int]) == Some(color),
{
    assert(theme@.base[i as int] == theme.base@[i as int]@);
    match parse_hex(theme.base[i]) {
        Some(color) => color,
        None => (0, 0, 0),
    }
}

impl BuiltinTheme {
    #[verifier::rlimit(30)]
    pub fn palette(&self) -> (palette: ThemePalette)
        requires
            is_valid(self@),
        ensures
            shows_theme(palette, self@),
    {
        let mut nicks: [Rgb; 16] = [(0u8, 0u8, 0u8);16];
        let mut i: usize = 0;
        while i < 16
            invariant
                i <= 16,
                nicks@.len() == 16,
                is_valid(self@),
                forall|j: int|
                    0 <= j < i ==> hex_color(#[trigger] self@.nicks[j]) == Some(nicks@[j]),
            decreases 16 - i,
        {
            assert(self@.nicks[i as int] == self.nicks@[i as int]@);
            if let Some(color) = parse_hex(self.nicks[i]) {
                nicks[i] = color;
            }
            i += 1;
        }
        ThemePalette {
            bg: base_hex(self, 0),
            bg_alt: base_hex(self, 1),
            fg: base_hex(self, 2),
            accent: base_hex(self, 3),
            muted: base_hex(self, 4),
            border: base_hex(self, 5),
            mention: base_hex(self, 6),
            mode_op: base_hex(self, 7),
            mode_halfop: base_hex(self, 8),
            mode_voiced: base_hex(self, 9),
            mode_plain: base_hex(self, 10),
            nicks,
        }
    }
}

/// The nick colors that the dark themes share.
pub open spec fn warm_nicks() -> Seq<Seq<char>> {
    seq![
        "#ff8c8c"@, "#ffb060"@, "#ffd060"@, "#d8e060"@,
        "#90d870"@, "#60d8a8"@, "#60d8d8"@, "#60b8e8"@,
        "#88a8ff"@, "#b890ff"@, "#e088e0"@, "#ff90c0"@,
        "#e0a888"@, "#c0c0c0"@, "#a0e8b8"@, "#f0d090"@,
    ]
}

/// How many built-in themes there are.
pub const THEME_COUNT: usize = 5;

/// The names of the built-in themes, irssi first.
pub open spec fn theme_name(i: int) -> Seq<char> {
    if i == 0 {
        "irssi-dark"@
    } else if i == 1 {
        "sux"@
    } else if i == 2 {
        "mirc-light"@
    } else if i == 3 {
        "solarized-dark"@
    } else {
        "solarized-light"@
    }
}

/// The base colors of the built-in themes.
pub open spec fn theme_base(i: int) -> Seq<Seq<char>> {
    if i == 0 {
        seq![
            "#0a0a0a"@, "#111111"@, "#e0e0e0"@, "#5fafd7"@,
            "#707070"@, "#1f1f1f"@, "#2a1f00"@, "#d77070"@,
            "#d7af5f"@, "#70d770"@, "#e0e0e0"@,
        ]
    } else if i == 1 {
        seq![
            "#000000"@, "#0e0e0e"@, "#e5e5e5"@, "#00d75f"@,
            "#767676"@, "#1c1c1c"@, "#2b2b00"@, "#ff5f5f"@,
            "#d7af5f"@, "#5fd75f"@, "#e5e5e5"@,
        ]
    } else if i == 2 {
        seq![
            "#ffffff"@, "#f5f5f5"@, "#000000"@, "#00007f"@,
            "#7f7f7f"@, "#c0c0c0"@, "#fff8c0"@, "#7f0000"@,
            "#7f5f00"@, "#007f00"@, "#000000"@,
        ]
    } else if i == 3 {
        seq![
            "#002b36"@, "#073642"@, "#839496"@, "#268bd2"@,
            "#586e75"@, "#094f5c"@, "#164450"@, "#dc322f"@,
            "#b58900"@, "#859900"@, "#839496"@,
        ]
    } else {
        seq![
            "#fdf6e3"@, "#eee8d5"@, "#657b83"@, "#268bd2"@,
            "#93a1a1"@, "#ddd6c1"@, "#fbefc8"@, "#dc322f"@,
            "#b58900"@, "#859900"@, "#657b83"@,
        ]
    }
}

/// The nick colors of the built-in themes.
pub open spec fn theme_nicks(i: int) -> Seq<Seq<char>> {
    if i == 0 || i == 1 {
        warm_nicks()
    } else if i == 2 {
        seq![
            "#c03030"@, "#c06020"@, "#a07000"@, "#607000"@,
            "#207020"@, "#008060"@, "#007080"@, "#005090"@,
            "#2030a0"@, "#5020a0"@, "#800070"@, "#a02060"@,
            "#804020"@, "#404040"@, "#206040"@, "#806020"@,
        ]
    } else if i == 3 {
        seq![
            "#dc322f"@, "#cb4b16"@, "#b58900"@, "#859900"@,
            "#2aa198"@, "#268bd2"@, "#6c71c4"@, "#d33682"@,
            "#e07a70"@, "#d79a4b"@, "#b0c060"@, "#6fc0a8"@,
            "#74b0e0"@, "#9a8fd0"@, "#d777b0"@, "#93a1a1"@,
        ]
    } else {
        seq![
            "#dc322f"@, "#cb4b16"@, "#b58900"@, "#859900"@,
            "#2aa198"@, "#268bd2"@, "#6c71c4"@, "#d33682"@,
            "#a03030"@, "#a0601a"@, "#7a8500"@, "#1a8a80"@,
            "#1a7ac0"@, "#5a50b0"@, "#b02a70"@, "#586e75"@,
        ]
    }
}

/// The colors of the built-in themes.
pub open spec fn theme_at(i: int) -> ThemeColors {
    ThemeColors { base: theme_base(i), nicks: theme_nicks(i) }
}

proof fn lemma_warm_nicks()
    ensures
        forall|i: int| 0 <= i < 16 ==> hex_color(#[trigger] warm_nicks()[i]) is Some,
{
    assert(hex_color(warm_nicks()[0]) is Some) by {
        reveal_strlit("#ff8c8c");
    }
    assert(hex_color(warm_nicks()[1]) is Some) by {
        reveal_strlit("#ffb060");
    }
    assert(hex_color(warm_nicks()[2]) is Some) by {
        reveal_strlit("#ffd060");
    }
    assert(hex_color(warm_nicks()[3]) is Some) by {
        reveal_strlit("#d8e060");
    }
    assert(hex_color(warm_nicks()[4]) is Some) by {
        reveal_strlit("#90d870");
    }
    assert(hex_color(warm_nicks()[5]) is Some) by {
        reveal_strlit("#60d8a8");
    }
    assert(hex_color(warm_nicks()[6]) is Some) by {
        reveal_strlit("#60d8d8");
    }
    assert(hex_color(warm_nicks()[7]) is Some) by {
        reveal_strlit("#60b8e8");
    }
    assert(hex_color(warm_nicks()[8]) is Some) by {
        reveal_strlit("#88a8ff");
    }
    assert(hex_color(warm_nicks()[9]) is Some) by {
        reveal_strlit("#b890ff");
    }
    assert(hex_color(warm_nicks()[10]) is Some) by {
        reveal_strlit("#e088e0");
    }
    assert(hex_color(warm_nicks()[11]) is Some) by {
        reveal_strlit("#ff90c0");
    }
    assert(hex_color(warm_nicks()[12]) is Some) by {
        reveal_strlit("#e0a888");
    }
    assert(hex_color(warm_nicks()[13]) is Some) by {
        reveal_strlit("#c0c0c0");
    }
    assert(hex_color(warm_nicks()[14]) is Some) by {
        reveal_strlit("#a0e8b8");
    }
    assert(hex_color(warm_nicks()[15]) is Some) by {
        reveal_strlit("#f0d090");
    }
}

proof fn lemma_base_0()
    ensures
        forall|i: int| 0 <= i < 11 ==> hex_color(#[trigger] theme_base(0)[i]) is Some,
{
    assert(hex_color(theme_base(0)[0]) is Some) by {
        reveal_strlit("#0a0a0a");
    }
    assert(hex_color(theme_base(0)[1]) is Some) by {
        reveal_strlit("#111111");
    }
    assert(hex_color(theme_base(0)[2]) is Some) by {
        reveal_strlit("#e0e0e0");
    }
    assert(hex_color(theme_base(0)[3]) is Some) by {
        reveal_strlit("#5fafd7");
    }
    assert(hex_color(theme_base(0)[4]) is Some) by {
        reveal_strlit("#707070");
    }
    assert(hex_color(theme_base(0)[5]) is Some) by {
        reveal_strlit("#1f1f1f");
    }
    assert(hex_color(theme_base(0)[6]) is Some) by {
        reveal_strlit("#2a1f00");
    }
    assert(hex_color(theme_base(0)[7]) is Some) by {
        reveal_strlit("#d77070");
    }
    assert(hex_color(theme_base(0)[8]) is Some) by {
        reveal_strlit("#d7af5f");
    }
    assert(hex_color(theme_base(0)[9]) is Some) by {
        reveal_strlit("#70d770");
    }
    assert(hex_color(theme_base(0)[10]) is Some) by {
        reveal_strlit("#e0e0e0");
    }
}

proof fn lemma_base_1()
    ensures
        forall|i: int| 0 <= i < 11 ==> hex_color(#[trigger] theme_base(1)[i]) is Some,
{
    assert(hex_color(theme_base(1)[0]) is Some) by {
        reveal_strlit("#000000");
    }
    assert(hex_color(theme_base(1)[1]) is Some) by {
        reveal_strlit("#0e0e0e");
    }
    assert(hex_color(theme_base(1)[2]) is Some) by {
        reveal_strlit("#e5e5e5");
    }
    assert(hex_color(theme_base(1)[3]) is Some) by {
        reveal_strlit("#00d75f");
    }
    assert(hex_color(theme_base(1)[4]) is Some) by {
        reveal_strlit("#767676");
    }
    assert(hex_color(theme_base(1)[5]) is Some) by {
        reveal_strlit("#1c1c1c");
    }
    assert(hex_color(theme_base(1)[6]) is Some) by {
        reveal_strlit("#2b2b00");
    }
    assert(hex_color(theme_base(1)[7]) is Some) by {
        reveal_strlit("#ff5f5f");
    }
    assert(hex_color(theme_base(1)[8]) is Some) by {
        reveal_strlit("#d7af5f");
    }
    assert(hex_color(theme_base(1)[9]) is Some) by {
        reveal_strlit("#5fd75f");
    }
    assert(hex_color(theme_base(1)[10]) is Some) by {
        reveal_strlit("#e5e5e5");
    }
}

proof fn lemma_base_2()
    ensures
        forall|i: int| 0 <= i < 11 ==> hex_color(#[trigger] theme_base(2)[i]) is Some,
{
    assert(hex_color(theme_base(2)[0]) is Some) by {
        reveal_strlit("#ffffff");
    }
    assert(hex_color(theme_base(2)[1]) is Some) by {
        reveal_strlit("#f5f5f5");
    }
    assert(hex_color(theme_base(2)[2]) is Some) by {
        reveal_strlit("#000000");
    }
    assert(hex_color(theme_base(2)[3]) is Some) by {
        reveal_strlit("#00007f");
    }
    assert(hex_color(theme_base(2)[4]) is Some) by {
        reveal_strlit("#7f7f7f");
    }
    assert(hex_color(theme_base(2)[5]) is Some) by {
        reveal_strlit("#c0c0c0");
    }
    assert(hex_color(theme_base(2)[6]) is Some) by {
        reveal_strlit("#fff8c0");
    }
    assert(hex_color(theme_base(2)[7]) is Some) by {
        reveal_strlit("#7f0000");
    }
    assert(hex_color(theme_base(2)[8]) is Some) by {
        reveal_strlit("#7f5f00");
    }
    assert(hex_color(theme_base(2)[9]) is Some) by {
        reveal_strlit("#007f00");
    }
    assert(hex_color(theme_base(2)[10]) is Some) by {
        reveal_strlit("#000000");
    }
}

proof fn lemma_nicks_2()
    ensures
        forall|i: int| 0 <= i < 16 ==> hex_color(#[trigger] theme_nicks(2)[i]) is Some,
{
    assert(hex_color(theme_nicks(2)[0]) is Some) by {
        reveal_strlit("#c03030");
    }
    assert(hex_color(theme_nicks(2)[1]) is Some) by {
        reveal_strlit("#c06020");
    }
    assert(hex_color(theme_nicks(2)[2]) is Some) by {
        reveal_strlit("#a07000");
    }
    assert(hex_color(theme_nicks(2)[3]) is Some) by {
        reveal_strlit("#607000");
    }
    assert(hex_color(theme_nicks(2)[4]) is Some) by {
        reveal_strlit("#207020");
    }
    assert(hex_color(theme_nicks(2)[5]) is Some) by {
        reveal_strlit("#008060");
    }
    assert(hex_color(theme_nicks(2)[6]) is Some) by {
        reveal_strlit("#007080");
    }
    assert(hex_color(theme_nicks(2)[7]) is Some) by {
        reveal_strlit("#005090");
    }
    assert(hex_color(theme_nicks(2)[8]) is Some) by {
        reveal_strlit("#2030a0");
    }
    assert(hex_color(theme_nicks(2)[9]) is Some) by {
        reveal_strlit("#5020a0");
    }
    assert(hex_color(theme_nicks(2)[10]) is Some) by {
        reveal_strlit("#800070");
    }
    assert(hex_color(theme_nicks(2)[11]) is Some) by {
        reveal_strlit("#a02060");
    }
    assert(hex_color(theme_nicks(2)[12]) is Some) by {
        reveal_strlit("#804020");
    }
    assert(hex_color(theme_nicks(2)[13]) is Some) by {
        reveal_strlit("#404040");
    }
    assert(hex_color(theme_nicks(2)[14]) is Some) by {
        reveal_strlit("#206040");
    }
    assert(hex_color(theme_nicks(2)[15]) is Some) by {
        reveal_strlit("#806020");
    }
}

proof fn lemma_base_3()
    ensures
        forall|i: int| 0 <= i < 11 ==> hex_color(#[trigger] theme_base(3)[i]) is Some,
{
    assert(hex_color(theme_base(3)[0]) is Some) by {
        reveal_strlit("#002b36");
    }
    assert(hex_color(theme_base(3)[1]) is Some) by {
        reveal_strlit("#073642");
    }
    assert(hex_color(theme_base(3)[2]) is Some) by {
        reveal_strlit("#839496");
    }
    assert(hex_color(theme_base(3)[3]) is Some) by {
        reveal_strlit("#268bd2");
    }
    assert(hex_color(theme_base(3)[4]) is Some) by {
        reveal_strlit("#586e75");
    }
    assert(hex_color(theme_base(3)[5]) is Some) by {
        reveal_strlit("#094f5c");
    }
    assert(hex_color(theme_base(3)[6]) is Some) by {
        reveal_strlit("#164450");
    }
    assert(hex_color(theme_base(3)[7]) is Some) by {
        reveal_strlit("#dc322f");
    }
    assert(hex_color(theme_base(3)[8]) is Some) by {
        reveal_strlit("#b58900");
    }
    assert(hex_color(theme_base(3)[9]) is Some) by {
        reveal_strlit("#859900");
    }
    assert(hex_color(theme_base(3)[10]) is Some) by {
        reveal_strlit("#839496");
    }
}

proof fn lemma_nicks_3()
    ensures
        forall|i: int| 0 <= i < 16 ==> hex_color(#[trigger] theme_nicks(3)[i]) is Some,
{
    assert(hex_color(theme_nicks(3)[0]) is Some) by {
        reveal_strlit("#dc322f");
    }
    assert(hex_color(theme_nicks(3)[1]) is Some) by {
        reveal_strlit("#cb4b16");
    }
    assert(hex_color(theme_nicks(3)[2]) is Some) by {
        reveal_strlit("#b58900");
    }
    assert(hex_color(theme_nicks(3)[3]) is Some) by {
        reveal_strlit("#859900");
    }
    assert(hex_color(theme_nicks(3)[4]) is Some) by {
        reveal_strlit("#2aa198");
    }
    assert(hex_color(theme_nicks(3)[5]) is Some) by {
        reveal_strlit("#268bd2");
    }
    assert(hex_color(theme_nicks(3)[6]) is Some) by {
        reveal_strlit("#6c71c4");
    }
    assert(hex_color(theme_nicks(3)[7]) is Some) by {
        reveal_strlit("#d33682");
    }
    assert(hex_color(theme_nicks(3)[8]) is Some) by {
        reveal_strlit("#e07a70");
    }
    assert(hex_color(theme_nicks(3)[9]) is Some) by {
        reveal_strlit("#d79a4b");
    }
    assert(hex_color(theme_nicks(3)[10]) is Some) by {
        reveal_strlit("#b0c060");
    }
    assert(hex_color(theme_nicks(3)[11]) is Some) by {
        reveal_strlit("#6fc0a8");
    }
    assert(hex_color(theme_nicks(3)[12]) is Some) by {
        reveal_strlit("#74b0e0");
    }
    assert(hex_color(theme_nicks(3)[13]) is Some) by {
        reveal_strlit("#9a8fd0");
    }
    assert(hex_color(theme_nicks(3)[14]) is Some) by {
        reveal_strlit("#d777b0");
    }
    assert(hex_color(theme_nicks(3)[15]) is Some) by {
        reveal_strlit("#93a1a1");
    }
}

proof fn lemma_base_4()
    ensures
        forall|i: int| 0 <= i < 11 ==> hex_color(#[trigger] theme_base(4)[i]) is Some,
{
    assert(hex_color(theme_base(4)[0]) is Some) by {
        reveal_strlit("#fdf6e3");
    }
    assert(hex_color(theme_base(4)[1]) is Some) by {
        reveal_strlit("#eee8d5");
    }
    assert(hex_color(theme_base(4)[2]) is Some) by {
        reveal_strlit("#657b83");
    }
    assert(hex_color(theme_base(4)[3]) is Some) by {
        reveal_strlit("#268bd2");
    }
    assert(hex_color(theme_base(4)[4]) is Some) by {
        reveal_strlit("#93a1a1");
    }
    assert(hex_color(theme_base(4)[5]) is Some) by {
        reveal_strlit("#ddd6c1");
    }
    assert(hex_color(theme_base(4)[6]) is Some) by {
        reveal_strlit("#fbefc8");
    }
    assert(hex_color(theme_base(4)[7]) is Some) by {
        reveal_strlit("#dc322f");
    }
    assert(hex_color(theme_base(4)[8]) is Some) by {
        reveal_strlit("#b58900");
    }
    assert(hex_color(theme_base(4)[9]) is Some) by {
        reveal_strlit("#859900");
    }
    assert(hex_color(theme_base(4)[10]) is Some) by {
        reveal_strlit("#657b83");
    }
}

proof fn lemma_nicks_4()
    ensures
        forall|i: int| 0 <= i < 16 ==> hex_color(#[trigger] theme_nicks(4)[i]) is Some,
{
    assert(hex_color(theme_nicks(4)[0]) is Some) by {
        reveal_strlit("#dc322f");
    }
    assert(hex_color(theme_nicks(4)[1]) is Some) by {
        reveal_strlit("#cb4b16");
    }
    assert(hex_color(theme_nicks(4)[2]) is Some) by {
        reveal_strlit("#b58900");
    }
    assert(hex_color(theme_nicks(4)[3]) is Some) by {
        reveal_strlit("#859900");
    }
    assert(hex_color(theme_nicks(4)[4]) is Some) by {
        reveal_strlit("#2aa198");
    }
    assert(hex_color(theme_nicks(4)[5]) is Some) by {
        reveal_strlit("#268bd2");
    }
    assert(hex_color(theme_nicks(4)[6]) is Some) by {
        reveal_strlit("#6c71c4");
    }
    assert(hex_color(theme_nicks(4)[7]) is Some) by {
        reveal_strlit("#d33682");
    }
    assert(hex_color(theme_nicks(4)[8]) is Some) by {
        reveal_strlit("#a03030");
    }
    assert(hex_color(theme_nicks(4)[9]) is Some) by {
        reveal_strlit("#a0601a");
    }
    assert(hex_color(theme_nicks(4)[10]) is Some) by {
        reveal_strlit("#7a8500");
    }
    assert(hex_color(theme_nicks(4)[11]) is Some) by {
        reveal_strlit("#1a8a80");
    }
    assert(hex_color(theme_nicks(4)[12]) is Some) by {
        reveal_strlit("#1a7ac0");
    }
    assert(hex_color(theme_nicks(4)[13]) is Some) by {
        reveal_strlit("#5a50b0");
    }
    assert(hex_color(theme_nicks(4)[14]) is Some) by {
        reveal_strlit("#b02a70");
    }
    assert(hex_color(theme_nicks(4)[15]) is Some) by {
        reveal_strlit("#586e75");
    }
}

/// Every built-in theme has a valid palette.
pub proof fn builtin_themes_are_valid(i: int)
    requires
        0 <= i < THEME_COUNT,
    ensures
        is_valid(theme_at(i)),
{
    lemma_base_0();
    lemma_base_1();
    lemma_base_2();
    lemma_base_3();
    lemma_base_4();
    lemma_warm_nicks();
    lemma_nicks_2();
    lemma_nicks_3();
    lemma_nicks_4();
}

/// Grappa's built-in gallery subset kept locally, irssi first.
#[verifier::rlimit(60)]
pub fn builtin_themes() -> (themes: Vec<BuiltinTheme>)
    ensures
        themes@.len() == THEME_COUNT,
        forall|i: int|
            0 <= i < THEME_COUNT ==> (#[trigger] themes@[i]).name@ == theme_name(i) && themes@[i]@
                == theme_at(i) && is_valid(themes@[i]@),
{
    let mut themes: Vec<BuiltinTheme> = Vec::new();
    let theme = BuiltinTheme {
        name: "irssi-dark",
        base: [
            "#0a0a0a", "#111111", "#e0e0e0", "#5fafd7",
            "#707070", "#1f1f1f", "#2a1f00", "#d77070",
            "#d7af5f", "#70d770", "#e0e0e0",
        ],
        nicks: [
            "#ff8c8c", "#ffb060", "#ffd060", "#d8e060",
            "#90d870", "#60d8a8", "#60d8d8", "#60b8e8",
            "#88a8ff", "#b890ff", "#e088e0", "#ff90c0",
            "#e0a888", "#c0c0c0", "#a0e8b8", "#f0d090",
        ],
    };
    assert(theme@.base =~= theme_at(0).base);
    assert(theme@.nicks =~= theme_at(0).nicks);
    themes.push(theme);
    let theme = BuiltinTheme {
        name: "sux",
        base: [
            "#000000", "#0e0e0e", "#e5e5e5", "#00d75f",
            "#767676", "#1c1c1c", "#2b2b00", "#ff5f5f",
            "#d7af5f", "#5fd75f", "#e5e5e5",
        ],
        nicks: [
            "#ff8c8c", "#ffb060", "#ffd060", "#d8e060",
            "#90d870", "#60d8a8", "#60d8d8", "#60b8e8",
            "#88a8ff", "#b890ff", "#e088e0", "#ff90c0",
            "#e0a888", "#c0c0c0", "#a0e8b8", "#f0d090",
        ],
    };
    assert(theme@.base =~= theme_at(1).base);
    assert(theme@.nicks =~= theme_at(1).nicks);
    themes.push(theme);
    let theme = BuiltinTheme {
        name: "mirc-light",
        base: [
            "#ffffff", "#f5f5f5", "#000000", "#00007f",
            "#7f7f7f", "#c0c0c0", "#fff8c0", "#7f0000",
            "#7f5f00", "#007f00", "#000000",
        ],
        nicks: [
            "#c03030", "#c06020", "#a07000", "#607000",
            "#207020", "#008060", "#007080", "#005090",
            "#2030a0", "#5020a0", "#800070", "#a02060",
            "#804020", "#404040", "#206040", "#806020",
        ],
    };
    assert(theme@.base =~= theme_at(2).base);
    assert(theme@.nicks =~= theme_at(2).nicks);
    themes.push(theme);
    let theme = BuiltinTheme {
        name: "solarized-dark",
        base: [
            "#002b36", "#073642", "#839496", "#268bd2",
            "#586e75", "#094f5c", "#164450", "#dc322f",
            "#b58900", "#859900", "#839496",
        ],
        nicks: [
            "#dc322f", "#cb4b16", "#b58900", "#859900",
            "#2aa198", "#268bd2", "#6c71c4", "#d33682",
            "#e07a70", "#d79a4b", "#b0c060", "#6fc0a8",
            "#74b0e0", "#9a8fd0", "#d777b0", "#93a1a1",
        ],
    };
    assert(theme@.base =~= theme_at(3).base);
    assert(theme@.nicks =~= theme_at(3).nicks);
    themes.push(theme);
    let theme = BuiltinTheme {
        name: "solarized-light",
        base: [
            "#fdf6e3", "#eee8d5", "#657b83", "#268bd2",
            "#93a1a1", "#ddd6c1", "#fbefc8", "#dc322f",
            "#b58900", "#859900", "#657b83",
        ],
        nicks: [
            "#dc322f", "#cb4b16", "#b58900", "#859900",
            "#2aa198", "#268bd2", "#6c71c4", "#d33682",
            "#a03030", "#a0601a", "#7a8500", "#1a8a80",
            "#1a7ac0", "#5a50b0", "#b02a70", "#586e75",
        ],
    };
    assert(theme@.base =~= theme_at(4).base);
    assert(theme@.nicks =~= theme_at(4).nicks);
    themes.push(theme);
    proof {
        builtin_themes_are_valid(0);
        builtin_themes_are_valid(1);
        builtin_themes_are_valid(2);
        builtin_themes_are_valid(3);
        builtin_themes_are_valid(4);
    }
    themes
}

/// The built-in theme called `name`, if any.
pub fn builtin_theme(name: &str) -> (theme: Option<BuiltinTheme>)
    ensures
        match theme {
            Some(theme) => is_valid(theme@) && exists|i: int|
                0 <= i < THEME_COUNT && #[trigger] theme_name(i) == name@ && theme.name@ == name@
                    && theme@ == theme_at(i),
            None => forall|i: int| 0 <= i < THEME_COUNT ==> #[trigger] theme_name(i) != name@,
        },
{
    let mut themes = builtin_themes();
    let mut i: usize = 0;
    while i < THEME_COUNT
        invariant
            i <= THEME_COUNT,
            themes@.len() == THEME_COUNT,
            forall|j: int|
                0 <= j < THEME_COUNT ==> (#[trigger] themes@[j]).name@ == theme_name(j)
                    && themes@[j]@ == theme_at(j) && is_valid(themes@[j]@),
            forall|j: int| 0 <= j < i ==> #[trigger] theme_name(j) != name@,
        decreases THEME_COUNT - i,
    {
        if same_text(themes[i].name, name) {
            assert(theme_name(i as int) == name@);
            return Some(themes.swap_remove(i));
        }
        i += 1;
    }
    None
}

/// No two built-in themes have the same name.
pub proof fn theme_names_are_unique(i: int, j: int)
    requires
        0 <= i < THEME_COUNT,
        0 <= j < THEME_COUNT,
        theme_name(i) == theme_name(j),
    ensures
        i == j,
{
    reveal_strlit("irssi-dark");
    reveal_strlit("sux");
    reveal_strlit("mirc-light");
    reveal_strlit("solarized-dark");
    reveal_strlit("solarized-light");
    assert("irssi-dark"@[0] == 'i' && "mirc-light"@[0] == 'm');
    assert("irssi-dark"@.len() == 10 && "sux"@.len() == 3 && "mirc-light"@.len() == 10);
    assert("solarized-dark"@.len() == 14 && "solarized-light"@.len() == 15);
}

/// The platform that a font is looked for on.
#[derive(Debug, Clone, Copy, PartialEq, Eq, Structural)]
pub enum Platform {
    Windows,
    MacOs,
    Other,
}

/// A monospace family present by default on each platform.
pub open spec fn monospace_family(platform: Platform) -> Seq<char> {
    match platform {
        Platform::Windows => "Consolas"@,
        Platform::MacOs => "Menlo"@,
        Platform::Other => "DejaVu Sans Mono"@,
    }
}

/// The family of a font token.
pub open spec fn token_family(token: Seq<char>, platform: Platform) -> Seq<char> {
    if token == "jetbrains-mono"@ {
        "JetBrains Mono"@
    } else if token == "fira-code"@ {
        "Fira Code"@
    } else if token == "iosevka"@ {
        "Iosevka"@
    } else if token == "hack"@ {
        "Hack"@
    } else if token == "cascadia-code"@ {
        "Cascadia Code"@
    } else if token == "source-code-pro"@ {
        "Source Code Pro"@
    } else if token == "ibm-plex-mono"@ {
        "IBM Plex Mono"@
    } else {
        monospace_family(platform)
    }
}

/// The installed font family to try for a Grappa `font_family` token, per
/// platform for the default monospace; unknown tokens fall back to it too.
pub fn font_family_for(token: &str, platform: Platform) -> (family: &'static str)
    ensures
        family@ == token_family(token@, platform),
{
    if same_text(token, "jetbrains-mono") {
        "JetBrains Mono"
    } else if same_text(token, "fira-code") {
        "Fira Code"
    } else if same_text(token, "iosevka") {
        "Iosevka"
    } else if same_text(token, "hack") {
        "Hack"
    } else if same_text(token, "cascadia-code") {
        "Cascadia Code"
    } else if same_text(token, "source-code-pro") {
        "Source Code Pro"
    } else if same_text(token, "ibm-plex-mono") {
        "IBM Plex Mono"
    } else {
        default_monospace_family(platform)
    }
}

/// A monospace family present by default on each platform.
pub fn default_monospace_family(platform: Platform) -> (family: &'static str)
    ensures
        family@ == monospace_family(platform),
{
    match platform {
        Platform::Windows => "Consolas",
        Platform::MacOs => "Menlo",
        Platform::Other => "DejaVu Sans Mono",
    }
}

/// The digits of a hexadecimal number stand for their places in the row from
/// zero to `f`, in either letter case.
pub proof fn hexadecimal_digits_stand_for_their_places(n: int)
    requires
        0 <= n < 16,
    ensures
        hex_digit(
            seq![
                '0', '1', '2', '3', '4', '5', '6', '7', '8', '9', 'a', 'b', 'c', 'd', 'e', 'f',
            ][n],
        ) == Some(n),
        hex_digit(
            seq![
                '0', '1', '2', '3', '4', '5', '6', '7', '8', '9', 'A', 'B', 'C', 'D', 'E', 'F',
            ][n],
        ) == Some(n),
{
    let small = seq![
        '0', '1', '2', '3', '4', '5', '6', '7', '8', '9', 'a', 'b', 'c', 'd', 'e', 'f',
    ];
    let large = seq![
        '0', '1', '2', '3', '4', '5', '6', '7', '8', '9', 'A', 'B', 'C', 'D', 'E', 'F',
    ];
    assert(small[0] == '0' && large[0] == '0');
    assert(small[1] == '1' && large[1] == '1');
    assert(small[2] == '2' && large[2] == '2');
    assert(small[3] == '3' && large[3] == '3');
    assert(small[4] == '4' && large[4] == '4');
    assert(small[5] == '5' && large[5] == '5');
    assert(small[6] == '6' && large[6] == '6');
    assert(small[7] == '7' && large[7] == '7');
    assert(small[8] == '8' && large[8] == '8');
    assert(small[9] == '9' && large[9] == '9');
    assert(small[10] == 'a' && large[10] == 'A');
    assert(small[11] == 'b' && large[11] == 'B');
    assert(small[12] == 'c' && large[12] == 'C');
    assert(small[13] == 'd' && large[13] == 'D');
    assert(small[14] == 'e' && large[14] == 'E');
    assert(small[15] == 'f' && large[15] == 'F');
}

/// A color of six digits has red, green and blue of two each; one of three has
/// each of them twice; nothing else is a color.
pub proof fn colors_are_red_then_green_then_blue(
    digits: Seq<char>,
    values: Seq<int>,
    text: Seq<char>,
)
    requires
        digits.len() == values.len(),
        forall|i: int|
            0 <= i < digits.len() ==> hex_digit(#[trigger] digits[i]) == Some(values[i]),
    ensures
        digits.len() == 6 ==> hex_color(seq!['#'] + digits) == Some(
            (
                (16 * values[0] + values[1]) as u8,
                (16 * values[2] + values[3]) as u8,
                (16 * values[4] + values[5]) as u8,
            ),
        ),
        digits.len() == 3 ==> hex_color(seq!['#'] + digits) == Some(
            ((17 * values[0]) as u8, (17 * values[1]) as u8, (17 * values[2]) as u8),
        ),
        text.len() != 4 && text.len() != 7 ==> hex_color(text) is None,
        text.len() > 0 && text[0] != '#' ==> hex_color(text) is None,
{
    let whole = seq!['#'] + digits;
    if digits.len() == 6 || digits.len() == 3 {
        assert(whole[1] == digits[0] && whole[2] == digits[1] && whole[3] == digits[2]);
        assert(hex_digit(digits[0]) == Some(values[0]));
        assert(hex_digit(digits[1]) == Some(values[1]));
        assert(hex_digit(digits[2]) == Some(values[2]));
    }
    if digits.len() == 6 {
        assert(whole[4] == digits[3] && whole[5] == digits[4] && whole[6] == digits[5]);
        assert(hex_digit(digits[3]) == Some(values[3]));
        assert(hex_digit(digits[4]) == Some(values[4]));
        assert(hex_digit(digits[5]) == Some(values[5]));
    }
}

/// A palette takes each color from its own key.
pub proof fn each_color_has_its_own_key(
    palette: ThemePalette,
    colors: Seq<(String, String)>,
    n: nat,
)
    requires
        takes_colors(palette, colors),
        n < 16,
    ensures
        color_at(colors, "bg"@) == Some(palette.bg),
        color_at(colors, "bg_alt"@) == Some(palette.bg_alt),
        color_at(colors, "fg"@) == Some(palette.fg),
        color_at(colors, "accent"@) == Some(palette.accent),
        color_at(colors, "muted"@) == Some(palette.muted),
        color_at(colors, "border"@) == Some(palette.border),
        color_at(colors, "mention"@) == Some(palette.mention),
        color_at(colors, "mode_op"@) == Some(palette.mode_op),
        color_at(colors, "mode_halfop"@) == Some(palette.mode_halfop),
        color_at(colors, "mode_voiced"@) == Some(palette.mode_voiced),
        color_at(colors, "mode_plain"@) == Some(palette.mode_plain),
        color_at(colors, "nick_"@ + decimal(n)) == Some(palette.nicks@[n as int]),
{
    assert(color_at(colors, base_key(0)) == Some(base_color(palette, 0)));
    assert(color_at(colors, base_key(1)) == Some(base_color(palette, 1)));
    assert(color_at(colors, base_key(2)) == Some(base_color(palette, 2)));
    assert(color_at(colors, base_key(3)) == Some(base_color(palette, 3)));
    assert(color_at(colors, base_key(4)) == Some(base_color(palette, 4)));
    assert(color_at(colors, base_key(5)) == Some(base_color(palette, 5)));
    assert(color_at(colors, base_key(6)) == Some(base_color(palette, 6)));
    assert(color_at(colors, base_key(7)) == Some(base_color(palette, 7)));
    assert(color_at(colors, base_key(8)) == Some(base_color(palette, 8)));
    assert(color_at(colors, base_key(9)) == Some(base_color(palette, 9)));
    assert(color_at(colors, base_key(10)) == Some(base_color(palette, 10)));
    assert(color_at(colors, nick_key(n)) == Some(palette.nicks@[n as int]));
}

/// A palette of a built-in theme has the theme's colors in the order of the
/// keys: backgrounds and text, accent, muted and border, mentions, modes.
pub proof fn builtin_colors_come_in_the_order_of_the_keys(
    palette: ThemePalette,
    theme: ThemeColors,
)
    requires
        shows_theme(palette, theme),
    ensures
        hex_color(theme.base[0]) == Some(palette.bg),
        hex_color(theme.base[1]) == Some(palette.bg_alt),
        hex_color(theme.base[2]) == Some(palette.fg),
        hex_color(theme.base[3]) == Some(palette.accent),
        hex_color(theme.base[4]) == Some(palette.muted),
        hex_color(theme.base[5]) == Some(palette.border),
        hex_color(theme.base[6]) == Some(palette.mention),
        hex_color(theme.base[7]) == Some(palette.mode_op),
        hex_color(theme.base[8]) == Some(palette.mode_halfop),
        hex_color(theme.base[9]) == Some(palette.mode_voiced),
        hex_color(theme.base[10]) == Some(palette.mode_plain),
{
}

/// Green weighs most in how bright a color is, then red, then blue; black is
/// dark and white is not.
pub proof fn green_is_the_brightest(n: u8)
    requires
        n > 0,
    ensures
        luminance((0, n, 0)) == 587 * n,
        luminance((n, 0, 0)) == 299 * n,
        luminance((0, 0, n)) == 114 * n,
        luminance((n, n, n)) == 1000 * n,
        luminance((0, 0, 0)) < 128_000,
        luminance((255, 255, 255)) >= 128_000,
{
}

/// The font tokens, each with its family.
pub open spec fn font_families() -> Seq<(Seq<char>, Seq<char>)> {
    seq![
        ("jetbrains-mono"@, "JetBrains Mono"@),
        ("fira-code"@, "Fira Code"@),
        ("iosevka"@, "Iosevka"@),
        ("hack"@, "Hack"@),
        ("cascadia-code"@, "Cascadia Code"@),
        ("source-code-pro"@, "Source Code Pro"@),
        ("ibm-plex-mono"@, "IBM Plex Mono"@),
    ]
}

/// A font token has its family on every platform; any other token has the
/// monospace family of the platform.
pub proof fn tokens_have_their_families(i: int, token: Seq<char>, platform: Platform)
    ensures
        0 <= i < font_families().len() ==> token_family(font_families()[i].0, platform)
            == font_families()[i].1,
        (forall|j: int|
            0 <= j < font_families().len() ==> (#[trigger] font_families()[j]).0 != token)
            ==> token_family(token, platform) == monospace_family(platform),
        monospace_family(Platform::Windows) == "Consolas"@,
        monospace_family(Platform::MacOs) == "Menlo"@,
        monospace_family(Platform::Other) == "DejaVu Sans Mono"@,
{
    let list = font_families();
    reveal_strlit("jetbrains-mono");
    assert(list[0].0 == "jetbrains-mono"@);
    assert(list[0].1 == "JetBrains Mono"@);
    assert("jetbrains-mono"@.len() == 14 && "jetbrains-mono"@[0] == 'j');
    reveal_strlit("fira-code");
    assert(list[1].0 == "fira-code"@);
    assert(list[1].1 == "Fira Code"@);
    assert("fira-code"@.len() == 9 && "fira-code"@[0] == 'f');
    reveal_strlit("iosevka");
    assert(list[2].0 == "iosevka"@);
    assert(list[2].1 == "Iosevka"@);
    assert("iosevka"@.len() == 7 && "iosevka"@[0] == 'i');
    reveal_strlit("hack");
    assert(list[3].0 == "hack"@);
    assert(list[3].1 == "Hack"@);
    assert("hack"@.len() == 4 && "hack"@[0] == 'h');
    reveal_strlit("cascadia-code");
    assert(list[4].0 == "cascadia-code"@);
    assert(list[4].1 == "Cascadia Code"@);
    assert("cascadia-code"@.len() == 13 && "cascadia-code"@[0] == 'c');
    reveal_strlit("source-code-pro");
    assert(list[5].0 == "source-code-pro"@);
    assert(list[5].1 == "Source Code Pro"@);
    assert("source-code-pro"@.len() == 15 && "source-code-pro"@[0] == 's');
    reveal_strlit("ibm-plex-mono");
    assert(list[6].0 == "ibm-plex-mono"@);
    assert(list[6].1 == "IBM Plex Mono"@);
    assert("ibm-plex-mono"@.len() == 13 && "ibm-plex-mono"@[0] == 'i');
}

/// The themes called dark, and sux, have a dark background and the others a
/// light one; members without a mode have the color of the text; and the first
/// two share their nick colors.
pub proof fn dark_themes_are_dark(i: int)
    requires
        0 <= i < 5,
    ensures
        theme_name(0) == "irssi-dark"@ && theme_name(1) == "sux"@,
        theme_name(2) == "mirc-light"@ && theme_name(3) == "solarized-dark"@,
        theme_name(4) == "solarized-light"@,
        hex_color(theme_at(i).base[0]) matches Some(bg) && (luminance(bg) < 128_000 <==> i == 0 || i
            == 1 || i == 3),
        theme_at(i).base[10] == theme_at(i).base[2],
        theme_at(0).nicks == theme_at(1).nicks,
{
    if i == 0 {
        reveal_strlit("#0a0a0a");
        assert(hex_color("#0a0a0a"@) == Some((10u8, 10u8, 10u8)));
    } else if i == 1 {
        reveal_strlit("#000000");
        assert(hex_color("#000000"@) == Some((0u8, 0u8, 0u8)));
    } else if i == 2 {
        reveal_strlit("#ffffff");
        assert(hex_color("#ffffff"@) == Some((255u8, 255u8, 255u8)));
    } else if i == 3 {
        reveal_strlit("#002b36");
        assert(hex_color("#002b36"@) == Some((0u8, 43u8, 54u8)));
    } else {
        reveal_strlit("#fdf6e3");
        assert(hex_color("#fdf6e3"@) == Some((253u8, 246u8, 227u8)));
    }
}

/// The gallery: each theme's name and its colors, in the order of their keys.
pub proof fn the_gallery_holds_five_themes()
    ensures
        theme_name(0) == "irssi-dark"@,
        theme_at(0).base == seq![
            "#0a0a0a"@, "#111111"@, "#e0e0e0"@, "#5fafd7"@,
            "#707070"@, "#1f1f1f"@, "#2a1f00"@, "#d77070"@,
            "#d7af5f"@, "#70d770"@, "#e0e0e0"@,
        ],
        theme_at(0).nicks == seq![
            "#ff8c8c"@, "#ffb060"@, "#ffd060"@, "#d8e060"@,
            "#90d870"@, "#60d8a8"@, "#60d8d8"@, "#60b8e8"@,
            "#88a8ff"@, "#b890ff"@, "#e088e0"@, "#ff90c0"@,
            "#e0a888"@, "#c0c0c0"@, "#a0e8b8"@, "#f0d090"@,
        ],
        theme_name(1) == "sux"@,
        theme_at(1).base == seq![
            "#000000"@, "#0e0e0e"@, "#e5e5e5"@, "#00d75f"@,
            "#767676"@, "#1c1c1c"@, "#2b2b00"@, "#ff5f5f"@,
            "#d7af5f"@, "#5fd75f"@, "#e5e5e5"@,
        ],
        theme_at(1).nicks == theme_at(0).nicks,
        theme_name(2) == "mirc-light"@,
        theme_at(2).base == seq![
            "#ffffff"@, "#f5f5f5"@, "#000000"@, "#00007f"@,
            "#7f7f7f"@, "#c0c0c0"@, "#fff8c0"@, "#7f0000"@,
            "#7f5f00"@, "#007f00"@, "#000000"@,
        ],
        theme_at(2).nicks == seq![
            "#c03030"@, "#c06020"@, "#a07000"@, "#607000"@,
            "#207020"@, "#008060"@, "#007080"@, "#005090"@,
            "#2030a0"@, "#5020a0"@, "#800070"@, "#a02060"@,
            "#804020"@, "#404040"@, "#206040"@, "#806020"@,
        ],
        theme_name(3) == "solarized-dark"@,
        theme_at(3).base == seq![
            "#002b36"@, "#073642"@, "#839496"@, "#268bd2"@,
            "#586e75"@, "#094f5c"@, "#164450"@, "#dc322f"@,
            "#b58900"@, "#859900"@, "#839496"@,
        ],
        theme_at(3).nicks == seq![
            "#dc322f"@, "#cb4b16"@, "#b58900"@, "#859900"@,
            "#2aa198"@, "#268bd2"@, "#6c71c4"@, "#d33682"@,
            "#e07a70"@, "#d79a4b"@, "#b0c060"@, "#6fc0a8"@,
            "#74b0e0"@, "#9a8fd0"@, "#d777b0"@, "#93a1a1"@,
        ],
        theme_name(4) == "solarized-light"@,
        theme_at(4).base == seq![
            "#fdf6e3"@, "#eee8d5"@, "#657b83"@, "#268bd2"@,
            "#93a1a1"@, "#ddd6c1"@, "#fbefc8"@, "#dc322f"@,
            "#b58900"@, "#859900"@, "#657b83"@,
        ],
        theme_at(4).nicks == seq![
            "#dc322f"@, "#cb4b16"@, "#b58900"@, "#859900"@,
            "#2aa198"@, "#268bd2"@, "#6c71c4"@, "#d33682"@,
            "#a03030"@, "#a0601a"@, "#7a8500"@, "#1a8a80"@,
            "#1a7ac0"@, "#5a50b0"@, "#b02a70"@, "#586e75"@,
        ],
{
}

} // verus!
