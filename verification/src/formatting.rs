//! mIRC control codes in chat messages: a raw message is split into runs of
//! one color and weight, so that each run can be shown as a text of its own.

use vstd::prelude::*;

use crate::decimal::value_of;
use crate::text::{chars_of, first_where, index_where, is_ascii_digit, is_digit, lemma_first_where,
    lemma_first_where_is, tail};

verus! {

/// One run of text sharing the same color and weight, as split out of a raw
/// message by [`parse_mirc_text`].
#[derive(Debug, Clone, PartialEq, Eq)]
pub struct ColorSegment {
    pub text: String,
    /// `None` means that no color code is active: the caller should use its
    /// own default text color.
    pub color: Option<(u8, u8, u8)>,
    pub bold: bool,
}

/// What a [`ColorSegment`] says.
pub struct Run {
    pub text: Seq<char>,
    pub color: Option<(u8, u8, u8)>,
    pub bold: bool,
}

impl View for ColorSegment {
    type V = Run;

    open spec fn view(&self) -> Run {
        Run { text: self.text@, color: self.color, bold: self.bold }
    }
}

pub open spec fn segment_runs(segments: Seq<ColorSegment>) -> Seq<Run> {
    Seq::new(segments.len(), |i: int| segments[i]@)
}

const BOLD: char = '\u{02}';

const COLOR: char = '\u{03}';

const RESET: char = '\u{0F}';

const REVERSE: char = '\u{16}';

const ITALIC: char = '\u{1D}';

const UNDERLINE: char = '\u{1F}';

/// The color that mIRC gives a number from 0 to 15; scripts and logs
/// everywhere rely on these.
pub open spec fn mirc_color(index: nat) -> Option<(u8, u8, u8)> {
    if index == 0 {
        Some((255, 255, 255))
    } else if index == 1 {
        Some((0, 0, 0))
    } else if index == 2 {
        Some((0, 0, 127))
    } else if index == 3 {
        Some((0, 147, 0))
    } else if index == 4 {
        Some((255, 0, 0))
    } else if index == 5 {
        Some((127, 0, 0))
    } else if index == 6 {
        Some((156, 0, 156))
    } else if index == 7 {
        Some((252, 127, 0))
    } else if index == 8 {
        Some((255, 255, 0))
    } else if index == 9 {
        Some((0, 252, 0))
    } else if index == 10 {
        Some((0, 147, 147))
    } else if index == 11 {
        Some((0, 255, 255))
    } else if index == 12 {
        Some((0, 0, 252))
    } else if index == 13 {
        Some((255, 0, 255))
    } else if index == 14 {
        Some((127, 127, 127))
    } else if index == 15 {
        Some((210, 210, 210))
    } else {
        None
    }
}

/// The number of digits that `text` begins with.
pub open spec fn leading_digits(text: Seq<char>) -> int {
    first_where(text, |c: char| !is_digit(c))
}

/// The number of digits of a color that `text` begins with: two at most.
pub open spec fn color_len(text: Seq<char>) -> int {
    if leading_digits(text) < 2 {
        leading_digits(text)
    } else {
        2
    }
}

/// The number of characters that belong to a color code before `text`: the
/// foreground, then perhaps a comma and the one or two digits of a background.
/// Without a foreground, or without a digit behind the comma, there is no
/// background, and the comma is part of the message.
pub open spec fn code_len(text: Seq<char>) -> int {
    let n = color_len(text);
    if n > 0 && n < text.len() && text[n] == ',' && color_len(text.skip(n + 1)) > 0 {
        n + 1 + color_len(text.skip(n + 1))
    } else {
        n
    }
}

/// The color that a color code before `text` asks for; a code without digits,
/// or with a number out of range, asks for none.
pub open spec fn code_color(text: Seq<char>) -> Option<(u8, u8, u8)> {
    let n = color_len(text);
    if n == 0 {
        None
    } else {
        mirc_color(value_of(text.take(n)))
    }
}

/// The run that ends here; none where it would be empty.
pub open spec fn ended(text: Seq<char>, color: Option<(u8, u8, u8)>, bold: bool) -> Seq<Run> {
    if text.len() == 0 {
        Seq::empty()
    } else {
        seq![Run { text, color, bold }]
    }
}

/// The runs of `current`, which is read already, and `text`.
pub open spec fn runs(
    text: Seq<char>,
    current: Seq<char>,
    color: Option<(u8, u8, u8)>,
    bold: bool,
) -> Seq<Run>
    decreases text.len(),
{
    if text.len() == 0 {
        ended(current, color, bold)
    } else {
        let c = text[0];
        let rest = text.skip(1);
        if c == '\u{02}' {
            ended(current, color, bold) + runs(rest, Seq::empty(), color, !bold)
        } else if c == '\u{0F}' {
            ended(current, color, bold) + runs(rest, Seq::empty(), None, false)
        } else if c == '\u{16}' || c == '\u{1D}' || c == '\u{1F}' {
            runs(rest, current, color, bold)
        } else if c == '\u{03}' {
            proof {
                lemma_code_len(rest);
            }
            ended(current, color, bold) + runs(
                rest.skip(code_len(rest)),
                Seq::empty(),
                code_color(rest),
                bold,
            )
        } else {
            runs(rest, current.push(c), color, bold)
        }
    }
}

/// The characters of a raw message that are shown.
pub open spec fn visible(text: Seq<char>) -> Seq<char>
    decreases text.len(),
{
    if text.len() == 0 {
        Seq::empty()
    } else {
        let c = text[0];
        let rest = text.skip(1);
        if c == '\u{02}' || c == '\u{0F}' || c == '\u{16}' || c == '\u{1D}' || c == '\u{1F}' {
            visible(rest)
        } else if c == '\u{03}' {
            proof {
                lemma_code_len(rest);
            }
            visible(rest.skip(code_len(rest)))
        } else {
            seq![c] + visible(rest)
        }
    }
}

/// The texts of the runs behind one another.
pub open spec fn run_text(runs: Seq<Run>) -> Seq<char>
    decreases runs.len(),
{
    if runs.len() == 0 {
        Seq::empty()
    } else {
        runs[0].text + run_text(runs.drop_first())
    }
}

pub proof fn lemma_code_len(text: Seq<char>)
    ensures
        0 <= color_len(text) <= 2,
        0 <= color_len(text) <= code_len(text) <= text.len(),
{
    lemma_first_where(text, |c: char| !is_digit(c));
    lemma_first_where(text.skip(color_len(text) + 1), |c: char| !is_digit(c));
}

fn is_other(c: char) -> (other: bool)
    ensures
        other == !is_digit(c),
{
    !is_ascii_digit(c)
}

fn mirc_palette(index: u32) -> (color: Option<(u8, u8, u8)>)
    ensures
        color == mirc_color(index as nat),
{
    match index {
        0 => Some((255, 255, 255)),
        1 => Some((0, 0, 0)),
        2 => Some((0, 0, 127)),
        3 => Some((0, 147, 0)),
        4 => Some((255, 0, 0)),
        5 => Some((127, 0, 0)),
        6 => Some((156, 0, 156)),
        7 => Some((252, 127, 0)),
        8 => Some((255, 255, 0)),
        9 => Some((0, 252, 0)),
        10 => Some((0, 147, 147)),
        11 => Some((0, 255, 255)),
        12 => Some((0, 0, 252)),
        13 => Some((255, 0, 255)),
        14 => Some((127, 127, 127)),
        15 => Some((210, 210, 210)),
        _ => None,
    }
}

fn color_digits(text: &[char]) -> (n: usize)
    ensures
        n == color_len(text@),
        n <= 2,
        n <= text@.len(),
        forall|i: int| 0 <= i < n ==> is_digit(#[trigger] text@[i]),
{
    let ghost other = |c: char| !is_digit(c);
    let digits = index_where(text, is_other, Ghost(other));
    proof {
        lemma_first_where(text@, other);
        assert forall|i: int| 0 <= i < digits implies is_digit(#[trigger] text@[i]) by {
            assert(!other(text@[i]));
        }
    }
    if digits < 2 {
        digits
    } else {
        2
    }
}

/// Reads the color code before `text`: its color and its length. A
/// background is read over, and a bare code resets the color.
fn parse_color_code(text: &[char]) -> (code: (Option<(u8, u8, u8)>, usize))
    ensures
        code.0 == code_color(text@),
        code.1 == code_len(text@),
        code.1 <= text@.len(),
{
    let n = color_digits(text);
    let mut len: usize = n;
    if n > 0 && n < text.len() && text[n] == ',' {
        let background = color_digits(tail(text, n + 1));
        if background > 0 {
            len = n + 1 + background;
        }
    }
    let color = if n == 0 {
        None
    } else {
        let mut index: u32 = (text[0] as u8 - 48u8) as u32;
        proof {
            reveal_with_fuel(value_of, 3);
            let front = text@.take(n as int);
            assert(front.drop_last() =~= text@.take(n - 1));
            assert(is_digit(text@[0]));
        }
        if n == 2 {
            assert(is_digit(text@[1]));
            assert(text@.take(1).drop_last() =~= Seq::empty());
            index = index * 10 + (text[1] as u8 - 48u8) as u32;
        }
        assert(index == value_of(text@.take(n as int)));
        mirc_palette(index)
    };
    (color, len)
}

fn flush(
    segments: &mut Vec<ColorSegment>,
    current: &mut String,
    color: Option<(u8, u8, u8)>,
    bold: bool,
)
    ensures
        segment_runs(final(segments)@) == segment_runs(old(segments)@) + ended(
            old(current)@,
            color,
            bold,
        ),
        final(current)@ == Seq::<char>::empty(),
{
    if !current.as_str().is_empty() {
        let mut text = String::new();
        std::mem::swap(&mut text, current);
        segments.push(ColorSegment { text, color, bold });
    }
    assert(segment_runs(segments@) =~= segment_runs(old(segments)@) + ended(
        old(current)@,
        color,
        bold,
    ));
}

/// Splits `raw` (a message body possibly containing mIRC control codes)
/// into color/weight runs, stripping the control codes themselves. Reverse,
/// italic and underline have no rendering, so they are dropped rather than
/// left in the visible text.
pub fn parse_mirc_text(raw: &str) -> (segments: Vec<ColorSegment>)
    ensures
        segment_runs(segments@) == runs(raw@, Seq::empty(), None, false),
{
    let text = chars_of(raw);
    let mut segments: Vec<ColorSegment> = Vec::new();
    let mut current = String::new();
    let mut color: Option<(u8, u8, u8)> = None;
    let mut bold = false;
    let mut i: usize = 0;
    let ghost whole = runs(raw@, Seq::empty(), None, false);
    assert(text@.skip(0) =~= text@);
    assert(segment_runs(segments@) + whole =~= whole);
    while i < text.len()
        invariant
            i <= text@.len(),
            whole == segment_runs(segments@) + runs(text@.skip(i as int), current@, color, bold),
        decreases text@.len() - i,
    {
        let ch = text[i];
        let ghost here = text@.skip(i as int);
        let ghost before = segment_runs(segments@);
        assert(here[0] == ch);
        assert(here.skip(1) =~= text@.skip(i + 1));
        i += 1;
        if ch == BOLD {
            flush(&mut segments, &mut current, color, bold);
            bold = !bold;
            assert(whole =~= segment_runs(segments@) + runs(
                text@.skip(i as int),
                current@,
                color,
                bold,
            ));
        } else if ch == RESET {
            flush(&mut segments, &mut current, color, bold);
            color = None;
            bold = false;
            assert(whole =~= segment_runs(segments@) + runs(
                text@.skip(i as int),
                current@,
                color,
                bold,
            ));
        } else if ch == REVERSE || ch == ITALIC || ch == UNDERLINE {
        } else if ch == COLOR {
            flush(&mut segments, &mut current, color, bold);
            let (code, len) = parse_color_code(tail(&text, i));
            color = code;
            assert(text@.skip(i as int).skip(len as int) =~= text@.skip(i + len));
            i += len;
            assert(whole =~= segment_runs(segments@) + runs(
                text@.skip(i as int),
                current@,
                color,
                bold,
            ));
        } else {
            current.push(ch);
        }
    }
    assert(text@.skip(i as int) =~= Seq::empty());
    flush(&mut segments, &mut current, color, bold);
    segments
}

proof fn lemma_run_text_concat(a: Seq<Run>, b: Seq<Run>)
    ensures
        run_text(a + b) == run_text(a) + run_text(b),
    decreases a.len(),
{
    if a.len() == 0 {
        assert(a + b =~= b);
        assert(run_text(a + b) =~= run_text(a) + run_text(b));
    } else {
        lemma_run_text_concat(a.drop_first(), b);
        assert((a + b).drop_first() =~= a.drop_first() + b);
        assert(run_text(a + b) =~= run_text(a) + run_text(b));
    }
}

proof fn lemma_ended_text(text: Seq<char>, color: Option<(u8, u8, u8)>, bold: bool)
    ensures
        run_text(ended(text, color, bold)) == text,
{
    let last = ended(text, color, bold);
    if text.len() > 0 {
        assert(last.drop_first() =~= Seq::empty());
        assert(run_text(last.drop_first()) =~= Seq::empty());
    }
    assert(run_text(last) =~= text);
}

/// Put together, the runs are the message without its control codes: nothing
/// that is shown is lost, added or reordered.
pub proof fn runs_show_the_visible_text(
    text: Seq<char>,
    current: Seq<char>,
    color: Option<(u8, u8, u8)>,
    bold: bool,
)
    ensures
        run_text(runs(text, current, color, bold)) == current + visible(text),
    decreases text.len(),
{
    let last = ended(current, color, bold);
    lemma_ended_text(current, color, bold);
    if text.len() == 0 {
        assert(current + visible(text) =~= current);
    } else {
        let c = text[0];
        let rest = text.skip(1);
        let none = Seq::<char>::empty();
        if c == '\u{02}' {
            runs_show_the_visible_text(rest, none, color, !bold);
            lemma_run_text_concat(last, runs(rest, none, color, !bold));
            assert(none + visible(rest) =~= visible(rest));
        } else if c == '\u{0F}' {
            runs_show_the_visible_text(rest, none, None, false);
            lemma_run_text_concat(last, runs(rest, none, None, false));
            assert(none + visible(rest) =~= visible(rest));
        } else if c == '\u{16}' || c == '\u{1D}' || c == '\u{1F}' {
            runs_show_the_visible_text(rest, current, color, bold);
        } else if c == '\u{03}' {
            lemma_code_len(rest);
            let behind = rest.skip(code_len(rest));
            runs_show_the_visible_text(behind, none, code_color(rest), bold);
            lemma_run_text_concat(last, runs(behind, none, code_color(rest), bold));
            assert(none + visible(behind) =~= visible(behind));
        } else {
            runs_show_the_visible_text(rest, current.push(c), color, bold);
            assert(current.push(c) + visible(rest) =~= current + (seq![c] + visible(rest)));
        }
    }
}

/// No run is empty.
pub proof fn no_run_is_empty(
    text: Seq<char>,
    current: Seq<char>,
    color: Option<(u8, u8, u8)>,
    bold: bool,
    i: int,
)
    requires
        0 <= i < runs(text, current, color, bold).len(),
    ensures
        runs(text, current, color, bold)[i].text.len() > 0,
    decreases text.len(),
{
    let n = ended(current, color, bold).len();
    let none = Seq::<char>::empty();
    if text.len() > 0 {
        let c = text[0];
        let rest = text.skip(1);
        if c == '\u{02}' {
            if i >= n {
                no_run_is_empty(rest, none, color, !bold, i - n);
            }
        } else if c == '\u{0F}' {
            if i >= n {
                no_run_is_empty(rest, none, None, false, i - n);
            }
        } else if c == '\u{16}' || c == '\u{1D}' || c == '\u{1F}' {
            no_run_is_empty(rest, current, color, bold, i);
        } else if c == '\u{03}' {
            lemma_code_len(rest);
            if i >= n {
                no_run_is_empty(rest.skip(code_len(rest)), none, code_color(rest), bold, i - n);
            }
        } else {
            no_run_is_empty(rest, current.push(c), color, bold, i);
        }
    }
}

/// What stands in a raw message: a switch of the weight, a reset, a color code
/// with the digits of a foreground and perhaps those of a background, a color
/// code without digits, a code that is not shown, or text.
pub enum Mark {
    Bold,
    Reset,
    Color { digits: Seq<char>, background: Seq<char> },
    NoColor,
    Hidden(char),
    Shown(Seq<char>),
}

pub open spec fn mark_text(mark: Mark) -> Seq<char> {
    match mark {
        Mark::Bold => seq!['\u{02}'],
        Mark::Reset => seq!['\u{0F}'],
        Mark::Color { digits, background } => if background.len() == 0 {
            seq!['\u{03}'] + digits
        } else {
            seq!['\u{03}'] + digits + seq![','] + background
        },
        Mark::NoColor => seq!['\u{03}'],
        Mark::Hidden(code) => seq![code],
        Mark::Shown(text) => text,
    }
}

/// A message that is written with some marks.
pub open spec fn marks_text(marks: Seq<Mark>) -> Seq<char>
    decreases marks.len(),
{
    if marks.len() == 0 {
        Seq::empty()
    } else {
        mark_text(marks[0]) + marks_text(marks.drop_first())
    }
}

/// Whether a text is the number of a color before some text: one or two
/// digits, and where it is one, no digit follows.
pub open spec fn is_color_number(digits: Seq<char>, behind: Seq<char>) -> bool {
    &&& 1 <= digits.len() <= 2
    &&& forall|i: int| 0 <= i < digits.len() ==> '0' <= #[trigger] digits[i] <= '9'
    &&& digits.len() == 1 && behind.len() > 0 ==> !('0' <= behind[0] <= '9')
}

/// Whether a text has no control code.
pub open spec fn is_plain(text: Seq<char>) -> bool {
    forall|i: int|
        0 <= i < text.len() ==> !seq![
            '\u{02}',
            '\u{03}',
            '\u{0F}',
            '\u{16}',
            '\u{1D}',
            '\u{1F}',
        ].contains(#[trigger] text[i])
}

/// Whether the marks can be told apart again.
pub open spec fn are_legible(marks: Seq<Mark>) -> bool
    decreases marks.len(),
{
    marks.len() > 0 ==> {
        let behind = marks_text(marks.drop_first());
        &&& match marks[0] {
            Mark::Color { digits, background } => if background.len() == 0 {
                is_color_number(digits, behind) && (behind.len() > 0 ==> behind[0] != ',')
            } else {
                is_color_number(digits, seq![',']) && is_color_number(background, behind)
            },
            Mark::NoColor => behind.len() > 0 ==> !('0' <= behind[0] <= '9'),
            Mark::Hidden(code) => seq!['\u{16}', '\u{1D}', '\u{1F}'].contains(code),
            Mark::Shown(text) => is_plain(text),
            _ => true,
        }
        &&& are_legible(marks.drop_first())
    }
}

/// The colors of mIRC by their numbers.
pub open spec fn palette() -> Seq<(u8, u8, u8)> {
    seq![
        (255, 255, 255),
        (0, 0, 0),
        (0, 0, 127),
        (0, 147, 0),
        (255, 0, 0),
        (127, 0, 0),
        (156, 0, 156),
        (252, 127, 0),
        (255, 255, 0),
        (0, 252, 0),
        (0, 147, 147),
        (0, 255, 255),
        (0, 0, 252),
        (255, 0, 255),
        (127, 127, 127),
        (210, 210, 210),
    ]
}

/// The number that one or two digits write.
pub open spec fn color_number(digits: Seq<char>) -> int {
    if digits.len() == 1 {
        digits[0] as int - '0' as int
    } else {
        10 * (digits[0] as int - '0' as int) + (digits[1] as int - '0' as int)
    }
}

/// The color behind some marks: the one that the last color code or reset
/// among them asks for.
pub open spec fn color_behind(marks: Seq<Mark>) -> Option<(u8, u8, u8)>
    decreases marks.len(),
{
    if marks.len() == 0 {
        None
    } else {
        match marks.last() {
            Mark::Color { digits, .. } => if color_number(digits) < 16 {
                Some(palette()[color_number(digits)])
            } else {
                None
            },
            Mark::NoColor | Mark::Reset => None,
            _ => color_behind(marks.drop_last()),
        }
    }
}

/// Whether the text behind some marks is bold: the weight has been switched an
/// odd number of times since the last reset.
pub open spec fn bold_behind(marks: Seq<Mark>) -> bool
    decreases marks.len(),
{
    if marks.len() == 0 {
        false
    } else {
        match marks.last() {
            Mark::Bold => !bold_behind(marks.drop_last()),
            Mark::Reset => false,
            _ => bold_behind(marks.drop_last()),
        }
    }
}

/// The characters of a text, each with a color and a weight.
pub open spec fn painted(text: Seq<char>, color: Option<(u8, u8, u8)>, bold: bool) -> Seq<
    (char, Option<(u8, u8, u8)>, bool),
> {
    Seq::new(text.len(), |i: int| (text[i], color, bold))
}

/// The characters of some runs, each with the color and the weight of its run.
pub open spec fn runs_painted(runs: Seq<Run>) -> Seq<(char, Option<(u8, u8, u8)>, bool)>
    decreases runs.len(),
{
    if runs.len() == 0 {
        Seq::empty()
    } else {
        painted(runs[0].text, runs[0].color, runs[0].bold) + runs_painted(runs.drop_first())
    }
}

/// The characters that some marks show behind others, each with the color and
/// the weight that the marks before it give.
pub open spec fn marks_painted(before: Seq<Mark>, marks: Seq<Mark>) -> Seq<
    (char, Option<(u8, u8, u8)>, bool),
>
    decreases marks.len(),
{
    if marks.len() == 0 {
        Seq::empty()
    } else {
        (match marks[0] {
            Mark::Shown(text) => painted(text, color_behind(before), bold_behind(before)),
            _ => Seq::empty(),
        }) + marks_painted(before.push(marks[0]), marks.drop_first())
    }
}

proof fn lemma_painted_concat(a: Seq<Run>, b: Seq<Run>)
    ensures
        runs_painted(a + b) == runs_painted(a) + runs_painted(b),
    decreases a.len(),
{
    if a.len() == 0 {
        assert(a + b =~= b);
        assert(runs_painted(a + b) =~= runs_painted(a) + runs_painted(b));
    } else {
        lemma_painted_concat(a.drop_first(), b);
        assert((a + b).drop_first() =~= a.drop_first() + b);
        assert(runs_painted(a + b) =~= runs_painted(a) + runs_painted(b));
    }
}

proof fn lemma_ended_painted(text: Seq<char>, color: Option<(u8, u8, u8)>, bold: bool)
    ensures
        runs_painted(ended(text, color, bold)) == painted(text, color, bold),
{
    let last = ended(text, color, bold);
    if text.len() > 0 {
        assert(last.drop_first() =~= Seq::empty());
        assert(runs_painted(last.drop_first()) =~= Seq::empty());
    }
    assert(runs_painted(last) =~= painted(text, color, bold));
}

/// Text without control codes goes on the run that it stands in.
pub proof fn plain_text_stays_in_its_run(
    text: Seq<char>,
    behind: Seq<char>,
    current: Seq<char>,
    color: Option<(u8, u8, u8)>,
    bold: bool,
)
    requires
        is_plain(text),
    ensures
        runs(text + behind, current, color, bold) == runs(behind, current + text, color, bold),
        behind.len() == 0 && text.len() > 0 ==> runs(text + behind, Seq::empty(), color, bold)
            == seq![(Run { text, color, bold })],
    decreases text.len(),
{
    let whole = text + behind;
    let codes = seq!['\u{02}', '\u{03}', '\u{0F}', '\u{16}', '\u{1D}', '\u{1F}'];
    if text.len() == 0 {
        assert(whole =~= behind);
        assert(current + text =~= current);
    } else {
        let less = text.drop_first();
        assert(!codes.contains(text[0]));
        assert(codes[0] == '\u{02}' && codes[1] == '\u{03}' && codes[2] == '\u{0F}');
        assert(codes[3] == '\u{16}' && codes[4] == '\u{1D}' && codes[5] == '\u{1F}');
        assert forall|i: int| 0 <= i < less.len() implies !codes.contains(#[trigger] less[i]) by {
            assert(less[i] == text[i + 1]);
        }
        assert(whole[0] == text[0]);
        assert(whole.skip(1) =~= less + behind);
        plain_text_stays_in_its_run(less, behind, current.push(text[0]), color, bold);
        assert(current.push(text[0]) + less =~= current + text);
        let none = Seq::<char>::empty();
        plain_text_stays_in_its_run(less, behind, none.push(text[0]), color, bold);
        assert(none.push(text[0]) + less =~= text);
    }
}

proof fn lemma_color_len(digits: Seq<char>, behind: Seq<char>)
    requires
        is_color_number(digits, behind),
    ensures
        color_len(digits + behind) == digits.len(),
{
    let whole = digits + behind;
    let other = |c: char| !is_digit(c);
    lemma_first_where(whole, other);
    assert forall|i: int| 0 <= i < digits.len() implies !other(#[trigger] whole[i]) by {
        assert(whole[i] == digits[i]);
    }
    if digits.len() == 1 {
        assert(behind.len() > 0 ==> whole[1] == behind[0]);
        lemma_first_where_is(whole, other, 1);
    } else {
        let f = first_where(whole, other);
        if f < 2 {
            assert(other(whole[f]));
        }
    }
}

/// A color code asks for the color of its number, and is as long as its digits
/// and those of its background.
pub proof fn a_color_code_asks_for_its_number(
    digits: Seq<char>,
    background: Seq<char>,
    behind: Seq<char>,
)
    requires
        are_legible_digits(digits, background, behind),
    ensures
        ({
            let text = if background.len() == 0 {
                digits + behind
            } else {
                digits + seq![','] + background + behind
            };
            &&& text.skip(code_len(text)) == behind
            &&& code_color(text) == if color_number(digits) < 16 {
                Some(palette()[color_number(digits)])
            } else {
                None
            }
        }),
{
    let after = if background.len() == 0 {
        behind
    } else {
        seq![','] + background + behind
    };
    let text = digits + after;
    let n = digits.len() as int;
    assert(background.len() > 0 ==> text =~= digits + seq![','] + background + behind);
    lemma_color_len(digits, after);
    if background.len() > 0 {
        assert(text.skip(n + 1) =~= background + behind);
        lemma_color_len(background, behind);
        assert(text[n] == ',');
        assert(text.skip(n + 1 + background.len()) =~= behind);
    } else {
        assert(after.len() > 0 ==> text[n] == after[0]);
        assert(text.skip(n) =~= behind);
    }
    assert(text.take(n) =~= digits);
    reveal_with_fuel(value_of, 3);
    assert('0' <= digits[0] <= '9');
    assert(digits.drop_last() =~= digits.take(n - 1));
    if n == 2 {
        assert('0' <= digits[1] <= '9');
        assert(digits.take(1).drop_last() =~= Seq::empty());
        assert(digits.take(1).last() == digits[0]);
    }
    assert(value_of(digits) == color_number(digits));
    let table = palette();
    assert(table[0] == (255u8, 255u8, 255u8) && table[1] == (0u8, 0u8, 0u8));
    assert(table[2] == (0u8, 0u8, 127u8) && table[3] == (0u8, 147u8, 0u8));
    assert(table[4] == (255u8, 0u8, 0u8) && table[5] == (127u8, 0u8, 0u8));
    assert(table[6] == (156u8, 0u8, 156u8) && table[7] == (252u8, 127u8, 0u8));
    assert(table[8] == (255u8, 255u8, 0u8) && table[9] == (0u8, 252u8, 0u8));
    assert(table[10] == (0u8, 147u8, 147u8) && table[11] == (0u8, 255u8, 255u8));
    assert(table[12] == (0u8, 0u8, 252u8) && table[13] == (255u8, 0u8, 255u8));
    assert(table[14] == (127u8, 127u8, 127u8) && table[15] == (210u8, 210u8, 210u8));
}

/// Whether the digits of a color code can be told from what follows.
pub open spec fn are_legible_digits(
    digits: Seq<char>,
    background: Seq<char>,
    behind: Seq<char>,
) -> bool {
    if background.len() == 0 {
        is_color_number(digits, behind) && (behind.len() > 0 ==> behind[0] != ',')
    } else {
        is_color_number(digits, seq![',']) && is_color_number(background, behind)
    }
}

proof fn lemma_marks_painted(before: Seq<Mark>, marks: Seq<Mark>, current: Seq<char>)
    requires
        are_legible(marks),
    ensures
        runs_painted(runs(marks_text(marks), current, color_behind(before), bold_behind(before)))
            == painted(current, color_behind(before), bold_behind(before)) + marks_painted(
            before,
            marks,
        ),
    decreases marks.len(),
{
    let color = color_behind(before);
    let bold = bold_behind(before);
    let text = marks_text(marks);
    let none = Seq::<char>::empty();
    let last = ended(current, color, bold);
    lemma_ended_painted(current, color, bold);
    if marks.len() == 0 {
        assert(marks_painted(before, marks) =~= Seq::empty());
        assert(painted(current, color, bold) + marks_painted(before, marks) =~= painted(
            current,
            color,
            bold,
        ));
    } else {
        let mark = marks[0];
        let others = marks.drop_first();
        let behind = marks_text(others);
        let next = before.push(mark);
        assert(next.last() == mark);
        assert(next.drop_last() =~= before);
        let shown = marks_painted(next, others);
        assert(painted(none, color_behind(next), bold_behind(next)) =~= Seq::empty());
        assert(painted(none, color_behind(next), bold_behind(next)) + shown =~= shown);
        assert(Seq::<(char, Option<(u8, u8, u8)>, bool)>::empty() + shown =~= shown);
        match mark {
            Mark::Shown(more) => {
                plain_text_stays_in_its_run(more, behind, current, color, bold);
                lemma_marks_painted(next, others, current + more);
                assert(painted(current + more, color, bold) + shown =~= painted(
                    current,
                    color,
                    bold,
                ) + (painted(more, color, bold) + shown));
            },
            Mark::Hidden(code) => {
                let codes = seq!['\u{16}', '\u{1D}', '\u{1F}'];
                assert(codes[0] == '\u{16}' && codes[1] == '\u{1D}' && codes[2] == '\u{1F}');
                assert(codes.contains(code));
                assert(text[0] == code);
                assert(text.skip(1) =~= behind);
                lemma_marks_painted(next, others, current);
            },
            Mark::Bold => {
                assert(text[0] == '\u{02}');
                assert(text.skip(1) =~= behind);
                lemma_marks_painted(next, others, none);
                lemma_painted_concat(last, runs(behind, none, color, !bold));
            },
            Mark::Reset => {
                assert(text[0] == '\u{0F}');
                assert(text.skip(1) =~= behind);
                lemma_marks_painted(next, others, none);
                lemma_painted_concat(last, runs(behind, none, None, false));
            },
            Mark::NoColor => {
                assert(text[0] == '\u{03}');
                assert(text.skip(1) =~= behind);
                lemma_first_where_is(behind, |c: char| !is_digit(c), 0);
                assert(behind.skip(0) =~= behind);
                lemma_marks_painted(next, others, none);
                lemma_painted_concat(last, runs(behind, none, None, bold));
            },
            Mark::Color { digits, background } => {
                a_color_code_asks_for_its_number(digits, background, behind);
                let rest = text.skip(1);
                assert(text[0] == '\u{03}');
                assert(background.len() == 0 ==> rest =~= digits + behind);
                assert(background.len() > 0 ==> rest =~= digits + seq![','] + background + behind);
                lemma_marks_painted(next, others, none);
                lemma_painted_concat(last, runs(behind, none, color_behind(next), bold));
            },
        }
    }
}

/// Every character that is shown has the color that the last color code or
/// reset before it asks for, and is bold where the weight has been switched an
/// odd number of times since the last reset.
pub proof fn the_last_code_before_a_text_counts(marks: Seq<Mark>)
    requires
        are_legible(marks),
    ensures
        runs_painted(runs(marks_text(marks), Seq::empty(), None, false)) == marks_painted(
            Seq::empty(),
            marks,
        ),
{
    let none = Seq::<Mark>::empty();
    lemma_marks_painted(none, marks, Seq::empty());
    assert(painted(Seq::empty(), None, false) + marks_painted(none, marks) =~= marks_painted(
        none,
        marks,
    ));
}

/// A bold code leaves the color of what follows and only switches the weight,
/// whatever the run before it was; a reset takes both back.
pub proof fn a_bold_code_leaves_the_color(
    text: Seq<char>,
    color: Option<(u8, u8, u8)>,
    bold: bool,
)
    requires
        is_plain(text),
        text.len() > 0,
    ensures
        runs(seq!['\u{02}'] + text, Seq::empty(), color, bold) == seq![
            (Run { text, color, bold: !bold }),
        ],
        runs(seq!['\u{0F}'] + text, Seq::empty(), color, bold) == seq![
            (Run { text, color: None, bold: false }),
        ],
{
    let none = Seq::<char>::empty();
    assert((seq!['\u{02}'] + text).skip(1) =~= text + none);
    assert((seq!['\u{0F}'] + text).skip(1) =~= text + none);
    plain_text_stays_in_its_run(text, none, none, color, !bold);
    plain_text_stays_in_its_run(text, none, none, None, false);
    let a = runs(text + none, none, color, !bold);
    let b = runs(text + none, none, None, false);
    assert(ended(none, color, bold) + a =~= a);
    assert(ended(none, color, bold) + b =~= b);
}

/// A segment shows its text in its color and weight.
pub proof fn a_segment_shows_what_it_holds(segments: Seq<ColorSegment>, i: int)
    requires
        0 <= i < segments.len(),
    ensures
        segment_runs(segments).len() == segments.len(),
        segment_runs(segments)[i].text == segments[i].text@,
        segment_runs(segments)[i].color == segments[i].color,
        segment_runs(segments)[i].bold == segments[i].bold,
{
}

} // verus!
