//! Text as sequences of characters: what trimming, splitting, searching and
//! letter case mean, and the functions that compute them.
//!
//! A piece of text is modelled by the `Seq<char>` of its characters. The
//! executable functions work on slices of characters, so that a position is
//! an index and never falls inside a character.

use vstd::prelude::*;

verus! {

/// `String::push` appends one character.
pub assume_specification[ String::push ](text: &mut String, c: char)
    ensures
        final(text)@ == old(text)@.push(c),
;

/// The text in `text`, if any.
pub open spec fn opt(text: Option<String>) -> Option<Seq<char>> {
    match text {
        Some(text) => Some(text@),
        None => None,
    }
}

/// The characters with Unicode's `White_Space` property.
pub open spec fn is_space(c: char) -> bool {
    ||| '\u{9}' <= c <= '\u{d}'
    ||| c == '\u{20}'
    ||| c == '\u{85}'
    ||| c == '\u{a0}'
    ||| c == '\u{1680}'
    ||| '\u{2000}' <= c <= '\u{200a}'
    ||| c == '\u{2028}'
    ||| c == '\u{2029}'
    ||| c == '\u{202f}'
    ||| c == '\u{205f}'
    ||| c == '\u{3000}'
}

/// Whether `c` is white space, by Unicode's `White_Space` property.
pub fn is_whitespace(c: char) -> (space: bool)
    ensures
        space == is_space(c),
{
    ('\u{9}' <= c && c <= '\u{d}') || c == '\u{20}' || c == '\u{85}' || c == '\u{a0}' || c
        == '\u{1680}' || ('\u{2000}' <= c && c <= '\u{200a}') || c == '\u{2028}' || c == '\u{2029}'
        || c == '\u{202f}' || c == '\u{205f}' || c == '\u{3000}'
}

fn is_not_whitespace(c: char) -> (kept: bool)
    ensures
        kept == !is_space(c),
{
    !is_whitespace(c)
}

pub open spec fn is_digit(c: char) -> bool {
    '0' <= c <= '9'
}

pub open spec fn is_letter(c: char) -> bool {
    ('a' <= c <= 'z') || ('A' <= c <= 'Z')
}

pub fn is_ascii_digit(c: char) -> (digit: bool)
    ensures
        digit == is_digit(c),
{
    '0' <= c && c <= '9'
}

pub fn is_ascii_letter(c: char) -> (letter: bool)
    ensures
        letter == is_letter(c),
{
    ('a' <= c && c <= 'z') || ('A' <= c && c <= 'Z')
}

/// An ASCII capital as its small letter; any other character unchanged.
pub open spec fn lower(c: char) -> char {
    if 'A' <= c <= 'Z' {
        (c as u32 + 32) as char
    } else {
        c
    }
}

/// An ASCII small letter as its capital; any other character unchanged.
pub open spec fn upper(c: char) -> char {
    if 'a' <= c <= 'z' {
        (c as u32 - 32) as char
    } else {
        c
    }
}

/// `text` with its ASCII capitals made small.
pub open spec fn lowered(text: Seq<char>) -> Seq<char> {
    Seq::new(text.len(), |i: int| lower(text[i]))
}

/// `text` with its ASCII small letters made capital.
pub open spec fn uppered(text: Seq<char>) -> Seq<char> {
    Seq::new(text.len(), |i: int| upper(text[i]))
}

pub fn lower_char(c: char) -> (l: char)
    ensures
        l == lower(c),
{
    if 'A' <= c && c <= 'Z' {
        (c as u8 + 32) as char
    } else {
        c
    }
}

pub fn upper_char(c: char) -> (u: char)
    ensures
        u == upper(c),
{
    if 'a' <= c && c <= 'z' {
        (c as u8 - 32) as char
    } else {
        c
    }
}

/// The position of the first character that `p` holds of; the length when
/// there is none.
pub open spec fn first_where(text: Seq<char>, p: spec_fn(char) -> bool) -> int
    decreases text.len(),
{
    if text.len() == 0 {
        0
    } else if p(text[0]) {
        0
    } else {
        1 + first_where(text.drop_first(), p)
    }
}

/// The position after the last character that `p` holds of; zero when there
/// is none.
pub open spec fn end_where(text: Seq<char>, p: spec_fn(char) -> bool) -> int
    decreases text.len(),
{
    if text.len() == 0 {
        0
    } else if p(text.last()) {
        text.len() as int
    } else {
        end_where(text.drop_last(), p)
    }
}

pub proof fn lemma_first_where(text: Seq<char>, p: spec_fn(char) -> bool)
    ensures
        0 <= first_where(text, p) <= text.len(),
        forall|i: int| 0 <= i < first_where(text, p) ==> !p(#[trigger] text[i]),
        first_where(text, p) < text.len() ==> p(text[first_where(text, p)]),
    decreases text.len(),
{
    if text.len() != 0 && !p(text[0]) {
        let rest = text.drop_first();
        lemma_first_where(rest, p);
        assert forall|i: int| 0 <= i < first_where(text, p) implies !p(#[trigger] text[i]) by {
            if i > 0 {
                assert(text[i] == rest[i - 1]);
            }
        }
    }
}

/// The first position is the one with nothing before it and a hit on it.
pub proof fn lemma_first_where_is(text: Seq<char>, p: spec_fn(char) -> bool, k: int)
    requires
        0 <= k <= text.len(),
        forall|i: int| 0 <= i < k ==> !p(#[trigger] text[i]),
        k < text.len() ==> p(text[k]),
    ensures
        first_where(text, p) == k,
{
    lemma_first_where(text, p);
    let f = first_where(text, p);
    if f < k {
        assert(!p(text[f]));
    } else if k < f {
        assert(!p(text[k]));
    }
}

pub proof fn lemma_end_where(text: Seq<char>, p: spec_fn(char) -> bool)
    ensures
        0 <= end_where(text, p) <= text.len(),
        forall|i: int| end_where(text, p) <= i < text.len() ==> !p(#[trigger] text[i]),
        end_where(text, p) > 0 ==> p(text[end_where(text, p) - 1]),
    decreases text.len(),
{
    if text.len() != 0 && !p(text.last()) {
        let rest = text.drop_last();
        lemma_end_where(rest, p);
        assert forall|i: int| end_where(text, p) <= i < text.len() implies !p(
            #[trigger] text[i],
        ) by {
            if i < rest.len() {
                assert(text[i] == rest[i]);
            }
        }
    }
}

pub proof fn lemma_end_where_is(text: Seq<char>, p: spec_fn(char) -> bool, k: int)
    requires
        0 <= k <= text.len(),
        forall|i: int| k <= i < text.len() ==> !p(#[trigger] text[i]),
        k > 0 ==> p(text[k - 1]),
    ensures
        end_where(text, p) == k,
{
    lemma_end_where(text, p);
    let e = end_where(text, p);
    if e < k {
        assert(!p(text[k - 1]));
    } else if k < e {
        assert(!p(text[e - 1]));
    }
}

/// `text` without its leading characters that `p` holds of.
pub open spec fn skip_leading(text: Seq<char>, p: spec_fn(char) -> bool) -> Seq<char> {
    text.skip(first_where(text, |c: char| !p(c)))
}

/// `text` without its trailing characters that `p` holds of.
pub open spec fn skip_trailing(text: Seq<char>, p: spec_fn(char) -> bool) -> Seq<char> {
    text.take(end_where(text, |c: char| !p(c)))
}

/// `text` without the white space before it.
pub open spec fn trim_start(text: Seq<char>) -> Seq<char> {
    skip_leading(text, |c: char| is_space(c))
}

/// `text` without the white space around it.
pub open spec fn trim(text: Seq<char>) -> Seq<char> {
    skip_trailing(trim_start(text), |c: char| is_space(c))
}

/// Whether all white space at the ends of `text` lies outside `a..b`, and
/// only that.
pub open spec fn trims_to(text: Seq<char>, a: int, b: int) -> bool {
    &&& 0 <= a <= b <= text.len()
    &&& forall|i: int| 0 <= i < a ==> is_space(#[trigger] text[i])
    &&& forall|i: int| b <= i < text.len() ==> is_space(#[trigger] text[i])
    &&& a < b ==> !is_space(text[a]) && !is_space(text[b - 1])
}

/// Trimming keeps what lies between the white space at the ends.
pub proof fn lemma_trim_is(text: Seq<char>, a: int, b: int)
    requires
        trims_to(text, a, b),
    ensures
        trim(text) == text.subrange(a, b),
{
    let space = |c: char| is_space(c);
    let kept = |c: char| !space(c);
    let f = first_where(text, kept);
    let start = text.skip(f);
    if a < b {
        lemma_first_where_is(text, kept, a);
        lemma_end_where_is(start, kept, b - a);
        assert(start.take(b - a) =~= text.subrange(a, b));
    } else {
        assert forall|i: int| 0 <= i < text.len() implies !kept(#[trigger] text[i]) by {}
        lemma_first_where_is(text, kept, text.len() as int);
        lemma_end_where(start, kept);
        assert(trim(text) =~= text.subrange(a, b));
    }
}

/// Every text has the bounds between which it is trimmed.
pub proof fn lemma_trim_bounds(text: Seq<char>) -> (bounds: (int, int))
    ensures
        trims_to(text, bounds.0, bounds.1),
        trim(text) == text.subrange(bounds.0, bounds.1),
{
    let space = |c: char| is_space(c);
    let kept = |c: char| !space(c);
    lemma_first_where(text, kept);
    lemma_end_where(text, kept);
    let f = first_where(text, kept);
    let e = end_where(text, kept);
    assert forall|i: int| 0 <= i < f implies is_space(#[trigger] text[i]) by {
        assert(!kept(text[i]));
    }
    assert forall|i: int| e <= i < text.len() implies is_space(#[trigger] text[i]) by {
        assert(!kept(text[i]));
    }
    let bounds = if f < text.len() {
        if e <= f {
            assert(!kept(text[f]));
        }
        (f, e)
    } else {
        (0, 0)
    };
    lemma_trim_is(text, bounds.0, bounds.1);
    bounds
}

/// Trimmed text has no white space at its ends.
pub proof fn lemma_trim_ends(text: Seq<char>)
    ensures
        trim(text).len() > 0 ==> !is_space(trim(text)[0]) && !is_space(trim(text).last()),
{
    let (a, b) = lemma_trim_bounds(text);
}

/// Trimming twice is trimming once.
pub proof fn trimming_is_idempotent(text: Seq<char>)
    ensures
        trim(trim(text)) == trim(text),
{
    let once = trim(text);
    lemma_trim_ends(text);
    lemma_trim_is(once, 0, once.len() as int);
    assert(once.subrange(0, once.len() as int) =~= once);
}

/// The characters of `text`.
pub fn chars_of(text: &str) -> (chars: Vec<char>)
    ensures
        chars@ == text@,
{
    let mut chars: Vec<char> = Vec::new();
    for c in iter: text.chars()
        invariant
            chars@ == text@.take(iter.index()),
            iter.seq() == text@,
    {
        chars.push(c);
    }
    chars
}

/// The text made of `chars`.
pub fn string_of(chars: &[char]) -> (text: String)
    ensures
        text@ == chars@,
{
    let mut text = String::new();
    let mut i: usize = 0;
    while i < chars.len()
        invariant
            i <= chars@.len(),
            text@ == chars@.take(i as int),
        decreases chars@.len() - i,
    {
        text.push(chars[i]);
        i += 1;
    }
    text
}

/// A copy of `text`.
pub fn copy_of(text: &[char]) -> (copy: Vec<char>)
    ensures
        copy@ == text@,
{
    let mut copy: Vec<char> = Vec::new();
    copy.extend_from_slice(text);
    assert(copy@ =~= text@);
    copy
}

/// `text` with its ASCII capitals made small.
pub fn lowercase(text: &[char]) -> (small: Vec<char>)
    ensures
        small@ == lowered(text@),
{
    let mut small: Vec<char> = Vec::new();
    let mut i: usize = 0;
    while i < text.len()
        invariant
            i <= text@.len(),
            small@ == lowered(text@).take(i as int),
        decreases text@.len() - i,
    {
        small.push(lower_char(text[i]));
        i += 1;
    }
    small
}

/// `text` with its ASCII small letters made capital.
pub fn uppercase(text: &[char]) -> (large: Vec<char>)
    ensures
        large@ == uppered(text@),
{
    let mut large: Vec<char> = Vec::new();
    let mut i: usize = 0;
    while i < text.len()
        invariant
            i <= text@.len(),
            large@ == uppered(text@).take(i as int),
        decreases text@.len() - i,
    {
        large.push(upper_char(text[i]));
        i += 1;
    }
    large
}

/// The position of the first character that `f` accepts.
pub fn index_where<F: Fn(char) -> bool>(
    text: &[char],
    f: F,
    Ghost(p): Ghost<spec_fn(char) -> bool>,
) -> (k: usize)
    requires
        forall|c: char| call_requires(f, (c,)),
        forall|c: char, b: bool| call_ensures(f, (c,), b) ==> b == p(c),
    ensures
        k == first_where(text@, p),
        k <= text@.len(),
{
    let mut i: usize = 0;
    while i < text.len()
        invariant
            i <= text@.len(),
            forall|c: char| call_requires(f, (c,)),
            forall|c: char, b: bool| call_ensures(f, (c,), b) ==> b == p(c),
            forall|j: int| 0 <= j < i ==> !p(#[trigger] text@[j]),
        decreases text@.len() - i,
    {
        if f(text[i]) {
            proof {
                lemma_first_where_is(text@, p, i as int);
            }
            return i;
        }
        i += 1;
    }
    proof {
        lemma_first_where_is(text@, p, i as int);
    }
    i
}

/// The position after the last character that `f` accepts.
pub fn end_index_where<F: Fn(char) -> bool>(
    text: &[char],
    f: F,
    Ghost(p): Ghost<spec_fn(char) -> bool>,
) -> (k: usize)
    requires
        forall|c: char| call_requires(f, (c,)),
        forall|c: char, b: bool| call_ensures(f, (c,), b) ==> b == p(c),
    ensures
        k == end_where(text@, p),
        k <= text@.len(),
{
    let mut i: usize = text.len();
    while i > 0
        invariant
            i <= text@.len(),
            forall|c: char| call_requires(f, (c,)),
            forall|c: char, b: bool| call_ensures(f, (c,), b) ==> b == p(c),
            forall|j: int| i <= j < text@.len() ==> !p(#[trigger] text@[j]),
        decreases i,
    {
        if f(text[i - 1]) {
            proof {
                lemma_end_where_is(text@, p, i as int);
            }
            return i;
        }
        i -= 1;
    }
    proof {
        lemma_end_where_is(text@, p, 0);
    }
    0
}

/// `text` from position `from` on.
pub fn tail(text: &[char], from: usize) -> (rest: &[char])
    requires
        from <= text@.len(),
    ensures
        rest@ == text@.skip(from as int),
{
    let rest = &text[from..text.len()];
    assert(rest@ =~= text@.skip(from as int));
    rest
}

/// `text` up to position `to`.
pub fn head(text: &[char], to: usize) -> (front: &[char])
    requires
        to <= text@.len(),
    ensures
        front@ == text@.take(to as int),
{
    let front = &text[0..to];
    assert(front@ =~= text@.take(to as int));
    front
}

/// `text` without the white space before it.
pub fn trimmed_start(text: &[char]) -> (rest: &[char])
    ensures
        rest@ == trim_start(text@),
{
    let ghost space = |c: char| is_space(c);
    let ghost kept = |c: char| !space(c);
    let from = index_where(
        text,
        is_not_whitespace,
        Ghost(kept),
    );
    tail(text, from)
}

/// `text` without the white space around it.
pub fn trimmed(text: &[char]) -> (rest: &[char])
    ensures
        rest@ == trim(text@),
{
    let rest = trimmed_start(text);
    let ghost space = |c: char| is_space(c);
    let ghost kept = |c: char| !space(c);
    let to = end_index_where(
        rest,
        is_not_whitespace,
        Ghost(kept),
    );
    head(rest, to)
}

/// White space is what Unicode says: these code points and no others.
pub proof fn white_space_is_unicodes(c: char)
    ensures
        is_space(c) <==> {
            let n = c as int;
            ||| 0x9 <= n <= 0xd
            ||| n == 0x20 || n == 0x85 || n == 0xa0 || n == 0x1680
            ||| 0x2000 <= n <= 0x200a
            ||| n == 0x2028 || n == 0x2029 || n == 0x202f || n == 0x205f || n == 0x3000
        },
{
}

/// Small letters and capitals are each other's: the letters are changed by
/// the distance between `a` and `A`, and nothing else is changed.
pub proof fn letter_case_is_that_of_ascii(c: char)
    ensures
        0x41 <= c as int <= 0x5a ==> lower(c) as int == c as int + 0x20 && upper(lower(c)) == c,
        0x61 <= c as int <= 0x7a ==> upper(c) as int == c as int - 0x20 && lower(upper(c)) == c,
        !(0x41 <= c as int <= 0x5a) ==> lower(c) == c,
        !(0x61 <= c as int <= 0x7a) ==> upper(c) == c,
        is_letter(c) <==> lower(c) != c || upper(c) != c,
        is_digit(c) <==> 0x30 <= c as int <= 0x39,
{
}

/// Letter case is changed character by character.
pub proof fn letter_case_keeps_places(text: Seq<char>, i: int)
    requires
        0 <= i < text.len(),
    ensures
        lowered(text).len() == text.len() && lowered(text)[i] == lower(text[i]),
        uppered(text).len() == text.len() && uppered(text)[i] == upper(text[i]),
{
}

/// Trimming takes the white space off both ends, and nothing else.
pub proof fn trimming_takes_white_space_off(before: Seq<char>, text: Seq<char>, after: Seq<char>)
    requires
        forall|i: int| 0 <= i < before.len() ==> is_space(#[trigger] before[i]),
        forall|i: int| 0 <= i < after.len() ==> is_space(#[trigger] after[i]),
        text.len() > 0 ==> !is_space(text[0]) && !is_space(text.last()),
    ensures
        trim(before + text + after) == text,
{
    let all = before + text + after;
    let a = before.len() as int;
    let b = a + text.len();
    assert forall|i: int| 0 <= i < a implies is_space(#[trigger] all[i]) by {
        assert(all[i] == before[i]);
    }
    assert forall|i: int| b <= i < all.len() implies is_space(#[trigger] all[i]) by {
        assert(all[i] == after[i - b]);
    }
    if text.len() > 0 {
        assert(all[a] == text[0]);
        assert(all[b - 1] == text.last());
    }
    lemma_trim_is(all, a, b);
    assert(all.subrange(a, b) =~= text);
}

} // verus!
