//! Cutting text into pieces, putting pieces together and finding one text in
//! another.

use vstd::prelude::*;

use crate::text::{
    chars_of, end_where, first_where, head, index_where, is_space, is_whitespace,
    lemma_end_where_is, lemma_first_where, lemma_first_where_is, lemma_trim_bounds, skip_leading,
    string_of, tail, trim, trim_start, trimmed_start,
};

verus! {

/// The texts held by `strings`.
pub open spec fn texts(strings: Seq<String>) -> Seq<Seq<char>> {
    Seq::new(strings.len(), |i: int| strings[i]@)
}

/// The pieces of `text` between the characters that `p` holds of, empty ones
/// included.
pub open spec fn split_on(text: Seq<char>, p: spec_fn(char) -> bool) -> Seq<Seq<char>>
    decreases text.len(),
{
    let k = first_where(text, p);
    if 0 <= k < text.len() {
        seq![text.take(k)] + split_on(text.skip(k + 1), p)
    } else {
        seq![text]
    }
}

/// The pieces of `text` between white space.
pub open spec fn words(text: Seq<char>) -> Seq<Seq<char>>
    decreases text.len(),
{
    let rest = trim_start(text);
    let k = first_where(rest, |c: char| is_space(c));
    proof {
        lemma_trim_start(text);
        lemma_first_where(rest, |c: char| is_space(c));
    }
    if k > 0 {
        seq![rest.take(k)] + words(rest.skip(k))
    } else {
        Seq::empty()
    }
}

/// The pieces with `between` from one to the next.
pub open spec fn join(pieces: Seq<Seq<char>>, between: Seq<char>) -> Seq<char>
    decreases pieces.len(),
{
    if pieces.len() == 0 {
        Seq::empty()
    } else if pieces.len() == 1 {
        pieces[0]
    } else {
        join(pieces.drop_last(), between) + between + pieces.last()
    }
}

/// The first position at which `part` stands in `text`.
pub open spec fn find(text: Seq<char>, part: Seq<char>) -> Option<int>
    decreases text.len(),
{
    if part.is_prefix_of(text) {
        Some(0)
    } else if text.len() == 0 {
        None
    } else {
        match find(text.drop_first(), part) {
            Some(i) => Some(i + 1),
            None => None,
        }
    }
}

/// Whether `part` stands at position `i` of `text`.
pub open spec fn stands_at(text: Seq<char>, part: Seq<char>, i: int) -> bool {
    0 <= i <= text.len() && part.is_prefix_of(text.skip(i))
}

pub proof fn lemma_trim_start(text: Seq<char>)
    ensures
        trim_start(text).len() <= text.len(),
        trim_start(text).len() > 0 ==> !is_space(trim_start(text)[0]),
{
    let space = |c: char| is_space(c);
    lemma_first_where(text, |c: char| !space(c));
}

/// `find` gives the least position at which the part stands.
pub proof fn lemma_find(text: Seq<char>, part: Seq<char>)
    ensures
        match find(text, part) {
            Some(i) => stands_at(text, part, i) && forall|j: int|
                0 <= j < i ==> !stands_at(text, part, j),
            None => forall|j: int| !stands_at(text, part, j),
        },
    decreases text.len(),
{
    assert(text.skip(0) =~= text);
    if !part.is_prefix_of(text) && text.len() > 0 {
        let rest = text.drop_first();
        lemma_find(rest, part);
        assert forall|j: int| 0 < j <= text.len() implies text.skip(j) == rest.skip(j - 1) by {
            assert(text.skip(j) =~= rest.skip(j - 1));
        }
        assert forall|j: int| 0 < j && stands_at(text, part, j) implies stands_at(
            rest,
            part,
            j - 1,
        ) by {}
    }
}

pub proof fn lemma_find_is(text: Seq<char>, part: Seq<char>, k: int)
    requires
        stands_at(text, part, k),
        forall|j: int| 0 <= j < k ==> !stands_at(text, part, j),
    ensures
        find(text, part) == Some(k),
{
    lemma_find(text, part);
}

/// Whether the two texts are the same.
pub fn same(a: &[char], b: &[char]) -> (equal: bool)
    ensures
        equal == (a@ == b@),
{
    if a.len() != b.len() {
        return false;
    }
    let mut i: usize = 0;
    while i < a.len()
        invariant
            i <= a@.len(),
            a@.len() == b@.len(),
            forall|j: int| 0 <= j < i ==> a@[j] == b@[j],
        decreases a@.len() - i,
    {
        if a[i] != b[i] {
            return false;
        }
        i += 1;
    }
    assert(a@ =~= b@);
    true
}

/// Whether `text` is `other`.
pub fn is_text(text: &[char], other: &str) -> (equal: bool)
    ensures
        equal == (text@ == other@),
{
    let other = chars_of(other);
    same(text, &other)
}

/// Whether the two texts are the same.
pub fn same_text(a: &str, b: &str) -> (equal: bool)
    ensures
        equal == (a@ == b@),
{
    let a = chars_of(a);
    is_text(&a, b)
}

/// Whether `text` begins with `front`.
pub fn begins_with(text: &[char], front: &[char]) -> (yes: bool)
    ensures
        yes == front@.is_prefix_of(text@),
{
    if text.len() < front.len() {
        return false;
    }
    let begin = head(text, front.len());
    let yes = same(begin, front);
    assert(text@.take(front@.len() as int) == text@.subrange(0, front@.len() as int));
    yes
}

/// Whether `text` begins with `front`.
pub fn begins_with_text(text: &[char], front: &str) -> (yes: bool)
    ensures
        yes == front@.is_prefix_of(text@),
{
    let front = chars_of(front);
    begins_with(text, &front)
}

/// Whether `text` ends with `back`.
pub fn ends_with_text(text: &[char], back: &str) -> (yes: bool)
    ensures
        yes == back@.is_suffix_of(text@),
{
    let back = chars_of(back);
    if text.len() < back.len() {
        return false;
    }
    let end = tail(text, text.len() - back.len());
    let yes = same(end, &back);
    assert(end@ == text@.subrange(text@.len() - back@.len(), text@.len() as int));
    yes
}

/// The first position at which `part` stands in `text`.
pub fn position(text: &[char], part: &[char]) -> (found: Option<usize>)
    ensures
        match found {
            Some(i) => find(text@, part@) == Some(i as int) && i + part@.len() <= text@.len(),
            None => find(text@, part@) is None,
        },
{
    let mut i: usize = 0;
    while i <= text.len()
        invariant
            i <= text@.len() + 1,
            text@.len() <= usize::MAX - 1 || i <= text@.len(),
            forall|j: int| 0 <= j < i ==> !stands_at(text@, part@, j),
        decreases text@.len() + 1 - i,
    {
        let rest = tail(text, i);
        if begins_with(rest, part) {
            proof {
                lemma_find_is(text@, part@, i as int);
            }
            return Some(i);
        }
        if i == text.len() {
            proof {
                lemma_find(text@, part@);
            }
            return None;
        }
        i += 1;
    }
    proof {
        lemma_find(text@, part@);
    }
    None
}

/// The first position at which `part` stands in `text`.
pub fn position_of(text: &[char], part: &str) -> (found: Option<usize>)
    ensures
        match found {
            Some(i) => find(text@, part@) == Some(i as int) && i + part@.len() <= text@.len(),
            None => find(text@, part@) is None,
        },
{
    let part = chars_of(part);
    position(text, &part)
}

/// The pieces of `text` between white space.
pub fn words_of(text: &[char]) -> (pieces: Vec<String>)
    ensures
        texts(pieces@) == words(text@),
{
    let mut pieces: Vec<String> = Vec::new();
    let mut cur: &[char] = text;
    loop
        invariant
            words(text@) == texts(pieces@) + words(cur@),
        ensures
            words(text@) == texts(pieces@),
        decreases cur@.len(),
    {
        let rest = trimmed_start(cur);
        let ghost space = |c: char| is_space(c);
        let k = index_where(rest, is_whitespace, Ghost(space));
        proof {
            lemma_trim_start(cur@);
            lemma_first_where(rest@, space);
        }
        if k == 0 {
            assert(words(cur@) =~= Seq::empty());
            assert(texts(pieces@) + words(cur@) =~= texts(pieces@));
            break;
        }
        let piece = string_of(head(rest, k));
        let ghost before = pieces@;
        pieces.push(piece);
        assert(texts(pieces@) =~= texts(before).push(rest@.take(k as int)));
        let next = tail(rest, k);
        assert(texts(pieces@) + words(next@) =~= texts(before) + (seq![rest@.take(k as int)]
            + words(next@)));
        cur = next;
    }
    pieces
}

/// The position of the first `c` in `text`; the length when there is none.
pub fn index_of(text: &[char], c: char) -> (k: usize)
    ensures
        k == first_where(text@, |x: char| x == c),
        k <= text@.len(),
        k < text@.len() ==> text@[k as int] == c,
{
    let ghost p = |x: char| x == c;
    let mut i: usize = 0;
    while i < text.len()
        invariant
            i <= text@.len(),
            p == (|x: char| x == c),
            forall|j: int| 0 <= j < i ==> !p(#[trigger] text@[j]),
        decreases text@.len() - i,
    {
        if text[i] == c {
            proof {
                lemma_first_where_is(text@, p, i as int);
            }
            return i;
        }
        i += 1;
    }
    proof {
        lemma_first_where_is(text@, p, i as int);
    }
    i
}

/// The position after the last `c` in `text`; zero when there is none.
pub fn end_of(text: &[char], c: char) -> (k: usize)
    ensures
        k == end_where(text@, |x: char| x == c),
        k <= text@.len(),
        k > 0 ==> text@[k - 1] == c,
        forall|j: int| k <= j < text@.len() ==> #[trigger] text@[j] != c,
{
    let ghost p = |x: char| x == c;
    let mut i: usize = text.len();
    while i > 0
        invariant
            i <= text@.len(),
            p == (|x: char| x == c),
            forall|j: int| i <= j < text@.len() ==> !p(#[trigger] text@[j]),
        decreases i,
    {
        if text[i - 1] == c {
            proof {
                lemma_end_where_is(text@, p, i as int);
            }
            return i;
        }
        i -= 1;
    }
    proof {
        lemma_end_where_is(text@, p, 0);
    }
    0
}

/// The pieces of `text` between the characters `c`.
pub fn split_text(text: &[char], c: char) -> (pieces: Vec<String>)
    ensures
        texts(pieces@) == split_on(text@, |x: char| x == c),
        pieces@.len() > 0,
{
    let ghost p = |x: char| x == c;
    let mut pieces: Vec<String> = Vec::new();
    let mut cur: &[char] = text;
    loop
        invariant_except_break
            p == (|x: char| x == c),
            split_on(text@, p) == texts(pieces@) + split_on(cur@, p),
        ensures
            split_on(text@, p) == texts(pieces@),
            pieces@.len() > 0,
        decreases cur@.len(),
    {
        let k = index_of(cur, c);
        let piece = string_of(head(cur, k));
        let ghost before = pieces@;
        pieces.push(piece);
        assert(texts(pieces@) =~= texts(before).push(cur@.take(k as int)));
        if k == cur.len() {
            assert(cur@.take(k as int) =~= cur@);
            assert(texts(pieces@) =~= texts(before) + split_on(cur@, p));
            break;
        }
        let next = tail(cur, k + 1);
        assert(texts(pieces@) + split_on(next@, p) =~= texts(before) + (seq![
            cur@.take(k as int),
        ] + split_on(next@, p)));
        cur = next;
    }
    pieces
}

/// `text` without the characters `c` that lead it.
pub fn without_leading(text: &[char], c: char) -> (rest: &[char])
    ensures
        rest@ == skip_leading(text@, |x: char| x == c),
{
    let ghost p = |x: char| x == c;
    let ghost kept = |x: char| !p(x);
    let mut i: usize = 0;
    while i < text.len() && text[i] == c
        invariant
            i <= text@.len(),
            p == (|x: char| x == c),
            kept == (|x: char| !p(x)),
            forall|j: int| 0 <= j < i ==> !kept(#[trigger] text@[j]),
        decreases text@.len() - i,
    {
        i += 1;
    }
    proof {
        lemma_first_where_is(text@, kept, i as int);
    }
    tail(text, i)
}

/// The strings from position `from` on.
pub fn strings_from(strings: &Vec<String>, from: usize) -> (rest: Vec<String>)
    requires
        from <= strings@.len(),
    ensures
        texts(rest@) == texts(strings@).skip(from as int),
{
    let mut rest: Vec<String> = Vec::new();
    let mut i: usize = from;
    while i < strings.len()
        invariant
            from <= i <= strings@.len(),
            texts(rest@) == texts(strings@).subrange(from as int, i as int),
        decreases strings@.len() - i,
    {
        let ghost before = rest@;
        rest.push(strings[i].clone());
        assert(texts(rest@) =~= texts(before).push(strings@[i as int]@));
        assert(texts(rest@) =~= texts(strings@).subrange(from as int, i + 1));
        i += 1;
    }
    rest
}

/// The pieces with `between` from one to the next.
pub fn joined(pieces: &Vec<String>, between: &str) -> (text: String)
    ensures
        text@ == join(texts(pieces@), between@),
{
    let mut text = String::new();
    let mut i: usize = 0;
    let ghost all = texts(pieces@);
    while i < pieces.len()
        invariant
            i <= pieces@.len(),
            all == texts(pieces@),
            text@ == join(all.take(i as int), between@),
        decreases pieces@.len() - i,
    {
        assert(all.take(i + 1).drop_last() =~= all.take(i as int));
        if i > 0 {
            text.append(between);
        }
        text.append(pieces[i].as_str());
        assert(text@ =~= join(all.take(i + 1), between@));
        i += 1;
    }
    assert(all.take(i as int) =~= all);
    text
}

/// A text begins with a word when white space, or nothing, stands before it
/// and behind it; the other words are those of what is behind.
pub proof fn words_stand_between_white_space(
    before: Seq<char>,
    word: Seq<char>,
    after: Seq<char>,
)
    requires
        forall|i: int| 0 <= i < before.len() ==> is_space(#[trigger] before[i]),
        word.len() > 0,
        forall|i: int| 0 <= i < word.len() ==> !is_space(#[trigger] word[i]),
        after.len() > 0 ==> is_space(after[0]),
    ensures
        words(before + word + after) == seq![word] + words(after),
{
    let text = before + word + after;
    let space = |c: char| is_space(c);
    let kept = |c: char| !space(c);
    let a = before.len() as int;
    assert forall|i: int| 0 <= i < a implies !kept(#[trigger] text[i]) by {
        assert(text[i] == before[i]);
    }
    assert(text[a] == word[0]);
    lemma_first_where_is(text, kept, a);
    let rest = trim_start(text);
    assert(rest =~= word + after);
    let n = word.len() as int;
    assert forall|i: int| 0 <= i < n implies !space(#[trigger] rest[i]) by {
        assert(rest[i] == word[i]);
    }
    if after.len() > 0 {
        assert(rest[n] == after[0]);
    }
    lemma_first_where_is(rest, space, n);
    assert(rest.take(n) =~= word);
    assert(rest.skip(n) =~= after);
}

/// A text of white space has no words.
pub proof fn blank_text_has_no_words(text: Seq<char>)
    requires
        forall|i: int| 0 <= i < text.len() ==> is_space(#[trigger] text[i]),
    ensures
        words(text) == Seq::<Seq<char>>::empty(),
{
    let space = |c: char| is_space(c);
    let kept = |c: char| !space(c);
    assert forall|i: int| 0 <= i < text.len() implies !kept(#[trigger] text[i]) by {}
    lemma_first_where_is(text, kept, text.len() as int);
    let rest = trim_start(text);
    assert(rest =~= Seq::empty());
    lemma_first_where(rest, space);
}

/// A word has no white space in it and is not empty.
pub proof fn words_are_free_of_white_space(text: Seq<char>, i: int, j: int)
    requires
        0 <= i < words(text).len(),
    ensures
        words(text)[i].len() > 0,
        0 <= j < words(text)[i].len() ==> !is_space(words(text)[i][j]),
    decreases text.len(),
{
    let rest = trim_start(text);
    let space = |c: char| is_space(c);
    let k = first_where(rest, space);
    lemma_trim_start(text);
    lemma_first_where(rest, space);
    if k > 0 {
        if i > 0 {
            words_are_free_of_white_space(rest.skip(k), i - 1, j);
        } else if 0 <= j < k {
            assert(!space(rest[j]));
        }
    }
}

/// White space behind a text adds no words.
proof fn lemma_words_with_space_behind(text: Seq<char>, after: Seq<char>)
    requires
        forall|i: int| 0 <= i < after.len() ==> is_space(#[trigger] after[i]),
    ensures
        words(text + after) == words(text),
    decreases text.len(),
{
    let space = |c: char| is_space(c);
    let kept = |c: char| !space(c);
    let a = first_where(text, kept);
    lemma_first_where(text, kept);
    let all = text + after;
    if a == text.len() {
        assert forall|i: int| 0 <= i < text.len() implies is_space(#[trigger] text[i]) by {
            assert(!kept(text[i]));
        }
        assert forall|i: int| 0 <= i < all.len() implies is_space(#[trigger] all[i]) by {
            if i >= text.len() {
                assert(all[i] == after[i - text.len()]);
            }
        }
        blank_text_has_no_words(text);
        blank_text_has_no_words(all);
    } else {
        let rest = text.skip(a);
        let k = first_where(rest, space);
        lemma_first_where(rest, space);
        assert(rest[0] == text[a]);
        assert(kept(text[a]));
        let before = text.take(a);
        let word = rest.take(k);
        let behind = rest.skip(k);
        assert forall|i: int| 0 <= i < before.len() implies is_space(#[trigger] before[i]) by {
            assert(!kept(text[i]));
        }
        assert forall|i: int| 0 <= i < word.len() implies !is_space(#[trigger] word[i]) by {
            assert(!space(rest[i]));
        }
        if behind.len() > 0 {
            assert(behind[0] == rest[k]);
        } else if after.len() > 0 {
            assert((behind + after)[0] == after[0]);
        }
        assert(text =~= before + word + behind);
        assert(all =~= before + word + (behind + after));
        words_stand_between_white_space(before, word, behind);
        if behind.len() > 0 {
            assert((behind + after)[0] == behind[0]);
        }
        words_stand_between_white_space(before, word, behind + after);
        lemma_words_with_space_behind(behind, after);
    }
}

/// White space around a text does not change its words.
pub proof fn words_are_those_of_the_trimmed_text(text: Seq<char>)
    ensures
        words(trim(text)) == words(text),
    decreases text.len(),
{
    let (a, b) = lemma_trim_bounds(text);
    let middle = text.subrange(a, b);
    let after = text.skip(b);
    let front = text.take(b);
    assert(text =~= front + after);
    assert forall|i: int| 0 <= i < after.len() implies is_space(#[trigger] after[i]) by {
        assert(after[i] == text[b + i]);
    }
    lemma_words_with_space_behind(front, after);
    let space = |c: char| is_space(c);
    let kept = |c: char| !space(c);
    if a < b {
        assert forall|i: int| 0 <= i < a implies !kept(#[trigger] front[i]) by {
            assert(is_space(text[i]));
        }
        assert(front[a] == text[a]);
        lemma_first_where_is(front, kept, a);
        lemma_first_where_is(middle, kept, 0);
        assert(trim_start(front) =~= middle);
        assert(trim_start(middle) =~= middle);
    } else {
        assert forall|i: int| 0 <= i < front.len() implies is_space(#[trigger] front[i]) by {
            assert(is_space(text[i]));
        }
        blank_text_has_no_words(front);
        blank_text_has_no_words(middle);
    }
}

/// A text is cut at each character that is asked for, and there only.
pub proof fn pieces_stand_between_the_cuts(
    piece: Seq<char>,
    cut: char,
    after: Seq<char>,
    p: spec_fn(char) -> bool,
)
    requires
        forall|i: int| 0 <= i < piece.len() ==> !p(#[trigger] piece[i]),
        p(cut),
    ensures
        split_on(piece, p) == seq![piece],
        split_on(piece + seq![cut] + after, p) == seq![piece] + split_on(after, p),
{
    let text = piece + seq![cut] + after;
    let n = piece.len() as int;
    assert forall|i: int| 0 <= i < n implies !p(#[trigger] text[i]) by {
        assert(text[i] == piece[i]);
    }
    assert(text[n] == cut);
    lemma_first_where_is(text, p, n);
    lemma_first_where_is(piece, p, n);
    assert(text.take(n) =~= piece);
    assert(text.skip(n + 1) =~= after);
}

/// Texts are joined with the separator between each two of them.
pub proof fn joined_texts_have_the_separator_between(
    pieces: Seq<Seq<char>>,
    last: Seq<char>,
    between: Seq<char>,
)
    ensures
        join(Seq::empty(), between) == Seq::<char>::empty(),
        join(seq![last], between) == last,
        pieces.len() > 0 ==> join(pieces.push(last), between) == join(pieces, between) + between
            + last,
{
    assert(pieces.push(last).drop_last() =~= pieces);
}

proof fn lemma_join_front(first: Seq<char>, rest: Seq<Seq<char>>, between: Seq<char>)
    requires
        rest.len() > 0,
    ensures
        join(seq![first] + rest, between) == first + between + join(rest, between),
    decreases rest.len(),
{
    let all = seq![first] + rest;
    assert(all.drop_last() =~= seq![first] + rest.drop_last());
    assert(all.last() == rest.last());
    if rest.len() == 1 {
        assert(all.drop_last() =~= seq![first]);
        assert(join(seq![first], between) == first);
        assert(join(rest, between) == rest[0]);
        assert(join(all, between) =~= first + between + join(rest, between));
    } else {
        lemma_join_front(first, rest.drop_last(), between);
        assert(join(all, between) =~= first + between + join(rest, between));
    }
}

/// Cutting a text where pieces were joined gives the pieces back.
pub proof fn cutting_undoes_joining(pieces: Seq<Seq<char>>, cut: char)
    requires
        pieces.len() > 0,
        forall|i: int, j: int|
            0 <= i < pieces.len() && 0 <= j < pieces[i].len() ==> #[trigger] pieces[i][j] != cut,
    ensures
        split_on(join(pieces, seq![cut]), |c: char| c == cut) == pieces,
    decreases pieces.len(),
{
    let p = |c: char| c == cut;
    let first = pieces[0];
    assert forall|j: int| 0 <= j < first.len() implies !p(#[trigger] first[j]) by {
        assert(pieces[0][j] != cut);
    }
    if pieces.len() == 1 {
        pieces_stand_between_the_cuts(first, cut, Seq::empty(), p);
        assert(pieces =~= seq![first]);
    } else {
        let rest = pieces.drop_first();
        assert forall|i: int, j: int|
            0 <= i < rest.len() && 0 <= j < rest[i].len() implies #[trigger] rest[i][j] != cut by {
            assert(pieces[i + 1][j] != cut);
        }
        cutting_undoes_joining(rest, cut);
        assert(pieces =~= seq![first] + rest);
        lemma_join_front(first, rest, seq![cut]);
        pieces_stand_between_the_cuts(first, cut, join(rest, seq![cut]), p);
    }
}

} // verus!
