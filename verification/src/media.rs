//! Links in a message, where they open, and what a public download may hold.

use core::ops::Range;

use vstd::prelude::*;
use vstd::utf8::encode_utf8;

use crate::address::{opt_url, parse_url, url_parts, UrlView, WebUrl};
use crate::bytes::{byte_count, byte_len, lemma_byte_len_grows, lemma_encode_concat};
use crate::decimal::{decimal, decimal_text};
use crate::split::{
    begins_with_text, cutting_undoes_joining, end_of, index_of, is_text, join, same_text,
    split_on, split_text, texts,
};
use crate::text::{
    chars_of, end_where, first_where, head, index_where, is_ascii_digit, is_ascii_letter,
    is_digit, is_letter, is_space, is_whitespace, lemma_end_where, lemma_end_where_is,
    lemma_first_where, lemma_first_where_is, letter_case_is_that_of_ascii,
    letter_case_keeps_places, lowercase, lowered, opt, string_of, tail,
};

verus! {

/// A link in a text: the bytes that it stands at, and where it leads.
#[derive(Debug, PartialEq, Eq)]
pub struct Link {
    pub range: Range<usize>,
    pub href: String,
}

impl Clone for Link {
    fn clone(&self) -> (copy: Self)
        ensures
            copy.range == self.range,
            copy.href@ == self.href@,
    {
        Link { range: self.range.start..self.range.end, href: self.href.clone() }
    }
}

/// A link in a text: the characters that it stands at, and where it leads.
pub struct Found {
    pub from: int,
    pub to: int,
    pub href: Seq<char>,
}

/// Whether `link` is what was found, with its place counted in bytes.
pub open spec fn shows(text: Seq<char>, link: Link, found: Found) -> bool {
    &&& link.range.start == byte_len(text.take(found.from))
    &&& link.range.end == byte_len(text.take(found.to))
    &&& link.href@ == found.href
}

/// Punctuation that may wrap a link before it.
pub open spec fn is_wrapping(c: char) -> bool {
    c == '(' || c == '[' || c == '{' || c == '<' || c == '"' || c == '\''
}

/// Characters that never belong to a link.
pub open spec fn is_delimiter(c: char) -> bool {
    c == '<' || c == '>' || c == '"'
}

/// Punctuation that ends a sentence or a bracket rather than a link.
pub open spec fn is_closing(c: char) -> bool {
    c == '.' || c == ',' || c == ';' || c == ':' || c == '!' || c == '?' || c == ']' || c == '}'
        || c == '\''
}

pub open spec fn count(text: Seq<char>, c: char) -> nat
    decreases text.len(),
{
    if text.len() == 0 {
        0
    } else {
        count(text.drop_last(), c) + if text.last() == c {
            1nat
        } else {
            0nat
        }
    }
}

/// The link without closing punctuation behind it; a round bracket goes only
/// when more are closed than opened.
pub open spec fn without_trailing(url: Seq<char>) -> Seq<char>
    decreases url.len(),
{
    if url.len() > 0 && (is_closing(url.last()) || (url.last() == ')' && count(url, '(') < count(
        url,
        ')',
    ))) {
        without_trailing(url.drop_last())
    } else {
        url
    }
}

/// What may be a link in a word: where it begins, and its characters.
pub open spec fn candidate(token: Seq<char>) -> (int, Seq<char>) {
    let lead = first_where(token, |c: char| !is_wrapping(c));
    let rest = token.skip(lead);
    (lead, without_trailing(rest.take(first_where(rest, |c: char| is_delimiter(c)))))
}

/// The part of an address up to its path, query or fragment.
pub open spec fn host_part(text: Seq<char>) -> Seq<char> {
    text.take(first_where(text, |c: char| c == '/' || c == '?' || c == '#'))
}

pub open spec fn is_label(label: Seq<char>) -> bool {
    label.len() > 0 && forall|i: int|
        0 <= i < label.len() ==> is_letter(#[trigger] label[i]) || is_digit(label[i]) || label[i]
            == '-'
}

/// Whether `text`, without a port, is a host name: at least two labels, the
/// last of at least two letters and nothing else.
pub open spec fn is_host_name(text: Seq<char>) -> bool {
    let labels = split_on(text.take(first_where(text, |c: char| c == ':')), |c: char| c == '.');
    &&& labels.len() >= 2
    &&& forall|i: int| 0 <= i < labels.len() ==> is_label(#[trigger] labels[i])
    &&& labels.last().len() >= 2
    &&& forall|i: int| 0 <= i < labels.last().len() ==> is_letter(#[trigger] labels.last()[i])
}

pub open spec fn goes_beyond(text: Seq<char>, front: Seq<char>) -> bool {
    front.is_prefix_of(text) && text.len() > front.len()
}

/// Where a candidate leads, if it is a link: with a scheme, to itself; as a
/// host behind `www.` or with a path, to itself over https.
pub open spec fn href_of(candidate: Seq<char>) -> Option<Seq<char>> {
    let small = lowered(candidate);
    if goes_beyond(small, "http://"@) || goes_beyond(small, "https://"@) || goes_beyond(
        small,
        "ftp://"@,
    ) {
        Some(candidate)
    } else if (goes_beyond(small, "www."@) && is_host_name(host_part(small.skip(4)))) || (
    small.contains('/') && is_host_name(host_part(small))) {
        Some("https://"@ + candidate)
    } else {
        None
    }
}

/// The link in the word that stands at position `from`.
pub open spec fn link_in(token: Seq<char>, from: int) -> Option<Found> {
    let (lead, body) = candidate(token);
    match href_of(body) {
        Some(href) => Some(Found { from: from + lead, to: from + lead + body.len(), href }),
        None => None,
    }
}

/// Where the first word at or behind `p` begins.
pub open spec fn word_start(text: Seq<char>, p: int) -> int {
    p + first_where(text.skip(p), |c: char| !is_space(c))
}

/// Where the word that begins at `s` ends.
pub open spec fn word_end(text: Seq<char>, s: int) -> int {
    s + first_where(text.skip(s), |c: char| is_space(c))
}

/// The links of a text from position `p` on, in their order.
pub open spec fn links_from(text: Seq<char>, p: int) -> Seq<Found>
    decreases text.len() - p,
{
    let s = word_start(text, p);
    let e = word_end(text, s);
    if 0 <= p <= s < e <= text.len() {
        match link_in(text.subrange(s, e), s) {
            Some(found) => seq![found] + links_from(text, e),
            None => links_from(text, e),
        }
    } else {
        Seq::empty()
    }
}

fn is_not_wrapping(c: char) -> (other: bool)
    ensures
        other == !is_wrapping(c),
{
    !(c == '(' || c == '[' || c == '{' || c == '<' || c == '"' || c == '\'')
}

fn delimits(c: char) -> (yes: bool)
    ensures
        yes == is_delimiter(c),
{
    c == '<' || c == '>' || c == '"'
}

fn ends_host(c: char) -> (yes: bool)
    ensures
        yes == (c == '/' || c == '?' || c == '#'),
{
    c == '/' || c == '?' || c == '#'
}

fn is_word_char(c: char) -> (yes: bool)
    ensures
        yes == !is_space(c),
{
    !is_whitespace(c)
}

fn count_of(text: &[char], c: char) -> (n: usize)
    ensures
        n == count(text@, c),
        n <= text@.len(),
{
    let mut n: usize = 0;
    let mut i: usize = 0;
    while i < text.len()
        invariant
            i <= text@.len(),
            n == count(text@.take(i as int), c),
            n <= i,
        decreases text@.len() - i,
    {
        assert(text@.take(i + 1).drop_last() =~= text@.take(i as int));
        if text[i] == c {
            n += 1;
        }
        i += 1;
    }
    assert(text@.take(i as int) =~= text@);
    n
}

fn trim_trailing(url: &[char]) -> (rest: &[char])
    ensures
        rest@ == without_trailing(url@),
        rest@.len() <= url@.len(),
{
    let mut n: usize = url.len();
    assert(url@.take(n as int) =~= url@);
    while n > 0
        invariant
            n <= url@.len(),
            without_trailing(url@.take(n as int)) == without_trailing(url@),
        ensures
            n <= url@.len(),
            without_trailing(url@) == url@.take(n as int),
        decreases n,
    {
        let cur = head(url, n);
        let last = url[n - 1];
        assert(cur@.last() == last);
        assert(cur@.drop_last() =~= url@.take(n - 1));
        let strip = if last == '.' || last == ',' || last == ';' || last == ':' || last == '!'
            || last == '?' || last == ']' || last == '}' || last == '\'' {
            true
        } else if last == ')' {
            count_of(cur, '(') < count_of(cur, ')')
        } else {
            false
        };
        if !strip {
            return cur;
        }
        n -= 1;
    }
    head(url, n)
}

fn host_of(text: &[char]) -> (host: &[char])
    ensures
        host@ == host_part(text@),
{
    let ghost p = |c: char| c == '/' || c == '?' || c == '#';
    let k = index_where(text, ends_host, Ghost(p));
    head(text, k)
}

fn all_letters(text: &[char]) -> (yes: bool)
    ensures
        yes == forall|i: int| 0 <= i < text@.len() ==> is_letter(#[trigger] text@[i]),
{
    let mut i: usize = 0;
    while i < text.len()
        invariant
            i <= text@.len(),
            forall|j: int| 0 <= j < i ==> is_letter(#[trigger] text@[j]),
        decreases text@.len() - i,
    {
        if !is_ascii_letter(text[i]) {
            assert(!is_letter(text@[i as int]));
            return false;
        }
        i += 1;
    }
    true
}

fn is_host_label(label: &[char]) -> (yes: bool)
    ensures
        yes == is_label(label@),
{
    if label.len() == 0 {
        return false;
    }
    let mut i: usize = 0;
    while i < label.len()
        invariant
            i <= label@.len(),
            forall|j: int|
                0 <= j < i ==> is_letter(#[trigger] label@[j]) || is_digit(label@[j]) || label@[j]
                    == '-',
        decreases label@.len() - i,
    {
        let c = label[i];
        if !(is_ascii_letter(c) || is_ascii_digit(c) || c == '-') {
            assert(!(is_letter(label@[i as int]) || is_digit(label@[i as int]) || label@[i as int]
                == '-'));
            return false;
        }
        i += 1;
    }
    true
}

fn is_host(text: &[char]) -> (yes: bool)
    ensures
        yes == is_host_name(text@),
{
    let host = head(text, index_of(text, ':'));
    let labels = split_text(host, '.');
    let ghost all = texts(labels@);
    assert(all == split_on(host@, |c: char| c == '.'));
    if labels.len() < 2 {
        return false;
    }
    let mut i: usize = 0;
    while i < labels.len()
        invariant
            i <= labels@.len(),
            all == texts(labels@),
            all == split_on(host@, |c: char| c == '.'),
            host@ == text@.take(first_where(text@, |c: char| c == ':')),
            forall|j: int| 0 <= j < i ==> is_label(#[trigger] all[j]),
        decreases labels@.len() - i,
    {
        let label = chars_of(labels[i].as_str());
        assert(label@ == all[i as int]);
        if !is_host_label(&label) {
            return false;
        }
        i += 1;
    }
    let last = chars_of(labels[labels.len() - 1].as_str());
    assert(last@ == all.last());
    last.len() >= 2 && all_letters(&last)
}

fn reaches_beyond(text: &[char], front: &str) -> (yes: bool)
    ensures
        yes == goes_beyond(text@, front@),
{
    begins_with_text(text, front) && text.len() > chars_of(front).len()
}

fn href(candidate: &[char]) -> (href: Option<String>)
    ensures
        opt(href) == href_of(candidate@),
{
    let small = lowercase(candidate);
    if reaches_beyond(&small, "http://") || reaches_beyond(&small, "https://") || reaches_beyond(
        &small,
        "ftp://",
    ) {
        return Some(string_of(candidate));
    }
    let www = reaches_beyond(&small, "www.");
    proof {
        reveal_strlit("www.");
    }
    let www_host = www && is_host(host_of(tail(&small, 4)));
    let slash = index_of(&small, '/');
    proof {
        lemma_first_where(small@, |x: char| x == '/');
        if slash < small@.len() {
            assert(small@[slash as int] == '/');
            assert(small@.contains('/'));
        } else {
            assert(!small@.contains('/'));
        }
    }
    let bare_path = slash < small.len() && is_host(host_of(&small));
    if www_host || bare_path {
        let mut href = String::new();
        href.append("https://");
        href.append(string_of(candidate).as_str());
        assert(href@ =~= "https://"@ + candidate@);
        Some(href)
    } else {
        None
    }
}

/// The links of a text, each with the bytes that it stands at. Wrapping and
/// closing punctuation around a link does not belong to it.
pub fn find_links(text: &str) -> (links: Vec<Link>)
    ensures
        links@.len() == links_from(text@, 0).len(),
        forall|i: int|
            0 <= i < links@.len() ==> shows(
                text@,
                #[trigger] links@[i],
                links_from(text@, 0)[i],
            ),
{
    let size = text.as_bytes().len();
    let chars = chars_of(text);
    assert(byte_len(chars@) == size);
    let mut links: Vec<Link> = Vec::new();
    let mut p: usize = 0;
    let mut at: usize = 0;
    let ghost mut founds: Seq<Found> = Seq::empty();
    let ghost word = |c: char| !is_space(c);
    let ghost space = |c: char| is_space(c);
    assert(founds + links_from(chars@, 0) =~= links_from(chars@, 0));
    assert(chars@.take(0) =~= Seq::empty());
    loop
        invariant_except_break
            chars@ == text@,
            word == (|c: char| !is_space(c)),
            space == (|c: char| is_space(c)),
            byte_len(chars@) <= usize::MAX,
            p <= chars@.len(),
            at == byte_len(chars@.take(p as int)),
            founds + links_from(chars@, p as int) == links_from(chars@, 0),
            links@.len() == founds.len(),
            forall|i: int| 0 <= i < links@.len() ==> shows(chars@, #[trigger] links@[i], founds[i]),
        ensures
            chars@ == text@,
            founds == links_from(chars@, 0),
            links@.len() == founds.len(),
            forall|i: int| 0 <= i < links@.len() ==> shows(chars@, #[trigger] links@[i], founds[i]),
        decreases chars@.len() - p,
    {
        assert(chars.len() == chars@.len());
        let rest = tail(&chars, p);
        let skipped = index_where(rest, is_word_char, Ghost(word));
        let s: usize = p + skipped;
        let word_rest = tail(&chars, s);
        let len = index_where(word_rest, is_whitespace, Ghost(space));
        let e: usize = s + len;
        proof {
            lemma_first_where(rest@, word);
            lemma_first_where(word_rest@, space);
            if s < chars@.len() {
                assert(rest@[skipped as int] == chars@[s as int]);
                assert(word_rest@[0] == chars@[s as int]);
            }
            lemma_byte_len_grows(chars@, p as int, s as int);
        }
        if len == 0 {
            assert(links_from(chars@, p as int) =~= Seq::empty());
            assert(founds =~= links_from(chars@, 0));
            break;
        }
        let token = head(word_rest, len);
        assert(token@ =~= chars@.subrange(s as int, e as int));
        let ghost outer = |c: char| !is_wrapping(c);
        let lead = index_where(token, is_not_wrapping, Ghost(outer));
        let inner = tail(token, lead);
        let ghost stop = |c: char| is_delimiter(c);
        let body = trim_trailing(head(inner, index_where(inner, delimits, Ghost(stop))));
        let from: usize = s + lead;
        let to: usize = from + body.len();
        let skip_bytes = byte_count(&chars, p, from);
        let link_bytes = byte_count(&chars, from, to);
        let rest_bytes = byte_count(&chars, to, e);
        proof {
            lemma_byte_len_grows(chars@, p as int, from as int);
            lemma_byte_len_grows(chars@, from as int, to as int);
            lemma_byte_len_grows(chars@, to as int, e as int);
        }
        let ghost before = founds;
        match href(body) {
            Some(href) => {
                let begin: usize = at + skip_bytes;
                let link = Link { range: begin..begin + link_bytes, href };
                let ghost found = Found { from: from as int, to: to as int, href: link.href@ };
                assert(link_in(token@, s as int) == Some(found));
                assert(shows(chars@, link, found));
                links.push(link);
                proof {
                    founds = founds.push(found);
                }
                assert(founds + links_from(chars@, e as int) =~= before + (seq![found]
                    + links_from(chars@, e as int)));
            },
            None => {
                assert(link_in(token@, s as int) is None);
            },
        }
        at = at + skip_bytes + link_bytes + rest_bytes;
        p = e;
    }
    links
}

proof fn lemma_without_trailing(url: Seq<char>)
    ensures
        without_trailing(url).is_prefix_of(url),
    decreases url.len(),
{
    if url.len() > 0 && without_trailing(url) != url {
        lemma_without_trailing(url.drop_last());
        let rest = without_trailing(url.drop_last());
        assert(rest =~= url.subrange(0, rest.len() as int));
    }
}

/// Every link stands in the text, not empty, behind the position from which
/// the text was read, and leads to what stands there, with `https://` put
/// before it at most.
pub proof fn links_stand_in_the_text(text: Seq<char>, p: int, i: int)
    requires
        0 <= p <= text.len(),
        0 <= i < links_from(text, p).len(),
    ensures
        ({
            let found = links_from(text, p)[i];
            let shown = text.subrange(found.from, found.to);
            &&& p <= found.from < found.to <= text.len()
            &&& found.href == shown || found.href == "https://"@ + shown
        }),
    decreases text.len() - p,
{
    let s = word_start(text, p);
    let e = word_end(text, s);
    let token = text.subrange(s, e);
    let (lead, body) = candidate(token);
    let rest = token.skip(lead);
    lemma_first_where(text.skip(p), |c: char| !is_space(c));
    lemma_first_where(text.skip(s), |c: char| is_space(c));
    lemma_first_where(token, |c: char| !is_wrapping(c));
    lemma_first_where(rest, |c: char| is_delimiter(c));
    let cut = rest.take(first_where(rest, |c: char| is_delimiter(c)));
    lemma_without_trailing(cut);
    assert(body =~= text.subrange(s + lead, s + lead + body.len())) by {
        assert(body =~= cut.subrange(0, body.len() as int));
    }
    match link_in(token, s) {
        Some(found) => {
            reveal_strlit("http://");
            reveal_strlit("https://");
            reveal_strlit("ftp://");
            reveal_strlit("www.");
            assert(lowered(body).len() > 0);
            if i > 0 {
                links_stand_in_the_text(text, e, i - 1);
            }
        },
        None => {
            links_stand_in_the_text(text, e, i);
        },
    }
}

/// The links come in the order of the text, and none overlaps another.
pub proof fn links_do_not_overlap(text: Seq<char>, p: int, i: int, j: int)
    requires
        0 <= p <= text.len(),
        0 <= i < j < links_from(text, p).len(),
    ensures
        links_from(text, p)[i].to <= links_from(text, p)[j].from,
    decreases text.len() - p,
{
    let s = word_start(text, p);
    let e = word_end(text, s);
    let token = text.subrange(s, e);
    let (lead, body) = candidate(token);
    let rest = token.skip(lead);
    lemma_first_where(text.skip(p), |c: char| !is_space(c));
    lemma_first_where(text.skip(s), |c: char| is_space(c));
    match link_in(token, s) {
        Some(found) => {
            if i > 0 {
                links_do_not_overlap(text, e, i - 1, j - 1);
            } else {
                lemma_first_where(token, |c: char| !is_wrapping(c));
                lemma_first_where(rest, |c: char| is_delimiter(c));
                lemma_without_trailing(rest.take(first_where(rest, |c: char| is_delimiter(c))));
                links_stand_in_the_text(text, e, j - 1);
            }
        },
        None => {
            links_do_not_overlap(text, e, i, j);
        },
    }
}

/// Where a link opens.
#[derive(Debug, Clone, Copy, PartialEq, Eq, Structural)]
pub enum LinkTarget {
    /// The in-app image viewer.
    Image,
    /// The in-app text viewer (`.txt`/`.md` uploads on Grappa only).
    Text,
    /// The system browser.
    Browser,
}

pub open spec fn is_image_extension(extension: Seq<char>) -> bool {
    ||| extension == "png"@
    ||| extension == "jpg"@
    ||| extension == "jpeg"@
    ||| extension == "gif"@
    ||| extension == "webp"@
    ||| extension == "bmp"@
}

pub open spec fn is_text_extension(extension: Seq<char>) -> bool {
    extension == "txt"@ || extension == "md"@
}

/// The extension of the last segment of a path, in small letters; empty
/// where there is none.
pub open spec fn extension_of(path: Seq<char>) -> Seq<char> {
    let name = path.skip(end_where(path, |x: char| x == '/'));
    let dot = end_where(name, |x: char| x == '.');
    if path.len() > 0 && path[0] == '/' && dot > 0 {
        lowered(name.skip(dot))
    } else {
        Seq::empty()
    }
}

/// Whether both addresses name the same host and port.
pub open spec fn same_host(a: UrlView, b: UrlView) -> bool {
    a.host == b.host && a.port == b.port
}

/// Where an address opens: an upload of the server as image or text, by its
/// extension, an image from anywhere over https, and all else in the browser.
pub open spec fn target_of(url: Option<UrlView>, base: Option<UrlView>) -> LinkTarget {
    match url {
        None => LinkTarget::Browser,
        Some(url) => {
            let extension = extension_of(url.path);
            let upload = base is Some && same_host(base->0, url) && (url.scheme == "http"@
                || url.scheme == "https"@) && "/uploads/"@.is_prefix_of(url.path);
            if is_image_extension(extension) && (upload || url.scheme == "https"@) {
                LinkTarget::Image
            } else if upload && is_text_extension(extension) {
                LinkTarget::Text
            } else {
                LinkTarget::Browser
            }
        },
    }
}

fn path_extension(path: &str) -> (extension: Vec<char>)
    ensures
        extension@ == extension_of(path@),
{
    let path = chars_of(path);
    if path.len() == 0 || path[0] != '/' {
        return Vec::new();
    }
    let start = end_of(&path, '/');
    let name = tail(&path, start);
    let dot = end_of(name, '.');
    if dot > 0 {
        lowercase(tail(name, dot))
    } else {
        Vec::new()
    }
}

fn same_option(a: &Option<String>, b: &Option<String>) -> (same: bool)
    ensures
        same == (opt(*a) == opt(*b)),
{
    match (a, b) {
        (Some(a), Some(b)) => same_text(a.as_str(), b.as_str()),
        (None, None) => true,
        _ => false,
    }
}

/// Where an address opens, given the address of the server.
pub fn target_of_url(url: Option<WebUrl>, base: Option<WebUrl>) -> (target: LinkTarget)
    ensures
        target == target_of(opt_url(url), opt_url(base)),
{
    let url = match url {
        Some(url) => url,
        None => {
            return LinkTarget::Browser;
        },
    };
    let extension = path_extension(url.path.as_str());
    let image = is_text(&extension, "png") || is_text(&extension, "jpg") || is_text(
        &extension,
        "jpeg",
    ) || is_text(&extension, "gif") || is_text(&extension, "webp") || is_text(&extension, "bmp");
    let here = match &base {
        Some(base) => same_option(&base.host, &url.host) && base.port == url.port,
        None => false,
    };
    let https = same_text(url.scheme.as_str(), "https");
    if here && (same_text(url.scheme.as_str(), "http") || https) && begins_with_text(
        &chars_of(url.path.as_str()),
        "/uploads/",
    ) {
        if image {
            return LinkTarget::Image;
        }
        if is_text(&extension, "txt") || is_text(&extension, "md") {
            return LinkTarget::Text;
        }
    }
    if https && image {
        return LinkTarget::Image;
    }
    LinkTarget::Browser
}

/// Where a link opens, given the address of the server.
pub fn link_target(href: &str, server_base: &str) -> (target: LinkTarget)
    ensures
        target == target_of(url_parts(href@), url_parts(server_base@)),
{
    target_of_url(parse_url(href), parse_url(server_base))
}

/// Whether an address has a scheme that the system browser is handed.
pub open spec fn opens(url: Option<UrlView>) -> bool {
    url is Some && (url->0.scheme == "http"@ || url->0.scheme == "https"@ || url->0.scheme
        == "ftp"@)
}

/// Whether an address has a scheme that the system browser is handed.
pub fn opens_url(url: Option<WebUrl>) -> (yes: bool)
    ensures
        yes == opens(opt_url(url)),
{
    match url {
        Some(url) => same_text(url.scheme.as_str(), "http") || same_text(
            url.scheme.as_str(),
            "https",
        ) || same_text(url.scheme.as_str(), "ftp"),
        None => false,
    }
}

/// Whether a link may be handed to the system browser.
pub fn is_openable(href: &str) -> (yes: bool)
    ensures
        yes == opens(url_parts(href@)),
{
    opens_url(parse_url(href))
}

/// A text is shown in the app only as an upload of the server itself, over
/// http or https.
pub proof fn texts_open_in_the_app_only_from_the_server(
    url: Option<UrlView>,
    base: Option<UrlView>,
)
    requires
        target_of(url, base) == LinkTarget::Text,
    ensures
        url is Some && base is Some && same_host(base->0, url->0),
        "/uploads/"@.is_prefix_of(url->0.path),
{
}

/// An image from another host than the server opens in the app only over
/// https.
pub proof fn foreign_images_open_in_the_app_only_over_https(
    url: Option<UrlView>,
    base: Option<UrlView>,
)
    requires
        target_of(url, base) == LinkTarget::Image,
        !(base is Some && same_host(base->0, url->0)),
    ensures
        url is Some && url->0.scheme == "https"@,
{
}

pub const MAX_IMAGE_BYTES: usize = 25 * 1024 * 1024;

pub const MAX_TEXT_BYTES: usize = 1024 * 1024;

/// Why a download failed.
#[derive(Debug, Clone, PartialEq, Eq)]
pub enum FetchError {
    /// The server says it's gone (404 or 410).
    Gone,
    TooLarge,
    Failed(String),
}

/// What comes of a reply with a status: the download may go on, or why not.
pub fn check_status(status: u16) -> (checked: Result<(), FetchError>)
    ensures
        match checked {
            Ok(_) => 200 <= status < 300,
            Err(FetchError::Gone) => status == 404 || status == 410,
            Err(FetchError::TooLarge) => false,
            Err(FetchError::Failed(reason)) => !(200 <= status < 300) && status != 404 && status
                != 410 && reason@ == "HTTP "@ + decimal(status as nat),
        },
{
    if status == 404 || status == 410 {
        return Err(FetchError::Gone);
    }
    if status < 200 || status >= 300 {
        let mut reason = String::new();
        reason.append("HTTP ");
        reason.append(decimal_text(status as u64).as_str());
        assert(reason@ =~= "HTTP "@ + decimal(status as nat));
        return Err(FetchError::Failed(reason));
    }
    Ok(())
}

/// How far a download has come.
pub enum Progress {
    /// More may come.
    Open,
    /// It was cut at its limit, and is over.
    Cut,
    /// It is larger than its limit, and may not be cut.
    TooLarge,
}

/// What a download that may hold `max` bytes holds after a chunk, and how far
/// it has come.
pub open spec fn after_chunk(
    held: Seq<u8>,
    chunk: Seq<u8>,
    max: int,
    cut: bool,
) -> (Seq<u8>, Progress) {
    let all = held + chunk;
    if all.len() <= max {
        (all, Progress::Open)
    } else if cut {
        (all.take(max), Progress::Cut)
    } else {
        (held, Progress::TooLarge)
    }
}

/// What a download holds after several chunks, and how far it has come; it
/// takes none once it is over.
pub open spec fn after_chunks(
    chunks: Seq<Seq<u8>>,
    max: int,
    cut: bool,
) -> (Seq<u8>, Progress)
    decreases chunks.len(),
{
    if chunks.len() == 0 {
        (Seq::empty(), Progress::Open)
    } else {
        let (held, progress) = after_chunks(chunks.drop_last(), max, cut);
        match progress {
            Progress::Open => after_chunk(held, chunks.last(), max, cut),
            _ => (held, progress),
        }
    }
}

/// The chunks one behind the other.
pub open spec fn body_of(chunks: Seq<Seq<u8>>) -> Seq<u8>
    decreases chunks.len(),
{
    if chunks.len() == 0 {
        Seq::empty()
    } else {
        body_of(chunks.drop_last()) + chunks.last()
    }
}

/// However a body is cut into chunks, a download comes to the same: it holds
/// the body where that fits, or its first `max` bytes where it may be cut
/// there; and it is too large exactly where the body is longer and may not be
/// cut.
pub proof fn chunks_come_to_their_body(chunks: Seq<Seq<u8>>, max: int, cut: bool)
    requires
        max >= 0,
    ensures
        ({
            let body = body_of(chunks);
            let (held, progress) = after_chunks(chunks, max, cut);
            &&& progress is Open <==> body.len() <= max
            &&& progress is Cut <==> body.len() > max && cut
            &&& progress is TooLarge <==> body.len() > max && !cut
            &&& progress is Open ==> held == body
            &&& progress is Cut ==> held == body.take(max)
            &&& held.is_prefix_of(body)
            &&& held.len() <= max
        }),
    decreases chunks.len(),
{
    if chunks.len() > 0 {
        chunks_come_to_their_body(chunks.drop_last(), max, cut);
        let before = body_of(chunks.drop_last());
        let body = body_of(chunks);
        let (held, progress) = after_chunks(chunks, max, cut);
        assert(body =~= before + chunks.last());
        if before.len() > max {
            assert(before.take(max) =~= body.take(max));
        }
        assert(held =~= body.take(held.len() as int));
    }
}

/// A download of at most so many bytes.
pub struct Download {
    pub bytes: Vec<u8>,
    pub max_bytes: usize,
    pub cut_when_larger: bool,
}

impl Download {
    /// Whether no more than the limit is held.
    pub open spec fn within_limit(&self) -> bool {
        self.bytes@.len() <= self.max_bytes
    }

    pub fn new(max_bytes: usize, cut_when_larger: bool) -> (download: Self)
        ensures
            download.bytes@ == Seq::<u8>::empty(),
            download.max_bytes == max_bytes,
            download.cut_when_larger == cut_when_larger,
            download.within_limit(),
    {
        Download { bytes: Vec::new(), max_bytes, cut_when_larger }
    }

    /// Takes the next chunk. `Ok(true)` when the download is cut at its limit
    /// and over; `Err` when it is larger than the limit and may not be cut.
    pub fn push(&mut self, chunk: &[u8]) -> (full: Result<bool, FetchError>)
        requires
            old(self).within_limit(),
        ensures
            final(self).max_bytes == old(self).max_bytes,
            final(self).cut_when_larger == old(self).cut_when_larger,
            ({
                let (held, progress) = after_chunk(
                    old(self).bytes@,
                    chunk@,
                    old(self).max_bytes as int,
                    old(self).cut_when_larger,
                );
                &&& final(self).bytes@ == held
                &&& match progress {
                    Progress::Open => full == Ok::<bool, FetchError>(false),
                    Progress::Cut => full == Ok::<bool, FetchError>(true),
                    Progress::TooLarge => full == Err::<bool, FetchError>(FetchError::TooLarge),
                }
            }),
            final(self).within_limit(),
    {
        let room: usize = self.max_bytes - self.bytes.len();
        if chunk.len() <= room {
            self.bytes.extend_from_slice(chunk);
            assert(self.bytes@ =~= old(self).bytes@ + chunk@);
            Ok(false)
        } else if self.cut_when_larger {
            let part = &chunk[0..room];
            self.bytes.extend_from_slice(part);
            assert(self.bytes@ =~= (old(self).bytes@ + chunk@).take(self.max_bytes as int));
            Ok(true)
        } else {
            Err(FetchError::TooLarge)
        }
    }
}

/// A path whose last segment ends in a dot and an extension.
pub open spec fn path_with(
    folder: Seq<char>,
    name: Seq<char>,
    extension: Seq<char>,
) -> Seq<char> {
    seq!['/'] + folder + seq!['/'] + name + seq!['.'] + extension
}

/// Whether a text has no slash.
pub open spec fn has_no_slash(text: Seq<char>) -> bool {
    forall|i: int| 0 <= i < text.len() ==> #[trigger] text[i] != '/'
}

/// Whether a text has no dot.
pub open spec fn has_no_dot(text: Seq<char>) -> bool {
    forall|i: int| 0 <= i < text.len() ==> #[trigger] text[i] != '.'
}

/// The extensions of the images that the app shows.
pub open spec fn image_extensions() -> Seq<Seq<char>> {
    seq![
        seq!['p', 'n', 'g'],
        seq!['j', 'p', 'g'],
        seq!['j', 'p', 'e', 'g'],
        seq!['g', 'i', 'f'],
        seq!['w', 'e', 'b', 'p'],
        seq!['b', 'm', 'p'],
    ]
}

/// The extensions of the texts that the app shows.
pub open spec fn text_extensions() -> Seq<Seq<char>> {
    seq![seq!['t', 'x', 't'], seq!['m', 'd']]
}

proof fn lemma_extensions(extension: Seq<char>)
    ensures
        is_image_extension(extension) == image_extensions().contains(extension),
        is_text_extension(extension) == text_extensions().contains(extension),
        is_image_extension(extension) ==> !is_text_extension(extension),
{
    reveal_strlit("png");
    reveal_strlit("jpg");
    reveal_strlit("jpeg");
    reveal_strlit("gif");
    reveal_strlit("webp");
    reveal_strlit("bmp");
    reveal_strlit("txt");
    reveal_strlit("md");
    let images = image_extensions();
    assert(images[0] =~= "png"@);
    assert(images[1] =~= "jpg"@);
    assert(images[2] =~= "jpeg"@);
    assert(images[3] =~= "gif"@);
    assert(images[4] =~= "webp"@);
    assert(images[5] =~= "bmp"@);
    let texts = text_extensions();
    assert(texts[0] =~= "txt"@);
    assert(texts[1] =~= "md"@);
    assert("txt"@[0] == 't' && "png"@[0] == 'p' && "jpg"@[0] == 'j' && "gif"@[0] == 'g');
    assert("bmp"@[0] == 'b');
}

proof fn lemma_extension(path: Seq<char>, slash: int, dot: int)
    requires
        0 <= slash < dot < path.len(),
        path[0] == '/',
        path[slash] == '/',
        path[dot] == '.',
        forall|i: int| slash < i < path.len() ==> #[trigger] path[i] != '/',
        forall|i: int| dot < i < path.len() ==> #[trigger] path[i] != '.',
    ensures
        extension_of(path) == lowered(path.subrange(dot + 1, path.len() as int)),
{
    let p = |x: char| x == '/';
    let q = |x: char| x == '.';
    lemma_end_where_is(path, p, slash + 1);
    let name = path.skip(slash + 1);
    assert forall|i: int| dot - slash <= i < name.len() implies !q(#[trigger] name[i]) by {
        assert(name[i] == path[i + slash + 1]);
    }
    assert(name[dot - slash - 1] == path[dot]);
    lemma_end_where_is(name, q, dot - slash);
    assert(name.skip(dot - slash) =~= path.subrange(dot + 1, path.len() as int));
}

proof fn lemma_path_with(folder: Seq<char>, name: Seq<char>, extension: Seq<char>)
    requires
        has_no_slash(name),
        has_no_slash(extension),
        has_no_dot(extension),
    ensures
        extension_of(path_with(folder, name, extension)) == lowered(extension),
{
    let path = path_with(folder, name, extension);
    let slash = 1 + folder.len() as int;
    let dot = slash + 1 + name.len();
    assert(path[slash] == '/');
    assert(path[dot] == '.');
    assert forall|i: int| slash < i < path.len() implies #[trigger] path[i] != '/' by {
        if i < dot {
            assert(path[i] == name[i - slash - 1]);
        } else if i > dot {
            assert(path[i] == extension[i - dot - 1]);
        }
    }
    assert forall|i: int| dot < i < path.len() implies #[trigger] path[i] != '.' by {
        assert(path[i] == extension[i - dot - 1]);
    }
    lemma_extension(path, slash, dot);
    assert(path.subrange(dot + 1, path.len() as int) =~= extension);
}

/// An address over https whose last segment ends in the extension of an image,
/// in any letter case, opens as an image, whatever the server.
pub proof fn images_over_https_open_in_the_app(
    url: UrlView,
    base: Option<UrlView>,
    folder: Seq<char>,
    name: Seq<char>,
    extension: Seq<char>,
)
    requires
        url.scheme == "https"@,
        url.path == path_with(folder, name, extension) || url.path == seq!['/'] + name + seq!['.']
            + extension,
        has_no_slash(name),
        has_no_slash(extension),
        has_no_dot(extension),
        image_extensions().contains(lowered(extension)),
    ensures
        target_of(Some(url), base) == LinkTarget::Image,
{
    lemma_extensions(lowered(extension));
    let short = seq!['/'] + name + seq!['.'] + extension;
    if url.path == short {
        let dot = 1 + name.len() as int;
        assert(short[dot] == '.');
        assert forall|i: int| 0 < i < short.len() implies #[trigger] short[i] != '/' by {
            if i < dot {
                assert(short[i] == name[i - 1]);
            } else if i > dot {
                assert(short[i] == extension[i - dot - 1]);
            }
        }
        assert forall|i: int| dot < i < short.len() implies #[trigger] short[i] != '.' by {
            assert(short[i] == extension[i - dot - 1]);
        }
        lemma_extension(short, 0, dot);
        assert(short.subrange(dot + 1, short.len() as int) =~= extension);
    } else {
        lemma_path_with(folder, name, extension);
    }
}

/// An upload of the server itself opens as image or as text by its extension,
/// in any letter case, over http as over https.
pub proof fn uploads_open_in_the_app(
    url: UrlView,
    base: UrlView,
    folder: Seq<char>,
    name: Seq<char>,
    extension: Seq<char>,
)
    requires
        url.scheme == "http"@ || url.scheme == "https"@,
        url.host == base.host,
        url.port == base.port,
        url.path == seq!['/', 'u', 'p', 'l', 'o', 'a', 'd', 's'] + path_with(
            folder,
            name,
            extension,
        ),
        has_no_slash(name),
        has_no_slash(extension),
        has_no_dot(extension),
    ensures
        image_extensions().contains(lowered(extension)) ==> target_of(Some(url), Some(base))
            == LinkTarget::Image,
        text_extensions().contains(lowered(extension)) ==> target_of(Some(url), Some(base))
            == LinkTarget::Text,
{
    lemma_extensions(lowered(extension));
    let inner = seq!['u', 'p', 'l', 'o', 'a', 'd', 's', '/'] + folder;
    assert(url.path =~= path_with(inner, name, extension));
    lemma_path_with(inner, name, extension);
    reveal_strlit("/uploads/");
    assert("/uploads/"@ =~= url.path.subrange(0, 9));
}

/// Whether a path ends in a dot and one of some extensions, in any letter
/// case.
pub open spec fn ends_in_one_of(path: Seq<char>, extensions: Seq<Seq<char>>) -> bool {
    exists|dot: int|
        #![trigger path.subrange(dot + 1, path.len() as int)]
        0 < dot < path.len() && path[dot] == '.' && has_no_slash(
            path.subrange(dot + 1, path.len() as int),
        ) && extensions.contains(lowered(path.subrange(dot + 1, path.len() as int)))
}

/// Nothing else opens in the app: what does has the extension of an image or
/// of a text; a text comes from the uploads of the server, and so does an
/// image that does not come over https.
pub proof fn all_else_opens_in_the_browser(url: Option<UrlView>, base: Option<UrlView>)
    requires
        target_of(url, base) != LinkTarget::Browser,
    ensures
        url is Some,
        ends_in_one_of(
            url->0.path,
            if target_of(url, base) == LinkTarget::Image {
                image_extensions()
            } else {
                text_extensions()
            },
        ),
        target_of(url, base) == LinkTarget::Text || url->0.scheme != "https"@ ==> {
            &&& base is Some
            &&& base->0.host == url->0.host
            &&& base->0.port == url->0.port
            &&& url->0.scheme == "http"@ || url->0.scheme == "https"@
            &&& url->0.path.len() > 9
            &&& url->0.path.subrange(0, 9) == seq!['/', 'u', 'p', 'l', 'o', 'a', 'd', 's', '/']
        },
{
    let path = url->0.path;
    let extension = extension_of(path);
    lemma_extensions(extension);
    reveal_strlit("png");
    reveal_strlit("jpg");
    reveal_strlit("jpeg");
    reveal_strlit("gif");
    reveal_strlit("webp");
    reveal_strlit("bmp");
    reveal_strlit("txt");
    reveal_strlit("md");
    assert(extension.len() > 0);
    let p = |x: char| x == '/';
    let q = |x: char| x == '.';
    let start = end_where(path, p);
    let name = path.skip(start);
    let dot = end_where(name, q);
    lemma_end_where(path, p);
    lemma_end_where(name, q);
    assert(start > 0) by {
        if start == 0 {
            assert(!p(path[0]));
        }
    }
    assert(name[dot - 1] == path[start + dot - 1]);
    let rest = path.subrange(start + dot, path.len() as int);
    assert(name.skip(dot) =~= rest);
    assert forall|i: int| 0 <= i < rest.len() implies #[trigger] rest[i] != '/' by {
        assert(rest[i] == path[start + dot + i]);
        assert(!p(path[start + dot + i]));
    }
    let at = start + dot - 1;
    assert(path.subrange(at + 1, path.len() as int) =~= rest);
    reveal_strlit("/uploads/");
    if "/uploads/"@.is_prefix_of(path) {
        assert("/uploads/"@ =~= seq!['/', 'u', 'p', 'l', 'o', 'a', 'd', 's', '/']);
        assert(path.subrange(0, 9) =~= "/uploads/"@);
        assert(path[8] == '/') by {
            assert("/uploads/"@[8] == '/');
            assert("/uploads/"@[8] == path.subrange(0, 9)[8]);
        }
        assert(rest.len() > 0);
        if path.len() == 9 {
            assert(!p(path[8]) || start == 9);
        }
    }
}

/// The schemes of web pages and of files open in the system browser, and no
/// others.
pub proof fn three_schemes_open_in_the_browser(url: UrlView)
    ensures
        opens(Some(url)) <==> seq![
            seq!['h', 't', 't', 'p'],
            seq!['h', 't', 't', 'p', 's'],
            seq!['f', 't', 'p'],
        ].contains(url.scheme),
        !opens(None),
{
    reveal_strlit("http");
    reveal_strlit("https");
    reveal_strlit("ftp");
    let schemes = seq![
        seq!['h', 't', 't', 'p'],
        seq!['h', 't', 't', 'p', 's'],
        seq!['f', 't', 'p'],
    ];
    assert(schemes[0] =~= "http"@);
    assert(schemes[1] =~= "https"@);
    assert(schemes[2] =~= "ftp"@);
}

/// The characters that may stand before a link, around it, behind it, and
/// those that end it wherever they stand.
pub open spec fn wrapping_signs() -> Seq<char> {
    seq!['(', '[', '{', '<', '"', '\'']
}

pub open spec fn closing_signs() -> Seq<char> {
    seq!['.', ',', ';', ':', '!', '?', ']', '}', '\'']
}

pub open spec fn ending_signs() -> Seq<char> {
    seq!['<', '>', '"']
}

proof fn lemma_signs(c: char)
    ensures
        is_wrapping(c) == wrapping_signs().contains(c),
        is_closing(c) == closing_signs().contains(c),
        is_delimiter(c) == ending_signs().contains(c),
{
    let a = wrapping_signs();
    assert(a[0] == '(' && a[1] == '[' && a[2] == '{' && a[3] == '<' && a[4] == '"' && a[5] == '\'');
    let b = closing_signs();
    assert(b[0] == '.' && b[1] == ',' && b[2] == ';' && b[3] == ':' && b[4] == '!' && b[5] == '?');
    assert(b[6] == ']' && b[7] == '}' && b[8] == '\'');
    let d = ending_signs();
    assert(d[0] == '<' && d[1] == '>' && d[2] == '"');
}

proof fn lemma_closing_goes(body: Seq<char>, closing: Seq<char>)
    requires
        forall|i: int| 0 <= i < closing.len() ==> closing_signs().contains(#[trigger] closing[i]),
    ensures
        without_trailing(body + closing) == without_trailing(body),
    decreases closing.len(),
{
    let whole = body + closing;
    if closing.len() == 0 {
        assert(whole =~= body);
    } else {
        let less = closing.drop_last();
        assert(closing_signs().contains(closing[closing.len() - 1]));
        lemma_signs(closing.last());
        assert(whole.last() == closing.last());
        assert(whole.drop_last() =~= body + less);
        assert forall|i: int| 0 <= i < less.len() implies closing_signs().contains(
            #[trigger] less[i],
        ) by {
            assert(less[i] == closing[i]);
        }
        lemma_closing_goes(body, less);
    }
}

/// The signs around a link in a word do not belong to it: those that wrap it,
/// those that close a sentence behind it, and whatever follows an angle bracket
/// or a quote.
pub proof fn signs_around_a_link_are_left_out(
    wrapping: Seq<char>,
    body: Seq<char>,
    closing: Seq<char>,
    rest: Seq<char>,
)
    requires
        forall|i: int|
            0 <= i < wrapping.len() ==> wrapping_signs().contains(#[trigger] wrapping[i]),
        forall|i: int| 0 <= i < closing.len() ==> closing_signs().contains(#[trigger] closing[i]),
        forall|i: int| 0 <= i < body.len() ==> !ending_signs().contains(#[trigger] body[i]),
        body.len() > 0,
        !wrapping_signs().contains(body[0]),
        !closing_signs().contains(body.last()),
        body.last() != ')',
        rest.len() > 0 ==> ending_signs().contains(rest[0]),
    ensures
        candidate(wrapping + body + closing + rest) == (wrapping.len() as int, body),
{
    let token = wrapping + body + closing + rest;
    let outer = |c: char| !is_wrapping(c);
    let stop = |c: char| is_delimiter(c);
    let n = wrapping.len() as int;
    assert forall|i: int| 0 <= i < n implies !outer(#[trigger] token[i]) by {
        assert(token[i] == wrapping[i]);
        lemma_signs(wrapping[i]);
    }
    assert(token[n] == body[0]);
    lemma_signs(body[0]);
    lemma_first_where_is(token, outer, n);
    let inner = token.skip(n);
    assert(inner =~= body + closing + rest);
    let m = body.len() + closing.len() as int;
    assert forall|i: int| 0 <= i < m implies !stop(#[trigger] inner[i]) by {
        lemma_signs(inner[i]);
        if i < body.len() {
            assert(inner[i] == body[i]);
        } else {
            assert(inner[i] == closing[i - body.len()]);
        }
    }
    if rest.len() > 0 {
        assert(inner[m] == rest[0]);
        lemma_signs(rest[0]);
    }
    lemma_first_where_is(inner, stop, m);
    assert(inner.take(m) =~= body + closing);
    lemma_closing_goes(body, closing);
    lemma_signs(body.last());
}

/// Whether a text has no round bracket.
pub open spec fn has_no_bracket(text: Seq<char>) -> bool {
    forall|i: int| 0 <= i < text.len() ==> #[trigger] text[i] != '(' && text[i] != ')'
}

proof fn lemma_count_concat(a: Seq<char>, b: Seq<char>, c: char)
    ensures
        count(a + b, c) == count(a, c) + count(b, c),
    decreases b.len(),
{
    if b.len() == 0 {
        assert(a + b =~= a);
    } else {
        assert((a + b).drop_last() =~= a + b.drop_last());
        lemma_count_concat(a, b.drop_last(), c);
    }
}

proof fn lemma_no_bracket(text: Seq<char>)
    requires
        has_no_bracket(text),
    ensures
        count(text, '(') == 0,
        count(text, ')') == 0,
    decreases text.len(),
{
    if text.len() > 0 {
        let less = text.drop_last();
        assert forall|i: int| 0 <= i < less.len() implies #[trigger] less[i] != '(' && less[i]
            != ')' by {
            assert(less[i] == text[i]);
        }
        assert(text[text.len() - 1] != '(');
        lemma_no_bracket(less);
    }
}

/// A round bracket behind a link belongs to it where it closes one within, and
/// not otherwise.
pub proof fn a_bracket_that_closes_one_belongs_to_the_link(a: Seq<char>, b: Seq<char>)
    requires
        has_no_bracket(a),
        has_no_bracket(b),
    ensures
        without_trailing(a + seq!['('] + b + seq![')']) == a + seq!['('] + b + seq![')'],
        a.len() > 0 && !closing_signs().contains(a.last()) ==> without_trailing(a + seq![')'])
            == a,
{
    lemma_no_bracket(a);
    lemma_no_bracket(b);
    let whole = a + seq!['('] + b + seq![')'];
    let open = seq!['('];
    let close = seq![')'];
    assert(open.drop_last() =~= Seq::empty() && close.drop_last() =~= Seq::empty());
    reveal_with_fuel(count, 2);
    assert(count(open, '(') == 1 && count(open, ')') == 0);
    assert(count(close, '(') == 0 && count(close, ')') == 1);
    lemma_count_concat(a, open, '(');
    lemma_count_concat(a, open, ')');
    lemma_count_concat(a + open, b, '(');
    lemma_count_concat(a + open, b, ')');
    lemma_count_concat(a + open + b, close, '(');
    lemma_count_concat(a + open + b, close, ')');
    assert(whole.last() == ')');
    let lone = a + close;
    lemma_count_concat(a, close, '(');
    lemma_count_concat(a, close, ')');
    assert(lone.last() == ')');
    assert(lone.drop_last() =~= a);
    if a.len() > 0 {
        lemma_signs(a.last());
        assert(a[a.len() - 1] != ')');
        assert(a.last() == a[a.len() - 1]);
        assert(without_trailing(lone) == without_trailing(a));
    }
}

/// An address with one of three schemes, in any letter case, leads to itself.
pub proof fn addresses_with_a_scheme_lead_to_themselves(
    scheme: Seq<char>,
    rest: Seq<char>,
    body: Seq<char>,
)
    requires
        seq![
            seq!['h', 't', 't', 'p'],
            seq!['h', 't', 't', 'p', 's'],
            seq!['f', 't', 'p'],
        ].contains(scheme),
        lowered(body) == scheme + seq![':', '/', '/'] + rest,
        rest.len() > 0,
    ensures
        href_of(body) == Some(body),
{
    reveal_strlit("http://");
    reveal_strlit("https://");
    reveal_strlit("ftp://");
    let schemes = seq![
        seq!['h', 't', 't', 'p'],
        seq!['h', 't', 't', 'p', 's'],
        seq!['f', 't', 'p'],
    ];
    assert(schemes.contains(scheme));
    assert(schemes[0] =~= seq!['h', 't', 't', 'p']);
    assert(schemes[1] =~= seq!['h', 't', 't', 'p', 's']);
    assert(schemes[2] =~= seq!['f', 't', 'p']);
    let small = lowered(body);
    let n = scheme.len() + 3;
    let front = small.subrange(0, n as int);
    if scheme == schemes[0] {
        assert(front =~= "http://"@);
    } else if scheme == schemes[1] {
        assert(front =~= "https://"@);
    } else {
        assert(front =~= "ftp://"@);
    }
}

/// Whether a text can be told from what stands around it in an address: it has
/// none of the signs that part one.
pub open spec fn is_whole_label(text: Seq<char>) -> bool {
    forall|i: int|
        0 <= i < text.len() ==> !seq!['.', ':', '/', '?', '#'].contains(#[trigger] text[i])
}

/// Whether some labels name a host: at least two, each of small letters,
/// digits and minus signs, the last of at least two letters.
pub open spec fn name_a_host(labels: Seq<Seq<char>>) -> bool {
    &&& labels.len() >= 2
    &&& forall|i: int|
        0 <= i < labels.len() ==> (#[trigger] labels[i]).len() > 0 && forall|j: int|
            0 <= j < labels[i].len() ==> 'a' <= #[trigger] labels[i][j] <= 'z' || '0'
                <= labels[i][j] <= '9' || labels[i][j] == '-'
    &&& labels.last().len() >= 2
    &&& forall|j: int| 0 <= j < labels.last().len() ==> 'a' <= #[trigger] labels.last()[j] <= 'z'
}

proof fn lemma_whole_label(text: Seq<char>, j: int)
    requires
        is_whole_label(text),
        0 <= j < text.len(),
    ensures
        text[j] != '.' && text[j] != ':' && text[j] != '/' && text[j] != '?' && text[j] != '#',
{
    let signs = seq!['.', ':', '/', '?', '#'];
    assert(signs[0] == '.' && signs[1] == ':' && signs[2] == '/' && signs[3] == '?');
    assert(signs[4] == '#');
    assert(!signs.contains(text[j]));
}

proof fn lemma_joined_labels(labels: Seq<Seq<char>>)
    requires
        labels.len() > 0,
        forall|i: int| 0 <= i < labels.len() ==> is_whole_label(#[trigger] labels[i]),
    ensures
        forall|j: int|
            0 <= j < join(labels, seq!['.']).len() ==> {
                let c = #[trigger] join(labels, seq!['.'])[j];
                c != ':' && c != '/' && c != '?' && c != '#'
            },
    decreases labels.len(),
{
    let whole = join(labels, seq!['.']);
    if labels.len() == 1 {
        assert forall|j: int| 0 <= j < whole.len() implies ({
            let c = #[trigger] whole[j];
            c != ':' && c != '/' && c != '?' && c != '#'
        }) by {
            lemma_whole_label(labels[0], j);
        }
    } else {
        let less = labels.drop_last();
        assert forall|i: int| 0 <= i < less.len() implies is_whole_label(#[trigger] less[i]) by {
            assert(less[i] == labels[i]);
        }
        lemma_joined_labels(less);
        let front = join(less, seq!['.']);
        let last = labels[labels.len() - 1];
        assert forall|j: int| 0 <= j < whole.len() implies ({
            let c = #[trigger] whole[j];
            c != ':' && c != '/' && c != '?' && c != '#'
        }) by {
            if j < front.len() {
                assert(whole[j] == front[j]);
            } else if j > front.len() {
                lemma_whole_label(last, j - front.len() - 1);
                assert(whole[j] == last[j - front.len() - 1]);
            }
        }
    }
}

/// The host of an address is told by its labels, whether or not a port stands
/// behind it, up to the path, the query or the fragment.
pub proof fn a_host_is_told_by_its_labels(
    labels: Seq<Seq<char>>,
    port: Seq<char>,
    path: Seq<char>,
)
    requires
        labels.len() > 0,
        forall|i: int| 0 <= i < labels.len() ==> is_whole_label(#[trigger] labels[i]),
        forall|i: int, j: int|
            0 <= i < labels.len() && 0 <= j < labels[i].len() ==> !('A' <= #[trigger] labels[i][j]
                <= 'Z'),
        port.len() > 0 ==> port[0] == ':' && is_whole_label(port.drop_first()),
        path.len() > 0 ==> path[0] == '/' || path[0] == '?' || path[0] == '#',
    ensures
        is_host_name(host_part(join(labels, seq!['.']) + port + path)) == name_a_host(labels),
{
    let host = join(labels, seq!['.']);
    let text = host + port + path;
    let n = host.len() + port.len() as int;
    let ends = |c: char| c == '/' || c == '?' || c == '#';
    lemma_joined_labels(labels);
    assert forall|j: int| 0 <= j < n implies !ends(#[trigger] text[j]) by {
        if j < host.len() {
            assert(text[j] == host[j]);
        } else {
            assert(text[j] == port[j - host.len()]);
            if j > host.len() {
                lemma_whole_label(port.drop_first(), j - host.len() - 1);
            }
        }
    }
    assert(path.len() > 0 ==> text[n] == path[0]);
    lemma_first_where_is(text, ends, n);
    let full = host + port;
    assert(text.take(n) =~= full);
    let colon = |c: char| c == ':';
    assert forall|j: int| 0 <= j < host.len() implies !colon(#[trigger] full[j]) by {
        assert(full[j] == host[j]);
    }
    assert(port.len() > 0 ==> full[host.len() as int] == port[0]);
    lemma_first_where_is(full, colon, host.len() as int);
    assert(full.take(host.len() as int) =~= host);
    assert forall|i: int, j: int|
        0 <= i < labels.len() && 0 <= j < labels[i].len() implies #[trigger] labels[i][j]
        != '.' by {
        lemma_whole_label(labels[i], j);
    }
    cutting_undoes_joining(labels, '.');
    if name_a_host(labels) {
        assert forall|i: int| 0 <= i < labels.len() implies is_label(#[trigger] labels[i]) by {
            assert forall|j: int| 0 <= j < labels[i].len() implies is_letter(
                #[trigger] labels[i][j],
            ) || is_digit(labels[i][j]) || labels[i][j] == '-' by {}
        }
        let last = labels.last();
        assert forall|j: int| 0 <= j < last.len() implies is_letter(#[trigger] last[j]) by {
            assert('a' <= labels.last()[j] <= 'z');
        }
        assert(is_host_name(full));
    }
    if is_host_name(full) {
        assert forall|i: int| 0 <= i < labels.len() implies (#[trigger] labels[i]).len() > 0
            && forall|j: int|
            0 <= j < labels[i].len() ==> 'a' <= #[trigger] labels[i][j] <= 'z' || '0'
                <= labels[i][j] <= '9' || labels[i][j] == '-' by {
            assert(is_label(labels[i]));
            assert forall|j: int| 0 <= j < labels[i].len() implies 'a' <= #[trigger] labels[i][j]
                <= 'z' || '0' <= labels[i][j] <= '9' || labels[i][j] == '-' by {
                assert(is_letter(labels[i][j]) || is_digit(labels[i][j]) || labels[i][j] == '-');
            }
        }
        let last = labels[labels.len() - 1];
        assert forall|j: int| 0 <= j < labels.last().len() implies 'a'
            <= #[trigger] labels.last()[j] <= 'z' by {
            assert(is_letter(labels.last()[j]));
            assert(!('A' <= last[j] <= 'Z'));
        }
    }
}

/// A host with a path is a link exactly where its labels name a host, and leads
/// there over https. The letter case does not count.
pub proof fn hosts_with_a_path_are_links(
    labels: Seq<Seq<char>>,
    port: Seq<char>,
    path: Seq<char>,
    body: Seq<char>,
)
    requires
        labels.len() > 0,
        forall|i: int| 0 <= i < labels.len() ==> is_whole_label(#[trigger] labels[i]),
        port.len() > 0 ==> port[0] == ':' && port.len() > 1 && is_whole_label(port.drop_first()),
        labels[0] != seq!['w', 'w', 'w'],
        lowered(body) == join(labels, seq!['.']) + port + (seq!['/'] + path),
    ensures
        href_of(body) == if name_a_host(labels) {
            Some("https://"@ + body)
        } else {
            None
        },
{
    let small = lowered(body);
    let host = join(labels, seq!['.']);
    let tail = seq!['/'] + path;
    lemma_joined_labels(labels);
    assert(small.subrange(0, host.len() as int) =~= host);
    lemma_labels_are_small(labels, body, small, 0);
    a_host_is_told_by_its_labels(labels, port, tail);
    assert(small[(host.len() + port.len()) as int] == '/');
    assert(small.contains('/'));
    lemma_host_before_scheme(labels, port, path, small);
}

proof fn lemma_labels_are_small(
    labels: Seq<Seq<char>>,
    body: Seq<char>,
    text: Seq<char>,
    from: int,
)
    requires
        labels.len() > 0,
        0 <= from,
        from + join(labels, seq!['.']).len() <= text.len(),
        lowered(body) == text,
        text.subrange(from, from + join(labels, seq!['.']).len()) == join(labels, seq!['.']),
    ensures
        forall|i: int, j: int|
            0 <= i < labels.len() && 0 <= j < labels[i].len() ==> !('A' <= #[trigger] labels[i][j]
                <= 'Z'),
    decreases labels.len(),
{
    let host = join(labels, seq!['.']);
    assert forall|k: int| 0 <= k < host.len() implies !('A' <= #[trigger] host[k] <= 'Z') by {
        assert(host[k] == text.subrange(from, from + host.len())[k]);
        assert(text[from + k] == lowered(body)[from + k]);
        letter_case_keeps_places(body, from + k);
        letter_case_is_that_of_ascii(body[from + k]);
    }
    if labels.len() == 1 {
        assert forall|i: int, j: int| 0 <= i < labels.len() && 0 <= j < labels[i].len() implies !(
        'A' <= #[trigger] labels[i][j] <= 'Z') by {
            assert(labels[i][j] == host[j]);
        }
    } else {
        let less = labels.drop_last();
        let front = join(less, seq!['.']);
        assert(text.subrange(from, from + front.len()) =~= front) by {
            assert forall|k: int| 0 <= k < front.len() implies text.subrange(
                from,
                from + front.len(),
            )[k] == #[trigger] front[k] by {
                assert(host[k] == front[k]);
                assert(host[k] == text.subrange(from, from + host.len())[k]);
            }
        }
        lemma_labels_are_small(less, body, text, from);
        assert forall|i: int, j: int| 0 <= i < labels.len() && 0 <= j < labels[i].len() implies !(
        'A' <= #[trigger] labels[i][j] <= 'Z') by {
            if i < less.len() {
                assert(less[i][j] == labels[i][j]);
            } else {
                assert(labels[i][j] == host[front.len() + 1 + j]);
            }
        }
    }
}

/// No slash stands right behind the colon of a port.
proof fn lemma_port_before_path(
    labels: Seq<Seq<char>>,
    port: Seq<char>,
    path: Seq<char>,
    small: Seq<char>,
    k: int,
)
    requires
        labels.len() > 0,
        forall|i: int| 0 <= i < labels.len() ==> is_whole_label(#[trigger] labels[i]),
        port.len() > 0 ==> port[0] == ':' && port.len() > 1 && is_whole_label(port.drop_first()),
        small == join(labels, seq!['.']) + port + (seq!['/'] + path),
        0 <= k < small.len() - 1,
        small[k] == ':',
        forall|j: int| 0 <= j < k ==> #[trigger] small[j] != ':' && small[j] != '/',
    ensures
        small[k + 1] != '/',
{
    let host = join(labels, seq!['.']);
    let n = host.len() as int;
    lemma_joined_labels(labels);
    assert(small[n + port.len()] == '/');
    if k < n {
        assert(small[k] == host[k]);
    } else if port.len() > 0 {
        assert(small[n] == ':');
        assert(small[n + 1] == port[1]);
        assert(port.drop_first()[0] == port[1]);
        lemma_whole_label(port.drop_first(), 0);
    }
}

/// A host with a path has neither a scheme nor `www.` before it.
proof fn lemma_host_before_scheme(
    labels: Seq<Seq<char>>,
    port: Seq<char>,
    path: Seq<char>,
    small: Seq<char>,
)
    requires
        labels.len() > 0,
        forall|i: int| 0 <= i < labels.len() ==> is_whole_label(#[trigger] labels[i]),
        port.len() > 0 ==> port[0] == ':' && port.len() > 1 && is_whole_label(port.drop_first()),
        labels[0] != seq!['w', 'w', 'w'],
        small == join(labels, seq!['.']) + port + (seq!['/'] + path),
    ensures
        !goes_beyond(small, "http://"@),
        !goes_beyond(small, "https://"@),
        !goes_beyond(small, "ftp://"@),
        !goes_beyond(small, "www."@),
{
    reveal_strlit("http://");
    reveal_strlit("https://");
    reveal_strlit("ftp://");
    reveal_strlit("www.");
    let host = join(labels, seq!['.']);
    let n = host.len() as int;
    lemma_joined_labels(labels);
    if goes_beyond(small, "http://"@) {
        assert("http://"@ =~= small.subrange(0, 7));
        assert("http://"@[0] == small[0] && "http://"@[1] == small[1] && "http://"@[2] == small[2]);
        assert("http://"@[3] == small[3] && "http://"@[4] == small[4] && "http://"@[5] == small[5]);
        lemma_port_before_path(labels, port, path, small, 4);
    }
    if goes_beyond(small, "https://"@) {
        assert("https://"@ =~= small.subrange(0, 8));
        assert("https://"@[0] == small[0] && "https://"@[1] == small[1] && "https://"@[2]
            == small[2]);
        assert("https://"@[3] == small[3] && "https://"@[4] == small[4] && "https://"@[5]
            == small[5]);
        assert("https://"@[6] == small[6]);
        lemma_port_before_path(labels, port, path, small, 5);
    }
    if goes_beyond(small, "ftp://"@) {
        assert("ftp://"@ =~= small.subrange(0, 6));
        assert("ftp://"@[0] == small[0] && "ftp://"@[1] == small[1] && "ftp://"@[2] == small[2]);
        assert("ftp://"@[3] == small[3] && "ftp://"@[4] == small[4]);
        lemma_port_before_path(labels, port, path, small, 3);
    }
    if goes_beyond(small, "www."@) {
        assert("www."@ =~= small.subrange(0, 4));
        assert("www."@[0] == small[0] && "www."@[1] == small[1] && "www."@[2] == small[2]);
        assert("www."@[3] == small[3]);
        let first = labels[0];
        lemma_first_label(labels);
        let k = first.len() as int;
        assert(first =~= host.subrange(0, k));
        assert forall|j: int| 0 <= j < k implies small[j] == #[trigger] first[j] by {
            assert(host.subrange(0, k)[j] == host[j]);
        }
        if k > 3 {
            lemma_whole_label(first, 3);
        } else if k < 3 {
            assert(small[k] == '.' || small[k] == ':' || small[k] == '/');
        } else {
            assert(first =~= seq!['w', 'w', 'w']);
        }
    }
}

proof fn lemma_first_label(labels: Seq<Seq<char>>)
    requires
        labels.len() > 0,
    ensures
        ({
            let host = join(labels, seq!['.']);
            let k = labels[0].len() as int;
            &&& k <= host.len()
            &&& host.subrange(0, k) == labels[0]
            &&& k < host.len() ==> host[k] == '.'
        }),
    decreases labels.len(),
{
    let host = join(labels, seq!['.']);
    let k = labels[0].len() as int;
    if labels.len() == 1 {
        assert(host.subrange(0, k) =~= labels[0]);
    } else {
        let less = labels.drop_last();
        lemma_first_label(less);
        let front = join(less, seq!['.']);
        assert(host.subrange(0, k) =~= front.subrange(0, k));
    }
}

/// A word with neither a scheme nor a slash is a link only behind `www.`, and
/// there exactly where the labels that follow name a host.
pub proof fn only_hosts_follow_www(labels: Seq<Seq<char>>, port: Seq<char>, body: Seq<char>)
    requires
        labels.len() > 0,
        forall|i: int| 0 <= i < labels.len() ==> is_whole_label(#[trigger] labels[i]),
        port.len() > 0 ==> port[0] == ':' && is_whole_label(port.drop_first()),
        join(labels, seq!['.']).len() > 0,
        lowered(body) == seq!['w', 'w', 'w', '.'] + join(labels, seq!['.']) + port,
    ensures
        href_of(body) == if name_a_host(labels) {
            Some("https://"@ + body)
        } else {
            None
        },
{
    reveal_strlit("http://");
    reveal_strlit("https://");
    reveal_strlit("ftp://");
    reveal_strlit("www.");
    let small = lowered(body);
    let host = join(labels, seq!['.']);
    let none = Seq::<char>::empty();
    let n = host.len() as int;
    assert(small.subrange(4, 4 + n) =~= host);
    lemma_labels_are_small(labels, body, small, 4);
    a_host_is_told_by_its_labels(labels, port, none);
    assert(small.skip(4) =~= host + port + none);
    assert("www."@ =~= small.subrange(0, 4));
    assert(small[0] == 'w');
    assert(!goes_beyond(small, "http://"@)) by {
        assert("http://"@[0] == 'h');
        if goes_beyond(small, "http://"@) {
            assert("http://"@ =~= small.subrange(0, 7));
            assert("http://"@[0] == small.subrange(0, 7)[0]);
        }
    }
    assert(!goes_beyond(small, "https://"@)) by {
        assert("https://"@[0] == 'h');
        if goes_beyond(small, "https://"@) {
            assert("https://"@ =~= small.subrange(0, 8));
            assert("https://"@[0] == small.subrange(0, 8)[0]);
        }
    }
    assert(!goes_beyond(small, "ftp://"@)) by {
        assert("ftp://"@[0] == 'f');
        if goes_beyond(small, "ftp://"@) {
            assert("ftp://"@ =~= small.subrange(0, 6));
            assert("ftp://"@[0] == small.subrange(0, 6)[0]);
        }
    }
    lemma_joined_labels(labels);
    assert forall|j: int| 0 <= j < small.len() implies #[trigger] small[j] != '/' by {
        if 4 <= j < 4 + n {
            assert(small[j] == host[j - 4]);
        } else if j >= 4 + n {
            assert(small[j] == port[j - 4 - n]);
            if j > 4 + n {
                lemma_whole_label(port.drop_first(), j - 4 - n - 1);
            }
        }
    }
}

/// Each word is read by itself: the links of a text are those of its words, in
/// their order, each where its word stands.
pub proof fn links_are_those_of_the_words(
    before: Seq<char>,
    blank: Seq<char>,
    word: Seq<char>,
    after: Seq<char>,
)
    requires
        forall|i: int| 0 <= i < blank.len() ==> is_space(#[trigger] blank[i]),
        forall|i: int| 0 <= i < word.len() ==> !is_space(#[trigger] word[i]),
        word.len() > 0,
        after.len() > 0 ==> is_space(after[0]),
    ensures
        ({
            let text = before + blank + word + after;
            let start = before.len() + blank.len() as int;
            let behind = links_from(text, start + word.len());
            let (lead, body) = candidate(word);
            links_from(text, before.len() as int) == match href_of(body) {
                Some(href) => seq![
                    (Found { from: start + lead, to: start + lead + body.len(), href }),
                ] + behind,
                None => behind,
            }
        }),
        links_from(before + blank, before.len() as int) == Seq::<Found>::empty(),
{
    let text = before + blank + word + after;
    let p = before.len() as int;
    let start = p + blank.len();
    let end = start + word.len();
    let kept = |c: char| !is_space(c);
    let space = |c: char| is_space(c);
    let rest = text.skip(p);
    assert forall|i: int| 0 <= i < blank.len() implies !kept(#[trigger] rest[i]) by {
        assert(rest[i] == blank[i]);
    }
    assert(rest[blank.len() as int] == word[0]);
    lemma_first_where_is(rest, kept, blank.len() as int);
    let tail = text.skip(start);
    assert forall|i: int| 0 <= i < word.len() implies !space(#[trigger] tail[i]) by {
        assert(tail[i] == word[i]);
    }
    assert(after.len() > 0 ==> tail[word.len() as int] == after[0]);
    lemma_first_where_is(tail, space, word.len() as int);
    assert(text.subrange(start, end) =~= word);
    let bare = before + blank;
    let last = bare.skip(p);
    assert forall|i: int| 0 <= i < blank.len() implies !kept(#[trigger] last[i]) by {
        assert(last[i] == blank[i]);
    }
    lemma_first_where_is(last, kept, blank.len() as int);
    assert(bare.skip(start) =~= Seq::<char>::empty());
    lemma_first_where(bare.skip(start), space);
}

/// A link is shown at the bytes that spell it.
pub proof fn the_bytes_of_a_link_spell_it(text: Seq<char>, link: Link, found: Found)
    requires
        0 <= found.from <= found.to <= text.len(),
        shows(text, link, found),
    ensures
        link.range.start <= link.range.end <= encode_utf8(text).len(),
        encode_utf8(text).subrange(link.range.start as int, link.range.end as int) == encode_utf8(
            text.subrange(found.from, found.to),
        ),
        link.href@ == found.href,
{
    let front = text.take(found.from);
    let inner = text.subrange(found.from, found.to);
    let rest = text.skip(found.to);
    assert(text.take(found.to) =~= front + inner);
    assert(text =~= text.take(found.to) + rest);
    lemma_encode_concat(front, inner);
    lemma_encode_concat(text.take(found.to), rest);
    let whole = encode_utf8(text);
    assert(whole == encode_utf8(front) + encode_utf8(inner) + encode_utf8(rest));
    assert(whole.subrange(link.range.start as int, link.range.end as int) =~= encode_utf8(inner));
}

/// Twenty-five mebibytes of an image and one of a text are the most that is
/// downloaded.
pub proof fn images_may_be_larger_than_texts()
    ensures
        MAX_IMAGE_BYTES == 25 * MAX_TEXT_BYTES,
        MAX_TEXT_BYTES == 1_048_576,
{
}

} // verus!
