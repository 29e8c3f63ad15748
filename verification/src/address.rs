//! Web addresses, as far as the library looks into them.

use vstd::prelude::*;

use crate::bytes::{byte_len, lemma_encode_concat};
use crate::text::opt;

verus! {

/// The parts of a web address that decisions are made on.
#[derive(Debug, Clone, PartialEq, Eq)]
pub struct WebUrl {
    /// In small letters, without the colon.
    pub scheme: String,
    pub host: Option<String>,
    /// The port, or the known one of the scheme.
    pub port: Option<u16>,
    pub path: String,
}

/// What a [`WebUrl`] says.
pub struct UrlView {
    pub scheme: Seq<char>,
    pub host: Option<Seq<char>>,
    pub port: Option<u16>,
    pub path: Seq<char>,
}

impl View for WebUrl {
    type V = UrlView;

    open spec fn view(&self) -> UrlView {
        UrlView {
            scheme: self.scheme@,
            host: opt(self.host),
            port: self.port,
            path: self.path@,
        }
    }
}

/// The address in `url`, if any.
pub open spec fn opt_url(url: Option<WebUrl>) -> Option<UrlView> {
    match url {
        Some(url) => Some(url@),
        None => None,
    }
}

/// What `reqwest::Url::parse` makes of a text; `None` where it refuses it.
pub uninterp spec fn url_parts(text: Seq<char>) -> Option<UrlView>;

/// `reqwest::Url::parse`, and the scheme, the host, the port (or the known
/// default of the scheme) and the path that it found. Which texts are
/// addresses, and how they are taken apart, is the parser's business: the
/// result is claimed to be a function of the text and nothing more.
#[verifier::external_body]
pub(crate) fn parse_url(text: &str) -> (url: Option<WebUrl>)
    ensures
        opt_url(url) == url_parts(text@),
{
    let url = reqwest::Url::parse(text).ok()?;
    Some(WebUrl {
        scheme: url.scheme().to_string(),
        host: url.host_str().map(str::to_string),
        port: url.port_or_known_default(),
        path: url.path().to_string(),
    })
}

/// The most bytes that texts added to an address can take: three for each of
/// theirs, when all are percent-encoded, and two separators each.
pub open spec fn cost(added: Seq<Seq<char>>) -> nat
    decreases added.len(),
{
    if added.len() == 0 {
        0
    } else {
        cost(added.drop_last()) + 3 * byte_len(added.last()) + 2
    }
}

/// Whether an address can take on the texts: the parser counts its bytes in
/// 32 bits.
pub open spec fn fits(url: Seq<char>, added: Seq<Seq<char>>) -> bool {
    byte_len(url) + 1 + cost(added) <= u32::MAX
}

/// What a list of texts says.
pub open spec fn views(texts: Seq<&str>) -> Seq<Seq<char>> {
    Seq::new(texts.len(), |i: int| texts[i]@)
}

/// What a list of named texts says.
pub open spec fn named_views(pairs: Seq<(&str, String)>) -> Seq<(Seq<char>, Seq<char>)> {
    Seq::new(pairs.len(), |i: int| (pairs[i].0@, pairs[i].1@))
}

/// The names and the values of a query, as the texts that they add.
pub open spec fn query_texts(pairs: Seq<(Seq<char>, Seq<char>)>) -> Seq<Seq<char>> {
    Seq::new(pairs.len(), |i: int| pairs[i].0 + pairs[i].1)
}

/// What a text or an error text says.
pub open spec fn text_or_error(text: Result<String, String>) -> Result<Seq<char>, Seq<char>> {
    match text {
        Ok(text) => Ok(text@),
        Err(error) => Err(error@),
    }
}

/// How `reqwest::Url` spells an address, or the text of its refusal.
pub uninterp spec fn spelled_url(text: Seq<char>) -> Result<Seq<char>, Seq<char>>;

/// The address that `reqwest::Url` makes of a base address and path segments
/// after it, or the text of its refusal.
pub uninterp spec fn extended_url(base: Seq<char>, segments: Seq<Seq<char>>) -> Result<
    Seq<char>,
    Seq<char>,
>;

/// The address that `reqwest::Url` makes of an address and query pairs after
/// it; `None` where it refuses the address.
pub uninterp spec fn queried_url(
    url: Seq<char>,
    pairs: Seq<(Seq<char>, Seq<char>)>,
) -> Option<Seq<char>>;

/// `reqwest::Url::parse`, then its `to_string`. Which texts
/// are addresses, and how they are spelled, is the parser's business: the
/// result is claimed to be a function of the text and nothing more.
#[verifier::external_body]
fn spell_url(text: &str) -> (url: Result<String, String>)
    ensures
        text_or_error(url) == spelled_url(text@),
{
    match reqwest::Url::parse(text) {
        Ok(url) => Ok(url.to_string()),
        Err(error) => Err(error.to_string()),
    }
}

/// `reqwest::Url::parse`, then `extend` of its `path_segments_mut`: each
/// segment is percent-encoded and goes to the end of the path. Refused with
/// the parser's own text, or, where the address can have no path, with the
/// base itself. How the parts are encoded is not stated, only that the result
/// is a function of the texts, and that no fragment comes in: a `#` in a
/// segment is encoded. The parser counts bytes in 32 bits, and fails where
/// they do not suffice: the texts must fit.
#[verifier::external_body]
fn extend_url(base: &str, segments: &Vec<&str>) -> (url: Result<String, String>)
    requires
        spelled_url(base@) matches Ok(text) ==> fits(text, views(segments@)),
    ensures
        text_or_error(url) == extended_url(base@, views(segments@)),
        url matches Ok(text) ==> !base@.contains('#') ==> !text@.contains('#'),
{
    let mut url = match reqwest::Url::parse(base) {
        Ok(url) => url,
        Err(error) => return Err(error.to_string()),
    };
    match url.path_segments_mut() {
        Ok(mut path) => {
            path.extend(segments);
        }
        Err(()) => return Err(base.to_string()),
    }
    Ok(url.to_string())
}

/// `reqwest::Url::parse`, then `extend_pairs` of its `query_pairs_mut`: the
/// pairs go to the end of the query, encoded as a form is. How they are
/// encoded is not stated, only that the result is a function of the texts,
/// and that no fragment comes in. The texts must fit, as above.
#[verifier::external_body]
fn query_url(url: &str, pairs: &Vec<(&str, String)>) -> (queried: Option<String>)
    requires
        spelled_url(url@) matches Ok(text) ==> fits(text, query_texts(named_views(pairs@))),
    ensures
        opt(queried) == queried_url(url@, named_views(pairs@)),
        queried matches Some(text) ==> !url@.contains('#') ==> !text@.contains('#'),
{
    let mut queried = reqwest::Url::parse(url).ok()?;
    queried.query_pairs_mut().extend_pairs(pairs);
    Some(queried.to_string())
}

/// The address of a base, path segments and a query, or the text of the
/// refusal, which is the base where the address would be too long for the
/// parser. Without pairs the address has no query of its own.
pub open spec fn address(
    base: Seq<char>,
    segments: Seq<Seq<char>>,
    pairs: Seq<(Seq<char>, Seq<char>)>,
) -> Result<Seq<char>, Seq<char>> {
    match spelled_url(base) {
        Err(error) => Err(error),
        Ok(text) => if !fits(text, segments) {
            Err(base)
        } else {
            match extended_url(base, segments) {
                Err(error) => Err(error),
                Ok(url) => if pairs.len() == 0 {
                    Ok(url)
                } else {
                    with_query(base, url, pairs)
                },
            }
        },
    }
}

/// The address `url`, made of `base`, with a query.
pub open spec fn with_query(
    base: Seq<char>,
    url: Seq<char>,
    pairs: Seq<(Seq<char>, Seq<char>)>,
) -> Result<Seq<char>, Seq<char>> {
    match spelled_url(url) {
        Err(_) => Err(base),
        Ok(text) => if !fits(text, query_texts(pairs)) {
            Err(base)
        } else {
            match queried_url(url, pairs) {
                Some(queried) => Ok(queried),
                None => Err(base),
            }
        },
    }
}

/// The bytes of a text.
fn weight(text: &str) -> (bytes: u64)
    ensures
        bytes == byte_len(text@),
{
    text.as_bytes().len() as u64
}

/// What is left of `room` once a text of so many bytes is added.
fn left_after(room: Option<u32>, bytes: u64) -> (left: Option<u32>)
    ensures
        match (room, left) {
            (Some(room), Some(left)) => left + 3 * bytes + 2 == room,
            (Some(room), None) => 3 * bytes + 2 > room,
            (None, left) => left is None,
        },
{
    match room {
        Some(room) => if bytes <= 0xffff_ffff && 3 * bytes + 2 <= room as u64 {
            Some((room as u64 - (3 * bytes + 2)) as u32)
        } else {
            None
        },
        None => None,
    }
}

/// The room that an address leaves.
fn room_in(url: &str) -> (room: Option<u32>)
    ensures
        match room {
            Some(room) => room + byte_len(url@) + 1 == u32::MAX,
            None => byte_len(url@) + 1 > u32::MAX,
        },
{
    let bytes: u64 = weight(url);
    if bytes < 0xffff_ffff {
        Some((0xffff_ffff - bytes - 1) as u32)
    } else {
        None
    }
}

fn segments_fit(url: &str, segments: &Vec<&str>) -> (fit: bool)
    ensures
        fit == fits(url@, views(segments@)),
{
    let ghost texts = views(segments@);
    let mut room: Option<u32> = room_in(url);
    let mut i: usize = 0;
    while i < segments.len()
        invariant
            i <= segments@.len(),
            texts == views(segments@),
            match room {
                Some(room) => room + byte_len(url@) + 1 + cost(texts.take(i as int)) == u32::MAX,
                None => byte_len(url@) + 1 + cost(texts.take(i as int)) > u32::MAX,
            },
        decreases segments@.len() - i,
    {
        assert(texts.take(i + 1).drop_last() =~= texts.take(i as int));
        assert(texts.take(i + 1).last() == segments@[i as int]@);
        let bytes: u64 = weight(segments[i]);
        room = left_after(room, bytes);
        i += 1;
    }
    assert(texts.take(i as int) =~= texts);
    room.is_some()
}

fn query_fits(url: &str, pairs: &Vec<(&str, String)>) -> (fit: bool)
    ensures
        fit == fits(url@, query_texts(named_views(pairs@))),
{
    let ghost texts = query_texts(named_views(pairs@));
    let mut room: Option<u32> = room_in(url);
    let mut i: usize = 0;
    while i < pairs.len()
        invariant
            i <= pairs@.len(),
            texts == query_texts(named_views(pairs@)),
            match room {
                Some(room) => room + byte_len(url@) + 1 + cost(texts.take(i as int)) == u32::MAX,
                None => byte_len(url@) + 1 + cost(texts.take(i as int)) > u32::MAX,
            },
        decreases pairs@.len() - i,
    {
        assert(texts.take(i + 1).drop_last() =~= texts.take(i as int));
        assert(texts.take(i + 1).last() == pairs@[i as int].0@ + pairs@[i as int].1@);
        proof {
            lemma_encode_concat(pairs@[i as int].0@, pairs@[i as int].1@);
        }
        let name: u64 = weight(pairs[i].0);
        let value: u64 = weight(pairs[i].1.as_str());
        room = if name <= 0xffff_ffff && value <= 0xffff_ffff {
            left_after(room, name + value)
        } else {
            None
        };
        i += 1;
    }
    assert(texts.take(i as int) =~= texts);
    room.is_some()
}

/// The address of a base, path segments and a query.
pub fn build_address(base: &str, segments: &Vec<&str>, pairs: &Vec<(&str, String)>) -> (url: Result<
    String,
    String,
>)
    ensures
        text_or_error(url) == address(base@, views(segments@), named_views(pairs@)),
        url matches Ok(text) ==> !base@.contains('#') ==> !text@.contains('#'),
{
    let spelled = match spell_url(base) {
        Ok(spelled) => spelled,
        Err(error) => return Err(error),
    };
    if !segments_fit(spelled.as_str(), segments) {
        return Err(base.to_string());
    }
    let url = match extend_url(base, segments) {
        Ok(url) => url,
        Err(error) => return Err(error),
    };
    if pairs.len() == 0 {
        return Ok(url);
    }
    let spelled = match spell_url(url.as_str()) {
        Ok(spelled) => spelled,
        Err(_) => return Err(base.to_string()),
    };
    if !query_fits(spelled.as_str(), pairs) {
        return Err(base.to_string());
    }
    match query_url(url.as_str(), pairs) {
        Some(queried) => Ok(queried),
        None => Err(base.to_string()),
    }
}

/// An address is made of its base and segments, then its query; where the
/// parser could not hold it, or one of the parts is refused, there is none.
pub proof fn addresses_are_made_step_by_step(
    base: Seq<char>,
    segments: Seq<Seq<char>>,
    pairs: Seq<(Seq<char>, Seq<char>)>,
    text: Seq<char>,
    url: Seq<char>,
)
    requires
        spelled_url(base) == Ok::<Seq<char>, Seq<char>>(text),
        byte_len(text) + 1 + cost(segments) <= 0xffff_ffff,
    ensures
        extended_url(base, segments) == Ok::<Seq<char>, Seq<char>>(url) ==> address(
            base,
            segments,
            Seq::empty(),
        ) == Ok::<Seq<char>, Seq<char>>(url),
        extended_url(base, segments) == Ok::<Seq<char>, Seq<char>>(url) && pairs.len() > 0
            && spelled_url(url) == Ok::<Seq<char>, Seq<char>>(url) && byte_len(url) + 1 + cost(
            query_texts(pairs),
        ) <= 0xffff_ffff && queried_url(url, pairs) is Some ==> address(base, segments, pairs)
            == Ok::<Seq<char>, Seq<char>>(queried_url(url, pairs)->0),
        extended_url(base, segments) is Err ==> address(base, segments, pairs) is Err,
{
}

/// Every text that is added costs three bytes for each of its own and two more.
pub proof fn added_texts_cost_three_bytes_for_one(
    a: Seq<Seq<char>>,
    b: Seq<Seq<char>>,
    text: Seq<char>,
)
    ensures
        cost(seq![text]) == 3 * byte_len(text) + 2,
        cost(a + b) == cost(a) + cost(b),
    decreases b.len(),
{
    assert(seq![text].drop_last() =~= Seq::empty());
    assert(cost(Seq::empty()) == 0);
    if b.len() == 0 {
        assert(a + b =~= a);
    } else {
        assert((a + b).drop_last() =~= a + b.drop_last());
        added_texts_cost_three_bytes_for_one(a, b.drop_last(), text);
    }
}

} // verus!
