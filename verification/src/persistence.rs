//! What the application keeps in its own directory: settings, servers and a
//! log in which no secret is written.

use vstd::prelude::*;

use crate::decimal::{decimal, push_decimal};
use crate::domain::{Profile, Server};
use crate::split::{find, lemma_find, lemma_find_is, position_of, stands_at};
use crate::text::{
    chars_of, first_where, head, index_where, is_space, is_whitespace, lemma_first_where,
    lemma_first_where_is, letter_case_keeps_places, lowercase, lowered, string_of, tail,
    white_space_is_unicodes,
};

verus! {

/// The directory below the user's home that everything is kept in.
pub const CONFIG_DIR_NAME: &'static str = ".cordiale";

pub const SETTINGS_FILE_NAME: &'static str = "settings.json";

pub const SERVERS_FILE_NAME: &'static str = "servers.json";

pub const LOG_FILE_NAME: &'static str = "cordiale.log";

/// The schema version of the settings file, for future migrations.
pub const SETTINGS_SCHEMA_VERSION: u32 = 1;

/// The schema version of the servers file.
pub const SERVERS_SCHEMA_VERSION: u32 = 1;

#[derive(Debug, Clone, Copy, PartialEq, Eq, Structural)]
pub enum Language {
    En,
    It,
    Fr,
    De,
    Es,
}

#[derive(Debug, Clone, Copy, PartialEq, Eq, Structural)]
pub enum Theme {
    Light,
    Dark,
}

impl Default for Theme {
    fn default() -> (theme: Self)
        ensures
            theme == Theme::Light,
    {
        Theme::Light
    }
}

/// What the user has chosen.
#[derive(Debug, Clone, PartialEq, Eq)]
pub struct Settings {
    /// Schema version, for future migrations.
    pub schema_version: u32,
    /// `None` means the user hasn't picked a language yet: the GUI must ask
    /// on first launch and persist the answer here.
    pub language: Option<Language>,
    pub theme: Theme,
}

impl Default for Settings {
    fn default() -> (settings: Self)
        ensures
            settings.schema_version == SETTINGS_SCHEMA_VERSION,
            settings.language is None,
            settings.theme == Theme::Light,
    {
        Settings {
            schema_version: SETTINGS_SCHEMA_VERSION,
            language: None,
            theme: Theme::default(),
        }
    }
}

/// The servers and profiles that the user has set up.
#[derive(Debug, Clone, PartialEq, Eq)]
pub struct ServersFile {
    pub schema_version: u32,
    pub servers: Vec<Server>,
    pub profiles: Vec<Profile>,
    /// `base_url` of the currently selected `Server`, if any.
    pub selected_server_base_url: Option<String>,
    /// `identifier` of the currently selected `Profile`, if any.
    pub selected_profile_identifier: Option<String>,
}

impl Default for ServersFile {
    fn default() -> (file: Self)
        ensures
            file.schema_version == SERVERS_SCHEMA_VERSION,
            file.servers@ == Seq::<Server>::empty(),
            file.profiles@ == Seq::<Profile>::empty(),
            file.selected_server_base_url is None,
            file.selected_profile_identifier is None,
    {
        ServersFile {
            schema_version: SERVERS_SCHEMA_VERSION,
            servers: Vec::new(),
            profiles: Vec::new(),
            selected_server_base_url: None,
            selected_profile_identifier: None,
        }
    }
}

/// Quotes, which a value may stand between.
pub open spec fn is_quote(c: char) -> bool {
    c == '"' || c == '\''
}

/// Characters that may stand between the name of a secret and its value.
pub open spec fn is_separator(c: char) -> bool {
    c == ':' || c == '=' || c == ' ' || is_quote(c)
}

/// Characters that end the value of a secret, where no quotes stand around it.
pub open spec fn ends_value(c: char) -> bool {
    is_space(c) || is_quote(c) || c == ',' || c == '}' || c == '&'
}

/// A secret in a text.
pub struct Secret {
    /// Where its name or its marker begins.
    pub at: int,
    /// Where its value begins.
    pub start: int,
    /// The quote that the value stands behind and that is not closed before
    /// it, if any.
    pub quote: Option<char>,
}

/// The first place of a marker that a secret stands right behind.
pub open spec fn literal_hit(text: Seq<char>, marker: Seq<char>) -> Option<Secret> {
    match find(lowered(text), marker) {
        Some(at) => Some(Secret { at, start: at + marker.len(), quote: None }),
        None => None,
    }
}

/// The quote that is open behind `text`, where `quote` was before it.
pub open spec fn left_open(text: Seq<char>, quote: Option<char>) -> Option<char>
    decreases text.len(),
{
    if text.len() == 0 {
        quote
    } else {
        let before = left_open(text.drop_last(), quote);
        match before {
            Some(quote) => if text.last() == quote {
                None
            } else {
                before
            },
            None => if is_quote(text.last()) {
                Some(text.last())
            } else {
                None
            },
        }
    }
}

/// Where the value begins in the text behind the name of a secret: behind all
/// separators. And the quote that is open there; those right behind the name
/// close the name.
pub open spec fn value_in(text: Seq<char>) -> (int, Option<char>) {
    let start = first_where(text, |c: char| !is_separator(c));
    let name = first_where(text, |c: char| !is_quote(c));
    (start, left_open(text.subrange(name, start), None))
}

/// The first place of a name whose value is a secret.
pub open spec fn key_hit(text: Seq<char>, marker: Seq<char>) -> Option<Secret> {
    match find(lowered(text), marker) {
        Some(at) => {
            let end = at + marker.len();
            let (start, quote) = value_in(text.skip(end));
            Some(Secret { at, start: end + start, quote })
        },
        None => None,
    }
}

/// The hit that comes first; of two at one place, `a`.
pub open spec fn earlier(a: Option<Secret>, b: Option<Secret>) -> Option<Secret> {
    match (a, b) {
        (Some(x), Some(y)) => if y.at < x.at {
            b
        } else {
            a
        },
        (None, _) => b,
        (_, None) => a,
    }
}

/// The first secret of a text.
pub open spec fn first_secret(text: Seq<char>) -> Option<Secret> {
    earlier(
        earlier(
            earlier(
                earlier(literal_hit(text, "bearer.phx."@), literal_hit(text, "bearer "@)),
                key_hit(text, "password"@),
            ),
            key_hit(text, "token"@),
        ),
        key_hit(text, "secret"@),
    )
}

/// The length of the value that `text` begins with behind an opening quote: up
/// to the matching one, which no backslash escapes, or to the end.
pub open spec fn quoted_len(text: Seq<char>, quote: char) -> int
    decreases text.len(),
{
    if text.len() == 0 || text[0] == quote {
        0
    } else if text[0] == '\\' && text.len() > 1 {
        2 + quoted_len(text.skip(2), quote)
    } else {
        1 + quoted_len(text.skip(1), quote)
    }
}

/// The length of the value that `text` begins with.
pub open spec fn value_len(text: Seq<char>, quote: Option<char>) -> int {
    match quote {
        Some(quote) => quoted_len(text, quote),
        None => first_where(text, |c: char| ends_value(c)),
    }
}

/// The text with every secret masked.
pub open spec fn redacted(text: Seq<char>) -> Seq<char>
    decreases text.len(),
{
    match first_secret(text) {
        Some(secret) => {
            proof {
                lemma_first_secret(text);
                lemma_value_len(text.skip(secret.start), secret.quote);
            }
            text.take(secret.start) + "[redacted]"@ + redacted(
                text.skip(secret.start + value_len(text.skip(secret.start), secret.quote)),
            )
        },
        None => text,
    }
}

pub proof fn lemma_value_len(text: Seq<char>, quote: Option<char>)
    ensures
        0 <= value_len(text, quote) <= text.len(),
        value_len(text, quote) < text.len() ==> match quote {
            Some(quote) => text[quoted_len(text, quote)] == quote,
            None => ends_value(text[value_len(text, quote)]),
        },
    decreases text.len(),
{
    match quote {
        Some(q) => if text.len() == 0 || text[0] == q {
        } else if text[0] == '\\' && text.len() > 1 {
            lemma_value_len(text.skip(2), quote);
        } else {
            lemma_value_len(text.skip(1), quote);
        },
        None => lemma_first_where(text, |c: char| ends_value(c)),
    }
}

pub proof fn lemma_value_in(text: Seq<char>)
    ensures
        0 <= value_in(text).0 <= text.len(),
{
    lemma_first_where(text, |c: char| !is_separator(c));
}

/// The quotes that close a name are separators too.
proof fn lemma_name_ends(text: Seq<char>)
    ensures
        0 <= first_where(text, |c: char| !is_quote(c)) <= first_where(
            text,
            |c: char| !is_separator(c),
        ) <= text.len(),
{
    let quotes = |c: char| !is_quote(c);
    let separators = |c: char| !is_separator(c);
    lemma_first_where(text, quotes);
    lemma_first_where(text, separators);
    if first_where(text, separators) < first_where(text, quotes) {
        assert(!quotes(text[first_where(text, separators)]));
    }
}

pub proof fn lemma_hit(text: Seq<char>, marker: Seq<char>)
    requires
        marker.len() > 0,
    ensures
        literal_hit(text, marker) matches Some(secret) ==> 0 <= secret.at < secret.start
            <= text.len(),
        key_hit(text, marker) matches Some(secret) ==> 0 <= secret.at < secret.start
            <= text.len(),
{
    lemma_find(lowered(text), marker);
    if let Some(p) = find(lowered(text), marker) {
        lemma_value_in(text.skip(p + marker.len()));
    }
}

pub proof fn lemma_first_secret(text: Seq<char>)
    ensures
        first_secret(text) matches Some(secret) ==> 0 <= secret.at < secret.start <= text.len(),
{
    reveal_strlit("bearer.phx.");
    reveal_strlit("bearer ");
    reveal_strlit("password");
    reveal_strlit("token");
    reveal_strlit("secret");
    lemma_hit(text, "bearer.phx."@);
    lemma_hit(text, "bearer "@);
    lemma_hit(text, "password"@);
    lemma_hit(text, "token"@);
    lemma_hit(text, "secret"@);
}

fn opens_or_closes(c: char) -> (yes: bool)
    ensures
        yes == is_quote(c),
{
    c == '"' || c == '\''
}

fn is_no_quote(c: char) -> (yes: bool)
    ensures
        yes == !is_quote(c),
{
    !opens_or_closes(c)
}

fn is_no_separator(c: char) -> (yes: bool)
    ensures
        yes == !is_separator(c),
{
    !(c == ':' || c == '=' || c == ' ' || opens_or_closes(c))
}

fn closes_value(c: char) -> (yes: bool)
    ensures
        yes == ends_value(c),
{
    is_whitespace(c) || opens_or_closes(c) || c == ',' || c == '}' || c == '&'
}

/// A [`Secret`] of a text at hand.
struct Hit {
    at: usize,
    start: usize,
    quote: Option<char>,
}

spec fn place(hit: Option<Hit>) -> Option<Secret> {
    match hit {
        Some(hit) => Some(
            Secret { at: hit.at as int, start: hit.start as int, quote: hit.quote },
        ),
        None => None,
    }
}

fn find_literal(text: &[char], small: &[char], marker: &str) -> (hit: Option<Hit>)
    requires
        small@ == lowered(text@),
    ensures
        place(hit) == literal_hit(text@, marker@),
        hit matches Some(hit) ==> hit.start <= text@.len(),
{
    match position_of(small, marker) {
        Some(at) => {
            assert(small.len() == small@.len());
            Some(Hit { at, start: at + chars_of(marker).len(), quote: None })
        },
        None => None,
    }
}

fn open_quote(text: &[char]) -> (quote: Option<char>)
    ensures
        quote == left_open(text@, None),
{
    let mut quote: Option<char> = None;
    let mut i: usize = 0;
    assert(text@.take(0) =~= Seq::empty());
    while i < text.len()
        invariant
            i <= text@.len(),
            quote == left_open(text@.take(i as int), None),
        decreases text@.len() - i,
    {
        let c = text[i];
        assert(text@.take(i + 1).drop_last() =~= text@.take(i as int));
        assert(text@.take(i + 1).last() == c);
        quote = match quote {
            Some(open) => if c == open {
                None
            } else {
                Some(open)
            },
            None => if opens_or_closes(c) {
                Some(c)
            } else {
                None
            },
        };
        i += 1;
    }
    assert(text@.take(i as int) =~= text@);
    quote
}

fn find_key(text: &[char], small: &[char], marker: &str) -> (hit: Option<Hit>)
    requires
        small@ == lowered(text@),
    ensures
        place(hit) == key_hit(text@, marker@),
{
    match find_literal(text, small, marker) {
        Some(hit) => {
            assert(text.len() == text@.len());
            let behind = tail(text, hit.start);
            let ghost quotes = |c: char| !is_quote(c);
            let ghost separators = |c: char| !is_separator(c);
            let name = index_where(behind, is_no_quote, Ghost(quotes));
            let end = index_where(behind, is_no_separator, Ghost(separators));
            proof {
                lemma_name_ends(behind@);
            }
            let between = head(tail(behind, name), end - name);
            assert(between@ =~= behind@.subrange(name as int, end as int));
            let quote = open_quote(between);
            Some(Hit { at: hit.at, start: hit.start + end, quote })
        },
        None => None,
    }
}

fn pick(a: Option<Hit>, b: Option<Hit>) -> (hit: Option<Hit>)
    ensures
        place(hit) == earlier(place(a), place(b)),
{
    match (a, b) {
        (Some(x), Some(y)) => if y.at < x.at {
            Some(y)
        } else {
            Some(x)
        },
        (None, b) => b,
        (a, None) => a,
    }
}

fn next_secret(text: &[char], small: &[char]) -> (hit: Option<Hit>)
    requires
        small@ == lowered(text@),
    ensures
        place(hit) == first_secret(text@),
{
    let subprotocol = find_literal(text, small, "bearer.phx.");
    let header = find_literal(text, small, "bearer ");
    let mut hit = pick(subprotocol, header);
    hit = pick(hit, find_key(text, small, "password"));
    hit = pick(hit, find_key(text, small, "token"));
    pick(hit, find_key(text, small, "secret"))
}

fn length_of_value(text: &[char], quote: Option<char>) -> (len: usize)
    ensures
        len == value_len(text@, quote),
        len <= text@.len(),
{
    let quote = match quote {
        Some(quote) => quote,
        None => {
            let ghost ends = |c: char| ends_value(c);
            return index_where(text, closes_value, Ghost(ends));
        },
    };
    let mut i: usize = 0;
    assert(text@.skip(0) =~= text@);
    while i < text.len() && text[i] != quote
        invariant
            i <= text@.len(),
            i + quoted_len(text@.skip(i as int), quote) == quoted_len(text@, quote),
        decreases text@.len() - i,
    {
        let ghost here = text@.skip(i as int);
        assert(here[0] == text@[i as int]);
        assert(here.skip(1) =~= text@.skip(i + 1));
        if text[i] == '\\' && text.len() - i > 1 {
            assert(here.skip(2) =~= text@.skip(i + 2));
            i += 2;
        } else {
            i += 1;
        }
    }
    if i < text.len() {
        assert(text@.skip(i as int)[0] == quote);
    }
    i
}

/// Masks the values of secrets in a message before it is logged: what stands
/// behind a bearer marker, and the value of anything named a password, a token
/// or a secret, in any letter case. A value behind an open quote is masked up
/// to the matching one.
pub fn redact_secrets(message: &str) -> (masked: String)
    ensures
        masked@ == redacted(message@),
{
    let text = chars_of(message);
    let mut result = String::new();
    let mut cursor: usize = 0;
    assert(text@.skip(0) =~= text@);
    assert(result@ + redacted(text@) =~= redacted(text@));
    while cursor < text.len()
        invariant
            text@ == message@,
            cursor <= text@.len(),
            result@ + redacted(text@.skip(cursor as int)) == redacted(text@),
        decreases text@.len() - cursor,
    {
        let rest = tail(&text, cursor);
        let small = lowercase(rest);
        let ghost before = result@;
        proof {
            lemma_first_secret(rest@);
        }
        match next_secret(rest, &small) {
            Some(hit) => {
                let start: usize = hit.start;
                result.append(string_of(head(rest, start)).as_str());
                result.append("[redacted]");
                let len: usize = length_of_value(tail(rest, start), hit.quote);
                let ghost behind = rest@.skip(start + len);
                assert(behind =~= text@.skip(cursor + start + len));
                assert(result@ + redacted(behind) =~= before + (rest@.take(start as int)
                    + "[redacted]"@ + redacted(behind)));
                cursor = cursor + start + len;
            },
            None => {
                result.append(string_of(rest).as_str());
                assert(result@ =~= before + rest@);
                return result;
            },
        }
    }
    proof {
        lemma_first_secret(text@.skip(cursor as int));
        assert(text@.skip(cursor as int) =~= Seq::empty());
        assert(result@ + redacted(text@.skip(cursor as int)) =~= result@);
    }
    result
}

/// A line of the log: when it was written, and the message with its secrets
/// masked.
pub fn log_text(timestamp: u64, message: &str) -> (line: String)
    ensures
        line@ == seq!['['] + decimal(timestamp as nat) + "] "@ + redacted(message@) + seq!['\n'],
{
    let mut line = String::new();
    line.push('[');
    push_decimal(&mut line, timestamp);
    line.append("] ");
    line.append(redact_secrets(message).as_str());
    line.push('\n');
    assert(line@ =~= seq!['['] + decimal(timestamp as nat) + "] "@ + redacted(message@)
        + seq!['\n']);
    line
}

/// A message that names no secret is logged as it is.
pub proof fn messages_without_secrets_are_untouched(text: Seq<char>)
    requires
        find(lowered(text), "bearer.phx."@) is None,
        find(lowered(text), "bearer "@) is None,
        find(lowered(text), "password"@) is None,
        find(lowered(text), "token"@) is None,
        find(lowered(text), "secret"@) is None,
    ensures
        redacted(text) == text,
{
}

/// The marker of that number, in the order in which they are looked for.
pub open spec fn marker(i: int) -> Seq<char> {
    if i == 0 {
        "bearer.phx."@
    } else if i == 1 {
        "bearer "@
    } else if i == 2 {
        "password"@
    } else if i == 3 {
        "token"@
    } else {
        "secret"@
    }
}

/// The first place of a marker, and of the secret behind it.
spec fn hit(text: Seq<char>, i: int) -> Option<Secret> {
    if i < 2 {
        literal_hit(text, marker(i))
    } else {
        key_hit(text, marker(i))
    }
}

/// Whether `part` reads from position `k` of `text` on.
spec fn reads_at(text: Seq<char>, part: Seq<char>, k: int) -> bool {
    0 <= k && k + part.len() <= text.len() && forall|t: int|
        0 <= t < part.len() ==> #[trigger] part[t] == text[k + t]
}

proof fn lemma_reads_at(text: Seq<char>, part: Seq<char>, k: int)
    ensures
        reads_at(text, part, k) == stands_at(text, part, k),
{
    if stands_at(text, part, k) {
        assert forall|t: int| 0 <= t < part.len() implies #[trigger] part[t] == text[k + t] by {
            assert(text.skip(k)[t] == text[k + t]);
        }
    }
    if reads_at(text, part, k) {
        assert(part =~= text.skip(k).take(part.len() as int));
    }
}

/// No marker stands inside another.
proof fn lemma_markers_stand_apart(i: int, j: int, k: int)
    requires
        0 <= i < 5,
        0 <= j < 5,
        reads_at(marker(j), marker(i), k),
    ensures
        i == j,
{
    reveal_strlit("bearer.phx.");
    reveal_strlit("bearer ");
    reveal_strlit("password");
    reveal_strlit("token");
    reveal_strlit("secret");
    assert(marker(i)[0] == marker(j)[k]);
    assert(marker(i)[1] == marker(j)[k + 1]);
    if i == 1 && j == 0 {
        assert(marker(i)[6] == marker(j)[k + 6]);
    }
    assert(k == 0 || k == 1 || k == 2 || k == 3 || k == 4 || k == 5 || k == 6);
}

proof fn lemma_first_hit(text: Seq<char>) -> (i: int)
    requires
        first_secret(text) is Some,
    ensures
        0 <= i < 5,
        hit(text, i) == first_secret(text),
        forall|j: int|
            0 <= j < 5 ==> (#[trigger] hit(text, j) matches Some(other) ==> other.at
                >= first_secret(text)->Some_0.at),
{
    let all = first_secret(text);
    assert(hit(text, 0) == literal_hit(text, "bearer.phx."@));
    assert(hit(text, 1) == literal_hit(text, "bearer "@));
    assert(hit(text, 2) == key_hit(text, "password"@));
    assert(hit(text, 3) == key_hit(text, "token"@));
    assert(hit(text, 4) == key_hit(text, "secret"@));
    if hit(text, 0) == all {
        0
    } else if hit(text, 1) == all {
        1
    } else if hit(text, 2) == all {
        2
    } else if hit(text, 3) == all {
        3
    } else {
        4
    }
}

proof fn lemma_first_hit_is(text: Seq<char>, i: int)
    requires
        0 <= i < 5,
        hit(text, i) is Some,
        forall|j: int|
            0 <= j < 5 && j != i ==> (#[trigger] hit(text, j) matches Some(other) ==> other.at
                > hit(text, i)->Some_0.at),
    ensures
        first_secret(text) == hit(text, i),
{
    assert(hit(text, 0) == literal_hit(text, "bearer.phx."@));
    assert(hit(text, 1) == literal_hit(text, "bearer "@));
    assert(hit(text, 2) == key_hit(text, "password"@));
    assert(hit(text, 3) == key_hit(text, "token"@));
    assert(hit(text, 4) == key_hit(text, "secret"@));
}

/// Where a value begins is told by what stands before it, as long as no
/// separator comes in.
proof fn lemma_value_begins(before: Seq<char>, after: Seq<char>, other: Seq<char>)
    requires
        value_in(before + after).0 == before.len(),
        other.len() > 0,
        !is_separator(other[0]),
    ensures
        value_in(before + other) == value_in(before + after),
{
    let quotes = |c: char| !is_quote(c);
    let separators = |c: char| !is_separator(c);
    let a = before + after;
    let b = before + other;
    let n = before.len() as int;
    let name = first_where(a, quotes);
    lemma_name_ends(a);
    lemma_first_where(a, quotes);
    lemma_first_where(a, separators);
    assert forall|i: int| 0 <= i < n implies !separators(#[trigger] b[i]) by {
        assert(!separators(a[i]));
        assert(a[i] == before[i]);
    }
    assert(b[n] == other[0]);
    lemma_first_where_is(b, separators, n);
    assert forall|i: int| 0 <= i < name implies !quotes(#[trigger] b[i]) by {
        assert(!quotes(a[i]));
        assert(a[i] == before[i]);
    }
    if name < n {
        assert(quotes(a[name]));
        assert(a[name] == before[name] && b[name] == before[name]);
    }
    lemma_first_where_is(b, quotes, name);
    assert(a.subrange(name, n) =~= before.subrange(name, n));
    assert(b.subrange(name, n) =~= before.subrange(name, n));
}

/// The first secret is told by what stands before its value.
proof fn lemma_secret_stays(before: Seq<char>, after: Seq<char>, other: Seq<char>)
    requires
        first_secret(before + after) matches Some(secret) && secret.start == before.len(),
        other.len() > 0,
        !is_separator(other[0]),
    ensures
        first_secret(before + other) == first_secret(before + after),
{
    let a = before + after;
    let b = before + other;
    let secret = first_secret(a)->Some_0;
    let p = secret.at;
    let i = lemma_first_hit(a);
    let name = marker(i);
    let n = before.len() as int;
    lemma_first_secret(a);
    lemma_find(lowered(a), name);
    lemma_reads_at(lowered(a), name, p);
    lemma_value_in(a.skip(p + name.len()));
    assert(p + name.len() <= n);
    assert forall|k: int| 0 <= k < n implies lowered(a)[k] == lowered(b)[k] by {
        assert(a[k] == before[k] && b[k] == before[k]);
    }
    assert(reads_at(lowered(b), name, p));
    lemma_reads_at(lowered(b), name, p);
    assert forall|j: int, q: int|
        0 <= j < 5 && q <= p && #[trigger] stands_at(lowered(b), marker(j), q) implies j == i && q
        == p by {
        lemma_reads_at(lowered(b), marker(j), q);
        lemma_reads_at(lowered(a), marker(j), q);
        lemma_find(lowered(a), marker(j));
        if q + marker(j).len() <= n {
            assert forall|t: int| 0 <= t < marker(j).len() implies #[trigger] marker(j)[t]
                == lowered(a)[q + t] by {
                assert(marker(j)[t] == lowered(b)[q + t]);
            }
            assert(reads_at(lowered(a), marker(j), q));
            assert(hit(a, j) is Some);
            assert(q == p);
            if name.len() <= marker(j).len() {
                assert(reads_at(marker(j), name, 0)) by {
                    assert forall|t: int| 0 <= t < name.len() implies #[trigger] name[t]
                        == marker(j)[0 + t] by {
                        assert(marker(j)[t] == lowered(a)[q + t]);
                    }
                }
                lemma_markers_stand_apart(i, j, 0);
            } else {
                assert(reads_at(name, marker(j), 0)) by {
                    assert forall|t: int| 0 <= t < marker(j).len() implies #[trigger] marker(j)[t]
                        == name[0 + t] by {
                        assert(name[t] == lowered(a)[q + t]);
                    }
                }
                lemma_markers_stand_apart(j, i, 0);
            }
        } else {
            assert(reads_at(marker(j), name, p - q)) by {
                assert forall|t: int| 0 <= t < name.len() implies #[trigger] name[t] == marker(
                    j,
                )[p - q + t] by {
                    assert(name[t] == lowered(b)[p + t]);
                    assert(marker(j)[p - q + t] == lowered(b)[q + (p - q + t)]);
                }
            }
            lemma_markers_stand_apart(i, j, p - q);
        }
    }
    lemma_find_is(lowered(b), name, p);
    let end = p + name.len() as int;
    if i >= 2 {
        assert(a.skip(end) =~= before.skip(end) + after);
        assert(b.skip(end) =~= before.skip(end) + other);
        lemma_value_begins(before.skip(end), after, other);
    }
    assert(hit(b, i) == Some(secret));
    assert forall|j: int| 0 <= j < 5 && j != i implies (#[trigger] hit(b, j) matches Some(other)
        ==> other.at > p) by {
        lemma_find(lowered(b), marker(j));
    }
    lemma_first_hit_is(b, i);
}

/// Whether a text can stand between quotes: it holds no such quote but behind
/// a backslash.
pub open spec fn is_quotable(text: Seq<char>, quote: char) -> bool
    decreases text.len(),
{
    if text.len() == 0 {
        true
    } else if text[0] == '\\' {
        text.len() > 1 && is_quotable(text.skip(2), quote)
    } else {
        text[0] != quote && is_quotable(text.skip(1), quote)
    }
}

/// Whether a text can be the value of a secret, behind an open quote or not.
pub open spec fn is_value(text: Seq<char>, quote: Option<char>) -> bool {
    &&& text.len() > 0
    &&& !is_separator(text[0])
    &&& match quote {
        Some(quote) => is_quotable(text, quote),
        None => forall|i: int| 0 <= i < text.len() ==> !ends_value(#[trigger] text[i]),
    }
}

/// Whether a value ends before `text`.
pub open spec fn ends_before(text: Seq<char>, quote: Option<char>) -> bool {
    text.len() == 0 || match quote {
        Some(quote) => text[0] == quote,
        None => ends_value(text[0]),
    }
}

proof fn lemma_quoted_len(value: Seq<char>, after: Seq<char>, quote: char)
    requires
        quote != '\\',
        is_quotable(value, quote),
        after.len() == 0 || after[0] == quote,
    ensures
        quoted_len(value + after, quote) == value.len(),
    decreases value.len(),
{
    let text = value + after;
    if value.len() == 0 {
        assert(text =~= after);
    } else if value[0] == '\\' {
        lemma_quoted_len(value.skip(2), after, quote);
        assert(text.skip(2) =~= value.skip(2) + after);
    } else {
        lemma_quoted_len(value.skip(1), after, quote);
        assert(text.skip(1) =~= value.skip(1) + after);
    }
}

proof fn lemma_quote_is_one(text: Seq<char>)
    requires
        first_secret(text) is Some,
    ensures
        first_secret(text)->Some_0.quote matches Some(quote) ==> is_quote(quote),
{
    let i = lemma_first_hit(text);
    let secret = first_secret(text)->Some_0;
    if i >= 2 {
        let behind = text.skip(secret.at + marker(i).len());
        let start = first_where(behind, |c: char| !is_separator(c));
        let name = first_where(behind, |c: char| !is_quote(c));
        lemma_left_open(behind.subrange(name, start));
    }
}

proof fn lemma_left_open(text: Seq<char>)
    ensures
        left_open(text, None) matches Some(quote) ==> is_quote(quote),
    decreases text.len(),
{
    if text.len() > 0 {
        lemma_left_open(text.drop_last());
    }
}

/// What is logged does not depend on the value of a secret: with any other
/// value in its place, and up to the end of the value, the message is logged
/// alike.
pub proof fn the_value_of_a_secret_is_not_logged(
    before: Seq<char>,
    value: Seq<char>,
    other: Seq<char>,
    after: Seq<char>,
)
    requires
        first_secret(before + (value + after)) matches Some(secret) && secret.start == before.len()
            && is_value(value, secret.quote) && is_value(other, secret.quote) && ends_before(
            after,
            secret.quote,
        ),
    ensures
        redacted(before + (value + after)) == before + "[redacted]"@ + redacted(after),
        redacted(before + (other + after)) == before + "[redacted]"@ + redacted(after),
{
    assert((other + after)[0] == other[0]);
    lemma_secret_stays(before, value + after, other + after);
    lemma_masked(before, value, after);
    lemma_masked(before, other, after);
}

proof fn lemma_masked(before: Seq<char>, value: Seq<char>, after: Seq<char>)
    requires
        first_secret(before + (value + after)) matches Some(secret) && secret.start == before.len()
            && is_value(value, secret.quote) && ends_before(after, secret.quote),
    ensures
        redacted(before + (value + after)) == before + "[redacted]"@ + redacted(after),
{
    let text = before + (value + after);
    let secret = first_secret(text)->Some_0;
    let n = before.len() as int;
    let rest = text.skip(n);
    assert(rest =~= value + after);
    lemma_quote_is_one(text);
    match secret.quote {
        Some(quote) => lemma_quoted_len(value, after, quote),
        None => lemma_first_where_is(rest, |c: char| ends_value(c), value.len() as int),
    }
    assert(text.take(n) =~= before);
    assert(text.skip(n + value.len()) =~= after);
}

/// Masking keeps the first character of a text.
proof fn lemma_redacted_begins(text: Seq<char>)
    ensures
        text.len() == 0 ==> redacted(text).len() == 0,
        text.len() > 0 ==> redacted(text).len() > 0 && redacted(text)[0] == text[0],
{
    lemma_first_secret(text);
}

/// Masking what is masked already changes nothing.
pub proof fn masking_twice_is_masking_once(text: Seq<char>)
    ensures
        redacted(redacted(text)) == redacted(text),
    decreases text.len(),
{
    if let Some(secret) = first_secret(text) {
        lemma_first_secret(text);
        let rest = text.skip(secret.start);
        let len = value_len(rest, secret.quote);
        lemma_value_len(rest, secret.quote);
        let before = text.take(secret.start);
        let behind = text.skip(secret.start + len);
        masking_twice_is_masking_once(behind);
        lemma_redacted_begins(behind);
        let mask = "[redacted]"@;
        reveal_strlit("[redacted]");
        let after = redacted(behind);
        if behind.len() > 0 {
            assert(behind[0] == rest[len]);
        }
        assert(before + rest =~= text);
        assert((mask + after)[0] == mask[0]);
        lemma_secret_stays(before, rest, mask + after);
        lemma_quote_is_one(text);
        assert(is_value(mask, secret.quote)) by {
            if let Some(quote) = secret.quote {
                lemma_plain_is_quotable(mask, quote);
            }
        }
        lemma_masked(before, mask, after);
        assert(redacted(text) =~= before + (mask + after));
    }
}

/// A text without backslashes and without a quote can stand between such.
proof fn lemma_plain_is_quotable(text: Seq<char>, quote: char)
    requires
        forall|i: int|
            0 <= i < text.len() ==> #[trigger] text[i] != '\\' && text[i] != quote,
    ensures
        is_quotable(text, quote),
    decreases text.len(),
{
    if text.len() > 0 {
        let rest = text.skip(1);
        assert forall|i: int| 0 <= i < rest.len() implies #[trigger] rest[i] != '\\' && rest[i]
            != quote by {
            assert(rest[i] == text[i + 1]);
        }
        lemma_plain_is_quotable(rest, quote);
    }
}

/// What a secret is told by: bearers, and values behind these names.
pub open spec fn telling() -> Seq<Seq<char>> {
    seq![
        seq!['b', 'e', 'a', 'r', 'e', 'r', '.', 'p', 'h', 'x', '.'],
        seq!['b', 'e', 'a', 'r', 'e', 'r', ' '],
        seq!['p', 'a', 's', 's', 'w', 'o', 'r', 'd'],
        seq!['t', 'o', 'k', 'e', 'n'],
        seq!['s', 'e', 'c', 'r', 'e', 't'],
    ]
}

/// Whether nothing that a secret is told by stands in a text before a place.
pub open spec fn tells_nothing_before(text: Seq<char>, place: int) -> bool {
    forall|i: int, j: int|
        0 <= i < 5 && 0 <= j < place ==> !(#[trigger] stands_at(lowered(text), telling()[i], j))
}

proof fn lemma_telling()
    ensures
        telling()[0] == marker(0),
        telling()[1] == marker(1),
        telling()[2] == marker(2),
        telling()[3] == marker(3),
        telling()[4] == marker(4),
{
    reveal_strlit("bearer.phx.");
    reveal_strlit("bearer ");
    reveal_strlit("password");
    reveal_strlit("token");
    reveal_strlit("secret");
    assert(telling()[0] =~= marker(0));
    assert(telling()[1] =~= marker(1));
    assert(telling()[2] =~= marker(2));
    assert(telling()[3] =~= marker(3));
    assert(telling()[4] =~= marker(4));
}

/// The first thing that tells a secret tells the first secret.
proof fn lemma_first_told(before: Seq<char>, name: Seq<char>, behind: Seq<char>, i: int)
    requires
        0 <= i < 5,
        lowered(name) == telling()[i],
        tells_nothing_before(before + name + behind, before.len() as int),
    ensures
        first_secret(before + name + behind) == hit(before + name + behind, i),
        hit(before + name + behind, i) is Some,
        hit(before + name + behind, i)->Some_0.at == before.len(),
{
    let text = before + name + behind;
    let small = lowered(text);
    let n = before.len() as int;
    lemma_telling();
    let part = marker(i);
    assert(telling()[i] == part);
    assert(small.skip(n).subrange(0, part.len() as int) =~= part) by {
        assert forall|k: int| 0 <= k < part.len() implies small[n + k] == #[trigger] part[k] by {
            letter_case_keeps_places(text, n + k);
            letter_case_keeps_places(name, k);
            assert(text[n + k] == name[k]);
        }
    }
    assert(stands_at(small, part, n));
    assert forall|j: int| 0 <= j < n implies !stands_at(small, part, j) by {
        assert(!stands_at(small, telling()[i], j));
    }
    lemma_find_is(small, part, n);
    assert forall|j: int| 0 <= j < 5 && j != i implies (#[trigger] hit(text, j) matches Some(other)
        ==> other.at > n) by {
        let other = marker(j);
        assert(telling()[j] == other);
        lemma_find(small, other);
        if let Some(at) = find(small, other) {
            if at < n {
                assert(!stands_at(small, telling()[j], at));
            }
            if at == n {
                lemma_reads_at(small, other, n);
                lemma_reads_at(small, part, n);
                lemma_one_starts(small, part, other, n, i, j);
            }
        }
    }
    lemma_first_hit_is(text, i);
}

/// No two markers read from one place on.
proof fn lemma_one_starts(
    text: Seq<char>,
    a: Seq<char>,
    b: Seq<char>,
    k: int,
    i: int,
    j: int,
)
    requires
        0 <= i < 5,
        0 <= j < 5,
        a == marker(i),
        b == marker(j),
        reads_at(text, a, k),
        reads_at(text, b, k),
    ensures
        i == j,
{
    if i != j {
        if a.len() <= b.len() {
            assert(reads_at(b, a, 0)) by {
                assert forall|t: int| 0 <= t < a.len() implies #[trigger] a[t] == b[0 + t] by {
                    assert(b[t] == text[k + t]);
                }
            }
            lemma_markers_stand_apart(i, j, 0);
        } else {
            assert(reads_at(a, b, 0)) by {
                assert forall|t: int| 0 <= t < b.len() implies #[trigger] b[t] == a[0 + t] by {
                    assert(a[t] == text[k + t]);
                }
            }
            lemma_markers_stand_apart(j, i, 0);
        }
    }
}

/// Whether a text has none of the signs that end a value without quotes:
/// white space, quotes, commas, closing braces and ampersands.
pub open spec fn is_unbroken(text: Seq<char>) -> bool {
    forall|i: int|
        0 <= i < text.len() ==> !is_space(#[trigger] text[i]) && !seq![
            '"',
            '\'',
            ',',
            '}',
            '&',
        ].contains(text[i])
}

/// Whether a text is empty or begins with a sign that ends a value.
pub open spec fn breaks_off(text: Seq<char>) -> bool {
    text.len() > 0 ==> is_space(text[0]) || seq!['"', '\'', ',', '}', '&'].contains(text[0])
}

proof fn lemma_breaks(c: char)
    ensures
        ends_value(c) == (is_space(c) || seq!['"', '\'', ',', '}', '&'].contains(c)),
{
    let signs = seq!['"', '\'', ',', '}', '&'];
    assert(signs[0] == '"' && signs[1] == '\'' && signs[2] == ',' && signs[3] == '}');
    assert(signs[4] == '&');
}

/// A bearer is masked, in any letter case of the word before it, up to the
/// next white space, quote, comma, brace or ampersand.
pub proof fn bearers_are_masked(
    before: Seq<char>,
    name: Seq<char>,
    value: Seq<char>,
    after: Seq<char>,
)
    requires
        lowered(name) == telling()[0] || lowered(name) == telling()[1],
        tells_nothing_before(before + name + (value + after), before.len() as int),
        is_unbroken(value),
        breaks_off(after),
    ensures
        redacted(before + name + (value + after)) == before + name + "[redacted]"@ + redacted(
            after,
        ),
{
    let i = if lowered(name) == telling()[0] {
        0int
    } else {
        1int
    };
    let text = before + name + (value + after);
    lemma_first_told(before, name, value + after, i);
    lemma_telling();
    let start = before.len() + name.len() as int;
    assert(name.len() == marker(i).len());
    assert(text.take(start) =~= before + name);
    let rest = text.skip(start);
    assert(rest =~= value + after);
    assert forall|k: int| 0 <= k < value.len() implies !ends_value(#[trigger] rest[k]) by {
        assert(rest[k] == value[k]);
        lemma_breaks(value[k]);
    }
    if after.len() > 0 {
        assert(rest[value.len() as int] == after[0]);
        lemma_breaks(after[0]);
    }
    lemma_first_where_is(rest, |c: char| ends_value(c), value.len() as int);
    assert(text.skip(start + value.len()) =~= after);
}

proof fn lemma_no_quote_opens(text: Seq<char>)
    requires
        forall|k: int| 0 <= k < text.len() ==> !is_quote(#[trigger] text[k]),
    ensures
        left_open(text, None) is None,
    decreases text.len(),
{
    if text.len() > 0 {
        let less = text.drop_last();
        assert forall|k: int| 0 <= k < less.len() implies !is_quote(#[trigger] less[k]) by {
            assert(less[k] == text[k]);
        }
        lemma_no_quote_opens(less);
        assert(!is_quote(text[text.len() - 1]));
    }
}

/// The value behind `password`, `token` or `secret`, in any letter case, is
/// masked: behind colons, equals signs and spaces, up to the next white space,
/// quote, comma, brace or ampersand.
pub proof fn plain_values_are_masked(
    before: Seq<char>,
    name: Seq<char>,
    between: Seq<char>,
    value: Seq<char>,
    after: Seq<char>,
)
    requires
        lowered(name) == telling()[2] || lowered(name) == telling()[3] || lowered(name)
            == telling()[4],
        tells_nothing_before(before + name + (between + value + after), before.len() as int),
        forall|k: int|
            0 <= k < between.len() ==> #[trigger] between[k] == ':' || between[k] == '='
                || between[k] == ' ',
        value.len() > 0,
        value[0] != ':' && value[0] != '=',
        is_unbroken(value),
        breaks_off(after),
    ensures
        redacted(before + name + (between + value + after)) == before + name + between
            + "[redacted]"@ + redacted(after),
{
    let i = if lowered(name) == telling()[2] {
        2int
    } else if lowered(name) == telling()[3] {
        3int
    } else {
        4int
    };
    let behind = between + value + after;
    let text = before + name + behind;
    lemma_first_told(before, name, behind, i);
    lemma_telling();
    assert(name.len() == marker(i).len());
    let end = before.len() + name.len() as int;
    let n = between.len() as int;
    assert(text.skip(end) =~= behind);
    let separators = |c: char| !is_separator(c);
    let quotes = |c: char| !is_quote(c);
    white_space_is_unicodes(' ');
    lemma_breaks(value[0]);
    assert(!is_space(value[0]) && !is_quote(value[0]));
    assert forall|k: int| 0 <= k < n implies !separators(#[trigger] behind[k]) by {
        assert(behind[k] == between[k]);
    }
    assert(behind[n] == value[0]);
    lemma_first_where_is(behind, separators, n);
    assert(n > 0 ==> behind[0] == between[0]);
    lemma_first_where_is(behind, quotes, 0);
    let gap = behind.subrange(0, n);
    assert forall|k: int| 0 <= k < gap.len() implies !is_quote(#[trigger] gap[k]) by {
        assert(gap[k] == between[k]);
    }
    lemma_no_quote_opens(gap);
    let start = end + n;
    assert(text.take(start) =~= before + name + between);
    let rest = text.skip(start);
    assert(rest =~= value + after);
    assert forall|k: int| 0 <= k < value.len() implies !ends_value(#[trigger] rest[k]) by {
        assert(rest[k] == value[k]);
        lemma_breaks(value[k]);
    }
    if after.len() > 0 {
        assert(rest[value.len() as int] == after[0]);
        lemma_breaks(after[0]);
    }
    lemma_first_where_is(rest, |c: char| ends_value(c), value.len() as int);
    assert(text.skip(start + value.len()) =~= after);
}

proof fn lemma_quoted_value_in(
    closing: Seq<char>,
    between: Seq<char>,
    quote: char,
    value: Seq<char>,
    after: Seq<char>,
)
    requires
        forall|k: int|
            0 <= k < closing.len() ==> #[trigger] closing[k] == '"' || closing[k] == '\'',
        between.len() > 0,
        forall|k: int|
            0 <= k < between.len() ==> #[trigger] between[k] == ':' || between[k] == '='
                || between[k] == ' ',
        quote == '"' || quote == '\'',
        value.len() > 0,
        !seq![':', '=', ' ', '"', '\''].contains(value[0]),
    ensures
        value_in(closing + between + seq![quote] + value + after) == (
            (closing.len() + between.len() + 1) as int,
            Some(quote),
        ),
{
    let behind = closing + between + seq![quote] + value + after;
    let q = closing.len() as int;
    let n = q + between.len() + 1;
    let separators = |c: char| !is_separator(c);
    let quotes = |c: char| !is_quote(c);
    let signs = seq![':', '=', ' ', '"', '\''];
    assert(signs[0] == ':' && signs[1] == '=' && signs[2] == ' ' && signs[3] == '"');
    assert(signs[4] == '\'');
    assert(!is_separator(value[0]));
    assert forall|k: int| 0 <= k < n implies !separators(#[trigger] behind[k]) by {
        if k < q {
            assert(behind[k] == closing[k]);
        } else if k < n - 1 {
            assert(behind[k] == between[k - q]);
        } else {
            assert(behind[k] == quote);
        }
    }
    assert(behind[n] == value[0]);
    lemma_first_where_is(behind, separators, n);
    assert forall|k: int| 0 <= k < q implies !quotes(#[trigger] behind[k]) by {
        assert(behind[k] == closing[k]);
    }
    assert(behind[q] == between[0]);
    lemma_first_where_is(behind, quotes, q);
    let gap = behind.subrange(q, n);
    assert(gap.last() == quote);
    let inner = gap.drop_last();
    assert forall|k: int| 0 <= k < inner.len() implies !is_quote(#[trigger] inner[k]) by {
        assert(inner[k] == between[k]);
    }
    lemma_no_quote_opens(inner);
    assert(left_open(gap, None) == Some(quote));
}

/// A value between quotes is masked up to the quote that closes it, whatever
/// stands in it; quotes around the name do not matter.
#[verifier::rlimit(40)]
#[verifier::spinoff_prover]
pub proof fn quoted_values_are_masked(
    before: Seq<char>,
    name: Seq<char>,
    closing: Seq<char>,
    between: Seq<char>,
    quote: char,
    value: Seq<char>,
    after: Seq<char>,
)
    requires
        lowered(name) == telling()[2] || lowered(name) == telling()[3] || lowered(name)
            == telling()[4],
        tells_nothing_before(
            before + name + (closing + between + seq![quote] + value + after),
            before.len() as int,
        ),
        forall|k: int|
            0 <= k < closing.len() ==> #[trigger] closing[k] == '"' || closing[k] == '\'',
        between.len() > 0,
        forall|k: int|
            0 <= k < between.len() ==> #[trigger] between[k] == ':' || between[k] == '='
                || between[k] == ' ',
        quote == '"' || quote == '\'',
        value.len() > 0,
        !seq![':', '=', ' ', '"', '\''].contains(value[0]),
        forall|k: int|
            0 <= k < value.len() ==> #[trigger] value[k] != quote && value[k] != '\\',
        after.len() > 0 ==> after[0] == quote,
    ensures
        redacted(before + name + (closing + between + seq![quote] + value + after)) == before + name
            + closing + between + seq![quote] + "[redacted]"@ + redacted(after),
{
    let i = if lowered(name) == telling()[2] {
        2int
    } else if lowered(name) == telling()[3] {
        3int
    } else {
        4int
    };
    let behind = closing + between + seq![quote] + value + after;
    let text = before + name + behind;
    lemma_first_told(before, name, behind, i);
    lemma_telling();
    assert(name.len() == marker(i).len());
    let end = before.len() + name.len() as int;
    let q = closing.len() as int;
    let n = q + between.len() + 1;
    assert(text.skip(end) =~= behind);
    lemma_quoted_value_in(closing, between, quote, value, after);
    let start = end + n;
    assert(text.take(start) =~= before + name + closing + between + seq![quote]);
    let rest = text.skip(start);
    assert(rest =~= value + after);
    lemma_plain_is_quotable(value, quote);
    lemma_quoted_len(value, after, quote);
    assert(text.skip(start + value.len()) =~= after);
}

} // verus!
