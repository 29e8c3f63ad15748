//! What is asked of a Grappa server over REST: for each endpoint the request
//! that goes out, and what its reply says.
//!
//! Nothing is sent here. Each method of [`GrappaClient`] gives the request as
//! a value, and the functions beside it read the reply.

use vstd::prelude::*;

use crate::address::{address, build_address, named_views, views};
use crate::decimal::{
    decimal, decimal_reads_back, decimal_text, numbers_are_read_from_their_digits, parse_unsigned,
    read_unsigned, signed_decimal, signed_decimal_text,
};
use crate::json::{
    as_flag, as_signed, as_text, lemma_array_tree, lemma_object_tree, member, member_of,
    named_trees, text_array, text_or_null, trees, whole_or_null, Json, Members, Num, Tree,
};
use crate::profile::{
    alias_members, identity_body, perform_body, AddIgnoreRequest, AliasesView,
    NetworkIdentityRequest, NotifyAddRequest, PerformUpdateRequest, VhostSelectionRequest,
};
use crate::rest::{
    login_body, message_body, prefs_members, DisplayPrefs, LoginRequest, SendMessageRequest,
};
use crate::split::{begins_with_text, same_text, texts};
use crate::text::{
    chars_of, end_index_where, end_where, head, is_space, lemma_end_where_is, opt, string_of, trim,
    trimmed, trimming_takes_white_space_off, white_space_is_unicodes,
};

verus! {

/// Longest time to establish a connection to the server, in seconds.
pub const CONNECT_TIMEOUT: u64 = 10;

/// Longest time for a whole request, in seconds, so a server that stops
/// answering can't stall the app's single worker indefinitely.
pub const REQUEST_TIMEOUT: u64 = 30;

/// Longest time for a file upload (up to the server's 50 MiB video cap), in
/// seconds.
pub const UPLOAD_TIMEOUT: u64 = 600;

#[derive(Debug, Clone, Copy, PartialEq, Eq, Structural)]
pub enum Method {
    Get,
    Post,
    Put,
    Patch,
    Delete,
}

/// A file that goes out as the multipart field `file`.
#[derive(Debug)]
pub struct FilePart {
    pub filename: String,
    pub mime: String,
    pub bytes: Vec<u8>,
    /// The multipart field `expire`, where it is sent: seconds.
    pub expire: Option<i64>,
}

#[derive(Debug)]
pub enum Body {
    Empty,
    Json(Json),
    File(FilePart),
}

/// One request to a server.
#[derive(Debug)]
pub struct Request {
    pub method: Method,
    pub url: String,
    /// The bearer token that goes with it.
    pub bearer: Option<String>,
    pub body: Body,
    /// The longest time for the whole request, in seconds.
    pub timeout: u64,
}

/// What a [`Body`] says.
pub enum BodyView {
    Empty,
    Json(Tree),
    File { filename: Seq<char>, mime: Seq<char>, bytes: Seq<u8>, expire: Option<i64> },
}

/// What a [`Request`] says.
pub struct RequestView {
    pub method: Method,
    pub url: Seq<char>,
    pub bearer: Option<Seq<char>>,
    pub body: BodyView,
    pub timeout: u64,
}

impl View for Body {
    type V = BodyView;

    open spec fn view(&self) -> BodyView {
        match self {
            Body::Empty => BodyView::Empty,
            Body::Json(json) => BodyView::Json(json@),
            Body::File(file) => BodyView::File {
                filename: file.filename@,
                mime: file.mime@,
                bytes: file.bytes@,
                expire: file.expire,
            },
        }
    }
}

impl View for Request {
    type V = RequestView;

    open spec fn view(&self) -> RequestView {
        RequestView {
            method: self.method,
            url: self.url@,
            bearer: opt(self.bearer),
            body: self.body@,
            timeout: self.timeout,
        }
    }
}

/// Why a request came to nothing.
#[derive(Debug)]
pub enum GrappaClientError {
    /// The transport failed, or the server refused: then with its status.
    Http { status: Option<u16>, text: String },
    InvalidUrl(String),
}

impl GrappaClientError {
    /// HTTP status when the server returned a non-success response.
    ///
    /// Callers use this only when the protocol assigns meaning to a
    /// specific status (for example, 401 means a presented bearer was
    /// rejected). Transport and URL errors have no status.
    pub fn status(&self) -> (status: Option<u16>)
        ensures
            status == match *self {
                GrappaClientError::Http { status, .. } => status,
                GrappaClientError::InvalidUrl(_) => None,
            },
    {
        match self {
            GrappaClientError::Http { status, .. } => *status,
            GrappaClientError::InvalidUrl(_) => None,
        }
    }
}

/// Outcome of `POST /auth/login` when it is no success.
#[derive(Debug)]
pub enum LoginError {
    /// `202 two_factor_required`: needs a browser, TOTP and passkeys can't be
    /// resolved here.
    TwoFactorRequired,
    /// `401 invalid_credentials`: also returned for a wrong per-client
    /// token, indistinguishable from a wrong password on the wire.
    InvalidCredentials,
    /// `429 too_many_attempts`: throttled, don't retry immediately.
    TooManyAttempts,
    /// The transport failed, or the reply was no login response.
    Http(String),
    /// Any other refusal. `code` is Grappa's `error` field when the body
    /// has one (`anon_collision`, `nick_in_use`, `malformed_nick`...), and
    /// `retry_after` its `Retry-After` header in seconds.
    Refused { status: u16, code: Option<String>, retry_after: Option<u64> },
}

/// What the reply to a login means.
pub enum LoginVerdict {
    /// The body holds the login response.
    Accepted,
    TwoFactorRequired,
    InvalidCredentials,
    TooManyAttempts,
    Refused { status: u16, code: Option<Seq<char>>, retry_after: Option<nat> },
}

/// What a `Retry-After` header says, where it is a number of seconds.
pub open spec fn retry_seconds(header: Option<Seq<char>>) -> Option<nat> {
    match header {
        Some(value) => parse_unsigned(trim(value), u64::MAX as nat),
        None => None,
    }
}

/// What a reply with that status, header and body means. A body that isn't
/// Grappa's JSON (a proxy's error page, say) just leaves the code empty.
pub open spec fn login_verdict(
    status: u16,
    retry_after: Option<Seq<char>>,
    body: Option<Tree>,
) -> LoginVerdict {
    if status == 200 {
        LoginVerdict::Accepted
    } else if status == 202 {
        LoginVerdict::TwoFactorRequired
    } else if status == 401 {
        LoginVerdict::InvalidCredentials
    } else if status == 429 {
        LoginVerdict::TooManyAttempts
    } else {
        LoginVerdict::Refused {
            status,
            code: as_text(member_of(body, "error"@)),
            retry_after: retry_seconds(retry_after),
        }
    }
}

/// The verdict that an outcome stands for; a failed transport is none.
pub open spec fn verdict_of(outcome: Result<(), LoginError>) -> Option<LoginVerdict> {
    match outcome {
        Ok(()) => Some(LoginVerdict::Accepted),
        Err(LoginError::TwoFactorRequired) => Some(LoginVerdict::TwoFactorRequired),
        Err(LoginError::InvalidCredentials) => Some(LoginVerdict::InvalidCredentials),
        Err(LoginError::TooManyAttempts) => Some(LoginVerdict::TooManyAttempts),
        Err(LoginError::Http(_)) => None,
        Err(LoginError::Refused { status, code, retry_after }) => Some(
            LoginVerdict::Refused {
                status,
                code: opt(code),
                retry_after: match retry_after {
                    Some(seconds) => Some(seconds as nat),
                    None => None,
                },
            },
        ),
    }
}

fn read_retry_after(header: Option<&str>) -> (seconds: Option<u64>)
    ensures
        match seconds {
            Some(seconds) => header matches Some(value) && parse_unsigned(
                trim(value@),
                u64::MAX as nat,
            ) == Some(seconds as nat),
            None => header matches Some(value) ==> parse_unsigned(
                trim(value@),
                u64::MAX as nat,
            ) is None,
        },
{
    match header {
        Some(value) => {
            let chars = chars_of(value);
            read_unsigned(trimmed(&chars), u64::MAX)
        },
        None => None,
    }
}

/// What the reply to a login means: on success the body is to be read as the
/// login response.
pub fn login_outcome(status: u16, retry_after: Option<&str>, body: Option<&Json>) -> (outcome:
    Result<(), LoginError>)
    ensures
        verdict_of(outcome) == Some(
            login_verdict(
                status,
                match retry_after {
                    Some(value) => Some(value@),
                    None => None,
                },
                match body {
                    Some(body) => Some(body@),
                    None => None,
                },
            ),
        ),
{
    if status == 200 {
        Ok(())
    } else if status == 202 {
        Err(LoginError::TwoFactorRequired)
    } else if status == 401 {
        Err(LoginError::InvalidCredentials)
    } else if status == 429 {
        Err(LoginError::TooManyAttempts)
    } else {
        let code = match body {
            Some(body) => match body.text_of("error") {
                Some(code) => Some(code.to_string()),
                None => None,
            },
            None => None,
        };
        Err(LoginError::Refused { status, code, retry_after: read_retry_after(retry_after) })
    }
}

/// A request that carries the bearer token.
pub open spec fn sent(
    method: Method,
    url: Seq<char>,
    token: Seq<char>,
    body: BodyView,
) -> RequestView {
    RequestView { method, url, bearer: Some(token), body, timeout: REQUEST_TIMEOUT }
}

/// What a planned request says, or the text of the refused address.
pub open spec fn planned(request: Result<Request, GrappaClientError>) -> Result<
    RequestView,
    Option<Seq<char>>,
> {
    match request {
        Ok(request) => Ok(request@),
        Err(GrappaClientError::InvalidUrl(text)) => Err(Some(text@)),
        Err(GrappaClientError::Http { .. }) => Err(None),
    }
}

/// The request to a base address with path segments and a query after it.
/// Where no such address can be made, the refusal says why.
pub open spec fn plan(
    method: Method,
    base: Seq<char>,
    segments: Seq<Seq<char>>,
    pairs: Seq<(Seq<char>, Seq<char>)>,
    token: Seq<char>,
    body: BodyView,
) -> Result<RequestView, Option<Seq<char>>> {
    match address(base, segments, pairs) {
        Ok(url) => Ok(sent(method, url, token, body)),
        Err(text) => Err(Some(text)),
    }
}

/// No query.
pub open spec fn no_pairs() -> Seq<(Seq<char>, Seq<char>)> {
    Seq::empty()
}

/// Whether a planned request goes to an address without a fragment, given a
/// base without one: whatever a channel is called, no part of its name is cut
/// off.
pub open spec fn whole_address(
    base: Seq<char>,
    request: Result<Request, GrappaClientError>,
) -> bool {
    request matches Ok(request) ==> !base.contains('#') ==> !request.url@.contains('#')
}

fn with_token(method: Method, url: String, token: &str, body: Body) -> (request: Request)
    ensures
        request@ == sent(method, url@, token@, body@),
{
    Request { method, url, bearer: Some(token.to_string()), body, timeout: REQUEST_TIMEOUT }
}

fn at_segments(
    method: Method,
    base: &str,
    segments: &Vec<&str>,
    pairs: &Vec<(&str, String)>,
    token: &str,
    body: Body,
) -> (request: Result<Request, GrappaClientError>)
    ensures
        planned(request) == plan(
            method,
            base@,
            views(segments@),
            named_views(pairs@),
            token@,
            body@,
        ),
        whole_address(base@, request),
{
    match build_address(base, segments, pairs) {
        Ok(url) => Ok(with_token(method, url, token, body)),
        Err(text) => Err(GrappaClientError::InvalidUrl(text)),
    }
}

/// A member with a text, where there is one that is not empty.
pub open spec fn nonempty_member(name: Seq<char>, text: Option<Seq<char>>) -> Seq<
    (Seq<char>, Tree),
> {
    match text {
        Some(text) => if text.len() == 0 {
            Seq::empty()
        } else {
            seq![(name, Tree::Text(text))]
        },
        None => Seq::empty(),
    }
}

/// A pair of a query, where there is a text for it.
pub open spec fn some_pair(name: Seq<char>, text: Option<Seq<char>>) -> Seq<
    (Seq<char>, Seq<char>),
> {
    match text {
        Some(text) => seq![(name, text)],
        None => Seq::empty(),
    }
}

/// A text, unless it is empty.
pub open spec fn unless_empty(text: Seq<char>) -> Option<Seq<char>> {
    if text.len() == 0 {
        None
    } else {
        Some(text)
    }
}

/// What a text that may be missing says.
pub open spec fn opt_view(text: Option<&str>) -> Option<Seq<char>> {
    match text {
        Some(text) => Some(text@),
        None => None,
    }
}

/// A whole number as a document.
pub open spec fn whole(n: int) -> Tree {
    Tree::Number(Num::Whole(n))
}

/// A number in decimal digits, if there is one.
pub open spec fn opt_digits(n: Option<int>) -> Option<Seq<char>> {
    match n {
        Some(n) => Some(signed_decimal(n)),
        None => None,
    }
}

/// The members with another in place of those of its name.
pub open spec fn with_member(members: Seq<(Seq<char>, Tree)>, change: (Seq<char>, Tree)) -> Seq<
    (Seq<char>, Tree),
> {
    members.filter(|m: (Seq<char>, Tree)| m.0 != change.0).push(change)
}

/// The members with the changes in place of those of their names.
pub open spec fn merged(
    members: Seq<(Seq<char>, Tree)>,
    changes: Seq<(Seq<char>, Tree)>,
) -> Seq<(Seq<char>, Tree)>
    decreases changes.len(),
{
    if changes.len() == 0 {
        members
    } else {
        with_member(merged(members, changes.drop_last()), changes.last())
    }
}

/// The members of an object; anything else has none.
pub open spec fn members_of(tree: Option<Tree>) -> Seq<(Seq<char>, Tree)> {
    match tree {
        Some(Tree::Object(members)) => members,
        _ => Seq::empty(),
    }
}

/// The items of an array; anything else has none.
pub open spec fn items_of(tree: Option<Tree>) -> Seq<Tree> {
    match tree {
        Some(Tree::Array(items)) => items,
        _ => Seq::empty(),
    }
}

fn push_member(members: Members, name: &str, value: &Json) -> (all: Members)
    ensures
        all@ == with_member(members@, (name@, value@)),
{
    let ghost other = |m: (Seq<char>, Tree)| m.0 != name@;
    let mut all = Members::new();
    let mut i: usize = 0;
    assert(members@.take(0).filter(other) =~= Seq::empty()) by {
        reveal(Seq::filter);
    }
    while i < members.list.len()
        invariant
            i <= members.list@.len(),
            other == (|m: (Seq<char>, Tree)| m.0 != name@),
            all@ == members@.take(i as int).filter(other),
        decreases members.list@.len() - i,
    {
        let ghost here = members@.take(i + 1);
        assert(here.drop_last() =~= members@.take(i as int));
        assert(here.last() == (members.list@[i as int].0@, members.list@[i as int].1@));
        proof {
            reveal(Seq::filter);
        }
        if !same_text(members.list[i].0.as_str(), name) {
            all.push(members.list[i].0.as_str(), members.list[i].1.clone());
        }
        i += 1;
    }
    assert(members@.take(i as int) =~= members@);
    assert(other =~= |m: (Seq<char>, Tree)| m.0 != name@);
    all.push(name, value.clone());
    all
}

fn merge_members(members: Members, changes: &Members) -> (all: Members)
    ensures
        all@ == merged(members@, changes@),
{
    let ghost before = members@;
    let mut all = members;
    let mut i: usize = 0;
    assert(changes@.take(0) =~= Seq::empty());
    while i < changes.list.len()
        invariant
            i <= changes.list@.len(),
            all@ == merged(before, changes@.take(i as int)),
        decreases changes.list@.len() - i,
    {
        let ghost here = changes@.take(i + 1);
        assert(here.drop_last() =~= changes@.take(i as int));
        assert(here.last() == (changes.list@[i as int].0@, changes.list@[i as int].1@));
        all = push_member(all, changes.list[i].0.as_str(), &changes.list[i].1);
        i += 1;
    }
    assert(changes@.take(i as int) =~= changes@);
    all
}

/// Copies of the items of an array under a name; none where there is no
/// array.
pub fn list_under(reply: &Json, name: &str) -> (list: Vec<Json>)
    ensures
        trees(list@) == items_of(member(reply@, name@)),
{
    let mut list: Vec<Json> = Vec::new();
    if let Some(Json::Array(items)) = reply.get(name) {
        proof {
            lemma_array_tree(*items);
        }
        let mut i: usize = 0;
        while i < items.len()
            invariant
                i <= items@.len(),
                list@.len() == i,
                forall|j: int| 0 <= j < i ==> (#[trigger] list@[j])@ == items@[j]@,
            decreases items@.len() - i,
        {
            list.push(items[i].clone());
            i += 1;
        }
        assert(trees(list@) =~= trees(items@));
    } else {
        assert(trees(list@) =~= Seq::empty());
    }
    list
}

/// Copies of the members of an object under a name; none where there is no
/// object.
pub fn members_under(reply: &Json, name: &str) -> (members: Members)
    ensures
        members@ == members_of(member(reply@, name@)),
{
    let mut members = Members::new();
    if let Some(Json::Object(list)) = reply.get(name) {
        proof {
            lemma_object_tree(*list);
        }
        let mut i: usize = 0;
        while i < list.len()
            invariant
                i <= list@.len(),
                members@ == named_trees(list@).take(i as int),
            decreases list@.len() - i,
        {
            members.push(list[i].0.as_str(), list[i].1.clone());
            assert(named_trees(list@).take(i + 1) =~= named_trees(list@).take(i as int).push(
                named_trees(list@)[i as int],
            ));
            i += 1;
        }
        assert(named_trees(list@).take(i as int) =~= named_trees(list@));
    }
    members
}

/// A copy of the member of that name, or null.
pub fn setting_of(reply: &Json, name: &str) -> (value: Json)
    ensures
        value@ == match member(reply@, name@) {
            Some(value) => value,
            None => Tree::Null,
        },
{
    match reply.get(name) {
        Some(value) => value.clone(),
        None => Json::Null,
    }
}

/// The text of a setting; `None` when the server's own holds.
pub fn text_setting(reply: &Json, name: &str) -> (text: Option<String>)
    ensures
        opt(text) == as_text(member(reply@, name@)),
{
    match reply.text_of(name) {
        Some(text) => Some(text.to_string()),
        None => None,
    }
}

/// The whole number of a setting; `None` when the server's own holds.
pub fn number_setting(reply: &Json, name: &str) -> (n: Option<i64>)
    ensures
        match n {
            Some(n) => as_signed(member(reply@, name@)) == Some(n as int),
            None => as_signed(member(reply@, name@)) is None,
        },
{
    reply.i64_of(name)
}

/// The flag of a setting, off where it is missing.
pub fn flag_setting(reply: &Json, name: &str) -> (on: bool)
    ensures
        on == (as_flag(member(reply@, name@)) == Some(true)),
{
    reply.bool_of(name) == Some(true)
}

/// The display preferences in a reply: Grappa wraps them as
/// `{"display_prefs": {...}, "persisted": bool}`.
pub fn display_prefs_of(reply: &Json) -> (prefs: &Json)
    ensures
        prefs@ == match member(reply@, "display_prefs"@) {
            Some(prefs) => prefs,
            None => reply@,
        },
{
    match reply.get("display_prefs") {
        Some(prefs) => prefs,
        None => reply,
    }
}

/// The cursor that a server stored, or the one that it was sent.
pub fn stored_cursor(reply: &Json, message_id: i64) -> (cursor: i64)
    ensures
        cursor == match as_signed(member(reply@, "last_read_message_id"@)) {
            Some(n) => n,
            None => message_id as int,
        },
{
    match reply.i64_of("last_read_message_id") {
        Some(n) => n,
        None => message_id,
    }
}

/// The id of an uploaded background image.
pub fn image_id_of(reply: &Json) -> (id: Result<String, GrappaClientError>)
    ensures
        match as_text(member(reply@, "image_id"@)) {
            Some(text) => id matches Ok(id) && id@ == text,
            None => id matches Err(GrappaClientError::InvalidUrl(text)) && text@
                == "no image_id in the reply"@,
        },
{
    match reply.text_of("image_id") {
        Some(id) => Ok(id.to_string()),
        None => Err(GrappaClientError::InvalidUrl("no image_id in the reply".to_string())),
    }
}

/// A wallpaper row as key and name; the key stands in for a missing name.
pub open spec fn background_of(row: Tree) -> Option<(Seq<char>, Seq<char>)> {
    match as_text(member(row, "key"@)) {
        Some(key) => Some(
            (
                key,
                match as_text(member(row, "name"@)) {
                    Some(name) => name,
                    None => key,
                },
            ),
        ),
        None => None,
    }
}

/// The wallpapers of the rows, in order; rows without a key are left out.
pub open spec fn backgrounds_of(rows: Seq<Tree>) -> Seq<(Seq<char>, Seq<char>)>
    decreases rows.len(),
{
    if rows.len() == 0 {
        Seq::empty()
    } else {
        let before = backgrounds_of(rows.drop_last());
        match background_of(rows.last()) {
            Some(background) => before.push(background),
            None => before,
        }
    }
}

/// What a list of pairs of texts says.
pub open spec fn text_pairs(pairs: Seq<(String, String)>) -> Seq<(Seq<char>, Seq<char>)> {
    Seq::new(pairs.len(), |i: int| (pairs[i].0@, pairs[i].1@))
}

/// Grappa's built-in wallpapers as `(key, name)`.
pub fn theme_backgrounds(reply: &Json) -> (list: Vec<(String, String)>)
    ensures
        text_pairs(list@) == backgrounds_of(items_of(member(reply@, "backgrounds"@))),
{
    let rows = list_under(reply, "backgrounds");
    let ghost all = trees(rows@);
    let mut list: Vec<(String, String)> = Vec::new();
    let mut i: usize = 0;
    assert(all.take(0) =~= Seq::empty());
    assert(text_pairs(list@) =~= Seq::empty());
    while i < rows.len()
        invariant
            i <= rows@.len(),
            all == trees(rows@),
            text_pairs(list@) == backgrounds_of(all.take(i as int)),
        decreases rows@.len() - i,
    {
        let row = &rows[i];
        let ghost before = list@;
        assert(all.take(i + 1).drop_last() =~= all.take(i as int));
        assert(all.take(i + 1).last() == row@);
        if let Some(key) = row.text_of("key") {
            let name = match row.text_of("name") {
                Some(name) => name,
                None => key,
            };
            list.push((key.to_string(), name.to_string()));
            assert(text_pairs(list@) =~= text_pairs(before).push((key@, name@)));
        }
        i += 1;
    }
    assert(all.take(i as int) =~= all);
    list
}

/// A base address without the slashes at its end.
pub open spec fn bare_base(base: Seq<char>) -> Seq<char> {
    base.take(end_where(base, |c: char| c != '/'))
}

/// Where a file of the server is fetched from: a path goes behind the base, a
/// URL under the base stays as it is, and anything else is refused.
pub open spec fn file_url(base: Seq<char>, path: Seq<char>) -> Option<Seq<char>> {
    let base = bare_base(base);
    if path.len() > 0 && path[0] == '/' {
        Some(base + path)
    } else if (base + seq!['/']).is_prefix_of(path) {
        Some(path)
    } else {
        None
    }
}

/// A file is only ever asked for from the server itself: its address begins
/// with the base address and a slash, so the bearer token goes nowhere else.
pub proof fn files_come_from_the_server(base: Seq<char>, path: Seq<char>)
    requires
        file_url(base, path) is Some,
    ensures
        (bare_base(base) + seq!['/']).is_prefix_of(file_url(base, path)->Some_0),
{
    let whole = file_url(base, path)->Some_0;
    if path.len() > 0 && path[0] == '/' {
        assert(whole.take(bare_base(base).len() as int + 1) =~= bare_base(base) + seq!['/']);
    }
}

/// A change of one preference leaves the others as they are.
pub proof fn other_members_are_kept(
    members: Seq<(Seq<char>, Tree)>,
    changes: Seq<(Seq<char>, Tree)>,
    member: (Seq<char>, Tree),
)
    requires
        members.contains(member),
        forall|i: int| 0 <= i < changes.len() ==> (#[trigger] changes[i]).0 != member.0,
    ensures
        merged(members, changes).contains(member),
    decreases changes.len(),
{
    if changes.len() > 0 {
        let before = merged(members, changes.drop_last());
        let change = changes.last();
        assert forall|i: int| 0 <= i < changes.drop_last().len() implies (
        #[trigger] changes.drop_last()[i]).0 != member.0 by {
            assert(changes.drop_last()[i] == changes[i]);
        }
        other_members_are_kept(members, changes.drop_last(), member);
        let other = |m: (Seq<char>, Tree)| m.0 != change.0;
        let at = before.index_of(member);
        assert(before.filter(other).contains(before[at]));
        let kept = before.filter(other);
        let place = choose|j: int| 0 <= j < kept.len() && kept[j] == member;
        assert(with_member(before, change)[place] == member);
    }
}

/// Every change is among the members afterwards, and nothing else of its name
/// is.
pub proof fn changes_take_effect(
    members: Seq<(Seq<char>, Tree)>,
    changes: Seq<(Seq<char>, Tree)>,
    at: int,
)
    requires
        0 <= at < changes.len(),
        forall|i: int, j: int|
            0 <= i < j < changes.len() ==> (#[trigger] changes[i]).0 != (#[trigger] changes[j]).0,
    ensures
        merged(members, changes).contains(changes[at]),
        forall|m: (Seq<char>, Tree)| #[trigger]
            merged(members, changes).contains(m) && m.0 == changes[at].0 ==> m == changes[at],
    decreases changes.len(),
{
    let before = merged(members, changes.drop_last());
    let change = changes.last();
    let other = |m: (Seq<char>, Tree)| m.0 != change.0;
    let kept = before.filter(other);
    let all = with_member(before, change);
    assert(all =~= kept.push(change));
    if at == changes.len() - 1 {
        assert(all[kept.len() as int] == change);
        assert forall|m: (Seq<char>, Tree)| #[trigger] all.contains(m) && m.0 == change.0 implies m
            == change by {
            let j = choose|j: int| 0 <= j < all.len() && all[j] == m;
            if j < kept.len() {
                assert(other(kept[j]));
            }
        }
    } else {
        let rest = changes.drop_last();
        assert forall|i: int, j: int| 0 <= i < j < rest.len() implies (#[trigger] rest[i]).0 != (
        #[trigger] rest[j]).0 by {
            assert(rest[i] == changes[i] && rest[j] == changes[j]);
        }
        changes_take_effect(members, rest, at);
        assert(rest[at] == changes[at]);
        assert(changes[at].0 != changes[changes.len() - 1].0);
        let place = before.index_of(changes[at]);
        assert(before[place] == changes[at] && other(before[place]));
        assert(kept.contains(before[place]));
        let spot = choose|j: int| 0 <= j < kept.len() && kept[j] == changes[at];
        assert(all[spot] == changes[at]);
        assert forall|m: (Seq<char>, Tree)| #[trigger] all.contains(m) && m.0
            == changes[at].0 implies m == changes[at] by {
            let j = choose|j: int| 0 <= j < all.len() && all[j] == m;
            assert(j < kept.len());
            assert(kept[j] == m);
            before.lemma_filter_contains_rev(other, m);
        }
    }
}

/// A Grappa server reached over REST, identified by its base URL.
#[derive(Debug, Clone)]
pub struct GrappaClient {
    pub base_url: String,
}

impl GrappaClient {
    pub fn new(base_url: &str) -> (client: Self)
        ensures
            client.base_url@ == base_url@,
    {
        GrappaClient { base_url: base_url.to_string() }
    }

    /// The normalized server URL this client was built with, the same key
    /// the remembered-profile store uses.
    pub fn base_url(&self) -> (url: &str)
        ensures
            url@ == self.base_url@,
    {
        self.base_url.as_str()
    }

    /// `GET /api/config`: the first, unauthenticated call to a server.
    pub fn fetch_config(&self) -> (request: Request)
        ensures
            request@ == (RequestView {
                method: Method::Get,
                url: self.base_url@ + "/api/config"@,
                bearer: None,
                body: BodyView::Empty,
                timeout: REQUEST_TIMEOUT,
            }),
    {
        let mut url = self.base_url.clone();
        url.append("/api/config");
        Request {
            method: Method::Get,
            url,
            bearer: None,
            body: Body::Empty,
            timeout: REQUEST_TIMEOUT,
        }
    }

    /// `POST /auth/login`: `request.password` may hold either a real
    /// password or a per-client token (see [`crate::domain::AuthMethod`]).
    pub fn login(&self, request: &LoginRequest) -> (login: Request)
        ensures
            login@ == (RequestView {
                method: Method::Post,
                url: self.base_url@ + "/auth/login"@,
                bearer: None,
                body: BodyView::Json(login_body(request.identifier@, request.password@)),
                timeout: REQUEST_TIMEOUT,
            }),
    {
        self.login_with_bearer(request, None)
    }

    /// A returning anonymous visitor must prove ownership of the nickname
    /// with its previous bearer. Grappa rotates that bearer on success.
    pub fn login_with_bearer(
        &self,
        request: &LoginRequest,
        previous_bearer: Option<&str>,
    ) -> (login:
        Request)
        ensures
            login@ == (RequestView {
                method: Method::Post,
                url: self.base_url@ + "/auth/login"@,
                bearer: opt_view(previous_bearer),
                body: BodyView::Json(login_body(request.identifier@, request.password@)),
                timeout: REQUEST_TIMEOUT,
            }),
    {
        let mut url = self.base_url.clone();
        url.append("/auth/login");
        let bearer = match previous_bearer {
            Some(bearer) => Some(bearer.to_string()),
            None => None,
        };
        Request {
            method: Method::Post,
            url,
            bearer,
            body: Body::Json(request.to_json()),
            timeout: REQUEST_TIMEOUT,
        }
    }

    /// `PUT /me/settings/display-prefs`. The PUT replaces the whole stored
    /// map (wrapped under `display_prefs`), so the keys that are not edited
    /// here (time format, presence filter, ...) are read back first: `current`
    /// is that reply, and they are sent unchanged.
    pub fn update_display_prefs(&self, token: &str, current: &Json, prefs: &DisplayPrefs) -> (
        request: Request)
        ensures
            request@ == sent(
                Method::Put,
                self.base_url@ + "/me/settings/display-prefs"@,
                token@,
                BodyView::Json(
                    Tree::Object(
                        seq![
                            (
                                "display_prefs"@,
                                Tree::Object(
                                    merged(
                                        members_of(member(current@, "display_prefs"@)),
                                        prefs_members(*prefs),
                                    ),
                                ),
                            ),
                        ],
                    ),
                ),
            ),
    {
        let mut url = self.base_url.clone();
        url.append("/me/settings/display-prefs");
        let all = merge_members(members_under(current, "display_prefs"), &prefs.members());
        let mut body = Members::new();
        let ghost inner = Tree::Object(all@);
        body.push("display_prefs", all.object());
        assert(body@ =~= seq![("display_prefs"@, inner)]);
        with_token(Method::Put, url, token, Body::Json(body.object()))
    }

    /// Asks for a file Grappa serves behind authentication (a cached WHOIS
    /// avatar): `path_or_url` is a server path (`/...`) or a URL on the same
    /// server. The bearer token is never sent anywhere else, so any other
    /// URL is refused.
    pub fn fetch_server_file(&self, token: &str, path_or_url: &str) -> (request: Result<
        Request,
        GrappaClientError,
    >)
        ensures
            planned(request) == match file_url(self.base_url@, path_or_url@) {
                Some(url) => Ok(sent(Method::Get, url, token@, BodyView::Empty)),
                None => Err(Some(path_or_url@)),
            },
    {
        let base_chars = chars_of(self.base_url.as_str());
        let end: usize = end_index_where(&base_chars, is_no_slash, Ghost(|c: char| c != '/'));
        let path = chars_of(path_or_url);
        let base = string_of(head(&base_chars, end));
        if path.len() > 0 && path[0] == '/' {
            let mut url = base;
            url.append(path_or_url);
            return Ok(with_token(Method::Get, url, token, Body::Empty));
        }
        let mut start = base;
        start.push('/');
        assert(start@ =~= bare_base(self.base_url@) + seq!['/']);
        if begins_with_text(&path, start.as_str()) {
            return Ok(with_token(Method::Get, path_or_url.to_string(), token, Body::Empty));
        }
        Err(GrappaClientError::InvalidUrl(path_or_url.to_string()))
    }

    /// `POST /themes {name, payload}` (a new theme) or `PATCH /themes/:id`.
    pub fn save_theme(&self, token: &str, theme_id: Option<i64>, name: &str, payload: &Json) -> (
        request: Request)
        ensures
            request@ == ({
                let body = BodyView::Json(
                    Tree::Object(seq![("name"@, Tree::Text(name@)), ("payload"@, payload@)]),
                );
                match theme_id {
                    Some(id) => sent(
                        Method::Patch,
                        self.base_url@ + "/themes/"@ + signed_decimal(id as int),
                        token@,
                        body,
                    ),
                    None => sent(Method::Post, self.base_url@ + "/themes"@, token@, body),
                }
            }),
    {
        let mut members = Members::new();
        members.push_text("name", name);
        members.push("payload", payload.clone());
        assert(members@ =~= seq![("name"@, Tree::Text(name@)), ("payload"@, payload@)]);
        let body = Body::Json(members.object());
        let mut url = self.base_url.clone();
        match theme_id {
            Some(id) => {
                url.append("/themes/");
                url.append(signed_decimal_text(id).as_str());
                with_token(Method::Patch, url, token, body)
            },
            None => {
                url.append("/themes");
                with_token(Method::Post, url, token, body)
            },
        }
    }

    /// `POST /themes/background` with a picked image; Grappa re-encodes it
    /// and returns its `image_id`.
    pub fn upload_theme_background(
        &self,
        token: &str,
        filename: &str,
        mime: &str,
        bytes: Vec<u8>,
    ) -> (request: Request)
        ensures
            request@ == (RequestView {
                method: Method::Post,
                url: self.base_url@ + "/themes/background"@,
                bearer: Some(token@),
                body: BodyView::File {
                    filename: filename@,
                    mime: mime@,
                    bytes: bytes@,
                    expire: None,
                },
                timeout: UPLOAD_TIMEOUT,
            }),
    {
        let mut url = self.base_url.clone();
        url.append("/themes/background");
        upload(url, token, filename, mime, bytes, None)
    }

    /// `POST /api/uploads`: uploads one file, kept for `expire` seconds or
    /// the server's default lifetime. `mime` must be one of Grappa's
    /// allowlisted types (else 415); the per-file cap by category gives 413
    /// and the storage quota 507. Large files get a longer timeout than the
    /// client default.
    pub fn upload_file(
        &self,
        token: &str,
        filename: &str,
        mime: &str,
        bytes: Vec<u8>,
        expire: Option<i64>,
    ) -> (request: Request)
        ensures
            request@ == (RequestView {
                method: Method::Post,
                url: self.base_url@ + "/api/uploads"@,
                bearer: Some(token@),
                body: BodyView::File { filename: filename@, mime: mime@, bytes: bytes@, expire },
                timeout: UPLOAD_TIMEOUT,
            }),
    {
        let mut url = self.base_url.clone();
        url.append("/api/uploads");
        upload(url, token, filename, mime, bytes, expire)
    }

    /// Revokes the current bearer. An anonymous visitor's server-side
    /// session is also stopped and its nickname released by Grappa.
    pub fn logout(&self, token: &str) -> (asked: Request)
        ensures
            asked@ == sent(
                Method::Delete,
                self.base_url@ + "/auth/logout"@,
                token@,
                BodyView::Empty,
            ),
    {
        let mut url = self.base_url.clone();
        url.append("/auth/logout");
        with_token(Method::Delete, url, token, Body::Empty)
    }

    /// `GET /boot`: authenticated cold-start aggregate. `GET /me` goes out in
    /// parallel.
    pub fn fetch_boot(&self, token: &str) -> (asked: Request)
        ensures
            asked@ == sent(Method::Get, self.base_url@ + "/boot"@, token@, BodyView::Empty),
    {
        let mut url = self.base_url.clone();
        url.append("/boot");
        with_token(Method::Get, url, token, Body::Empty)
    }

    /// `GET /me`: authenticated bulk read-cursors, unread counts and badge.
    pub fn fetch_me(&self, token: &str) -> (asked: Request)
        ensures
            asked@ == sent(Method::Get, self.base_url@ + "/me"@, token@, BodyView::Empty),
    {
        let mut url = self.base_url.clone();
        url.append("/me");
        with_token(Method::Get, url, token, Body::Empty)
    }

    /// `GET /networks`: refreshes server-authoritative home-network rows
    /// after `connection_state_changed`. A link transition does not change
    /// the attachment set or channel projection, so this is distinct from
    /// refreshing `/boot` and `/me`.
    pub fn fetch_networks(&self, token: &str) -> (asked: Request)
        ensures
            asked@ == sent(Method::Get, self.base_url@ + "/networks"@, token@, BodyView::Empty),
    {
        let mut url = self.base_url.clone();
        url.append("/networks");
        with_token(Method::Get, url, token, Body::Empty)
    }

    /// `GET /networks/:network_slug/channels`: the authoritative channel
    /// envelopes for one network.
    pub fn fetch_channels(
        &self,
        token: &str,
        network_slug: &str,
    ) -> (asked: Result<Request, GrappaClientError>)
        ensures
            planned(asked) == plan(
                Method::Get,
                self.base_url@,
                seq!["networks"@, network_slug@, "channels"@],
                no_pairs(),
                token@,
                BodyView::Empty,
            ),
            whole_address(self.base_url@, asked),
    {
        let segments: Vec<&str> = vec!["networks", network_slug, "channels"];
        assert(views(segments@) =~= seq!["networks"@, network_slug@, "channels"@]);
        let pairs: Vec<(&str, String)> = Vec::new();
        assert(named_views(pairs@) =~= no_pairs());
        at_segments(Method::Get, self.base_url.as_str(), &segments, &pairs, token, Body::Empty)
    }

    /// `POST /networks/:network_id/channels/:channel_id/messages`: sends a
    /// message, echoed back as JSON.
    ///
    /// The names are percent-encoded as path segments: channel names routinely
    /// contain `#`, which begins a URL's fragment if left raw.
    pub fn send_message(
        &self,
        token: &str,
        network_id: &str,
        channel_id: &str,
        request: &SendMessageRequest,
    ) -> (asked: Result<Request, GrappaClientError>)
        ensures
            planned(asked) == plan(
                Method::Post,
                self.base_url@,
                seq!["networks"@, network_id@, "channels"@, channel_id@, "messages"@],
                no_pairs(),
                token@,
                BodyView::Json(message_body(request@)),
            ),
            whole_address(self.base_url@, asked),
    {
        let segments: Vec<&str> = vec!["networks", network_id, "channels", channel_id, "messages"];
        assert(views(segments@) =~= seq![
            "networks"@,
            network_id@,
            "channels"@,
            channel_id@,
            "messages"@,
        ]);
        let pairs: Vec<(&str, String)> = Vec::new();
        assert(named_views(pairs@) =~= no_pairs());
        at_segments(
            Method::Post,
            self.base_url.as_str(),
            &segments,
            &pairs,
            token,
            Body::Json(request.to_json()),
        )
    }

    /// `GET /networks/:network_slug/channels/:channel_name/messages`: a page
    /// of message rows. With no cursor, Grappa returns the latest page (used
    /// when opening a query or channel for the first time). With `after_id`,
    /// Grappa returns rows after that message in ascending order; callers
    /// commonly set `limit` to 200 after a Phoenix join or rejoin.
    pub fn fetch_messages(
        &self,
        token: &str,
        network_slug: &str,
        channel_name: &str,
        after_id: Option<i64>,
        limit: Option<usize>,
    ) -> (asked: Result<Request, GrappaClientError>)
        ensures
            planned(asked) == plan(
                Method::Get,
                self.base_url@,
                seq!["networks"@, network_slug@, "channels"@, channel_name@, "messages"@],
                some_pair(
                    "after"@,
                    opt_digits(match after_id { Some(n) => Some(n as int), None => None, }),
                )
                    + some_pair(
                        "limit"@,
                        opt_digits(match limit { Some(n) => Some(n as int), None => None, }),
                    ),
                token@,
                BodyView::Empty,
            ),
            whole_address(self.base_url@, asked),
    {
        let segments: Vec<&str> = vec![
            "networks",
            network_slug,
            "channels",
            channel_name,
            "messages",
        ];
        assert(views(segments@) =~= seq![
            "networks"@,
            network_slug@,
            "channels"@,
            channel_name@,
            "messages"@,
        ]);
        let mut pairs: Vec<(&str, String)> = Vec::new();
        push_pair(&mut pairs, "after", signed_digits(after_id));
        push_pair(&mut pairs, "limit", digits(limit));
        assert(named_views(pairs@) =~= some_pair(
            "after"@,
            opt_digits(match after_id { Some(n) => Some(n as int), None => None, }),
        )
            + some_pair(
                "limit"@,
                opt_digits(match limit { Some(n) => Some(n as int), None => None, }),
            ));
        at_segments(Method::Get, self.base_url.as_str(), &segments, &pairs, token, Body::Empty)
    }

    /// `GET /networks/:slug/channels/:channel/messages?before=<id>&limit=`:
    /// the page of history just older than message `before_id`, newest first
    /// (Grappa caps `limit` at 200). An empty page means the start of the
    /// history was reached.
    pub fn fetch_messages_before(
        &self,
        token: &str,
        network_slug: &str,
        channel_name: &str,
        before_id: i64,
        limit: usize,
    ) -> (asked: Result<Request, GrappaClientError>)
        ensures
            planned(asked) == plan(
                Method::Get,
                self.base_url@,
                seq!["networks"@, network_slug@, "channels"@, channel_name@, "messages"@],
                some_pair("before"@, Some(signed_decimal(before_id as int)))
                    + some_pair("limit"@, Some(decimal(limit as nat))),
                token@,
                BodyView::Empty,
            ),
            whole_address(self.base_url@, asked),
    {
        let segments: Vec<&str> = vec![
            "networks",
            network_slug,
            "channels",
            channel_name,
            "messages",
        ];
        assert(views(segments@) =~= seq![
            "networks"@,
            network_slug@,
            "channels"@,
            channel_name@,
            "messages"@,
        ]);
        let mut pairs: Vec<(&str, String)> = Vec::new();
        push_pair(&mut pairs, "before", Some(signed_decimal_text(before_id)));
        push_pair(&mut pairs, "limit", Some(decimal_text(limit as u64)));
        assert(named_views(pairs@) =~= some_pair("before"@, Some(signed_decimal(before_id as int)))
            + some_pair("limit"@, Some(decimal(limit as nat))));
        at_segments(Method::Get, self.base_url.as_str(), &segments, &pairs, token, Body::Empty)
    }

    /// `DELETE /networks/:network_slug/channels/:channel`: parts from an IRC
    /// channel and removes the joined window on the server. A non-empty
    /// reason goes as a query parameter, never as a body.
    pub fn part_channel(
        &self,
        token: &str,
        network_slug: &str,
        channel: &str,
        reason: Option<&str>,
    ) -> (asked: Result<Request, GrappaClientError>)
        ensures
            planned(asked) == plan(
                Method::Delete,
                self.base_url@,
                seq!["networks"@, network_slug@, "channels"@, channel@],
                some_pair(
                    "reason"@,
                    match reason { Some(reason) => unless_empty(reason@), None => None, },
                ),
                token@,
                BodyView::Empty,
            ),
            whole_address(self.base_url@, asked),
    {
        let segments: Vec<&str> = vec!["networks", network_slug, "channels", channel];
        assert(views(segments@) =~= seq!["networks"@, network_slug@, "channels"@, channel@]);
        let mut pairs: Vec<(&str, String)> = Vec::new();
        push_pair(&mut pairs, "reason", nonempty(reason));
        assert(named_views(pairs@) =~= some_pair(
            "reason"@,
            match reason { Some(reason) => unless_empty(reason@), None => None, },
        ));
        at_segments(Method::Delete, self.base_url.as_str(), &segments, &pairs, token, Body::Empty)
    }

    /// `GET /me/settings/display-prefs`: tolerant of absence.
    pub fn fetch_display_prefs(&self, token: &str) -> (asked: Request)
        ensures
            asked@ == sent(
                Method::Get,
                self.base_url@ + "/me/settings/display-prefs"@,
                token@,
                BodyView::Empty,
            ),
    {
        let mut url = self.base_url.clone();
        url.append("/me/settings/display-prefs");
        with_token(Method::Get, url, token, Body::Empty)
    }

    /// `GET /me/settings/<key>` for a single-value setting.
    pub fn fetch_setting(&self, token: &str, key: &str) -> (asked: Request)
        ensures
            asked@ == sent(
                Method::Get,
                self.base_url@ + "/me/settings/"@ + key@,
                token@,
                BodyView::Empty,
            ),
    {
        let mut url = self.base_url.clone();
        url.append("/me/settings/");
        url.append(key);
        with_token(Method::Get, url, token, Body::Empty)
    }

    /// `PUT /me/settings/<key>` with `{"<field>": value}`.
    pub fn put_setting(&self, token: &str, key: &str, field: &str, value: Json) -> (asked: Request)
        ensures
            asked@ == sent(
                Method::Put,
                self.base_url@ + "/me/settings/"@ + key@,
                token@,
                BodyView::Json(Tree::Object(seq![(field@, value@)])),
            ),
    {
        let mut url = self.base_url.clone();
        url.append("/me/settings/");
        url.append(key);
        let mut members = Members::new();
        members.push(field, value);
        assert(members@ =~= seq![(field@, value@)]);
        with_token(Method::Put, url, token, Body::Json(members.object()))
    }

    /// Asks for the remembered QUIT/PART message.
    pub fn fetch_quit_part_reason(&self, token: &str) -> (asked: Request)
        ensures
            asked@ == sent(
                Method::Get,
                self.base_url@ + "/me/settings/quit-part-reason"@,
                token@,
                BodyView::Empty,
            ),
    {
        let mut url = self.base_url.clone();
        url.append("/me/settings/quit-part-reason");
        with_token(Method::Get, url, token, Body::Empty)
    }

    /// Stores the QUIT/PART message; `None` clears it.
    pub fn set_quit_part_reason(&self, token: &str, reason: Option<&str>) -> (asked: Request)
        ensures
            asked@ == sent(
                Method::Put,
                self.base_url@ + "/me/settings/quit-part-reason"@,
                token@,
                BodyView::Json(
                    Tree::Object(seq![("quit_part_reason"@, text_or_null(opt_view(reason)))]),
                ),
            ),
    {
        let mut url = self.base_url.clone();
        url.append("/me/settings/quit-part-reason");
        let mut members = Members::new();
        members.push("quit_part_reason", Json::text_or_null(reason));
        assert(members@ =~= seq![("quit_part_reason"@, text_or_null(opt_view(reason)))]);
        with_token(Method::Put, url, token, Body::Json(members.object()))
    }

    /// Asks for the text sent when the bouncer marks the user away.
    pub fn fetch_auto_away_reason(&self, token: &str) -> (asked: Request)
        ensures
            asked@ == sent(
                Method::Get,
                self.base_url@ + "/me/settings/auto-away-reason"@,
                token@,
                BodyView::Empty,
            ),
    {
        let mut url = self.base_url.clone();
        url.append("/me/settings/auto-away-reason");
        with_token(Method::Get, url, token, Body::Empty)
    }

    /// Stores the auto-away text; `None` clears it. Live sessions already
    /// away pick it up at once.
    pub fn set_auto_away_reason(&self, token: &str, reason: Option<&str>) -> (asked: Request)
        ensures
            asked@ == sent(
                Method::Put,
                self.base_url@ + "/me/settings/auto-away-reason"@,
                token@,
                BodyView::Json(
                    Tree::Object(seq![("auto_away_reason"@, text_or_null(opt_view(reason)))]),
                ),
            ),
    {
        let mut url = self.base_url.clone();
        url.append("/me/settings/auto-away-reason");
        let mut members = Members::new();
        members.push("auto_away_reason", Json::text_or_null(reason));
        assert(members@ =~= seq![("auto_away_reason"@, text_or_null(opt_view(reason)))]);
        with_token(Method::Put, url, token, Body::Json(members.object()))
    }

    /// Asks for the auto-away delay: none for the server default, zero when
    /// auto-away is off, otherwise seconds.
    pub fn fetch_auto_away_debounce(&self, token: &str) -> (asked: Request)
        ensures
            asked@ == sent(
                Method::Get,
                self.base_url@ + "/me/settings/auto-away-debounce-seconds"@,
                token@,
                BodyView::Empty,
            ),
    {
        let mut url = self.base_url.clone();
        url.append("/me/settings/auto-away-debounce-seconds");
        with_token(Method::Get, url, token, Body::Empty)
    }

    /// Stores the auto-away delay, with the same meanings.
    pub fn set_auto_away_debounce(&self, token: &str, seconds: Option<i64>) -> (asked: Request)
        ensures
            asked@ == sent(
                Method::Put,
                self.base_url@ + "/me/settings/auto-away-debounce-seconds"@,
                token@,
                BodyView::Json(
                    Tree::Object(seq![("auto_away_debounce_seconds"@, whole_or_null(seconds))]),
                ),
            ),
    {
        let mut url = self.base_url.clone();
        url.append("/me/settings/auto-away-debounce-seconds");
        let mut members = Members::new();
        members.push("auto_away_debounce_seconds", Json::whole_or_null(seconds));
        assert(members@ =~= seq![("auto_away_debounce_seconds"@, whole_or_null(seconds))]);
        with_token(Method::Put, url, token, Body::Json(members.object()))
    }

    /// Asks whether Grappa looks up other users' CTCP USERINFO profiles.
    pub fn fetch_show_peer_profiles(&self, token: &str) -> (asked: Request)
        ensures
            asked@ == sent(
                Method::Get,
                self.base_url@ + "/me/settings/show-peer-profiles"@,
                token@,
                BodyView::Empty,
            ),
    {
        let mut url = self.base_url.clone();
        url.append("/me/settings/show-peer-profiles");
        with_token(Method::Get, url, token, Body::Empty)
    }

    /// Stores the peer-profile opt-in; it applies from the next session.
    pub fn set_show_peer_profiles(&self, token: &str, enabled: bool) -> (asked: Request)
        ensures
            asked@ == sent(
                Method::Put,
                self.base_url@ + "/me/settings/show-peer-profiles"@,
                token@,
                BodyView::Json(Tree::Object(seq![("show_peer_profiles"@, Tree::Bool(enabled))])),
            ),
    {
        let mut url = self.base_url.clone();
        url.append("/me/settings/show-peer-profiles");
        let mut members = Members::new();
        members.push("show_peer_profiles", Json::Bool(enabled));
        assert(members@ =~= seq![("show_peer_profiles"@, Tree::Bool(enabled))]);
        with_token(Method::Put, url, token, Body::Json(members.object()))
    }

    /// `GET /networks/:slug/dcc-auto-accept`: whether DCC files from peers
    /// with an open private window are accepted without asking.
    pub fn fetch_dcc_auto_accept(
        &self,
        token: &str,
        network_slug: &str,
    ) -> (asked: Result<Request, GrappaClientError>)
        ensures
            planned(asked) == plan(
                Method::Get,
                self.base_url@,
                seq!["networks"@, network_slug@, "dcc-auto-accept"@],
                no_pairs(),
                token@,
                BodyView::Empty,
            ),
            whole_address(self.base_url@, asked),
    {
        let segments: Vec<&str> = vec!["networks", network_slug, "dcc-auto-accept"];
        assert(views(segments@) =~= seq!["networks"@, network_slug@, "dcc-auto-accept"@]);
        let pairs: Vec<(&str, String)> = Vec::new();
        assert(named_views(pairs@) =~= no_pairs());
        at_segments(Method::Get, self.base_url.as_str(), &segments, &pairs, token, Body::Empty)
    }

    /// `PUT /networks/:slug/dcc-auto-accept {enabled}`.
    pub fn set_dcc_auto_accept(
        &self,
        token: &str,
        network_slug: &str,
        enabled: bool,
    ) -> (asked: Result<Request, GrappaClientError>)
        ensures
            planned(asked) == plan(
                Method::Put,
                self.base_url@,
                seq!["networks"@, network_slug@, "dcc-auto-accept"@],
                no_pairs(),
                token@,
                BodyView::Json(Tree::Object(seq![("enabled"@, Tree::Bool(enabled))])),
            ),
            whole_address(self.base_url@, asked),
    {
        let segments: Vec<&str> = vec!["networks", network_slug, "dcc-auto-accept"];
        assert(views(segments@) =~= seq!["networks"@, network_slug@, "dcc-auto-accept"@]);
        let pairs: Vec<(&str, String)> = Vec::new();
        assert(named_views(pairs@) =~= no_pairs());
        let mut members = Members::new();
        members.push("enabled", Json::Bool(enabled));
        assert(members@ =~= seq![("enabled"@, Tree::Bool(enabled))]);
        at_segments(
            Method::Put,
            self.base_url.as_str(),
            &segments,
            &pairs,
            token,
            Body::Json(members.object()),
        )
    }

    /// `GET /admin/overview`: requires `is_admin` and a full web session (a
    /// per-client token gets `403`).
    pub fn fetch_admin_overview(&self, token: &str) -> (asked: Request)
        ensures
            asked@ == sent(
                Method::Get,
                self.base_url@ + "/admin/overview"@,
                token@,
                BodyView::Empty,
            ),
    {
        let mut url = self.base_url.clone();
        url.append("/admin/overview");
        with_token(Method::Get, url, token, Body::Empty)
    }

    /// `GET /admin/sessions`.
    pub fn fetch_admin_sessions(&self, token: &str) -> (asked: Request)
        ensures
            asked@ == sent(
                Method::Get,
                self.base_url@ + "/admin/sessions"@,
                token@,
                BodyView::Empty,
            ),
    {
        let mut url = self.base_url.clone();
        url.append("/admin/sessions");
        with_token(Method::Get, url, token, Body::Empty)
    }

    /// `POST /admin/sessions/:id/disconnect`: `id` is the composite
    /// `"<kind>:<subject_id>:<network_id>"` key, see
    /// [`crate::admin::admin_session_id`].
    pub fn disconnect_admin_session(
        &self,
        token: &str,
        session_id: &str,
    ) -> (asked: Result<Request, GrappaClientError>)
        ensures
            planned(asked) == plan(
                Method::Post,
                self.base_url@,
                seq!["admin"@, "sessions"@, session_id@, "disconnect"@],
                no_pairs(),
                token@,
                BodyView::Empty,
            ),
            whole_address(self.base_url@, asked),
    {
        let segments: Vec<&str> = vec!["admin", "sessions", session_id, "disconnect"];
        assert(views(segments@) =~= seq!["admin"@, "sessions"@, session_id@, "disconnect"@]);
        let pairs: Vec<(&str, String)> = Vec::new();
        assert(named_views(pairs@) =~= no_pairs());
        at_segments(Method::Post, self.base_url.as_str(), &segments, &pairs, token, Body::Empty)
    }

    /// `GET /admin/users`.
    pub fn fetch_admin_users(&self, token: &str) -> (asked: Request)
        ensures
            asked@ == sent(Method::Get, self.base_url@ + "/admin/users"@, token@, BodyView::Empty),
    {
        let mut url = self.base_url.clone();
        url.append("/admin/users");
        with_token(Method::Get, url, token, Body::Empty)
    }

    /// `GET /admin/networks`.
    pub fn fetch_admin_networks(&self, token: &str) -> (asked: Request)
        ensures
            asked@ == sent(
                Method::Get,
                self.base_url@ + "/admin/networks"@,
                token@,
                BodyView::Empty,
            ),
    {
        let mut url = self.base_url.clone();
        url.append("/admin/networks");
        with_token(Method::Get, url, token, Body::Empty)
    }

    /// `GET /admin/visitors`.
    pub fn fetch_admin_visitors(&self, token: &str) -> (asked: Request)
        ensures
            asked@ == sent(
                Method::Get,
                self.base_url@ + "/admin/visitors"@,
                token@,
                BodyView::Empty,
            ),
    {
        let mut url = self.base_url.clone();
        url.append("/admin/visitors");
        with_token(Method::Get, url, token, Body::Empty)
    }

    /// `DELETE /admin/visitors/:id`.
    pub fn delete_admin_visitor(
        &self,
        token: &str,
        visitor_id: &str,
    ) -> (asked: Result<Request, GrappaClientError>)
        ensures
            planned(asked) == plan(
                Method::Delete,
                self.base_url@,
                seq!["admin"@, "visitors"@, visitor_id@],
                no_pairs(),
                token@,
                BodyView::Empty,
            ),
            whole_address(self.base_url@, asked),
    {
        let segments: Vec<&str> = vec!["admin", "visitors", visitor_id];
        assert(views(segments@) =~= seq!["admin"@, "visitors"@, visitor_id@]);
        let pairs: Vec<(&str, String)> = Vec::new();
        assert(named_views(pairs@) =~= no_pairs());
        at_segments(Method::Delete, self.base_url.as_str(), &segments, &pairs, token, Body::Empty)
    }

    /// `GET /admin/session_log?limit=N`.
    pub fn fetch_admin_session_log(&self, token: &str, limit: u32) -> (asked: Request)
        ensures
            asked@ == sent(
                Method::Get,
                self.base_url@ + "/admin/session_log?limit="@ + decimal(limit as nat),
                token@,
                BodyView::Empty,
            ),
    {
        let mut url = self.base_url.clone();
        url.append("/admin/session_log?limit=");
        url.append(decimal_text(limit as u64).as_str());
        with_token(Method::Get, url, token, Body::Empty)
    }

    /// `POST /admin/reaper/run`.
    pub fn run_admin_reaper(&self, token: &str) -> (asked: Request)
        ensures
            asked@ == sent(
                Method::Post,
                self.base_url@ + "/admin/reaper/run"@,
                token@,
                BodyView::Empty,
            ),
    {
        let mut url = self.base_url.clone();
        url.append("/admin/reaper/run");
        with_token(Method::Post, url, token, Body::Empty)
    }

    /// `POST /admin/circuit/:network_id/reset`.
    pub fn reset_admin_circuit(
        &self,
        token: &str,
        network_id: &str,
    ) -> (asked: Result<Request, GrappaClientError>)
        ensures
            planned(asked) == plan(
                Method::Post,
                self.base_url@,
                seq!["admin"@, "circuit"@, network_id@, "reset"@],
                no_pairs(),
                token@,
                BodyView::Empty,
            ),
            whole_address(self.base_url@, asked),
    {
        let segments: Vec<&str> = vec!["admin", "circuit", network_id, "reset"];
        assert(views(segments@) =~= seq!["admin"@, "circuit"@, network_id@, "reset"@]);
        let pairs: Vec<(&str, String)> = Vec::new();
        assert(named_views(pairs@) =~= no_pairs());
        at_segments(Method::Post, self.base_url.as_str(), &segments, &pairs, token, Body::Empty)
    }

    /// `POST /admin/users {name, password, is_admin}`: creates an account.
    pub fn create_admin_user(
        &self,
        token: &str,
        name: &str,
        password: &str,
        is_admin: bool,
    ) -> (asked: Request)
        ensures
            asked@ == sent(
                Method::Post,
                self.base_url@ + "/admin/users"@,
                token@,
                BodyView::Json(
                    Tree::Object(
                        seq![
                            ("name"@, Tree::Text(name@)),
                            ("password"@, Tree::Text(password@)),
                            ("is_admin"@, Tree::Bool(is_admin)),
                        ],
                    ),
                ),
            ),
    {
        let mut url = self.base_url.clone();
        url.append("/admin/users");
        let mut members = Members::new();
        members.push_text("name", name);
        members.push_text("password", password);
        members.push("is_admin", Json::Bool(is_admin));
        assert(members@ =~= seq![
            ("name"@, Tree::Text(name@)),
            ("password"@, Tree::Text(password@)),
            ("is_admin"@, Tree::Bool(is_admin)),
        ]);
        with_token(Method::Post, url, token, Body::Json(members.object()))
    }

    /// `PUT /admin/users/:id/password {password}`: also signs the user out
    /// everywhere, server-side.
    pub fn set_admin_user_password(
        &self,
        token: &str,
        user_id: &str,
        password: &str,
    ) -> (asked: Result<Request, GrappaClientError>)
        ensures
            planned(asked) == plan(
                Method::Put,
                self.base_url@,
                seq!["admin"@, "users"@, user_id@, "password"@],
                no_pairs(),
                token@,
                BodyView::Json(Tree::Object(seq![("password"@, Tree::Text(password@))])),
            ),
            whole_address(self.base_url@, asked),
    {
        let segments: Vec<&str> = vec!["admin", "users", user_id, "password"];
        assert(views(segments@) =~= seq!["admin"@, "users"@, user_id@, "password"@]);
        let pairs: Vec<(&str, String)> = Vec::new();
        assert(named_views(pairs@) =~= no_pairs());
        let mut members = Members::new();
        members.push_text("password", password);
        assert(members@ =~= seq![("password"@, Tree::Text(password@))]);
        at_segments(
            Method::Put,
            self.base_url.as_str(),
            &segments,
            &pairs,
            token,
            Body::Json(members.object()),
        )
    }

    /// `POST /admin/networks {slug}`: 409 when the slug exists.
    pub fn create_admin_network(&self, token: &str, slug: &str) -> (asked: Request)
        ensures
            asked@ == sent(
                Method::Post,
                self.base_url@ + "/admin/networks"@,
                token@,
                BodyView::Json(Tree::Object(seq![("slug"@, Tree::Text(slug@))])),
            ),
    {
        let mut url = self.base_url.clone();
        url.append("/admin/networks");
        let mut members = Members::new();
        members.push_text("slug", slug);
        assert(members@ =~= seq![("slug"@, Tree::Text(slug@))]);
        with_token(Method::Post, url, token, Body::Json(members.object()))
    }

    /// `PATCH /admin/networks/:slug` with any of `visitor_enabled`,
    /// `visitor_autoconnect`, `services_flavor` and the three caps (`null`
    /// for unlimited).
    pub fn update_admin_network(
        &self,
        token: &str,
        slug: &str,
        settings: &Json,
    ) -> (asked: Result<Request, GrappaClientError>)
        ensures
            planned(asked) == plan(
                Method::Patch,
                self.base_url@,
                seq!["admin"@, "networks"@, slug@],
                no_pairs(),
                token@,
                BodyView::Json(settings@),
            ),
            whole_address(self.base_url@, asked),
    {
        let segments: Vec<&str> = vec!["admin", "networks", slug];
        assert(views(segments@) =~= seq!["admin"@, "networks"@, slug@]);
        let pairs: Vec<(&str, String)> = Vec::new();
        assert(named_views(pairs@) =~= no_pairs());
        at_segments(
            Method::Patch,
            self.base_url.as_str(),
            &segments,
            &pairs,
            token,
            Body::Json(settings.clone()),
        )
    }

    /// `DELETE /admin/networks/:id`: 409 while it still has credentials or
    /// scrollback.
    pub fn delete_admin_network(
        &self,
        token: &str,
        network_id: &str,
    ) -> (asked: Result<Request, GrappaClientError>)
        ensures
            planned(asked) == plan(
                Method::Delete,
                self.base_url@,
                seq!["admin"@, "networks"@, network_id@],
                no_pairs(),
                token@,
                BodyView::Empty,
            ),
            whole_address(self.base_url@, asked),
    {
        let segments: Vec<&str> = vec!["admin", "networks", network_id];
        assert(views(segments@) =~= seq!["admin"@, "networks"@, network_id@]);
        let pairs: Vec<(&str, String)> = Vec::new();
        assert(named_views(pairs@) =~= no_pairs());
        at_segments(Method::Delete, self.base_url.as_str(), &segments, &pairs, token, Body::Empty)
    }

    /// `GET /admin/networks/:id/servers`: the network's IRC endpoints, in
    /// connection priority order, under `servers`.
    pub fn fetch_admin_servers(
        &self,
        token: &str,
        network_id: &str,
    ) -> (asked: Result<Request, GrappaClientError>)
        ensures
            planned(asked) == plan(
                Method::Get,
                self.base_url@,
                seq!["admin"@, "networks"@, network_id@, "servers"@],
                no_pairs(),
                token@,
                BodyView::Empty,
            ),
            whole_address(self.base_url@, asked),
    {
        let segments: Vec<&str> = vec!["admin", "networks", network_id, "servers"];
        assert(views(segments@) =~= seq!["admin"@, "networks"@, network_id@, "servers"@]);
        let pairs: Vec<(&str, String)> = Vec::new();
        assert(named_views(pairs@) =~= no_pairs());
        at_segments(Method::Get, self.base_url.as_str(), &segments, &pairs, token, Body::Empty)
    }

    /// `POST /admin/networks/:id/servers {host, port, tls}`: 409 for a
    /// duplicate endpoint.
    pub fn add_admin_server(
        &self,
        token: &str,
        network_id: &str,
        host: &str,
        port: u16,
        tls: bool,
    ) -> (asked: Result<Request, GrappaClientError>)
        ensures
            planned(asked) == plan(
                Method::Post,
                self.base_url@,
                seq!["admin"@, "networks"@, network_id@, "servers"@],
                no_pairs(),
                token@,
                BodyView::Json(
                    Tree::Object(
                        seq![
                            ("host"@, Tree::Text(host@)),
                            ("port"@, whole(port as int)),
                            ("tls"@, Tree::Bool(tls)),
                        ],
                    ),
                ),
            ),
            whole_address(self.base_url@, asked),
    {
        let segments: Vec<&str> = vec!["admin", "networks", network_id, "servers"];
        assert(views(segments@) =~= seq!["admin"@, "networks"@, network_id@, "servers"@]);
        let pairs: Vec<(&str, String)> = Vec::new();
        assert(named_views(pairs@) =~= no_pairs());
        let mut members = Members::new();
        members.push_text("host", host);
        members.push("port", Json::whole(port as i64));
        members.push("tls", Json::Bool(tls));
        assert(members@ =~= seq![
            ("host"@, Tree::Text(host@)),
            ("port"@, whole(port as int)),
            ("tls"@, Tree::Bool(tls)),
        ]);
        at_segments(
            Method::Post,
            self.base_url.as_str(),
            &segments,
            &pairs,
            token,
            Body::Json(members.object()),
        )
    }

    /// `DELETE /admin/networks/:id/servers/:server_id`: live sessions keep
    /// their connection until they next reconnect.
    pub fn delete_admin_server(
        &self,
        token: &str,
        network_id: &str,
        server_id: &str,
    ) -> (asked: Result<Request, GrappaClientError>)
        ensures
            planned(asked) == plan(
                Method::Delete,
                self.base_url@,
                seq!["admin"@, "networks"@, network_id@, "servers"@, server_id@],
                no_pairs(),
                token@,
                BodyView::Empty,
            ),
            whole_address(self.base_url@, asked),
    {
        let segments: Vec<&str> = vec!["admin", "networks", network_id, "servers", server_id];
        assert(views(segments@) =~= seq![
            "admin"@,
            "networks"@,
            network_id@,
            "servers"@,
            server_id@,
        ]);
        let pairs: Vec<(&str, String)> = Vec::new();
        assert(named_views(pairs@) =~= no_pairs());
        at_segments(Method::Delete, self.base_url.as_str(), &segments, &pairs, token, Body::Empty)
    }

    /// `GET /admin/settings`: the server-wide `upload`, `dcc` and
    /// `addressing` settings, as the object under `settings`.
    pub fn fetch_admin_settings(&self, token: &str) -> (asked: Request)
        ensures
            asked@ == sent(
                Method::Get,
                self.base_url@ + "/admin/settings"@,
                token@,
                BodyView::Empty,
            ),
    {
        let mut url = self.base_url.clone();
        url.append("/admin/settings");
        with_token(Method::Get, url, token, Body::Empty)
    }

    /// `PUT /admin/settings`: only the subtrees and keys present change; 422
    /// names an invalid key, or refuses an unusable addressing mode.
    pub fn update_admin_settings(&self, token: &str, settings: &Json) -> (asked: Request)
        ensures
            asked@ == sent(
                Method::Put,
                self.base_url@ + "/admin/settings"@,
                token@,
                BodyView::Json(settings@),
            ),
    {
        let mut url = self.base_url.clone();
        url.append("/admin/settings");
        with_token(Method::Put, url, token, Body::Json(settings.clone()))
    }

    /// `GET /admin/credentials`: every bound (user, network) credential,
    /// under `credentials`.
    pub fn fetch_admin_credentials(&self, token: &str) -> (asked: Request)
        ensures
            asked@ == sent(
                Method::Get,
                self.base_url@ + "/admin/credentials"@,
                token@,
                BodyView::Empty,
            ),
    {
        let mut url = self.base_url.clone();
        url.append("/admin/credentials");
        with_token(Method::Get, url, token, Body::Empty)
    }

    /// `POST /admin/credentials`: binds an account to a network (`user_id`,
    /// `network_id`, `nick`, `auth_method` required, `password` optional);
    /// Grappa starts the session right away.
    pub fn create_admin_credential(&self, token: &str, credential: &Json) -> (asked: Request)
        ensures
            asked@ == sent(
                Method::Post,
                self.base_url@ + "/admin/credentials"@,
                token@,
                BodyView::Json(credential@),
            ),
    {
        let mut url = self.base_url.clone();
        url.append("/admin/credentials");
        with_token(Method::Post, url, token, Body::Json(credential.clone()))
    }

    /// `DELETE /admin/credentials/:user_id/:network_id`: unbinds and stops
    /// the live session.
    pub fn delete_admin_credential(
        &self,
        token: &str,
        user_id: &str,
        network_id: &str,
    ) -> (asked: Result<Request, GrappaClientError>)
        ensures
            planned(asked) == plan(
                Method::Delete,
                self.base_url@,
                seq!["admin"@, "credentials"@, user_id@, network_id@],
                no_pairs(),
                token@,
                BodyView::Empty,
            ),
            whole_address(self.base_url@, asked),
    {
        let segments: Vec<&str> = vec!["admin", "credentials", user_id, network_id];
        assert(views(segments@) =~= seq!["admin"@, "credentials"@, user_id@, network_id@]);
        let pairs: Vec<(&str, String)> = Vec::new();
        assert(named_views(pairs@) =~= no_pairs());
        at_segments(Method::Delete, self.base_url.as_str(), &segments, &pairs, token, Body::Empty)
    }

    /// `GET /admin/vhosts`: `{vhosts, grants, host_candidates}`.
    pub fn fetch_admin_vhosts(&self, token: &str) -> (asked: Request)
        ensures
            asked@ == sent(Method::Get, self.base_url@ + "/admin/vhosts"@, token@, BodyView::Empty),
    {
        let mut url = self.base_url.clone();
        url.append("/admin/vhosts");
        with_token(Method::Get, url, token, Body::Empty)
    }

    /// `POST /admin/vhosts {address, in_pool}`: 409 for a known address.
    pub fn create_admin_vhost(&self, token: &str, address: &str, in_pool: bool) -> (asked: Request)
        ensures
            asked@ == sent(
                Method::Post,
                self.base_url@ + "/admin/vhosts"@,
                token@,
                BodyView::Json(
                    Tree::Object(
                        seq![("address"@, Tree::Text(address@)), ("in_pool"@, Tree::Bool(in_pool))],
                    ),
                ),
            ),
    {
        let mut url = self.base_url.clone();
        url.append("/admin/vhosts");
        let mut members = Members::new();
        members.push_text("address", address);
        members.push("in_pool", Json::Bool(in_pool));
        assert(members@ =~= seq![
            ("address"@, Tree::Text(address@)),
            ("in_pool"@, Tree::Bool(in_pool)),
        ]);
        with_token(Method::Post, url, token, Body::Json(members.object()))
    }

    /// `PATCH /admin/vhosts/:id` with `in_pool` and `generally_available`, or
    /// one of them.
    pub fn update_admin_vhost(
        &self,
        token: &str,
        vhost_id: &str,
        changes: &Json,
    ) -> (asked: Result<Request, GrappaClientError>)
        ensures
            planned(asked) == plan(
                Method::Patch,
                self.base_url@,
                seq!["admin"@, "vhosts"@, vhost_id@],
                no_pairs(),
                token@,
                BodyView::Json(changes@),
            ),
            whole_address(self.base_url@, asked),
    {
        let segments: Vec<&str> = vec!["admin", "vhosts", vhost_id];
        assert(views(segments@) =~= seq!["admin"@, "vhosts"@, vhost_id@]);
        let pairs: Vec<(&str, String)> = Vec::new();
        assert(named_views(pairs@) =~= no_pairs());
        at_segments(
            Method::Patch,
            self.base_url.as_str(),
            &segments,
            &pairs,
            token,
            Body::Json(changes.clone()),
        )
    }

    /// `DELETE /admin/vhosts/:id`: its grants go with it.
    pub fn delete_admin_vhost(
        &self,
        token: &str,
        vhost_id: &str,
    ) -> (asked: Result<Request, GrappaClientError>)
        ensures
            planned(asked) == plan(
                Method::Delete,
                self.base_url@,
                seq!["admin"@, "vhosts"@, vhost_id@],
                no_pairs(),
                token@,
                BodyView::Empty,
            ),
            whole_address(self.base_url@, asked),
    {
        let segments: Vec<&str> = vec!["admin", "vhosts", vhost_id];
        assert(views(segments@) =~= seq!["admin"@, "vhosts"@, vhost_id@]);
        let pairs: Vec<(&str, String)> = Vec::new();
        assert(named_views(pairs@) =~= no_pairs());
        at_segments(Method::Delete, self.base_url.as_str(), &segments, &pairs, token, Body::Empty)
    }

    /// `POST /admin/vhosts/:id/grants {subject_type, subject_id}`, where the
    /// subject is a `"user"` or a `"visitor"`.
    pub fn grant_admin_vhost(
        &self,
        token: &str,
        vhost_id: &str,
        subject_type: &str,
        subject_id: &str,
    ) -> (asked: Result<Request, GrappaClientError>)
        ensures
            planned(asked) == plan(
                Method::Post,
                self.base_url@,
                seq!["admin"@, "vhosts"@, vhost_id@, "grants"@],
                no_pairs(),
                token@,
                BodyView::Json(
                    Tree::Object(
                        seq![
                            ("subject_type"@, Tree::Text(subject_type@)),
                            ("subject_id"@, Tree::Text(subject_id@)),
                        ],
                    ),
                ),
            ),
            whole_address(self.base_url@, asked),
    {
        let segments: Vec<&str> = vec!["admin", "vhosts", vhost_id, "grants"];
        assert(views(segments@) =~= seq!["admin"@, "vhosts"@, vhost_id@, "grants"@]);
        let pairs: Vec<(&str, String)> = Vec::new();
        assert(named_views(pairs@) =~= no_pairs());
        let mut members = Members::new();
        members.push_text("subject_type", subject_type);
        members.push_text("subject_id", subject_id);
        assert(members@ =~= seq![
            ("subject_type"@, Tree::Text(subject_type@)),
            ("subject_id"@, Tree::Text(subject_id@)),
        ]);
        at_segments(
            Method::Post,
            self.base_url.as_str(),
            &segments,
            &pairs,
            token,
            Body::Json(members.object()),
        )
    }

    /// `GET /admin/vhosts/subject_search?q=`: accounts and visitors whose
    /// name matches, as `{type, id, network, nick}` rows under `results`.
    pub fn search_admin_subjects(
        &self,
        token: &str,
        query: &str,
    ) -> (asked: Result<Request, GrappaClientError>)
        ensures
            planned(asked) == plan(
                Method::Get,
                self.base_url@,
                seq!["admin"@, "vhosts"@, "subject_search"@],
                some_pair("q"@, Some(query@)),
                token@,
                BodyView::Empty,
            ),
            whole_address(self.base_url@, asked),
    {
        let segments: Vec<&str> = vec!["admin", "vhosts", "subject_search"];
        assert(views(segments@) =~= seq!["admin"@, "vhosts"@, "subject_search"@]);
        let mut pairs: Vec<(&str, String)> = Vec::new();
        push_pair(&mut pairs, "q", Some(query.to_string()));
        assert(named_views(pairs@) =~= some_pair("q"@, Some(query@)));
        at_segments(Method::Get, self.base_url.as_str(), &segments, &pairs, token, Body::Empty)
    }

    /// `DELETE /admin/vhosts/grants/:grant_id`: idempotent.
    pub fn revoke_admin_vhost_grant(
        &self,
        token: &str,
        grant_id: &str,
    ) -> (asked: Result<Request, GrappaClientError>)
        ensures
            planned(asked) == plan(
                Method::Delete,
                self.base_url@,
                seq!["admin"@, "vhosts"@, "grants"@, grant_id@],
                no_pairs(),
                token@,
                BodyView::Empty,
            ),
            whole_address(self.base_url@, asked),
    {
        let segments: Vec<&str> = vec!["admin", "vhosts", "grants", grant_id];
        assert(views(segments@) =~= seq!["admin"@, "vhosts"@, "grants"@, grant_id@]);
        let pairs: Vec<(&str, String)> = Vec::new();
        assert(named_views(pairs@) =~= no_pairs());
        at_segments(Method::Delete, self.base_url.as_str(), &segments, &pairs, token, Body::Empty)
    }

    /// `PATCH /admin/users/:id`: the server takes `is_admin` alone.
    pub fn set_admin_user_is_admin(
        &self,
        token: &str,
        user_id: &str,
        is_admin: bool,
    ) -> (asked: Result<Request, GrappaClientError>)
        ensures
            planned(asked) == plan(
                Method::Patch,
                self.base_url@,
                seq!["admin"@, "users"@, user_id@],
                no_pairs(),
                token@,
                BodyView::Json(Tree::Object(seq![("is_admin"@, Tree::Bool(is_admin))])),
            ),
            whole_address(self.base_url@, asked),
    {
        let segments: Vec<&str> = vec!["admin", "users", user_id];
        assert(views(segments@) =~= seq!["admin"@, "users"@, user_id@]);
        let pairs: Vec<(&str, String)> = Vec::new();
        assert(named_views(pairs@) =~= no_pairs());
        let mut members = Members::new();
        members.push("is_admin", Json::Bool(is_admin));
        assert(members@ =~= seq![("is_admin"@, Tree::Bool(is_admin))]);
        at_segments(
            Method::Patch,
            self.base_url.as_str(),
            &segments,
            &pairs,
            token,
            Body::Json(members.object()),
        )
    }

    /// `DELETE /admin/users/:id`.
    pub fn delete_admin_user(
        &self,
        token: &str,
        user_id: &str,
    ) -> (asked: Result<Request, GrappaClientError>)
        ensures
            planned(asked) == plan(
                Method::Delete,
                self.base_url@,
                seq!["admin"@, "users"@, user_id@],
                no_pairs(),
                token@,
                BodyView::Empty,
            ),
            whole_address(self.base_url@, asked),
    {
        let segments: Vec<&str> = vec!["admin", "users", user_id];
        assert(views(segments@) =~= seq!["admin"@, "users"@, user_id@]);
        let pairs: Vec<(&str, String)> = Vec::new();
        assert(named_views(pairs@) =~= no_pairs());
        at_segments(Method::Delete, self.base_url.as_str(), &segments, &pairs, token, Body::Empty)
    }

    /// `PATCH /networks/:slug/identity`: self-service, own profile only
    /// (scoped by the bearer token server-side, never an explicit user id).
    /// Only `nick`, `ident` and `realname`: SASL and autojoin stay admin-only,
    /// see [`crate::profile`].
    pub fn update_network_identity(
        &self,
        token: &str,
        network_slug: &str,
        request: &NetworkIdentityRequest,
    ) -> (asked: Result<Request, GrappaClientError>)
        ensures
            planned(asked) == plan(
                Method::Patch,
                self.base_url@,
                seq!["networks"@, network_slug@, "identity"@],
                no_pairs(),
                token@,
                BodyView::Json(
                    identity_body(opt(request.nick), opt(request.ident), opt(request.realname)),
                ),
            ),
            whole_address(self.base_url@, asked),
    {
        let segments: Vec<&str> = vec!["networks", network_slug, "identity"];
        assert(views(segments@) =~= seq!["networks"@, network_slug@, "identity"@]);
        let pairs: Vec<(&str, String)> = Vec::new();
        assert(named_views(pairs@) =~= no_pairs());
        at_segments(
            Method::Patch,
            self.base_url.as_str(),
            &segments,
            &pairs,
            token,
            Body::Json(request.to_json()),
        )
    }

    /// `GET /me/settings/vhost`.
    pub fn fetch_vhost_settings(&self, token: &str) -> (asked: Request)
        ensures
            asked@ == sent(
                Method::Get,
                self.base_url@ + "/me/settings/vhost"@,
                token@,
                BodyView::Empty,
            ),
    {
        let mut url = self.base_url.clone();
        url.append("/me/settings/vhost");
        with_token(Method::Get, url, token, Body::Empty)
    }

    /// `PUT /me/settings/vhost`: the user always self-selects from the
    /// granted set; there's no separate admin "pin" to fight with.
    pub fn update_vhost_selection(&self, token: &str, selection: Vec<String>) -> (asked: Request)
        ensures
            asked@ == sent(
                Method::Put,
                self.base_url@ + "/me/settings/vhost"@,
                token@,
                BodyView::Json(Tree::Object(seq![("selection"@, text_array(texts(selection@)))])),
            ),
    {
        let mut url = self.base_url.clone();
        url.append("/me/settings/vhost");
        let body = VhostSelectionRequest { selection };
        with_token(Method::Put, url, token, Body::Json(body.to_json()))
    }

    /// `GET /networks/:slug/ignores`.
    pub fn fetch_ignores(
        &self,
        token: &str,
        network_slug: &str,
    ) -> (asked: Result<Request, GrappaClientError>)
        ensures
            planned(asked) == plan(
                Method::Get,
                self.base_url@,
                seq!["networks"@, network_slug@, "ignores"@],
                no_pairs(),
                token@,
                BodyView::Empty,
            ),
            whole_address(self.base_url@, asked),
    {
        let segments: Vec<&str> = vec!["networks", network_slug, "ignores"];
        assert(views(segments@) =~= seq!["networks"@, network_slug@, "ignores"@]);
        let pairs: Vec<(&str, String)> = Vec::new();
        assert(named_views(pairs@) =~= no_pairs());
        at_segments(Method::Get, self.base_url.as_str(), &segments, &pairs, token, Body::Empty)
    }

    /// `POST /networks/:slug/ignores`.
    pub fn add_ignore(
        &self,
        token: &str,
        network_slug: &str,
        mask: &str,
    ) -> (asked: Result<Request, GrappaClientError>)
        ensures
            planned(asked) == plan(
                Method::Post,
                self.base_url@,
                seq!["networks"@, network_slug@, "ignores"@],
                no_pairs(),
                token@,
                BodyView::Json(Tree::Object(seq![("mask"@, Tree::Text(mask@))])),
            ),
            whole_address(self.base_url@, asked),
    {
        let segments: Vec<&str> = vec!["networks", network_slug, "ignores"];
        assert(views(segments@) =~= seq!["networks"@, network_slug@, "ignores"@]);
        let pairs: Vec<(&str, String)> = Vec::new();
        assert(named_views(pairs@) =~= no_pairs());
        let body = AddIgnoreRequest { mask: mask.to_string() };
        at_segments(
            Method::Post,
            self.base_url.as_str(),
            &segments,
            &pairs,
            token,
            Body::Json(body.to_json()),
        )
    }

    /// `DELETE /networks/:slug/ignores/:mask`.
    pub fn remove_ignore(
        &self,
        token: &str,
        network_slug: &str,
        mask: &str,
    ) -> (asked: Result<Request, GrappaClientError>)
        ensures
            planned(asked) == plan(
                Method::Delete,
                self.base_url@,
                seq!["networks"@, network_slug@, "ignores"@, mask@],
                no_pairs(),
                token@,
                BodyView::Empty,
            ),
            whole_address(self.base_url@, asked),
    {
        let segments: Vec<&str> = vec!["networks", network_slug, "ignores", mask];
        assert(views(segments@) =~= seq!["networks"@, network_slug@, "ignores"@, mask@]);
        let pairs: Vec<(&str, String)> = Vec::new();
        assert(named_views(pairs@) =~= no_pairs());
        at_segments(Method::Delete, self.base_url.as_str(), &segments, &pairs, token, Body::Empty)
    }

    /// `GET /me/settings/aliases`.
    pub fn fetch_aliases(&self, token: &str) -> (asked: Request)
        ensures
            asked@ == sent(
                Method::Get,
                self.base_url@ + "/me/settings/aliases"@,
                token@,
                BodyView::Empty,
            ),
    {
        let mut url = self.base_url.clone();
        url.append("/me/settings/aliases");
        with_token(Method::Get, url, token, Body::Empty)
    }

    /// `PUT /me/settings/aliases`: full-map replace, not a diff.
    pub fn update_aliases(&self, token: &str, aliases: &AliasesView) -> (asked: Request)
        ensures
            asked@ == sent(
                Method::Put,
                self.base_url@ + "/me/settings/aliases"@,
                token@,
                BodyView::Json(
                    Tree::Object(
                        seq![("aliases"@, Tree::Object(alias_members(aliases.aliases.entries@)))],
                    ),
                ),
            ),
    {
        let mut url = self.base_url.clone();
        url.append("/me/settings/aliases");
        with_token(Method::Put, url, token, Body::Json(aliases.to_json()))
    }

    /// `GET /networks/:slug/perform`.
    pub fn fetch_perform(
        &self,
        token: &str,
        network_slug: &str,
    ) -> (asked: Result<Request, GrappaClientError>)
        ensures
            planned(asked) == plan(
                Method::Get,
                self.base_url@,
                seq!["networks"@, network_slug@, "perform"@],
                no_pairs(),
                token@,
                BodyView::Empty,
            ),
            whole_address(self.base_url@, asked),
    {
        let segments: Vec<&str> = vec!["networks", network_slug, "perform"];
        assert(views(segments@) =~= seq!["networks"@, network_slug@, "perform"@]);
        let pairs: Vec<(&str, String)> = Vec::new();
        assert(named_views(pairs@) =~= no_pairs());
        at_segments(Method::Get, self.base_url.as_str(), &segments, &pairs, token, Body::Empty)
    }

    /// `PUT /networks/:slug/perform`.
    pub fn update_perform(
        &self,
        token: &str,
        network_slug: &str,
        request: &PerformUpdateRequest,
    ) -> (asked: Result<Request, GrappaClientError>)
        ensures
            planned(asked) == plan(
                Method::Put,
                self.base_url@,
                seq!["networks"@, network_slug@, "perform"@],
                no_pairs(),
                token@,
                BodyView::Json(perform_body(opt(request.perform_list), opt(request.oper_pass))),
            ),
            whole_address(self.base_url@, asked),
    {
        let segments: Vec<&str> = vec!["networks", network_slug, "perform"];
        assert(views(segments@) =~= seq!["networks"@, network_slug@, "perform"@]);
        let pairs: Vec<(&str, String)> = Vec::new();
        assert(named_views(pairs@) =~= no_pairs());
        at_segments(
            Method::Put,
            self.base_url.as_str(),
            &segments,
            &pairs,
            token,
            Body::Json(request.to_json()),
        )
    }

    /// `POST /networks/:slug/notify`: adds nicks to the presence watchlist.
    /// There's no self-service `GET`: the current list arrives as the
    /// `notify_list` snapshot over the WebSocket instead.
    pub fn add_notify_nicks(
        &self,
        token: &str,
        network_slug: &str,
        nicks: Vec<String>,
    ) -> (asked: Result<Request, GrappaClientError>)
        ensures
            planned(asked) == plan(
                Method::Post,
                self.base_url@,
                seq!["networks"@, network_slug@, "notify"@],
                no_pairs(),
                token@,
                BodyView::Json(Tree::Object(seq![("nicks"@, text_array(texts(nicks@)))])),
            ),
            whole_address(self.base_url@, asked),
    {
        let segments: Vec<&str> = vec!["networks", network_slug, "notify"];
        assert(views(segments@) =~= seq!["networks"@, network_slug@, "notify"@]);
        let pairs: Vec<(&str, String)> = Vec::new();
        assert(named_views(pairs@) =~= no_pairs());
        let body = NotifyAddRequest { nicks };
        at_segments(
            Method::Post,
            self.base_url.as_str(),
            &segments,
            &pairs,
            token,
            Body::Json(body.to_json()),
        )
    }

    /// `GET /networks/:slug/directory`: one page of the last completed `LIST`
    /// snapshot, sorted by `sort` (`users` or `name`), filtered by `query`
    /// when non-empty and continued from `cursor`. The server starts the first
    /// capture on its own when it has none yet.
    pub fn fetch_directory(
        &self,
        token: &str,
        network_slug: &str,
        sort: &str,
        query: &str,
        cursor: Option<&str>,
    ) -> (asked: Result<Request, GrappaClientError>)
        ensures
            planned(asked) == plan(
                Method::Get,
                self.base_url@,
                seq!["networks"@, network_slug@, "directory"@],
                some_pair("sort"@, Some(sort@)) + some_pair("q"@, unless_empty(query@))
                    + some_pair("cursor"@, opt_view(cursor)),
                token@,
                BodyView::Empty,
            ),
            whole_address(self.base_url@, asked),
    {
        let segments: Vec<&str> = vec!["networks", network_slug, "directory"];
        assert(views(segments@) =~= seq!["networks"@, network_slug@, "directory"@]);
        let mut pairs: Vec<(&str, String)> = Vec::new();
        push_pair(&mut pairs, "sort", Some(sort.to_string()));
        push_pair(&mut pairs, "q", nonempty(Some(query)));
        push_pair(&mut pairs, "cursor", to_owned_text(cursor));
        assert(named_views(pairs@) =~= some_pair("sort"@, Some(sort@))
            + some_pair("q"@, unless_empty(query@))
            + some_pair("cursor"@, opt_view(cursor)));
        at_segments(Method::Get, self.base_url.as_str(), &segments, &pairs, token, Body::Empty)
    }

    /// `POST /networks/:slug/directory/refresh`: asks for a fresh `LIST`
    /// capture. `202` both when it starts and when one is already running;
    /// progress then arrives as `directory_*` pushes.
    pub fn refresh_directory(
        &self,
        token: &str,
        network_slug: &str,
    ) -> (asked: Result<Request, GrappaClientError>)
        ensures
            planned(asked) == plan(
                Method::Post,
                self.base_url@,
                seq!["networks"@, network_slug@, "directory"@, "refresh"@],
                no_pairs(),
                token@,
                BodyView::Empty,
            ),
            whole_address(self.base_url@, asked),
    {
        let segments: Vec<&str> = vec!["networks", network_slug, "directory", "refresh"];
        assert(views(segments@) =~= seq!["networks"@, network_slug@, "directory"@, "refresh"@]);
        let pairs: Vec<(&str, String)> = Vec::new();
        assert(named_views(pairs@) =~= no_pairs());
        at_segments(Method::Post, self.base_url.as_str(), &segments, &pairs, token, Body::Empty)
    }

    /// `POST /networks/:slug/dcc_offers/:offer_id/accept`: consents to a held
    /// DCC offer. `202`: the transfer runs on the server and the offer leaves
    /// the held set through a `dcc_offer_resolved` push, never here.
    pub fn accept_dcc_offer(
        &self,
        token: &str,
        network_slug: &str,
        offer_id: &str,
    ) -> (asked: Result<Request, GrappaClientError>)
        ensures
            planned(asked) == plan(
                Method::Post,
                self.base_url@,
                seq!["networks"@, network_slug@, "dcc_offers"@, offer_id@, "accept"@],
                no_pairs(),
                token@,
                BodyView::Empty,
            ),
            whole_address(self.base_url@, asked),
    {
        let segments: Vec<&str> = vec!["networks", network_slug, "dcc_offers", offer_id, "accept"];
        assert(views(segments@) =~= seq![
            "networks"@,
            network_slug@,
            "dcc_offers"@,
            offer_id@,
            "accept"@,
        ]);
        let pairs: Vec<(&str, String)> = Vec::new();
        assert(named_views(pairs@) =~= no_pairs());
        at_segments(Method::Post, self.base_url.as_str(), &segments, &pairs, token, Body::Empty)
    }

    /// `DELETE /networks/:slug/dcc_offers/:offer_id`: refuses a held DCC
    /// offer. Nothing is sent to the peer; the removal still arrives as a
    /// `dcc_offer_resolved` push.
    pub fn refuse_dcc_offer(
        &self,
        token: &str,
        network_slug: &str,
        offer_id: &str,
    ) -> (asked: Result<Request, GrappaClientError>)
        ensures
            planned(asked) == plan(
                Method::Delete,
                self.base_url@,
                seq!["networks"@, network_slug@, "dcc_offers"@, offer_id@],
                no_pairs(),
                token@,
                BodyView::Empty,
            ),
            whole_address(self.base_url@, asked),
    {
        let segments: Vec<&str> = vec!["networks", network_slug, "dcc_offers", offer_id];
        assert(views(segments@) =~= seq!["networks"@, network_slug@, "dcc_offers"@, offer_id@]);
        let pairs: Vec<(&str, String)> = Vec::new();
        assert(named_views(pairs@) =~= no_pairs());
        at_segments(Method::Delete, self.base_url.as_str(), &segments, &pairs, token, Body::Empty)
    }

    /// `GET /networks/:slug/archive`: windows with scrollback that are no
    /// longer joined or open, newest first. Metered by the server: an empty
    /// bucket answers `429`.
    pub fn fetch_archive(
        &self,
        token: &str,
        network_slug: &str,
    ) -> (asked: Result<Request, GrappaClientError>)
        ensures
            planned(asked) == plan(
                Method::Get,
                self.base_url@,
                seq!["networks"@, network_slug@, "archive"@],
                no_pairs(),
                token@,
                BodyView::Empty,
            ),
            whole_address(self.base_url@, asked),
    {
        let segments: Vec<&str> = vec!["networks", network_slug, "archive"];
        assert(views(segments@) =~= seq!["networks"@, network_slug@, "archive"@]);
        let pairs: Vec<(&str, String)> = Vec::new();
        assert(named_views(pairs@) =~= no_pairs());
        at_segments(Method::Get, self.base_url.as_str(), &segments, &pairs, token, Body::Empty)
    }

    /// `DELETE /networks/:slug/archive/:target`: drops the bouncer's
    /// scrollback for one archived target (`204`). The IRC channel itself is
    /// untouched; the change arrives as an `archive_purged` push.
    pub fn delete_archive_target(
        &self,
        token: &str,
        network_slug: &str,
        target: &str,
    ) -> (asked: Result<Request, GrappaClientError>)
        ensures
            planned(asked) == plan(
                Method::Delete,
                self.base_url@,
                seq!["networks"@, network_slug@, "archive"@, target@],
                no_pairs(),
                token@,
                BodyView::Empty,
            ),
            whole_address(self.base_url@, asked),
    {
        let segments: Vec<&str> = vec!["networks", network_slug, "archive", target];
        assert(views(segments@) =~= seq!["networks"@, network_slug@, "archive"@, target@]);
        let pairs: Vec<(&str, String)> = Vec::new();
        assert(named_views(pairs@) =~= no_pairs());
        at_segments(Method::Delete, self.base_url.as_str(), &segments, &pairs, token, Body::Empty)
    }

    /// `GET /me/settings/notification-prefs`: the full push-notification map
    /// (the server fills in its defaults), as the object under
    /// `notification_prefs`.
    pub fn fetch_notification_prefs(&self, token: &str) -> (asked: Request)
        ensures
            asked@ == sent(
                Method::Get,
                self.base_url@ + "/me/settings/notification-prefs"@,
                token@,
                BodyView::Empty,
            ),
    {
        let mut url = self.base_url.clone();
        url.append("/me/settings/notification-prefs");
        with_token(Method::Get, url, token, Body::Empty)
    }

    /// `PUT /me/settings/notification-prefs`: the full map, not wrapped.
    /// Every boolean must be present, and at least one message trigger must
    /// stay on, else 422.
    pub fn set_notification_prefs(&self, token: &str, prefs: Members) -> (asked: Request)
        ensures
            asked@ == sent(
                Method::Put,
                self.base_url@ + "/me/settings/notification-prefs"@,
                token@,
                BodyView::Json(Tree::Object(prefs@)),
            ),
    {
        let mut url = self.base_url.clone();
        url.append("/me/settings/notification-prefs");
        with_token(Method::Put, url, token, Body::Json(prefs.object()))
    }

    /// `GET /themes`: the public theme gallery (published themes and Grappa's
    /// built-ins, which have irssi-derived color sets among them).
    pub fn fetch_themes(&self, token: &str) -> (asked: Request)
        ensures
            asked@ == sent(Method::Get, self.base_url@ + "/themes"@, token@, BodyView::Empty),
    {
        let mut url = self.base_url.clone();
        url.append("/themes");
        with_token(Method::Get, url, token, Body::Empty)
    }

    /// `GET /me/themes`: the account's own themes, published or not.
    pub fn fetch_my_themes(&self, token: &str) -> (asked: Request)
        ensures
            asked@ == sent(Method::Get, self.base_url@ + "/me/themes"@, token@, BodyView::Empty),
    {
        let mut url = self.base_url.clone();
        url.append("/me/themes");
        with_token(Method::Get, url, token, Body::Empty)
    }

    /// `DELETE /themes/:id`.
    pub fn delete_theme(&self, token: &str, theme_id: i64) -> (asked: Request)
        ensures
            asked@ == sent(
                Method::Delete,
                self.base_url@ + "/themes/"@ + signed_decimal(theme_id as int),
                token@,
                BodyView::Empty,
            ),
    {
        let mut url = self.base_url.clone();
        url.append("/themes/");
        url.append(signed_decimal_text(theme_id).as_str());
        with_token(Method::Delete, url, token, Body::Empty)
    }

    /// `POST /themes/:id/publish` or `/unpublish`.
    pub fn set_theme_published(
        &self,
        token: &str,
        theme_id: i64,
        published: bool,
    ) -> (asked: Request)
        ensures
            asked@ == sent(
                Method::Post,
                self.base_url@ + "/themes/"@ + signed_decimal(theme_id as int)
                    + if published { "/publish"@ } else { "/unpublish"@ },
                token@,
                BodyView::Empty,
            ),
    {
        let mut url = self.base_url.clone();
        url.append("/themes/");
        url.append(signed_decimal_text(theme_id).as_str());
        if published { url.append("/publish"); } else { url.append("/unpublish"); }
        with_token(Method::Post, url, token, Body::Empty)
    }

    /// `POST /themes/:id/copy`: an editable copy owned by the account.
    pub fn copy_theme(&self, token: &str, theme_id: i64) -> (asked: Request)
        ensures
            asked@ == sent(
                Method::Post,
                self.base_url@ + "/themes/"@ + signed_decimal(theme_id as int) + "/copy"@,
                token@,
                BodyView::Empty,
            ),
    {
        let mut url = self.base_url.clone();
        url.append("/themes/");
        url.append(signed_decimal_text(theme_id).as_str());
        url.append("/copy");
        with_token(Method::Post, url, token, Body::Empty)
    }

    /// `GET /themes/backgrounds`: Grappa's built-in wallpapers, see
    /// [`theme_backgrounds`].
    pub fn fetch_theme_backgrounds(&self, token: &str) -> (asked: Request)
        ensures
            asked@ == sent(
                Method::Get,
                self.base_url@ + "/themes/backgrounds"@,
                token@,
                BodyView::Empty,
            ),
    {
        let mut url = self.base_url.clone();
        url.append("/themes/backgrounds");
        with_token(Method::Get, url, token, Body::Empty)
    }

    /// `GET /me/theme`: the account's active theme pair.
    pub fn fetch_active_theme(&self, token: &str) -> (asked: Request)
        ensures
            asked@ == sent(Method::Get, self.base_url@ + "/me/theme"@, token@, BodyView::Empty),
    {
        let mut url = self.base_url.clone();
        url.append("/me/theme");
        with_token(Method::Get, url, token, Body::Empty)
    }

    /// `PUT /me/theme`: `light` is the day theme, and `dark` the night one;
    /// without a night theme the day one applies in both modes.
    pub fn set_active_theme(&self, token: &str, light: i64, dark: Option<i64>) -> (asked: Request)
        ensures
            asked@ == sent(
                Method::Put,
                self.base_url@ + "/me/theme"@,
                token@,
                BodyView::Json(
                    Tree::Object(
                        seq![("light"@, whole(light as int)), ("dark"@, whole_or_null(dark))],
                    ),
                ),
            ),
    {
        let mut url = self.base_url.clone();
        url.append("/me/theme");
        let mut members = Members::new();
        members.push("light", Json::whole(light));
        members.push("dark", Json::whole_or_null(dark));
        assert(members@ =~= seq![("light"@, whole(light as int)), ("dark"@, whole_or_null(dark))]);
        with_token(Method::Put, url, token, Body::Json(members.object()))
    }

    /// `GET /me/settings/upload-ttl-seconds`: the lifetime given to new
    /// uploads, none for the server's default.
    pub fn fetch_upload_ttl(&self, token: &str) -> (asked: Request)
        ensures
            asked@ == sent(
                Method::Get,
                self.base_url@ + "/me/settings/upload-ttl-seconds"@,
                token@,
                BodyView::Empty,
            ),
    {
        let mut url = self.base_url.clone();
        url.append("/me/settings/upload-ttl-seconds");
        with_token(Method::Get, url, token, Body::Empty)
    }

    /// `PUT /me/settings/upload-ttl-seconds`; `None` restores the default.
    pub fn set_upload_ttl(&self, token: &str, seconds: Option<i64>) -> (asked: Request)
        ensures
            asked@ == sent(
                Method::Put,
                self.base_url@ + "/me/settings/upload-ttl-seconds"@,
                token@,
                BodyView::Json(Tree::Object(seq![("upload_ttl_seconds"@, whole_or_null(seconds))])),
            ),
    {
        let mut url = self.base_url.clone();
        url.append("/me/settings/upload-ttl-seconds");
        let mut members = Members::new();
        members.push("upload_ttl_seconds", Json::whole_or_null(seconds));
        assert(members@ =~= seq![("upload_ttl_seconds"@, whole_or_null(seconds))]);
        with_token(Method::Put, url, token, Body::Json(members.object()))
    }

    /// `GET /me/settings/upload-confirm-enabled`: whether to ask before each
    /// upload (off by default).
    pub fn fetch_upload_confirm(&self, token: &str) -> (asked: Request)
        ensures
            asked@ == sent(
                Method::Get,
                self.base_url@ + "/me/settings/upload-confirm-enabled"@,
                token@,
                BodyView::Empty,
            ),
    {
        let mut url = self.base_url.clone();
        url.append("/me/settings/upload-confirm-enabled");
        with_token(Method::Get, url, token, Body::Empty)
    }

    /// `PUT /me/settings/upload-confirm-enabled`.
    pub fn set_upload_confirm(&self, token: &str, enabled: bool) -> (asked: Request)
        ensures
            asked@ == sent(
                Method::Put,
                self.base_url@ + "/me/settings/upload-confirm-enabled"@,
                token@,
                BodyView::Json(
                    Tree::Object(seq![("upload_confirm_enabled"@, Tree::Bool(enabled))]),
                ),
            ),
    {
        let mut url = self.base_url.clone();
        url.append("/me/settings/upload-confirm-enabled");
        let mut members = Members::new();
        members.push("upload_confirm_enabled", Json::Bool(enabled));
        assert(members@ =~= seq![("upload_confirm_enabled"@, Tree::Bool(enabled))]);
        with_token(Method::Put, url, token, Body::Json(members.object()))
    }

    /// `POST /networks/:slug/channels`: joins one channel, or a
    /// comma-separated list, with an optional key. Grappa answers 202 and the
    /// join itself arrives as channel events.
    pub fn join_channel(
        &self,
        token: &str,
        network_slug: &str,
        name: &str,
        key: Option<&str>,
    ) -> (asked: Result<Request, GrappaClientError>)
        ensures
            planned(asked) == plan(
                Method::Post,
                self.base_url@,
                seq!["networks"@, network_slug@, "channels"@],
                no_pairs(),
                token@,
                BodyView::Json(
                    Tree::Object(
                        seq![("name"@, Tree::Text(name@))] + nonempty_member("key"@, opt_view(key)),
                    ),
                ),
            ),
            whole_address(self.base_url@, asked),
    {
        let segments: Vec<&str> = vec!["networks", network_slug, "channels"];
        assert(views(segments@) =~= seq!["networks"@, network_slug@, "channels"@]);
        let pairs: Vec<(&str, String)> = Vec::new();
        assert(named_views(pairs@) =~= no_pairs());
        let mut members = Members::new();
        members.push_text("name", name);
        push_nonempty(&mut members, "key", key);
        assert(members@ =~= seq![("name"@, Tree::Text(name@))]
            + nonempty_member("key"@, opt_view(key)));
        at_segments(
            Method::Post,
            self.base_url.as_str(),
            &segments,
            &pairs,
            token,
            Body::Json(members.object()),
        )
    }

    /// `POST /networks/:slug/channels/:channel/topic`: sets the topic.
    pub fn set_topic(
        &self,
        token: &str,
        network_slug: &str,
        channel: &str,
        topic: &str,
    ) -> (asked: Result<Request, GrappaClientError>)
        ensures
            planned(asked) == plan(
                Method::Post,
                self.base_url@,
                seq!["networks"@, network_slug@, "channels"@, channel@, "topic"@],
                no_pairs(),
                token@,
                BodyView::Json(Tree::Object(seq![("body"@, Tree::Text(topic@))])),
            ),
            whole_address(self.base_url@, asked),
    {
        let segments: Vec<&str> = vec!["networks", network_slug, "channels", channel, "topic"];
        assert(views(segments@) =~= seq![
            "networks"@,
            network_slug@,
            "channels"@,
            channel@,
            "topic"@,
        ]);
        let pairs: Vec<(&str, String)> = Vec::new();
        assert(named_views(pairs@) =~= no_pairs());
        let mut members = Members::new();
        members.push_text("body", topic);
        assert(members@ =~= seq![("body"@, Tree::Text(topic@))]);
        at_segments(
            Method::Post,
            self.base_url.as_str(),
            &segments,
            &pairs,
            token,
            Body::Json(members.object()),
        )
    }

    /// `POST /networks/:slug/nick`: asks the network for a new nick.
    pub fn change_nick(
        &self,
        token: &str,
        network_slug: &str,
        nick: &str,
    ) -> (asked: Result<Request, GrappaClientError>)
        ensures
            planned(asked) == plan(
                Method::Post,
                self.base_url@,
                seq!["networks"@, network_slug@, "nick"@],
                no_pairs(),
                token@,
                BodyView::Json(Tree::Object(seq![("nick"@, Tree::Text(nick@))])),
            ),
            whole_address(self.base_url@, asked),
    {
        let segments: Vec<&str> = vec!["networks", network_slug, "nick"];
        assert(views(segments@) =~= seq!["networks"@, network_slug@, "nick"@]);
        let pairs: Vec<(&str, String)> = Vec::new();
        assert(named_views(pairs@) =~= no_pairs());
        let mut members = Members::new();
        members.push_text("nick", nick);
        assert(members@ =~= seq![("nick"@, Tree::Text(nick@))]);
        at_segments(
            Method::Post,
            self.base_url.as_str(),
            &segments,
            &pairs,
            token,
            Body::Json(members.object()),
        )
    }

    /// `PATCH /networks/:slug` with `connection_state` `"parked"` or
    /// `"connected"`; a reason goes with a park only.
    pub fn set_connection_state(
        &self,
        token: &str,
        network_slug: &str,
        connection_state: &str,
        reason: Option<&str>,
    ) -> (asked: Result<Request, GrappaClientError>)
        ensures
            planned(asked) == plan(
                Method::Patch,
                self.base_url@,
                seq!["networks"@, network_slug@],
                no_pairs(),
                token@,
                BodyView::Json(
                    Tree::Object(
                        seq![("connection_state"@, Tree::Text(connection_state@))]
                            + nonempty_member(
                                "reason"@,
                                if connection_state@ == "parked"@ {
                                    opt_view(reason)
                                } else {
                                    None
                                },
                            ),
                    ),
                ),
            ),
            whole_address(self.base_url@, asked),
    {
        let segments: Vec<&str> = vec!["networks", network_slug];
        assert(views(segments@) =~= seq!["networks"@, network_slug@]);
        let pairs: Vec<(&str, String)> = Vec::new();
        assert(named_views(pairs@) =~= no_pairs());
        let mut members = Members::new();
        members.push_text("connection_state", connection_state);
        let reason = if same_text(connection_state, "parked") {
            reason
        } else {
            None
        };
        push_nonempty(&mut members, "reason", reason);
        assert(members@ =~= seq![("connection_state"@, Tree::Text(connection_state@))]
            + nonempty_member("reason"@, opt_view(reason)));
        at_segments(
            Method::Patch,
            self.base_url.as_str(),
            &segments,
            &pairs,
            token,
            Body::Json(members.object()),
        )
    }

    /// `POST /networks/:slug/channels/:channel/read-cursor`: marks the window
    /// read up to `message_id` (a query window uses the peer's nick as
    /// `channel`). Grappa answers with the stored cursor (see
    /// [`stored_cursor`]) and broadcasts `read_cursor_set` on the window's
    /// topic.
    pub fn set_read_cursor(
        &self,
        token: &str,
        network_slug: &str,
        channel: &str,
        message_id: i64,
    ) -> (asked: Result<Request, GrappaClientError>)
        ensures
            planned(asked) == plan(
                Method::Post,
                self.base_url@,
                seq!["networks"@, network_slug@, "channels"@, channel@, "read-cursor"@],
                no_pairs(),
                token@,
                BodyView::Json(Tree::Object(seq![("message_id"@, whole(message_id as int))])),
            ),
            whole_address(self.base_url@, asked),
    {
        let segments: Vec<&str> = vec![
            "networks",
            network_slug,
            "channels",
            channel,
            "read-cursor",
        ];
        assert(views(segments@) =~= seq![
            "networks"@,
            network_slug@,
            "channels"@,
            channel@,
            "read-cursor"@,
        ]);
        let pairs: Vec<(&str, String)> = Vec::new();
        assert(named_views(pairs@) =~= no_pairs());
        let mut members = Members::new();
        members.push("message_id", Json::whole(message_id));
        assert(members@ =~= seq![("message_id"@, whole(message_id as int))]);
        at_segments(
            Method::Post,
            self.base_url.as_str(),
            &segments,
            &pairs,
            token,
            Body::Json(members.object()),
        )
    }

    /// `DELETE /networks/:slug/notify/:nick`.
    pub fn remove_notify_nick(
        &self,
        token: &str,
        network_slug: &str,
        nick: &str,
    ) -> (asked: Result<Request, GrappaClientError>)
        ensures
            planned(asked) == plan(
                Method::Delete,
                self.base_url@,
                seq!["networks"@, network_slug@, "notify"@, nick@],
                no_pairs(),
                token@,
                BodyView::Empty,
            ),
            whole_address(self.base_url@, asked),
    {
        let segments: Vec<&str> = vec!["networks", network_slug, "notify", nick];
        assert(views(segments@) =~= seq!["networks"@, network_slug@, "notify"@, nick@]);
        let pairs: Vec<(&str, String)> = Vec::new();
        assert(named_views(pairs@) =~= no_pairs());
        at_segments(Method::Delete, self.base_url.as_str(), &segments, &pairs, token, Body::Empty)
    }
}

fn to_owned_text(text: Option<&str>) -> (owned: Option<String>)
    ensures
        opt(owned) == opt_view(text),
{
    match text {
        Some(text) => Some(text.to_string()),
        None => None,
    }
}

fn nonempty(text: Option<&str>) -> (owned: Option<String>)
    ensures
        opt(owned) == match text {
            Some(text) => unless_empty(text@),
            None => None,
        },
{
    match text {
        Some(text) => if text.is_empty() {
            None
        } else {
            Some(text.to_string())
        },
        None => None,
    }
}

fn signed_digits(n: Option<i64>) -> (text: Option<String>)
    ensures
        opt(text) == opt_digits(
            match n {
                Some(n) => Some(n as int),
                None => None,
            },
        ),
{
    match n {
        Some(n) => Some(signed_decimal_text(n)),
        None => None,
    }
}

fn digits(n: Option<usize>) -> (text: Option<String>)
    ensures
        opt(text) == opt_digits(
            match n {
                Some(n) => Some(n as int),
                None => None,
            },
        ),
{
    match n {
        Some(n) => Some(decimal_text(n as u64)),
        None => None,
    }
}

fn push_pair<'a>(pairs: &mut Vec<(&'a str, String)>, name: &'a str, text: Option<String>)
    ensures
        named_views(final(pairs)@) == named_views(old(pairs)@) + some_pair(name@, opt(text)),
{
    if let Some(text) = text {
        pairs.push((name, text));
    }
    assert(named_views(pairs@) =~= named_views(old(pairs)@) + some_pair(name@, opt(text)));
}

fn push_nonempty(members: &mut Members, name: &str, text: Option<&str>)
    ensures
        final(members)@ == old(members)@ + nonempty_member(name@, opt_view(text)),
{
    if let Some(text) = text {
        if !text.is_empty() {
            members.push_text(name, text);
        }
    }
    assert(members@ =~= old(members)@ + nonempty_member(name@, opt_view(text)));
}

fn upload(
    url: String,
    token: &str,
    filename: &str,
    mime: &str,
    bytes: Vec<u8>,
    expire: Option<i64>,
) -> (request: Request)
    ensures
        request@ == (RequestView {
            method: Method::Post,
            url: url@,
            bearer: Some(token@),
            body: BodyView::File { filename: filename@, mime: mime@, bytes: bytes@, expire },
            timeout: UPLOAD_TIMEOUT,
        }),
{
    let file = FilePart { filename: filename.to_string(), mime: mime.to_string(), bytes, expire };
    Request {
        method: Method::Post,
        url,
        bearer: Some(token.to_string()),
        body: Body::File(file),
        timeout: UPLOAD_TIMEOUT,
    }
}

fn is_no_slash(c: char) -> (other: bool)
    ensures
        other == (c != '/'),
{
    c != '/'
}

/// What the reply to a login means is told by its status: 200 accepts, 202
/// asks for a second factor, 401 finds the credentials wrong, 429 finds the
/// attempts too many, and any other refuses with what the body and the header
/// say.
pub proof fn logins_are_judged_by_their_status(
    status: u16,
    retry_after: Option<Seq<char>>,
    body: Option<Tree>,
)
    ensures
        login_verdict(status, retry_after, body) is Accepted <==> status == 200,
        login_verdict(status, retry_after, body) is TwoFactorRequired <==> status == 202,
        login_verdict(status, retry_after, body) is InvalidCredentials <==> status == 401,
        login_verdict(status, retry_after, body) is TooManyAttempts <==> status == 429,
        login_verdict(status, retry_after, body) matches LoginVerdict::Refused {
            status: told,
            code,
            retry_after: seconds,
        } ==> {
            &&& told == status
            &&& code == match body {
                Some(body) => match member(body, "error"@) {
                    Some(Tree::Text(text)) => Some(text),
                    _ => None,
                },
                None => None,
            }
            &&& retry_after is None ==> seconds is None
        },
{
}

/// The seconds of a refusal are the number in its header, whatever white space
/// stands around it.
pub proof fn the_header_tells_the_seconds(before: Seq<char>, seconds: nat, after: Seq<char>)
    requires
        seconds <= u64::MAX,
        forall|i: int| 0 <= i < before.len() ==> is_space(#[trigger] before[i]),
        forall|i: int| 0 <= i < after.len() ==> is_space(#[trigger] after[i]),
    ensures
        retry_seconds(Some(before + decimal(seconds) + after)) == Some(seconds),
{
    decimal_reads_back(seconds);
    let digits = decimal(seconds);
    assert('0' <= digits[0] <= '9' && '0' <= digits.last() <= '9') by {
        assert(crate::text::is_digit(digits[0]));
        assert(crate::text::is_digit(digits[digits.len() - 1]));
    }
    white_space_is_unicodes(digits[0]);
    white_space_is_unicodes(digits.last());
    trimming_takes_white_space_off(before, digits, after);
    numbers_are_read_from_their_digits(seconds, u64::MAX as nat);
}

/// A path of the server goes behind its address, whatever slashes end that; an
/// address under the server's stays; any other is refused.
pub proof fn files_are_asked_for_under_the_base(
    base: Seq<char>,
    slashes: Seq<char>,
    path: Seq<char>,
)
    requires
        base.len() > 0,
        base.last() != '/',
        base[0] != '/',
        forall|i: int| 0 <= i < slashes.len() ==> #[trigger] slashes[i] == '/',
    ensures
        file_url(base + slashes, seq!['/'] + path) == Some(base + seq!['/'] + path),
        file_url(base + slashes, base + seq!['/'] + path) == Some(base + seq!['/'] + path),
        path.len() > 0 && path[0] != '/' && !(path.len() > base.len() && path.subrange(
            0,
            base.len() as int,
        ) == base && path[base.len() as int] == '/') ==> file_url(base + slashes, path) is None,
{
    let whole = base + slashes;
    let kept = |c: char| c != '/';
    let n = base.len() as int;
    assert(whole[n - 1] == base.last());
    assert forall|i: int| n <= i < whole.len() implies !kept(#[trigger] whole[i]) by {
        assert(whole[i] == slashes[i - n]);
    }
    lemma_end_where_is(whole, kept, n);
    assert(bare_base(whole) =~= base);
    assert(base + (seq!['/'] + path) =~= base + seq!['/'] + path);
    let under = base + seq!['/'] + path;
    assert(under[0] == base[0]);
    assert((base + seq!['/']) =~= under.subrange(0, n + 1));
    if (base + seq!['/']).is_prefix_of(path) {
        assert((base + seq!['/']) =~= path.subrange(0, n + 1));
        assert(path.subrange(0, n) =~= base) by {
            assert(path.subrange(0, n + 1).subrange(0, n) =~= path.subrange(0, n));
            assert((base + seq!['/']).subrange(0, n) =~= base);
        }
        assert(path[n] == (base + seq!['/'])[n]);
    }
}

/// The wallpapers come in the order of their rows; a row gives its key with its
/// name, the key again where it has no name, and nothing without a key.
pub proof fn rows_with_a_key_are_wallpapers(rows: Seq<Tree>, row: Tree)
    ensures
        backgrounds_of(rows.push(row)) == backgrounds_of(rows) + (match member(row, "key"@) {
            Some(Tree::Text(key)) => match member(row, "name"@) {
                Some(Tree::Text(name)) => seq![(key, name)],
                _ => seq![(key, key)],
            },
            _ => Seq::empty(),
        }),
{
    assert(rows.push(row).drop_last() =~= rows);
    let before = backgrounds_of(rows);
    assert(backgrounds_of(rows.push(row)) =~= before + (match member(row, "key"@) {
        Some(Tree::Text(key)) => match member(row, "name"@) {
            Some(Tree::Text(name)) => seq![(key, name)],
            _ => seq![(key, key)],
        },
        _ => Seq::empty(),
    }));
}

/// A request carries the token that it was planned with, and goes out with its
/// method, its body and the ordinary time limit; a text that may be missing or
/// empty is only sent where it says something.
pub proof fn requests_carry_what_they_were_planned_with(
    method: Method,
    url: Seq<char>,
    token: Seq<char>,
    body: BodyView,
    name: Seq<char>,
    text: Seq<char>,
)
    ensures
        sent(method, url, token, body) == (RequestView {
            method,
            url,
            bearer: Some(token),
            body,
            timeout: 30,
        }),
        text.len() > 0 ==> nonempty_member(name, Some(text)) == seq![(name, Tree::Text(text))],
        nonempty_member(name, Some(Seq::empty())) == Seq::<(Seq<char>, Tree)>::empty(),
        nonempty_member(name, None) == Seq::<(Seq<char>, Tree)>::empty(),
        some_pair(name, Some(text)) == seq![(name, text)],
        some_pair(name, None) == Seq::<(Seq<char>, Seq<char>)>::empty(),
{
}

/// Connecting may take ten seconds, a request thirty and an upload ten minutes.
pub proof fn uploads_may_take_longest()
    ensures
        CONNECT_TIMEOUT == 10,
        REQUEST_TIMEOUT == 3 * CONNECT_TIMEOUT,
        UPLOAD_TIMEOUT == 20 * REQUEST_TIMEOUT,
{
}

/// A request says what it holds.
pub proof fn a_request_says_what_it_holds(request: Request)
    ensures
        request@.method == request.method,
        request@.url == request.url@,
        request@.timeout == request.timeout,
        request.bearer matches Some(token) ==> request@.bearer == Some(token@),
        request.bearer is None ==> request@.bearer is None,
        request.body is Empty ==> request@.body is Empty,
        request.body matches Body::Json(json) ==> request@.body == BodyView::Json(json@),
        request.body matches Body::File(file) ==> request@.body == (BodyView::File {
            filename: file.filename@,
            mime: file.mime@,
            bytes: file.bytes@,
            expire: file.expire,
        }),
{
}

} // verus!
