//! Typed payloads for the Grappa REST endpoints. These are data shapes only:
//! no transport lives here. Fields that the protocol does not document are
//! kept as opaque JSON rather than guessed at.

use vstd::prelude::*;

use crate::decimal::{decimal_reads_back, decimal_text, signed_decimal, signed_decimal_text};
use crate::json::{
    flag_member, text_member, Json, Members, Num, Number, Tree,
};
use crate::split::same_text;
use crate::text::opt;
use crate::text_map::TextMap;

verus! {

/// Response body of `GET /api/config`, the first, unauthenticated call a
/// client makes.
#[derive(Debug, Clone, PartialEq)]
pub struct ConfigResponse {
    pub server: String,
    /// Diagnostic only: never use this for compatibility decisions, use
    /// `protocol_version` and `min_protocol_version` instead.
    pub version: String,
    pub protocol_version: u32,
    pub min_protocol_version: u32,
    /// A missing value means "too old for encrypted push", not a decoding
    /// failure.
    pub push_content_encoding: Option<String>,
}

/// Request body of `POST /auth/login`.
///
/// `password` carries either an actual password or a per-client token: both
/// travel on the same wire field. The bearer returned by Grappa after a
/// successful login is a separate credential and must be sent directly as
/// `Authorization: Bearer`, never placed in this request field. An empty
/// `password` is left out of the body: that's a guest sign-in under the
/// `identifier` nickname.
#[derive(Debug, Clone, PartialEq, Eq)]
pub struct LoginRequest {
    pub identifier: String,
    pub password: String,
}

/// The body that a sign-in is sent with.
pub open spec fn login_body(identifier: Seq<char>, password: Seq<char>) -> Tree {
    Tree::Object(
        seq![("identifier"@, Tree::Text(identifier))] + text_member(
            "password"@,
            if password.len() == 0 {
                None
            } else {
                Some(password)
            },
        ),
    )
}

impl LoginRequest {
    pub fn to_json(&self) -> (json: Json)
        ensures
            json@ == login_body(self.identifier@, self.password@),
    {
        let mut members = Members::new();
        members.push_text("identifier", self.identifier.as_str());
        if !self.password.as_str().is_empty() {
            members.push_text("password", self.password.as_str());
        }
        assert(members@ =~= login_body(self.identifier@, self.password@)->Object_0);
        members.object()
    }
}

/// A guest signs in with the nickname alone: no password is sent.
pub proof fn a_guest_sends_no_password(identifier: Seq<char>)
    ensures
        login_body(identifier, Seq::empty()) == Tree::Object(
            seq![("identifier"@, Tree::Text(identifier))],
        ),
{
    assert(login_body(identifier, Seq::empty())->Object_0 =~= seq![
        ("identifier"@, Tree::Text(identifier)),
    ]);
}

/// Successful (`200`) response body of `POST /auth/login`. The shape of
/// `subject` isn't documented.
#[derive(Debug, Clone, PartialEq)]
pub struct LoginResponse {
    pub token: String,
    pub subject: Json,
}

/// Response body of `GET /boot`, the cold-start aggregate endpoint. Each entry
/// is kept as opaque JSON.
#[derive(Debug, Clone)]
pub struct BootResponse {
    pub networks: Vec<Json>,
    /// By network slug; only present for a network the account owns.
    pub channels: TextMap<Vec<Json>>,
    /// By network slug, then channel; only present for a channel that
    /// actually has history.
    pub heads: TextMap<TextMap<Vec<Json>>>,
}

/// Response body of `GET /me`: read cursors, unread counts and badge count
/// in bulk, plus admin status.
#[derive(Debug, Clone)]
pub struct MeResponse {
    pub read_cursors: Json,
    pub unread_counts: Json,
    pub badge_count: Json,
    pub is_admin: bool,
    /// `"user"` or `"visitor"`.
    pub kind: Option<String>,
    /// The subject id: a visitor's is the stable key of its topics.
    pub id: Option<Json>,
    /// The account name, for a user subject.
    pub name: Option<String>,
}

/// What a number reads as.
pub open spec fn number_text(number: Num) -> Seq<char> {
    match number {
        Num::Whole(n) => signed_decimal(n),
        Num::Other(text) => text,
    }
}

/// The text of an id, which may be written as a text or a number.
pub open spec fn id_text(id: Option<Tree>) -> Seq<char> {
    match id {
        Some(Tree::Text(text)) => text,
        Some(Tree::Number(number)) => number_text(number),
        _ => Seq::empty(),
    }
}

/// The label that realtime topics are built from: the account name for a
/// user, `visitor:` and the id for a visitor.
pub open spec fn topic_label_of(
    kind: Option<Seq<char>>,
    id: Option<Tree>,
    name: Option<Seq<char>>,
) -> Option<Seq<char>> {
    if kind == Some("user"@) {
        if name is Some && name->0.len() > 0 {
            name
        } else {
            None
        }
    } else if kind == Some("visitor"@) {
        if id_text(id).len() > 0 {
            Some("visitor:"@ + id_text(id))
        } else {
            None
        }
    } else {
        None
    }
}

pub open spec fn opt_json(json: Option<Json>) -> Option<Tree> {
    match json {
        Some(json) => Some(json@),
        None => None,
    }
}

fn number_string(number: &Number) -> (text: String)
    ensures
        text@ == number_text(number@),
{
    match number {
        Number::Unsigned(n) => decimal_text(*n),
        Number::Negative(n) => signed_decimal_text(*n),
        Number::Other(text) => text.clone(),
    }
}

impl MeResponse {
    /// The label Grappa builds the subject's realtime topics from
    /// (`grappa:user:<label>/...`): the account name as stored for a user,
    /// `visitor:<id>` for a visitor. `None` when `/me` doesn't say.
    pub fn topic_label(&self) -> (label: Option<String>)
        ensures
            opt(label) == topic_label_of(opt(self.kind), opt_json(self.id), opt(self.name)),
    {
        let kind = match &self.kind {
            Some(kind) => kind.as_str(),
            None => {
                return None;
            },
        };
        if same_text(kind, "user") {
            match &self.name {
                Some(name) => if name.as_str().is_empty() {
                    None
                } else {
                    Some(name.clone())
                },
                None => None,
            }
        } else if same_text(kind, "visitor") {
            let id = match &self.id {
                Some(Json::Text(id)) => id.clone(),
                Some(Json::Number(number)) => number_string(number),
                _ => {
                    return None;
                },
            };
            if id.as_str().is_empty() {
                return None;
            }
            let mut label = String::new();
            label.append("visitor:");
            label.append(id.as_str());
            assert(label@ =~= "visitor:"@ + id@);
            Some(label)
        } else {
            None
        }
    }
}

/// Request body of `POST /networks/:network_id/channels/:channel_id/messages`.
///
/// `ctcp_target` and `notice_target` are mutually exclusive; `statusmsg_target`
/// is a third relay kind.
#[derive(Debug, Clone, PartialEq, Eq)]
pub struct SendMessageRequest {
    pub body: String,
    pub ctcp_target: Option<String>,
    pub notice_target: Option<String>,
    pub statusmsg_target: Option<String>,
}

/// What a [`SendMessageRequest`] says.
pub struct MessageView {
    pub body: Seq<char>,
    pub ctcp_target: Option<Seq<char>>,
    pub notice_target: Option<Seq<char>>,
    pub statusmsg_target: Option<Seq<char>>,
}

impl View for SendMessageRequest {
    type V = MessageView;

    open spec fn view(&self) -> MessageView {
        MessageView {
            body: self.body@,
            ctcp_target: opt(self.ctcp_target),
            notice_target: opt(self.notice_target),
            statusmsg_target: opt(self.statusmsg_target),
        }
    }
}

/// The text of a CTCP query.
pub open spec fn ctcp_text(verb: Seq<char>, args: Option<Seq<char>>) -> Seq<char> {
    match args {
        Some(args) => seq!['\u{1}'] + verb + seq![' '] + args + seq!['\u{1}'],
        None => seq!['\u{1}'] + verb + seq!['\u{1}'],
    }
}

/// The body that a message is sent with: targets that are not set are left
/// out.
pub open spec fn message_body(message: MessageView) -> Tree {
    Tree::Object(
        seq![("body"@, Tree::Text(message.body))] + text_member(
            "ctcp_target"@,
            message.ctcp_target,
        ) + text_member("notice_target"@, message.notice_target) + text_member(
            "statusmsg_target"@,
            message.statusmsg_target,
        ),
    )
}

impl SendMessageRequest {
    /// A plain message, no CTCP/notice/statusmsg relay.
    pub fn plain(body: &str) -> (request: Self)
        ensures
            request@ == (MessageView {
                body: body@,
                ctcp_target: None,
                notice_target: None,
                statusmsg_target: None,
            }),
    {
        SendMessageRequest {
            body: body.to_string(),
            ctcp_target: None,
            notice_target: None,
            statusmsg_target: None,
        }
    }

    /// A CTCP query (`VERSION`, `TIME`, `PING`, ...) to `target`: the CTCP
    /// framing goes in `body` like any other message, with `ctcp_target`
    /// naming who it's actually for.
    pub fn ctcp(target: &str, verb: &str, args: Option<&str>) -> (request: Self)
        ensures
            request@ == (MessageView {
                body: ctcp_text(
                    verb@,
                    match args {
                        Some(args) => Some(args@),
                        None => None,
                    },
                ),
                ctcp_target: Some(target@),
                notice_target: None,
                statusmsg_target: None,
            }),
    {
        let mut body = String::new();
        body.push('\u{1}');
        body.append(verb);
        match args {
            Some(args) => {
                body.push(' ');
                body.append(args);
                body.push('\u{1}');
                assert(body@ =~= ctcp_text(verb@, Some(args@)));
            },
            None => {
                body.push('\u{1}');
                assert(body@ =~= ctcp_text(verb@, None));
            },
        }
        SendMessageRequest {
            body,
            ctcp_target: Some(target.to_string()),
            notice_target: None,
            statusmsg_target: None,
        }
    }

    pub fn to_json(&self) -> (json: Json)
        ensures
            json@ == message_body(self@),
    {
        let mut members = Members::new();
        members.push_text("body", self.body.as_str());
        members.push_some_text("ctcp_target", &self.ctcp_target);
        members.push_some_text("notice_target", &self.notice_target);
        members.push_some_text("statusmsg_target", &self.statusmsg_target);
        assert(members@ =~= message_body(self@)->Object_0);
        members.object()
    }
}

/// Body of `GET`/`PUT /me/settings/display-prefs`: absent-tolerant in both
/// directions (a `GET` response may omit any of them, and a `PUT` only needs
/// to carry the ones being changed). Only the boolean preferences that are
/// read and written here.
#[derive(Debug, Clone, Copy, PartialEq, Eq, Structural)]
pub struct DisplayPrefs {
    pub colored_nicklist: Option<bool>,
    pub show_bottom_bar: Option<bool>,
    pub strip_formatting: Option<bool>,
    pub show_event_badge: Option<bool>,
    pub bold_mentions: Option<bool>,
}

impl Default for DisplayPrefs {
    fn default() -> (prefs: Self)
        ensures
            prefs == (DisplayPrefs {
                colored_nicklist: None,
                show_bottom_bar: None,
                strip_formatting: None,
                show_event_badge: None,
                bold_mentions: None,
            }),
    {
        DisplayPrefs {
            colored_nicklist: None,
            show_bottom_bar: None,
            strip_formatting: None,
            show_event_badge: None,
            bold_mentions: None,
        }
    }
}

/// The members of the preferences that are set.
pub open spec fn prefs_members(prefs: DisplayPrefs) -> Seq<(Seq<char>, Tree)> {
    flag_member("colored_nicklist"@, prefs.colored_nicklist) + flag_member(
        "show_bottom_bar"@,
        prefs.show_bottom_bar,
    ) + flag_member("strip_formatting"@, prefs.strip_formatting) + flag_member(
        "show_event_badge"@,
        prefs.show_event_badge,
    ) + flag_member("bold_mentions"@, prefs.bold_mentions)
}

impl DisplayPrefs {
    pub fn members(&self) -> (members: Members)
        ensures
            members@ == prefs_members(*self),
    {
        let mut members = Members::new();
        members.push_some_flag("colored_nicklist", self.colored_nicklist);
        members.push_some_flag("show_bottom_bar", self.show_bottom_bar);
        members.push_some_flag("strip_formatting", self.strip_formatting);
        members.push_some_flag("show_event_badge", self.show_event_badge);
        members.push_some_flag("bold_mentions", self.bold_mentions);
        assert(members@ =~= prefs_members(*self));
        members
    }

    /// The preferences that are set; those that are not are left out.
    pub fn to_json(&self) -> (json: Json)
        ensures
            json@ == Tree::Object(prefs_members(*self)),
    {
        self.members().object()
    }
}

/// One channel of `GET /networks/:slug/directory`, as captured from the
/// ircd's `LIST` reply.
#[derive(Debug, Clone, PartialEq, Eq)]
pub struct DirectoryEntry {
    pub name: String,
    pub topic: Option<String>,
    pub user_count: i64,
    pub featured: bool,
}

/// Response body of `GET /networks/:slug/directory`: one keyset page of the
/// last completed `LIST` snapshot. `status` stays the raw wire token so an
/// additive value doesn't fail the whole page.
#[derive(Debug, Clone, PartialEq, Eq)]
pub struct DirectoryPage {
    pub entries: Vec<DirectoryEntry>,
    pub next_cursor: Option<String>,
    pub total: u64,
    pub captured_at: Option<String>,
    pub status: String,
}

/// One archived window of `GET /networks/:slug/archive`: a channel or query
/// target that still has scrollback but is no longer joined or open.
#[derive(Debug, Clone, PartialEq, Eq)]
pub struct ArchiveEntry {
    pub target: String,
    pub kind: String,
    /// The newest message's `server_time` in epoch milliseconds.
    pub last_activity: i64,
}

/// Response body of `GET /networks/:slug/archive`, newest activity first.
#[derive(Debug, Clone, PartialEq, Eq)]
pub struct ArchiveResponse {
    pub archive: Vec<ArchiveEntry>,
}

/// Response body of `POST /api/uploads` (201): the public URL carries the
/// file extension (`/uploads/<slug>.<ext>`).
#[derive(Debug, Clone, PartialEq, Eq)]
pub struct UploadResponse {
    pub slug: String,
    pub url: String,
    pub expires_at: String,
}

/// One theme of `GET /themes` or `GET /me/theme`. Only the fields that are
/// used are read.
#[derive(Debug, Clone, PartialEq, Eq)]
pub struct ThemeWire {
    pub id: i64,
    pub name: String,
    pub author: String,
    pub built_in: bool,
    /// Whether the viewer owns it (and so may edit, delete or publish it).
    pub mine: bool,
    pub published: bool,
    pub payload: ThemePayloadWire,
}

/// The token payload of a theme.
#[derive(Debug, Clone, PartialEq, Eq)]
pub struct ThemePayloadWire {
    pub colors: TextMap<String>,
    pub font_family: String,
    pub background: Option<ThemeBackgroundWire>,
}

/// A theme's wallpaper: an uploaded image (`image_id`, served at
/// `/uploads/<id>`) or a built-in one (`builtin`, served at
/// `/backgrounds/<key>.webp`), drawn full-bleed (`size: "cover"`) or tiled
/// (`"repeat"`) at `opacity` (0 to 1).
#[derive(Debug, Clone, PartialEq, Eq)]
pub struct ThemeBackgroundWire {
    pub image_id: Option<String>,
    pub builtin: Option<String>,
    pub size: Option<String>,
    pub opacity: Option<Number>,
}

/// Response body of `GET /themes`: the public gallery.
#[derive(Debug, Clone, PartialEq, Eq)]
pub struct ThemeIndex {
    pub themes: Vec<ThemeWire>,
}

/// Response body of `GET`/`PUT /me/theme`: the active day/night pair. A
/// `null` dark slot means the light theme applies in both modes.
#[derive(Debug, Clone, PartialEq, Eq)]
pub struct ActiveThemePair {
    pub light: Option<ThemeWire>,
    pub dark: Option<ThemeWire>,
}

/// What a message is sent with: its text, and the target under the name of
/// its kind.
pub proof fn a_message_names_its_target(body: Seq<char>, target: Seq<char>)
    ensures
        message_body(
            MessageView { body, ctcp_target: None, notice_target: None, statusmsg_target: None },
        ) == Tree::Object(seq![("body"@, Tree::Text(body))]),
        message_body(
            MessageView {
                body,
                ctcp_target: Some(target),
                notice_target: None,
                statusmsg_target: None,
            },
        ) == Tree::Object(
            seq![("body"@, Tree::Text(body)), ("ctcp_target"@, Tree::Text(target))],
        ),
        message_body(
            MessageView {
                body,
                ctcp_target: None,
                notice_target: Some(target),
                statusmsg_target: None,
            },
        ) == Tree::Object(
            seq![("body"@, Tree::Text(body)), ("notice_target"@, Tree::Text(target))],
        ),
        message_body(
            MessageView {
                body,
                ctcp_target: None,
                notice_target: None,
                statusmsg_target: Some(target),
            },
        ) == Tree::Object(
            seq![("body"@, Tree::Text(body)), ("statusmsg_target"@, Tree::Text(target))],
        ),
{
    let plain = MessageView {
        body,
        ctcp_target: None,
        notice_target: None,
        statusmsg_target: None,
    };
    let ctcp = MessageView { ctcp_target: Some(target), ..plain };
    let notice = MessageView { notice_target: Some(target), ..plain };
    let status = MessageView { statusmsg_target: Some(target), ..plain };
    assert(message_body(plain)->Object_0 =~= seq![("body"@, Tree::Text(body))]);
    assert(message_body(ctcp)->Object_0 =~= seq![
        ("body"@, Tree::Text(body)),
        ("ctcp_target"@, Tree::Text(target)),
    ]);
    assert(message_body(notice)->Object_0 =~= seq![
        ("body"@, Tree::Text(body)),
        ("notice_target"@, Tree::Text(target)),
    ]);
    assert(message_body(status)->Object_0 =~= seq![
        ("body"@, Tree::Text(body)),
        ("statusmsg_target"@, Tree::Text(target)),
    ]);
}

/// A sign-in with a password sends both, each under its name.
pub proof fn a_sign_in_sends_name_and_password(identifier: Seq<char>, password: Seq<char>)
    requires
        password.len() > 0,
    ensures
        login_body(identifier, password) == Tree::Object(
            seq![("identifier"@, Tree::Text(identifier)), ("password"@, Tree::Text(password))],
        ),
{
    assert(login_body(identifier, password)->Object_0 =~= seq![
        ("identifier"@, Tree::Text(identifier)),
        ("password"@, Tree::Text(password)),
    ]);
}

/// A CTCP query stands between two control characters, a space before its
/// arguments.
pub proof fn a_query_stands_between_control_characters(verb: Seq<char>, args: Seq<char>)
    ensures
        ({
            let bare = ctcp_text(verb, None);
            &&& bare.len() == verb.len() + 2
            &&& bare[0] == '\u{1}' && bare.last() == '\u{1}'
            &&& bare.subrange(1, 1 + verb.len() as int) == verb
        }),
        ({
            let full = ctcp_text(verb, Some(args));
            let n = verb.len() as int;
            &&& full.len() == n + args.len() + 3
            &&& full[0] == '\u{1}' && full.last() == '\u{1}'
            &&& full.subrange(1, 1 + n) == verb
            &&& full[n + 1] == ' '
            &&& full.subrange(n + 2, n + 2 + args.len()) == args
        }),
{
    let n = verb.len() as int;
    assert(ctcp_text(verb, None).subrange(1, 1 + n) =~= verb);
    assert(ctcp_text(verb, Some(args)).subrange(1, 1 + n) =~= verb);
    assert(ctcp_text(verb, Some(args)).subrange(n + 2, n + 2 + args.len()) =~= args);
}

/// The topics of a user are built from the name, those of a visitor from the
/// id, be it a text or a number; where that is missing or empty, or the kind
/// is another, there are none.
pub proof fn topics_are_built_from_name_or_id(
    name: Seq<char>,
    id: Seq<char>,
    n: int,
    other: Option<Tree>,
)
    requires
        name.len() > 0,
        id.len() > 0,
    ensures
        topic_label_of(Some("user"@), other, Some(name)) == Some(name),
        topic_label_of(Some("user"@), other, None) is None,
        topic_label_of(Some("user"@), other, Some(Seq::empty())) is None,
        topic_label_of(Some("visitor"@), Some(Tree::Text(id)), Some(name)) == Some(
            "visitor:"@ + id,
        ),
        topic_label_of(Some("visitor"@), Some(Tree::Number(Num::Whole(n))), None) == Some(
            "visitor:"@ + signed_decimal(n),
        ),
        topic_label_of(Some("visitor"@), None, Some(name)) is None,
        topic_label_of(Some("visitor"@), Some(Tree::Text(Seq::empty())), Some(name)) is None,
        topic_label_of(None, other, Some(name)) is None,
{
    reveal_strlit("user");
    reveal_strlit("visitor");
    assert("user"@.len() == 4 && "visitor"@.len() == 7);
    assert("user"@ != "visitor"@);
    if n < 0 {
        decimal_reads_back((-n) as nat);
    } else {
        decimal_reads_back(n as nat);
    }
}

/// Each preference that is set is sent under its name, and nothing else is.
pub proof fn preferences_are_sent_under_their_names(on: bool)
    ensures
        ({
            let none = DisplayPrefs {
                colored_nicklist: None,
                show_bottom_bar: None,
                strip_formatting: None,
                show_event_badge: None,
                bold_mentions: None,
            };
            let flag = Tree::Bool(on);
            &&& prefs_members(none) == Seq::<(Seq<char>, Tree)>::empty()
            &&& prefs_members(DisplayPrefs { colored_nicklist: Some(on), ..none }) == seq![
                ("colored_nicklist"@, flag),
            ]
            &&& prefs_members(DisplayPrefs { show_bottom_bar: Some(on), ..none }) == seq![
                ("show_bottom_bar"@, flag),
            ]
            &&& prefs_members(DisplayPrefs { strip_formatting: Some(on), ..none }) == seq![
                ("strip_formatting"@, flag),
            ]
            &&& prefs_members(DisplayPrefs { show_event_badge: Some(on), ..none }) == seq![
                ("show_event_badge"@, flag),
            ]
            &&& prefs_members(DisplayPrefs { bold_mentions: Some(on), ..none }) == seq![
                ("bold_mentions"@, flag),
            ]
        }),
{
    let none = DisplayPrefs {
        colored_nicklist: None,
        show_bottom_bar: None,
        strip_formatting: None,
        show_event_badge: None,
        bold_mentions: None,
    };
    let flag = Tree::Bool(on);
    assert(prefs_members(none) =~= Seq::empty());
    assert(prefs_members(DisplayPrefs { colored_nicklist: Some(on), ..none }) =~= seq![
        ("colored_nicklist"@, flag),
    ]);
    assert(prefs_members(DisplayPrefs { show_bottom_bar: Some(on), ..none }) =~= seq![
        ("show_bottom_bar"@, flag),
    ]);
    assert(prefs_members(DisplayPrefs { strip_formatting: Some(on), ..none }) =~= seq![
        ("strip_formatting"@, flag),
    ]);
    assert(prefs_members(DisplayPrefs { show_event_badge: Some(on), ..none }) =~= seq![
        ("show_event_badge"@, flag),
    ]);
    assert(prefs_members(DisplayPrefs { bold_mentions: Some(on), ..none }) =~= seq![
        ("bold_mentions"@, flag),
    ]);
}

} // verus!
