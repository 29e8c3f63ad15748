//! The part of Grappa's `/admin/*` surface that is used.
//!
//! Every entry (session, user, network, visitor) is kept as opaque JSON: what
//! is needed is read out of it defensively, and an unexpected shape is never
//! an error.

use vstd::prelude::*;

use crate::decimal::{
    decimal, decimal_reads_back, digit_char, numbers_are_read_from_their_digits, parse_unsigned,
    push_decimal, read_unsigned, signed_decimal, signed_decimal_text,
};
use crate::json::{
    as_flag, as_signed, as_text, member, member_of, Json, Num, Number, Tree,
};
use crate::text::{
    chars_of, is_digit, is_space, lemma_trim_is, opt, trim, trimmed, trimming_takes_white_space_off,
    white_space_is_unicodes,
};

verus! {

/// Response body of `GET /admin/overview`.
#[derive(Debug, Clone)]
pub struct AdminOverview {
    pub sessions: i64,
    pub visitors: AdminVisitorsSummary,
    pub hostname: String,
    /// The load average as it is written.
    pub loadavg: Option<Number>,
    pub version: String,
}

#[derive(Debug, Clone, Copy, PartialEq, Eq, Structural)]
pub struct AdminVisitorsSummary {
    pub total: i64,
    pub live: i64,
}

/// Response body of `GET /admin/sessions`.
#[derive(Debug, Clone)]
pub struct AdminSessionsResponse {
    pub sessions: Vec<Json>,
}

/// Response body of `GET /admin/users`.
#[derive(Debug, Clone)]
pub struct AdminUsersResponse {
    pub users: Vec<Json>,
}

/// Response body of `GET /admin/networks`.
#[derive(Debug, Clone)]
pub struct AdminNetworksResponse {
    pub networks: Vec<Json>,
}

/// Response body of `GET /admin/visitors`.
#[derive(Debug, Clone)]
pub struct AdminVisitorsResponse {
    pub visitors: Vec<Json>,
}

/// Response body of `GET /admin/session_log` and
/// `GET /admin/session_log/sessions`.
#[derive(Debug, Clone)]
pub struct AdminSessionLogResponse {
    pub session_log: Vec<Json>,
}

/// Response body of `POST /admin/reaper/run`.
#[derive(Debug, Clone)]
pub struct AdminReaperRunResponse {
    pub swept_count: i64,
    pub swept_at: Option<String>,
}

/// Phoenix topic of Grappa's live admin feed (admins with a full web
/// session only): a `snapshot` of recent events on join, then one push per
/// event, `session_log_event`s and periodic `overview` pushes.
pub const ADMIN_EVENTS_TOPIC: &'static str = "grappa:admin:events";

/// The text of a field.
pub open spec fn text_field(entry: Tree, name: Seq<char>) -> Option<Seq<char>> {
    as_text(member(entry, name))
}

/// The text of a field, or another in its place.
pub open spec fn text_or(entry: Tree, name: Seq<char>, other: Seq<char>) -> Seq<char> {
    match text_field(entry, name) {
        Some(text) => text,
        None => other,
    }
}

/// Whether a field is the flag `true`.
pub open spec fn is_set(entry: Tree, name: Seq<char>) -> bool {
    as_flag(member(entry, name)) == Some(true)
}

/// An id, which may be written as a text or a whole number.
pub open spec fn id_field(entry: Tree, name: Seq<char>) -> Option<Seq<char>> {
    match member(entry, name) {
        Some(Tree::Text(text)) => Some(text),
        id => match as_signed(id) {
            Some(n) => Some(signed_decimal(n)),
            None => None,
        },
    }
}

/// `subject_label` if present, else `subject_kind:subject_id`.
pub open spec fn session_label(entry: Tree) -> Seq<char> {
    match text_field(entry, "subject_label"@) {
        Some(label) => label,
        None => text_or(entry, "subject_kind"@, "session"@) + seq![':'] + text_or(
            entry,
            "subject_id"@,
            "?"@,
        ),
    }
}

/// `<kind>:<id>:<network id>`, where all three are there.
pub open spec fn session_id(entry: Tree) -> Option<Seq<char>> {
    match (
        text_field(entry, "subject_kind"@),
        text_field(entry, "subject_id"@),
        id_field(entry, "network_id"@),
    ) {
        (Some(kind), Some(id), Some(network)) => Some(
            kind + seq![':'] + id + seq![':'] + network,
        ),
        _ => None,
    }
}

/// A cap as text; empty for unlimited.
pub open spec fn cap_text(entry: Tree, name: Seq<char>) -> Seq<char> {
    match as_signed(member(entry, name)) {
        Some(n) => signed_decimal(n),
        None => Seq::empty(),
    }
}

/// The circuit's state, with the live counts where both are there.
pub open spec fn network_status(entry: Tree) -> Seq<char> {
    let circuit = as_text(member_of(member(entry, "circuit_state"@), "state"@));
    let users = as_signed(member_of(member(entry, "live_counts"@), "users"@));
    let visitors = as_signed(member_of(member(entry, "live_counts"@), "visitors"@));
    match circuit {
        Some(circuit) => match (users, visitors) {
            (Some(users), Some(visitors)) => " ("@ + circuit + ", "@ + signed_decimal(users)
                + " user(s), "@ + signed_decimal(visitors) + " visitor(s))"@,
            _ => " ("@ + circuit + ")"@,
        },
        None => Seq::empty(),
    }
}

pub open spec fn visitor_label(entry: Tree) -> Seq<char> {
    let id = text_or(entry, "id"@, "?"@);
    let ip = text_or(entry, "ip"@, Seq::empty());
    if ip.len() == 0 {
        id
    } else {
        id + " ("@ + ip + ")"@
    }
}

/// Whom a log line is about: the nick, or the kind of subject.
pub open spec fn log_nick(entry: Tree) -> Seq<char> {
    match text_field(entry, "nick"@) {
        Some(nick) => nick,
        None => text_or(entry, "subject_kind"@, "?"@),
    }
}

pub open spec fn session_log_line(entry: Tree) -> Seq<char> {
    let network = text_or(entry, "network_slug"@, Seq::empty());
    let line = text_or(entry, "at"@, Seq::empty()) + " · "@ + text_or(entry, "event"@, "?"@)
        + " · "@ + log_nick(entry);
    if network.len() == 0 {
        line
    } else {
        line + seq!['@'] + network
    }
}

pub open spec fn server_label(entry: Tree) -> Seq<char> {
    let port = match as_signed(member(entry, "port"@)) {
        Some(port) => port,
        None => 0,
    };
    let label = text_or(entry, "host"@, "?"@) + seq![':'] + signed_decimal(port);
    let label = if as_flag(member(entry, "tls"@)) == Some(true) {
        label + " · TLS"@
    } else {
        label
    };
    if as_flag(member(entry, "enabled"@)) == Some(false) {
        label + " · off"@
    } else {
        label
    }
}

/// What an audit event is about: the first of these fields that it has.
pub open spec fn event_subject(entry: Tree) -> Seq<char> {
    match text_field(entry, "user_name"@) {
        Some(text) => text,
        None => match text_field(entry, "network_slug"@) {
            Some(text) => text,
            None => match text_field(entry, "visitor_nick"@) {
                Some(text) => text,
                None => match text_field(entry, "source_ip"@) {
                    Some(text) => text,
                    None => text_or(entry, "subject_kind"@, Seq::empty()),
                },
            },
        },
    }
}

pub open spec fn event_line(entry: Tree) -> Seq<char> {
    let subject = event_subject(entry);
    let line = text_or(entry, "at"@, Seq::empty()) + " · "@ + text_or(entry, "kind"@, "?"@);
    let line = if subject.len() == 0 {
        line
    } else {
        line + " · "@ + subject
    };
    let line = match (text_field(entry, "host"@), as_signed(member(entry, "port"@))) {
        (Some(host), Some(port)) => line + " · "@ + host + seq![':'] + signed_decimal(port),
        _ => line,
    };
    match text_field(entry, "actor_user_name"@) {
        Some(actor) => line + " · by "@ + actor,
        None => line,
    }
}

fn text_of_or<'a>(entry: &'a Json, name: &str, other: &'a str) -> (text: &'a str)
    ensures
        text@ == text_or(entry@, name@, other@),
{
    match entry.text_of(name) {
        Some(text) => text,
        None => other,
    }
}

fn read_id(entry: &Json, name: &str) -> (id: Option<String>)
    ensures
        opt(id) == id_field(entry@, name@),
{
    match entry.get(name) {
        Some(json) => match json {
            Json::Text(text) => Some(text.clone()),
            _ => match json.as_i64() {
                Some(n) => Some(signed_decimal_text(n)),
                None => None,
            },
        },
        None => None,
    }
}

/// Reads a human-readable label out of one opaque session entry:
/// `subject_label` if present, else `subject_kind:subject_id`, else a
/// placeholder.
pub fn admin_session_label(entry: &Json) -> (label: String)
    ensures
        label@ == session_label(entry@),
{
    if let Some(label) = entry.text_of("subject_label") {
        return label.to_string();
    }
    let mut label = String::new();
    label.append(text_of_or(entry, "subject_kind", "session"));
    label.push(':');
    label.append(text_of_or(entry, "subject_id", "?"));
    assert(label@ =~= session_label(entry@));
    label
}

/// Reads the `sessions/:id` path segment for a disconnect or reconnect call
/// out of one opaque session entry: `"<user|visitor>:<uuid>:<network_id>"`,
/// built from `subject_kind`, `subject_id` and `network_id`.
pub fn admin_session_id(entry: &Json) -> (id: Option<String>)
    ensures
        opt(id) == session_id(entry@),
{
    let kind = entry.text_of("subject_kind")?;
    let id = entry.text_of("subject_id")?;
    let network = read_id(entry, "network_id")?;
    let mut text = String::new();
    text.append(kind);
    text.push(':');
    text.append(id);
    text.push(':');
    text.append(network.as_str());
    assert(text@ =~= kind@ + seq![':'] + id@ + seq![':'] + network@);
    Some(text)
}

/// Whether the session's `live_state` reports an alive process: `false`
/// for a `null` `live_state` too (the database still lists the session but
/// no live process backs it).
pub fn admin_session_is_alive(entry: &Json) -> (alive: bool)
    ensures
        alive == (as_flag(member_of(member(entry@, "live_state"@), "alive"@)) == Some(true)),
{
    match entry.get("live_state") {
        Some(state) => state.bool_of("alive") == Some(true),
        None => false,
    }
}

/// Reads a display name out of one opaque user entry.
pub fn admin_user_label(entry: &Json) -> (label: String)
    ensures
        label@ == text_or(entry@, "name"@, "(unknown)"@),
{
    text_of_or(entry, "name", "(unknown)").to_string()
}

pub fn admin_user_is_admin(entry: &Json) -> (admin: bool)
    ensures
        admin == is_set(entry@, "is_admin"@),
{
    entry.bool_of("is_admin") == Some(true)
}

/// Reads the `:id` path segment for `PATCH`/`DELETE /admin/users/:id` out
/// of one opaque user entry.
pub fn admin_user_id(entry: &Json) -> (id: Option<String>)
    ensures
        opt(id) == id_field(entry@, "id"@),
{
    read_id(entry, "id")
}

/// Reads the `:network_id` path segment for
/// `POST /admin/circuit/:network_id/reset` out of one opaque network entry.
pub fn admin_network_id(entry: &Json) -> (id: Option<String>)
    ensures
        opt(id) == id_field(entry@, "id"@),
{
    read_id(entry, "id")
}

fn read_cap(entry: &Json, name: &str) -> (cap: String)
    ensures
        cap@ == cap_text(entry@, name@),
{
    match entry.i64_of(name) {
        Some(n) => signed_decimal_text(n),
        None => String::new(),
    }
}

/// The per-network caps and visitor switch the admin editor shows:
/// `(visitor_enabled, visitor sessions, user sessions, per IP)`, each cap
/// as text with `""` for unlimited (`null`).
pub fn admin_network_settings(entry: &Json) -> (settings: (bool, String, String, String))
    ensures
        settings.0 == is_set(entry@, "visitor_enabled"@),
        settings.1@ == cap_text(entry@, "max_concurrent_visitor_sessions"@),
        settings.2@ == cap_text(entry@, "max_concurrent_user_sessions"@),
        settings.3@ == cap_text(entry@, "max_per_ip"@),
{
    (
        entry.bool_of("visitor_enabled") == Some(true),
        read_cap(entry, "max_concurrent_visitor_sessions"),
        read_cap(entry, "max_concurrent_user_sessions"),
        read_cap(entry, "max_per_ip"),
    )
}

/// What a cap typed in the editor means: null for unlimited, or the number.
pub open spec fn cap_of(text: Seq<char>) -> Option<Tree> {
    if trim(text).len() == 0 {
        Some(Tree::Null)
    } else {
        match parse_unsigned(trim(text), u32::MAX as nat) {
            Some(n) => Some(Tree::Number(Num::Whole(n as int))),
            None => None,
        }
    }
}

/// Parses a cap typed in the admin editor: empty is unlimited (`null`),
/// otherwise a non-negative whole number. `None` for anything else.
pub fn parse_admin_cap(text: &str) -> (cap: Option<Json>)
    ensures
        match cap {
            Some(cap) => cap_of(text@) == Some(cap@),
            None => cap_of(text@) is None,
        },
{
    let chars = chars_of(text);
    let body = trimmed(&chars);
    if body.len() == 0 {
        return Some(Json::Null);
    }
    match read_unsigned(body, u32::MAX as u64) {
        Some(n) => Some(Json::Number(Number::Unsigned(n))),
        None => None,
    }
}

/// Reads a display name out of one opaque network entry.
pub fn admin_network_label(entry: &Json) -> (label: String)
    ensures
        label@ == text_or(entry@, "slug"@, "(unknown)"@),
{
    text_of_or(entry, "slug", "(unknown)").to_string()
}

/// Reads a short circuit-breaker and live-count status suffix out of one
/// opaque network entry: `""` if the fields aren't present.
pub fn admin_network_status(entry: &Json) -> (status: String)
    ensures
        status@ == network_status(entry@),
{
    let circuit = match entry.get("circuit_state") {
        Some(state) => state.text_of("state"),
        None => None,
    };
    let (users, visitors) = match entry.get("live_counts") {
        Some(counts) => (counts.i64_of("users"), counts.i64_of("visitors")),
        None => (None, None),
    };
    let mut status = String::new();
    if let Some(circuit) = circuit {
        status.append(" (");
        status.append(circuit);
        match (users, visitors) {
            (Some(users), Some(visitors)) => {
                status.append(", ");
                status.append(signed_decimal_text(users).as_str());
                status.append(" user(s), ");
                status.append(signed_decimal_text(visitors).as_str());
                status.append(" visitor(s))");
            },
            _ => {
                status.append(")");
            },
        }
    }
    assert(status@ =~= network_status(entry@));
    status
}

/// Reads a human-readable label out of one opaque visitor entry.
pub fn admin_visitor_label(entry: &Json) -> (label: String)
    ensures
        label@ == visitor_label(entry@),
{
    let id = text_of_or(entry, "id", "?");
    let none = String::new();
    let ip = text_of_or(entry, "ip", none.as_str());
    assert(none@ =~= Seq::empty());
    let mut label = String::new();
    label.append(id);
    if !ip.is_empty() {
        label.append(" (");
        label.append(ip);
        label.append(")");
    }
    assert(label@ =~= visitor_label(entry@));
    label
}

/// Reads the `:id` path segment for `DELETE /admin/visitors/:id`.
pub fn admin_visitor_id(entry: &Json) -> (id: Option<String>)
    ensures
        opt(id) == text_field(entry@, "id"@),
{
    match entry.text_of("id") {
        Some(id) => Some(id.to_string()),
        None => None,
    }
}

/// Reads a one-line summary out of one opaque session-log entry.
pub fn admin_session_log_line(entry: &Json) -> (line: String)
    ensures
        line@ == session_log_line(entry@),
{
    let none = String::new();
    assert(none@ =~= Seq::empty());
    let nick = match entry.text_of("nick") {
        Some(nick) => nick,
        None => text_of_or(entry, "subject_kind", "?"),
    };
    let network = text_of_or(entry, "network_slug", none.as_str());
    let mut line = String::new();
    line.append(text_of_or(entry, "at", none.as_str()));
    line.append(" · ");
    line.append(text_of_or(entry, "event", "?"));
    line.append(" · ");
    line.append(nick);
    if !network.is_empty() {
        line.push('@');
        line.append(network);
    }
    assert(line@ =~= session_log_line(entry@));
    line
}

/// One line for a network's IRC server endpoint (`GET
/// /admin/networks/:id/servers`): `host:port`, TLS and disabled markers.
pub fn admin_server_label(entry: &Json) -> (label: String)
    ensures
        label@ == server_label(entry@),
{
    let port: i64 = match entry.i64_of("port") {
        Some(port) => port,
        None => 0,
    };
    let mut label = String::new();
    label.append(text_of_or(entry, "host", "?"));
    label.push(':');
    label.append(signed_decimal_text(port).as_str());
    if entry.bool_of("tls") == Some(true) {
        label.append(" · TLS");
    }
    if entry.bool_of("enabled") == Some(false) {
        label.append(" · off");
    }
    assert(label@ =~= server_label(entry@));
    label
}

fn subject_of<'a>(entry: &'a Json, none: &'a str) -> (subject: &'a str)
    requires
        none@.len() == 0,
    ensures
        subject@ == event_subject(entry@),
{
    assert(none@ =~= Seq::empty());
    if let Some(text) = entry.text_of("user_name") {
        return text;
    }
    if let Some(text) = entry.text_of("network_slug") {
        return text;
    }
    if let Some(text) = entry.text_of("visitor_nick") {
        return text;
    }
    if let Some(text) = entry.text_of("source_ip") {
        return text;
    }
    text_of_or(entry, "subject_kind", none)
}

/// One line for an admin audit event (`user_created`, `circuit_open`,
/// `network_caps_updated`, ...): time, kind, what it's about and who did it.
pub fn admin_event_line(entry: &Json) -> (line: String)
    ensures
        line@ == event_line(entry@),
{
    let none = String::new();
    assert(none@ =~= Seq::empty());
    let subject = subject_of(entry, none.as_str());
    let mut line = String::new();
    line.append(text_of_or(entry, "at", none.as_str()));
    line.append(" · ");
    line.append(text_of_or(entry, "kind", "?"));
    if !subject.is_empty() {
        line.append(" · ");
        line.append(subject);
    }
    if let (Some(host), Some(port)) = (entry.text_of("host"), entry.i64_of("port")) {
        line.append(" · ");
        line.append(host);
        line.push(':');
        line.append(signed_decimal_text(port).as_str());
    }
    if let Some(actor) = entry.text_of("actor_user_name") {
        line.append(" · by ");
        line.append(actor);
    }
    assert(line@ =~= event_line(entry@));
    line
}

/// Bytes in a mebibyte.
pub const MIB: u64 = 1024 * 1024;

/// `n` over `unit`, rounded to the nearest whole number, a half to the even
/// one.
pub open spec fn rounded_quotient(n: nat, unit: nat) -> nat {
    let q = n / unit;
    let r = n % unit;
    if 2 * r > unit || (2 * r == unit && q % 2 == 1) {
        q + 1
    } else {
        q
    }
}

/// The distance between the numbers around `n` that have 53 binary digits.
pub open spec fn double_unit(n: nat) -> nat
    decreases n,
{
    if n < 0x20_0000_0000_0000 {
        1
    } else {
        2 * double_unit(n / 2)
    }
}

/// `n` to 53 binary digits, as a double-precision number holds it.
pub open spec fn to_double(n: nat) -> nat {
    rounded_quotient(n, double_unit(n)) * double_unit(n)
}

/// Two digits, with a zero before a single one.
pub open spec fn two_digits(n: nat) -> Seq<char> {
    if n < 10 {
        seq!['0'] + decimal(n)
    } else {
        decimal(n)
    }
}

/// A number of bytes in MiB: whole numbers when exact, else with two
/// decimals.
pub open spec fn mib_text(bytes: nat) -> Seq<char> {
    if bytes % (MIB as nat) == 0 {
        decimal(bytes / (MIB as nat))
    } else {
        let hundredths = rounded_quotient(to_double(bytes) * 100, MIB as nat);
        decimal(hundredths / 100) + seq!['.'] + two_digits(hundredths % 100)
    }
}

fn round_quotient(n: u128, unit: u128) -> (q: u128)
    requires
        0 < unit <= 0x1_0000_0000,
        n <= 0x8000_0000_0000_0000_0000,
    ensures
        q == rounded_quotient(n as nat, unit as nat),
        q <= n + 1,
        q * unit <= n + unit,
{
    let q: u128 = n / unit;
    let r: u128 = n % unit;
    assert(q <= n && q * unit <= n && (q + 1) * unit == q * unit + unit) by (nonlinear_arith)
        requires
            q == n / unit,
            unit > 0,
    ;
    if 2 * r > unit || (2 * r == unit && q % 2 == 1) {
        q + 1
    } else {
        q
    }
}

fn unit_of(n: u64) -> (unit: u128)
    ensures
        unit == double_unit(n as nat),
        1 <= unit,
        unit == 1 || unit * 0x10_0000_0000_0000 <= n,
    decreases n,
{
    if n < 0x20_0000_0000_0000 {
        1
    } else {
        let half = unit_of(n / 2);
        2 * half
    }
}

/// The byte sizes of Grappa's server settings, as MiB text for the
/// editor: whole numbers when exact, else two decimals.
pub fn bytes_to_mib_text(bytes: Option<u64>) -> (text: String)
    ensures
        text@ == match bytes {
            Some(bytes) => mib_text(bytes as nat),
            None => Seq::empty(),
        },
{
    let mut text = String::new();
    let bytes: u64 = match bytes {
        Some(bytes) => bytes,
        None => {
            assert(text@ =~= Seq::empty());
            return text;
        },
    };
    if bytes % MIB == 0 {
        push_decimal(&mut text, bytes / MIB);
        assert(text@ =~= mib_text(bytes as nat));
        return text;
    }
    let unit = unit_of(bytes);
    let kept = round_quotient(bytes as u128, unit);
    assert(kept * unit <= 0x2_0000_0000_0000_0000) by (nonlinear_arith)
        requires
            kept * unit <= bytes + unit,
            unit <= 0x1000,
            bytes <= 0xffff_ffff_ffff_ffff,
    ;
    let rounded: u128 = kept * unit;
    let hundredths: u128 = round_quotient(rounded * 100, MIB as u128);
    push_decimal(&mut text, (hundredths / 100) as u64);
    text.push('.');
    let cents: u64 = (hundredths % 100) as u64;
    if cents < 10 {
        text.push('0');
    }
    push_decimal(&mut text, cents);
    assert(text@ =~= mib_text(bytes as nat));
    text
}

/// Whether a document has a text under a name.
pub open spec fn has_text(entry: Tree, name: Seq<char>, text: Seq<char>) -> bool {
    member(entry, name) == Some(Tree::Text(text))
}

/// Whether a document has a whole number under a name.
pub open spec fn has_number(entry: Tree, name: Seq<char>, n: int) -> bool {
    member(entry, name) == Some(Tree::Number(Num::Whole(n))) && i64::MIN <= n <= i64::MAX
}

/// Whether a document has nothing under a name.
pub open spec fn lacks(entry: Tree, name: Seq<char>) -> bool {
    member(entry, name) is None
}

/// A session is called by its label, else by the kind and the id of its
/// subject, with words in place of what is missing.
pub proof fn sessions_are_called_by_label_or_subject(
    entry: Tree,
    label: Seq<char>,
    kind: Seq<char>,
    id: Seq<char>,
)
    ensures
        has_text(entry, "subject_label"@, label) ==> session_label(entry) == label,
        lacks(entry, "subject_label"@) && has_text(entry, "subject_kind"@, kind) && has_text(
            entry,
            "subject_id"@,
            id,
        ) ==> session_label(entry) == kind + seq![':'] + id,
        lacks(entry, "subject_label"@) && lacks(entry, "subject_kind"@) && has_text(
            entry,
            "subject_id"@,
            id,
        ) ==> session_label(entry) == "session"@ + seq![':'] + id,
        lacks(entry, "subject_label"@) && has_text(entry, "subject_kind"@, kind) && lacks(
            entry,
            "subject_id"@,
        ) ==> session_label(entry) == kind + seq![':'] + "?"@,
{
}

/// The id of a session is made of the kind, the id and the network's id, which
/// may be a number; where one is missing there is none.
pub proof fn sessions_are_found_by_three_parts(
    entry: Tree,
    kind: Seq<char>,
    id: Seq<char>,
    network: Seq<char>,
    n: int,
)
    ensures
        has_text(entry, "subject_kind"@, kind) && has_text(entry, "subject_id"@, id) && has_text(
            entry,
            "network_id"@,
            network,
        ) ==> session_id(entry) == Some(kind + seq![':'] + id + seq![':'] + network),
        has_text(entry, "subject_kind"@, kind) && has_text(entry, "subject_id"@, id) && has_number(
            entry,
            "network_id"@,
            n,
        ) ==> session_id(entry) == Some(kind + seq![':'] + id + seq![':'] + signed_decimal(n)),
        lacks(entry, "subject_kind"@) || lacks(entry, "subject_id"@) || lacks(entry, "network_id"@)
            ==> session_id(entry) is None,
        has_text(entry, "id"@, id) ==> id_field(entry, "id"@) == Some(id),
        has_number(entry, "id"@, n) ==> id_field(entry, "id"@) == Some(signed_decimal(n)),
        lacks(entry, "id"@) ==> id_field(entry, "id"@) is None,
{
}

/// A cap shows its number, and nothing where there is none.
pub proof fn caps_show_their_number(entry: Tree, name: Seq<char>, n: int)
    ensures
        has_number(entry, name, n) ==> cap_text(entry, name) == signed_decimal(n),
        member(entry, name) == Some(Tree::Null) || lacks(entry, name) ==> cap_text(entry, name)
            == Seq::<char>::empty(),
{
}

/// A network shows the state of its circuit, and how many users and visitors
/// are live where both are told; without a state it shows nothing.
pub proof fn networks_show_their_circuit(
    entry: Tree,
    state: Tree,
    counts: Tree,
    circuit: Seq<char>,
    users: int,
    visitors: int,
)
    ensures
        member(entry, "circuit_state"@) == Some(state) && has_text(state, "state"@, circuit)
            && member(entry, "live_counts"@) == Some(counts) && has_number(counts, "users"@, users)
            && has_number(counts, "visitors"@, visitors) ==> network_status(entry) == " ("@
            + circuit + ", "@ + signed_decimal(users) + " user(s), "@ + signed_decimal(visitors)
            + " visitor(s))"@,
        member(entry, "circuit_state"@) == Some(state) && has_text(state, "state"@, circuit)
            && lacks(entry, "live_counts"@) ==> network_status(entry) == " ("@ + circuit + ")"@,
        member(entry, "circuit_state"@) == Some(state) && has_text(state, "state"@, circuit)
            && member(entry, "live_counts"@) == Some(counts) && has_number(counts, "users"@, users)
            && lacks(counts, "visitors"@) ==> network_status(entry) == " ("@ + circuit + ")"@,
        lacks(entry, "circuit_state"@) ==> network_status(entry) == Seq::<char>::empty(),
{
}

/// A visitor is called by its id, with its address behind it where there is
/// one.
pub proof fn visitors_are_called_by_id_and_address(entry: Tree, id: Seq<char>, ip: Seq<char>)
    ensures
        has_text(entry, "id"@, id) && has_text(entry, "ip"@, ip) && ip.len() > 0 ==> visitor_label(
            entry,
        ) == id + " ("@ + ip + ")"@,
        has_text(entry, "id"@, id) && lacks(entry, "ip"@) ==> visitor_label(entry) == id,
        lacks(entry, "id"@) && has_text(entry, "ip"@, ip) && ip.len() > 0 ==> visitor_label(entry)
            == "?"@ + " ("@ + ip + ")"@,
{
}

/// A line of the log tells the time, the event and whom it is about, with the
/// network behind it where there is one.
pub proof fn log_lines_tell_time_event_and_nick(
    entry: Tree,
    at: Seq<char>,
    event: Seq<char>,
    nick: Seq<char>,
    network: Seq<char>,
)
    requires
        has_text(entry, "at"@, at),
        has_text(entry, "event"@, event),
    ensures
        has_text(entry, "nick"@, nick) && has_text(entry, "network_slug"@, network) && network.len()
            > 0 ==> session_log_line(entry) == at + " · "@ + event + " · "@ + nick + seq!['@']
            + network,
        has_text(entry, "nick"@, nick) && lacks(entry, "network_slug"@) ==> session_log_line(entry)
            == at + " · "@ + event + " · "@ + nick,
        lacks(entry, "nick"@) && has_text(entry, "subject_kind"@, nick) && lacks(
            entry,
            "network_slug"@,
        ) ==> session_log_line(entry) == at + " · "@ + event + " · "@ + nick,
        lacks(entry, "nick"@) && lacks(entry, "subject_kind"@) && lacks(entry, "network_slug"@)
            ==> session_log_line(entry) == at + " · "@ + event + " · "@ + "?"@,
{
}

/// A server is called by host and port; TLS is said where it is on, and that
/// the server is off where it is disabled.
pub proof fn servers_are_called_by_host_and_port(
    entry: Tree,
    host: Seq<char>,
    port: int,
    tls: bool,
    enabled: bool,
)
    requires
        has_text(entry, "host"@, host),
        member(entry, "tls"@) == Some(Tree::Bool(tls)),
        member(entry, "enabled"@) == Some(Tree::Bool(enabled)),
    ensures
        has_number(entry, "port"@, port) ==> {
            let name = host + seq![':'] + signed_decimal(port);
            server_label(entry) == if tls && enabled {
                name + " · TLS"@
            } else if tls {
                name + " · TLS"@ + " · off"@
            } else if enabled {
                name
            } else {
                name + " · off"@
            }
        },
        lacks(entry, "port"@) && !tls && enabled ==> server_label(entry) == host + seq![':']
            + signed_decimal(0),
{
}

/// An event is about the user, else the network, else the visitor, else the
/// address, else the kind of subject that it names.
pub proof fn events_are_about_the_first_that_is_named(entry: Tree, text: Seq<char>)
    ensures
        has_text(entry, "user_name"@, text) ==> event_subject(entry) == text,
        lacks(entry, "user_name"@) && has_text(entry, "network_slug"@, text) ==> event_subject(
            entry,
        ) == text,
        lacks(entry, "user_name"@) && lacks(entry, "network_slug"@) && has_text(
            entry,
            "visitor_nick"@,
            text,
        ) ==> event_subject(entry) == text,
        lacks(entry, "user_name"@) && lacks(entry, "network_slug"@) && lacks(entry, "visitor_nick"@)
            && has_text(entry, "source_ip"@, text) ==> event_subject(entry) == text,
        lacks(entry, "user_name"@) && lacks(entry, "network_slug"@) && lacks(entry, "visitor_nick"@)
            && lacks(entry, "source_ip"@) && has_text(entry, "subject_kind"@, text)
            ==> event_subject(entry) == text,
        lacks(entry, "user_name"@) && lacks(entry, "network_slug"@) && lacks(entry, "visitor_nick"@)
            && lacks(entry, "source_ip"@) && lacks(entry, "subject_kind"@) ==> event_subject(entry)
            == Seq::<char>::empty(),
{
}

/// A line of an event tells the time and the kind, then what it is about, the
/// endpoint and who did it, as far as they are told.
pub proof fn event_lines_tell_what_is_known(
    entry: Tree,
    at: Seq<char>,
    kind: Seq<char>,
    subject: Seq<char>,
    host: Seq<char>,
    port: int,
    actor: Seq<char>,
)
    requires
        has_text(entry, "at"@, at),
        has_text(entry, "kind"@, kind),
        has_text(entry, "user_name"@, subject),
        subject.len() > 0,
    ensures
        has_text(entry, "host"@, host) && has_number(entry, "port"@, port) && has_text(
            entry,
            "actor_user_name"@,
            actor,
        ) ==> event_line(entry) == at + " · "@ + kind + " · "@ + subject + " · "@ + host
            + seq![':'] + signed_decimal(port) + " · by "@ + actor,
        has_text(entry, "host"@, host) && has_number(entry, "port"@, port) && lacks(
            entry,
            "actor_user_name"@,
        ) ==> event_line(entry) == at + " · "@ + kind + " · "@ + subject + " · "@ + host
            + seq![':'] + signed_decimal(port),
        lacks(entry, "host"@) && has_text(entry, "actor_user_name"@, actor) ==> event_line(entry)
            == at + " · "@ + kind + " · "@ + subject + " · by "@ + actor,
        has_text(entry, "host"@, host) && lacks(entry, "port"@) && lacks(entry, "actor_user_name"@)
            ==> event_line(entry) == at + " · "@ + kind + " · "@ + subject,
{
}

/// A cap that is typed as a number is that number, up to the greatest of
/// thirty-two bits; nothing typed is none.
pub proof fn typed_caps_are_their_number(n: nat, blank: Seq<char>)
    requires
        forall|i: int| 0 <= i < blank.len() ==> is_space(#[trigger] blank[i]),
    ensures
        cap_of(blank + decimal(n) + blank) == if n <= 0xffff_ffff {
            Some(Tree::Number(Num::Whole(n as int)))
        } else {
            None
        },
        cap_of(blank) == Some(Tree::Null),
{
    decimal_reads_back(n);
    let digits = decimal(n);
    assert(is_digit(digits[0]));
    assert(is_digit(digits[digits.len() - 1]));
    white_space_is_unicodes(digits[0]);
    white_space_is_unicodes(digits.last());
    trimming_takes_white_space_off(blank, digits, blank);
    numbers_are_read_from_their_digits(n, u32::MAX as nat);
    lemma_trim_is(blank, 0, 0);
    assert(blank.subrange(0, 0) =~= Seq::<char>::empty());
}

proof fn lemma_nearest(n: nat)
    ensures
        2097152 * rounded_quotient(n, 1048576) <= 2 * n + 1048576,
        2 * n <= 2097152 * rounded_quotient(n, 1048576) + 1048576,
{
    let unit: nat = 1048576;
    let q = n / unit;
    let r = n % unit;
    vstd::arithmetic::div_mod::lemma_fundamental_div_mod(n as int, unit as int);
    vstd::arithmetic::div_mod::lemma_mod_bound(n as int, unit as int);
    assert(n == 1048576 * q + r && r < 1048576);
    let h = rounded_quotient(n, unit);
    assert(h == if 2 * r > 1048576 || (2 * r == 1048576 && q % 2 == 1) {
        q + 1
    } else {
        q
    });
    assert(2097152 * h <= 2 * n + 1048576);
    assert(2 * n <= 2097152 * h + 1048576);
}

proof fn lemma_two_digits(h: nat)
    ensures
        two_digits(h % 100) == hundredths_text(h),
{
    let n = h % 100;
    let tens = n / 10;
    let ones = n % 10;
    assert(tens == h / 10 % 10 && ones == h % 10);
    assert(tens < 10 && ones < 10);
    if n < 10 {
        assert(decimal(tens) =~= seq!['0']);
        assert(two_digits(n) =~= decimal(tens) + decimal(ones));
    } else {
        assert(decimal(n) == decimal(tens).push(digit_char(ones as int)));
        assert(two_digits(n) =~= decimal(tens) + decimal(ones));
    }
}

/// Whole mebibytes are told as whole numbers; anything else with two decimals,
/// to the nearest hundredth, as long as the bytes have no more than fifty-three
/// binary digits.
pub proof fn sizes_are_told_to_the_nearest_hundredth(bytes: nat)
    ensures
        bytes % 1048576 == 0 ==> mib_text(bytes) == decimal(bytes / 1048576),
        bytes % 1048576 != 0 && bytes < 0x20_0000_0000_0000 ==> exists|h: nat|
            {
                &&& mib_text(bytes) == decimal(h / 100) + seq!['.'] + #[trigger] hundredths_text(h)
                &&& 2097152 * h <= 200 * bytes + 1048576
                &&& 200 * bytes <= 2097152 * h + 1048576
            },
{
    if bytes % 1048576 != 0 && bytes < 0x20_0000_0000_0000 {
        assert(double_unit(bytes) == 1);
        assert(bytes / 1 == bytes && bytes % 1 == 0);
        assert(to_double(bytes) == bytes);
        let h = rounded_quotient(bytes * 100, 1048576);
        lemma_nearest(bytes * 100);
        lemma_two_digits(h);
        assert(mib_text(bytes) == decimal(h / 100) + seq!['.'] + hundredths_text(h));
    }
}

/// The last two decimals of a number of hundredths.
pub open spec fn hundredths_text(h: nat) -> Seq<char> {
    decimal(h / 10 % 10) + decimal(h % 10)
}

} // verus!
