//! Slash commands typed in the compose line. Views answered locally
//! (`/links`, `/list`, `/archive`, ...) and the commands answered on the reply
//! screen (`/whois`, `/who`, ...) are recognized before this parser. User
//! aliases are expanded first, by [`expand_aliases`].

use vstd::prelude::*;

use crate::split::{
    blank_text_has_no_words, cutting_undoes_joining, ends_with_text, is_text, join, joined, same,
    split_on, split_text, strings_from, texts, without_leading, words,
    words_are_free_of_white_space, words_are_those_of_the_trimmed_text, words_of,
    words_stand_between_white_space,
};
use crate::text::{
    chars_of, copy_of, first_where, head, index_where, is_space, is_whitespace, lemma_first_where,
    lemma_first_where_is, lemma_trim_bounds, lemma_trim_ends, lemma_trim_is, lower, lowercase,
    lowered, opt, skip_leading, string_of, tail, trim, trim_start, trimmed, trimmed_start,
    trimming_takes_white_space_off, uppercase, uppered,
};

verus! {

/// One parsed slash command. `None` from [`parse`] means the line isn't a
/// command at all and goes out as a plain message.
#[derive(Debug, Clone, PartialEq, Eq)]
#[allow(inconsistent_fields)]
pub enum SlashCommand {
    /// `//text`: a message that starts with a slash, sent as typed minus
    /// the escaping one.
    Say(String),
    /// `/me <text>`: a CTCP ACTION in the open window.
    Action(String),
    /// `/msg <nick> <text>`, and the services shortcuts (`/ns identify`).
    Msg { target: String, text: String },
    /// `/notice <target> <text>`.
    Notice { target: String, text: String },
    /// `/query [nick]`: opens a private window, or closes the open one.
    Query(Option<String>),
    /// `/join <#chan>[,<#chan>...] [key]`.
    Join { channels: String, key: Option<String> },
    /// `/part [#chan] [reason]`, the open channel by default.
    Part { channel: Option<String>, reason: Option<String> },
    /// `/cycle [#chan] [reason]`: part, then join again.
    Cycle { channel: Option<String>, reason: Option<String> },
    /// `/topic [#chan] <text>`.
    TopicSet { channel: Option<String>, text: String },
    /// `/topic [#chan] -delete`.
    TopicClear { channel: Option<String> },
    /// `/topic [#chan]` with no text: shows the current topic.
    TopicShow { channel: Option<String> },
    /// `/mode [#chan]` with no modes: shows the channel's current modes.
    ModeShow { channel: Option<String> },
    /// `/nick <nick>`.
    Nick(String),
    /// `/away [reason]`: sets away with a reason, or comes back without.
    Away(Option<String>),
    /// `/ctcp <target> <VERB> [args]`, verb upper-cased.
    Ctcp { target: String, verb: String, args: Option<String> },
    /// `/ping <target>`: a CTCP PING.
    Ping(String),
    /// `/op`, `/deop`, `/voice`, `/devoice` with one or more nicks.
    NickModes { verb: &'static str, nicks: Vec<String> },
    /// `/kick <nick> [reason]`.
    Kick { nick: String, reason: String },
    /// `/kb <nick> [reason]` (`/kickban`): bans `*!*@host` when the host is
    /// known, and kicks either way.
    KickBan { nick: String, reason: String },
    /// `/ban <mask-or-nick>`.
    Ban(String),
    /// `/unban <mask>`.
    Unban(String),
    /// `/mode [target] <modes> [params]`, the open channel by default.
    Mode { target: Option<String>, modes: String, params: Vec<String> },
    /// `/umode <modes>`.
    Umode(String),
    /// Bare `/umode`: opens the user-mode view of the active network.
    UmodeShow,
    /// `/names [#chan]`.
    Names(Option<String>),
    /// A raw IRC line: `/quote`, and the operator verbs built on it
    /// (`/kill`, `/stats`, `/rehash`).
    Raw(String),
    /// `/oper <name> <password>`. The password must never be logged.
    Oper { name: String, password: String },
    /// `/connect <network>`.
    Connect(String),
    /// `/disconnect [network] [reason]`: parks the network.
    Disconnect { network: Option<String>, reason: Option<String> },
    /// `/reconnect [network] [reason]`: parks, then connects again.
    Reconnect { network: Option<String>, reason: Option<String> },
    /// `/quit [reason]`: parks every network, then signs out.
    Quit(Option<String>),
    /// `/hilight <pattern>` or `/dehilight <pattern>`.
    Highlight { add: bool, pattern: String },
    /// `/ignore <mask>` or `/unignore <mask>`.
    Ignore { add: bool, mask: String },
    /// `/notify <nick...>`.
    Notify(Vec<String>),
    /// `/alias <name> <expansion>`: defines or replaces a user alias.
    AliasDefine { name: String, expansion: String },
    /// `/unalias <name>`.
    Unalias(String),
    /// `/ame <text>` (an action) or `/amsg <text>` in every joined channel
    /// of the network.
    FanOut { action: bool, text: String },
    /// A known command with missing or malformed arguments; carries its
    /// syntax for the hint.
    Usage(&'static str),
    /// A command Cordiale doesn't know, as typed (`/frobnicate`).
    Unknown(String),
}

/// What a [`SlashCommand`] says, with its texts as sequences of characters.
#[allow(inconsistent_fields)]
pub enum Meaning {
    Say(Seq<char>),
    Action(Seq<char>),
    Msg { target: Seq<char>, text: Seq<char> },
    Notice { target: Seq<char>, text: Seq<char> },
    Query(Option<Seq<char>>),
    Join { channels: Seq<char>, key: Option<Seq<char>> },
    Part { channel: Option<Seq<char>>, reason: Option<Seq<char>> },
    Cycle { channel: Option<Seq<char>>, reason: Option<Seq<char>> },
    TopicSet { channel: Option<Seq<char>>, text: Seq<char> },
    TopicClear { channel: Option<Seq<char>> },
    TopicShow { channel: Option<Seq<char>> },
    ModeShow { channel: Option<Seq<char>> },
    Nick(Seq<char>),
    Away(Option<Seq<char>>),
    Ctcp { target: Seq<char>, verb: Seq<char>, args: Option<Seq<char>> },
    Ping(Seq<char>),
    NickModes { verb: Seq<char>, nicks: Seq<Seq<char>> },
    Kick { nick: Seq<char>, reason: Seq<char> },
    KickBan { nick: Seq<char>, reason: Seq<char> },
    Ban(Seq<char>),
    Unban(Seq<char>),
    Mode { target: Option<Seq<char>>, modes: Seq<char>, params: Seq<Seq<char>> },
    Umode(Seq<char>),
    UmodeShow,
    Names(Option<Seq<char>>),
    Raw(Seq<char>),
    Oper { name: Seq<char>, password: Seq<char> },
    Connect(Seq<char>),
    Disconnect { network: Option<Seq<char>>, reason: Option<Seq<char>> },
    Reconnect { network: Option<Seq<char>>, reason: Option<Seq<char>> },
    Quit(Option<Seq<char>>),
    Highlight { add: bool, pattern: Seq<char> },
    Ignore { add: bool, mask: Seq<char> },
    Notify(Seq<Seq<char>>),
    AliasDefine { name: Seq<char>, expansion: Seq<char> },
    Unalias(Seq<char>),
    FanOut { action: bool, text: Seq<char> },
    Usage(Seq<char>),
    Unknown(Seq<char>),
}

impl View for SlashCommand {
    type V = Meaning;

    open spec fn view(&self) -> Meaning {
        match *self {
            SlashCommand::Say(text) => Meaning::Say(text@),
            SlashCommand::Action(text) => Meaning::Action(text@),
            SlashCommand::Msg { target, text } => Meaning::Msg { target: target@, text: text@ },
            SlashCommand::Notice { target, text } => Meaning::Notice {
                target: target@,
                text: text@,
            },
            SlashCommand::Query(nick) => Meaning::Query(opt(nick)),
            SlashCommand::Join { channels, key } => Meaning::Join {
                channels: channels@,
                key: opt(key),
            },
            SlashCommand::Part { channel, reason } => Meaning::Part {
                channel: opt(channel),
                reason: opt(reason),
            },
            SlashCommand::Cycle { channel, reason } => Meaning::Cycle {
                channel: opt(channel),
                reason: opt(reason),
            },
            SlashCommand::TopicSet { channel, text } => Meaning::TopicSet {
                channel: opt(channel),
                text: text@,
            },
            SlashCommand::TopicClear { channel } => Meaning::TopicClear { channel: opt(channel) },
            SlashCommand::TopicShow { channel } => Meaning::TopicShow { channel: opt(channel) },
            SlashCommand::ModeShow { channel } => Meaning::ModeShow { channel: opt(channel) },
            SlashCommand::Nick(nick) => Meaning::Nick(nick@),
            SlashCommand::Away(reason) => Meaning::Away(opt(reason)),
            SlashCommand::Ctcp { target, verb, args } => Meaning::Ctcp {
                target: target@,
                verb: verb@,
                args: opt(args),
            },
            SlashCommand::Ping(target) => Meaning::Ping(target@),
            SlashCommand::NickModes { verb, nicks } => Meaning::NickModes {
                verb: verb@,
                nicks: texts(nicks@),
            },
            SlashCommand::Kick { nick, reason } => Meaning::Kick { nick: nick@, reason: reason@ },
            SlashCommand::KickBan { nick, reason } => Meaning::KickBan {
                nick: nick@,
                reason: reason@,
            },
            SlashCommand::Ban(mask) => Meaning::Ban(mask@),
            SlashCommand::Unban(mask) => Meaning::Unban(mask@),
            SlashCommand::Mode { target, modes, params } => Meaning::Mode {
                target: opt(target),
                modes: modes@,
                params: texts(params@),
            },
            SlashCommand::Umode(modes) => Meaning::Umode(modes@),
            SlashCommand::UmodeShow => Meaning::UmodeShow,
            SlashCommand::Names(channel) => Meaning::Names(opt(channel)),
            SlashCommand::Raw(line) => Meaning::Raw(line@),
            SlashCommand::Oper { name, password } => Meaning::Oper {
                name: name@,
                password: password@,
            },
            SlashCommand::Connect(network) => Meaning::Connect(network@),
            SlashCommand::Disconnect { network, reason } => Meaning::Disconnect {
                network: opt(network),
                reason: opt(reason),
            },
            SlashCommand::Reconnect { network, reason } => Meaning::Reconnect {
                network: opt(network),
                reason: opt(reason),
            },
            SlashCommand::Quit(reason) => Meaning::Quit(opt(reason)),
            SlashCommand::Highlight { add, pattern } => Meaning::Highlight {
                add,
                pattern: pattern@,
            },
            SlashCommand::Ignore { add, mask } => Meaning::Ignore { add, mask: mask@ },
            SlashCommand::Notify(nicks) => Meaning::Notify(texts(nicks@)),
            SlashCommand::AliasDefine { name, expansion } => Meaning::AliasDefine {
                name: name@,
                expansion: expansion@,
            },
            SlashCommand::Unalias(name) => Meaning::Unalias(name@),
            SlashCommand::FanOut { action, text } => Meaning::FanOut { action, text: text@ },
            SlashCommand::Usage(syntax) => Meaning::Usage(syntax@),
            SlashCommand::Unknown(name) => Meaning::Unknown(name@),
        }
    }
}

/// Whether `name` carries the sigil of a channel.
pub open spec fn names_channel(name: Seq<char>) -> bool {
    name.len() > 0 && (name[0] == '#' || name[0] == '&' || name[0] == '!' || name[0] == '+')
}

/// Whether `nick` is longer than `serv` and ends with it, in any letter case.
pub open spec fn names_service(nick: Seq<char>) -> bool {
    nick.len() > 4 && "serv"@.is_suffix_of(lowered(nick))
}

/// The first word, and what follows it, trimmed but with its inner spacing.
pub open spec fn first_word(text: Seq<char>) -> (Seq<char>, Seq<char>) {
    let text = trim_start(text);
    let end = first_where(text, |c: char| is_space(c));
    (text.take(end), trim(text.skip(end)))
}

pub open spec fn unless_empty(text: Seq<char>) -> Option<Seq<char>> {
    if text.len() == 0 {
        None
    } else {
        Some(text)
    }
}

/// `[#chan] [reason]`: a leading channel names the target, anything else
/// starts the reason.
pub open spec fn channel_and_reason(args: Seq<char>) -> (Option<Seq<char>>, Option<Seq<char>>) {
    let (first, rest) = first_word(args);
    if names_channel(first) {
        (Some(first), unless_empty(rest))
    } else {
        (None, unless_empty(args))
    }
}

/// `[network] [reason]`: the first word, when present, is the network.
pub open spec fn network_and_reason(args: Seq<char>) -> (Option<Seq<char>>, Option<Seq<char>>) {
    let (first, rest) = first_word(args);
    (unless_empty(first), unless_empty(rest))
}

/// A list of channels between commas: the first may lack its sigil, and then
/// gets a `#`; each other one has a sigil and a name.
pub open spec fn channel_list(list: Seq<char>) -> Option<Seq<char>> {
    let channels = split_on(list, |c: char| c == ',');
    if channels[0].len() > 0 && forall|i: int|
        1 <= i < channels.len() ==> names_channel(#[trigger] channels[i]) && channels[i].len()
            >= 2 {
        Some(
            if names_channel(list) {
                list
            } else {
                seq!['#'] + list
            },
        )
    } else {
        None
    }
}

/// The services bot that a verb is the shortcut of.
pub open spec fn service_of(verb: Seq<char>) -> Option<Seq<char>> {
    if verb == "cs"@ {
        Some("ChanServ"@)
    } else if verb == "ns"@ {
        Some("NickServ"@)
    } else if verb == "ms"@ {
        Some("MemoServ"@)
    } else if verb == "os"@ {
        Some("OperServ"@)
    } else if verb == "hs"@ {
        Some("HelpServ"@)
    } else if verb == "rs"@ {
        Some("RootServ"@)
    } else {
        None
    }
}

/// Whether `name` is a channel rather than a nick.
pub fn is_channel(name: &str) -> (channel: bool)
    ensures
        channel == names_channel(name@),
{
    let name = chars_of(name);
    has_sigil(&name)
}

fn has_sigil(name: &[char]) -> (channel: bool)
    ensures
        channel == names_channel(name@),
{
    name.len() > 0 && (name[0] == '#' || name[0] == '&' || name[0] == '!' || name[0] == '+')
}

/// Whether `nick` is an IRC services bot (`NickServ`, `ChanServ`, ...);
/// messages to them don't open a private window.
pub fn is_service_nick(nick: &str) -> (service: bool)
    ensures
        service == names_service(nick@),
{
    let nick = chars_of(nick);
    if nick.len() <= 4 {
        return false;
    }
    let small = lowercase(&nick);
    ends_with_text(&small, "serv")
}

/// Splits off the first word; the remainder keeps its inner spacing.
fn split_word(text: &[char]) -> (parts: (&[char], &[char]))
    ensures
        (parts.0@, parts.1@) == first_word(text@),
{
    let text = trimmed_start(text);
    let ghost space = |c: char| is_space(c);
    let end = index_where(text, is_whitespace, Ghost(space));
    (head(text, end), trimmed(tail(text, end)))
}

fn non_empty(text: &[char]) -> (some: Option<String>)
    ensures
        opt(some) == unless_empty(text@),
{
    if text.len() == 0 {
        None
    } else {
        Some(string_of(text))
    }
}

fn channel_reason(args: &[char]) -> (parts: (Option<String>, Option<String>))
    ensures
        (opt(parts.0), opt(parts.1)) == channel_and_reason(args@),
{
    let (first, rest) = split_word(args);
    if has_sigil(first) {
        (Some(string_of(first)), non_empty(rest))
    } else {
        (None, non_empty(args))
    }
}

fn network_reason(args: &[char]) -> (parts: (Option<String>, Option<String>))
    ensures
        (opt(parts.0), opt(parts.1)) == network_and_reason(args@),
{
    let (first, rest) = split_word(args);
    (non_empty(first), non_empty(rest))
}

/// `/join` targets: a bare head gets a `#`, further comma-separated
/// entries must carry their own sigil.
fn join_channels(list: &str) -> (channels: Option<String>)
    ensures
        opt(channels) == channel_list(list@),
{
    let chars = chars_of(list);
    let pieces = split_text(&chars, ',');
    let ghost all = texts(pieces@);
    let head = chars_of(pieces[0].as_str());
    assert(head@ == all[0]);
    if head.len() == 0 {
        return None;
    }
    let mut i: usize = 1;
    while i < pieces.len()
        invariant
            1 <= i <= pieces@.len(),
            chars@ == list@,
            all == texts(pieces@),
            all == split_on(list@, |c: char| c == ','),
            forall|j: int| 1 <= j < i ==> names_channel(#[trigger] all[j]) && all[j].len() >= 2,
        decreases pieces@.len() - i,
    {
        let channel = chars_of(pieces[i].as_str());
        assert(channel@ == all[i as int]);
        if !has_sigil(&channel) || channel.len() < 2 {
            return None;
        }
        i += 1;
    }
    if has_sigil(&chars) {
        Some(string_of(&chars))
    } else {
        let mut joined = String::new();
        joined.push('#');
        joined.append(string_of(&chars).as_str());
        assert(joined@ =~= seq!['#'] + list@);
        Some(joined)
    }
}

fn service_nick(verb: &[char]) -> (service: Option<&'static str>)
    ensures
        match service {
            Some(name) => service_of(verb@) == Some(name@),
            None => service_of(verb@) is None,
        },
{
    if is_text(verb, "cs") {
        Some("ChanServ")
    } else if is_text(verb, "ns") {
        Some("NickServ")
    } else if is_text(verb, "ms") {
        Some("MemoServ")
    } else if is_text(verb, "os") {
        Some("OperServ")
    } else if is_text(verb, "hs") {
        Some("HelpServ")
    } else if is_text(verb, "rs") {
        Some("RootServ")
    } else {
        None
    }
}

/// The one word of `args`; `None` when there is none, or more than one.
pub open spec fn only_word(args: Seq<char>) -> Option<Seq<char>> {
    if words(args).len() == 1 {
        Some(words(args)[0])
    } else {
        None
    }
}

fn single_word(args: &[char]) -> (word: Option<String>)
    ensures
        opt(word) == only_word(args@),
{
    let parts = words_of(args);
    if parts.len() == 1 {
        assert(texts(parts@)[0] == parts@[0]@);
        Some(parts[0].clone())
    } else {
        None
    }
}

/// What `/msg` does with its arguments.
pub open spec fn msg_meaning(args: Seq<char>) -> Meaning {
    let (target, text) = first_word(args);
    if target.len() == 0 || text.len() == 0 || names_channel(target) {
        Meaning::Usage("/msg <nick> <text>"@)
    } else {
        Meaning::Msg { target, text }
    }
}

fn parse_msg(args: &[char]) -> (command: SlashCommand)
    ensures
        command@ == msg_meaning(args@),
{
    let (target, text) = split_word(args);
    if target.len() == 0 || text.len() == 0 || has_sigil(target) {
        SlashCommand::Usage("/msg <nick> <text>")
    } else {
        SlashCommand::Msg { target: string_of(target), text: string_of(text) }
    }
}

/// What `/notice` does with its arguments.
pub open spec fn notice_meaning(args: Seq<char>) -> Meaning {
    let (target, text) = first_word(args);
    if target.len() == 0 || text.len() == 0 {
        Meaning::Usage("/notice <target> <text>"@)
    } else {
        Meaning::Notice { target, text }
    }
}

fn parse_notice(args: &[char]) -> (command: SlashCommand)
    ensures
        command@ == notice_meaning(args@),
{
    let (target, text) = split_word(args);
    if target.len() == 0 || text.len() == 0 {
        SlashCommand::Usage("/notice <target> <text>")
    } else {
        SlashCommand::Notice { target: string_of(target), text: string_of(text) }
    }
}

/// What `/query` does with its arguments.
pub open spec fn query_meaning(args: Seq<char>) -> Meaning {
    let parts = words(args);
    if parts.len() == 0 {
        Meaning::Query(None)
    } else if parts.len() == 1 && !names_channel(parts[0]) {
        Meaning::Query(Some(parts[0]))
    } else {
        Meaning::Usage("/query <nick>"@)
    }
}

fn parse_query(args: &[char]) -> (command: SlashCommand)
    ensures
        command@ == query_meaning(args@),
{
    let parts = words_of(args);
    if parts.len() == 0 {
        return SlashCommand::Query(None);
    }
    assert(texts(parts@)[0] == parts@[0]@);
    if parts.len() == 1 && !is_channel(parts[0].as_str()) {
        SlashCommand::Query(Some(parts[0].clone()))
    } else {
        SlashCommand::Usage("/query <nick>")
    }
}

/// What `/join` does with its arguments: a list of channels, then perhaps a
/// key.
pub open spec fn join_meaning(args: Seq<char>) -> Meaning {
    let parts = words(args);
    if 1 <= parts.len() <= 2 && channel_list(parts[0]) is Some {
        Meaning::Join {
            channels: channel_list(parts[0])->0,
            key: if parts.len() == 2 {
                Some(parts[1])
            } else {
                None
            },
        }
    } else {
        Meaning::Usage("/join <#channel>[,<#channel>] [key]"@)
    }
}

fn parse_join(args: &[char]) -> (command: SlashCommand)
    ensures
        command@ == join_meaning(args@),
{
    let parts = words_of(args);
    if parts.len() == 0 || parts.len() > 2 {
        return SlashCommand::Usage("/join <#channel>[,<#channel>] [key]");
    }
    assert(texts(parts@)[0] == parts@[0]@);
    match join_channels(parts[0].as_str()) {
        Some(channels) => {
            if parts.len() == 2 {
                assert(texts(parts@)[1] == parts@[1]@);
                SlashCommand::Join { channels, key: Some(parts[1].clone()) }
            } else {
                SlashCommand::Join { channels, key: None }
            }
        },
        None => SlashCommand::Usage("/join <#channel>[,<#channel>] [key]"),
    }
}

/// The channel and the text of `/topic`. A bare `#` escapes a topic that
/// starts with a channel name.
pub open spec fn topic_parts(args: Seq<char>) -> (Option<Seq<char>>, Seq<char>) {
    let (first, rest) = first_word(args);
    if names_channel(first) && first.len() > 1 {
        (Some(first), rest)
    } else if first == "#"@ {
        (None, rest)
    } else {
        (None, args)
    }
}

/// What `/topic` does with its arguments.
pub open spec fn topic_meaning(args: Seq<char>) -> Meaning {
    let (channel, text) = topic_parts(args);
    if text == "-delete"@ {
        Meaning::TopicClear { channel }
    } else if text.len() == 0 {
        Meaning::TopicShow { channel }
    } else {
        Meaning::TopicSet { channel, text }
    }
}

fn parse_topic(args: &[char]) -> (command: SlashCommand)
    ensures
        command@ == topic_meaning(args@),
{
    let (first, rest) = split_word(args);
    let (channel, text) = if has_sigil(first) && first.len() > 1 {
        (Some(string_of(first)), rest)
    } else if is_text(first, "#") {
        (None, rest)
    } else {
        (None, args)
    };
    if is_text(text, "-delete") {
        SlashCommand::TopicClear { channel }
    } else if text.len() == 0 {
        SlashCommand::TopicShow { channel }
    } else {
        SlashCommand::TopicSet { channel, text: string_of(text) }
    }
}

/// The reason of `/away`, which may stand behind a colon.
pub open spec fn away_reason(args: Seq<char>) -> Seq<char> {
    trim(
        if args.len() > 0 && args[0] == ':' {
            args.skip(1)
        } else {
            args
        },
    )
}

fn parse_away(args: &[char]) -> (command: SlashCommand)
    ensures
        command@ == Meaning::Away(unless_empty(away_reason(args@))),
{
    let reason = if args.len() > 0 && args[0] == ':' {
        tail(args, 1)
    } else {
        args
    };
    SlashCommand::Away(non_empty(trimmed(reason)))
}

/// What `/ctcp` does with its arguments.
pub open spec fn ctcp_meaning(args: Seq<char>) -> Meaning {
    let (target, rest) = first_word(args);
    let (verb, verb_args) = first_word(rest);
    if target.len() == 0 || verb.len() == 0 {
        Meaning::Usage("/ctcp <target> <VERB> [args]"@)
    } else {
        Meaning::Ctcp { target, verb: uppered(verb), args: unless_empty(verb_args) }
    }
}

fn parse_ctcp(args: &[char]) -> (command: SlashCommand)
    ensures
        command@ == ctcp_meaning(args@),
{
    let (target, rest) = split_word(args);
    let (verb, verb_args) = split_word(rest);
    if target.len() == 0 || verb.len() == 0 {
        SlashCommand::Usage("/ctcp <target> <VERB> [args]")
    } else {
        let verb = uppercase(verb);
        SlashCommand::Ctcp {
            target: string_of(target),
            verb: string_of(&verb),
            args: non_empty(verb_args),
        }
    }
}

/// What the verbs on nicks in a channel do with their arguments.
pub open spec fn nick_modes_meaning(verb: Seq<char>, args: Seq<char>) -> Meaning {
    if words(args).len() == 0 {
        Meaning::Usage("/op <nick> [nick...]"@)
    } else {
        Meaning::NickModes { verb, nicks: words(args) }
    }
}

fn parse_nick_modes(verb: &'static str, args: &[char]) -> (command: SlashCommand)
    ensures
        command@ == nick_modes_meaning(verb@, args@),
{
    let nicks = words_of(args);
    if nicks.len() == 0 {
        SlashCommand::Usage("/op <nick> [nick...]")
    } else {
        SlashCommand::NickModes { verb, nicks }
    }
}

/// What `/kick` does with its arguments.
pub open spec fn kick_meaning(args: Seq<char>) -> Meaning {
    let (nick, reason) = first_word(args);
    if nick.len() == 0 {
        Meaning::Usage("/kick <nick> [reason]"@)
    } else {
        Meaning::Kick { nick, reason }
    }
}

fn parse_kick(args: &[char]) -> (command: SlashCommand)
    ensures
        command@ == kick_meaning(args@),
{
    let (nick, reason) = split_word(args);
    if nick.len() == 0 {
        SlashCommand::Usage("/kick <nick> [reason]")
    } else {
        SlashCommand::Kick { nick: string_of(nick), reason: string_of(reason) }
    }
}

/// What `/kb` does with its arguments.
pub open spec fn kick_ban_meaning(args: Seq<char>) -> Meaning {
    let (nick, reason) = first_word(args);
    if nick.len() == 0 {
        Meaning::Usage("/kb <nick> [reason]"@)
    } else {
        Meaning::KickBan { nick, reason }
    }
}

fn parse_kick_ban(args: &[char]) -> (command: SlashCommand)
    ensures
        command@ == kick_ban_meaning(args@),
{
    let (nick, reason) = split_word(args);
    if nick.len() == 0 {
        SlashCommand::Usage("/kb <nick> [reason]")
    } else {
        SlashCommand::KickBan { nick: string_of(nick), reason: string_of(reason) }
    }
}

/// What `/mode` does with its arguments: modes come first, or behind their
/// target; a lone channel asks for its modes.
pub open spec fn mode_meaning(args: Seq<char>) -> Meaning {
    let parts = words(args);
    if parts.len() == 0 {
        Meaning::ModeShow { channel: None }
    } else if parts[0].len() > 0 && (parts[0][0] == '+' || parts[0][0] == '-') {
        Meaning::Mode { target: None, modes: parts[0], params: parts.skip(1) }
    } else if parts.len() >= 2 {
        Meaning::Mode { target: Some(parts[0]), modes: parts[1], params: parts.skip(2) }
    } else if names_channel(parts[0]) {
        Meaning::ModeShow { channel: Some(parts[0]) }
    } else {
        Meaning::Usage("/mode [target] <modes> [params]"@)
    }
}

fn parse_mode(args: &[char]) -> (command: SlashCommand)
    ensures
        command@ == mode_meaning(args@),
{
    let parts = words_of(args);
    if parts.len() == 0 {
        return SlashCommand::ModeShow { channel: None };
    }
    let ghost all = texts(parts@);
    let first = chars_of(parts[0].as_str());
    assert(first@ == all[0]);
    if first.len() > 0 && (first[0] == '+' || first[0] == '-') {
        SlashCommand::Mode {
            target: None,
            modes: parts[0].clone(),
            params: strings_from(&parts, 1),
        }
    } else if parts.len() >= 2 {
        assert(parts@[1]@ == all[1]);
        SlashCommand::Mode {
            target: Some(parts[0].clone()),
            modes: parts[1].clone(),
            params: strings_from(&parts, 2),
        }
    } else if has_sigil(&first) {
        SlashCommand::ModeShow { channel: Some(parts[0].clone()) }
    } else {
        SlashCommand::Usage("/mode [target] <modes> [params]")
    }
}

/// What `/umode` does with its arguments.
pub open spec fn umode_meaning(args: Seq<char>) -> Meaning {
    if words(args).len() == 0 {
        Meaning::UmodeShow
    } else {
        match only_word(args) {
            Some(modes) => Meaning::Umode(modes),
            None => Meaning::Usage("/umode [modes]"@),
        }
    }
}

fn parse_umode(args: &[char]) -> (command: SlashCommand)
    ensures
        command@ == umode_meaning(args@),
{
    let parts = words_of(args);
    if parts.len() == 0 {
        return SlashCommand::UmodeShow;
    }
    match single_word(args) {
        Some(modes) => SlashCommand::Umode(modes),
        None => SlashCommand::Usage("/umode [modes]"),
    }
}

/// What `/names` does with its arguments.
pub open spec fn names_meaning(args: Seq<char>) -> Meaning {
    if words(args).len() == 0 {
        Meaning::Names(None)
    } else {
        match only_word(args) {
            Some(channel) => Meaning::Names(Some(channel)),
            None => Meaning::Usage("/names [#channel]"@),
        }
    }
}

fn parse_names(args: &[char]) -> (command: SlashCommand)
    ensures
        command@ == names_meaning(args@),
{
    let parts = words_of(args);
    if parts.len() == 0 {
        return SlashCommand::Names(None);
    }
    match single_word(args) {
        Some(channel) => SlashCommand::Names(Some(channel)),
        None => SlashCommand::Usage("/names [#channel]"),
    }
}

/// What `/oper` does with its arguments.
pub open spec fn oper_meaning(args: Seq<char>) -> Meaning {
    let parts = words(args);
    if parts.len() == 2 {
        Meaning::Oper { name: parts[0], password: parts[1] }
    } else {
        Meaning::Usage("/oper <name> <password>"@)
    }
}

fn parse_oper(args: &[char]) -> (command: SlashCommand)
    ensures
        command@ == oper_meaning(args@),
{
    let parts = words_of(args);
    if parts.len() == 2 {
        assert(texts(parts@)[0] == parts@[0]@);
        assert(texts(parts@)[1] == parts@[1]@);
        SlashCommand::Oper { name: parts[0].clone(), password: parts[1].clone() }
    } else {
        SlashCommand::Usage("/oper <name> <password>")
    }
}

/// What `/kill` does with its arguments.
pub open spec fn kill_meaning(args: Seq<char>) -> Meaning {
    let (nick, reason) = first_word(args);
    if nick.len() == 0 {
        Meaning::Usage("/kill <nick> [reason]"@)
    } else if reason.len() == 0 {
        Meaning::Raw("KILL "@ + nick)
    } else {
        Meaning::Raw("KILL "@ + nick + " :"@ + reason)
    }
}

fn parse_kill(args: &[char]) -> (command: SlashCommand)
    ensures
        command@ == kill_meaning(args@),
{
    let (nick, reason) = split_word(args);
    if nick.len() == 0 {
        return SlashCommand::Usage("/kill <nick> [reason]");
    }
    let mut line = String::new();
    line.append("KILL ");
    line.append(string_of(nick).as_str());
    if reason.len() > 0 {
        line.append(" :");
        line.append(string_of(reason).as_str());
        assert(line@ =~= "KILL "@ + nick@ + " :"@ + reason@);
    } else {
        assert(line@ =~= "KILL "@ + nick@);
    }
    SlashCommand::Raw(line)
}

/// What `/stats` and `/rehash` do with their arguments: the verb in
/// capitals, then the words by single spaces.
pub open spec fn server_query(verb: Seq<char>, args: Seq<char>) -> Seq<char> {
    if words(args).len() == 0 {
        uppered(verb)
    } else {
        uppered(verb) + seq![' '] + join(words(args), " "@)
    }
}

fn parse_server_query(verb: &[char], args: &[char]) -> (command: SlashCommand)
    ensures
        command@ == Meaning::Raw(server_query(verb@, args@)),
{
    let verb = uppercase(verb);
    let mut line = string_of(&verb);
    let params = words_of(args);
    if params.len() > 0 {
        line.push(' ');
        line.append(joined(&params, " ").as_str());
        assert(line@ =~= verb@ + seq![' '] + join(texts(params@), " "@));
    }
    SlashCommand::Raw(line)
}

/// What `/alias` does with its arguments. Slashes before the name and before
/// the expansion are dropped.
pub open spec fn alias_meaning(args: Seq<char>) -> Meaning {
    let (name, expansion) = first_word(args);
    let name = lowered(skip_leading(name, |c: char| c == '/'));
    let expansion = skip_leading(expansion, |c: char| c == '/');
    if name.len() == 0 || expansion.len() == 0 {
        Meaning::Usage("/alias <name> <expansion>"@)
    } else {
        Meaning::AliasDefine { name, expansion }
    }
}

fn parse_alias(args: &[char]) -> (command: SlashCommand)
    ensures
        command@ == alias_meaning(args@),
{
    let (name, expansion) = split_word(args);
    let name = lowercase(without_leading(name, '/'));
    let expansion = without_leading(expansion, '/');
    if name.len() == 0 || expansion.len() == 0 {
        SlashCommand::Usage("/alias <name> <expansion>")
    } else {
        SlashCommand::AliasDefine { name: string_of(&name), expansion: string_of(expansion) }
    }
}

/// What `/unalias` does with its arguments.
pub open spec fn unalias_meaning(args: Seq<char>) -> Meaning {
    match only_word(args) {
        Some(name) => Meaning::Unalias(lowered(skip_leading(name, |c: char| c == '/'))),
        None => Meaning::Usage("/unalias <name>"@),
    }
}

fn parse_unalias(args: &[char]) -> (command: SlashCommand)
    ensures
        command@ == unalias_meaning(args@),
{
    match single_word(args) {
        Some(name) => {
            let name = chars_of(name.as_str());
            let small = lowercase(without_leading(&name, '/'));
            SlashCommand::Unalias(string_of(&small))
        },
        None => SlashCommand::Usage("/unalias <name>"),
    }
}

/// What the services shortcuts do, and every verb that is not known, which is
/// kept as it was typed.
pub open spec fn service_meaning(typed: Seq<char>, args: Seq<char>) -> Meaning {
    match service_of(lowered(typed)) {
        Some(service) => if args.len() > 0 {
            Meaning::Msg { target: service, text: args }
        } else {
            Meaning::Usage("/ns <command>"@)
        },
        None => Meaning::Unknown(seq!['/'] + typed),
    }
}

fn parse_service(verb: &[char], typed: &[char], args: &[char]) -> (command: SlashCommand)
    requires
        verb@ == lowered(typed@),
    ensures
        command@ == service_meaning(typed@, args@),
{
    match service_nick(verb) {
        Some(service) => {
            if args.len() > 0 {
                let mut target = String::new();
                target.append(service);
                assert(target@ =~= service@);
                SlashCommand::Msg { target, text: string_of(args) }
            } else {
                SlashCommand::Usage("/ns <command>")
            }
        },
        None => {
            let mut name = String::new();
            name.push('/');
            name.append(string_of(typed).as_str());
            assert(name@ =~= seq!['/'] + typed@);
            SlashCommand::Unknown(name)
        },
    }
}

/// The meaning that takes `text`, or the hint `syntax` where there is none.
pub open spec fn with_text(
    text: Option<Seq<char>>,
    meaning: spec_fn(Seq<char>) -> Meaning,
    syntax: Seq<char>,
) -> Meaning {
    match text {
        Some(text) => meaning(text),
        None => Meaning::Usage(syntax),
    }
}

/// What a verb does with its arguments, in any letter case.
pub open spec fn verb_meaning(typed: Seq<char>, args: Seq<char>) -> Meaning {
    let verb = lowered(typed);
    if verb == "me"@ {
        Meaning::Action(args)
    } else if verb == "msg"@ {
        msg_meaning(args)
    } else if verb == "notice"@ {
        notice_meaning(args)
    } else if verb == "query"@ || verb == "q"@ {
        query_meaning(args)
    } else if verb == "join"@ || verb == "j"@ {
        join_meaning(args)
    } else if verb == "part"@ {
        Meaning::Part { channel: channel_and_reason(args).0, reason: channel_and_reason(args).1 }
    } else if verb == "cycle"@ {
        Meaning::Cycle { channel: channel_and_reason(args).0, reason: channel_and_reason(args).1 }
    } else if verb == "topic"@ {
        topic_meaning(args)
    } else if verb == "nick"@ {
        with_text(only_word(args), |nick: Seq<char>| Meaning::Nick(nick), "/nick <nick>"@)
    } else if verb == "away"@ {
        Meaning::Away(unless_empty(away_reason(args)))
    } else if verb == "ctcp"@ {
        ctcp_meaning(args)
    } else if verb == "ping"@ {
        with_text(only_word(args), |target: Seq<char>| Meaning::Ping(target), "/ping <target>"@)
    } else if verb == "op"@ || verb == "deop"@ || verb == "voice"@ || verb == "devoice"@ {
        nick_modes_meaning(verb, args)
    } else if verb == "kick"@ {
        kick_meaning(args)
    } else if verb == "kb"@ || verb == "kickban"@ {
        kick_ban_meaning(args)
    } else if verb == "ban"@ {
        with_text(only_word(args), |mask: Seq<char>| Meaning::Ban(mask), "/ban <nick-or-mask>"@)
    } else if verb == "unban"@ {
        with_text(only_word(args), |mask: Seq<char>| Meaning::Unban(mask), "/unban <mask>"@)
    } else if verb == "mode"@ {
        mode_meaning(args)
    } else if verb == "umode"@ {
        umode_meaning(args)
    } else if verb == "names"@ {
        names_meaning(args)
    } else if verb == "quote"@ || verb == "raw"@ {
        with_text(
            unless_empty(args),
            |line: Seq<char>| Meaning::Raw(line),
            "/quote <raw IRC line>"@,
        )
    } else if verb == "oper"@ {
        oper_meaning(args)
    } else if verb == "kill"@ {
        kill_meaning(args)
    } else if verb == "stats"@ || verb == "rehash"@ {
        Meaning::Raw(server_query(verb, args))
    } else if verb == "connect"@ {
        with_text(
            only_word(args),
            |network: Seq<char>| Meaning::Connect(network),
            "/connect <network>"@,
        )
    } else if verb == "disconnect"@ {
        Meaning::Disconnect {
            network: network_and_reason(args).0,
            reason: network_and_reason(args).1,
        }
    } else if verb == "reconnect"@ {
        Meaning::Reconnect {
            network: network_and_reason(args).0,
            reason: network_and_reason(args).1,
        }
    } else if verb == "quit"@ {
        Meaning::Quit(unless_empty(args))
    } else if verb == "hilight"@ || verb == "highlight"@ || verb == "dehilight"@ {
        with_text(
            unless_empty(args),
            |pattern: Seq<char>| Meaning::Highlight { add: verb != "dehilight"@, pattern },
            "/hilight <pattern>"@,
        )
    } else if verb == "ignore"@ || verb == "unignore"@ {
        with_text(
            only_word(args),
            |mask: Seq<char>| Meaning::Ignore { add: verb == "ignore"@, mask },
            "/ignore <nick!user@host>"@,
        )
    } else if verb == "notify"@ || verb == "watch"@ {
        if words(args).len() == 0 {
            Meaning::Usage("/notify <nick> [nick...]"@)
        } else {
            Meaning::Notify(words(args))
        }
    } else if verb == "alias"@ {
        alias_meaning(args)
    } else if verb == "unalias"@ {
        unalias_meaning(args)
    } else if verb == "ame"@ {
        with_text(
            unless_empty(args),
            |text: Seq<char>| Meaning::FanOut { action: true, text },
            "/ame <text>"@,
        )
    } else if verb == "amsg"@ {
        with_text(
            unless_empty(args),
            |text: Seq<char>| Meaning::FanOut { action: false, text },
            "/amsg <text>"@,
        )
    } else {
        service_meaning(typed, args)
    }
}

#[verifier::rlimit(60)]
fn parse_verb(verb: &[char], typed: &[char], args: &[char]) -> (command: SlashCommand)
    requires
        verb@ == lowered(typed@),
    ensures
        command@ == verb_meaning(typed@, args@),
{
    if is_text(verb, "me") {
        SlashCommand::Action(string_of(args))
    } else if is_text(verb, "msg") {
        parse_msg(args)
    } else if is_text(verb, "notice") {
        parse_notice(args)
    } else if is_text(verb, "query") || is_text(verb, "q") {
        parse_query(args)
    } else if is_text(verb, "join") || is_text(verb, "j") {
        parse_join(args)
    } else if is_text(verb, "part") {
        let (channel, reason) = channel_reason(args);
        SlashCommand::Part { channel, reason }
    } else if is_text(verb, "cycle") {
        let (channel, reason) = channel_reason(args);
        SlashCommand::Cycle { channel, reason }
    } else if is_text(verb, "topic") {
        parse_topic(args)
    } else if is_text(verb, "nick") {
        match single_word(args) {
            Some(nick) => SlashCommand::Nick(nick),
            None => SlashCommand::Usage("/nick <nick>"),
        }
    } else if is_text(verb, "away") {
        parse_away(args)
    } else if is_text(verb, "ctcp") {
        parse_ctcp(args)
    } else if is_text(verb, "ping") {
        match single_word(args) {
            Some(target) => SlashCommand::Ping(target),
            None => SlashCommand::Usage("/ping <target>"),
        }
    } else if is_text(verb, "op") {
        parse_nick_modes("op", args)
    } else if is_text(verb, "deop") {
        parse_nick_modes("deop", args)
    } else if is_text(verb, "voice") {
        parse_nick_modes("voice", args)
    } else if is_text(verb, "devoice") {
        parse_nick_modes("devoice", args)
    } else if is_text(verb, "kick") {
        parse_kick(args)
    } else if is_text(verb, "kb") || is_text(verb, "kickban") {
        parse_kick_ban(args)
    } else if is_text(verb, "ban") {
        match single_word(args) {
            Some(mask) => SlashCommand::Ban(mask),
            None => SlashCommand::Usage("/ban <nick-or-mask>"),
        }
    } else if is_text(verb, "unban") {
        match single_word(args) {
            Some(mask) => SlashCommand::Unban(mask),
            None => SlashCommand::Usage("/unban <mask>"),
        }
    } else if is_text(verb, "mode") {
        parse_mode(args)
    } else if is_text(verb, "umode") {
        parse_umode(args)
    } else if is_text(verb, "names") {
        parse_names(args)
    } else if is_text(verb, "quote") || is_text(verb, "raw") {
        match non_empty(args) {
            Some(line) => SlashCommand::Raw(line),
            None => SlashCommand::Usage("/quote <raw IRC line>"),
        }
    } else if is_text(verb, "oper") {
        parse_oper(args)
    } else if is_text(verb, "kill") {
        parse_kill(args)
    } else if is_text(verb, "stats") || is_text(verb, "rehash") {
        parse_server_query(verb, args)
    } else if is_text(verb, "connect") {
        match single_word(args) {
            Some(network) => SlashCommand::Connect(network),
            None => SlashCommand::Usage("/connect <network>"),
        }
    } else if is_text(verb, "disconnect") {
        let (network, reason) = network_reason(args);
        SlashCommand::Disconnect { network, reason }
    } else if is_text(verb, "reconnect") {
        let (network, reason) = network_reason(args);
        SlashCommand::Reconnect { network, reason }
    } else if is_text(verb, "quit") {
        SlashCommand::Quit(non_empty(args))
    } else if is_text(verb, "hilight") || is_text(verb, "highlight") || is_text(
        verb,
        "dehilight",
    ) {
        let add = !is_text(verb, "dehilight");
        match non_empty(args) {
            Some(pattern) => SlashCommand::Highlight { add, pattern },
            None => SlashCommand::Usage("/hilight <pattern>"),
        }
    } else if is_text(verb, "ignore") || is_text(verb, "unignore") {
        let add = is_text(verb, "ignore");
        match single_word(args) {
            Some(mask) => SlashCommand::Ignore { add, mask },
            None => SlashCommand::Usage("/ignore <nick!user@host>"),
        }
    } else if is_text(verb, "notify") || is_text(verb, "watch") {
        let nicks = words_of(args);
        if nicks.len() == 0 {
            SlashCommand::Usage("/notify <nick> [nick...]")
        } else {
            SlashCommand::Notify(nicks)
        }
    } else if is_text(verb, "alias") {
        parse_alias(args)
    } else if is_text(verb, "unalias") {
        parse_unalias(args)
    } else if is_text(verb, "ame") {
        match non_empty(args) {
            Some(text) => SlashCommand::FanOut { action: true, text },
            None => SlashCommand::Usage("/ame <text>"),
        }
    } else if is_text(verb, "amsg") {
        match non_empty(args) {
            Some(text) => SlashCommand::FanOut { action: false, text },
            None => SlashCommand::Usage("/amsg <text>"),
        }
    } else {
        parse_service(verb, typed, args)
    }
}

/// Whether a trimmed line is a command, or the escape of one: it starts with
/// a slash, and something follows.
pub open spec fn is_command(line: Seq<char>) -> bool {
    line.len() > 1 && line[0] == '/'
}

/// What a compose-line entry says; `None` for anything that isn't a slash
/// command.
pub open spec fn line_meaning(input: Seq<char>) -> Option<Meaning> {
    let line = trim(input);
    if line.len() == 0 || line[0] != '/' {
        None
    } else if line.len() > 1 && line[1] == '/' {
        Some(Meaning::Say(line.skip(1)))
    } else {
        let (verb, args) = first_word(line.skip(1));
        if verb.len() == 0 {
            None
        } else {
            Some(verb_meaning(verb, args))
        }
    }
}

/// Parses a compose-line entry. `None` for anything that isn't a slash
/// command.
pub fn parse(input: &str) -> (command: Option<SlashCommand>)
    ensures
        match command {
            Some(command) => line_meaning(input@) == Some(command@),
            None => line_meaning(input@) is None,
        },
{
    let input = chars_of(input);
    let line = trimmed(&input);
    if line.len() == 0 || line[0] != '/' {
        return None;
    }
    let rest = tail(line, 1);
    if rest.len() > 0 && rest[0] == '/' {
        return Some(SlashCommand::Say(string_of(rest)));
    }
    let (typed, args) = split_word(rest);
    if typed.len() == 0 {
        return None;
    }
    let verb = lowercase(typed);
    Some(parse_verb(&verb, typed, args))
}

/// The first word of a text that does not end in white space is empty only
/// when the text is.
proof fn lemma_first_word_of_trimmed(text: Seq<char>)
    requires
        text.len() > 0 ==> !is_space(text.last()),
    ensures
        first_word(text).0.len() == 0 <==> text.len() == 0,
{
    let space = |c: char| is_space(c);
    let kept = |c: char| !space(c);
    lemma_first_where(text, kept);
    let start = trim_start(text);
    if text.len() > 0 {
        if first_where(text, kept) == text.len() {
            assert(!kept(text[text.len() - 1]));
        }
        assert(start[0] == text[first_where(text, kept)]);
        lemma_first_where(start, space);
    } else {
        lemma_first_where(start, space);
    }
}

/// A verb behind a slash, then its arguments behind a space, mean what the
/// verb does with the trimmed arguments.
pub proof fn a_command_line_is_its_verb_and_arguments(verb: Seq<char>, args: Seq<char>)
    requires
        verb.len() > 0,
        verb[0] != '/',
        forall|i: int| 0 <= i < verb.len() ==> !is_space(#[trigger] verb[i]),
    ensures
        line_meaning(seq!['/'] + verb + seq![' '] + args) == Some(
            verb_meaning(verb, trim(args)),
        ),
{
    let input = seq!['/'] + verb + seq![' '] + args;
    let n = verb.len() as int;
    let (a, b) = lemma_trim_bounds(args);
    let end = if a < b {
        n + 2 + b
    } else {
        n + 1
    };
    assert forall|i: int| end <= i < input.len() implies is_space(#[trigger] input[i]) by {
        if i >= n + 2 {
            assert(input[i] == args[i - n - 2]);
        }
    }
    assert(input[n] == verb[n - 1]);
    if a < b {
        assert(input[n + 2 + b - 1] == args[b - 1]);
    }
    lemma_trim_is(input, 0, end);
    let line = trim(input);
    assert(line =~= input.take(end));
    let rest = line.skip(1);
    assert(rest[0] == verb[0]);
    assert(!is_space(verb[0]));
    let space = |c: char| is_space(c);
    let kept = |c: char| !space(c);
    lemma_first_where_is(rest, kept, 0);
    assert(trim_start(rest) =~= rest);
    assert forall|i: int| 0 <= i < n implies !space(#[trigger] rest[i]) by {
        assert(rest[i] == verb[i]);
    }
    lemma_first_where_is(rest, space, n);
    assert(rest.take(n) =~= verb);
    let behind = rest.skip(n);
    if a < b {
        assert forall|i: int| 0 <= i < a + 1 implies is_space(#[trigger] behind[i]) by {
            if i > 0 {
                assert(behind[i] == args[i - 1]);
            }
        }
        assert(behind[a + 1] == args[a]);
        assert(behind[b] == args[b - 1]);
        lemma_trim_is(behind, a + 1, b + 1);
        assert(behind.subrange(a + 1, b + 1) =~= args.subrange(a, b));
    } else {
        lemma_trim_is(behind, 0, 0);
        assert(trim(behind) =~= trim(args));
    }
}

/// A line is parsed exactly when, trimmed, it is a slash and more; a bare
/// slash and plain text are not commands.
pub proof fn exactly_commands_are_parsed(input: Seq<char>)
    ensures
        line_meaning(input) is Some <==> is_command(trim(input)),
{
    let line = trim(input);
    if line.len() > 0 && line[0] == '/' {
        let rest = line.skip(1);
        lemma_trim_ends(input);
        lemma_first_word_of_trimmed(rest);
    }
}

/// The letter case of a verb does not matter; one that is not known is kept
/// as it was typed.
pub proof fn letter_case_of_a_verb_is_ignored(verb: Seq<char>, args: Seq<char>)
    requires
        verb.len() > 0,
        verb[0] != '/',
        forall|i: int| 0 <= i < verb.len() ==> !is_space(#[trigger] verb[i]),
    ensures
        match line_meaning(seq!['/'] + lowered(verb) + seq![' '] + args) {
            Some(Meaning::Unknown(_)) => line_meaning(seq!['/'] + verb + seq![' '] + args)
                == Some(Meaning::Unknown(seq!['/'] + verb)),
            meaning => line_meaning(seq!['/'] + verb + seq![' '] + args) == meaning,
        },
{
    let small = lowered(verb);
    assert forall|i: int| 0 <= i < small.len() implies !is_space(#[trigger] small[i]) by {
        assert(!is_space(verb[i]));
    }
    a_command_line_is_its_verb_and_arguments(verb, args);
    a_command_line_is_its_verb_and_arguments(small, args);
    assert(lowered(small) =~= small) by {
        assert forall|i: int| 0 <= i < small.len() implies lower(small[i]) == small[i] by {}
    }
}

/// How many aliases may expand into one another before the chain is refused.
pub const MAX_ALIAS_DEPTH: usize = 5;

/// The texts of a list of aliases, each a name and its expansion.
pub open spec fn alias_texts(aliases: Seq<(String, String)>) -> Seq<(Seq<char>, Seq<char>)> {
    Seq::new(aliases.len(), |i: int| (aliases[i].0@, aliases[i].1@))
}

/// Whether a template begins with `$*`, which takes the raw argument text.
pub open spec fn takes_all(template: Seq<char>) -> bool {
    template.len() >= 2 && template[0] == '$' && template[1] == '*'
}

/// Whether a template begins with `$1` to `$9`, which take one argument.
pub open spec fn takes_argument(template: Seq<char>) -> bool {
    template.len() >= 2 && template[0] == '$' && '1' <= template[1] <= '9'
}

/// Whether a template begins with `$1-` to `$9-`, which take an argument and
/// those behind it.
pub open spec fn takes_rest(template: Seq<char>) -> bool {
    takes_argument(template) && template.len() >= 3 && template[2] == '-'
}

pub open spec fn has_placeholder(template: Seq<char>) -> bool {
    exists|i: int|
        0 <= i < template.len() && (takes_all(#[trigger] template.skip(i)) || takes_argument(
            template.skip(i),
        ))
}

/// The template with its placeholders replaced: an argument that is missing
/// is empty, several are joined by single spaces.
pub open spec fn filled(template: Seq<char>, rest: Seq<char>) -> Seq<char>
    decreases template.len(),
{
    let args = words(rest);
    let position = template[1] as int - '1' as int;
    if template.len() == 0 {
        Seq::empty()
    } else if takes_all(template) {
        rest + filled(template.skip(2), rest)
    } else if takes_rest(template) {
        (if position <= args.len() {
            join(args.skip(position), " "@)
        } else {
            Seq::empty()
        }) + filled(template.skip(3), rest)
    } else if takes_argument(template) {
        (if position < args.len() {
            args[position]
        } else {
            Seq::empty()
        }) + filled(template.skip(2), rest)
    } else {
        seq![template[0]] + filled(template.skip(1), rest)
    }
}

/// A template with the arguments filled in, or, where it has no placeholder,
/// with the arguments appended.
pub open spec fn substitution(template: Seq<char>, rest: Seq<char>) -> Seq<char> {
    if has_placeholder(template) {
        filled(template, rest)
    } else if rest.len() == 0 {
        template
    } else {
        template + seq![' '] + rest
    }
}

/// The expansion of the first alias of the list that `verb`, in small
/// letters, names. Slashes before an alias's name do not count.
pub open spec fn alias_for(
    aliases: Seq<(Seq<char>, Seq<char>)>,
    verb: Seq<char>,
) -> Option<Seq<char>>
    decreases aliases.len(),
{
    if aliases.len() == 0 {
        None
    } else if lowered(skip_leading(aliases[0].0, |c: char| c == '/')) == verb {
        Some(aliases[0].1)
    } else {
        alias_for(aliases.drop_first(), verb)
    }
}

/// Where a chain of aliases leads.
pub enum Chain {
    /// To a verb that is no alias, after some expansions.
    Ends { verb: Seq<char>, rest: Seq<char>, depth: nat },
    /// Further than the chain may go; the verbs on the way.
    TooDeep(Seq<Seq<char>>),
}

/// What the expansion of `verb` and `rest` by a template gives.
pub open spec fn next_verb(template: Seq<char>, rest: Seq<char>) -> (Seq<char>, Seq<char>) {
    first_word(trim(substitution(skip_leading(template, |c: char| c == '/'), rest)))
}

/// Follows the aliases from `verb`, after `depth` expansions along `chain`.
pub open spec fn follow(
    aliases: Seq<(Seq<char>, Seq<char>)>,
    verb: Seq<char>,
    rest: Seq<char>,
    depth: nat,
    chain: Seq<Seq<char>>,
) -> Chain
    decreases MAX_ALIAS_DEPTH - depth,
{
    let small = lowered(verb);
    if small == "alias"@ || small == "unalias"@ || alias_for(aliases, small) is None {
        Chain::Ends { verb, rest, depth }
    } else if depth >= MAX_ALIAS_DEPTH {
        Chain::TooDeep(chain)
    } else {
        let (verb, rest) = next_verb(alias_for(aliases, small)->0, rest);
        follow(aliases, verb, rest, depth + 1, chain.push(lowered(verb)))
    }
}

/// The full form of a short verb.
pub open spec fn short_form(verb: Seq<char>) -> Option<Seq<char>> {
    if verb == "w"@ {
        Some("whois"@)
    } else if verb == "n"@ {
        Some("names"@)
    } else {
        None
    }
}

pub open spec fn command_line(verb: Seq<char>, rest: Seq<char>) -> Seq<char> {
    if rest.len() == 0 {
        seq!['/'] + verb
    } else {
        seq!['/'] + verb + seq![' '] + rest
    }
}

/// Whether a line has a slash before it, and not the one that escapes it.
pub open spec fn has_verb(line: Seq<char>) -> bool {
    line.len() > 0 && line[0] == '/' && !(line.len() > 1 && line[1] == '/')
}

/// The line to parse in place of `input`, or the alias chain that runs too
/// deep.
pub open spec fn expansion(
    input: Seq<char>,
    aliases: Seq<(Seq<char>, Seq<char>)>,
) -> Result<Seq<char>, Seq<char>> {
    let line = trim(input);
    if !has_verb(line) {
        Ok(input)
    } else {
        let (verb, rest) = first_word(line.skip(1));
        match follow(aliases, verb, rest, 0, seq![lowered(verb)]) {
            Chain::TooDeep(chain) => Err(join(chain, " → "@)),
            Chain::Ends { verb, rest, depth } => match short_form(lowered(verb)) {
                Some(full) => Ok(command_line(full, rest)),
                None => if depth == 0 {
                    Ok(input)
                } else {
                    Ok(command_line(verb, rest))
                },
            },
        }
    }
}

fn push_text(text: &mut String, more: &[char])
    ensures
        final(text)@ == old(text)@ + more@,
{
    text.append(string_of(more).as_str());
}

/// Fills an alias template from the arguments typed after it.
fn substitute_alias(template: &[char], rest: &[char]) -> (text: String)
    ensures
        text@ == substitution(template@, rest@),
{
    let args = words_of(rest);
    let ghost all = texts(args@);
    let mut out = String::new();
    let mut substituted = false;
    let mut index: usize = 0;
    assert(template@.skip(0) =~= template@);
    while index < template.len()
        invariant
            index <= template@.len(),
            all == texts(args@),
            all == words(rest@),
            out@ + filled(template@.skip(index as int), rest@) == filled(template@, rest@),
            substituted ==> has_placeholder(template@),
            !substituted ==> forall|j: int|
                0 <= j < index ==> !takes_all(#[trigger] template@.skip(j)) && !takes_argument(
                    template@.skip(j),
                ),
        decreases template@.len() - index,
    {
        let ghost here = template@.skip(index as int);
        let ghost before = out@;
        let left: usize = template.len() - index;
        assert(forall|k: int| 0 <= k < left ==> #[trigger] here[k] == template@[index + k]);
        if left >= 2 && template[index] == '$' && template[index + 1] == '*' {
            push_text(&mut out, rest);
            substituted = true;
            assert(takes_all(here));
            assert(here.skip(2) =~= template@.skip(index + 2));
            assert(out@ + filled(here.skip(2), rest@) =~= before + (rest@ + filled(
                here.skip(2),
                rest@,
            )));
            index += 2;
        } else if left >= 2 && template[index] == '$' && '1' <= template[index + 1]
            && template[index + 1] <= '9' {
            let position: usize = (template[index + 1] as u8 - 49u8) as usize;
            assert(takes_argument(here));
            substituted = true;
            if left >= 3 && template[index + 2] == '-' {
                if position <= args.len() {
                    let tail = strings_from(&args, position);
                    let text = joined(&tail, " ");
                    out.append(text.as_str());
                }
                assert(here.skip(3) =~= template@.skip(index + 3));
                assert(out@ + filled(here.skip(3), rest@) =~= before + ((if position
                    <= all.len() {
                    join(all.skip(position as int), " "@)
                } else {
                    Seq::empty()
                }) + filled(here.skip(3), rest@)));
                index += 3;
            } else {
                if position < args.len() {
                    assert(args@[position as int]@ == all[position as int]);
                    out.append(args[position].as_str());
                }
                assert(here.skip(2) =~= template@.skip(index + 2));
                assert(out@ + filled(here.skip(2), rest@) =~= before + ((if position < all.len() {
                    all[position as int]
                } else {
                    Seq::empty()
                }) + filled(here.skip(2), rest@)));
                index += 2;
            }
        } else {
            out.push(template[index]);
            assert(!takes_all(here) && !takes_argument(here));
            assert(here.skip(1) =~= template@.skip(index + 1));
            assert(out@ + filled(here.skip(1), rest@) =~= before + (seq![here[0]] + filled(
                here.skip(1),
                rest@,
            )));
            index += 1;
        }
    }
    assert(template@.skip(index as int) =~= Seq::empty());
    assert(out@ =~= filled(template@, rest@));
    if substituted {
        out
    } else if rest.len() == 0 {
        string_of(template)
    } else {
        let mut text = string_of(template);
        text.push(' ');
        push_text(&mut text, rest);
        assert(text@ =~= template@ + seq![' '] + rest@);
        text
    }
}

fn find_alias<'a>(aliases: &'a Vec<(String, String)>, verb: &[char]) -> (found: Option<
    &'a String,
>)
    ensures
        match found {
            Some(expansion) => alias_for(alias_texts(aliases@), verb@) == Some(expansion@),
            None => alias_for(alias_texts(aliases@), verb@) is None,
        },
{
    let ghost all = alias_texts(aliases@);
    let mut i: usize = 0;
    assert(all.skip(0) =~= all);
    while i < aliases.len()
        invariant
            i <= aliases@.len(),
            all == alias_texts(aliases@),
            alias_for(all, verb@) == alias_for(all.skip(i as int), verb@),
        decreases aliases@.len() - i,
    {
        let name = chars_of(aliases[i].0.as_str());
        let small = lowercase(without_leading(&name, '/'));
        let ghost here = all.skip(i as int);
        assert(here[0] == (aliases@[i as int].0@, aliases@[i as int].1@));
        assert(here.drop_first() =~= all.skip(i + 1));
        if same(&small, verb) {
            return Some(&aliases[i].1);
        }
        i += 1;
    }
    assert(all.skip(i as int) =~= Seq::empty());
    None
}

fn line_of(verb: &[char], rest: &[char]) -> (line: String)
    ensures
        line@ == command_line(verb@, rest@),
{
    let mut line = String::new();
    line.push('/');
    push_text(&mut line, verb);
    if rest.len() > 0 {
        line.push(' ');
        push_text(&mut line, rest);
    }
    assert(line@ =~= command_line(verb@, rest@));
    line
}

/// Expands the user's aliases (a name without the slash, and its expansion)
/// at the head of a slash command: `$1`..`$9` take one argument (missing ones
/// are empty), `$N-` the Nth argument and the rest joined by single spaces,
/// `$*` the raw argument text, and an expansion without placeholders gets the
/// arguments appended. `/alias` and `/unalias` are never expanded. The short
/// forms `/w` and `/n` become `/whois` and `/names`. Returns the line to
/// parse, or the alias chain when it runs deeper than [`MAX_ALIAS_DEPTH`].
/// Of two aliases whose names differ only in letter case or in slashes before
/// them, the one earlier in the list is taken.
pub fn expand_aliases(input: &str, aliases: &Vec<(String, String)>) -> (line: Result<
    String,
    String,
>)
    ensures
        match line {
            Ok(line) => expansion(input@, alias_texts(aliases@)) == Ok::<Seq<char>, Seq<char>>(
                line@,
            ),
            Err(chain) => expansion(input@, alias_texts(aliases@)) == Err::<Seq<char>, Seq<char>>(
                chain@,
            ),
        },
{
    let chars = chars_of(input);
    let line = trimmed(&chars);
    if line.len() == 0 || line[0] != '/' || (line.len() > 1 && line[1] == '/') {
        return Ok(input.to_string());
    }
    let ghost all = alias_texts(aliases@);
    let (first, first_rest) = split_word(tail(line, 1));
    let ghost start = follow(all, first@, first_rest@, 0, seq![lowered(first@)]);
    let mut verb = copy_of(first);
    let mut rest = copy_of(first_rest);
    let mut chain: Vec<String> = Vec::new();
    chain.push(string_of(&lowercase(&verb)));
    assert(texts(chain@) =~= seq![lowered(first@)]);
    let mut depth: usize = 0;
    loop
        invariant_except_break
            depth <= MAX_ALIAS_DEPTH,
            all == alias_texts(aliases@),
            line@ == trim(input@),
            has_verb(line@),
            (first@, first_rest@) == first_word(line@.skip(1)),
            start == follow(all, first@, first_rest@, 0, seq![lowered(first@)]),
            start == follow(all, verb@, rest@, depth as nat, texts(chain@)),
        ensures
            start == (Chain::Ends { verb: verb@, rest: rest@, depth: depth as nat }),
        decreases MAX_ALIAS_DEPTH - depth,
    {
        let small = lowercase(&verb);
        if is_text(&small, "alias") || is_text(&small, "unalias") {
            break;
        }
        let template = match find_alias(aliases, &small) {
            Some(template) => template,
            None => {
                break;
            },
        };
        if depth >= MAX_ALIAS_DEPTH {
            return Err(joined(&chain, " → "));
        }
        let template = chars_of(template.as_str());
        let expanded = substitute_alias(without_leading(&template, '/'), &rest);
        let expanded = chars_of(expanded.as_str());
        let (next_verb, next_rest) = split_word(trimmed(&expanded));
        let ghost before = chain@;
        chain.push(string_of(&lowercase(next_verb)));
        assert(texts(chain@) =~= texts(before).push(lowered(next_verb@)));
        verb = copy_of(next_verb);
        rest = copy_of(next_rest);
        depth += 1;
    }
    let small = lowercase(&verb);
    if is_text(&small, "w") {
        Ok(line_of(&chars_of("whois"), &rest))
    } else if is_text(&small, "n") {
        Ok(line_of(&chars_of("names"), &rest))
    } else if depth == 0 {
        Ok(input.to_string())
    } else {
        Ok(line_of(&verb, &rest))
    }
}

/// A line that is no command, or that escapes its slash, is left as it is.
pub proof fn plain_lines_are_not_expanded(
    input: Seq<char>,
    aliases: Seq<(Seq<char>, Seq<char>)>,
)
    requires
        !has_verb(trim(input)),
    ensures
        expansion(input, aliases) == Ok::<Seq<char>, Seq<char>>(input),
{
}

/// `/alias` and `/unalias` are never expanded, whatever aliases there are.
pub proof fn alias_commands_are_not_expanded(
    input: Seq<char>,
    aliases: Seq<(Seq<char>, Seq<char>)>,
)
    requires
        has_verb(trim(input)),
        ({
            let verb = lowered(first_word(trim(input).skip(1)).0);
            verb == "alias"@ || verb == "unalias"@
        }),
    ensures
        expansion(input, aliases) == Ok::<Seq<char>, Seq<char>>(input),
{
    reveal_strlit("alias");
    reveal_strlit("unalias");
    reveal_strlit("w");
    reveal_strlit("n");
    let (verb, rest) = first_word(trim(input).skip(1));
    assert(follow(aliases, verb, rest, 0, seq![lowered(verb)]) == (Chain::Ends {
        verb,
        rest,
        depth: 0,
    }));
    assert("alias"@.len() == 5 && "unalias"@.len() == 7);
    assert("w"@.len() == 1 && "n"@.len() == 1);
    assert(short_form(lowered(verb)) is None);
}

/// A line whose verb is neither an alias nor a short form is left as it is.
pub proof fn other_commands_are_not_expanded(
    input: Seq<char>,
    aliases: Seq<(Seq<char>, Seq<char>)>,
)
    requires
        has_verb(trim(input)),
        ({
            let verb = lowered(first_word(trim(input).skip(1)).0);
            alias_for(aliases, verb) is None && short_form(verb) is None
        }),
    ensures
        expansion(input, aliases) == Ok::<Seq<char>, Seq<char>>(input),
{
}

/// A chain of aliases that ends has at most `MAX_ALIAS_DEPTH` expansions and
/// ends at a verb that is not expanded; one that is refused passed through
/// `MAX_ALIAS_DEPTH` of them.
pub proof fn a_chain_ends_where_no_alias_is_left(
    aliases: Seq<(Seq<char>, Seq<char>)>,
    verb: Seq<char>,
    rest: Seq<char>,
    depth: nat,
    chain: Seq<Seq<char>>,
)
    requires
        depth <= MAX_ALIAS_DEPTH,
    ensures
        match follow(aliases, verb, rest, depth, chain) {
            Chain::Ends { verb, rest, depth } => {
                let small = lowered(verb);
                depth <= MAX_ALIAS_DEPTH && (small == "alias"@ || small == "unalias"@ || alias_for(
                    aliases,
                    small,
                ) is None)
            },
            Chain::TooDeep(verbs) => verbs.len() == chain.len() + MAX_ALIAS_DEPTH - depth
                && chain.is_prefix_of(verbs),
        },
    decreases MAX_ALIAS_DEPTH - depth,
{
    let small = lowered(verb);
    if small == "alias"@ || small == "unalias"@ || alias_for(aliases, small) is None || depth
        >= MAX_ALIAS_DEPTH {
    } else {
        let (verb, rest) = next_verb(alias_for(aliases, small)->0, rest);
        let longer = chain.push(lowered(verb));
        a_chain_ends_where_no_alias_is_left(aliases, verb, rest, depth + 1, longer);
        assert(chain =~= longer.subrange(0, chain.len() as int));
        if let Chain::TooDeep(verbs) = follow(aliases, verb, rest, depth + 1, longer) {
            assert(chain =~= verbs.subrange(0, chain.len() as int));
        }
    }
}

/// Whether a verb and the rest of a line are as [`first_word`] splits them off
/// a line.
spec fn is_split(verb: Seq<char>, rest: Seq<char>) -> bool {
    &&& forall|i: int| 0 <= i < verb.len() ==> !is_space(#[trigger] verb[i])
    &&& rest.len() > 0 ==> !is_space(rest[0]) && !is_space(rest.last())
    &&& verb.len() == 0 ==> rest.len() == 0
}

proof fn lemma_first_word_is_split(text: Seq<char>)
    requires
        text.len() > 0 ==> !is_space(text.last()),
    ensures
        is_split(first_word(text).0, first_word(text).1),
{
    let space = |c: char| is_space(c);
    let kept = |c: char| !space(c);
    let start = trim_start(text);
    let end = first_where(start, space);
    lemma_first_where(text, kept);
    lemma_first_where(start, space);
    lemma_trim_ends(start.skip(end));
    lemma_first_word_of_trimmed(text);
    let verb = first_word(text).0;
    assert forall|i: int| 0 <= i < verb.len() implies !is_space(#[trigger] verb[i]) by {
        assert(verb[i] == start[i]);
        assert(!space(start[i]));
    }
    if verb.len() == 0 {
        lemma_trim_is(start.skip(end), 0, 0);
    }
}

proof fn lemma_chain_ends_split(
    aliases: Seq<(Seq<char>, Seq<char>)>,
    verb: Seq<char>,
    rest: Seq<char>,
    depth: nat,
    chain: Seq<Seq<char>>,
)
    requires
        is_split(verb, rest),
    ensures
        follow(aliases, verb, rest, depth, chain) matches Chain::Ends { verb, rest, .. }
            ==> is_split(verb, rest),
    decreases MAX_ALIAS_DEPTH - depth,
{
    let small = lowered(verb);
    if small == "alias"@ || small == "unalias"@ || alias_for(aliases, small) is None || depth
        >= MAX_ALIAS_DEPTH {
    } else {
        let template = skip_leading(alias_for(aliases, small)->0, |c: char| c == '/');
        lemma_trim_ends(substitution(template, rest));
        lemma_first_word_is_split(trim(substitution(template, rest)));
        let (verb, rest) = next_verb(alias_for(aliases, small)->0, rest);
        lemma_chain_ends_split(aliases, verb, rest, depth + 1, chain.push(lowered(verb)));
    }
}

/// A line put together from a verb and the rest is split into them again.
proof fn lemma_line_splits(verb: Seq<char>, rest: Seq<char>)
    requires
        is_split(verb, rest),
    ensures
        ({
            let line = command_line(verb, rest);
            &&& trim(line) == line
            &&& has_verb(line) == !(verb.len() > 0 && verb[0] == '/')
            &&& first_word(line.skip(1)) == (verb, rest)
        }),
{
    let line = command_line(verb, rest);
    let n = verb.len() as int;
    let whole = line.len() as int;
    assert(line[0] == '/');
    if rest.len() > 0 {
        assert(line.last() == rest.last());
    } else if n > 0 {
        assert(line.last() == verb[n - 1]);
    }
    lemma_trim_is(line, 0, whole);
    assert(line.subrange(0, whole) =~= line);
    if n > 0 {
        assert(line[1] == verb[0]);
    }
    let text = line.skip(1);
    let space = |c: char| is_space(c);
    let kept = |c: char| !space(c);
    if n > 0 {
        assert(text[0] == verb[0] && !is_space(verb[0]));
    }
    lemma_first_where_is(text, kept, 0);
    assert(trim_start(text) =~= text);
    assert forall|i: int| 0 <= i < n implies !space(#[trigger] text[i]) by {
        assert(text[i] == verb[i]);
    }
    lemma_first_where_is(text, space, n);
    assert(text.take(n) =~= verb);
    let behind = text.skip(n);
    if rest.len() > 0 {
        let m = rest.len() as int;
        assert(behind[0] == ' ');
        assert(behind[1] == rest[0]);
        assert(behind[m] == rest[m - 1]);
        lemma_trim_is(behind, 1, m + 1);
        assert(behind.subrange(1, m + 1) =~= rest);
    } else {
        lemma_trim_is(behind, 0, 0);
        assert(behind.subrange(0, 0) =~= rest);
    }
}

/// A line that is expanded is expanded to the end: another expansion leaves it
/// as it is, as long as no alias has the name of a full form of the short
/// verbs.
pub proof fn an_expanded_line_expands_to_itself(
    input: Seq<char>,
    aliases: Seq<(Seq<char>, Seq<char>)>,
    line: Seq<char>,
)
    requires
        expansion(input, aliases) == Ok::<Seq<char>, Seq<char>>(line),
        alias_for(aliases, "whois"@) is None,
        alias_for(aliases, "names"@) is None,
    ensures
        expansion(line, aliases) == Ok::<Seq<char>, Seq<char>>(line),
{
    let typed = trim(input);
    if has_verb(typed) {
        let (first, first_rest) = first_word(typed.skip(1));
        let start = seq![lowered(first)];
        lemma_trim_ends(input);
        if typed.len() > 1 {
            assert(typed.skip(1).last() == typed.last());
        }
        lemma_first_word_is_split(typed.skip(1));
        lemma_chain_ends_split(aliases, first, first_rest, 0, start);
        a_chain_ends_where_no_alias_is_left(aliases, first, first_rest, 0, start);
        if let Chain::Ends { verb, rest, depth } = follow(aliases, first, first_rest, 0, start) {
            reveal_strlit("whois");
            reveal_strlit("names");
            reveal_strlit("w");
            reveal_strlit("n");
            let shown = match short_form(lowered(verb)) {
                Some(full) => full,
                None => verb,
            };
            if line != input || short_form(lowered(verb)) is Some {
                assert(lowered("whois"@) =~= "whois"@);
                assert(lowered("names"@) =~= "names"@);
                if short_form(lowered(verb)) is Some {
                    assert(lowered(verb).len() == 1);
                    assert(is_split(shown, rest));
                }
                assert(line == command_line(shown, rest));
                lemma_line_splits(shown, rest);
                assert(short_form(lowered(shown)) is None);
                assert(follow(aliases, shown, rest, 0, seq![lowered(shown)]) == (Chain::Ends {
                    verb: shown,
                    rest,
                    depth: 0,
                }));
            }
        }
    }
}

/// What a line means: the meaning that it is parsed to.
#[verifier::opaque]
pub open spec fn meaning(line: Seq<char>) -> Option<Meaning> {
    line_meaning(line)
}

/// A line means what it is parsed to.
pub proof fn a_line_means_what_it_is_parsed_to(line: Seq<char>)
    ensures
        meaning(line) == line_meaning(line),
{
    reveal(meaning);
}

#[verifier::opaque]
spec fn verb_does(verb: Seq<char>, args: Seq<char>) -> Meaning {
    verb_meaning(verb, args)
}

/// What each verb comes to.
#[verifier::rlimit(80)]
#[verifier::spinoff_prover]
proof fn lemma_verbs(args: Seq<char>)
    ensures
        is_plain_verb("me"@),
        is_plain_verb("msg"@),
        is_plain_verb("notice"@),
        is_plain_verb("query"@),
        is_plain_verb("q"@),
        is_plain_verb("join"@),
        is_plain_verb("j"@),
        is_plain_verb("part"@),
        is_plain_verb("cycle"@),
        is_plain_verb("topic"@),
        is_plain_verb("nick"@),
        is_plain_verb("away"@),
        is_plain_verb("ctcp"@),
        is_plain_verb("ping"@),
        is_plain_verb("op"@),
        is_plain_verb("deop"@),
        is_plain_verb("voice"@),
        is_plain_verb("devoice"@),
        is_plain_verb("kick"@),
        is_plain_verb("kb"@),
        is_plain_verb("kickban"@),
        is_plain_verb("ban"@),
        is_plain_verb("unban"@),
        is_plain_verb("mode"@),
        is_plain_verb("umode"@),
        is_plain_verb("names"@),
        is_plain_verb("quote"@),
        is_plain_verb("raw"@),
        is_plain_verb("oper"@),
        is_plain_verb("kill"@),
        is_plain_verb("stats"@),
        is_plain_verb("rehash"@),
        is_plain_verb("connect"@),
        is_plain_verb("disconnect"@),
        is_plain_verb("reconnect"@),
        is_plain_verb("quit"@),
        is_plain_verb("hilight"@),
        is_plain_verb("highlight"@),
        is_plain_verb("dehilight"@),
        is_plain_verb("ignore"@),
        is_plain_verb("unignore"@),
        is_plain_verb("notify"@),
        is_plain_verb("watch"@),
        is_plain_verb("alias"@),
        is_plain_verb("unalias"@),
        is_plain_verb("ame"@),
        is_plain_verb("amsg"@),
        is_plain_verb("cs"@),
        is_plain_verb("ns"@),
        is_plain_verb("ms"@),
        is_plain_verb("os"@),
        is_plain_verb("hs"@),
        is_plain_verb("rs"@),
        verb_does("me"@, args) == (Meaning::Action(args)),
        verb_does("msg"@, args) == (msg_meaning(args)),
        verb_does("notice"@, args) == (notice_meaning(args)),
        verb_does("query"@, args) == (query_meaning(args)),
        verb_does("q"@, args) == (query_meaning(args)),
        verb_does("join"@, args) == (join_meaning(args)),
        verb_does("j"@, args) == (join_meaning(args)),
        verb_does("part"@, args) == (Meaning::Part {
            channel: channel_and_reason(args).0,
            reason: channel_and_reason(args).1,
        }),
        verb_does("cycle"@, args) == (Meaning::Cycle {
            channel: channel_and_reason(args).0,
            reason: channel_and_reason(args).1,
        }),
        verb_does("topic"@, args) == (topic_meaning(args)),
        verb_does("nick"@, args) == (match only_word(args) {
            Some(word) => Meaning::Nick(word),
            None => Meaning::Usage("/nick <nick>"@),
        }),
        verb_does("away"@, args) == (Meaning::Away(unless_empty(away_reason(args)))),
        verb_does("ctcp"@, args) == (ctcp_meaning(args)),
        verb_does("ping"@, args) == (match only_word(args) {
            Some(word) => Meaning::Ping(word),
            None => Meaning::Usage("/ping <target>"@),
        }),
        verb_does("op"@, args) == (nick_modes_meaning("op"@, args)),
        verb_does("deop"@, args) == (nick_modes_meaning("deop"@, args)),
        verb_does("voice"@, args) == (nick_modes_meaning("voice"@, args)),
        verb_does("devoice"@, args) == (nick_modes_meaning("devoice"@, args)),
        verb_does("kick"@, args) == (kick_meaning(args)),
        verb_does("kb"@, args) == (kick_ban_meaning(args)),
        verb_does("kickban"@, args) == (kick_ban_meaning(args)),
        verb_does("ban"@, args) == (match only_word(args) {
            Some(word) => Meaning::Ban(word),
            None => Meaning::Usage("/ban <nick-or-mask>"@),
        }),
        verb_does("unban"@, args) == (match only_word(args) {
            Some(word) => Meaning::Unban(word),
            None => Meaning::Usage("/unban <mask>"@),
        }),
        verb_does("mode"@, args) == (mode_meaning(args)),
        verb_does("umode"@, args) == (umode_meaning(args)),
        verb_does("names"@, args) == (names_meaning(args)),
        verb_does("quote"@, args) == (match unless_empty(args) {
            Some(text) => Meaning::Raw(text),
            None => Meaning::Usage("/quote <raw IRC line>"@),
        }),
        verb_does("raw"@, args) == (match unless_empty(args) {
            Some(text) => Meaning::Raw(text),
            None => Meaning::Usage("/quote <raw IRC line>"@),
        }),
        verb_does("oper"@, args) == (oper_meaning(args)),
        verb_does("kill"@, args) == (kill_meaning(args)),
        verb_does("stats"@, args) == (Meaning::Raw(server_query("stats"@, args))),
        verb_does("rehash"@, args) == (Meaning::Raw(server_query("rehash"@, args))),
        verb_does("connect"@, args) == (match only_word(args) {
            Some(word) => Meaning::Connect(word),
            None => Meaning::Usage("/connect <network>"@),
        }),
        verb_does("disconnect"@, args) == (Meaning::Disconnect {
            network: network_and_reason(args).0,
            reason: network_and_reason(args).1,
        }),
        verb_does("reconnect"@, args) == (Meaning::Reconnect {
            network: network_and_reason(args).0,
            reason: network_and_reason(args).1,
        }),
        verb_does("quit"@, args) == (Meaning::Quit(unless_empty(args))),
        verb_does("hilight"@, args) == (match unless_empty(args) {
            Some(pattern) => Meaning::Highlight { add: true, pattern },
            None => Meaning::Usage("/hilight <pattern>"@),
        }),
        verb_does("highlight"@, args) == (match unless_empty(args) {
            Some(pattern) => Meaning::Highlight { add: true, pattern },
            None => Meaning::Usage("/hilight <pattern>"@),
        }),
        verb_does("dehilight"@, args) == (match unless_empty(args) {
            Some(pattern) => Meaning::Highlight { add: false, pattern },
            None => Meaning::Usage("/hilight <pattern>"@),
        }),
        verb_does("ignore"@, args) == (match only_word(args) {
            Some(mask) => Meaning::Ignore { add: true, mask },
            None => Meaning::Usage("/ignore <nick!user@host>"@),
        }),
        verb_does("unignore"@, args) == (match only_word(args) {
            Some(mask) => Meaning::Ignore { add: false, mask },
            None => Meaning::Usage("/ignore <nick!user@host>"@),
        }),
        verb_does("notify"@, args) == (if words(args).len() == 0 {
            Meaning::Usage("/notify <nick> [nick...]"@)
        } else {
            Meaning::Notify(words(args))
        }),
        verb_does("watch"@, args) == (if words(args).len() == 0 {
            Meaning::Usage("/notify <nick> [nick...]"@)
        } else {
            Meaning::Notify(words(args))
        }),
        verb_does("alias"@, args) == (alias_meaning(args)),
        verb_does("unalias"@, args) == (unalias_meaning(args)),
        verb_does("ame"@, args) == (match unless_empty(args) {
            Some(text) => Meaning::FanOut { action: true, text },
            None => Meaning::Usage("/ame <text>"@),
        }),
        verb_does("amsg"@, args) == (match unless_empty(args) {
            Some(text) => Meaning::FanOut { action: false, text },
            None => Meaning::Usage("/amsg <text>"@),
        }),
        verb_does("cs"@, args) == (if args.len() > 0 {
            Meaning::Msg { target: "ChanServ"@, text: args }
        } else {
            Meaning::Usage("/ns <command>"@)
        }),
        verb_does("ns"@, args) == (if args.len() > 0 {
            Meaning::Msg { target: "NickServ"@, text: args }
        } else {
            Meaning::Usage("/ns <command>"@)
        }),
        verb_does("ms"@, args) == (if args.len() > 0 {
            Meaning::Msg { target: "MemoServ"@, text: args }
        } else {
            Meaning::Usage("/ns <command>"@)
        }),
        verb_does("os"@, args) == (if args.len() > 0 {
            Meaning::Msg { target: "OperServ"@, text: args }
        } else {
            Meaning::Usage("/ns <command>"@)
        }),
        verb_does("hs"@, args) == (if args.len() > 0 {
            Meaning::Msg { target: "HelpServ"@, text: args }
        } else {
            Meaning::Usage("/ns <command>"@)
        }),
        verb_does("rs"@, args) == (if args.len() > 0 {
            Meaning::Msg { target: "RootServ"@, text: args }
        } else {
            Meaning::Usage("/ns <command>"@)
        }),
{
    reveal(verb_does);
    reveal_strlit("me");
    assert("me"@[0] == 'm' && "me"@[1] == 'e');
    reveal_strlit("msg");
    assert("msg"@[0] == 'm' && "msg"@[1] == 's' && "msg"@[2] == 'g');
    reveal_strlit("notice");
    assert("notice"@[0] == 'n' && "notice"@[1] == 'o' && "notice"@[2] == 't'
        && "notice"@[3] == 'i' && "notice"@[4] == 'c' && "notice"@[5] == 'e');
    reveal_strlit("query");
    assert("query"@[0] == 'q' && "query"@[1] == 'u' && "query"@[2] == 'e' && "query"@[3] == 'r'
        && "query"@[4] == 'y');
    reveal_strlit("q");
    assert("q"@[0] == 'q');
    reveal_strlit("join");
    assert("join"@[0] == 'j' && "join"@[1] == 'o' && "join"@[2] == 'i' && "join"@[3] == 'n');
    reveal_strlit("j");
    assert("j"@[0] == 'j');
    reveal_strlit("part");
    assert("part"@[0] == 'p' && "part"@[1] == 'a' && "part"@[2] == 'r' && "part"@[3] == 't');
    reveal_strlit("cycle");
    assert("cycle"@[0] == 'c' && "cycle"@[1] == 'y' && "cycle"@[2] == 'c' && "cycle"@[3] == 'l'
        && "cycle"@[4] == 'e');
    reveal_strlit("topic");
    assert("topic"@[0] == 't' && "topic"@[1] == 'o' && "topic"@[2] == 'p' && "topic"@[3] == 'i'
        && "topic"@[4] == 'c');
    reveal_strlit("nick");
    assert("nick"@[0] == 'n' && "nick"@[1] == 'i' && "nick"@[2] == 'c' && "nick"@[3] == 'k');
    reveal_strlit("away");
    assert("away"@[0] == 'a' && "away"@[1] == 'w' && "away"@[2] == 'a' && "away"@[3] == 'y');
    reveal_strlit("ctcp");
    assert("ctcp"@[0] == 'c' && "ctcp"@[1] == 't' && "ctcp"@[2] == 'c' && "ctcp"@[3] == 'p');
    reveal_strlit("ping");
    assert("ping"@[0] == 'p' && "ping"@[1] == 'i' && "ping"@[2] == 'n' && "ping"@[3] == 'g');
    reveal_strlit("op");
    assert("op"@[0] == 'o' && "op"@[1] == 'p');
    reveal_strlit("deop");
    assert("deop"@[0] == 'd' && "deop"@[1] == 'e' && "deop"@[2] == 'o' && "deop"@[3] == 'p');
    reveal_strlit("voice");
    assert("voice"@[0] == 'v' && "voice"@[1] == 'o' && "voice"@[2] == 'i' && "voice"@[3] == 'c'
        && "voice"@[4] == 'e');
    reveal_strlit("devoice");
    assert("devoice"@[0] == 'd' && "devoice"@[1] == 'e' && "devoice"@[2] == 'v'
        && "devoice"@[3] == 'o' && "devoice"@[4] == 'i' && "devoice"@[5] == 'c'
        && "devoice"@[6] == 'e');
    reveal_strlit("kick");
    assert("kick"@[0] == 'k' && "kick"@[1] == 'i' && "kick"@[2] == 'c' && "kick"@[3] == 'k');
    reveal_strlit("kb");
    assert("kb"@[0] == 'k' && "kb"@[1] == 'b');
    reveal_strlit("kickban");
    assert("kickban"@[0] == 'k' && "kickban"@[1] == 'i' && "kickban"@[2] == 'c'
        && "kickban"@[3] == 'k' && "kickban"@[4] == 'b' && "kickban"@[5] == 'a'
        && "kickban"@[6] == 'n');
    reveal_strlit("ban");
    assert("ban"@[0] == 'b' && "ban"@[1] == 'a' && "ban"@[2] == 'n');
    reveal_strlit("unban");
    assert("unban"@[0] == 'u' && "unban"@[1] == 'n' && "unban"@[2] == 'b' && "unban"@[3] == 'a'
        && "unban"@[4] == 'n');
    reveal_strlit("mode");
    assert("mode"@[0] == 'm' && "mode"@[1] == 'o' && "mode"@[2] == 'd' && "mode"@[3] == 'e');
    reveal_strlit("umode");
    assert("umode"@[0] == 'u' && "umode"@[1] == 'm' && "umode"@[2] == 'o' && "umode"@[3] == 'd'
        && "umode"@[4] == 'e');
    reveal_strlit("names");
    assert("names"@[0] == 'n' && "names"@[1] == 'a' && "names"@[2] == 'm' && "names"@[3] == 'e'
        && "names"@[4] == 's');
    reveal_strlit("quote");
    assert("quote"@[0] == 'q' && "quote"@[1] == 'u' && "quote"@[2] == 'o' && "quote"@[3] == 't'
        && "quote"@[4] == 'e');
    reveal_strlit("raw");
    assert("raw"@[0] == 'r' && "raw"@[1] == 'a' && "raw"@[2] == 'w');
    reveal_strlit("oper");
    assert("oper"@[0] == 'o' && "oper"@[1] == 'p' && "oper"@[2] == 'e' && "oper"@[3] == 'r');
    reveal_strlit("kill");
    assert("kill"@[0] == 'k' && "kill"@[1] == 'i' && "kill"@[2] == 'l' && "kill"@[3] == 'l');
    reveal_strlit("stats");
    assert("stats"@[0] == 's' && "stats"@[1] == 't' && "stats"@[2] == 'a' && "stats"@[3] == 't'
        && "stats"@[4] == 's');
    reveal_strlit("rehash");
    assert("rehash"@[0] == 'r' && "rehash"@[1] == 'e' && "rehash"@[2] == 'h'
        && "rehash"@[3] == 'a' && "rehash"@[4] == 's' && "rehash"@[5] == 'h');
    reveal_strlit("connect");
    assert("connect"@[0] == 'c' && "connect"@[1] == 'o' && "connect"@[2] == 'n'
        && "connect"@[3] == 'n' && "connect"@[4] == 'e' && "connect"@[5] == 'c'
        && "connect"@[6] == 't');
    reveal_strlit("disconnect");
    assert("disconnect"@[0] == 'd' && "disconnect"@[1] == 'i' && "disconnect"@[2] == 's'
        && "disconnect"@[3] == 'c' && "disconnect"@[4] == 'o' && "disconnect"@[5] == 'n'
        && "disconnect"@[6] == 'n' && "disconnect"@[7] == 'e' && "disconnect"@[8] == 'c'
        && "disconnect"@[9] == 't');
    reveal_strlit("reconnect");
    assert("reconnect"@[0] == 'r' && "reconnect"@[1] == 'e' && "reconnect"@[2] == 'c'
        && "reconnect"@[3] == 'o' && "reconnect"@[4] == 'n' && "reconnect"@[5] == 'n'
        && "reconnect"@[6] == 'e' && "reconnect"@[7] == 'c' && "reconnect"@[8] == 't');
    reveal_strlit("quit");
    assert("quit"@[0] == 'q' && "quit"@[1] == 'u' && "quit"@[2] == 'i' && "quit"@[3] == 't');
    reveal_strlit("hilight");
    assert("hilight"@[0] == 'h' && "hilight"@[1] == 'i' && "hilight"@[2] == 'l'
        && "hilight"@[3] == 'i' && "hilight"@[4] == 'g' && "hilight"@[5] == 'h'
        && "hilight"@[6] == 't');
    reveal_strlit("highlight");
    assert("highlight"@[0] == 'h' && "highlight"@[1] == 'i' && "highlight"@[2] == 'g'
        && "highlight"@[3] == 'h' && "highlight"@[4] == 'l' && "highlight"@[5] == 'i'
        && "highlight"@[6] == 'g' && "highlight"@[7] == 'h' && "highlight"@[8] == 't');
    reveal_strlit("dehilight");
    assert("dehilight"@[0] == 'd' && "dehilight"@[1] == 'e' && "dehilight"@[2] == 'h'
        && "dehilight"@[3] == 'i' && "dehilight"@[4] == 'l' && "dehilight"@[5] == 'i'
        && "dehilight"@[6] == 'g' && "dehilight"@[7] == 'h' && "dehilight"@[8] == 't');
    reveal_strlit("ignore");
    assert("ignore"@[0] == 'i' && "ignore"@[1] == 'g' && "ignore"@[2] == 'n'
        && "ignore"@[3] == 'o' && "ignore"@[4] == 'r' && "ignore"@[5] == 'e');
    reveal_strlit("unignore");
    assert("unignore"@[0] == 'u' && "unignore"@[1] == 'n' && "unignore"@[2] == 'i'
        && "unignore"@[3] == 'g' && "unignore"@[4] == 'n' && "unignore"@[5] == 'o'
        && "unignore"@[6] == 'r' && "unignore"@[7] == 'e');
    reveal_strlit("notify");
    assert("notify"@[0] == 'n' && "notify"@[1] == 'o' && "notify"@[2] == 't'
        && "notify"@[3] == 'i' && "notify"@[4] == 'f' && "notify"@[5] == 'y');
    reveal_strlit("watch");
    assert("watch"@[0] == 'w' && "watch"@[1] == 'a' && "watch"@[2] == 't' && "watch"@[3] == 'c'
        && "watch"@[4] == 'h');
    reveal_strlit("alias");
    assert("alias"@[0] == 'a' && "alias"@[1] == 'l' && "alias"@[2] == 'i' && "alias"@[3] == 'a'
        && "alias"@[4] == 's');
    reveal_strlit("unalias");
    assert("unalias"@[0] == 'u' && "unalias"@[1] == 'n' && "unalias"@[2] == 'a'
        && "unalias"@[3] == 'l' && "unalias"@[4] == 'i' && "unalias"@[5] == 'a'
        && "unalias"@[6] == 's');
    reveal_strlit("ame");
    assert("ame"@[0] == 'a' && "ame"@[1] == 'm' && "ame"@[2] == 'e');
    reveal_strlit("amsg");
    assert("amsg"@[0] == 'a' && "amsg"@[1] == 'm' && "amsg"@[2] == 's' && "amsg"@[3] == 'g');
    reveal_strlit("cs");
    assert("cs"@[0] == 'c' && "cs"@[1] == 's');
    reveal_strlit("ns");
    assert("ns"@[0] == 'n' && "ns"@[1] == 's');
    reveal_strlit("ms");
    assert("ms"@[0] == 'm' && "ms"@[1] == 's');
    reveal_strlit("os");
    assert("os"@[0] == 'o' && "os"@[1] == 's');
    reveal_strlit("hs");
    assert("hs"@[0] == 'h' && "hs"@[1] == 's');
    reveal_strlit("rs");
    assert("rs"@[0] == 'r' && "rs"@[1] == 's');
    assert(lowered("me"@) =~= "me"@);
    assert(lowered("msg"@) =~= "msg"@);
    assert(lowered("notice"@) =~= "notice"@);
    assert(lowered("query"@) =~= "query"@);
    assert(lowered("q"@) =~= "q"@);
    assert(lowered("join"@) =~= "join"@);
    assert(lowered("j"@) =~= "j"@);
    assert(lowered("part"@) =~= "part"@);
    assert(lowered("cycle"@) =~= "cycle"@);
    assert(lowered("topic"@) =~= "topic"@);
    assert(lowered("nick"@) =~= "nick"@);
    assert(lowered("away"@) =~= "away"@);
    assert(lowered("ctcp"@) =~= "ctcp"@);
    assert(lowered("ping"@) =~= "ping"@);
    assert(lowered("op"@) =~= "op"@);
    assert(lowered("deop"@) =~= "deop"@);
    assert(lowered("voice"@) =~= "voice"@);
    assert(lowered("devoice"@) =~= "devoice"@);
    assert(lowered("kick"@) =~= "kick"@);
    assert(lowered("kb"@) =~= "kb"@);
    assert(lowered("kickban"@) =~= "kickban"@);
    assert(lowered("ban"@) =~= "ban"@);
    assert(lowered("unban"@) =~= "unban"@);
    assert(lowered("mode"@) =~= "mode"@);
    assert(lowered("umode"@) =~= "umode"@);
    assert(lowered("names"@) =~= "names"@);
    assert(lowered("quote"@) =~= "quote"@);
    assert(lowered("raw"@) =~= "raw"@);
    assert(lowered("oper"@) =~= "oper"@);
    assert(lowered("kill"@) =~= "kill"@);
    assert(lowered("stats"@) =~= "stats"@);
    assert(lowered("rehash"@) =~= "rehash"@);
    assert(lowered("connect"@) =~= "connect"@);
    assert(lowered("disconnect"@) =~= "disconnect"@);
    assert(lowered("reconnect"@) =~= "reconnect"@);
    assert(lowered("quit"@) =~= "quit"@);
    assert(lowered("hilight"@) =~= "hilight"@);
    assert(lowered("highlight"@) =~= "highlight"@);
    assert(lowered("dehilight"@) =~= "dehilight"@);
    assert(lowered("ignore"@) =~= "ignore"@);
    assert(lowered("unignore"@) =~= "unignore"@);
    assert(lowered("notify"@) =~= "notify"@);
    assert(lowered("watch"@) =~= "watch"@);
    assert(lowered("alias"@) =~= "alias"@);
    assert(lowered("unalias"@) =~= "unalias"@);
    assert(lowered("ame"@) =~= "ame"@);
    assert(lowered("amsg"@) =~= "amsg"@);
    assert(lowered("cs"@) =~= "cs"@);
    assert(lowered("ns"@) =~= "ns"@);
    assert(lowered("ms"@) =~= "ms"@);
    assert(lowered("os"@) =~= "os"@);
    assert(lowered("hs"@) =~= "hs"@);
    assert(lowered("rs"@) =~= "rs"@);
}

/// A line with a verb behind a slash, a space, and arguments.
pub open spec fn typed(verb: Seq<char>, args: Seq<char>) -> Seq<char> {
    seq!['/'] + verb + seq![' '] + args
}

/// Whether a text can be typed as a verb: it is one word, and no slash leads
/// it.
pub open spec fn is_plain_verb(verb: Seq<char>) -> bool {
    is_one_word(verb) && verb[0] != '/'
}

/// Whether a text is one word.
pub open spec fn is_one_word(text: Seq<char>) -> bool {
    text.len() > 0 && forall|i: int| 0 <= i < text.len() ==> !is_space(#[trigger] text[i])
}

/// Whether a text is not empty and has no white space at its ends.
pub open spec fn is_tidy(text: Seq<char>) -> bool {
    text.len() > 0 && !is_space(text[0]) && !is_space(text.last())
}

/// A target and a text behind it.
pub open spec fn both(target: Seq<char>, text: Seq<char>) -> Seq<char> {
    target + seq![' '] + text
}

proof fn lemma_typed(verb: Seq<char>, args: Seq<char>)
    requires
        is_plain_verb(verb),
    ensures
        meaning(typed(verb, args)) == Some(verb_does(verb, trim(args))),
        words(trim(args)) == words(args),
{
    reveal(meaning);
    reveal(verb_does);
    a_command_line_is_its_verb_and_arguments(verb, args);
    words_are_those_of_the_trimmed_text(args);
}

proof fn lemma_tidy(text: Seq<char>)
    requires
        is_tidy(text),
    ensures
        trim(text) == text,
{
    lemma_trim_is(text, 0, text.len() as int);
    assert(text.subrange(0, text.len() as int) =~= text);
}

proof fn lemma_both(target: Seq<char>, text: Seq<char>)
    requires
        is_one_word(target),
        is_tidy(text),
    ensures
        trim(both(target, text)) == both(target, text),
        first_word(both(target, text)) == (target, text),
        both(target, text).len() > 0,
{
    lemma_line_splits(target, text);
    assert(command_line(target, text).skip(1) =~= both(target, text));
    assert(both(target, text).last() == text.last());
    assert(both(target, text)[0] == target[0]);
    lemma_tidy(both(target, text));
}

proof fn lemma_one(target: Seq<char>)
    requires
        is_one_word(target),
    ensures
        trim(target) == target,
        first_word(target) == (target, Seq::<char>::empty()),
        words(target) == seq![target],
{
    lemma_line_splits(target, Seq::empty());
    assert(command_line(target, Seq::empty()).skip(1) =~= target);
    lemma_tidy(target);
    words_stand_between_white_space(Seq::empty(), target, Seq::empty());
    blank_text_has_no_words(Seq::empty());
    assert(Seq::<char>::empty() + target + Seq::<char>::empty() =~= target);
    assert(seq![target] + Seq::<Seq<char>>::empty() =~= seq![target]);
}

proof fn lemma_none()
    ensures
        trim(Seq::empty()) == Seq::<char>::empty(),
        first_word(Seq::empty()) == (Seq::<char>::empty(), Seq::<char>::empty()),
        words(Seq::empty()) == Seq::<Seq<char>>::empty(),
{
    lemma_trim_is(Seq::empty(), 0, 0);
    blank_text_has_no_words(Seq::empty());
    let space = |c: char| is_space(c);
    lemma_first_where(Seq::empty(), |c: char| !space(c));
    assert(trim_start(Seq::empty()) =~= Seq::empty());
    lemma_first_where(Seq::empty(), space);
    assert(Seq::<char>::empty().take(0) =~= Seq::empty());
    assert(Seq::<char>::empty().skip(0) =~= Seq::empty());
}

/// The verbs on nicks in a channel say what they do: each keeps its verb, and
/// takes every word as a nick; without a word they ask for one.
pub proof fn verbs_on_nicks_keep_their_verb(verb: Seq<char>, args: Seq<char>)
    requires
        verb == "op"@ || verb == "deop"@ || verb == "voice"@ || verb == "devoice"@,
    ensures
        words(args).len() > 0 ==> line_meaning(typed(verb, args)) == Some(
            Meaning::NickModes { verb, nicks: words(args) },
        ),
        words(args).len() == 0 ==> line_meaning(typed(verb, args)) == Some(
            Meaning::Usage("/op <nick> [nick...]"@),
        ),
{
    lemma_verbs(trim(args));
    lemma_typed(verb, args);
    reveal(meaning);
}

/// The commands that take one word take it as it is.
#[verifier::rlimit(60)]
#[verifier::spinoff_prover]
pub proof fn one_word_is_taken_as_it_is(args: Seq<char>, word: Seq<char>)
    requires
        words(args) == seq![word],
    ensures
        meaning(typed("nick"@, args)) == Some(Meaning::Nick(word)),
        meaning(typed("ping"@, args)) == Some(Meaning::Ping(word)),
        meaning(typed("ban"@, args)) == Some(Meaning::Ban(word)),
        meaning(typed("unban"@, args)) == Some(Meaning::Unban(word)),
        meaning(typed("connect"@, args)) == Some(Meaning::Connect(word)),
        meaning(typed("umode"@, args)) == Some(Meaning::Umode(word)),
        meaning(typed("names"@, args)) == Some(Meaning::Names(Some(word))),
        meaning(typed("ignore"@, args)) == Some(Meaning::Ignore { add: true, mask: word }),
        meaning(typed("unignore"@, args)) == Some(Meaning::Ignore { add: false, mask: word }),
        !has_channel_sigil(word) ==> meaning(typed("query"@, args)) == Some(
            Meaning::Query(Some(word)),
        ) && meaning(typed("q"@, args)) == Some(Meaning::Query(Some(word))),
        has_channel_sigil(word) ==> meaning(typed("query"@, args)) == Some(
            Meaning::Usage("/query <nick>"@),
        ) && meaning(typed("q"@, args)) == Some(Meaning::Usage("/query <nick>"@)),
        word[0] != '/' ==> meaning(typed("unalias"@, args)) == Some(
            Meaning::Unalias(lowered(word)),
        ),
{
    let t = trim(args);
    lemma_verbs(t);
    lemma_typed("nick"@, args);
    lemma_typed("ping"@, args);
    lemma_typed("ban"@, args);
    lemma_typed("unban"@, args);
    lemma_typed("connect"@, args);
    lemma_typed("umode"@, args);
    lemma_typed("names"@, args);
    lemma_typed("ignore"@, args);
    lemma_typed("unignore"@, args);
    lemma_typed("query"@, args);
    lemma_typed("q"@, args);
    lemma_typed("unalias"@, args);
    words_are_free_of_white_space(args, 0, 0);
    if word[0] != '/' {
        let p = |c: char| c == '/';
        lemma_first_where_is(word, |c: char| !p(c), 0);
        assert(word.skip(0) =~= word);
    }
}

/// Whether a name begins with one of the signs of a channel.
pub open spec fn has_channel_sigil(name: Seq<char>) -> bool {
    name.len() > 0 && seq!['#', '&', '!', '+'].contains(name[0])
}

/// Channels are told by their sign, and by nothing else.
pub proof fn channels_are_told_by_their_sign(name: Seq<char>)
    ensures
        names_channel(name) == has_channel_sigil(name),
{
    let signs = seq!['#', '&', '!', '+'];
    assert(signs[0] == '#' && signs[1] == '&' && signs[2] == '!' && signs[3] == '+');
    if names_channel(name) {
        assert(signs.contains(name[0]));
    }
}

/// The commands that take one word want neither none nor several; some say
/// something else without a word.
pub proof fn one_word_is_wanted(args: Seq<char>)
    requires
        words(args).len() != 1,
    ensures
        meaning(typed("nick"@, args)) == Some(Meaning::Usage("/nick <nick>"@)),
        meaning(typed("ping"@, args)) == Some(Meaning::Usage("/ping <target>"@)),
        meaning(typed("ban"@, args)) == Some(Meaning::Usage("/ban <nick-or-mask>"@)),
        meaning(typed("unban"@, args)) == Some(Meaning::Usage("/unban <mask>"@)),
        meaning(typed("connect"@, args)) == Some(Meaning::Usage("/connect <network>"@)),
        meaning(typed("ignore"@, args)) == Some(
            Meaning::Usage("/ignore <nick!user@host>"@),
        ),
        meaning(typed("unignore"@, args)) == Some(
            Meaning::Usage("/ignore <nick!user@host>"@),
        ),
        meaning(typed("unalias"@, args)) == Some(Meaning::Usage("/unalias <name>"@)),
        words(args).len() == 0 ==> {
            &&& meaning(typed("umode"@, args)) == Some(Meaning::UmodeShow)
            &&& meaning(typed("names"@, args)) == Some(Meaning::Names(None))
            &&& meaning(typed("query"@, args)) == Some(Meaning::Query(None))
            &&& meaning(typed("q"@, args)) == Some(Meaning::Query(None))
        },
        words(args).len() > 1 ==> {
            &&& meaning(typed("umode"@, args)) == Some(Meaning::Usage("/umode [modes]"@))
            &&& meaning(typed("names"@, args)) == Some(Meaning::Usage("/names [#channel]"@))
            &&& meaning(typed("query"@, args)) == Some(Meaning::Usage("/query <nick>"@))
            &&& meaning(typed("q"@, args)) == Some(Meaning::Usage("/query <nick>"@))
        },
{
    lemma_verbs(trim(args));
    lemma_typed("nick"@, args);
    lemma_typed("ping"@, args);
    lemma_typed("ban"@, args);
    lemma_typed("unban"@, args);
    lemma_typed("connect"@, args);
    lemma_typed("umode"@, args);
    lemma_typed("names"@, args);
    lemma_typed("ignore"@, args);
    lemma_typed("unignore"@, args);
    lemma_typed("query"@, args);
    lemma_typed("q"@, args);
    lemma_typed("unalias"@, args);
}

/// The commands that take a text take all of it, with its inner spacing.
#[verifier::rlimit(60)]
#[verifier::spinoff_prover]
pub proof fn a_text_is_taken_whole(text: Seq<char>)
    requires
        is_tidy(text),
    ensures
        meaning(typed("me"@, text)) == Some(Meaning::Action(text)),
        meaning(typed("quote"@, text)) == Some(Meaning::Raw(text)),
        meaning(typed("raw"@, text)) == Some(Meaning::Raw(text)),
        meaning(typed("quit"@, text)) == Some(Meaning::Quit(Some(text))),
        meaning(typed("ame"@, text)) == Some(Meaning::FanOut { action: true, text }),
        meaning(typed("amsg"@, text)) == Some(Meaning::FanOut { action: false, text }),
        meaning(typed("hilight"@, text)) == Some(
            Meaning::Highlight { add: true, pattern: text },
        ),
        meaning(typed("highlight"@, text)) == Some(
            Meaning::Highlight { add: true, pattern: text },
        ),
        meaning(typed("dehilight"@, text)) == Some(
            Meaning::Highlight { add: false, pattern: text },
        ),
{
    lemma_tidy(text);
    lemma_verbs(text);
    lemma_typed("me"@, text);
    lemma_typed("quote"@, text);
    lemma_typed("raw"@, text);
    lemma_typed("quit"@, text);
    lemma_typed("ame"@, text);
    lemma_typed("amsg"@, text);
    lemma_typed("hilight"@, text);
    lemma_typed("highlight"@, text);
    lemma_typed("dehilight"@, text);
}

/// `/away` takes a reason, and a colon before it does not count.
pub proof fn a_colon_before_a_reason_does_not_count(text: Seq<char>)
    requires
        is_tidy(text),
    ensures
        text[0] != ':' ==> meaning(typed("away"@, text)) == Some(Meaning::Away(Some(text))),
        meaning(typed("away"@, seq![':'] + text)) == Some(Meaning::Away(Some(text))),
        meaning(typed("away"@, seq![':', ' '] + text)) == Some(Meaning::Away(Some(text))),
{
    lemma_tidy(text);
    lemma_verbs(text);
    lemma_typed("away"@, text);
    let a = seq![':'] + text;
    assert(a.last() == text.last());
    lemma_tidy(a);
    lemma_typed("away"@, a);
    lemma_verbs(a);
    assert(a.skip(1) =~= text);
    let b = seq![':', ' '] + text;
    assert(b.last() == text.last());
    lemma_tidy(b);
    lemma_typed("away"@, b);
    lemma_verbs(b);
    let rest = b.skip(1);
    assert(rest =~= seq![' '] + text + Seq::<char>::empty());
    trimming_takes_white_space_off(seq![' '], text, Seq::empty());
}

/// What the commands on texts and on people mean without arguments.
#[verifier::rlimit(60)]
#[verifier::spinoff_prover]
pub proof fn texts_may_be_left_out(args: Seq<char>)
    requires
        forall|i: int| 0 <= i < args.len() ==> is_space(#[trigger] args[i]),
    ensures
        meaning(typed("me"@, args)) == Some(Meaning::Action(Seq::empty())),
        meaning(typed("quote"@, args)) == Some(Meaning::Usage("/quote <raw IRC line>"@)),
        meaning(typed("raw"@, args)) == Some(Meaning::Usage("/quote <raw IRC line>"@)),
        meaning(typed("quit"@, args)) == Some(Meaning::Quit(None)),
        meaning(typed("away"@, args)) == Some(Meaning::Away(None)),
        meaning(typed("ame"@, args)) == Some(Meaning::Usage("/ame <text>"@)),
        meaning(typed("amsg"@, args)) == Some(Meaning::Usage("/amsg <text>"@)),
        meaning(typed("hilight"@, args)) == Some(Meaning::Usage("/hilight <pattern>"@)),
        meaning(typed("highlight"@, args)) == Some(Meaning::Usage("/hilight <pattern>"@)),
        meaning(typed("dehilight"@, args)) == Some(Meaning::Usage("/hilight <pattern>"@)),
        meaning(typed("msg"@, args)) == Some(Meaning::Usage("/msg <nick> <text>"@)),
        meaning(typed("notice"@, args)) == Some(Meaning::Usage("/notice <target> <text>"@)),
        meaning(typed("kick"@, args)) == Some(Meaning::Usage("/kick <nick> [reason]"@)),
        meaning(typed("kb"@, args)) == Some(Meaning::Usage("/kb <nick> [reason]"@)),
        meaning(typed("kickban"@, args)) == Some(Meaning::Usage("/kb <nick> [reason]"@)),
        meaning(typed("kill"@, args)) == Some(Meaning::Usage("/kill <nick> [reason]"@)),
{
    let t = Seq::<char>::empty();
    lemma_trim_is(args, 0, 0);
    assert(args.subrange(0, 0) =~= t);
    assert(trim(args) == t);
    lemma_none();
    lemma_verbs(t);
    lemma_typed("me"@, args);
    lemma_typed("quote"@, args);
    lemma_typed("raw"@, args);
    lemma_typed("quit"@, args);
    lemma_typed("away"@, args);
    lemma_typed("ame"@, args);
    lemma_typed("amsg"@, args);
    lemma_typed("hilight"@, args);
    lemma_typed("highlight"@, args);
    lemma_typed("dehilight"@, args);
    lemma_typed("msg"@, args);
    lemma_typed("notice"@, args);
    lemma_typed("kick"@, args);
    lemma_typed("kb"@, args);
    lemma_typed("kickban"@, args);
    lemma_typed("kill"@, args);
}

/// What the commands on channels and networks mean without arguments.
#[verifier::rlimit(60)]
#[verifier::spinoff_prover]
pub proof fn channels_may_be_left_out(args: Seq<char>)
    requires
        forall|i: int| 0 <= i < args.len() ==> is_space(#[trigger] args[i]),
    ensures
        meaning(typed("part"@, args)) == Some(Meaning::Part { channel: None, reason: None }),
        meaning(typed("cycle"@, args)) == Some(Meaning::Cycle { channel: None, reason: None }),
        meaning(typed("disconnect"@, args)) == Some(
            Meaning::Disconnect { network: None, reason: None },
        ),
        meaning(typed("reconnect"@, args)) == Some(
            Meaning::Reconnect { network: None, reason: None },
        ),
        meaning(typed("topic"@, args)) == Some(Meaning::TopicShow { channel: None }),
        meaning(typed("mode"@, args)) == Some(Meaning::ModeShow { channel: None }),
        meaning(typed("ctcp"@, args)) == Some(Meaning::Usage("/ctcp <target> <VERB> [args]"@)),
        meaning(typed("alias"@, args)) == Some(Meaning::Usage("/alias <name> <expansion>"@)),
        meaning(typed("oper"@, args)) == Some(Meaning::Usage("/oper <name> <password>"@)),
        meaning(typed("join"@, args)) == Some(
            Meaning::Usage("/join <#channel>[,<#channel>] [key]"@),
        ),
        meaning(typed("notify"@, args)) == Some(Meaning::Usage("/notify <nick> [nick...]"@)),
        meaning(typed("stats"@, args)) == Some(Meaning::Raw("STATS"@)),
        meaning(typed("rehash"@, args)) == Some(Meaning::Raw("REHASH"@)),
{
    let t = Seq::<char>::empty();
    lemma_trim_is(args, 0, 0);
    assert(args.subrange(0, 0) =~= t);
    assert(trim(args) == t);
    lemma_none();
    lemma_verbs(t);
    reveal_strlit("-delete");
    reveal_strlit("#");
    reveal_strlit("stats");
    reveal_strlit("STATS");
    reveal_strlit("rehash");
    reveal_strlit("REHASH");
    assert(uppered("stats"@) =~= "STATS"@);
    assert(uppered("rehash"@) =~= "REHASH"@);
    let p = |c: char| c == '/';
    lemma_first_where(t, |c: char| !p(c));
    assert(t.skip(0) =~= t);
    lemma_typed("part"@, args);
    lemma_typed("cycle"@, args);
    lemma_typed("disconnect"@, args);
    lemma_typed("reconnect"@, args);
    lemma_typed("topic"@, args);
    lemma_typed("mode"@, args);
    lemma_typed("ctcp"@, args);
    lemma_typed("alias"@, args);
    lemma_typed("oper"@, args);
    lemma_typed("join"@, args);
    lemma_typed("notify"@, args);
    lemma_typed("stats"@, args);
    lemma_typed("rehash"@, args);
}

/// The commands with a target and a text behind it take both as they are.
pub proof fn a_target_and_a_text_are_told_apart(target: Seq<char>, text: Seq<char>)
    requires
        is_one_word(target),
        is_tidy(text),
    ensures
        ({
            let args = both(target, text);
            &&& meaning(typed("notice"@, args)) == Some(Meaning::Notice { target, text })
            &&& meaning(typed("kick"@, args)) == Some(
                Meaning::Kick { nick: target, reason: text },
            )
            &&& meaning(typed("kb"@, args)) == Some(
                Meaning::KickBan { nick: target, reason: text },
            )
            &&& meaning(typed("kickban"@, args)) == Some(
                Meaning::KickBan { nick: target, reason: text },
            )
            &&& meaning(typed("kill"@, args)) == Some(
                Meaning::Raw("KILL "@ + target + " :"@ + text),
            )
            &&& meaning(typed("disconnect"@, args)) == Some(
                Meaning::Disconnect { network: Some(target), reason: Some(text) },
            )
            &&& meaning(typed("reconnect"@, args)) == Some(
                Meaning::Reconnect { network: Some(target), reason: Some(text) },
            )
        }),
{
    let args = both(target, text);
    lemma_both(target, text);
    lemma_verbs(args);
    lemma_typed("notice"@, args);
    lemma_typed("kick"@, args);
    lemma_typed("kb"@, args);
    lemma_typed("kickban"@, args);
    lemma_typed("kill"@, args);
    lemma_typed("disconnect"@, args);
    lemma_typed("reconnect"@, args);
}

/// `/msg` goes to nicks: with a channel it is refused.
pub proof fn messages_go_to_nicks(target: Seq<char>, text: Seq<char>)
    requires
        is_one_word(target),
        is_tidy(text),
    ensures
        meaning(typed("msg"@, both(target, text))) == Some(
            if has_channel_sigil(target) {
                Meaning::Usage("/msg <nick> <text>"@)
            } else {
                Meaning::Msg { target, text }
            },
        ),
        meaning(typed("msg"@, target)) == Some(Meaning::Usage("/msg <nick> <text>"@)),
        meaning(typed("notice"@, target)) == Some(Meaning::Usage("/notice <target> <text>"@)),
{
    lemma_both(target, text);
    lemma_one(target);
    channels_are_told_by_their_sign(target);
    lemma_verbs(both(target, text));
    lemma_verbs(target);
    lemma_typed("msg"@, both(target, text));
    lemma_typed("msg"@, target);
    lemma_typed("notice"@, target);
}

/// A reason may be left out.
pub proof fn reasons_may_be_left_out(target: Seq<char>)
    requires
        is_one_word(target),
    ensures
        meaning(typed("kick"@, target)) == Some(
            Meaning::Kick { nick: target, reason: Seq::empty() },
        ),
        meaning(typed("kb"@, target)) == Some(
            Meaning::KickBan { nick: target, reason: Seq::empty() },
        ),
        meaning(typed("kickban"@, target)) == Some(
            Meaning::KickBan { nick: target, reason: Seq::empty() },
        ),
        meaning(typed("kill"@, target)) == Some(Meaning::Raw("KILL "@ + target)),
        meaning(typed("disconnect"@, target)) == Some(
            Meaning::Disconnect { network: Some(target), reason: None },
        ),
        meaning(typed("reconnect"@, target)) == Some(
            Meaning::Reconnect { network: Some(target), reason: None },
        ),
{
    lemma_one(target);
    lemma_verbs(target);
    lemma_typed("kick"@, target);
    lemma_typed("kb"@, target);
    lemma_typed("kickban"@, target);
    lemma_typed("kill"@, target);
    lemma_typed("disconnect"@, target);
    lemma_typed("reconnect"@, target);
}

/// `/part` and `/cycle` take a leading channel for the channel, and anything
/// else for the reason.
pub proof fn a_leading_channel_is_left(target: Seq<char>, text: Seq<char>)
    requires
        is_one_word(target),
        is_tidy(text),
    ensures
        has_channel_sigil(target) ==> {
            &&& meaning(typed("part"@, both(target, text))) == Some(
                Meaning::Part { channel: Some(target), reason: Some(text) },
            )
            &&& meaning(typed("cycle"@, both(target, text))) == Some(
                Meaning::Cycle { channel: Some(target), reason: Some(text) },
            )
            &&& meaning(typed("part"@, target)) == Some(
                Meaning::Part { channel: Some(target), reason: None },
            )
            &&& meaning(typed("cycle"@, target)) == Some(
                Meaning::Cycle { channel: Some(target), reason: None },
            )
        },
        !has_channel_sigil(target) ==> {
            &&& meaning(typed("part"@, both(target, text))) == Some(
                Meaning::Part { channel: None, reason: Some(both(target, text)) },
            )
            &&& meaning(typed("cycle"@, both(target, text))) == Some(
                Meaning::Cycle { channel: None, reason: Some(both(target, text)) },
            )
            &&& meaning(typed("part"@, target)) == Some(
                Meaning::Part { channel: None, reason: Some(target) },
            )
            &&& meaning(typed("cycle"@, target)) == Some(
                Meaning::Cycle { channel: None, reason: Some(target) },
            )
        },
{
    lemma_both(target, text);
    lemma_one(target);
    channels_are_told_by_their_sign(target);
    lemma_verbs(both(target, text));
    lemma_verbs(target);
    lemma_typed("part"@, both(target, text));
    lemma_typed("cycle"@, both(target, text));
    lemma_typed("part"@, target);
    lemma_typed("cycle"@, target);
}

/// `/topic` shows, sets or clears the topic of the channel that leads its
/// arguments, or of the open one. A bare `#` leads a topic that itself begins
/// with a channel.
pub proof fn topics_are_shown_set_or_cleared(channel: Seq<char>, text: Seq<char>)
    requires
        is_one_word(channel),
        has_channel_sigil(channel),
        channel.len() > 1,
        is_tidy(text),
        text != "-delete"@,
    ensures
        meaning(typed("topic"@, channel)) == Some(
            Meaning::TopicShow { channel: Some(channel) },
        ),
        meaning(typed("topic"@, both(channel, text))) == Some(
            Meaning::TopicSet { channel: Some(channel), text },
        ),
        meaning(typed("topic"@, both(channel, "-delete"@))) == Some(
            Meaning::TopicClear { channel: Some(channel) },
        ),
        meaning(typed("topic"@, "-delete"@)) == Some(Meaning::TopicClear { channel: None }),
        meaning(typed("topic"@, both("#"@, text))) == Some(
            Meaning::TopicSet { channel: None, text },
        ),
        is_one_word(text) && !has_channel_sigil(text) ==> meaning(typed("topic"@, text))
            == Some(Meaning::TopicSet { channel: None, text }),
{
    reveal_strlit("-delete");
    reveal_strlit("#");
    assert(is_one_word("#"@));
    assert(is_one_word("-delete"@)) by {
        assert("-delete"@[0] == '-' && "-delete"@[1] == 'd' && "-delete"@[2] == 'e');
        assert("-delete"@[3] == 'l' && "-delete"@[4] == 'e' && "-delete"@[5] == 't');
        assert("-delete"@[6] == 'e');
    }
    channels_are_told_by_their_sign(channel);
    channels_are_told_by_their_sign(text);
    lemma_one(channel);
    lemma_one("-delete"@);
    lemma_both(channel, text);
    lemma_both(channel, "-delete"@);
    lemma_both("#"@, text);
    lemma_verbs(channel);
    lemma_verbs("-delete"@);
    lemma_verbs(both(channel, text));
    lemma_verbs(both(channel, "-delete"@));
    lemma_verbs(both("#"@, text));
    lemma_typed("topic"@, channel);
    lemma_typed("topic"@, "-delete"@);
    lemma_typed("topic"@, both(channel, text));
    lemma_typed("topic"@, both(channel, "-delete"@));
    lemma_typed("topic"@, both("#"@, text));
    if is_one_word(text) {
        lemma_one(text);
        lemma_verbs(text);
        lemma_typed("topic"@, text);
        if text == "#"@ {
            assert(seq!['#', '&', '!', '+'][0] == text[0]);
            assert(seq!['#', '&', '!', '+'].contains(text[0]));
        }
    }
}

/// A topic that begins with no channel is set in the open one.
pub proof fn other_topics_are_set_whole(word: Seq<char>, text: Seq<char>)
    requires
        is_one_word(word),
        !has_channel_sigil(word),
        is_tidy(text),
    ensures
        meaning(typed("topic"@, both(word, text))) == Some(
            Meaning::TopicSet { channel: None, text: both(word, text) },
        ),
{
    reveal_strlit("-delete");
    reveal_strlit("#");
    let args = both(word, text);
    channels_are_told_by_their_sign(word);
    lemma_both(word, text);
    lemma_verbs(args);
    lemma_typed("topic"@, args);
    if word == "#"@ {
        assert(seq!['#', '&', '!', '+'][0] == word[0]);
        assert(seq!['#', '&', '!', '+'].contains(word[0]));
    }
    if args == "-delete"@ {
        let n = word.len() as int;
        assert(args[n] == ' ');
        assert("-delete"@[0] == '-' && "-delete"@[1] == 'd' && "-delete"@[2] == 'e');
        assert("-delete"@[3] == 'l' && "-delete"@[4] == 'e' && "-delete"@[5] == 't');
        assert("-delete"@[6] == 'e');
        assert(false);
    }
}

/// A CTCP verb is sent in capitals, its arguments as they are.
pub proof fn ctcp_verbs_are_sent_in_capitals(
    target: Seq<char>,
    verb: Seq<char>,
    text: Seq<char>,
)
    requires
        is_one_word(target),
        is_one_word(verb),
        is_tidy(text),
    ensures
        meaning(typed("ctcp"@, both(target, verb))) == Some(
            Meaning::Ctcp { target, verb: uppered(verb), args: None },
        ),
        meaning(typed("ctcp"@, both(target, both(verb, text)))) == Some(
            Meaning::Ctcp { target, verb: uppered(verb), args: Some(text) },
        ),
        meaning(typed("ctcp"@, target)) == Some(
            Meaning::Usage("/ctcp <target> <VERB> [args]"@),
        ),
{
    lemma_one(target);
    lemma_one(verb);
    lemma_none();
    lemma_both(verb, text);
    assert(is_tidy(both(verb, text))) by {
        assert(both(verb, text)[0] == verb[0]);
        assert(both(verb, text).last() == text.last());
    }
    lemma_both(target, verb);
    lemma_both(target, both(verb, text));
    lemma_verbs(both(target, verb));
    lemma_verbs(both(target, both(verb, text)));
    lemma_verbs(target);
    lemma_typed("ctcp"@, both(target, verb));
    lemma_typed("ctcp"@, both(target, both(verb, text)));
    lemma_typed("ctcp"@, target);
}

/// An alias is defined under its name in small letters, and slashes before the
/// name and before the expansion do not count.
pub proof fn aliases_are_defined_without_slashes(name: Seq<char>, text: Seq<char>)
    requires
        is_one_word(name),
        name[0] != '/',
        is_tidy(text),
        text[0] != '/',
    ensures
        meaning(typed("alias"@, both(name, text))) == Some(
            Meaning::AliasDefine { name: lowered(name), expansion: text },
        ),
        meaning(typed("alias"@, both(seq!['/'] + name, seq!['/'] + text))) == Some(
            Meaning::AliasDefine { name: lowered(name), expansion: text },
        ),
        meaning(typed("alias"@, name)) == Some(Meaning::Usage("/alias <name> <expansion>"@)),
{
    let p = |c: char| c == '/';
    let q = |c: char| !p(c);
    let slashed = seq!['/'] + name;
    let led = seq!['/'] + text;
    assert forall|i: int| 0 <= i < slashed.len() implies !is_space(#[trigger] slashed[i]) by {
        if i > 0 {
            assert(slashed[i] == name[i - 1]);
        }
    }
    assert(led.last() == text.last());
    lemma_first_where_is(name, q, 0);
    lemma_first_where_is(text, q, 0);
    assert(slashed[1] == name[0] && led[1] == text[0]);
    lemma_first_where_is(slashed, q, 1);
    lemma_first_where_is(led, q, 1);
    assert(name.skip(0) =~= name && text.skip(0) =~= text);
    assert(slashed.skip(1) =~= name && led.skip(1) =~= text);
    lemma_first_where(Seq::empty(), q);
    lemma_one(name);
    lemma_both(name, text);
    lemma_both(slashed, led);
    lemma_verbs(both(name, text));
    lemma_verbs(both(slashed, led));
    lemma_verbs(name);
    lemma_typed("alias"@, both(name, text));
    lemma_typed("alias"@, both(slashed, led));
    lemma_typed("alias"@, name);
}

/// The commands that take words take them as they stand.
pub proof fn words_are_taken_in_their_order(args: Seq<char>)
    requires
        words(args).len() > 0,
    ensures
        meaning(typed("notify"@, args)) == Some(Meaning::Notify(words(args))),
        meaning(typed("watch"@, args)) == Some(Meaning::Notify(words(args))),
        meaning(typed("stats"@, args)) == Some(
            Meaning::Raw("STATS "@ + join(words(args), " "@)),
        ),
        meaning(typed("rehash"@, args)) == Some(
            Meaning::Raw("REHASH "@ + join(words(args), " "@)),
        ),
        meaning(typed("oper"@, args)) == Some(
            if words(args).len() == 2 {
                Meaning::Oper { name: words(args)[0], password: words(args)[1] }
            } else {
                Meaning::Usage("/oper <name> <password>"@)
            },
        ),
{
    lemma_verbs(trim(args));
    lemma_typed("notify"@, args);
    lemma_typed("watch"@, args);
    lemma_typed("stats"@, args);
    lemma_typed("rehash"@, args);
    lemma_typed("oper"@, args);
    reveal_strlit("stats");
    reveal_strlit("STATS ");
    reveal_strlit("rehash");
    reveal_strlit("REHASH ");
    assert(uppered("stats"@) + seq![' '] =~= "STATS "@);
    assert(uppered("rehash"@) + seq![' '] =~= "REHASH "@);
}

/// `/mode` takes modes for the open channel, or a target before them, or a
/// lone channel whose modes are shown.
pub proof fn modes_follow_their_target(args: Seq<char>)
    requires
        words(args).len() > 0,
    ensures
        ({
            let parts = words(args);
            let told = meaning(typed("mode"@, args));
            if parts[0][0] == '+' || parts[0][0] == '-' {
                told == Some(
                    Meaning::Mode {
                        target: None,
                        modes: parts[0],
                        params: parts.subrange(1, parts.len() as int),
                    },
                )
            } else if parts.len() > 1 {
                told == Some(
                    Meaning::Mode {
                        target: Some(parts[0]),
                        modes: parts[1],
                        params: parts.subrange(2, parts.len() as int),
                    },
                )
            } else if has_channel_sigil(parts[0]) {
                told == Some(Meaning::ModeShow { channel: Some(parts[0]) })
            } else {
                told == Some(Meaning::Usage("/mode [target] <modes> [params]"@))
            }
        }),
{
    let parts = words(args);
    lemma_verbs(trim(args));
    lemma_typed("mode"@, args);
    words_are_free_of_white_space(args, 0, 0);
    channels_are_told_by_their_sign(parts[0]);
    assert(parts.skip(1) =~= parts.subrange(1, parts.len() as int));
    if parts.len() > 1 {
        assert(parts.skip(2) =~= parts.subrange(2, parts.len() as int));
    }
}

/// `/join` takes channels between commas and perhaps a key: the first channel
/// may lack its sign, and gets a `#`; the others must have theirs and a name.
pub proof fn joins_take_lists_of_channels(args: Seq<char>, channels: Seq<Seq<char>>)
    requires
        1 <= words(args).len() <= 2,
        channels.len() > 0,
        forall|i: int, j: int|
            0 <= i < channels.len() && 0 <= j < channels[i].len() ==> #[trigger] channels[i][j]
                != ',',
        words(args)[0] == join(channels, seq![',']),
    ensures
        ({
            let key = if words(args).len() == 2 {
                Some(words(args)[1])
            } else {
                None
            };
            let list = join(channels, seq![',']);
            let expected = if channels[0].len() > 0 && forall|i: int|
                1 <= i < channels.len() ==> has_channel_sigil(#[trigger] channels[i])
                    && channels[i].len() > 1 {
                Meaning::Join {
                    channels: if has_channel_sigil(channels[0]) {
                        list
                    } else {
                        seq!['#'] + list
                    },
                    key,
                }
            } else {
                Meaning::Usage("/join <#channel>[,<#channel>] [key]"@)
            };
            &&& meaning(typed("join"@, args)) == Some(expected)
            &&& meaning(typed("j"@, args)) == Some(expected)
        }),
{
    let list = join(channels, seq![',']);
    lemma_verbs(trim(args));
    lemma_typed("join"@, args);
    lemma_typed("j"@, args);
    cutting_undoes_joining(channels, ',');
    assert forall|i: int| 0 <= i < channels.len() implies names_channel(#[trigger] channels[i])
        == has_channel_sigil(channels[i]) by {
        channels_are_told_by_their_sign(channels[i]);
    }
    lemma_joined_begins(channels, seq![',']);
    channels_are_told_by_their_sign(list);
    if channels[0].len() > 0 {
        assert(list[0] == channels[0][0]);
    }
}

proof fn lemma_joined_begins(pieces: Seq<Seq<char>>, between: Seq<char>)
    requires
        pieces.len() > 0,
    ensures
        pieces[0].is_prefix_of(join(pieces, between)),
        pieces[0].len() > 0 ==> join(pieces, between).len() > 0 && join(pieces, between)[0]
            == pieces[0][0],
    decreases pieces.len(),
{
    let all = join(pieces, between);
    if pieces.len() > 1 {
        lemma_joined_begins(pieces.drop_last(), between);
        let front = join(pieces.drop_last(), between);
        assert(pieces[0] =~= front.subrange(0, pieces[0].len() as int));
        assert(pieces[0] =~= all.subrange(0, pieces[0].len() as int));
    } else {
        assert(pieces[0] =~= all.subrange(0, pieces[0].len() as int));
    }
}

/// The services' shortcuts send their text to the services' nicks.
pub proof fn shortcuts_go_to_their_service(text: Seq<char>)
    requires
        is_tidy(text),
    ensures
        meaning(typed("cs"@, text)) == Some(Meaning::Msg { target: "ChanServ"@, text }),
        meaning(typed("ns"@, text)) == Some(Meaning::Msg { target: "NickServ"@, text }),
        meaning(typed("ms"@, text)) == Some(Meaning::Msg { target: "MemoServ"@, text }),
        meaning(typed("os"@, text)) == Some(Meaning::Msg { target: "OperServ"@, text }),
        meaning(typed("hs"@, text)) == Some(Meaning::Msg { target: "HelpServ"@, text }),
        meaning(typed("rs"@, text)) == Some(Meaning::Msg { target: "RootServ"@, text }),
{
    lemma_tidy(text);
    lemma_verbs(text);
    lemma_typed("cs"@, text);
    lemma_typed("ns"@, text);
    lemma_typed("ms"@, text);
    lemma_typed("os"@, text);
    lemma_typed("hs"@, text);
    lemma_typed("rs"@, text);
}

/// Two slashes say what stands behind the first.
pub proof fn a_doubled_slash_is_said(text: Seq<char>)
    requires
        is_tidy(text),
    ensures
        line_meaning(seq!['/', '/'] + text) == Some(Meaning::Say(seq!['/'] + text)),
{
    let line = seq!['/', '/'] + text;
    assert(line.last() == text.last());
    lemma_tidy(line);
    assert(line.skip(1) =~= seq!['/'] + text);
}

/// The nick of a service ends in `serv`, in any letter case, with something
/// before it.
pub proof fn services_end_in_serv(nick: Seq<char>)
    ensures
        names_service(nick) <==> nick.len() > 4 && lowered(
            nick.subrange(nick.len() - 4, nick.len() as int),
        ) == seq!['s', 'e', 'r', 'v'],
{
    reveal_strlit("serv");
    assert("serv"@ =~= seq!['s', 'e', 'r', 'v']);
    if nick.len() > 4 {
        let end = nick.subrange(nick.len() - 4, nick.len() as int);
        assert(lowered(end) =~= lowered(nick).subrange(nick.len() - 4, nick.len() as int));
    }
}

/// What stands in a template: text without a dollar sign, `$1` to `$9`, `$1-`
/// to `$9-`, or `$*`.
pub enum Piece {
    Text(Seq<char>),
    Argument(int),
    ArgumentsFrom(int),
    Everything,
}

/// The characters that number the arguments.
pub open spec fn digit_of(n: int) -> char {
    seq!['1', '2', '3', '4', '5', '6', '7', '8', '9'][n - 1]
}

pub open spec fn piece_text(piece: Piece) -> Seq<char> {
    match piece {
        Piece::Text(text) => text,
        Piece::Argument(n) => seq!['$', digit_of(n)],
        Piece::ArgumentsFrom(n) => seq!['$', digit_of(n), '-'],
        Piece::Everything => seq!['$', '*'],
    }
}

/// A template that is written with some pieces.
pub open spec fn template_text(pieces: Seq<Piece>) -> Seq<char>
    decreases pieces.len(),
{
    if pieces.len() == 0 {
        Seq::empty()
    } else {
        piece_text(pieces[0]) + template_text(pieces.drop_first())
    }
}

/// What a piece stands for, given the arguments.
pub open spec fn piece_value(piece: Piece, rest: Seq<char>) -> Seq<char> {
    let args = words(rest);
    match piece {
        Piece::Text(text) => text,
        Piece::Argument(n) => if n <= args.len() {
            args[n - 1]
        } else {
            Seq::empty()
        },
        Piece::ArgumentsFrom(n) => if n <= args.len() {
            join(args.subrange(n - 1, args.len() as int), seq![' '])
        } else {
            Seq::empty()
        },
        Piece::Everything => rest,
    }
}

pub open spec fn pieces_value(pieces: Seq<Piece>, rest: Seq<char>) -> Seq<char>
    decreases pieces.len(),
{
    if pieces.len() == 0 {
        Seq::empty()
    } else {
        piece_value(pieces[0], rest) + pieces_value(pieces.drop_first(), rest)
    }
}

/// Whether the pieces can be told apart again: texts have no dollar signs, the
/// numbers are digits, and no text behind `$1` begins with a minus sign.
pub open spec fn are_readable(pieces: Seq<Piece>) -> bool
    decreases pieces.len(),
{
    pieces.len() > 0 ==> {
        let behind = template_text(pieces.drop_first());
        &&& match pieces[0] {
            Piece::Text(text) => forall|i: int| 0 <= i < text.len() ==> #[trigger] text[i] != '$',
            Piece::Argument(n) => 1 <= n <= 9 && (behind.len() > 0 ==> behind[0] != '-'),
            Piece::ArgumentsFrom(n) => 1 <= n <= 9,
            Piece::Everything => true,
        }
        &&& are_readable(pieces.drop_first())
    }
}

/// Text without a dollar sign stays, whatever follows it.
pub proof fn text_before_a_placeholder_stays(
    text: Seq<char>,
    template: Seq<char>,
    rest: Seq<char>,
)
    requires
        forall|i: int| 0 <= i < text.len() ==> #[trigger] text[i] != '$',
    ensures
        filled(text + template, rest) == text + filled(template, rest),
    decreases text.len(),
{
    let whole = text + template;
    if text.len() == 0 {
        assert(whole =~= template);
        assert(text + filled(template, rest) =~= filled(template, rest));
    } else {
        let less = text.drop_first();
        assert(text[0] != '$');
        assert(whole[0] == text[0]);
        assert forall|i: int| 0 <= i < less.len() implies #[trigger] less[i] != '$' by {
            assert(text[i + 1] != '$');
        }
        text_before_a_placeholder_stays(less, template, rest);
        assert(whole.skip(1) =~= less + template);
        assert(seq![text[0]] + (less + filled(template, rest)) =~= text + filled(template, rest));
    }
}

proof fn lemma_digit(n: int)
    requires
        1 <= n <= 9,
    ensures
        '1' <= digit_of(n) <= '9',
        digit_of(n) as int - '1' as int == n - 1,
{
    let digits = seq!['1', '2', '3', '4', '5', '6', '7', '8', '9'];
    assert(digits[0] == '1' && digits[1] == '2' && digits[2] == '3' && digits[3] == '4');
    assert(digits[4] == '5' && digits[5] == '6' && digits[6] == '7' && digits[7] == '8');
    assert(digits[8] == '9');
}

/// A template is filled piece by piece: each placeholder becomes what it
/// stands for, in the order of the pieces.
pub proof fn templates_are_filled_piece_by_piece(pieces: Seq<Piece>, rest: Seq<char>)
    requires
        are_readable(pieces),
    ensures
        filled(template_text(pieces), rest) == pieces_value(pieces, rest),
    decreases pieces.len(),
{
    if pieces.len() > 0 {
        let first = pieces[0];
        let others = pieces.drop_first();
        let behind = template_text(others);
        let whole = template_text(pieces);
        templates_are_filled_piece_by_piece(others, rest);
        reveal_strlit(" ");
        assert(" "@ =~= seq![' ']);
        let args = words(rest);
        match first {
            Piece::Text(text) => {
                text_before_a_placeholder_stays(text, behind, rest);
            },
            Piece::Argument(n) => {
                lemma_digit(n);
                assert(whole[0] == '$' && whole[1] == digit_of(n));
                assert(whole.len() > 2 ==> whole[2] == behind[0]);
                assert(whole.skip(2) =~= behind);
            },
            Piece::ArgumentsFrom(n) => {
                lemma_digit(n);
                assert(whole[0] == '$' && whole[1] == digit_of(n) && whole[2] == '-');
                assert(whole.skip(3) =~= behind);
                if n <= args.len() {
                    assert(args.skip(n - 1) =~= args.subrange(n - 1, args.len() as int));
                } else if n == args.len() + 1 {
                    assert(args.skip(n - 1) =~= Seq::empty());
                }
            },
            Piece::Everything => {
                assert(whole[0] == '$' && whole[1] == '*');
                assert(whole.skip(2) =~= behind);
            },
        }
    }
}

/// A template that is nothing but `$1` to `$9` is filled with that argument,
/// or with nothing where there are fewer. With text around it that has no
/// dollar signs, the argument stands between the texts.
pub proof fn a_placeholder_takes_its_argument(
    before: Seq<char>,
    n: int,
    after: Seq<char>,
    rest: Seq<char>,
)
    requires
        1 <= n <= 9,
        forall|i: int| 0 <= i < before.len() ==> #[trigger] before[i] != '$',
        forall|i: int| 0 <= i < after.len() ==> #[trigger] after[i] != '$',
        after.len() > 0 ==> after[0] != '-',
    ensures
        substitution(seq!['$', digit_of(n)], rest) == if n <= words(rest).len() {
            words(rest)[n - 1]
        } else {
            Seq::empty()
        },
        substitution(before + seq!['$', digit_of(n)] + after, rest) == before + (if n <= words(
            rest,
        ).len() {
            words(rest)[n - 1]
        } else {
            Seq::empty()
        }) + after,
{
    let word = piece_value(Piece::Argument(n), rest);
    lemma_digit(n);
    let alone = seq!['$', digit_of(n)];
    assert(alone.skip(0) =~= alone);
    assert(takes_argument(alone.skip(0)));
    assert(alone.skip(2) =~= Seq::<char>::empty());
    assert(word + Seq::<char>::empty() =~= word);
    let whole = before + alone + after;
    let k = before.len() as int;
    assert(whole.skip(k) =~= alone + after);
    assert(takes_argument(whole.skip(k)));
    let led = alone + after;
    assert(whole =~= before + led);
    text_before_a_placeholder_stays(before, led, rest);
    assert(led[0] == '$' && led[1] == digit_of(n));
    assert(led.len() > 2 ==> led[2] == after[0]);
    assert(led.skip(2) =~= after);
    text_before_a_placeholder_stays(after, Seq::empty(), rest);
    assert(after + Seq::<char>::empty() =~= after);
    assert(before + (word + after) =~= before + word + after);
}

/// `$1-` to `$9-` take an argument and those behind it, single spaces between
/// them; `$*` takes the text as it was typed.
pub proof fn a_placeholder_takes_the_rest(
    before: Seq<char>,
    n: int,
    after: Seq<char>,
    rest: Seq<char>,
)
    requires
        1 <= n <= 9,
        forall|i: int| 0 <= i < before.len() ==> #[trigger] before[i] != '$',
        forall|i: int| 0 <= i < after.len() ==> #[trigger] after[i] != '$',
    ensures
        substitution(before + seq!['$', digit_of(n), '-'] + after, rest) == before + (if n
            <= words(rest).len() {
            join(words(rest).subrange(n - 1, words(rest).len() as int), seq![' '])
        } else {
            Seq::empty()
        }) + after,
        substitution(before + seq!['$', '*'] + after, rest) == before + rest + after,
{
    let args = words(rest);
    let word = piece_value(Piece::ArgumentsFrom(n), rest);
    lemma_digit(n);
    reveal_strlit(" ");
    assert(" "@ =~= seq![' ']);
    let k = before.len() as int;
    text_before_a_placeholder_stays(after, Seq::empty(), rest);
    assert(after + Seq::<char>::empty() =~= after);
    let led = seq!['$', digit_of(n), '-'] + after;
    let whole = before + seq!['$', digit_of(n), '-'] + after;
    assert(whole =~= before + led);
    assert(whole.skip(k) =~= led);
    assert(led[0] == '$' && led[1] == digit_of(n) && led[2] == '-');
    assert(takes_argument(whole.skip(k)));
    text_before_a_placeholder_stays(before, led, rest);
    assert(led.skip(3) =~= after);
    if n <= args.len() {
        assert(args.skip(n - 1) =~= args.subrange(n - 1, args.len() as int));
    } else if n == args.len() + 1 {
        assert(args.skip(n - 1) =~= Seq::empty());
    }
    assert(before + (word + after) =~= before + word + after);
    let star = seq!['$', '*'] + after;
    let all = before + seq!['$', '*'] + after;
    assert(all =~= before + star);
    assert(all.skip(k) =~= star);
    assert(star[0] == '$' && star[1] == '*');
    assert(takes_all(all.skip(k)));
    text_before_a_placeholder_stays(before, star, rest);
    assert(star.skip(2) =~= after);
    assert(before + (rest + after) =~= before + rest + after);
}

/// A template without a placeholder gets the arguments behind it, a space
/// between them; without arguments it stays.
pub proof fn arguments_go_behind_a_plain_template(template: Seq<char>, rest: Seq<char>)
    requires
        forall|i: int| 0 <= i < template.len() ==> #[trigger] template[i] != '$',
    ensures
        rest.len() > 0 ==> substitution(template, rest) == template + seq![' '] + rest,
        substitution(template, Seq::empty()) == template,
{
    assert forall|i: int| 0 <= i < template.len() implies !takes_all(#[trigger] template.skip(i))
        && !takes_argument(template.skip(i)) by {
        assert(template.skip(i)[0] == template[i]);
    }
}

/// Whether an alias is called by a verb in small letters: the name may have
/// slashes before it, and any letter case.
pub open spec fn is_called(name: Seq<char>, verb: Seq<char>) -> bool {
    exists|k: int|
        #![trigger name.subrange(k, name.len() as int)]
        0 <= k <= name.len() && (forall|i: int| 0 <= i < k ==> #[trigger] name[i] == '/') && (k
            < name.len() ==> name[k] != '/') && lowered(name.subrange(k, name.len() as int))
            == verb
}

proof fn lemma_called(name: Seq<char>, verb: Seq<char>)
    ensures
        is_called(name, verb) == (lowered(skip_leading(name, |c: char| c == '/')) == verb),
{
    let p = |c: char| c == '/';
    let q = |c: char| !p(c);
    let f = first_where(name, q);
    lemma_first_where(name, q);
    assert(name.skip(f) =~= name.subrange(f, name.len() as int));
    assert forall|i: int| 0 <= i < f implies #[trigger] name[i] == '/' by {
        assert(!q(name[i]));
    }
    if is_called(name, verb) {
        let k = choose|k: int|
            #![trigger name.subrange(k, name.len() as int)]
            0 <= k <= name.len() && (forall|i: int| 0 <= i < k ==> #[trigger] name[i] == '/') && (k
                < name.len() ==> name[k] != '/') && lowered(name.subrange(k, name.len() as int))
                == verb;
        lemma_first_where_is(name, q, k);
    }
}

/// Of the aliases that a verb calls the first counts.
pub proof fn the_first_alias_counts(
    aliases: Seq<(Seq<char>, Seq<char>)>,
    verb: Seq<char>,
    place: int,
)
    requires
        0 <= place <= aliases.len(),
        forall|i: int| 0 <= i < place ==> !is_called((#[trigger] aliases[i]).0, verb),
        place < aliases.len() ==> is_called(aliases[place].0, verb),
    ensures
        alias_for(aliases, verb) == if place < aliases.len() {
            Some(aliases[place].1)
        } else {
            None
        },
    decreases aliases.len(),
{
    if aliases.len() > 0 {
        lemma_called(aliases[0].0, verb);
        if place > 0 {
            assert(!is_called(aliases[0].0, verb));
            let others = aliases.drop_first();
            assert forall|i: int| 0 <= i < place - 1 implies !is_called(
                (#[trigger] others[i]).0,
                verb,
            ) by {
                assert(others[i] == aliases[i + 1]);
            }
            if place < aliases.len() {
                assert(others[place - 1] == aliases[place]);
            }
            the_first_alias_counts(others, verb, place - 1);
        }
    }
}

/// Whether no alias of a list is called by a verb.
pub open spec fn calls_none(aliases: Seq<(Seq<char>, Seq<char>)>, verb: Seq<char>) -> bool {
    forall|i: int| 0 <= i < aliases.len() ==> !is_called((#[trigger] aliases[i]).0, verb)
}

/// `/w` and `/n` are short for `/whois` and `/names`, where no alias has taken
/// the letters.
pub proof fn short_forms_are_written_out(args: Seq<char>, aliases: Seq<(Seq<char>, Seq<char>)>)
    requires
        is_tidy(args),
    ensures
        calls_none(aliases, "w"@) ==> expansion(typed("w"@, args), aliases) == Ok::<
            Seq<char>,
            Seq<char>,
        >(typed("whois"@, args)),
        calls_none(aliases, "n"@) ==> expansion(typed("n"@, args), aliases) == Ok::<
            Seq<char>,
            Seq<char>,
        >(typed("names"@, args)),
{
    reveal_strlit("w");
    reveal_strlit("n");
    reveal_strlit("alias");
    reveal_strlit("unalias");
    reveal_strlit("whois");
    reveal_strlit("names");
    assert("w"@[0] == 'w' && "n"@[0] == 'n');
    assert(lowered("w"@) =~= "w"@);
    assert(lowered("n"@) =~= "n"@);
    lemma_line_splits("w"@, args);
    lemma_line_splits("n"@, args);
    if calls_none(aliases, "w"@) {
        the_first_alias_counts(aliases, "w"@, aliases.len() as int);
    }
    if calls_none(aliases, "n"@) {
        the_first_alias_counts(aliases, "n"@, aliases.len() as int);
    }
}

/// Whether a verb stays as it is: no alias and no short form has it.
pub open spec fn stays(verb: Seq<char>, aliases: Seq<(Seq<char>, Seq<char>)>) -> bool {
    &&& is_plain_verb(verb)
    &&& calls_none(aliases, lowered(verb))
    &&& lowered(verb) != "w"@
    &&& lowered(verb) != "n"@
}

proof fn lemma_expanded_once(
    name: Seq<char>,
    args: Seq<char>,
    aliases: Seq<(Seq<char>, Seq<char>)>,
    template: Seq<char>,
    verb: Seq<char>,
    rest: Seq<char>,
)
    requires
        is_plain_verb(name),
        lowered(name) != "alias"@,
        lowered(name) != "unalias"@,
        is_tidy(args),
        alias_for(aliases, lowered(name)) == Some(template),
        next_verb(template, args) == (verb, rest),
        stays(verb, aliases),
    ensures
        expansion(typed(name, args), aliases) == Ok::<Seq<char>, Seq<char>>(
            command_line(verb, rest),
        ),
{
    lemma_line_splits(name, args);
    the_first_alias_counts(aliases, lowered(verb), aliases.len() as int);
    assert(command_line(name, args) == typed(name, args));
    let chain = seq![lowered(name)];
    assert(follow(aliases, verb, rest, 1, chain.push(lowered(verb))) == Chain::Ends {
        verb,
        rest,
        depth: 1,
    });
    assert(follow(aliases, name, args, 0, chain) == Chain::Ends { verb, rest, depth: 1 });
}

/// A line that calls an alias becomes the line of the alias's template: a
/// plain template gets the arguments behind it, and `$1` to `$9` become the
/// arguments. A slash before the template does not count.
pub proof fn an_alias_is_replaced_by_its_template(
    name: Seq<char>,
    args: Seq<char>,
    aliases: Seq<(Seq<char>, Seq<char>)>,
    place: int,
    verb: Seq<char>,
    n: int,
)
    requires
        is_plain_verb(name),
        lowered(name) != "alias"@,
        lowered(name) != "unalias"@,
        is_tidy(args),
        0 <= place < aliases.len(),
        forall|i: int| 0 <= i < place ==> !is_called((#[trigger] aliases[i]).0, lowered(name)),
        is_called(aliases[place].0, lowered(name)),
        stays(verb, aliases),
        forall|i: int| 0 <= i < verb.len() ==> #[trigger] verb[i] != '$',
        1 <= n <= 9,
    ensures
        aliases[place].1 == verb || aliases[place].1 == seq!['/'] + verb ==> expansion(
            typed(name, args),
            aliases,
        ) == Ok::<Seq<char>, Seq<char>>(typed(verb, args)),
        aliases[place].1 == verb + seq![' ', '$', digit_of(n)] && n <= words(args).len()
            ==> expansion(typed(name, args), aliases) == Ok::<Seq<char>, Seq<char>>(
            typed(verb, words(args)[n - 1]),
        ),
{
    let template = aliases[place].1;
    the_first_alias_counts(aliases, lowered(name), place);
    let p = |c: char| c == '/';
    let q = |c: char| !p(c);
    if template == verb || template == seq!['/'] + verb {
        if template == verb {
            lemma_first_where_is(template, q, 0);
            assert(template.skip(0) =~= verb);
        } else {
            assert(template[1] == verb[0]);
            lemma_first_where_is(template, q, 1);
            assert(template.skip(1) =~= verb);
        }
        arguments_go_behind_a_plain_template(verb, args);
        lemma_both(verb, args);
        assert(verb + seq![' '] + args == both(verb, args));
        lemma_expanded_once(name, args, aliases, template, verb, args);
    }
    if template == verb + seq![' ', '$', digit_of(n)] && n <= words(args).len() {
        let word = words(args)[n - 1];
        lemma_first_where_is(template, q, 0);
        assert(template.skip(0) =~= template);
        let before = verb + seq![' '];
        assert forall|i: int| 0 <= i < before.len() implies #[trigger] before[i] != '$' by {
            if i < verb.len() {
                assert(before[i] == verb[i]);
            }
        }
        a_placeholder_takes_its_argument(before, n, Seq::empty(), args);
        assert(template =~= before + seq!['$', digit_of(n)] + Seq::<char>::empty());
        assert(before + word + Seq::<char>::empty() =~= both(verb, word));
        assert forall|j: int| 0 <= j < word.len() implies !is_space(#[trigger] word[j]) by {
            words_are_free_of_white_space(args, n - 1, j);
        }
        words_are_free_of_white_space(args, n - 1, 0);
        lemma_both(verb, word);
        lemma_expanded_once(name, args, aliases, template, verb, word);
    }
}

/// An alias that calls itself is refused, after five expansions.
pub proof fn an_endless_chain_is_refused(name: Seq<char>, args: Seq<char>)
    requires
        is_plain_verb(name),
        lowered(name) == name,
        name != "alias"@,
        name != "unalias"@,
        forall|i: int| 0 <= i < name.len() ==> #[trigger] name[i] != '$',
        is_tidy(args),
    ensures
        expansion(typed(name, args), seq![(name, name)]) == Err::<Seq<char>, Seq<char>>(
            join(seq![name, name, name, name, name, name], " → "@),
        ),
{
    let aliases = seq![(name, name)];
    let p = |c: char| c == '/';
    let q = |c: char| !p(c);
    lemma_first_where_is(name, q, 0);
    assert(name.skip(0) =~= name);
    assert(aliases[0].0 == name && aliases[0].1 == name);
    assert(alias_for(aliases, name) == Some(name));
    arguments_go_behind_a_plain_template(name, args);
    lemma_both(name, args);
    assert(name + seq![' '] + args == both(name, args));
    assert(next_verb(name, args) == (name, args));
    lemma_line_splits(name, args);
    assert(command_line(name, args) == typed(name, args));
    let one = seq![name];
    let two = one.push(name);
    let three = two.push(name);
    let four = three.push(name);
    let five = four.push(name);
    let six = five.push(name);
    assert(six =~= seq![name, name, name, name, name, name]);
    assert(follow(aliases, name, args, 5, six) == Chain::TooDeep(six));
    assert(follow(aliases, name, args, 4, five) == Chain::TooDeep(six));
    assert(follow(aliases, name, args, 3, four) == Chain::TooDeep(six));
    assert(follow(aliases, name, args, 2, three) == Chain::TooDeep(six));
    assert(follow(aliases, name, args, 1, two) == Chain::TooDeep(six));
    assert(follow(aliases, name, args, 0, one) == Chain::TooDeep(six));
}

/// The verbs that have a meaning.
pub open spec fn known_verbs() -> Seq<Seq<char>> {
    seq![
        "me"@,
        "msg"@,
        "notice"@,
        "query"@,
        "q"@,
        "join"@,
        "j"@,
        "part"@,
        "cycle"@,
        "topic"@,
        "nick"@,
        "away"@,
        "ctcp"@,
        "ping"@,
        "op"@,
        "deop"@,
        "voice"@,
        "devoice"@,
        "kick"@,
        "kb"@,
        "kickban"@,
        "ban"@,
        "unban"@,
        "mode"@,
        "umode"@,
        "names"@,
        "quote"@,
        "raw"@,
        "oper"@,
        "kill"@,
        "stats"@,
        "rehash"@,
        "connect"@,
        "disconnect"@,
        "reconnect"@,
        "quit"@,
        "hilight"@,
        "highlight"@,
        "dehilight"@,
        "ignore"@,
        "unignore"@,
        "notify"@,
        "watch"@,
        "alias"@,
        "unalias"@,
        "ame"@,
        "amsg"@,
        "cs"@,
        "ns"@,
        "ms"@,
        "os"@,
        "hs"@,
        "rs"@,
    ]
}

/// Any other verb is unknown, and told as it was typed.
#[verifier::rlimit(50)]
#[verifier::spinoff_prover]
pub proof fn other_verbs_are_unknown(verb: Seq<char>, args: Seq<char>)
    requires
        is_plain_verb(verb),
        !known_verbs().contains(lowered(verb)),
    ensures
        meaning(typed(verb, args)) == Some(Meaning::Unknown(seq!['/'] + verb)),
{
    lemma_typed(verb, args);
    reveal(verb_does);
    let known = known_verbs();
    assert(known[0] == "me"@);
    assert(known[1] == "msg"@);
    assert(known[2] == "notice"@);
    assert(known[3] == "query"@);
    assert(known[4] == "q"@);
    assert(known[5] == "join"@);
    assert(known[6] == "j"@);
    assert(known[7] == "part"@);
    assert(known[8] == "cycle"@);
    assert(known[9] == "topic"@);
    assert(known[10] == "nick"@);
    assert(known[11] == "away"@);
    assert(known[12] == "ctcp"@);
    assert(known[13] == "ping"@);
    assert(known[14] == "op"@);
    assert(known[15] == "deop"@);
    assert(known[16] == "voice"@);
    assert(known[17] == "devoice"@);
    assert(known[18] == "kick"@);
    assert(known[19] == "kb"@);
    assert(known[20] == "kickban"@);
    assert(known[21] == "ban"@);
    assert(known[22] == "unban"@);
    assert(known[23] == "mode"@);
    assert(known[24] == "umode"@);
    assert(known[25] == "names"@);
    assert(known[26] == "quote"@);
    assert(known[27] == "raw"@);
    assert(known[28] == "oper"@);
    assert(known[29] == "kill"@);
    assert(known[30] == "stats"@);
    assert(known[31] == "rehash"@);
    assert(known[32] == "connect"@);
    assert(known[33] == "disconnect"@);
    assert(known[34] == "reconnect"@);
    assert(known[35] == "quit"@);
    assert(known[36] == "hilight"@);
    assert(known[37] == "highlight"@);
    assert(known[38] == "dehilight"@);
    assert(known[39] == "ignore"@);
    assert(known[40] == "unignore"@);
    assert(known[41] == "notify"@);
    assert(known[42] == "watch"@);
    assert(known[43] == "alias"@);
    assert(known[44] == "unalias"@);
    assert(known[45] == "ame"@);
    assert(known[46] == "amsg"@);
    assert(known[47] == "cs"@);
    assert(known[48] == "ns"@);
    assert(known[49] == "ms"@);
    assert(known[50] == "os"@);
    assert(known[51] == "hs"@);
    assert(known[52] == "rs"@);
}

/// The services' shortcuts want a text.
pub proof fn shortcuts_want_a_text(args: Seq<char>)
    requires
        forall|i: int| 0 <= i < args.len() ==> is_space(#[trigger] args[i]),
    ensures
        meaning(typed("cs"@, args)) == Some(Meaning::Usage("/ns <command>"@)),
        meaning(typed("ns"@, args)) == Some(Meaning::Usage("/ns <command>"@)),
        meaning(typed("ms"@, args)) == Some(Meaning::Usage("/ns <command>"@)),
        meaning(typed("os"@, args)) == Some(Meaning::Usage("/ns <command>"@)),
        meaning(typed("hs"@, args)) == Some(Meaning::Usage("/ns <command>"@)),
        meaning(typed("rs"@, args)) == Some(Meaning::Usage("/ns <command>"@)),
{
    lemma_trim_is(args, 0, 0);
    assert(args.subrange(0, 0) =~= Seq::<char>::empty());
    lemma_verbs(Seq::empty());
    lemma_typed("cs"@, args);
    lemma_typed("ns"@, args);
    lemma_typed("ms"@, args);
    lemma_typed("os"@, args);
    lemma_typed("hs"@, args);
    lemma_typed("rs"@, args);
}

/// White space around a line does not count.
pub proof fn white_space_around_a_line_does_not_count(
    before: Seq<char>,
    line: Seq<char>,
    after: Seq<char>,
)
    requires
        is_tidy(line),
        forall|i: int| 0 <= i < before.len() ==> is_space(#[trigger] before[i]),
        forall|i: int| 0 <= i < after.len() ==> is_space(#[trigger] after[i]),
    ensures
        line_meaning(before + line + after) == line_meaning(line),
{
    trimming_takes_white_space_off(before, line, after);
    lemma_tidy(line);
}

/// Any white space ends a word, and what follows is taken without white space
/// around it.
pub proof fn any_white_space_ends_a_word(word: Seq<char>, space: char, rest: Seq<char>)
    requires
        is_one_word(word),
        is_space(space),
    ensures
        first_word(word + seq![space] + rest) == (word, trim(seq![space] + rest)),
        first_word(word) == (word, Seq::<char>::empty()),
{
    let text = word + seq![space] + rest;
    let n = word.len() as int;
    let blank = |c: char| is_space(c);
    let kept = |c: char| !blank(c);
    assert(text[0] == word[0]);
    lemma_first_where_is(text, kept, 0);
    assert(text.skip(0) =~= text);
    assert forall|i: int| 0 <= i < n implies !blank(#[trigger] text[i]) by {
        assert(text[i] == word[i]);
    }
    assert(text[n] == space);
    lemma_first_where_is(text, blank, n);
    assert(text.take(n) =~= word);
    assert(text.skip(n) =~= seq![space] + rest);
    lemma_one(word);
}

/// `/join` takes no more than a list and a key.
pub proof fn joins_take_a_list_and_a_key(args: Seq<char>)
    requires
        words(args).len() > 2 || words(args).len() == 0,
    ensures
        meaning(typed("join"@, args)) == Some(
            Meaning::Usage("/join <#channel>[,<#channel>] [key]"@),
        ),
        meaning(typed("j"@, args)) == Some(
            Meaning::Usage("/join <#channel>[,<#channel>] [key]"@),
        ),
{
    lemma_verbs(trim(args));
    lemma_typed("join"@, args);
    lemma_typed("j"@, args);
}

/// A command says what it is, and its texts are those that it holds.
pub proof fn a_command_says_what_it_is(command: SlashCommand)
    ensures
        command matches SlashCommand::Say(text) ==> command@ == (Meaning::Say(text@)),
        command matches SlashCommand::Action(text) ==> command@ == (Meaning::Action(text@)),
        command matches SlashCommand::Msg { target, text } ==> command@ == (Meaning::Msg {
            target: target@,
            text: text@,
        }),
        command matches SlashCommand::Notice { target, text } ==> command@ == (Meaning::Notice {
            target: target@,
            text: text@,
        }),
        command matches SlashCommand::Query(nick) ==> command@ == (Meaning::Query(opt(nick))),
        command matches SlashCommand::Join { channels, key } ==> command@ == (Meaning::Join {
            channels: channels@,
            key: opt(key),
        }),
        command matches SlashCommand::Part { channel, reason } ==> command@ == (Meaning::Part {
            channel: opt(channel),
            reason: opt(reason),
        }),
        command matches SlashCommand::Cycle { channel, reason } ==> command@ == (Meaning::Cycle {
            channel: opt(channel),
            reason: opt(reason),
        }),
        command matches SlashCommand::TopicSet { channel, text } ==> command@
            == (Meaning::TopicSet {
                channel: opt(channel),
                text: text@,
            }),
        command matches SlashCommand::TopicClear { channel } ==> command@ == (Meaning::TopicClear {
            channel: opt(channel),
        }),
        command matches SlashCommand::TopicShow { channel } ==> command@ == (Meaning::TopicShow {
            channel: opt(channel),
        }),
        command matches SlashCommand::ModeShow { channel } ==> command@ == (Meaning::ModeShow {
            channel: opt(channel),
        }),
        command matches SlashCommand::Nick(nick) ==> command@ == (Meaning::Nick(nick@)),
        command matches SlashCommand::Away(reason) ==> command@ == (Meaning::Away(opt(reason))),
        command matches SlashCommand::Ctcp { target, verb, args } ==> command@ == (Meaning::Ctcp {
            target: target@,
            verb: verb@,
            args: opt(args),
        }),
        command matches SlashCommand::Ping(target) ==> command@ == (Meaning::Ping(target@)),
        command matches SlashCommand::NickModes { verb, nicks } ==> command@
            == (Meaning::NickModes {
                verb: verb@,
                nicks: texts(nicks@),
            }),
        command matches SlashCommand::Kick { nick, reason } ==> command@ == (Meaning::Kick {
            nick: nick@,
            reason: reason@,
        }),
        command matches SlashCommand::KickBan { nick, reason } ==> command@ == (Meaning::KickBan {
            nick: nick@,
            reason: reason@,
        }),
        command matches SlashCommand::Ban(mask) ==> command@ == (Meaning::Ban(mask@)),
        command matches SlashCommand::Unban(mask) ==> command@ == (Meaning::Unban(mask@)),
        command matches SlashCommand::Mode { target, modes, params } ==> command@
            == (Meaning::Mode {
                target: opt(target),
                modes: modes@,
                params: texts(params@),
            }),
        command matches SlashCommand::Umode(modes) ==> command@ == (Meaning::Umode(modes@)),
        command matches SlashCommand::UmodeShow ==> command@ == (Meaning::UmodeShow),
        command matches SlashCommand::Names(channel) ==> command@ == (Meaning::Names(opt(channel))),
        command matches SlashCommand::Raw(line) ==> command@ == (Meaning::Raw(line@)),
        command matches SlashCommand::Oper { name, password } ==> command@ == (Meaning::Oper {
            name: name@,
            password: password@,
        }),
        command matches SlashCommand::Connect(network) ==> command@ == (Meaning::Connect(network@)),
        command matches SlashCommand::Disconnect { network, reason } ==> command@
            == (Meaning::Disconnect {
                network: opt(network),
                reason: opt(reason),
            }),
        command matches SlashCommand::Reconnect { network, reason } ==> command@
            == (Meaning::Reconnect {
                network: opt(network),
                reason: opt(reason),
            }),
        command matches SlashCommand::Quit(reason) ==> command@ == (Meaning::Quit(opt(reason))),
        command matches SlashCommand::Highlight { add, pattern } ==> command@
            == (Meaning::Highlight {
                add,
                pattern: pattern@,
            }),
        command matches SlashCommand::Ignore { add, mask } ==> command@ == (Meaning::Ignore {
            add,
            mask: mask@,
        }),
        command matches SlashCommand::Notify(nicks) ==> command@ == (
        Meaning::Notify(texts(nicks@))),
        command matches SlashCommand::AliasDefine { name, expansion } ==> command@
            == (Meaning::AliasDefine {
                name: name@,
                expansion: expansion@,
            }),
        command matches SlashCommand::Unalias(name) ==> command@ == (Meaning::Unalias(name@)),
        command matches SlashCommand::FanOut { action, text } ==> command@ == (Meaning::FanOut {
            action,
            text: text@,
        }),
        command matches SlashCommand::Usage(syntax) ==> command@ == (Meaning::Usage(syntax@)),
{
}

} // verus!
