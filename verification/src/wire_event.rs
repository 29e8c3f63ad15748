//! Inventory and routing metadata for Grappa's documented client-push events.
//!
//! This is deliberately not a closed decoder for the payload object: the
//! protocol is additive, so event consumers decode only the fields they need
//! and ignore extra ones. Unknown future `kind` values are `None` and must be
//! dropped silently, never rendered as raw JSON in chat.

use vstd::prelude::*;

use crate::json::{as_text, member, Json};
use crate::split::is_text;
use crate::text::chars_of;

verus! {

/// Whom an event is sent to.
#[derive(Debug, Clone, Copy, PartialEq, Eq, Hash, Structural)]
pub enum EventCarrier {
    User,
    Channel,
    Requester,
}

/// The complete set of client event kinds documented by Grappa.
#[derive(Debug, Clone, Copy, PartialEq, Eq, Hash, Structural)]
pub enum ClientEventKind {
    ArchiveChanged,
    ArchivePurged,
    AutoAwayDebounceChanged,
    AutoAwayReasonChanged,
    AwayConfirmed,
    BanlistBundle,
    BundleHash,
    ChannelCreated,
    ChannelModesChanged,
    ChannelsChanged,
    ConnectionProgress,
    ConnectionStateChanged,
    DccOffer,
    DccOfferResolved,
    DirectoryComplete,
    DirectoryFailed,
    DirectoryProgress,
    InviteAck,
    IsupportChanged,
    Joined,
    JoinFailed,
    Kicked,
    LinksBundle,
    LusersBundle,
    MembersSeeded,
    MentionsBundle,
    Message,
    NamesReply,
    NetworkAttached,
    NetworkDetached,
    NotifyList,
    OwnNickChanged,
    PeerAway,
    PresenceChanged,
    PresenceError,
    PresenceSnapshot,
    QueryWindowsList,
    QuitPartReasonChanged,
    ReadCursorSet,
    RecoverProgress,
    RecoverResult,
    ServerReply,
    ServerSettingsChanged,
    SessionIdentityChanged,
    SupportedUmodesChanged,
    TopicChanged,
    UmodeChanged,
    WebSessionSevered,
    WhoReply,
    WhoisAvatarReady,
    WhoisBundle,
    WhowasBundle,
    WindowCounts,
    WindowInviteDeclined,
    WindowInvited,
    WindowPending,
}

/// The name that a kind has on the wire.
pub open spec fn wire_name(kind: ClientEventKind) -> Seq<char> {
    match kind {
        ClientEventKind::ArchiveChanged => "archive_changed"@,
        ClientEventKind::ArchivePurged => "archive_purged"@,
        ClientEventKind::AutoAwayDebounceChanged => "auto_away_debounce_changed"@,
        ClientEventKind::AutoAwayReasonChanged => "auto_away_reason_changed"@,
        ClientEventKind::AwayConfirmed => "away_confirmed"@,
        ClientEventKind::BanlistBundle => "banlist_bundle"@,
        ClientEventKind::BundleHash => "bundle_hash"@,
        ClientEventKind::ChannelCreated => "channel_created"@,
        ClientEventKind::ChannelModesChanged => "channel_modes_changed"@,
        ClientEventKind::ChannelsChanged => "channels_changed"@,
        ClientEventKind::ConnectionProgress => "connection_progress"@,
        ClientEventKind::ConnectionStateChanged => "connection_state_changed"@,
        ClientEventKind::DccOffer => "dcc_offer"@,
        ClientEventKind::DccOfferResolved => "dcc_offer_resolved"@,
        ClientEventKind::DirectoryComplete => "directory_complete"@,
        ClientEventKind::DirectoryFailed => "directory_failed"@,
        ClientEventKind::DirectoryProgress => "directory_progress"@,
        ClientEventKind::InviteAck => "invite_ack"@,
        ClientEventKind::IsupportChanged => "isupport_changed"@,
        ClientEventKind::Joined => "joined"@,
        ClientEventKind::JoinFailed => "join_failed"@,
        ClientEventKind::Kicked => "kicked"@,
        ClientEventKind::LinksBundle => "links_bundle"@,
        ClientEventKind::LusersBundle => "lusers_bundle"@,
        ClientEventKind::MembersSeeded => "members_seeded"@,
        ClientEventKind::MentionsBundle => "mentions_bundle"@,
        ClientEventKind::Message => "message"@,
        ClientEventKind::NamesReply => "names_reply"@,
        ClientEventKind::NetworkAttached => "network_attached"@,
        ClientEventKind::NetworkDetached => "network_detached"@,
        ClientEventKind::NotifyList => "notify_list"@,
        ClientEventKind::OwnNickChanged => "own_nick_changed"@,
        ClientEventKind::PeerAway => "peer_away"@,
        ClientEventKind::PresenceChanged => "presence_changed"@,
        ClientEventKind::PresenceError => "presence_error"@,
        ClientEventKind::PresenceSnapshot => "presence_snapshot"@,
        ClientEventKind::QueryWindowsList => "query_windows_list"@,
        ClientEventKind::QuitPartReasonChanged => "quit_part_reason_changed"@,
        ClientEventKind::ReadCursorSet => "read_cursor_set"@,
        ClientEventKind::RecoverProgress => "recover_progress"@,
        ClientEventKind::RecoverResult => "recover_result"@,
        ClientEventKind::ServerReply => "server_reply"@,
        ClientEventKind::ServerSettingsChanged => "server_settings_changed"@,
        ClientEventKind::SessionIdentityChanged => "session_identity_changed"@,
        ClientEventKind::SupportedUmodesChanged => "supported_umodes_changed"@,
        ClientEventKind::TopicChanged => "topic_changed"@,
        ClientEventKind::UmodeChanged => "umode_changed"@,
        ClientEventKind::WebSessionSevered => "web_session_severed"@,
        ClientEventKind::WhoReply => "who_reply"@,
        ClientEventKind::WhoisAvatarReady => "whois_avatar_ready"@,
        ClientEventKind::WhoisBundle => "whois_bundle"@,
        ClientEventKind::WhowasBundle => "whowas_bundle"@,
        ClientEventKind::WindowCounts => "window_counts"@,
        ClientEventKind::WindowInviteDeclined => "window_invite_declined"@,
        ClientEventKind::WindowInvited => "window_invited"@,
        ClientEventKind::WindowPending => "window_pending"@,
    }
}

/// Whether a kind has that name on the wire.
pub open spec fn is_named(kind: ClientEventKind, name: Seq<char>) -> bool {
    wire_name(kind) == name
}

/// Whom a kind of event is sent to: replies to whoever asked, what happens in
/// a channel to the channel, and all else to the user.
pub open spec fn carrier_of(kind: ClientEventKind) -> EventCarrier {
    match kind {
        ClientEventKind::BanlistBundle => EventCarrier::Requester,
        ClientEventKind::LinksBundle => EventCarrier::Requester,
        ClientEventKind::NamesReply => EventCarrier::Requester,
        ClientEventKind::ServerReply => EventCarrier::Requester,
        ClientEventKind::WhoReply => EventCarrier::Requester,
        ClientEventKind::WhoisBundle => EventCarrier::Requester,
        ClientEventKind::WhowasBundle => EventCarrier::Requester,
        ClientEventKind::ChannelCreated => EventCarrier::Channel,
        ClientEventKind::ChannelModesChanged => EventCarrier::Channel,
        ClientEventKind::MembersSeeded => EventCarrier::Channel,
        ClientEventKind::Message => EventCarrier::Channel,
        ClientEventKind::ReadCursorSet => EventCarrier::Channel,
        ClientEventKind::TopicChanged => EventCarrier::Channel,
        ClientEventKind::WindowCounts => EventCarrier::Channel,
        _ => EventCarrier::User,
    }
}

/// The kind that a name is, if it is the name of one: by its length and a few
/// of its characters.
spec fn only_candidate(name: Seq<char>) -> ClientEventKind {
    if name.len() == 6 {
        if name[0] == 'j' {
            ClientEventKind::Joined
        } else {
            ClientEventKind::Kicked
        }
    } else if name.len() == 7 {
        ClientEventKind::Message
    } else if name.len() == 9 {
        if name[0] == 'd' {
            ClientEventKind::DccOffer
        } else if name[0] == 'p' {
            ClientEventKind::PeerAway
        } else {
            ClientEventKind::WhoReply
        }
    } else if name.len() == 10 {
        ClientEventKind::InviteAck
    } else if name.len() == 11 {
        if name[2] == 'n' {
            ClientEventKind::BundleHash
        } else if name[2] == 'i' {
            ClientEventKind::JoinFailed
        } else if name[2] == 'm' {
            ClientEventKind::NamesReply
        } else {
            ClientEventKind::NotifyList
        }
    } else if name.len() == 12 {
        if name[0] == 'l' {
            ClientEventKind::LinksBundle
        } else if name[0] == 's' {
            ClientEventKind::ServerReply
        } else {
            ClientEventKind::WhoisBundle
        }
    } else if name.len() == 13 {
        if name[1] == 'u' {
            ClientEventKind::LusersBundle
        } else if name[1] == 'o' {
            ClientEventKind::TopicChanged
        } else if name[1] == 'm' {
            ClientEventKind::UmodeChanged
        } else if name[1] == 'h' {
            ClientEventKind::WhowasBundle
        } else {
            ClientEventKind::WindowCounts
        }
    } else if name.len() == 14 {
        if name[8] == 'p' {
            ClientEventKind::ArchivePurged
        } else if name[8] == 'f' {
            ClientEventKind::AwayConfirmed
        } else if name[8] == 'b' {
            ClientEventKind::BanlistBundle
        } else if name[8] == 's' {
            ClientEventKind::MembersSeeded
        } else if name[8] == '_' {
            ClientEventKind::PresenceError
        } else if name[8] == 'r' {
            ClientEventKind::RecoverResult
        } else if name[8] == 'n' {
            ClientEventKind::WindowInvited
        } else {
            ClientEventKind::WindowPending
        }
    } else if name.len() == 15 {
        if name[0] == 'a' {
            ClientEventKind::ArchiveChanged
        } else if name[0] == 'c' {
            ClientEventKind::ChannelCreated
        } else if name[0] == 'm' {
            ClientEventKind::MentionsBundle
        } else {
            ClientEventKind::ReadCursorSet
        }
    } else if name.len() == 16 {
        if name[0] == 'c' {
            ClientEventKind::ChannelsChanged
        } else if name[0] == 'd' {
            ClientEventKind::DirectoryFailed
        } else if name[0] == 'i' {
            ClientEventKind::IsupportChanged
        } else if name[0] == 'n' {
            if name[8] == 'a' {
                ClientEventKind::NetworkAttached
            } else {
                ClientEventKind::NetworkDetached
            }
        } else if name[0] == 'o' {
            ClientEventKind::OwnNickChanged
        } else if name[0] == 'p' {
            ClientEventKind::PresenceChanged
        } else {
            ClientEventKind::RecoverProgress
        }
    } else if name.len() == 17 {
        ClientEventKind::PresenceSnapshot
    } else if name.len() == 18 {
        if name[10] == 'r' {
            ClientEventKind::DccOfferResolved
        } else if name[10] == 'c' {
            ClientEventKind::DirectoryComplete
        } else if name[10] == 'p' {
            ClientEventKind::DirectoryProgress
        } else if name[10] == 'o' {
            ClientEventKind::QueryWindowsList
        } else {
            ClientEventKind::WhoisAvatarReady
        }
    } else if name.len() == 19 {
        if name[0] == 'c' {
            ClientEventKind::ConnectionProgress
        } else {
            ClientEventKind::WebSessionSevered
        }
    } else if name.len() == 21 {
        ClientEventKind::ChannelModesChanged
    } else if name.len() == 22 {
        ClientEventKind::WindowInviteDeclined
    } else if name.len() == 23 {
        ClientEventKind::ServerSettingsChanged
    } else if name.len() == 24 {
        if name[2] == 't' {
            ClientEventKind::AutoAwayReasonChanged
        } else if name[2] == 'n' {
            ClientEventKind::ConnectionStateChanged
        } else if name[2] == 'i' {
            ClientEventKind::QuitPartReasonChanged
        } else if name[2] == 's' {
            ClientEventKind::SessionIdentityChanged
        } else {
            ClientEventKind::SupportedUmodesChanged
        }
    } else {
        ClientEventKind::AutoAwayDebounceChanged
    }
}

proof fn lemma_only_candidate(kind: ClientEventKind)
    ensures
        only_candidate(wire_name(kind)) == kind,
{
    match kind {
        ClientEventKind::ArchiveChanged => {
            reveal_strlit("archive_changed");
        },
        ClientEventKind::ArchivePurged => {
            reveal_strlit("archive_purged");
        },
        ClientEventKind::AutoAwayDebounceChanged => {
            reveal_strlit("auto_away_debounce_changed");
        },
        ClientEventKind::AutoAwayReasonChanged => {
            reveal_strlit("auto_away_reason_changed");
        },
        ClientEventKind::AwayConfirmed => {
            reveal_strlit("away_confirmed");
        },
        ClientEventKind::BanlistBundle => {
            reveal_strlit("banlist_bundle");
        },
        ClientEventKind::BundleHash => {
            reveal_strlit("bundle_hash");
        },
        ClientEventKind::ChannelCreated => {
            reveal_strlit("channel_created");
        },
        ClientEventKind::ChannelModesChanged => {
            reveal_strlit("channel_modes_changed");
        },
        ClientEventKind::ChannelsChanged => {
            reveal_strlit("channels_changed");
        },
        ClientEventKind::ConnectionProgress => {
            reveal_strlit("connection_progress");
        },
        ClientEventKind::ConnectionStateChanged => {
            reveal_strlit("connection_state_changed");
        },
        ClientEventKind::DccOffer => {
            reveal_strlit("dcc_offer");
        },
        ClientEventKind::DccOfferResolved => {
            reveal_strlit("dcc_offer_resolved");
        },
        ClientEventKind::DirectoryComplete => {
            reveal_strlit("directory_complete");
        },
        ClientEventKind::DirectoryFailed => {
            reveal_strlit("directory_failed");
        },
        ClientEventKind::DirectoryProgress => {
            reveal_strlit("directory_progress");
        },
        ClientEventKind::InviteAck => {
            reveal_strlit("invite_ack");
        },
        ClientEventKind::IsupportChanged => {
            reveal_strlit("isupport_changed");
        },
        ClientEventKind::Joined => {
            reveal_strlit("joined");
        },
        ClientEventKind::JoinFailed => {
            reveal_strlit("join_failed");
        },
        ClientEventKind::Kicked => {
            reveal_strlit("kicked");
        },
        ClientEventKind::LinksBundle => {
            reveal_strlit("links_bundle");
        },
        ClientEventKind::LusersBundle => {
            reveal_strlit("lusers_bundle");
        },
        ClientEventKind::MembersSeeded => {
            reveal_strlit("members_seeded");
        },
        ClientEventKind::MentionsBundle => {
            reveal_strlit("mentions_bundle");
        },
        ClientEventKind::Message => {
            reveal_strlit("message");
        },
        ClientEventKind::NamesReply => {
            reveal_strlit("names_reply");
        },
        ClientEventKind::NetworkAttached => {
            reveal_strlit("network_attached");
        },
        ClientEventKind::NetworkDetached => {
            reveal_strlit("network_detached");
        },
        ClientEventKind::NotifyList => {
            reveal_strlit("notify_list");
        },
        ClientEventKind::OwnNickChanged => {
            reveal_strlit("own_nick_changed");
        },
        ClientEventKind::PeerAway => {
            reveal_strlit("peer_away");
        },
        ClientEventKind::PresenceChanged => {
            reveal_strlit("presence_changed");
        },
        ClientEventKind::PresenceError => {
            reveal_strlit("presence_error");
        },
        ClientEventKind::PresenceSnapshot => {
            reveal_strlit("presence_snapshot");
        },
        ClientEventKind::QueryWindowsList => {
            reveal_strlit("query_windows_list");
        },
        ClientEventKind::QuitPartReasonChanged => {
            reveal_strlit("quit_part_reason_changed");
        },
        ClientEventKind::ReadCursorSet => {
            reveal_strlit("read_cursor_set");
        },
        ClientEventKind::RecoverProgress => {
            reveal_strlit("recover_progress");
        },
        ClientEventKind::RecoverResult => {
            reveal_strlit("recover_result");
        },
        ClientEventKind::ServerReply => {
            reveal_strlit("server_reply");
        },
        ClientEventKind::ServerSettingsChanged => {
            reveal_strlit("server_settings_changed");
        },
        ClientEventKind::SessionIdentityChanged => {
            reveal_strlit("session_identity_changed");
        },
        ClientEventKind::SupportedUmodesChanged => {
            reveal_strlit("supported_umodes_changed");
        },
        ClientEventKind::TopicChanged => {
            reveal_strlit("topic_changed");
        },
        ClientEventKind::UmodeChanged => {
            reveal_strlit("umode_changed");
        },
        ClientEventKind::WebSessionSevered => {
            reveal_strlit("web_session_severed");
        },
        ClientEventKind::WhoReply => {
            reveal_strlit("who_reply");
        },
        ClientEventKind::WhoisAvatarReady => {
            reveal_strlit("whois_avatar_ready");
        },
        ClientEventKind::WhoisBundle => {
            reveal_strlit("whois_bundle");
        },
        ClientEventKind::WhowasBundle => {
            reveal_strlit("whowas_bundle");
        },
        ClientEventKind::WindowCounts => {
            reveal_strlit("window_counts");
        },
        ClientEventKind::WindowInviteDeclined => {
            reveal_strlit("window_invite_declined");
        },
        ClientEventKind::WindowInvited => {
            reveal_strlit("window_invited");
        },
        ClientEventKind::WindowPending => {
            reveal_strlit("window_pending");
        },
    }
}

/// No two kinds have the same name on the wire.
pub proof fn wire_names_are_unique(a: ClientEventKind, b: ClientEventKind)
    requires
        wire_name(a) == wire_name(b),
    ensures
        a == b,
{
    lemma_only_candidate(a);
    lemma_only_candidate(b);
}

impl ClientEventKind {
    /// Parses only the discriminator. Consumers remain responsible for
    /// narrowing the fields they use, with absent and null kept distinct where
    /// the wire contract assigns meaning to both.
    pub fn from_payload(payload: &Json) -> (kind: Option<Self>)
        ensures
            match kind {
                Some(kind) => as_text(member(payload@, "kind"@)) is Some && is_named(
                    kind,
                    as_text(member(payload@, "kind"@))->0,
                ),
                None => as_text(member(payload@, "kind"@)) is None || forall|kind: Self|
                    !#[trigger] is_named(kind, as_text(member(payload@, "kind"@))->0),
            },
    {
        match payload.text_of("kind") {
            Some(name) => Self::from_wire_name(name),
            None => None,
        }
    }

    /// The kind of that name; `None` for a name that no kind has.
    #[verifier::rlimit(50)]
    pub fn from_wire_name(name: &str) -> (kind: Option<Self>)
        ensures
            match kind {
                Some(kind) => is_named(kind, name@),
                None => forall|kind: Self| !#[trigger] is_named(kind, name@),
            },
    {
        let name = chars_of(name);
        if is_text(&name, "archive_changed") {
            Some(ClientEventKind::ArchiveChanged)
        } else if is_text(&name, "archive_purged") {
            Some(ClientEventKind::ArchivePurged)
        } else if is_text(&name, "auto_away_debounce_changed") {
            Some(ClientEventKind::AutoAwayDebounceChanged)
        } else if is_text(&name, "auto_away_reason_changed") {
            Some(ClientEventKind::AutoAwayReasonChanged)
        } else if is_text(&name, "away_confirmed") {
            Some(ClientEventKind::AwayConfirmed)
        } else if is_text(&name, "banlist_bundle") {
            Some(ClientEventKind::BanlistBundle)
        } else if is_text(&name, "bundle_hash") {
            Some(ClientEventKind::BundleHash)
        } else if is_text(&name, "channel_created") {
            Some(ClientEventKind::ChannelCreated)
        } else if is_text(&name, "channel_modes_changed") {
            Some(ClientEventKind::ChannelModesChanged)
        } else if is_text(&name, "channels_changed") {
            Some(ClientEventKind::ChannelsChanged)
        } else if is_text(&name, "connection_progress") {
            Some(ClientEventKind::ConnectionProgress)
        } else if is_text(&name, "connection_state_changed") {
            Some(ClientEventKind::ConnectionStateChanged)
        } else if is_text(&name, "dcc_offer") {
            Some(ClientEventKind::DccOffer)
        } else if is_text(&name, "dcc_offer_resolved") {
            Some(ClientEventKind::DccOfferResolved)
        } else if is_text(&name, "directory_complete") {
            Some(ClientEventKind::DirectoryComplete)
        } else if is_text(&name, "directory_failed") {
            Some(ClientEventKind::DirectoryFailed)
        } else if is_text(&name, "directory_progress") {
            Some(ClientEventKind::DirectoryProgress)
        } else if is_text(&name, "invite_ack") {
            Some(ClientEventKind::InviteAck)
        } else if is_text(&name, "isupport_changed") {
            Some(ClientEventKind::IsupportChanged)
        } else if is_text(&name, "joined") {
            Some(ClientEventKind::Joined)
        } else if is_text(&name, "join_failed") {
            Some(ClientEventKind::JoinFailed)
        } else if is_text(&name, "kicked") {
            Some(ClientEventKind::Kicked)
        } else if is_text(&name, "links_bundle") {
            Some(ClientEventKind::LinksBundle)
        } else if is_text(&name, "lusers_bundle") {
            Some(ClientEventKind::LusersBundle)
        } else if is_text(&name, "members_seeded") {
            Some(ClientEventKind::MembersSeeded)
        } else if is_text(&name, "mentions_bundle") {
            Some(ClientEventKind::MentionsBundle)
        } else if is_text(&name, "message") {
            Some(ClientEventKind::Message)
        } else if is_text(&name, "names_reply") {
            Some(ClientEventKind::NamesReply)
        } else if is_text(&name, "network_attached") {
            Some(ClientEventKind::NetworkAttached)
        } else if is_text(&name, "network_detached") {
            Some(ClientEventKind::NetworkDetached)
        } else if is_text(&name, "notify_list") {
            Some(ClientEventKind::NotifyList)
        } else if is_text(&name, "own_nick_changed") {
            Some(ClientEventKind::OwnNickChanged)
        } else if is_text(&name, "peer_away") {
            Some(ClientEventKind::PeerAway)
        } else if is_text(&name, "presence_changed") {
            Some(ClientEventKind::PresenceChanged)
        } else if is_text(&name, "presence_error") {
            Some(ClientEventKind::PresenceError)
        } else if is_text(&name, "presence_snapshot") {
            Some(ClientEventKind::PresenceSnapshot)
        } else if is_text(&name, "query_windows_list") {
            Some(ClientEventKind::QueryWindowsList)
        } else if is_text(&name, "quit_part_reason_changed") {
            Some(ClientEventKind::QuitPartReasonChanged)
        } else if is_text(&name, "read_cursor_set") {
            Some(ClientEventKind::ReadCursorSet)
        } else if is_text(&name, "recover_progress") {
            Some(ClientEventKind::RecoverProgress)
        } else if is_text(&name, "recover_result") {
            Some(ClientEventKind::RecoverResult)
        } else if is_text(&name, "server_reply") {
            Some(ClientEventKind::ServerReply)
        } else if is_text(&name, "server_settings_changed") {
            Some(ClientEventKind::ServerSettingsChanged)
        } else if is_text(&name, "session_identity_changed") {
            Some(ClientEventKind::SessionIdentityChanged)
        } else if is_text(&name, "supported_umodes_changed") {
            Some(ClientEventKind::SupportedUmodesChanged)
        } else if is_text(&name, "topic_changed") {
            Some(ClientEventKind::TopicChanged)
        } else if is_text(&name, "umode_changed") {
            Some(ClientEventKind::UmodeChanged)
        } else if is_text(&name, "web_session_severed") {
            Some(ClientEventKind::WebSessionSevered)
        } else if is_text(&name, "who_reply") {
            Some(ClientEventKind::WhoReply)
        } else if is_text(&name, "whois_avatar_ready") {
            Some(ClientEventKind::WhoisAvatarReady)
        } else if is_text(&name, "whois_bundle") {
            Some(ClientEventKind::WhoisBundle)
        } else if is_text(&name, "whowas_bundle") {
            Some(ClientEventKind::WhowasBundle)
        } else if is_text(&name, "window_counts") {
            Some(ClientEventKind::WindowCounts)
        } else if is_text(&name, "window_invite_declined") {
            Some(ClientEventKind::WindowInviteDeclined)
        } else if is_text(&name, "window_invited") {
            Some(ClientEventKind::WindowInvited)
        } else if is_text(&name, "window_pending") {
            Some(ClientEventKind::WindowPending)
        } else {
            None
        }
    }

    pub fn as_wire_name(self) -> (name: &'static str)
        ensures
            name@ == wire_name(self),
    {
        match self {
            ClientEventKind::ArchiveChanged => "archive_changed",
            ClientEventKind::ArchivePurged => "archive_purged",
            ClientEventKind::AutoAwayDebounceChanged => "auto_away_debounce_changed",
            ClientEventKind::AutoAwayReasonChanged => "auto_away_reason_changed",
            ClientEventKind::AwayConfirmed => "away_confirmed",
            ClientEventKind::BanlistBundle => "banlist_bundle",
            ClientEventKind::BundleHash => "bundle_hash",
            ClientEventKind::ChannelCreated => "channel_created",
            ClientEventKind::ChannelModesChanged => "channel_modes_changed",
            ClientEventKind::ChannelsChanged => "channels_changed",
            ClientEventKind::ConnectionProgress => "connection_progress",
            ClientEventKind::ConnectionStateChanged => "connection_state_changed",
            ClientEventKind::DccOffer => "dcc_offer",
            ClientEventKind::DccOfferResolved => "dcc_offer_resolved",
            ClientEventKind::DirectoryComplete => "directory_complete",
            ClientEventKind::DirectoryFailed => "directory_failed",
            ClientEventKind::DirectoryProgress => "directory_progress",
            ClientEventKind::InviteAck => "invite_ack",
            ClientEventKind::IsupportChanged => "isupport_changed",
            ClientEventKind::Joined => "joined",
            ClientEventKind::JoinFailed => "join_failed",
            ClientEventKind::Kicked => "kicked",
            ClientEventKind::LinksBundle => "links_bundle",
            ClientEventKind::LusersBundle => "lusers_bundle",
            ClientEventKind::MembersSeeded => "members_seeded",
            ClientEventKind::MentionsBundle => "mentions_bundle",
            ClientEventKind::Message => "message",
            ClientEventKind::NamesReply => "names_reply",
            ClientEventKind::NetworkAttached => "network_attached",
            ClientEventKind::NetworkDetached => "network_detached",
            ClientEventKind::NotifyList => "notify_list",
            ClientEventKind::OwnNickChanged => "own_nick_changed",
            ClientEventKind::PeerAway => "peer_away",
            ClientEventKind::PresenceChanged => "presence_changed",
            ClientEventKind::PresenceError => "presence_error",
            ClientEventKind::PresenceSnapshot => "presence_snapshot",
            ClientEventKind::QueryWindowsList => "query_windows_list",
            ClientEventKind::QuitPartReasonChanged => "quit_part_reason_changed",
            ClientEventKind::ReadCursorSet => "read_cursor_set",
            ClientEventKind::RecoverProgress => "recover_progress",
            ClientEventKind::RecoverResult => "recover_result",
            ClientEventKind::ServerReply => "server_reply",
            ClientEventKind::ServerSettingsChanged => "server_settings_changed",
            ClientEventKind::SessionIdentityChanged => "session_identity_changed",
            ClientEventKind::SupportedUmodesChanged => "supported_umodes_changed",
            ClientEventKind::TopicChanged => "topic_changed",
            ClientEventKind::UmodeChanged => "umode_changed",
            ClientEventKind::WebSessionSevered => "web_session_severed",
            ClientEventKind::WhoReply => "who_reply",
            ClientEventKind::WhoisAvatarReady => "whois_avatar_ready",
            ClientEventKind::WhoisBundle => "whois_bundle",
            ClientEventKind::WhowasBundle => "whowas_bundle",
            ClientEventKind::WindowCounts => "window_counts",
            ClientEventKind::WindowInviteDeclined => "window_invite_declined",
            ClientEventKind::WindowInvited => "window_invited",
            ClientEventKind::WindowPending => "window_pending",
        }
    }

    pub fn carrier(self) -> (carrier: EventCarrier)
        ensures
            carrier == carrier_of(self),
    {
        match self {
            ClientEventKind::BanlistBundle
            | ClientEventKind::LinksBundle
            | ClientEventKind::NamesReply
            | ClientEventKind::ServerReply
            | ClientEventKind::WhoReply
            | ClientEventKind::WhoisBundle
            | ClientEventKind::WhowasBundle => EventCarrier::Requester,
            ClientEventKind::ChannelCreated
            | ClientEventKind::ChannelModesChanged
            | ClientEventKind::MembersSeeded
            | ClientEventKind::Message
            | ClientEventKind::ReadCursorSet
            | ClientEventKind::TopicChanged
            | ClientEventKind::WindowCounts => EventCarrier::Channel,
            _ => EventCarrier::User,
        }
    }
}

/// A kind is told by its name on the wire: whatever kind has the name of
/// `kind` is `kind`, so that reading the name back gives it.
pub proof fn wire_names_read_back(kind: ClientEventKind, read: Option<ClientEventKind>)
    requires
        match read {
            Some(found) => is_named(found, wire_name(kind)),
            None => forall|other: ClientEventKind| !#[trigger] is_named(other, wire_name(kind)),
        },
    ensures
        read == Some(kind),
{
    match read {
        Some(found) => {
            wire_names_are_unique(kind, found);
        },
        None => {
            assert(is_named(kind, wire_name(kind)));
        },
    }
}

/// The kinds of events as they are documented: the name on the wire, the kind,
/// and whom it is sent to.
pub open spec fn documented() -> Seq<(Seq<char>, ClientEventKind, EventCarrier)> {
    seq![
        ("archive_changed"@, ClientEventKind::ArchiveChanged, EventCarrier::User),
        ("archive_purged"@, ClientEventKind::ArchivePurged, EventCarrier::User),
        (
            "auto_away_debounce_changed"@,
            ClientEventKind::AutoAwayDebounceChanged,
            EventCarrier::User,
        ),
        ("auto_away_reason_changed"@, ClientEventKind::AutoAwayReasonChanged, EventCarrier::User),
        ("away_confirmed"@, ClientEventKind::AwayConfirmed, EventCarrier::User),
        ("banlist_bundle"@, ClientEventKind::BanlistBundle, EventCarrier::Requester),
        ("bundle_hash"@, ClientEventKind::BundleHash, EventCarrier::User),
        ("channel_created"@, ClientEventKind::ChannelCreated, EventCarrier::Channel),
        ("channel_modes_changed"@, ClientEventKind::ChannelModesChanged, EventCarrier::Channel),
        ("channels_changed"@, ClientEventKind::ChannelsChanged, EventCarrier::User),
        ("connection_progress"@, ClientEventKind::ConnectionProgress, EventCarrier::User),
        ("connection_state_changed"@, ClientEventKind::ConnectionStateChanged, EventCarrier::User),
        ("dcc_offer"@, ClientEventKind::DccOffer, EventCarrier::User),
        ("dcc_offer_resolved"@, ClientEventKind::DccOfferResolved, EventCarrier::User),
        ("directory_complete"@, ClientEventKind::DirectoryComplete, EventCarrier::User),
        ("directory_failed"@, ClientEventKind::DirectoryFailed, EventCarrier::User),
        ("directory_progress"@, ClientEventKind::DirectoryProgress, EventCarrier::User),
        ("invite_ack"@, ClientEventKind::InviteAck, EventCarrier::User),
        ("isupport_changed"@, ClientEventKind::IsupportChanged, EventCarrier::User),
        ("joined"@, ClientEventKind::Joined, EventCarrier::User),
        ("join_failed"@, ClientEventKind::JoinFailed, EventCarrier::User),
        ("kicked"@, ClientEventKind::Kicked, EventCarrier::User),
        ("links_bundle"@, ClientEventKind::LinksBundle, EventCarrier::Requester),
        ("lusers_bundle"@, ClientEventKind::LusersBundle, EventCarrier::User),
        ("members_seeded"@, ClientEventKind::MembersSeeded, EventCarrier::Channel),
        ("mentions_bundle"@, ClientEventKind::MentionsBundle, EventCarrier::User),
        ("message"@, ClientEventKind::Message, EventCarrier::Channel),
        ("names_reply"@, ClientEventKind::NamesReply, EventCarrier::Requester),
        ("network_attached"@, ClientEventKind::NetworkAttached, EventCarrier::User),
        ("network_detached"@, ClientEventKind::NetworkDetached, EventCarrier::User),
        ("notify_list"@, ClientEventKind::NotifyList, EventCarrier::User),
        ("own_nick_changed"@, ClientEventKind::OwnNickChanged, EventCarrier::User),
        ("peer_away"@, ClientEventKind::PeerAway, EventCarrier::User),
        ("presence_changed"@, ClientEventKind::PresenceChanged, EventCarrier::User),
        ("presence_error"@, ClientEventKind::PresenceError, EventCarrier::User),
        ("presence_snapshot"@, ClientEventKind::PresenceSnapshot, EventCarrier::User),
        ("query_windows_list"@, ClientEventKind::QueryWindowsList, EventCarrier::User),
        ("quit_part_reason_changed"@, ClientEventKind::QuitPartReasonChanged, EventCarrier::User),
        ("read_cursor_set"@, ClientEventKind::ReadCursorSet, EventCarrier::Channel),
        ("recover_progress"@, ClientEventKind::RecoverProgress, EventCarrier::User),
        ("recover_result"@, ClientEventKind::RecoverResult, EventCarrier::User),
        ("server_reply"@, ClientEventKind::ServerReply, EventCarrier::Requester),
        ("server_settings_changed"@, ClientEventKind::ServerSettingsChanged, EventCarrier::User),
        ("session_identity_changed"@, ClientEventKind::SessionIdentityChanged, EventCarrier::User),
        ("supported_umodes_changed"@, ClientEventKind::SupportedUmodesChanged, EventCarrier::User),
        ("topic_changed"@, ClientEventKind::TopicChanged, EventCarrier::Channel),
        ("umode_changed"@, ClientEventKind::UmodeChanged, EventCarrier::User),
        ("web_session_severed"@, ClientEventKind::WebSessionSevered, EventCarrier::User),
        ("who_reply"@, ClientEventKind::WhoReply, EventCarrier::Requester),
        ("whois_avatar_ready"@, ClientEventKind::WhoisAvatarReady, EventCarrier::User),
        ("whois_bundle"@, ClientEventKind::WhoisBundle, EventCarrier::Requester),
        ("whowas_bundle"@, ClientEventKind::WhowasBundle, EventCarrier::Requester),
        ("window_counts"@, ClientEventKind::WindowCounts, EventCarrier::Channel),
        ("window_invite_declined"@, ClientEventKind::WindowInviteDeclined, EventCarrier::User),
        ("window_invited"@, ClientEventKind::WindowInvited, EventCarrier::User),
        ("window_pending"@, ClientEventKind::WindowPending, EventCarrier::User),
    ]
}

/// The place of a kind among the documented ones.
pub open spec fn documented_at(kind: ClientEventKind) -> int {
    match kind {
        ClientEventKind::ArchiveChanged => 0,
        ClientEventKind::ArchivePurged => 1,
        ClientEventKind::AutoAwayDebounceChanged => 2,
        ClientEventKind::AutoAwayReasonChanged => 3,
        ClientEventKind::AwayConfirmed => 4,
        ClientEventKind::BanlistBundle => 5,
        ClientEventKind::BundleHash => 6,
        ClientEventKind::ChannelCreated => 7,
        ClientEventKind::ChannelModesChanged => 8,
        ClientEventKind::ChannelsChanged => 9,
        ClientEventKind::ConnectionProgress => 10,
        ClientEventKind::ConnectionStateChanged => 11,
        ClientEventKind::DccOffer => 12,
        ClientEventKind::DccOfferResolved => 13,
        ClientEventKind::DirectoryComplete => 14,
        ClientEventKind::DirectoryFailed => 15,
        ClientEventKind::DirectoryProgress => 16,
        ClientEventKind::InviteAck => 17,
        ClientEventKind::IsupportChanged => 18,
        ClientEventKind::Joined => 19,
        ClientEventKind::JoinFailed => 20,
        ClientEventKind::Kicked => 21,
        ClientEventKind::LinksBundle => 22,
        ClientEventKind::LusersBundle => 23,
        ClientEventKind::MembersSeeded => 24,
        ClientEventKind::MentionsBundle => 25,
        ClientEventKind::Message => 26,
        ClientEventKind::NamesReply => 27,
        ClientEventKind::NetworkAttached => 28,
        ClientEventKind::NetworkDetached => 29,
        ClientEventKind::NotifyList => 30,
        ClientEventKind::OwnNickChanged => 31,
        ClientEventKind::PeerAway => 32,
        ClientEventKind::PresenceChanged => 33,
        ClientEventKind::PresenceError => 34,
        ClientEventKind::PresenceSnapshot => 35,
        ClientEventKind::QueryWindowsList => 36,
        ClientEventKind::QuitPartReasonChanged => 37,
        ClientEventKind::ReadCursorSet => 38,
        ClientEventKind::RecoverProgress => 39,
        ClientEventKind::RecoverResult => 40,
        ClientEventKind::ServerReply => 41,
        ClientEventKind::ServerSettingsChanged => 42,
        ClientEventKind::SessionIdentityChanged => 43,
        ClientEventKind::SupportedUmodesChanged => 44,
        ClientEventKind::TopicChanged => 45,
        ClientEventKind::UmodeChanged => 46,
        ClientEventKind::WebSessionSevered => 47,
        ClientEventKind::WhoReply => 48,
        ClientEventKind::WhoisAvatarReady => 49,
        ClientEventKind::WhoisBundle => 50,
        ClientEventKind::WhowasBundle => 51,
        ClientEventKind::WindowCounts => 52,
        ClientEventKind::WindowInviteDeclined => 53,
        ClientEventKind::WindowInvited => 54,
        ClientEventKind::WindowPending => 55,
    }
}

/// Every kind has the name and the addressees that are documented.
#[verifier::rlimit(60)]
#[verifier::spinoff_prover]
pub proof fn kinds_are_as_documented(kind: ClientEventKind)
    ensures
        ({
            let (name, listed, carrier) = documented()[documented_at(kind)];
            &&& listed == kind
            &&& wire_name(kind) == name
            &&& carrier_of(kind) == carrier
        }),
{
    let list = documented();
    assert(list[0].0 == "archive_changed"@ && list[0].1 == ClientEventKind::ArchiveChanged);
    assert(list[1].0 == "archive_purged"@ && list[1].1 == ClientEventKind::ArchivePurged);
    assert(list[2].0 == "auto_away_debounce_changed"@
        && list[2].1 == ClientEventKind::AutoAwayDebounceChanged);
    assert(list[3].0 == "auto_away_reason_changed"@
        && list[3].1 == ClientEventKind::AutoAwayReasonChanged);
    assert(list[4].0 == "away_confirmed"@ && list[4].1 == ClientEventKind::AwayConfirmed);
    assert(list[5].0 == "banlist_bundle"@ && list[5].1 == ClientEventKind::BanlistBundle);
    assert(list[6].0 == "bundle_hash"@ && list[6].1 == ClientEventKind::BundleHash);
    assert(list[7].0 == "channel_created"@ && list[7].1 == ClientEventKind::ChannelCreated);
    assert(list[8].0 == "channel_modes_changed"@
        && list[8].1 == ClientEventKind::ChannelModesChanged);
    assert(list[9].0 == "channels_changed"@ && list[9].1 == ClientEventKind::ChannelsChanged);
    assert(list[10].0 == "connection_progress"@
        && list[10].1 == ClientEventKind::ConnectionProgress);
    assert(list[11].0 == "connection_state_changed"@
        && list[11].1 == ClientEventKind::ConnectionStateChanged);
    assert(list[12].0 == "dcc_offer"@ && list[12].1 == ClientEventKind::DccOffer);
    assert(list[13].0 == "dcc_offer_resolved"@ && list[13].1 == ClientEventKind::DccOfferResolved);
    assert(list[14].0 == "directory_complete"@ && list[14].1 == ClientEventKind::DirectoryComplete);
    assert(list[15].0 == "directory_failed"@ && list[15].1 == ClientEventKind::DirectoryFailed);
    assert(list[16].0 == "directory_progress"@ && list[16].1 == ClientEventKind::DirectoryProgress);
    assert(list[17].0 == "invite_ack"@ && list[17].1 == ClientEventKind::InviteAck);
    assert(list[18].0 == "isupport_changed"@ && list[18].1 == ClientEventKind::IsupportChanged);
    assert(list[19].0 == "joined"@ && list[19].1 == ClientEventKind::Joined);
    assert(list[20].0 == "join_failed"@ && list[20].1 == ClientEventKind::JoinFailed);
    assert(list[21].0 == "kicked"@ && list[21].1 == ClientEventKind::Kicked);
    assert(list[22].0 == "links_bundle"@ && list[22].1 == ClientEventKind::LinksBundle);
    assert(list[23].0 == "lusers_bundle"@ && list[23].1 == ClientEventKind::LusersBundle);
    assert(list[24].0 == "members_seeded"@ && list[24].1 == ClientEventKind::MembersSeeded);
    assert(list[25].0 == "mentions_bundle"@ && list[25].1 == ClientEventKind::MentionsBundle);
    assert(list[26].0 == "message"@ && list[26].1 == ClientEventKind::Message);
    assert(list[27].0 == "names_reply"@ && list[27].1 == ClientEventKind::NamesReply);
    assert(list[28].0 == "network_attached"@ && list[28].1 == ClientEventKind::NetworkAttached);
    assert(list[29].0 == "network_detached"@ && list[29].1 == ClientEventKind::NetworkDetached);
    assert(list[30].0 == "notify_list"@ && list[30].1 == ClientEventKind::NotifyList);
    assert(list[31].0 == "own_nick_changed"@ && list[31].1 == ClientEventKind::OwnNickChanged);
    assert(list[32].0 == "peer_away"@ && list[32].1 == ClientEventKind::PeerAway);
    assert(list[33].0 == "presence_changed"@ && list[33].1 == ClientEventKind::PresenceChanged);
    assert(list[34].0 == "presence_error"@ && list[34].1 == ClientEventKind::PresenceError);
    assert(list[35].0 == "presence_snapshot"@ && list[35].1 == ClientEventKind::PresenceSnapshot);
    assert(list[36].0 == "query_windows_list"@ && list[36].1 == ClientEventKind::QueryWindowsList);
    assert(list[37].0 == "quit_part_reason_changed"@
        && list[37].1 == ClientEventKind::QuitPartReasonChanged);
    assert(list[38].0 == "read_cursor_set"@ && list[38].1 == ClientEventKind::ReadCursorSet);
    assert(list[39].0 == "recover_progress"@ && list[39].1 == ClientEventKind::RecoverProgress);
    assert(list[40].0 == "recover_result"@ && list[40].1 == ClientEventKind::RecoverResult);
    assert(list[41].0 == "server_reply"@ && list[41].1 == ClientEventKind::ServerReply);
    assert(list[42].0 == "server_settings_changed"@
        && list[42].1 == ClientEventKind::ServerSettingsChanged);
    assert(list[43].0 == "session_identity_changed"@
        && list[43].1 == ClientEventKind::SessionIdentityChanged);
    assert(list[44].0 == "supported_umodes_changed"@
        && list[44].1 == ClientEventKind::SupportedUmodesChanged);
    assert(list[45].0 == "topic_changed"@ && list[45].1 == ClientEventKind::TopicChanged);
    assert(list[46].0 == "umode_changed"@ && list[46].1 == ClientEventKind::UmodeChanged);
    assert(list[47].0 == "web_session_severed"@
        && list[47].1 == ClientEventKind::WebSessionSevered);
    assert(list[48].0 == "who_reply"@ && list[48].1 == ClientEventKind::WhoReply);
    assert(list[49].0 == "whois_avatar_ready"@ && list[49].1 == ClientEventKind::WhoisAvatarReady);
    assert(list[50].0 == "whois_bundle"@ && list[50].1 == ClientEventKind::WhoisBundle);
    assert(list[51].0 == "whowas_bundle"@ && list[51].1 == ClientEventKind::WhowasBundle);
    assert(list[52].0 == "window_counts"@ && list[52].1 == ClientEventKind::WindowCounts);
    assert(list[53].0 == "window_invite_declined"@
        && list[53].1 == ClientEventKind::WindowInviteDeclined);
    assert(list[54].0 == "window_invited"@ && list[54].1 == ClientEventKind::WindowInvited);
    assert(list[55].0 == "window_pending"@ && list[55].1 == ClientEventKind::WindowPending);
}

} // verus!
