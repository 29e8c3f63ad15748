use std::collections::HashSet;

use cordiale::json::Json;
use cordiale::wire_event::{ClientEventKind, EventCarrier};

fn json(text: &str) -> Json {
    Json::parse(text).expect("a document")
}

/// Every kind, to check the wire-name table end to end.
const ALL_CLIENT_EVENT_KINDS: [ClientEventKind; 56] = [
    ClientEventKind::ArchiveChanged,
    ClientEventKind::ArchivePurged,
    ClientEventKind::AutoAwayDebounceChanged,
    ClientEventKind::AutoAwayReasonChanged,
    ClientEventKind::AwayConfirmed,
    ClientEventKind::BanlistBundle,
    ClientEventKind::BundleHash,
    ClientEventKind::ChannelCreated,
    ClientEventKind::ChannelModesChanged,
    ClientEventKind::ChannelsChanged,
    ClientEventKind::ConnectionProgress,
    ClientEventKind::ConnectionStateChanged,
    ClientEventKind::DccOffer,
    ClientEventKind::DccOfferResolved,
    ClientEventKind::DirectoryComplete,
    ClientEventKind::DirectoryFailed,
    ClientEventKind::DirectoryProgress,
    ClientEventKind::InviteAck,
    ClientEventKind::IsupportChanged,
    ClientEventKind::Joined,
    ClientEventKind::JoinFailed,
    ClientEventKind::Kicked,
    ClientEventKind::LinksBundle,
    ClientEventKind::LusersBundle,
    ClientEventKind::MembersSeeded,
    ClientEventKind::MentionsBundle,
    ClientEventKind::Message,
    ClientEventKind::NamesReply,
    ClientEventKind::NetworkAttached,
    ClientEventKind::NetworkDetached,
    ClientEventKind::NotifyList,
    ClientEventKind::OwnNickChanged,
    ClientEventKind::PeerAway,
    ClientEventKind::PresenceChanged,
    ClientEventKind::PresenceError,
    ClientEventKind::PresenceSnapshot,
    ClientEventKind::QueryWindowsList,
    ClientEventKind::QuitPartReasonChanged,
    ClientEventKind::ReadCursorSet,
    ClientEventKind::RecoverProgress,
    ClientEventKind::RecoverResult,
    ClientEventKind::ServerReply,
    ClientEventKind::ServerSettingsChanged,
    ClientEventKind::SessionIdentityChanged,
    ClientEventKind::SupportedUmodesChanged,
    ClientEventKind::TopicChanged,
    ClientEventKind::UmodeChanged,
    ClientEventKind::WebSessionSevered,
    ClientEventKind::WhoReply,
    ClientEventKind::WhoisAvatarReady,
    ClientEventKind::WhoisBundle,
    ClientEventKind::WhowasBundle,
    ClientEventKind::WindowCounts,
    ClientEventKind::WindowInviteDeclined,
    ClientEventKind::WindowInvited,
    ClientEventKind::WindowPending,
];

#[test]
fn inventory_has_56_unique_wire_names_and_round_trips() {
    let names: HashSet<_> = ALL_CLIENT_EVENT_KINDS
        .iter()
        .map(|kind| kind.as_wire_name())
        .collect();
    assert_eq!(ALL_CLIENT_EVENT_KINDS.len(), 56);
    assert_eq!(names.len(), 56);
    for kind in ALL_CLIENT_EVENT_KINDS {
        assert_eq!(
            ClientEventKind::from_wire_name(kind.as_wire_name()),
            Some(kind)
        );
    }
}

#[test]
fn unknown_and_malformed_discriminators_are_ignored() {
    assert_eq!(ClientEventKind::from_wire_name("future_kind"), None);
    assert_eq!(
        ClientEventKind::from_payload(&json(r##"{"kind": "future_kind"}"##)),
        None
    );
    assert_eq!(ClientEventKind::from_payload(&json(r##"{}"##)), None);
    assert_eq!(
        ClientEventKind::from_payload(&json(r##"{"kind": 17}"##)),
        None
    );
}

#[test]
fn requester_replies_are_not_misclassified_as_broadcasts() {
    for kind in [
        ClientEventKind::BanlistBundle,
        ClientEventKind::LinksBundle,
        ClientEventKind::NamesReply,
        ClientEventKind::ServerReply,
        ClientEventKind::WhoReply,
        ClientEventKind::WhoisBundle,
        ClientEventKind::WhowasBundle,
    ] {
        assert_eq!(kind.carrier(), EventCarrier::Requester);
    }
}
