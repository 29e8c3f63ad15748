//! Typed payloads for Grappa's self-service settings: a user's own
//! per-network identity, vhost selection, ignores, aliases, perform list and
//! notify (presence) watchlist.

use vstd::prelude::*;

use crate::json::{text_array, text_member, Json, Members, Tree};
use crate::split::texts;
use crate::text::opt;
use crate::text_map::{names_once, TextMap};

verus! {

/// Request body of `PATCH /networks/:slug/identity`. Every field is
/// optional; omitting one leaves it unchanged, `Some("")` clears it back
/// to the network's default.
#[derive(Debug, Clone, PartialEq, Eq)]
pub struct NetworkIdentityRequest {
    pub nick: Option<String>,
    pub ident: Option<String>,
    pub realname: Option<String>,
}

impl Default for NetworkIdentityRequest {
    fn default() -> (request: Self)
        ensures
            request.nick is None && request.ident is None && request.realname is None,
    {
        NetworkIdentityRequest { nick: None, ident: None, realname: None }
    }
}

/// The body of an identity change: only what is set.
pub open spec fn identity_body(
    nick: Option<Seq<char>>,
    ident: Option<Seq<char>>,
    realname: Option<Seq<char>>,
) -> Tree {
    Tree::Object(
        text_member("nick"@, nick) + text_member("ident"@, ident) + text_member(
            "realname"@,
            realname,
        ),
    )
}

impl NetworkIdentityRequest {
    pub fn to_json(&self) -> (json: Json)
        ensures
            json@ == identity_body(opt(self.nick), opt(self.ident), opt(self.realname)),
    {
        let mut members = Members::new();
        members.push_some_text("nick", &self.nick);
        members.push_some_text("ident", &self.ident);
        members.push_some_text("realname", &self.realname);
        assert(members@ =~= identity_body(
            opt(self.nick),
            opt(self.ident),
            opt(self.realname),
        )->Object_0);
        members.object()
    }
}

/// One vhost a user could select, from `GET /me/settings/vhost`.
#[derive(Debug, Clone, PartialEq)]
pub struct VhostOption {
    pub address: String,
    pub in_pool: bool,
    pub granted: bool,
    pub name: Option<String>,
}

/// Response body of `GET`/`PUT /me/settings/vhost`.
#[derive(Debug, Clone, PartialEq)]
pub struct VhostSettingsView {
    pub available: Vec<VhostOption>,
    pub selection: Vec<String>,
}

/// Request body of `PUT /me/settings/vhost`.
#[derive(Debug, Clone, PartialEq, Eq)]
pub struct VhostSelectionRequest {
    pub selection: Vec<String>,
}

impl VhostSelectionRequest {
    pub fn to_json(&self) -> (json: Json)
        ensures
            json@ == Tree::Object(seq![("selection"@, text_array(texts(self.selection@)))]),
    {
        let mut members = Members::new();
        members.push("selection", Json::text_array(&self.selection));
        assert(members@ =~= seq![("selection"@, text_array(texts(self.selection@)))]);
        members.object()
    }
}

/// Response body of `GET /networks/:slug/ignores`.
#[derive(Debug, Clone, PartialEq)]
pub struct IgnoresResponse {
    pub masks: Vec<String>,
}

/// Response body of `POST /networks/:slug/ignores` and
/// `DELETE /networks/:slug/ignores/:mask`.
#[derive(Debug, Clone, PartialEq)]
pub struct IgnoreMutationResponse {
    pub masks: Vec<String>,
    pub mask: String,
    pub outcome: String,
}

/// Request body of `POST /networks/:slug/ignores`.
#[derive(Debug, Clone, PartialEq, Eq)]
pub struct AddIgnoreRequest {
    pub mask: String,
}

impl AddIgnoreRequest {
    pub fn to_json(&self) -> (json: Json)
        ensures
            json@ == Tree::Object(seq![("mask"@, Tree::Text(self.mask@))]),
    {
        let mut members = Members::new();
        members.push_text("mask", self.mask.as_str());
        assert(members@ =~= seq![("mask"@, Tree::Text(self.mask@))]);
        members.object()
    }
}

/// Response body of `GET /me/settings/aliases`, and the request body of
/// `PUT` (same shape: a full-map replace, not a diff or patch).
#[derive(Debug, Clone, PartialEq, Eq)]
pub struct AliasesView {
    pub aliases: TextMap<String>,
}

/// The members of a map of texts.
pub open spec fn alias_members(entries: Seq<(String, String)>) -> Seq<(Seq<char>, Tree)> {
    Seq::new(entries.len(), |i: int| (entries[i].0@, Tree::Text(entries[i].1@)))
}

/// In a map that has every name once, every alias is sent once.
pub proof fn aliases_are_sent_once(entries: Seq<(String, String)>, i: int, j: int)
    requires
        names_once(entries),
        0 <= i < j < entries.len(),
    ensures
        alias_members(entries)[i].0 != alias_members(entries)[j].0,
{
}

impl Default for AliasesView {
    fn default() -> (view: Self)
        ensures
            view.aliases.entries@ == Seq::<(String, String)>::empty(),
    {
        AliasesView { aliases: TextMap::new() }
    }
}

impl AliasesView {
    pub fn to_json(&self) -> (json: Json)
        ensures
            json@ == Tree::Object(
                seq![("aliases"@, Tree::Object(alias_members(self.aliases.entries@)))],
            ),
    {
        let entries = &self.aliases.entries;
        let mut inner = Members::new();
        let mut i: usize = 0;
        while i < entries.len()
            invariant
                i <= entries@.len(),
                inner@ == alias_members(entries@).take(i as int),
            decreases entries@.len() - i,
        {
            inner.push_text(entries[i].0.as_str(), entries[i].1.as_str());
            assert(inner@ =~= alias_members(entries@).take(i + 1));
            i += 1;
        }
        assert(inner@ =~= alias_members(entries@));
        let mut members = Members::new();
        members.push("aliases", inner.object());
        assert(members@ =~= seq![("aliases"@, Tree::Object(alias_members(entries@)))]);
        members.object()
    }
}

/// Response body of `GET /networks/:slug/perform`.
#[derive(Debug, Clone, PartialEq)]
pub struct PerformView {
    pub perform_list: Option<String>,
    pub oper_pass_set: bool,
}

/// Request body of `PUT /networks/:slug/perform`. `oper_pass` is
/// write-only: omit it to leave the stored one unchanged.
#[derive(Debug, Clone, PartialEq, Eq)]
pub struct PerformUpdateRequest {
    pub perform_list: Option<String>,
    pub oper_pass: Option<String>,
}

impl Default for PerformUpdateRequest {
    fn default() -> (request: Self)
        ensures
            request.perform_list is None && request.oper_pass is None,
    {
        PerformUpdateRequest { perform_list: None, oper_pass: None }
    }
}

/// The body of a perform update: only what is set.
pub open spec fn perform_body(
    perform_list: Option<Seq<char>>,
    oper_pass: Option<Seq<char>>,
) -> Tree {
    Tree::Object(text_member("perform_list"@, perform_list) + text_member("oper_pass"@, oper_pass))
}

impl PerformUpdateRequest {
    pub fn to_json(&self) -> (json: Json)
        ensures
            json@ == perform_body(opt(self.perform_list), opt(self.oper_pass)),
    {
        let mut members = Members::new();
        members.push_some_text("perform_list", &self.perform_list);
        members.push_some_text("oper_pass", &self.oper_pass);
        assert(members@ =~= perform_body(opt(self.perform_list), opt(self.oper_pass))->Object_0);
        members.object()
    }
}

/// Request body of `POST /networks/:slug/notify` (presence watchlist).
#[derive(Debug, Clone, PartialEq, Eq)]
pub struct NotifyAddRequest {
    pub nicks: Vec<String>,
}

impl NotifyAddRequest {
    pub fn to_json(&self) -> (json: Json)
        ensures
            json@ == Tree::Object(seq![("nicks"@, text_array(texts(self.nicks@)))]),
    {
        let mut members = Members::new();
        members.push("nicks", Json::text_array(&self.nicks));
        assert(members@ =~= seq![("nicks"@, text_array(texts(self.nicks@)))]);
        members.object()
    }
}

/// Each part of an identity that is set is sent under its name, and those that
/// are not stay as they are.
pub proof fn only_what_is_set_is_sent(text: Seq<char>)
    ensures
        identity_body(Some(text), None, None) == Tree::Object(seq![("nick"@, Tree::Text(text))]),
        identity_body(None, Some(text), None) == Tree::Object(seq![("ident"@, Tree::Text(text))]),
        identity_body(None, None, Some(text)) == Tree::Object(
            seq![("realname"@, Tree::Text(text))],
        ),
        identity_body(None, None, None) == Tree::Object(Seq::empty()),
        perform_body(Some(text), None) == Tree::Object(seq![("perform_list"@, Tree::Text(text))]),
        perform_body(None, Some(text)) == Tree::Object(seq![("oper_pass"@, Tree::Text(text))]),
        perform_body(None, None) == Tree::Object(Seq::empty()),
{
    assert(identity_body(Some(text), None, None)->Object_0 =~= seq![("nick"@, Tree::Text(text))]);
    assert(identity_body(None, Some(text), None)->Object_0 =~= seq![("ident"@, Tree::Text(text))]);
    assert(identity_body(None, None, Some(text))->Object_0 =~= seq![
        ("realname"@, Tree::Text(text)),
    ]);
    assert(identity_body(None, None, None)->Object_0 =~= Seq::empty());
    assert(perform_body(Some(text), None)->Object_0 =~= seq![("perform_list"@, Tree::Text(text))]);
    assert(perform_body(None, Some(text))->Object_0 =~= seq![("oper_pass"@, Tree::Text(text))]);
    assert(perform_body(None, None)->Object_0 =~= Seq::empty());
}

/// The aliases are sent in their order, each name with its own expansion.
pub proof fn aliases_are_sent_with_their_expansions(entries: Seq<(String, String)>, i: int)
    requires
        0 <= i < entries.len(),
    ensures
        alias_members(entries).len() == entries.len(),
        alias_members(entries)[i] == (entries[i].0@, Tree::Text(entries[i].1@)),
{
}

} // verus!
