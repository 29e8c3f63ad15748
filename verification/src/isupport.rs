//! Typed validation for Grappa's per-network IRC ISUPPORT snapshot.

use vstd::prelude::*;

use crate::json::{
    as_signed, as_text, as_unsigned, find_member, lemma_array_tree, lemma_object_tree, member,
    named_trees, opt_tree, text_array, trees, Json, Num, Tree,
};
use crate::split::{same_text, texts};
use crate::text_map::TextMap;

verus! {

/// IRC case-folding advertised by the connected server.
#[derive(Clone, Copy, Debug, PartialEq, Eq, Structural)]
pub enum CaseMapping {
    Ascii,
    Rfc1459,
    Rfc1459Strict,
}

/// Complete server capability snapshot for one network.
#[derive(Clone, Debug, PartialEq, Eq)]
pub struct IsupportState {
    pub chanmodes_a: Vec<String>,
    pub chanmodes_b: Vec<String>,
    pub chanmodes_c: Vec<String>,
    pub chanmodes_d: Vec<String>,
    pub list_modes_queryable: Vec<String>,
    pub prefix: TextMap<String>,
    pub prefix_order: Vec<String>,
    pub chantypes: Vec<String>,
    pub casemapping: CaseMapping,
    pub maxlist: TextMap<u64>,
    pub nicklen: Option<u64>,
    pub channellen: Option<u64>,
    pub topiclen: Option<u64>,
    pub frame_budget_base: u64,
}

/// A validated `isupport_changed` envelope.
#[derive(Clone, Debug, PartialEq, Eq)]
pub struct IsupportChanged {
    pub network_id: i64,
    pub state: IsupportState,
}

/// What an [`IsupportChanged`] says.
pub struct Snapshot {
    pub network_id: int,
    pub chanmodes_a: Seq<Seq<char>>,
    pub chanmodes_b: Seq<Seq<char>>,
    pub chanmodes_c: Seq<Seq<char>>,
    pub chanmodes_d: Seq<Seq<char>>,
    pub list_modes_queryable: Seq<Seq<char>>,
    pub prefix: Seq<(Seq<char>, Seq<char>)>,
    pub prefix_order: Seq<Seq<char>>,
    pub chantypes: Seq<Seq<char>>,
    pub casemapping: CaseMapping,
    pub maxlist: Seq<(Seq<char>, int)>,
    pub nicklen: Option<int>,
    pub channellen: Option<int>,
    pub topiclen: Option<int>,
    pub frame_budget_base: int,
}

pub open spec fn text_entries(entries: Seq<(String, String)>) -> Seq<(Seq<char>, Seq<char>)> {
    Seq::new(entries.len(), |i: int| (entries[i].0@, entries[i].1@))
}

pub open spec fn count_entries(entries: Seq<(String, u64)>) -> Seq<(Seq<char>, int)> {
    Seq::new(entries.len(), |i: int| (entries[i].0@, entries[i].1 as int))
}

pub open spec fn opt_count(n: Option<u64>) -> Option<int> {
    match n {
        Some(n) => Some(n as int),
        None => None,
    }
}

impl View for IsupportChanged {
    type V = Snapshot;

    open spec fn view(&self) -> Snapshot {
        Snapshot {
            network_id: self.network_id as int,
            chanmodes_a: texts(self.state.chanmodes_a@),
            chanmodes_b: texts(self.state.chanmodes_b@),
            chanmodes_c: texts(self.state.chanmodes_c@),
            chanmodes_d: texts(self.state.chanmodes_d@),
            list_modes_queryable: texts(self.state.list_modes_queryable@),
            prefix: text_entries(self.state.prefix.entries@),
            prefix_order: texts(self.state.prefix_order@),
            chantypes: texts(self.state.chantypes@),
            casemapping: self.state.casemapping,
            maxlist: count_entries(self.state.maxlist.entries@),
            nicklen: opt_count(self.state.nicklen),
            channellen: opt_count(self.state.channellen),
            topiclen: opt_count(self.state.topiclen),
            frame_budget_base: self.state.frame_budget_base as int,
        }
    }
}

/// The texts of an array that holds nothing else.
pub open spec fn text_list(tree: Option<Tree>) -> Option<Seq<Seq<char>>> {
    match tree {
        Some(Tree::Array(items)) => if forall|i: int|
            0 <= i < items.len() ==> (#[trigger] items[i]) is Text {
            Some(Seq::new(items.len(), |i: int| items[i]->Text_0))
        } else {
            None
        },
        _ => None,
    }
}

/// The members of an object that holds nothing but texts.
pub open spec fn text_members(tree: Option<Tree>) -> Option<Seq<(Seq<char>, Seq<char>)>> {
    match tree {
        Some(Tree::Object(members)) => if forall|i: int|
            0 <= i < members.len() ==> (#[trigger] members[i]).1 is Text {
            Some(Seq::new(members.len(), |i: int| (members[i].0, members[i].1->Text_0)))
        } else {
            None
        },
        _ => None,
    }
}

/// The whole number above zero that a document is.
pub open spec fn positive(tree: Option<Tree>) -> Option<int> {
    match as_unsigned(tree) {
        Some(n) => if n > 0 {
            Some(n)
        } else {
            None
        },
        None => None,
    }
}

/// The members of an object that holds nothing but whole numbers above zero.
pub open spec fn positive_members(tree: Option<Tree>) -> Option<Seq<(Seq<char>, int)>> {
    match tree {
        Some(Tree::Object(members)) => if forall|i: int|
            0 <= i < members.len() ==> positive(Some((#[trigger] members[i]).1)) is Some {
            Some(
                Seq::new(
                    members.len(),
                    |i: int| (members[i].0, positive(Some(members[i].1))->0),
                ),
            )
        } else {
            None
        },
        _ => None,
    }
}

/// A limit that may be null, for none.
pub open spec fn limit(tree: Option<Tree>) -> Option<Option<int>> {
    match tree {
        Some(Tree::Null) => Some(None),
        _ => match positive(tree) {
            Some(n) => Some(Some(n)),
            None => None,
        },
    }
}

pub open spec fn case_mapping(tree: Option<Tree>) -> Option<CaseMapping> {
    match as_text(tree) {
        Some(name) => if name == "ascii"@ {
            Some(CaseMapping::Ascii)
        } else if name == "rfc1459"@ {
            Some(CaseMapping::Rfc1459)
        } else if name == "rfc1459_strict"@ {
            Some(CaseMapping::Rfc1459Strict)
        } else {
            None
        },
        None => None,
    }
}

/// The snapshot that a payload is: every field is there and well-formed, and
/// whatever other fields there are do not matter.
pub open spec fn snapshot_of(payload: Tree) -> Option<Snapshot> {
    let network_id = as_signed(member(payload, "network_id"@));
    let chanmodes_a = text_list(member(payload, "chanmodes_a"@));
    let chanmodes_b = text_list(member(payload, "chanmodes_b"@));
    let chanmodes_c = text_list(member(payload, "chanmodes_c"@));
    let chanmodes_d = text_list(member(payload, "chanmodes_d"@));
    let list_modes_queryable = text_list(member(payload, "list_modes_queryable"@));
    let prefix = text_members(member(payload, "prefix"@));
    let prefix_order = text_list(member(payload, "prefix_order"@));
    let chantypes = text_list(member(payload, "chantypes"@));
    let casemapping = case_mapping(member(payload, "casemapping"@));
    let maxlist = positive_members(member(payload, "maxlist"@));
    let nicklen = limit(member(payload, "nicklen"@));
    let channellen = limit(member(payload, "channellen"@));
    let topiclen = limit(member(payload, "topiclen"@));
    let frame_budget_base = positive(member(payload, "frame_budget_base"@));
    if as_text(member(payload, "kind"@)) == Some("isupport_changed"@) && network_id is Some
        && network_id->0 > 0 && chanmodes_a is Some && chanmodes_b is Some && chanmodes_c is Some
        && chanmodes_d is Some && list_modes_queryable is Some && prefix is Some
        && prefix_order is Some && chantypes is Some && casemapping is Some && maxlist is Some
        && nicklen is Some && channellen is Some && topiclen is Some
        && frame_budget_base is Some {
        Some(
            Snapshot {
                network_id: network_id->0,
                chanmodes_a: chanmodes_a->0,
                chanmodes_b: chanmodes_b->0,
                chanmodes_c: chanmodes_c->0,
                chanmodes_d: chanmodes_d->0,
                list_modes_queryable: list_modes_queryable->0,
                prefix: prefix->0,
                prefix_order: prefix_order->0,
                chantypes: chantypes->0,
                casemapping: casemapping->0,
                maxlist: maxlist->0,
                nicklen: nicklen->0,
                channellen: channellen->0,
                topiclen: topiclen->0,
                frame_budget_base: frame_budget_base->0,
            },
        )
    } else {
        None
    }
}

fn string_array(value: Option<&Json>) -> (list: Option<Vec<String>>)
    ensures
        match list {
            Some(list) => text_list(opt_tree(value)) == Some(texts(list@)),
            None => text_list(opt_tree(value)) is None,
        },
{
    let items = match value {
        Some(Json::Array(items)) => items,
        _ => {
            return None;
        },
    };
    proof {
        lemma_array_tree(*items);
    }
    let ghost all = trees(items@);
    let mut list: Vec<String> = Vec::new();
    let mut i: usize = 0;
    while i < items.len()
        invariant
            i <= items@.len(),
            all == trees(items@),
            opt_tree(value) == Some(Tree::Array(all)),
            list@.len() == i,
            forall|j: int| 0 <= j < i ==> #[trigger] all[j] == Tree::Text(list@[j]@),
        decreases items@.len() - i,
    {
        assert(all[i as int] == items@[i as int]@);
        match &items[i] {
            Json::Text(text) => {
                list.push(text.clone());
            },
            _ => {
                assert(!(all[i as int] is Text));
                return None;
            },
        }
        i += 1;
    }
    assert(text_list(opt_tree(value))->0 =~= texts(list@));
    Some(list)
}

fn string_map(value: Option<&Json>) -> (map: Option<TextMap<String>>)
    ensures
        match map {
            Some(map) => text_members(opt_tree(value)) == Some(text_entries(map.entries@)),
            None => text_members(opt_tree(value)) is None,
        },
{
    let members = match value {
        Some(Json::Object(members)) => members,
        _ => {
            return None;
        },
    };
    proof {
        lemma_object_tree(*members);
    }
    let ghost all = named_trees(members@);
    let mut entries: Vec<(String, String)> = Vec::new();
    let mut i: usize = 0;
    while i < members.len()
        invariant
            i <= members@.len(),
            all == named_trees(members@),
            opt_tree(value) == Some(Tree::Object(all)),
            entries@.len() == i,
            forall|j: int|
                0 <= j < i ==> #[trigger] all[j] == (entries@[j].0@, Tree::Text(entries@[j].1@)),
        decreases members@.len() - i,
    {
        assert(all[i as int] == (members@[i as int].0@, members@[i as int].1@));
        match &members[i].1 {
            Json::Text(text) => {
                entries.push((members[i].0.clone(), text.clone()));
            },
            _ => {
                assert(!(all[i as int].1 is Text));
                return None;
            },
        }
        i += 1;
    }
    assert(text_members(opt_tree(value))->0 =~= text_entries(entries@));
    Some(TextMap { entries })
}

fn positive_integer(value: Option<&Json>) -> (n: Option<u64>)
    ensures
        match n {
            Some(n) => positive(opt_tree(value)) == Some(n as int),
            None => positive(opt_tree(value)) is None,
        },
{
    match value {
        Some(json) => match json.as_u64() {
            Some(n) => if n > 0 {
                Some(n)
            } else {
                None
            },
            None => None,
        },
        None => None,
    }
}

fn positive_integer_map(value: Option<&Json>) -> (map: Option<TextMap<u64>>)
    ensures
        match map {
            Some(map) => positive_members(opt_tree(value)) == Some(count_entries(map.entries@)),
            None => positive_members(opt_tree(value)) is None,
        },
{
    let members = match value {
        Some(Json::Object(members)) => members,
        _ => {
            return None;
        },
    };
    proof {
        lemma_object_tree(*members);
    }
    let ghost all = named_trees(members@);
    let mut entries: Vec<(String, u64)> = Vec::new();
    let mut i: usize = 0;
    while i < members.len()
        invariant
            i <= members@.len(),
            all == named_trees(members@),
            opt_tree(value) == Some(Tree::Object(all)),
            entries@.len() == i,
            forall|j: int|
                0 <= j < i ==> (#[trigger] all[j]).0 == entries@[j].0@ && positive(Some(all[j].1))
                    == Some(entries@[j].1 as int),
        decreases members@.len() - i,
    {
        assert(all[i as int] == (members@[i as int].0@, members@[i as int].1@));
        match positive_integer(Some(&members[i].1)) {
            Some(n) => {
                entries.push((members[i].0.clone(), n));
            },
            None => {
                assert(positive(Some(all[i as int].1)) is None);
                return None;
            },
        }
        i += 1;
    }
    assert(positive_members(opt_tree(value))->0 =~= count_entries(entries@));
    Some(TextMap { entries })
}

fn nullable_positive_integer(value: Option<&Json>) -> (n: Option<Option<u64>>)
    ensures
        match n {
            Some(n) => limit(opt_tree(value)) == Some(opt_count(n)),
            None => limit(opt_tree(value)) is None,
        },
{
    if let Some(Json::Null) = value {
        return Some(None);
    }
    match positive_integer(value) {
        Some(n) => Some(Some(n)),
        None => None,
    }
}

fn read_case_mapping(value: Option<&Json>) -> (mapping: Option<CaseMapping>)
    ensures
        mapping == case_mapping(opt_tree(value)),
{
    let name = match value {
        Some(json) => match json.as_str() {
            Some(name) => name,
            None => {
                return None;
            },
        },
        None => {
            return None;
        },
    };
    if same_text(name, "ascii") {
        Some(CaseMapping::Ascii)
    } else if same_text(name, "rfc1459") {
        Some(CaseMapping::Rfc1459)
    } else if same_text(name, "rfc1459_strict") {
        Some(CaseMapping::Rfc1459Strict)
    } else {
        None
    }
}

/// Parses a complete `isupport_changed` snapshot. Unknown additive fields are
/// intentionally ignored for forward compatibility.
#[verifier::rlimit(30)]
pub fn parse_isupport_changed(payload: &Json) -> (changed: Option<IsupportChanged>)
    ensures
        match changed {
            Some(changed) => snapshot_of(payload@) == Some(changed@),
            None => snapshot_of(payload@) is None,
        },
{
    match payload.text_of("kind") {
        Some(kind) => if !same_text(kind, "isupport_changed") {
            return None;
        },
        None => {
            return None;
        },
    }
    let network_id: i64 = match payload.i64_of("network_id") {
        Some(id) => id,
        None => {
            return None;
        },
    };
    if network_id <= 0 {
        return None;
    }
    let casemapping = read_case_mapping(payload.get("casemapping"))?;
    let frame_budget_base: u64 = positive_integer(payload.get("frame_budget_base"))?;
    let chanmodes_a = string_array(payload.get("chanmodes_a"))?;
    let chanmodes_b = string_array(payload.get("chanmodes_b"))?;
    let chanmodes_c = string_array(payload.get("chanmodes_c"))?;
    let chanmodes_d = string_array(payload.get("chanmodes_d"))?;
    let list_modes_queryable = string_array(payload.get("list_modes_queryable"))?;
    let prefix = string_map(payload.get("prefix"))?;
    let prefix_order = string_array(payload.get("prefix_order"))?;
    let chantypes = string_array(payload.get("chantypes"))?;
    let maxlist = positive_integer_map(payload.get("maxlist"))?;
    let nicklen = nullable_positive_integer(payload.get("nicklen"))?;
    let channellen = nullable_positive_integer(payload.get("channellen"))?;
    let topiclen = nullable_positive_integer(payload.get("topiclen"))?;
    Some(
        IsupportChanged {
            network_id,
            state: IsupportState {
                chanmodes_a,
                chanmodes_b,
                chanmodes_c,
                chanmodes_d,
                list_modes_queryable,
                prefix,
                prefix_order,
                chantypes,
                casemapping,
                maxlist,
                nicklen,
                channellen,
                topiclen,
                frame_budget_base,
            },
        },
    )
}

proof fn lemma_other_member(
    members: Seq<(Seq<char>, Tree)>,
    name: Seq<char>,
    value: Tree,
    asked: Seq<char>,
)
    requires
        name != asked,
    ensures
        member(Tree::Object(members.push((name, value))), asked) == member(
            Tree::Object(members),
            asked,
        ),
    decreases members.len(),
{
    let more = members.push((name, value));
    if members.len() == 0 {
        assert(more.drop_first() =~= Seq::empty());
        assert(find_member(more.drop_first(), asked) is None);
    } else {
        assert(more.drop_first() =~= members.drop_first().push((name, value)));
        lemma_other_member(members.drop_first(), name, value, asked);
    }
}

/// A field that the snapshot does not have may be added to a payload without
/// a change to what is read.
pub proof fn additive_fields_are_ignored(
    members: Seq<(Seq<char>, Tree)>,
    name: Seq<char>,
    value: Tree,
)
    requires
        name != "kind"@,
        name != "network_id"@,
        name != "chanmodes_a"@,
        name != "chanmodes_b"@,
        name != "chanmodes_c"@,
        name != "chanmodes_d"@,
        name != "list_modes_queryable"@,
        name != "prefix"@,
        name != "prefix_order"@,
        name != "chantypes"@,
        name != "casemapping"@,
        name != "maxlist"@,
        name != "nicklen"@,
        name != "channellen"@,
        name != "topiclen"@,
        name != "frame_budget_base"@,
    ensures
        snapshot_of(Tree::Object(members.push((name, value)))) == snapshot_of(
            Tree::Object(members),
        ),
{
    lemma_other_member(members, name, value, "kind"@);
    lemma_other_member(members, name, value, "network_id"@);
    lemma_other_member(members, name, value, "chanmodes_a"@);
    lemma_other_member(members, name, value, "chanmodes_b"@);
    lemma_other_member(members, name, value, "chanmodes_c"@);
    lemma_other_member(members, name, value, "chanmodes_d"@);
    lemma_other_member(members, name, value, "list_modes_queryable"@);
    lemma_other_member(members, name, value, "prefix"@);
    lemma_other_member(members, name, value, "prefix_order"@);
    lemma_other_member(members, name, value, "chantypes"@);
    lemma_other_member(members, name, value, "casemapping"@);
    lemma_other_member(members, name, value, "maxlist"@);
    lemma_other_member(members, name, value, "nicklen"@);
    lemma_other_member(members, name, value, "channellen"@);
    lemma_other_member(members, name, value, "topiclen"@);
    lemma_other_member(members, name, value, "frame_budget_base"@);
}

/// The name of a case mapping.
pub open spec fn mapping_name(mapping: CaseMapping) -> Seq<char> {
    match mapping {
        CaseMapping::Ascii => "ascii"@,
        CaseMapping::Rfc1459 => "rfc1459"@,
        CaseMapping::Rfc1459Strict => "rfc1459_strict"@,
    }
}

/// A limit as a document: null for none.
pub open spec fn limit_tree(limit: Option<int>) -> Tree {
    match limit {
        Some(n) => Tree::Number(Num::Whole(n)),
        None => Tree::Null,
    }
}

/// Texts by their names as a document.
pub open spec fn texts_tree(entries: Seq<(Seq<char>, Seq<char>)>) -> Tree {
    Tree::Object(Seq::new(entries.len(), |i: int| (entries[i].0, Tree::Text(entries[i].1))))
}

/// Counts by their names as a document.
pub open spec fn counts_tree(entries: Seq<(Seq<char>, int)>) -> Tree {
    Tree::Object(
        Seq::new(entries.len(), |i: int| (entries[i].0, Tree::Number(Num::Whole(entries[i].1)))),
    )
}

/// Whether a number can be a count.
pub open spec fn is_count(n: int) -> bool {
    0 < n <= u64::MAX
}

/// Whether a payload says what a snapshot says, each field under its name.
pub open spec fn says(payload: Tree, s: Snapshot) -> bool {
    &&& member(payload, "kind"@) == Some(Tree::Text("isupport_changed"@))
    &&& member(payload, "network_id"@) == Some(Tree::Number(Num::Whole(s.network_id)))
    &&& member(payload, "chanmodes_a"@) == Some(text_array(s.chanmodes_a))
    &&& member(payload, "chanmodes_b"@) == Some(text_array(s.chanmodes_b))
    &&& member(payload, "chanmodes_c"@) == Some(text_array(s.chanmodes_c))
    &&& member(payload, "chanmodes_d"@) == Some(text_array(s.chanmodes_d))
    &&& member(payload, "list_modes_queryable"@) == Some(text_array(s.list_modes_queryable))
    &&& member(payload, "prefix"@) == Some(texts_tree(s.prefix))
    &&& member(payload, "prefix_order"@) == Some(text_array(s.prefix_order))
    &&& member(payload, "chantypes"@) == Some(text_array(s.chantypes))
    &&& member(payload, "casemapping"@) == Some(Tree::Text(mapping_name(s.casemapping)))
    &&& member(payload, "maxlist"@) == Some(counts_tree(s.maxlist))
    &&& member(payload, "nicklen"@) == Some(limit_tree(s.nicklen))
    &&& member(payload, "channellen"@) == Some(limit_tree(s.channellen))
    &&& member(payload, "topiclen"@) == Some(limit_tree(s.topiclen))
    &&& member(payload, "frame_budget_base"@) == Some(Tree::Number(Num::Whole(s.frame_budget_base)))
}

/// Whether the numbers of a snapshot are such as a server sends: all above
/// zero.
pub open spec fn has_sound_numbers(s: Snapshot) -> bool {
    &&& 0 < s.network_id <= i64::MAX
    &&& is_count(s.frame_budget_base)
    &&& s.nicklen is Some ==> is_count(s.nicklen->0)
    &&& s.channellen is Some ==> is_count(s.channellen->0)
    &&& s.topiclen is Some ==> is_count(s.topiclen->0)
    &&& forall|i: int| 0 <= i < s.maxlist.len() ==> is_count((#[trigger] s.maxlist[i]).1)
}

proof fn lemma_text_list(list: Seq<Seq<char>>)
    ensures
        text_list(Some(text_array(list))) == Some(list),
{
    let items = text_array(list)->Array_0;
    assert(Seq::new(items.len(), |i: int| items[i]->Text_0) =~= list);
}

/// A payload that says what a snapshot says is read as that snapshot.
pub proof fn a_complete_payload_reads_back(payload: Tree, s: Snapshot)
    requires
        says(payload, s),
        has_sound_numbers(s),
    ensures
        snapshot_of(payload) == Some(s),
{
    lemma_text_list(s.chanmodes_a);
    lemma_text_list(s.chanmodes_b);
    lemma_text_list(s.chanmodes_c);
    lemma_text_list(s.chanmodes_d);
    lemma_text_list(s.list_modes_queryable);
    lemma_text_list(s.prefix_order);
    lemma_text_list(s.chantypes);
    let prefix = texts_tree(s.prefix)->Object_0;
    assert(Seq::new(prefix.len(), |i: int| (prefix[i].0, prefix[i].1->Text_0)) =~= s.prefix);
    assert(text_members(Some(texts_tree(s.prefix))) == Some(s.prefix));
    let counts = counts_tree(s.maxlist)->Object_0;
    assert forall|i: int| 0 <= i < counts.len() implies positive(Some((#[trigger] counts[i]).1))
        == Some(s.maxlist[i].1) by {
        assert(is_count(s.maxlist[i].1));
    }
    assert(Seq::new(counts.len(), |i: int| (counts[i].0, positive(Some(counts[i].1))->0))
        =~= s.maxlist);
    assert(positive_members(Some(counts_tree(s.maxlist))) == Some(s.maxlist));
    reveal_strlit("ascii");
    reveal_strlit("rfc1459");
    reveal_strlit("rfc1459_strict");
    assert("ascii"@.len() == 5 && "rfc1459"@.len() == 7 && "rfc1459_strict"@.len() == 14);
    assert("ascii"@ != "rfc1459"@ && "rfc1459"@ != "rfc1459_strict"@);
    assert("ascii"@ != "rfc1459_strict"@);
    assert(case_mapping(Some(Tree::Text(mapping_name(s.casemapping)))) == Some(s.casemapping));
}

/// A payload that is read says what the snapshot says, and its numbers are
/// sound: nothing is made up for a field that is missing or malformed.
pub proof fn only_complete_payloads_are_read(payload: Tree)
    requires
        snapshot_of(payload) is Some,
    ensures
        says(payload, snapshot_of(payload)->0),
        has_sound_numbers(snapshot_of(payload)->0),
{
    let s = snapshot_of(payload)->0;
    lemma_list_is_text(member(payload, "chanmodes_a"@));
    lemma_list_is_text(member(payload, "chanmodes_b"@));
    lemma_list_is_text(member(payload, "chanmodes_c"@));
    lemma_list_is_text(member(payload, "chanmodes_d"@));
    lemma_list_is_text(member(payload, "list_modes_queryable"@));
    lemma_list_is_text(member(payload, "prefix_order"@));
    lemma_list_is_text(member(payload, "chantypes"@));
    let prefix = member(payload, "prefix"@)->0->Object_0;
    assert(texts_tree(s.prefix)->Object_0 =~= prefix) by {
        assert forall|i: int| 0 <= i < prefix.len() implies #[trigger] prefix[i] == (
            s.prefix[i].0,
            Tree::Text(s.prefix[i].1),
        ) by {}
    }
    let counts = member(payload, "maxlist"@)->0->Object_0;
    assert forall|i: int| 0 <= i < counts.len() implies #[trigger] counts[i] == (
        s.maxlist[i].0,
        Tree::Number(Num::Whole(s.maxlist[i].1)),
    ) && is_count(s.maxlist[i].1) by {
        assert(positive(Some(counts[i].1)) is Some);
    }
    assert(counts_tree(s.maxlist)->Object_0 =~= counts);
    assert forall|i: int| 0 <= i < s.maxlist.len() implies is_count(
        (#[trigger] s.maxlist[i]).1,
    ) by {
        assert(counts[i] == counts[i]);
    }
}

proof fn lemma_list_is_text(tree: Option<Tree>)
    requires
        text_list(tree) is Some,
    ensures
        tree == Some(text_array(text_list(tree)->0)),
{
    let items = tree->0->Array_0;
    let list = text_list(tree)->0;
    assert(text_array(list)->Array_0 =~= items) by {
        assert forall|i: int| 0 <= i < items.len() implies #[trigger] items[i] == Tree::Text(
            list[i],
        ) by {}
    }
}

} // verus!
