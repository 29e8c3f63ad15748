//! JSON documents: a type of the library's own for what is read and built,
//! and their text by `serde_json`.

use serde_json::Value;
use vstd::prelude::*;

use crate::order::precedes;
use crate::split::{same_text, texts};
use crate::text::opt;

verus! {

/// A number of a JSON document.
#[derive(Debug, PartialEq, Eq)]
pub enum Number {
    /// A whole number from zero on.
    Unsigned(u64),
    /// A whole number below zero.
    Negative(i64),
    /// Any other number, as it is written.
    Other(String),
}

/// A JSON document.
#[derive(Debug, PartialEq, Eq)]
pub enum Json {
    Null,
    Bool(bool),
    Number(Number),
    Text(String),
    Array(Vec<Json>),
    /// The members by their names, in the order of the document.
    Object(Vec<(String, Json)>),
}

/// What a number says.
pub enum Num {
    Whole(int),
    Other(Seq<char>),
}

/// What a JSON document says.
pub enum Tree {
    Null,
    Bool(bool),
    Number(Num),
    Text(Seq<char>),
    Array(Seq<Tree>),
    Object(Seq<(Seq<char>, Tree)>),
}

impl View for Number {
    type V = Num;

    open spec fn view(&self) -> Num {
        match *self {
            Number::Unsigned(n) => Num::Whole(n as int),
            Number::Negative(n) => Num::Whole(n as int),
            Number::Other(text) => Num::Other(text@),
        }
    }
}

impl Json {
    /// What the document says.
    pub open spec fn tree(&self) -> Tree
        decreases self,
    {
        match *self {
            Json::Null => Tree::Null,
            Json::Bool(b) => Tree::Bool(b),
            Json::Number(n) => Tree::Number(n@),
            Json::Text(text) => Tree::Text(text@),
            Json::Array(items) => Tree::Array(
                Seq::new(
                    items@.len(),
                    |i: int|
                        if 0 <= i < items@.len() {
                            items@[i].tree()
                        } else {
                            Tree::Null
                        },
                ),
            ),
            Json::Object(members) => Tree::Object(
                Seq::new(
                    members@.len(),
                    |i: int|
                        if 0 <= i < members@.len() {
                            (members@[i].0@, members@[i].1.tree())
                        } else {
                            (Seq::empty(), Tree::Null)
                        },
                ),
            ),
        }
    }
}

impl View for Json {
    type V = Tree;

    open spec fn view(&self) -> Tree {
        self.tree()
    }
}

/// The documents of a list.
pub open spec fn trees(items: Seq<Json>) -> Seq<Tree> {
    Seq::new(items.len(), |i: int| items[i]@)
}

/// The members of a list, by their names.
pub open spec fn named_trees(members: Seq<(String, Json)>) -> Seq<(Seq<char>, Tree)> {
    Seq::new(members.len(), |i: int| (members[i].0@, members[i].1@))
}

pub proof fn lemma_array_tree(items: Vec<Json>)
    ensures
        Json::Array(items)@ == Tree::Array(trees(items@)),
{
    assert(Json::Array(items)@->Array_0 =~= trees(items@));
}

pub proof fn lemma_object_tree(members: Vec<(String, Json)>)
    ensures
        Json::Object(members)@ == Tree::Object(named_trees(members@)),
{
    assert(Json::Object(members)@->Object_0 =~= named_trees(members@));
}

/// The first member of that name.
pub open spec fn find_member(members: Seq<(Seq<char>, Tree)>, name: Seq<char>) -> Option<Tree>
    decreases members.len(),
{
    if members.len() == 0 {
        None
    } else if members[0].0 == name {
        Some(members[0].1)
    } else {
        find_member(members.drop_first(), name)
    }
}

/// The member of that name; anything but an object has none.
pub open spec fn member(tree: Tree, name: Seq<char>) -> Option<Tree> {
    match tree {
        Tree::Object(members) => find_member(members, name),
        _ => None,
    }
}

/// The text that a document is.
pub open spec fn as_text(tree: Option<Tree>) -> Option<Seq<char>> {
    match tree {
        Some(Tree::Text(text)) => Some(text),
        _ => None,
    }
}

/// The whole number that a document is, if it lies within the bounds.
pub open spec fn as_whole(tree: Option<Tree>, least: int, most: int) -> Option<int> {
    match tree {
        Some(Tree::Number(Num::Whole(n))) => if least <= n <= most {
            Some(n)
        } else {
            None
        },
        _ => None,
    }
}

pub open spec fn as_signed(tree: Option<Tree>) -> Option<int> {
    as_whole(tree, i64::MIN as int, i64::MAX as int)
}

pub open spec fn as_unsigned(tree: Option<Tree>) -> Option<int> {
    as_whole(tree, 0, u64::MAX as int)
}

pub open spec fn as_flag(tree: Option<Tree>) -> Option<bool> {
    match tree {
        Some(Tree::Bool(b)) => Some(b),
        _ => None,
    }
}

/// The member of that name of a document that may be missing itself.
pub open spec fn member_of(tree: Option<Tree>, name: Seq<char>) -> Option<Tree> {
    match tree {
        Some(tree) => member(tree, name),
        None => None,
    }
}

/// What a reference to a document says, if there is one.
pub open spec fn opt_tree(json: Option<&Json>) -> Option<Tree> {
    match json {
        Some(json) => Some(json@),
        None => None,
    }
}

impl Clone for Number {
    fn clone(&self) -> (copy: Self)
        ensures
            copy@ == self@,
    {
        match self {
            Number::Unsigned(n) => Number::Unsigned(*n),
            Number::Negative(n) => Number::Negative(*n),
            Number::Other(text) => Number::Other(text.clone()),
        }
    }
}

impl Clone for Json {
    fn clone(&self) -> (copy: Self)
        ensures
            copy@ == self@,
        decreases self,
    {
        match self {
            Json::Null => Json::Null,
            Json::Bool(b) => Json::Bool(*b),
            Json::Number(n) => Json::Number(n.clone()),
            Json::Text(text) => Json::Text(text.clone()),
            Json::Array(items) => {
                let mut copies: Vec<Json> = Vec::new();
                let mut i: usize = 0;
                while i < items.len()
                    invariant
                        i <= items@.len(),
                        *self == Json::Array(*items),
                        copies@.len() == i,
                        forall|j: int| 0 <= j < i ==> (#[trigger] copies@[j])@ == items@[j]@,
                    decreases items@.len() - i,
                {
                    assert(decreases_to!(*self => self->Array_0));
                    assert(decreases_to!(items => items@));
                    assert(decreases_to!(items@ => items@[i as int]));
                    let copy = items[i].clone();
                    copies.push(copy);
                    i += 1;
                }
                proof {
                    lemma_array_tree(copies);
                    lemma_array_tree(*items);
                    assert(trees(copies@) =~= trees(items@));
                }
                Json::Array(copies)
            },
            Json::Object(members) => {
                let mut copies: Vec<(String, Json)> = Vec::new();
                let mut i: usize = 0;
                while i < members.len()
                    invariant
                        i <= members@.len(),
                        *self == Json::Object(*members),
                        copies@.len() == i,
                        forall|j: int|
                            0 <= j < i ==> (#[trigger] copies@[j]).0@ == members@[j].0@
                                && copies@[j].1@ == members@[j].1@,
                    decreases members@.len() - i,
                {
                    assert(decreases_to!(*self => self->Object_0));
                    assert(decreases_to!(members => members@));
                    assert(decreases_to!(members@ => members@[i as int]));
                    assert(decreases_to!(members@[i as int] => members@[i as int].1));
                    let copy = members[i].1.clone();
                    copies.push((members[i].0.clone(), copy));
                    i += 1;
                }
                proof {
                    lemma_object_tree(copies);
                    lemma_object_tree(*members);
                    assert(named_trees(copies@) =~= named_trees(members@));
                }
                Json::Object(copies)
            },
        }
    }
}

impl Json {
    /// The member of that name; `None` also for anything but an object.
    pub fn get(&self, name: &str) -> (found: Option<&Json>)
        ensures
            opt_tree(found) == member(self@, name@),
    {
        match self {
            Json::Object(members) => {
                proof {
                    lemma_object_tree(*members);
                }
                let ghost all = named_trees(members@);
                let mut i: usize = 0;
                assert(all.skip(0) =~= all);
                while i < members.len()
                    invariant
                        i <= members@.len(),
                        all == named_trees(members@),
                        find_member(all, name@) == find_member(all.skip(i as int), name@),
                        self@ == Tree::Object(all),
                    decreases members@.len() - i,
                {
                    let ghost here = all.skip(i as int);
                    assert(here[0] == (members@[i as int].0@, members@[i as int].1@));
                    assert(here.drop_first() =~= all.skip(i + 1));
                    if same_text(members[i].0.as_str(), name) {
                        return Some(&members[i].1);
                    }
                    i += 1;
                }
                assert(all.skip(i as int) =~= Seq::empty());
                None
            },
            _ => None,
        }
    }

    pub fn as_str(&self) -> (text: Option<&str>)
        ensures
            match text {
                Some(text) => as_text(Some(self@)) == Some(text@),
                None => as_text(Some(self@)) is None,
            },
    {
        match self {
            Json::Text(text) => Some(text.as_str()),
            _ => None,
        }
    }

    pub fn as_i64(&self) -> (n: Option<i64>)
        ensures
            match n {
                Some(n) => as_signed(Some(self@)) == Some(n as int),
                None => as_signed(Some(self@)) is None,
            },
    {
        match self {
            Json::Number(Number::Unsigned(n)) => if *n <= i64::MAX as u64 {
                Some(*n as i64)
            } else {
                None
            },
            Json::Number(Number::Negative(n)) => Some(*n),
            _ => None,
        }
    }

    pub fn as_u64(&self) -> (n: Option<u64>)
        ensures
            match n {
                Some(n) => as_unsigned(Some(self@)) == Some(n as int),
                None => as_unsigned(Some(self@)) is None,
            },
    {
        match self {
            Json::Number(Number::Unsigned(n)) => Some(*n),
            Json::Number(Number::Negative(n)) => if *n >= 0 {
                Some(*n as u64)
            } else {
                None
            },
            _ => None,
        }
    }

    pub fn as_bool(&self) -> (b: Option<bool>)
        ensures
            b == as_flag(Some(self@)),
    {
        match self {
            Json::Bool(b) => Some(*b),
            _ => None,
        }
    }

    /// The text of the member of that name.
    pub fn text_of(&self, name: &str) -> (text: Option<&str>)
        ensures
            match text {
                Some(text) => as_text(member(self@, name@)) == Some(text@),
                None => as_text(member(self@, name@)) is None,
            },
    {
        match self.get(name) {
            Some(json) => json.as_str(),
            None => None,
        }
    }

    /// The whole number that the member of that name is.
    pub fn i64_of(&self, name: &str) -> (n: Option<i64>)
        ensures
            match n {
                Some(n) => as_signed(member(self@, name@)) == Some(n as int),
                None => as_signed(member(self@, name@)) is None,
            },
    {
        match self.get(name) {
            Some(json) => json.as_i64(),
            None => None,
        }
    }

    /// The flag that the member of that name is.
    pub fn bool_of(&self, name: &str) -> (b: Option<bool>)
        ensures
            b == as_flag(member(self@, name@)),
    {
        match self.get(name) {
            Some(json) => json.as_bool(),
            None => None,
        }
    }
}

/// A member with a text, or none where there is none.
pub open spec fn text_member(name: Seq<char>, text: Option<Seq<char>>) -> Seq<(Seq<char>, Tree)> {
    match text {
        Some(text) => seq![(name, Tree::Text(text))],
        None => Seq::empty(),
    }
}

/// A member with a flag, or none where there is none.
pub open spec fn flag_member(name: Seq<char>, flag: Option<bool>) -> Seq<(Seq<char>, Tree)> {
    match flag {
        Some(flag) => seq![(name, Tree::Bool(flag))],
        None => Seq::empty(),
    }
}

/// A text, or null.
pub open spec fn text_or_null(text: Option<Seq<char>>) -> Tree {
    match text {
        Some(text) => Tree::Text(text),
        None => Tree::Null,
    }
}

/// A whole number, or null.
pub open spec fn whole_or_null(n: Option<i64>) -> Tree {
    match n {
        Some(n) => Tree::Number(Num::Whole(n as int)),
        None => Tree::Null,
    }
}

/// The texts as a document.
pub open spec fn text_array(texts: Seq<Seq<char>>) -> Tree {
    Tree::Array(Seq::new(texts.len(), |i: int| Tree::Text(texts[i])))
}

/// The members of an object that is being built.
#[derive(Debug)]
pub struct Members {
    pub list: Vec<(String, Json)>,
}

impl View for Members {
    type V = Seq<(Seq<char>, Tree)>;

    open spec fn view(&self) -> Seq<(Seq<char>, Tree)> {
        named_trees(self.list@)
    }
}

impl Members {
    pub fn new() -> (members: Self)
        ensures
            members@ == Seq::<(Seq<char>, Tree)>::empty(),
    {
        let members = Members { list: Vec::new() };
        assert(members@ =~= Seq::empty());
        members
    }

    pub fn push(&mut self, name: &str, value: Json)
        ensures
            final(self)@ == old(self)@.push((name@, value@)),
    {
        self.list.push((name.to_string(), value));
        assert(self@ =~= old(self)@.push((name@, value@)));
    }

    pub fn push_text(&mut self, name: &str, text: &str)
        ensures
            final(self)@ == old(self)@.push((name@, Tree::Text(text@))),
    {
        self.push(name, Json::Text(text.to_string()));
    }

    /// Adds a member, where there is a text for it.
    pub fn push_some_text(&mut self, name: &str, text: &Option<String>)
        ensures
            final(self)@ == old(self)@ + text_member(name@, opt(*text)),
    {
        if let Some(text) = text {
            self.push(name, Json::Text(text.clone()));
        }
        assert(self@ =~= old(self)@ + text_member(name@, opt(*text)));
    }

    /// Adds a member, where there is a flag for it.
    pub fn push_some_flag(&mut self, name: &str, flag: Option<bool>)
        ensures
            final(self)@ == old(self)@ + flag_member(name@, flag),
    {
        if let Some(flag) = flag {
            self.push(name, Json::Bool(flag));
        }
        assert(self@ =~= old(self)@ + flag_member(name@, flag));
    }

    /// The object with these members.
    pub fn object(self) -> (json: Json)
        ensures
            json@ == Tree::Object(self@),
    {
        proof {
            lemma_object_tree(self.list);
        }
        Json::Object(self.list)
    }
}

impl Json {
    /// A whole number.
    pub fn whole(n: i64) -> (json: Json)
        ensures
            json@ == Tree::Number(Num::Whole(n as int)),
    {
        if n < 0 {
            Json::Number(Number::Negative(n))
        } else {
            Json::Number(Number::Unsigned(n as u64))
        }
    }

    /// A whole number, or null.
    pub fn whole_or_null(n: Option<i64>) -> (json: Json)
        ensures
            json@ == self::whole_or_null(n),
    {
        match n {
            Some(n) => Json::whole(n),
            None => Json::Null,
        }
    }

    /// A text, or null.
    pub fn text_or_null(text: Option<&str>) -> (json: Json)
        ensures
            json@ == match text {
                Some(text) => Tree::Text(text@),
                None => Tree::Null,
            },
    {
        match text {
            Some(text) => Json::Text(text.to_string()),
            None => Json::Null,
        }
    }

    /// An array of texts.
    pub fn text_array(list: &Vec<String>) -> (json: Json)
        ensures
            json@ == self::text_array(texts(list@)),
    {
        let mut items: Vec<Json> = Vec::new();
        let mut i: usize = 0;
        while i < list.len()
            invariant
                i <= list@.len(),
                items@.len() == i,
                forall|j: int| 0 <= j < i ==> (#[trigger] items@[j])@ == Tree::Text(list@[j]@),
            decreases list@.len() - i,
        {
            items.push(Json::Text(list[i].clone()));
            i += 1;
        }
        proof {
            lemma_array_tree(items);
            assert(trees(items@) =~= self::text_array(texts(list@))->Array_0);
        }
        Json::Array(items)
    }
}

/// Whether a document nests arrays and objects at most `n` deep.
pub open spec fn nests_within(tree: Tree, n: nat) -> bool
    decreases n,
{
    match tree {
        Tree::Array(items) => n > 0 && forall|i: int|
            0 <= i < items.len() ==> nests_within(#[trigger] items[i], (n - 1) as nat),
        Tree::Object(members) => n > 0 && forall|i: int|
            0 <= i < members.len() ==> nests_within(
                (#[trigger] members[i]).1,
                (n - 1) as nat,
            ),
        _ => true,
    }
}

/// Whether all numbers of a document are whole.
pub open spec fn has_whole_numbers(tree: Tree) -> bool
    decreases tree,
{
    match tree {
        Tree::Number(Num::Whole(n)) => i64::MIN <= n <= u64::MAX,
        Tree::Number(Num::Other(_)) => false,
        Tree::Array(items) => forall|i: int|
            0 <= i < items.len() ==> has_whole_numbers(#[trigger] items[i]),
        Tree::Object(members) => forall|i: int|
            0 <= i < members.len() ==> has_whole_numbers((#[trigger] members[i]).1),
        _ => true,
    }
}

/// Whether the members of every object of a document come in the order of
/// their names, none twice.
pub open spec fn is_ordered(tree: Tree) -> bool
    decreases tree,
{
    match tree {
        Tree::Array(items) => forall|i: int|
            0 <= i < items.len() ==> is_ordered(#[trigger] items[i]),
        Tree::Object(members) => {
            &&& forall|i: int| 0 <= i < members.len() ==> is_ordered((#[trigger] members[i]).1)
            &&& forall|i: int, j: int|
                0 <= i < j < members.len() ==> precedes(
                    (#[trigger] members[i]).0,
                    (#[trigger] members[j]).0,
                )
        },
        _ => true,
    }
}

/// `serde_json::Value`, a document as `serde_json` keeps it.
#[verifier::external_type_specification]
#[verifier::external_body]
pub struct ExValue(Value);

/// The document that a `serde_json::Value` holds.
pub uninterp spec fn held(value: Value) -> Tree;

/// What `serde_json::from_str` reads from a text: a document, or the error in
/// its words.
pub uninterp spec fn parsed(text: Seq<char>) -> Result<Tree, Seq<char>>;

/// Whether a text is JSON and says `tree`.
pub open spec fn says(text: Seq<char>, tree: Tree) -> bool {
    parsed(text) == Ok::<Tree, Seq<char>>(tree)
}

/// How `serde_json` keeps a document that is handed to it: its objects are
/// maps, which arrange their members and keep one of each name, and a number
/// that is not whole is read anew.
pub uninterp spec fn kept(tree: Tree) -> Tree;

/// The text that `serde_json` writes a document as.
pub uninterp spec fn printed(tree: Tree) -> Seq<char>;

/// `serde_json::from_str`. Which texts are JSON, and what they say, is the
/// parser's business: the result is claimed to be a function of the text.
#[verifier::external_body]
fn parse_value(text: &str) -> (value: Result<Value, String>)
    ensures
        match value {
            Ok(value) => parsed(text@) == Ok::<Tree, Seq<char>>(held(value)),
            Err(reason) => parsed(text@) == Err::<Tree, Seq<char>>(reason@),
        },
{
    serde_json::from_str(text).map_err(|err| err.to_string())
}

/// The variants of `serde_json::Value`, one for one: the result says what the
/// value holds. A number is told by `Number::as_u64` and `Number::as_i64`, and
/// kept as `serde_json` writes it when it is neither.
#[verifier::external_body]
pub(crate) fn from_value(value: Value) -> (json: Json)
    ensures
        json@ == held(value),
{
    match value {
        Value::Null => Json::Null,
        Value::Bool(b) => Json::Bool(b),
        Value::Number(n) => Json::Number(match (n.as_u64(), n.as_i64()) {
            (Some(u), _) => Number::Unsigned(u),
            (None, Some(i)) => Number::Negative(i),
            (None, None) => Number::Other(n.to_string()),
        }),
        Value::String(text) => Json::Text(text),
        Value::Array(items) => Json::Array(items.into_iter().map(from_value).collect()),
        Value::Object(map) => Json::Object(
            map.into_iter().map(|(k, v)| (k, from_value(v))).collect(),
        ),
    }
}

/// The variants of `serde_json::Value`, the other way. A document whose
/// objects are ordered and whose numbers are whole is held as it is.
#[verifier::external_body]
fn to_value(json: &Json) -> (value: Value)
    ensures
        held(value) == kept(json@),
        is_ordered(json@) && has_whole_numbers(json@) ==> held(value) == json@,
{
    match json {
        Json::Null => Value::Null,
        Json::Bool(b) => Value::Bool(*b),
        Json::Number(Number::Unsigned(n)) => Value::from(*n),
        Json::Number(Number::Negative(n)) => Value::from(*n),
        Json::Number(Number::Other(text)) => text.parse().map_or(Value::Null, Value::Number),
        Json::Text(text) => Value::String(text.clone()),
        Json::Array(items) => Value::Array(items.iter().map(to_value).collect()),
        Json::Object(all) => Value::Object(
            all.iter().map(|(k, v)| (k.clone(), to_value(v))).collect(),
        ),
    }
}

/// `serde_json::Value::to_string`, the compact text of a document. Read back,
/// the text says the same, as long as the document nests within the parser's
/// limit and its numbers are whole (others may come back a little different).
#[verifier::external_body]
fn print_value(value: &Value) -> (text: String)
    ensures
        text@ == printed(held(*value)),
        nests_within(held(*value), 127) && has_whole_numbers(held(*value)) ==> says(
            text@,
            held(*value),
        ),
{
    value.to_string()
}

impl Json {
    /// Reads a document from its text; the error is the parser's.
    pub fn parse(text: &str) -> (json: Result<Json, String>)
        ensures
            match json {
                Ok(json) => parsed(text@) == Ok::<Tree, Seq<char>>(json@),
                Err(reason) => parsed(text@) == Err::<Tree, Seq<char>>(reason@),
            },
    {
        match parse_value(text) {
            Ok(value) => Ok(from_value(value)),
            Err(reason) => Err(reason),
        }
    }

    /// The compact text of a document.
    pub fn print(&self) -> (text: String)
        ensures
            text@ == printed(kept(self@)),
            is_ordered(self@) && has_whole_numbers(self@) ==> text@ == printed(self@),
            is_ordered(self@) && has_whole_numbers(self@) && nests_within(self@, 127) ==> says(
                text@,
                self@,
            ),
    {
        print_value(&to_value(self))
    }
}

/// Of the members of one name the first counts; without one there is none, and
/// only objects have members.
pub proof fn the_first_member_of_a_name_counts(
    members: Seq<(Seq<char>, Tree)>,
    name: Seq<char>,
    place: int,
)
    requires
        0 <= place <= members.len(),
        forall|i: int| 0 <= i < place ==> (#[trigger] members[i]).0 != name,
        place < members.len() ==> members[place].0 == name,
    ensures
        member(Tree::Object(members), name) == if place < members.len() {
            Some(members[place].1)
        } else {
            None
        },
    decreases members.len(),
{
    if place > 0 {
        let others = members.drop_first();
        assert(members[0].0 != name);
        assert forall|i: int| 0 <= i < place - 1 implies (#[trigger] others[i]).0 != name by {
            assert(others[i] == members[i + 1]);
        }
        if place < members.len() {
            assert(others[place - 1] == members[place]);
        }
        the_first_member_of_a_name_counts(others, name, place - 1);
    }
}

/// A document is read as what it is, and as nothing else: a text as a text, a
/// flag as a flag, a whole number within its bounds as a number.
pub proof fn documents_are_read_as_what_they_are(text: Seq<char>, flag: bool, n: int)
    ensures
        as_text(Some(Tree::Text(text))) == Some(text),
        as_flag(Some(Tree::Text(text))) is None,
        as_signed(Some(Tree::Text(text))) is None,
        as_flag(Some(Tree::Bool(flag))) == Some(flag),
        as_text(Some(Tree::Bool(flag))) is None,
        as_signed(Some(Tree::Bool(flag))) is None,
        as_text(Some(Tree::Number(Num::Whole(n)))) is None,
        as_flag(Some(Tree::Number(Num::Whole(n)))) is None,
        as_signed(Some(Tree::Number(Num::Whole(n)))) == if -0x8000_0000_0000_0000 <= n
            <= 0x7fff_ffff_ffff_ffff {
            Some(n)
        } else {
            None
        },
        as_unsigned(Some(Tree::Number(Num::Whole(n)))) == if 0 <= n <= 0xffff_ffff_ffff_ffff {
            Some(n)
        } else {
            None
        },
        as_text(Some(Tree::Null)) is None,
        as_flag(Some(Tree::Null)) is None,
        as_signed(Some(Tree::Null)) is None,
        as_text(None) is None,
        as_flag(None) is None,
        as_signed(None) is None,
{
}

/// A member is sent where there is something to send, and null stands for what
/// is missing where it has to be said.
pub proof fn what_is_missing_is_left_out_or_null(name: Seq<char>, text: Seq<char>, on: bool, n: i64)
    ensures
        text_member(name, Some(text)) == seq![(name, Tree::Text(text))],
        text_member(name, None) == Seq::<(Seq<char>, Tree)>::empty(),
        flag_member(name, Some(on)) == seq![(name, Tree::Bool(on))],
        flag_member(name, None) == Seq::<(Seq<char>, Tree)>::empty(),
        text_or_null(Some(text)) == Tree::Text(text),
        text_or_null(None) == Tree::Null,
        whole_or_null(Some(n)) == Tree::Number(Num::Whole(n as int)),
        whole_or_null(None) == Tree::Null,
{
}

} // verus!
