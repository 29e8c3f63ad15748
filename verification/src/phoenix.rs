//! Phoenix Channels wire format (the version 2 JSON serializer).
//!
//! No transport lives here: this module only turns a Phoenix message into the
//! five-element JSON array of the wire, `[join_ref, ref, topic, event,
//! payload]`, and back.

use serde_json::Value;
use vstd::prelude::*;

use crate::decimal::{decimal, decimal_is_injective, decimal_text};
use crate::json::{
    from_value, has_whole_numbers, held, is_ordered, kept, lemma_array_tree, nests_within, parsed,
    printed, says, trees, Json, Tree,
};
use crate::text::opt;

verus! {

/// A single Phoenix Channels frame, in either direction.
#[derive(Debug, PartialEq)]
pub struct PhoenixMessage {
    /// Set on every message belonging to a still-open channel join; `None`
    /// for messages that aren't tied to a channel (e.g. a heartbeat on the
    /// dedicated `"phoenix"` topic).
    pub join_ref: Option<String>,
    /// Correlates a request with its reply; `None` for a server-initiated
    /// push that isn't a reply to anything the client sent.
    pub message_ref: Option<String>,
    pub topic: String,
    pub event: String,
    pub payload: Json,
}

/// What a [`PhoenixMessage`] says.
pub struct Frame {
    pub join_ref: Option<Seq<char>>,
    pub message_ref: Option<Seq<char>>,
    pub topic: Seq<char>,
    pub event: Seq<char>,
    pub payload: Tree,
}

impl View for PhoenixMessage {
    type V = Frame;

    open spec fn view(&self) -> Frame {
        Frame {
            join_ref: opt(self.join_ref),
            message_ref: opt(self.message_ref),
            topic: self.topic@,
            event: self.event@,
            payload: self.payload@,
        }
    }
}

impl Clone for PhoenixMessage {
    fn clone(&self) -> (copy: Self)
        ensures
            copy@ == self@,
    {
        PhoenixMessage {
            join_ref: copy_ref(&self.join_ref),
            message_ref: copy_ref(&self.message_ref),
            topic: self.topic.clone(),
            event: self.event.clone(),
            payload: self.payload.clone(),
        }
    }
}

fn copy_ref(text: &Option<String>) -> (copy: Option<String>)
    ensures
        opt(copy) == opt(*text),
{
    match text {
        Some(text) => Some(text.clone()),
        None => None,
    }
}

/// Why a text is no Phoenix frame, in the parser's words.
#[derive(Debug, Clone, PartialEq, Eq)]
pub struct CodecError {
    pub reason: String,
}

/// A reference as it is written: a text, or null.
pub open spec fn ref_tree(message_ref: Option<Seq<char>>) -> Tree {
    match message_ref {
        Some(text) => Tree::Text(text),
        None => Tree::Null,
    }
}

/// The array that a frame is written as.
pub open spec fn frame_tree(frame: Frame) -> Tree {
    Tree::Array(
        seq![
            ref_tree(frame.join_ref),
            ref_tree(frame.message_ref),
            Tree::Text(frame.topic),
            Tree::Text(frame.event),
            frame.payload,
        ],
    )
}

pub open spec fn is_ref(tree: Tree) -> bool {
    tree is Null || tree is Text
}

/// Whether a document is the array of a frame: five elements, the first two
/// texts or null, the next two texts.
pub open spec fn is_frame(tree: Tree) -> bool {
    match tree {
        Tree::Array(items) => items.len() == 5 && is_ref(items[0]) && is_ref(items[1])
            && items[2] is Text && items[3] is Text,
        _ => false,
    }
}

proof fn lemma_frame_is_plain(frame: Frame)
    requires
        is_ordered(frame.payload),
        has_whole_numbers(frame.payload),
        nests_within(frame.payload, 126),
    ensures
        is_ordered(frame_tree(frame)),
        has_whole_numbers(frame_tree(frame)),
        nests_within(frame_tree(frame), 127),
{
    let items = frame_tree(frame)->Array_0;
    assert forall|i: int| 0 <= i < items.len() implies is_ordered(#[trigger] items[i])
        && has_whole_numbers(items[i]) && nests_within(items[i], 126) by {
        if i == 4 {
            assert(items[4] == frame.payload);
        } else if i == 0 {
            assert(items[0] == ref_tree(frame.join_ref));
        } else if i == 1 {
            assert(items[1] == ref_tree(frame.message_ref));
        } else if i == 2 {
            assert(items[2] == Tree::Text(frame.topic));
        } else {
            assert(items[3] == Tree::Text(frame.event));
        }
    }
}

fn ref_json(message_ref: &Option<String>) -> (json: Json)
    ensures
        json@ == ref_tree(opt(*message_ref)),
{
    match message_ref {
        Some(text) => Json::Text(text.clone()),
        None => Json::Null,
    }
}

/// Whether a text is JSON and the array of a frame.
pub open spec fn is_framed(text: Seq<char>) -> bool {
    parsed(text) matches Ok(tree) && is_frame(tree)
}

/// The elements of a frame's array, as they are read.
type WireTuple = (Option<String>, Option<String>, String, String, Value);

/// What the elements of a frame's array say.
spec fn wire_frame(wire: WireTuple) -> Frame {
    Frame {
        join_ref: opt(wire.0),
        message_ref: opt(wire.1),
        topic: wire.2@,
        event: wire.3@,
        payload: held(wire.4),
    }
}

/// The words in which `serde_json::from_str` refuses a text that is no frame.
pub uninterp spec fn frame_refusal(text: Seq<char>) -> Seq<char>;

/// `serde_json::from_str` into a tuple of two optional texts, two texts and a
/// document. It reads the texts that are JSON and an array of five such
/// elements, each as it stands there, and no others; the words of a refusal
/// are claimed to be a function of the text.
#[verifier::external_body]
fn parse_wire(text: &str) -> (wire: Result<WireTuple, String>)
    ensures
        match wire {
            Ok(wire) => says(text@, frame_tree(wire_frame(wire))),
            Err(reason) => !is_framed(text@) && reason@ == frame_refusal(text@),
        },
{
    serde_json::from_str(text).map_err(|err| err.to_string())
}

impl PhoenixMessage {
    /// The frame's text: the compact JSON of its array.
    pub fn to_json(&self) -> (text: String)
        ensures
            text@ == printed(kept(frame_tree(self@))),
            is_ordered(self.payload@) && has_whole_numbers(self.payload@) && nests_within(
                self.payload@,
                126,
            ) ==> says(text@, frame_tree(self@)),
    {
        let mut items: Vec<Json> = Vec::new();
        items.push(ref_json(&self.join_ref));
        items.push(ref_json(&self.message_ref));
        items.push(Json::Text(self.topic.clone()));
        items.push(Json::Text(self.event.clone()));
        items.push(self.payload.clone());
        let json = Json::Array(items);
        proof {
            lemma_array_tree(items);
            assert(trees(items@) =~= frame_tree(self@)->Array_0);
            if is_ordered(self.payload@) && has_whole_numbers(self.payload@) && nests_within(
                self.payload@,
                126,
            ) {
                lemma_frame_is_plain(self@);
            }
        }
        json.print()
    }

    /// Reads a frame from its text. Whatever the payload holds, the frame is
    /// read.
    pub fn from_json(text: &str) -> (message: Result<Self, CodecError>)
        ensures
            match message {
                Ok(message) => says(text@, frame_tree(message@)),
                Err(error) => !is_framed(text@) && error.reason@ == frame_refusal(text@),
            },
    {
        match parse_wire(text) {
            Ok((join_ref, message_ref, topic, event, payload)) => Ok(
                PhoenixMessage {
                    join_ref,
                    message_ref,
                    topic,
                    event,
                    payload: from_value(payload),
                },
            ),
            Err(reason) => Err(CodecError { reason }),
        }
    }
}

/// The array of a frame says which frame it is, and is the array of a frame.
pub proof fn a_frame_is_told_by_its_array(a: Frame, b: Frame)
    requires
        frame_tree(a) == frame_tree(b),
    ensures
        a == b,
        is_frame(frame_tree(a)),
{
    let x = frame_tree(a)->Array_0;
    let y = frame_tree(b)->Array_0;
    assert(x[0] == y[0] && x[1] == y[1] && x[2] == y[2] && x[3] == y[3] && x[4] == y[4]);
}

/// A frame that is written and read back is the same frame: where the text
/// that is read says what the frame's array says, it is read, and as nothing
/// else.
pub proof fn a_frame_reads_back(frame: Frame, text: Seq<char>, read: Frame)
    requires
        says(text, frame_tree(frame)),
        says(text, frame_tree(read)),
    ensures
        read == frame,
{
    a_frame_is_told_by_its_array(frame, read);
}

/// Monotonically increasing message refs, scoped to one Phoenix connection.
///
/// Phoenix doesn't require refs to be numeric or globally unique, only
/// unique per-connection and non-empty; a simple incrementing counter
/// satisfies that.
#[derive(Debug)]
pub struct RefCounter(u64);

impl Default for RefCounter {
    fn default() -> (counter: Self)
        ensures
            counter.count() == 0,
    {
        RefCounter(0)
    }
}

impl RefCounter {
    /// How many refs were given out.
    pub closed spec fn count(&self) -> nat {
        self.0 as nat
    }

    pub fn new() -> (counter: Self)
        ensures
            counter.count() == 0,
    {
        RefCounter(0)
    }

    /// Whether there is a next ref.
    pub fn has_next(&self) -> (left: bool)
        ensures
            left == (self.count() < u64::MAX),
    {
        self.0 < u64::MAX
    }

    /// The next ref: one more than the last, in decimal digits.
    pub fn next_ref(&mut self) -> (message_ref: String)
        requires
            old(self).count() < u64::MAX,
        ensures
            final(self).count() == old(self).count() + 1,
            message_ref@ == decimal(final(self).count()),
    {
        self.0 = self.0 + 1;
        decimal_text(self.0)
    }
}

/// No two refs of a connection are alike.
pub proof fn refs_are_unique(a: nat, b: nat)
    requires
        a != b,
    ensures
        decimal(a) != decimal(b),
{
    if decimal(a) == decimal(b) {
        decimal_is_injective(a, b);
    }
}

/// The dedicated topic Phoenix uses for heartbeats, distinct from any user
/// or channel topic.
pub const HEARTBEAT_TOPIC: &'static str = "phoenix";

pub const HEARTBEAT_EVENT: &'static str = "heartbeat";

/// A frame is written as five elements: the reference of the join, that of the
/// message, the topic, the event and the payload; a missing reference is null.
pub proof fn a_frame_has_five_elements_in_order(frame: Frame)
    ensures
        frame_tree(frame) matches Tree::Array(items) && {
            &&& items.len() == 5
            &&& items[0] == match frame.join_ref {
                Some(text) => Tree::Text(text),
                None => Tree::Null,
            }
            &&& items[1] == match frame.message_ref {
                Some(text) => Tree::Text(text),
                None => Tree::Null,
            }
            &&& items[2] == Tree::Text(frame.topic)
            &&& items[3] == Tree::Text(frame.event)
            &&& items[4] == frame.payload
        },
        is_frame(frame_tree(frame)),
{
}

} // verus!
