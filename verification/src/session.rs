//! Realtime session over one Phoenix connection.
//!
//! One connection serves the whole application: it joins the user topic,
//! sends a periodic heartbeat on the dedicated topic, lets callers join
//! further topics (network or channel), and reconnects with a fixed delay on
//! disconnect, joining again whatever was joined before.
//!
//! The decisions stand here: [`Session::step`] takes what happened and says
//! what to do next. Whoever holds the socket performs it and hands back what
//! came of it.

use vstd::prelude::*;

use crate::decimal::decimal;
use crate::json::{
    as_text, as_unsigned, lemma_object_tree, member, member_of, named_trees, Json, Tree,
};
use crate::phoenix::{Frame, PhoenixMessage, RefCounter, HEARTBEAT_EVENT, HEARTBEAT_TOPIC};
use crate::split::same_text;

verus! {

/// Seconds between two heartbeats.
pub const HEARTBEAT_INTERVAL: u64 = 30;

/// Seconds before another attempt to connect.
pub const RECONNECT_DELAY: u64 = 5;

/// A request the UI side can make of the running session.
#[derive(Debug, Clone)]
pub enum SessionCommand {
    /// Joins a topic (network or channel), optionally muting join/part/quit
    /// presence noise for it.
    JoinTopic { topic: String, presence: bool },
    /// Sends an arbitrary command (e.g. `/links`, `whois`) on a topic the
    /// session has already joined.
    Send { topic: String, event: String, payload: Json },
    Shutdown,
}

/// Something the running session wants the UI side to know about.
#[derive(Debug, Clone)]
pub enum SessionEvent {
    /// The user-topic join succeeded; echoes `protocol_version` again.
    Connected { protocol_version: Option<u32> },
    /// Any frame: the caller matches on its event and topic, ignoring what it
    /// doesn't recognize.
    Frame(PhoenixMessage),
    Disconnected,
    Reconnecting,
}

/// A topic the session has joined, and the `join_ref` of that join, which is
/// fresh on every reconnect.
#[derive(Debug)]
pub struct JoinedTopic {
    pub topic: String,
    pub join_ref: String,
    pub presence: bool,
}

/// What the session waits for.
#[derive(Debug)]
pub enum Phase {
    /// The result of connecting.
    Connecting,
    /// The result of sending the join of the user topic.
    JoiningUser { join_ref: String },
    /// The result of sending the join of a topic that was joined before.
    Rejoining { at: usize, join_ref: String },
    /// A heartbeat that is due, a command, or a frame.
    Live,
    /// The result of sending the join of a topic on command.
    Joining { topic: String, presence: bool, join_ref: String },
    /// The result of sending a command.
    Sending,
    /// The result of sending a heartbeat.
    Beating,
    /// The end of the delay before another attempt.
    Resting,
    /// Nothing more.
    Over,
}

/// What happened.
#[derive(Debug)]
pub enum Input {
    Connected,
    ConnectFailed,
    /// A frame was sent, or could not be.
    Sent(bool),
    /// The delay is over.
    Rested,
    HeartbeatDue,
    Command(SessionCommand),
    /// Nobody is left who could give a command.
    CommandsClosed,
    Received(PhoenixMessage),
    /// The connection closed or failed.
    ConnectionLost,
}

/// What to do next.
#[derive(Debug)]
pub enum Action {
    Connect,
    Send(PhoenixMessage),
    /// Wait [`RECONNECT_DELAY`] seconds.
    Rest,
    /// Wait for a heartbeat that is due, a command, or a frame.
    Listen,
    Stop,
}

/// What comes of an input: the events to report, then what to do.
#[derive(Debug)]
pub struct Outcome {
    pub events: Vec<SessionEvent>,
    pub action: Action,
}

/// What a [`SessionCommand`] says.
pub enum CommandView {
    JoinTopic { topic: Seq<char>, presence: bool },
    Send { topic: Seq<char>, event: Seq<char>, payload: Tree },
    Shutdown,
}

/// What a [`SessionEvent`] says.
pub enum EventView {
    Connected(Option<u32>),
    Frame(Frame),
    Disconnected,
    Reconnecting,
}

pub struct JoinedView {
    pub topic: Seq<char>,
    pub join_ref: Seq<char>,
    pub presence: bool,
}

pub enum PhaseView {
    Connecting,
    JoiningUser { join_ref: Seq<char> },
    Rejoining { at: int, join_ref: Seq<char> },
    Live,
    Joining { topic: Seq<char>, presence: bool, join_ref: Seq<char> },
    Sending,
    Beating,
    Resting,
    Over,
}

pub enum InputView {
    Connected,
    ConnectFailed,
    Sent(bool),
    Rested,
    HeartbeatDue,
    Command(CommandView),
    CommandsClosed,
    Received(Frame),
    ConnectionLost,
}

pub enum ActionView {
    Connect,
    Send(Frame),
    Rest,
    Listen,
    Stop,
}

pub struct SessionView {
    pub user_topic: Seq<char>,
    pub joined: Seq<JoinedView>,
    /// How many refs the connection has used.
    pub refs: nat,
    pub phase: PhaseView,
}

impl View for SessionCommand {
    type V = CommandView;

    open spec fn view(&self) -> CommandView {
        match *self {
            SessionCommand::JoinTopic { topic, presence } => CommandView::JoinTopic {
                topic: topic@,
                presence,
            },
            SessionCommand::Send { topic, event, payload } => CommandView::Send {
                topic: topic@,
                event: event@,
                payload: payload@,
            },
            SessionCommand::Shutdown => CommandView::Shutdown,
        }
    }
}

impl View for SessionEvent {
    type V = EventView;

    open spec fn view(&self) -> EventView {
        match *self {
            SessionEvent::Connected { protocol_version } => EventView::Connected(protocol_version),
            SessionEvent::Frame(message) => EventView::Frame(message@),
            SessionEvent::Disconnected => EventView::Disconnected,
            SessionEvent::Reconnecting => EventView::Reconnecting,
        }
    }
}

impl View for JoinedTopic {
    type V = JoinedView;

    open spec fn view(&self) -> JoinedView {
        JoinedView { topic: self.topic@, join_ref: self.join_ref@, presence: self.presence }
    }
}

impl View for Phase {
    type V = PhaseView;

    open spec fn view(&self) -> PhaseView {
        match *self {
            Phase::Connecting => PhaseView::Connecting,
            Phase::JoiningUser { join_ref } => PhaseView::JoiningUser { join_ref: join_ref@ },
            Phase::Rejoining { at, join_ref } => PhaseView::Rejoining {
                at: at as int,
                join_ref: join_ref@,
            },
            Phase::Live => PhaseView::Live,
            Phase::Joining { topic, presence, join_ref } => PhaseView::Joining {
                topic: topic@,
                presence,
                join_ref: join_ref@,
            },
            Phase::Sending => PhaseView::Sending,
            Phase::Beating => PhaseView::Beating,
            Phase::Resting => PhaseView::Resting,
            Phase::Over => PhaseView::Over,
        }
    }
}

impl View for Input {
    type V = InputView;

    open spec fn view(&self) -> InputView {
        match *self {
            Input::Connected => InputView::Connected,
            Input::ConnectFailed => InputView::ConnectFailed,
            Input::Sent(ok) => InputView::Sent(ok),
            Input::Rested => InputView::Rested,
            Input::HeartbeatDue => InputView::HeartbeatDue,
            Input::Command(command) => InputView::Command(command@),
            Input::CommandsClosed => InputView::CommandsClosed,
            Input::Received(message) => InputView::Received(message@),
            Input::ConnectionLost => InputView::ConnectionLost,
        }
    }
}

impl View for Action {
    type V = ActionView;

    open spec fn view(&self) -> ActionView {
        match *self {
            Action::Connect => ActionView::Connect,
            Action::Send(message) => ActionView::Send(message@),
            Action::Rest => ActionView::Rest,
            Action::Listen => ActionView::Listen,
            Action::Stop => ActionView::Stop,
        }
    }
}

pub open spec fn event_views(events: Seq<SessionEvent>) -> Seq<EventView> {
    Seq::new(events.len(), |i: int| events[i]@)
}

pub open spec fn joined_views(joined: Seq<JoinedTopic>) -> Seq<JoinedView> {
    Seq::new(joined.len(), |i: int| joined[i]@)
}

/// Whether an input is what a phase waits for.
pub open spec fn expects(phase: PhaseView, input: InputView) -> bool {
    match phase {
        PhaseView::Connecting => input is Connected || input is ConnectFailed,
        PhaseView::JoiningUser { .. } => input is Sent,
        PhaseView::Rejoining { .. } => input is Sent,
        PhaseView::Live => input is HeartbeatDue || input is Command || input is CommandsClosed
            || input is Received || input is ConnectionLost,
        PhaseView::Joining { .. } => input is Sent,
        PhaseView::Sending => input is Sent,
        PhaseView::Beating => input is Sent,
        PhaseView::Resting => input is Rested,
        PhaseView::Over => false,
    }
}

/// The payload of a join: presence is the default.
pub open spec fn join_payload(presence: bool) -> Tree {
    if presence {
        Tree::Object(Seq::empty())
    } else {
        Tree::Object(seq![("presence"@, Tree::Bool(false))])
    }
}

/// The frame that joins a topic.
pub open spec fn join_frame(topic: Seq<char>, presence: bool, join_ref: Seq<char>) -> Frame {
    Frame {
        join_ref: Some(join_ref),
        message_ref: Some(join_ref),
        topic,
        event: "phx_join"@,
        payload: join_payload(presence),
    }
}

pub open spec fn heartbeat_frame(message_ref: Seq<char>) -> Frame {
    Frame {
        join_ref: None,
        message_ref: Some(message_ref),
        topic: HEARTBEAT_TOPIC@,
        event: HEARTBEAT_EVENT@,
        payload: Tree::Object(Seq::empty()),
    }
}

/// Where a topic stands in the list of joined ones; its length when it does
/// not.
pub open spec fn place_of(joined: Seq<JoinedView>, topic: Seq<char>) -> int
    decreases joined.len(),
{
    if joined.len() == 0 || joined[0].topic == topic {
        0
    } else {
        1 + place_of(joined.drop_first(), topic)
    }
}

/// The joined topics once a topic is joined, again or for the first time.
pub open spec fn with_joined(joined: Seq<JoinedView>, entry: JoinedView) -> Seq<JoinedView> {
    let at = place_of(joined, entry.topic);
    if at < joined.len() {
        joined.update(at, entry)
    } else {
        joined.push(entry)
    }
}

/// The first place from `from` on that holds another topic than the user's.
pub open spec fn next_other(
    joined: Seq<JoinedView>,
    user_topic: Seq<char>,
    from: int,
) -> int
    decreases joined.len() - from,
{
    if 0 <= from < joined.len() && joined[from].topic == user_topic {
        next_other(joined, user_topic, from + 1)
    } else {
        from
    }
}

/// The session goes on with the topics from place `from` on that were joined
/// before: it joins the next one again, or listens when there is none left.
pub open spec fn rejoin(
    state: SessionView,
    from: int,
) -> (SessionView, Seq<EventView>, ActionView) {
    let at = next_other(state.joined, state.user_topic, from);
    if at < state.joined.len() {
        let join_ref = decimal(state.refs + 1);
        (
            SessionView {
                refs: state.refs + 1,
                phase: PhaseView::Rejoining { at, join_ref },
                ..state
            },
            Seq::empty(),
            ActionView::Send(
                join_frame(state.joined[at].topic, state.joined[at].presence, join_ref),
            ),
        )
    } else {
        (SessionView { phase: PhaseView::Live, ..state }, Seq::empty(), ActionView::Listen)
    }
}

/// The session reports an event and rests before another attempt.
pub open spec fn rest(
    state: SessionView,
    event: EventView,
) -> (SessionView, Seq<EventView>, ActionView) {
    (SessionView { phase: PhaseView::Resting, ..state }, seq![event], ActionView::Rest)
}

pub open spec fn listen(state: SessionView) -> (SessionView, Seq<EventView>, ActionView) {
    (SessionView { phase: PhaseView::Live, ..state }, Seq::empty(), ActionView::Listen)
}

/// What a session does on a command.
pub open spec fn on_command(
    state: SessionView,
    command: CommandView,
) -> (SessionView, Seq<EventView>, ActionView) {
    match command {
        CommandView::Shutdown => (
            SessionView { phase: PhaseView::Over, ..state },
            Seq::empty(),
            ActionView::Stop,
        ),
        CommandView::JoinTopic { topic, presence } => {
            let join_ref = decimal(state.refs + 1);
            (
                SessionView {
                    refs: state.refs + 1,
                    phase: PhaseView::Joining { topic, presence, join_ref },
                    ..state
                },
                Seq::empty(),
                ActionView::Send(join_frame(topic, presence, join_ref)),
            )
        },
        CommandView::Send { topic, event, payload } => {
            let at = place_of(state.joined, topic);
            if at < state.joined.len() {
                (
                    SessionView { refs: state.refs + 1, phase: PhaseView::Sending, ..state },
                    Seq::empty(),
                    ActionView::Send(
                        Frame {
                            join_ref: Some(state.joined[at].join_ref),
                            message_ref: Some(decimal(state.refs + 1)),
                            topic,
                            event,
                            payload,
                        },
                    ),
                )
            } else {
                listen(state)
            }
        },
    }
}

/// The protocol version that the reply to a join carries, cut to 32 bits.
pub open spec fn reply_version(payload: Tree) -> Option<u32> {
    match as_unsigned(member_of(member(payload, "response"@), "protocol_version"@)) {
        Some(n) => Some((n % 0x1_0000_0000) as u32),
        None => None,
    }
}

/// Whether a frame says that the user topic is joined: it replies to that
/// join, whose ref it carries, and its status is `ok`.
pub open spec fn grants_user_join(state: SessionView, frame: Frame) -> bool {
    let at = place_of(state.joined, state.user_topic);
    &&& frame.topic == state.user_topic
    &&& frame.event == "phx_reply"@
    &&& at < state.joined.len()
    &&& frame.message_ref == Some(state.joined[at].join_ref)
    &&& as_text(member(frame.payload, "status"@)) == Some("ok"@)
}

/// The events that a frame gives: the frame itself, and before it, once the
/// user topic is joined, that the session is connected.
pub open spec fn frame_events(state: SessionView, frame: Frame) -> Seq<EventView> {
    if grants_user_join(state, frame) {
        seq![EventView::Connected(reply_version(frame.payload)), EventView::Frame(frame)]
    } else {
        seq![EventView::Frame(frame)]
    }
}

/// What a session does on an input: its next state, the events that it
/// reports, and what it asks for.
pub open spec fn next(
    state: SessionView,
    input: InputView,
) -> (SessionView, Seq<EventView>, ActionView) {
    match (state.phase, input) {
        (PhaseView::Connecting, InputView::Connected) => {
            let join_ref = decimal(1);
            (
                SessionView { refs: 1, phase: PhaseView::JoiningUser { join_ref }, ..state },
                Seq::empty(),
                ActionView::Send(join_frame(state.user_topic, true, join_ref)),
            )
        },
        (PhaseView::Connecting, _) => rest(state, EventView::Reconnecting),
        (PhaseView::JoiningUser { join_ref }, InputView::Sent(true)) => rejoin(
            SessionView {
                joined: with_joined(
                    state.joined,
                    JoinedView { topic: state.user_topic, join_ref, presence: true },
                ),
                ..state
            },
            0,
        ),
        (PhaseView::JoiningUser { .. }, _) => rest(state, EventView::Reconnecting),
        (PhaseView::Rejoining { at, join_ref }, InputView::Sent(ok)) => rejoin(
            if ok {
                SessionView {
                    joined: state.joined.update(at, JoinedView { join_ref, ..state.joined[at] }),
                    ..state
                }
            } else {
                state
            },
            at + 1,
        ),
        (PhaseView::Live, InputView::HeartbeatDue) => (
            SessionView { refs: state.refs + 1, phase: PhaseView::Beating, ..state },
            Seq::empty(),
            ActionView::Send(heartbeat_frame(decimal(state.refs + 1))),
        ),
        (PhaseView::Live, InputView::Command(command)) => on_command(state, command),
        (PhaseView::Live, InputView::CommandsClosed) => on_command(state, CommandView::Shutdown),
        (PhaseView::Live, InputView::Received(frame)) => (
            state,
            frame_events(state, frame),
            ActionView::Listen,
        ),
        (PhaseView::Live, _) => rest(state, EventView::Disconnected),
        (PhaseView::Joining { topic, presence, join_ref }, InputView::Sent(ok)) => listen(
            if ok {
                SessionView {
                    joined: with_joined(state.joined, JoinedView { topic, join_ref, presence }),
                    ..state
                }
            } else {
                state
            },
        ),
        (PhaseView::Sending, _) => listen(state),
        (PhaseView::Beating, InputView::Sent(true)) => listen(state),
        (PhaseView::Beating, _) => rest(state, EventView::Disconnected),
        (PhaseView::Resting, _) => (
            SessionView { phase: PhaseView::Connecting, ..state },
            Seq::empty(),
            ActionView::Connect,
        ),
        _ => (state, Seq::empty(), ActionView::Stop),
    }
}

/// A session and what it remembers between two inputs.
#[derive(Debug)]
pub struct Session {
    user_topic: String,
    joined: Vec<JoinedTopic>,
    refs: RefCounter,
    phase: Phase,
}

impl View for Session {
    type V = SessionView;

    closed spec fn view(&self) -> SessionView {
        SessionView {
            user_topic: self.user_topic@,
            joined: joined_views(self.joined@),
            refs: self.refs.count(),
            phase: self.phase@,
        }
    }
}

/// Whether a state is one that a session can be in: no topic is joined twice,
/// and a join that is under way is one of a topic joined before.
pub open spec fn is_sound(state: SessionView) -> bool {
    &&& forall|i: int, j: int|
        0 <= i < j < state.joined.len() ==> #[trigger] state.joined[i].topic
            != #[trigger] state.joined[j].topic
    &&& state.phase matches PhaseView::Rejoining { at, .. } ==> 0 <= at < state.joined.len()
}

pub proof fn lemma_place_of(joined: Seq<JoinedView>, topic: Seq<char>)
    ensures
        0 <= place_of(joined, topic) <= joined.len(),
        place_of(joined, topic) < joined.len() ==> joined[place_of(joined, topic)].topic == topic,
        forall|i: int| 0 <= i < place_of(joined, topic) ==> (#[trigger] joined[i]).topic != topic,
    decreases joined.len(),
{
    if joined.len() > 0 && joined[0].topic != topic {
        let rest = joined.drop_first();
        lemma_place_of(rest, topic);
        assert forall|i: int| 0 <= i < place_of(joined, topic) implies (#[trigger] joined[i]).topic
            != topic by {
            if i > 0 {
                assert(joined[i] == rest[i - 1]);
            }
        }
    }
}

proof fn lemma_place_of_is(joined: Seq<JoinedView>, topic: Seq<char>, k: int)
    requires
        0 <= k <= joined.len(),
        k < joined.len() ==> joined[k].topic == topic,
        forall|i: int| 0 <= i < k ==> (#[trigger] joined[i]).topic != topic,
    ensures
        place_of(joined, topic) == k,
{
    lemma_place_of(joined, topic);
    let p = place_of(joined, topic);
    if p < k {
        assert(joined[p].topic != topic);
    } else if k < p {
        assert(joined[k].topic != topic);
    }
}

pub proof fn lemma_next_other(joined: Seq<JoinedView>, user_topic: Seq<char>, from: int)
    requires
        0 <= from <= joined.len(),
    ensures
        from <= next_other(joined, user_topic, from) <= joined.len(),
        next_other(joined, user_topic, from) < joined.len() ==> joined[next_other(
            joined,
            user_topic,
            from,
        )].topic != user_topic,
        forall|i: int|
            from <= i < next_other(joined, user_topic, from) ==> (#[trigger] joined[i]).topic
                == user_topic,
    decreases joined.len() - from,
{
    if from < joined.len() && joined[from].topic == user_topic {
        lemma_next_other(joined, user_topic, from + 1);
    }
}

proof fn lemma_with_joined(joined: Seq<JoinedView>, entry: JoinedView)
    requires
        forall|i: int, j: int|
            0 <= i < j < joined.len() ==> #[trigger] joined[i].topic != #[trigger] joined[j].topic,
    ensures
        forall|i: int, j: int|
            0 <= i < j < with_joined(joined, entry).len() ==> #[trigger] with_joined(
                joined,
                entry,
            )[i].topic != #[trigger] with_joined(joined, entry)[j].topic,
        joined.len() <= with_joined(joined, entry).len(),
        forall|i: int|
            0 <= i < joined.len() ==> (#[trigger] with_joined(joined, entry)[i]).topic
                == joined[i].topic,
{
    lemma_place_of(joined, entry.topic);
}

/// Whatever happens, a session stays sound.
pub proof fn sessions_stay_sound(state: SessionView, input: InputView)
    requires
        is_sound(state),
        expects(state.phase, input),
    ensures
        is_sound(next(state, input).0),
{
    match (state.phase, input) {
        (PhaseView::JoiningUser { join_ref }, InputView::Sent(true)) => {
            let entry = JoinedView { topic: state.user_topic, join_ref, presence: true };
            lemma_with_joined(state.joined, entry);
            lemma_next_other(with_joined(state.joined, entry), state.user_topic, 0);
        },
        (PhaseView::Rejoining { at, join_ref }, InputView::Sent(ok)) => {
            let joined = state.joined.update(at, JoinedView { join_ref, ..state.joined[at] });
            lemma_next_other(joined, state.user_topic, at + 1);
            lemma_next_other(state.joined, state.user_topic, at + 1);
        },
        (PhaseView::Joining { topic, presence, join_ref }, InputView::Sent(ok)) => {
            lemma_with_joined(state.joined, JoinedView { topic, join_ref, presence });
        },
        _ => {},
    }
}

/// A topic that is joined is never forgotten: it stays in its place, whatever
/// happens, to be joined again after a reconnect.
pub proof fn joined_topics_are_kept(state: SessionView, input: InputView, i: int)
    requires
        is_sound(state),
        expects(state.phase, input),
        0 <= i < state.joined.len(),
    ensures
        i < next(state, input).0.joined.len(),
        next(state, input).0.joined[i].topic == state.joined[i].topic,
{
    match (state.phase, input) {
        (PhaseView::JoiningUser { join_ref }, InputView::Sent(true)) => {
            let entry = JoinedView { topic: state.user_topic, join_ref, presence: true };
            lemma_with_joined(state.joined, entry);
            assert(with_joined(state.joined, entry)[i].topic == state.joined[i].topic);
        },
        (PhaseView::Joining { topic, presence, join_ref }, InputView::Sent(ok)) => {
            let entry = JoinedView { topic, join_ref, presence };
            lemma_with_joined(state.joined, entry);
            assert(with_joined(state.joined, entry)[i].topic == state.joined[i].topic);
        },
        _ => {},
    }
}

/// Every frame that is sent carries a ref that the connection has not used:
/// one more than the last.
pub proof fn frames_carry_fresh_refs(state: SessionView, input: InputView)
    requires
        expects(state.phase, input),
    ensures
        next(state, input).2 matches ActionView::Send(frame) ==> {
            &&& frame.message_ref == Some(decimal(next(state, input).0.refs))
            &&& next(state, input).0.refs == if input is Connected {
                1
            } else {
                state.refs + 1
            }
        },
        !(next(state, input).2 is Send) ==> next(state, input).0.refs == state.refs,
{
}

/// The session is reported as connected by the reply that grants the join of
/// the user topic, and by nothing else.
pub proof fn only_a_granted_join_connects(state: SessionView, input: InputView)
    requires
        expects(state.phase, input),
    ensures
        (exists|i: int|
            0 <= i < next(state, input).1.len() && #[trigger] next(state, input).1[i] is Connected)
            <==> state.phase is Live && (input matches InputView::Received(frame)
            && grants_user_join(state, frame)),
{
    if state.phase is Live {
        if let InputView::Received(frame) = input {
            if grants_user_join(state, frame) {
                assert(next(state, input).1[0] is Connected);
            }
        }
    }
}

/// A command on a topic that is not joined sends nothing, and one on a joined
/// topic carries the ref of that join.
pub proof fn commands_go_out_on_joined_topics_only(
    state: SessionView,
    topic: Seq<char>,
    event: Seq<char>,
    payload: Tree,
)
    requires
        is_sound(state),
        state.phase is Live,
    ensures
        ({
            let input = InputView::Command(CommandView::Send { topic, event, payload });
            match next(state, input).2 {
                ActionView::Send(frame) => exists|i: int|
                    0 <= i < state.joined.len() && (#[trigger] state.joined[i]).topic == topic
                        && frame.join_ref == Some(state.joined[i].join_ref) && frame.topic == topic
                        && frame.event == event && frame.payload == payload,
                action => action is Listen && forall|i: int|
                    0 <= i < state.joined.len() ==> (#[trigger] state.joined[i]).topic != topic,
            }
        }),
{
    lemma_place_of(state.joined, topic);
}

/// After a connection, and before it listens, the session joins its user topic
/// and then every topic that was joined before, in their order: between the
/// place just joined and the next one there is none but the user's.
pub proof fn every_topic_is_joined_again(state: SessionView, input: InputView)
    requires
        is_sound(state),
        expects(state.phase, input),
        state.phase is JoiningUser && input == InputView::Sent(true) || state.phase is Rejoining,
    ensures
        ({
            let from = match state.phase {
                PhaseView::Rejoining { at, .. } => at + 1,
                _ => 0,
            };
            let (after, _, action) = next(state, input);
            match after.phase {
                PhaseView::Rejoining { at, join_ref } => {
                    &&& from <= at < after.joined.len()
                    &&& action == ActionView::Send(
                        join_frame(after.joined[at].topic, after.joined[at].presence, join_ref),
                    )
                    &&& forall|i: int|
                        from <= i < at ==> (#[trigger] after.joined[i]).topic == state.user_topic
                },
                _ => {
                    &&& after.phase is Live && action is Listen
                    &&& forall|i: int|
                        from <= i < after.joined.len() ==> (#[trigger] after.joined[i]).topic
                            == state.user_topic
                },
            }
        }),
{
    match (state.phase, input) {
        (PhaseView::JoiningUser { join_ref }, InputView::Sent(true)) => {
            let entry = JoinedView { topic: state.user_topic, join_ref, presence: true };
            lemma_with_joined(state.joined, entry);
            lemma_next_other(with_joined(state.joined, entry), state.user_topic, 0);
        },
        (PhaseView::Rejoining { at, join_ref }, InputView::Sent(ok)) => {
            let joined = state.joined.update(at, JoinedView { join_ref, ..state.joined[at] });
            lemma_next_other(joined, state.user_topic, at + 1);
            lemma_next_other(state.joined, state.user_topic, at + 1);
        },
        _ => {},
    }
}

fn join_json(presence: bool) -> (json: Json)
    ensures
        json@ == join_payload(presence),
{
    let mut members: Vec<(String, Json)> = Vec::new();
    if !presence {
        members.push(("presence".to_string(), Json::Bool(false)));
    }
    proof {
        lemma_object_tree(members);
        assert(named_trees(members@) =~= join_payload(presence)->Object_0);
    }
    Json::Object(members)
}

fn join_message(topic: &String, presence: bool, join_ref: &String) -> (message: PhoenixMessage)
    ensures
        message@ == join_frame(topic@, presence, join_ref@),
{
    PhoenixMessage {
        join_ref: Some(join_ref.clone()),
        message_ref: Some(join_ref.clone()),
        topic: topic.clone(),
        event: "phx_join".to_string(),
        payload: join_json(presence),
    }
}

fn version_of(payload: &Json) -> (version: Option<u32>)
    ensures
        version == reply_version(payload@),
{
    let found = match payload.get("response") {
        Some(response) => response.get("protocol_version"),
        None => None,
    };
    match found {
        Some(version) => match version.as_u64() {
            Some(n) => Some((n % 0x1_0000_0000) as u32),
            None => None,
        },
        None => None,
    }
}

fn outcome(action: Action) -> (outcome: Outcome)
    ensures
        event_views(outcome.events@) == Seq::<EventView>::empty(),
        outcome.action@ == action@,
{
    let events: Vec<SessionEvent> = Vec::new();
    assert(event_views(events@) =~= Seq::empty());
    Outcome { events, action }
}

fn rest_after(event: SessionEvent) -> (outcome: Outcome)
    ensures
        event_views(outcome.events@) == seq![event@],
        outcome.action@ == ActionView::Rest,
{
    let mut events: Vec<SessionEvent> = Vec::new();
    events.push(event);
    assert(event_views(events@) =~= seq![event@]);
    Outcome { events, action: Action::Rest }
}

impl Session {
    /// A session of `user`, which first of all connects.
    pub fn new(user: &str) -> (session: Self)
        ensures
            session@ == (SessionView {
                user_topic: "grappa:user:"@ + user@,
                joined: Seq::empty(),
                refs: 0,
                phase: PhaseView::Connecting,
            }),
            is_sound(session@),
    {
        let mut user_topic = String::new();
        user_topic.append("grappa:user:");
        user_topic.append(user);
        assert(user_topic@ =~= "grappa:user:"@ + user@);
        let session = Session {
            user_topic,
            joined: Vec::new(),
            refs: RefCounter::new(),
            phase: Phase::Connecting,
        };
        assert(session@.joined =~= Seq::empty());
        session
    }

    fn place(&self, topic: &str) -> (at: usize)
        ensures
            at == place_of(self@.joined, topic@),
            at <= self.joined@.len(),
    {
        let mut i: usize = 0;
        while i < self.joined.len()
            invariant
                i <= self.joined@.len(),
                forall|j: int| 0 <= j < i ==> (#[trigger] self@.joined[j]).topic != topic@,
            decreases self.joined@.len() - i,
        {
            assert(self@.joined[i as int] == self.joined@[i as int]@);
            if same_text(self.joined[i].topic.as_str(), topic) {
                proof {
                    lemma_place_of_is(self@.joined, topic@, i as int);
                }
                return i;
            }
            i += 1;
        }
        proof {
            lemma_place_of_is(self@.joined, topic@, i as int);
        }
        i
    }

    fn remember(&mut self, topic: String, join_ref: String, presence: bool)
        ensures
            final(self)@ == (SessionView {
                joined: with_joined(
                    old(self)@.joined,
                    JoinedView { topic: topic@, join_ref: join_ref@, presence },
                ),
                ..old(self)@
            }),
    {
        let at = self.place(topic.as_str());
        let entry = JoinedTopic { topic, join_ref, presence };
        if at < self.joined.len() {
            self.joined.set(at, entry);
            assert(joined_views(self.joined@) =~= old(self)@.joined.update(at as int, entry@));
        } else {
            self.joined.push(entry);
            assert(joined_views(self.joined@) =~= old(self)@.joined.push(entry@));
        }
    }

    fn rejoin_from(&mut self, from: usize) -> (outcome: Outcome)
        requires
            from <= old(self)@.joined.len(),
            old(self)@.refs < u64::MAX,
        ensures
            (final(self)@, event_views(outcome.events@), outcome.action@) == rejoin(
                old(self)@,
                from as int,
            ),
    {
        let mut at: usize = from;
        let ghost joined = self@.joined;
        while at < self.joined.len() && same_text(
            self.joined[at].topic.as_str(),
            self.user_topic.as_str(),
        )
            invariant
                at <= self.joined@.len(),
                joined == self@.joined,
                *self == *old(self),
                next_other(joined, self@.user_topic, from as int) == next_other(
                    joined,
                    self@.user_topic,
                    at as int,
                ),
            decreases self.joined@.len() - at,
        {
            assert(joined[at as int] == self.joined@[at as int]@);
            at += 1;
        }
        if at < self.joined.len() {
            assert(joined[at as int] == self.joined@[at as int]@);
            let join_ref = self.refs.next_ref();
            let message = join_message(
                &self.joined[at].topic,
                self.joined[at].presence,
                &join_ref,
            );
            self.phase = Phase::Rejoining { at, join_ref };
            outcome(Action::Send(message))
        } else {
            self.phase = Phase::Live;
            outcome(Action::Listen)
        }
    }

    fn command(&mut self, command: SessionCommand) -> (outcome: Outcome)
        requires
            old(self)@.refs < u64::MAX,
        ensures
            (final(self)@, event_views(outcome.events@), outcome.action@) == on_command(
                old(self)@,
                command@,
            ),
    {
        match command {
            SessionCommand::Shutdown => {
                self.phase = Phase::Over;
                outcome(Action::Stop)
            },
            SessionCommand::JoinTopic { topic, presence } => {
                let join_ref = self.refs.next_ref();
                let message = join_message(&topic, presence, &join_ref);
                self.phase = Phase::Joining { topic, presence, join_ref };
                outcome(Action::Send(message))
            },
            SessionCommand::Send { topic, event, payload } => {
                let at = self.place(topic.as_str());
                if at < self.joined.len() {
                    assert(self@.joined[at as int] == self.joined@[at as int]@);
                    let message = PhoenixMessage {
                        join_ref: Some(self.joined[at].join_ref.clone()),
                        message_ref: Some(self.refs.next_ref()),
                        topic,
                        event,
                        payload,
                    };
                    self.phase = Phase::Sending;
                    outcome(Action::Send(message))
                } else {
                    self.phase = Phase::Live;
                    outcome(Action::Listen)
                }
            },
        }
    }

    fn is_user_join_granted(&self, message: &PhoenixMessage) -> (granted: bool)
        ensures
            granted == grants_user_join(self@, message@),
    {
        if !same_text(message.topic.as_str(), self.user_topic.as_str()) || !same_text(
            message.event.as_str(),
            "phx_reply",
        ) {
            return false;
        }
        let at = self.place(self.user_topic.as_str());
        if at >= self.joined.len() {
            return false;
        }
        assert(self@.joined[at as int] == self.joined@[at as int]@);
        let answers = match &message.message_ref {
            Some(message_ref) => same_text(message_ref.as_str(), self.joined[at].join_ref.as_str()),
            None => false,
        };
        let status = match message.payload.get("status") {
            Some(status) => status.as_str(),
            None => None,
        };
        match status {
            Some(status) => answers && same_text(status, "ok"),
            None => false,
        }
    }

    fn received(&self, message: PhoenixMessage) -> (outcome: Outcome)
        ensures
            event_views(outcome.events@) == frame_events(self@, message@),
            outcome.action@ == ActionView::Listen,
    {
        let ghost frame = message@;
        let mut events: Vec<SessionEvent> = Vec::new();
        if self.is_user_join_granted(&message) {
            events.push(
                SessionEvent::Connected { protocol_version: version_of(&message.payload) },
            );
        }
        events.push(SessionEvent::Frame(message));
        assert(event_views(events@) =~= frame_events(self@, frame));
        Outcome { events, action: Action::Listen }
    }

    /// Whether an input is what the session waits for, and a ref is left to
    /// answer it with.
    pub fn can_take(&self, input: &Input) -> (can: bool)
        ensures
            can == (expects(self@.phase, input@) && self@.refs < u64::MAX),
    {
        let expected = match (&self.phase, input) {
            (Phase::Connecting, Input::Connected) => true,
            (Phase::Connecting, Input::ConnectFailed) => true,
            (Phase::JoiningUser { .. }, Input::Sent(_)) => true,
            (Phase::Rejoining { .. }, Input::Sent(_)) => true,
            (Phase::Live, Input::HeartbeatDue) => true,
            (Phase::Live, Input::Command(_)) => true,
            (Phase::Live, Input::CommandsClosed) => true,
            (Phase::Live, Input::Received(_)) => true,
            (Phase::Live, Input::ConnectionLost) => true,
            (Phase::Joining { .. }, Input::Sent(_)) => true,
            (Phase::Sending, Input::Sent(_)) => true,
            (Phase::Beating, Input::Sent(_)) => true,
            (Phase::Resting, Input::Rested) => true,
            _ => false,
        };
        expected && self.refs.has_next()
    }

    /// Takes what happened, and says what to report and to do next.
    pub fn step(&mut self, input: Input) -> (outcome: Outcome)
        requires
            is_sound(old(self)@),
            expects(old(self)@.phase, input@),
            old(self)@.refs < u64::MAX,
        ensures
            (final(self)@, event_views(outcome.events@), outcome.action@) == next(
                old(self)@,
                input@,
            ),
            is_sound(final(self)@),
    {
        proof {
            sessions_stay_sound(self@, input@);
        }
        let mut phase = Phase::Over;
        std::mem::swap(&mut phase, &mut self.phase);
        match (phase, input) {
            (Phase::Connecting, Input::Connected) => {
                self.refs = RefCounter::new();
                let join_ref = self.refs.next_ref();
                let message = join_message(&self.user_topic, true, &join_ref);
                self.phase = Phase::JoiningUser { join_ref };
                outcome(Action::Send(message))
            },
            (Phase::Connecting, _) => {
                self.phase = Phase::Resting;
                rest_after(SessionEvent::Reconnecting)
            },
            (Phase::JoiningUser { join_ref }, Input::Sent(true)) => {
                let topic = self.user_topic.clone();
                self.phase = Phase::JoiningUser { join_ref: join_ref.clone() };
                self.remember(topic, join_ref, true);
                self.rejoin_from(0)
            },
            (Phase::JoiningUser { .. }, _) => {
                self.phase = Phase::Resting;
                rest_after(SessionEvent::Reconnecting)
            },
            (Phase::Rejoining { at, join_ref }, Input::Sent(ok)) => {
                self.phase = Phase::Rejoining { at, join_ref: join_ref.clone() };
                if ok {
                    let entry = JoinedTopic {
                        topic: self.joined[at].topic.clone(),
                        join_ref,
                        presence: self.joined[at].presence,
                    };
                    self.joined.set(at, entry);
                    assert(joined_views(self.joined@) =~= old(self)@.joined.update(
                        at as int,
                        entry@,
                    ));
                    assert(entry@ == (JoinedView {
                        join_ref: join_ref@,
                        ..old(self)@.joined[at as int]
                    }));
                }
                assert(self.joined.len() == self.joined@.len());
                self.rejoin_from(at + 1)
            },
            (Phase::Live, Input::HeartbeatDue) => {
                let message = PhoenixMessage {
                    join_ref: None,
                    message_ref: Some(self.refs.next_ref()),
                    topic: HEARTBEAT_TOPIC.to_string(),
                    event: HEARTBEAT_EVENT.to_string(),
                    payload: join_json(true),
                };
                self.phase = Phase::Beating;
                outcome(Action::Send(message))
            },
            (Phase::Live, Input::Command(command)) => {
                self.phase = Phase::Live;
                self.command(command)
            },
            (Phase::Live, Input::CommandsClosed) => {
                self.phase = Phase::Live;
                self.command(SessionCommand::Shutdown)
            },
            (Phase::Live, Input::Received(message)) => {
                self.phase = Phase::Live;
                self.received(message)
            },
            (Phase::Live, _) => {
                self.phase = Phase::Resting;
                rest_after(SessionEvent::Disconnected)
            },
            (Phase::Joining { topic, presence, join_ref }, Input::Sent(ok)) => {
                self.phase = Phase::Live;
                if ok {
                    self.remember(topic, join_ref, presence);
                }
                outcome(Action::Listen)
            },
            (Phase::Sending, _) => {
                self.phase = Phase::Live;
                outcome(Action::Listen)
            },
            (Phase::Beating, Input::Sent(true)) => {
                self.phase = Phase::Live;
                outcome(Action::Listen)
            },
            (Phase::Beating, _) => {
                self.phase = Phase::Resting;
                rest_after(SessionEvent::Disconnected)
            },
            (Phase::Resting, _) => {
                self.phase = Phase::Connecting;
                outcome(Action::Connect)
            },
            (other, _) => {
                self.phase = other;
                outcome(Action::Stop)
            },
        }
    }
}

/// The state of a session of `user` when it begins.
pub open spec fn fresh(user: Seq<char>) -> SessionView {
    SessionView {
        user_topic: "grappa:user:"@ + user,
        joined: Seq::empty(),
        refs: 0,
        phase: PhaseView::Connecting,
    }
}

/// The state of a session of `user` after some inputs.
pub open spec fn state_after(user: Seq<char>, inputs: Seq<InputView>) -> SessionView
    decreases inputs.len(),
{
    if inputs.len() == 0 {
        fresh(user)
    } else {
        next(state_after(user, inputs.drop_last()), inputs.last()).0
    }
}

/// What a session of `user` does on the last of some inputs; at first it
/// connects.
pub open spec fn action_after(user: Seq<char>, inputs: Seq<InputView>) -> ActionView {
    if inputs.len() == 0 {
        ActionView::Connect
    } else {
        next(state_after(user, inputs.drop_last()), inputs.last()).2
    }
}

/// Whether each input is one that the session waits for.
pub open spec fn are_expected(user: Seq<char>, inputs: Seq<InputView>) -> bool
    decreases inputs.len(),
{
    inputs.len() == 0 || (are_expected(user, inputs.drop_last()) && expects(
        state_after(user, inputs.drop_last()).phase,
        inputs.last(),
    ))
}

/// The join frame that the last of some inputs says was sent, if it says so.
pub open spec fn join_sent(user: Seq<char>, inputs: Seq<InputView>) -> Option<Frame> {
    if inputs.len() > 0 && inputs.last() == InputView::Sent(true) {
        match action_after(user, inputs.drop_last()) {
            ActionView::Send(frame) => if frame.event == "phx_join"@ {
                Some(frame)
            } else {
                None
            },
            _ => None,
        }
    } else {
        None
    }
}

/// The join frame of a topic that was sent last, if any was.
pub open spec fn last_join(
    user: Seq<char>,
    inputs: Seq<InputView>,
    topic: Seq<char>,
) -> Option<Frame>
    decreases inputs.len(),
{
    if inputs.len() == 0 {
        None
    } else {
        match join_sent(user, inputs) {
            Some(frame) => if frame.topic == topic {
                Some(frame)
            } else {
                last_join(user, inputs.drop_last(), topic)
            },
            None => last_join(user, inputs.drop_last(), topic),
        }
    }
}

/// How many frames were to be sent since the last connection.
pub open spec fn frames_since_connecting(user: Seq<char>, inputs: Seq<InputView>) -> nat
    decreases inputs.len(),
{
    if inputs.len() == 0 {
        0
    } else {
        (if inputs.last() is Connected {
            0nat
        } else {
            frames_since_connecting(user, inputs.drop_last())
        }) + (if action_after(user, inputs) is Send {
            1nat
        } else {
            0nat
        })
    }
}

/// Whether what is under way is what was asked to be sent.
spec fn is_under_way(state: SessionView, action: ActionView) -> bool {
    match state.phase {
        PhaseView::JoiningUser { join_ref } => action matches ActionView::Send(frame) && frame.topic
            == state.user_topic && frame.event == "phx_join"@ && frame.join_ref == Some(join_ref),
        PhaseView::Rejoining { at, join_ref } => 0 <= at < state.joined.len() && (action matches
            ActionView::Send(frame) && frame.topic == state.joined[at].topic && frame.event
            == "phx_join"@ && frame.join_ref == Some(join_ref)),
        PhaseView::Joining { topic, join_ref, .. } => action matches ActionView::Send(frame)
            && frame.topic == topic && frame.event == "phx_join"@ && frame.join_ref == Some(
            join_ref,
        ),
        PhaseView::Sending => action matches ActionView::Send(frame) && place_of(
            state.joined,
            frame.topic,
        ) < state.joined.len() && frame.join_ref == Some(
            state.joined[place_of(state.joined, frame.topic)].join_ref,
        ),
        PhaseView::Beating => action matches ActionView::Send(frame) && frame.event
            != "phx_join"@,
        _ => !(action is Send),
    }
}

/// Whether a topic is held with the ref of `join`, or not at all.
spec fn is_held(joined: Seq<JoinedView>, topic: Seq<char>, join: Option<Frame>) -> bool {
    let at = place_of(joined, topic);
    match join {
        Some(frame) => at < joined.len() && frame.join_ref == Some(joined[at].join_ref),
        None => at == joined.len(),
    }
}

proof fn lemma_place_with(joined: Seq<JoinedView>, entry: JoinedView, topic: Seq<char>)
    ensures
        ({
            let after = with_joined(joined, entry);
            let at = place_of(after, topic);
            if topic == entry.topic {
                at < after.len() && after[at] == entry
            } else if place_of(joined, topic) < joined.len() {
                at == place_of(joined, topic) && at < after.len() && after[at] == joined[at]
            } else {
                at == after.len()
            }
        }),
{
    let after = with_joined(joined, entry);
    lemma_place_of(joined, entry.topic);
    lemma_place_of(joined, topic);
    let p = place_of(joined, topic);
    if topic == entry.topic {
        lemma_place_of_is(after, topic, p);
    } else if p < joined.len() {
        lemma_place_of_is(after, topic, p);
    } else {
        assert forall|i: int| 0 <= i < after.len() implies (#[trigger] after[i]).topic
            != topic by {
            if i < joined.len() {
                assert(joined[i].topic != topic);
            }
        }
        lemma_place_of_is(after, topic, after.len() as int);
    }
}

proof fn lemma_place_updated(joined: Seq<JoinedView>, at: int, entry: JoinedView, topic: Seq<char>)
    requires
        0 <= at < joined.len(),
        entry.topic == joined[at].topic,
        forall|i: int, j: int|
            0 <= i < j < joined.len() ==> #[trigger] joined[i].topic != #[trigger] joined[j].topic,
    ensures
        place_of(joined.update(at, entry), topic) == place_of(joined, topic),
        topic == entry.topic ==> place_of(joined, topic) == at,
{
    let after = joined.update(at, entry);
    lemma_place_of(joined, topic);
    let p = place_of(joined, topic);
    assert forall|i: int| 0 <= i < p implies (#[trigger] after[i]).topic != topic by {
        assert(joined[i].topic != topic);
    }
    lemma_place_of_is(after, topic, p);
    if topic == entry.topic {
        if p > at {
            assert(joined[at].topic != topic);
        } else if p < at {
            assert(joined[p].topic != joined[at].topic);
        }
    }
}

proof fn lemma_history(user: Seq<char>, inputs: Seq<InputView>, topic: Seq<char>)
    requires
        are_expected(user, inputs),
    ensures
        is_sound(state_after(user, inputs)),
        state_after(user, inputs).user_topic == "grappa:user:"@ + user,
        is_under_way(state_after(user, inputs), action_after(user, inputs)),
        is_held(state_after(user, inputs).joined, topic, last_join(user, inputs, topic)),
        state_after(user, inputs).refs == frames_since_connecting(user, inputs),
    decreases inputs.len(),
{
    if inputs.len() > 0 {
        let front = inputs.drop_last();
        let input = inputs.last();
        lemma_history(user, front, topic);
        let before = state_after(user, front);
        let after = state_after(user, inputs);
        sessions_stay_sound(before, input);
        reveal_strlit("phx_join");
        reveal_strlit("heartbeat");
        match (before.phase, input) {
            (PhaseView::JoiningUser { join_ref }, InputView::Sent(true)) => {
                let entry = JoinedView { topic: before.user_topic, join_ref, presence: true };
                lemma_place_with(before.joined, entry, topic);
                lemma_with_joined(before.joined, entry);
                lemma_next_other(with_joined(before.joined, entry), before.user_topic, 0);
            },
            (PhaseView::Rejoining { at, join_ref }, InputView::Sent(ok)) => {
                let entry = JoinedView { join_ref, ..before.joined[at] };
                lemma_place_updated(before.joined, at, entry, topic);
                lemma_place_of(before.joined, topic);
                lemma_next_other(
                    before.joined.update(at, entry),
                    before.user_topic,
                    at + 1,
                );
                lemma_next_other(before.joined, before.user_topic, at + 1);
            },
            (PhaseView::Joining { topic: name, presence, join_ref }, InputView::Sent(ok)) => {
                let entry = JoinedView { topic: name, join_ref, presence };
                lemma_place_with(before.joined, entry, topic);
            },
            (PhaseView::Live, InputView::Command(CommandView::Send { topic: name, .. })) => {
                lemma_place_of(before.joined, name);
            },
            (PhaseView::Live, InputView::HeartbeatDue) => {
                assert(HEARTBEAT_EVENT@.len() == 9);
            },
            _ => {},
        }
    }
}

/// Whatever happened before, a command on a topic carries the ref of the join
/// frame of that topic that was sent last, through any number of reconnects;
/// on a topic whose join was never sent it sends nothing.
pub proof fn commands_carry_the_ref_of_the_last_join(
    user: Seq<char>,
    inputs: Seq<InputView>,
    topic: Seq<char>,
    event: Seq<char>,
    payload: Tree,
)
    requires
        are_expected(user, inputs),
        state_after(user, inputs).phase is Live,
    ensures
        ({
            let command = InputView::Command(CommandView::Send { topic, event, payload });
            match (last_join(user, inputs, topic), action_after(user, inputs.push(command))) {
                (Some(join), ActionView::Send(frame)) => frame.join_ref == join.join_ref
                    && frame.join_ref is Some && frame.topic == topic && frame.event == event
                    && frame.payload == payload,
                (None, action) => action is Listen,
                _ => false,
            }
        }),
{
    lemma_history(user, inputs, topic);
    let command = InputView::Command(CommandView::Send { topic, event, payload });
    assert(inputs.push(command).drop_last() =~= inputs);
    lemma_place_of(state_after(user, inputs).joined, topic);
}

/// The frames of a connection are numbered from one on: each carries the
/// number of the frames since the connection was made, itself included.
pub proof fn frames_are_numbered(user: Seq<char>, inputs: Seq<InputView>)
    requires
        are_expected(user, inputs),
    ensures
        action_after(user, inputs) matches ActionView::Send(frame) ==> frame.message_ref == Some(
            decimal(frames_since_connecting(user, inputs)),
        ),
{
    if inputs.len() > 0 {
        lemma_history(user, inputs, Seq::empty());
        frames_carry_fresh_refs(
            state_after(user, inputs.drop_last()),
            inputs.last(),
        );
    }
}

/// A session connects, and then joins the topic of its user, with presence.
pub proof fn a_session_begins_with_its_user(user: Seq<char>)
    ensures
        action_after(user, Seq::empty()) is Connect,
        action_after(user, seq![InputView::Connected]) == ActionView::Send(
            Frame {
                join_ref: Some("1"@),
                message_ref: Some("1"@),
                topic: "grappa:user:"@ + user,
                event: "phx_join"@,
                payload: Tree::Object(Seq::empty()),
            },
        ),
{
    reveal_strlit("1");
    assert("1"@ =~= decimal(1));
    assert(seq![InputView::Connected].drop_last() =~= Seq::empty());
}

/// A join on command asks for the topic on the event `phx_join`, under one ref
/// of its own, and says no more than that presence is not wanted.
pub proof fn joins_say_whether_presence_is_wanted(
    state: SessionView,
    topic: Seq<char>,
    presence: bool,
)
    requires
        state.phase is Live,
    ensures
        next(state, InputView::Command(CommandView::JoinTopic { topic, presence })).2 matches
            ActionView::Send(frame) && frame.topic == topic && frame.event == "phx_join"@
            && frame.join_ref is Some && frame.join_ref == frame.message_ref && frame.payload
            == Tree::Object(
            if presence {
                Seq::empty()
            } else {
                seq![("presence"@, Tree::Bool(false))]
            },
        ),
{
}

/// The topics that are joined again are asked for as on command, each with
/// what was said of its presence.
pub proof fn topics_are_joined_again_as_before(state: SessionView, input: InputView)
    requires
        is_sound(state),
        expects(state.phase, input),
        next(state, input).0.phase is Rejoining,
    ensures
        ({
            let (after, _, action) = next(state, input);
            let at = after.phase->Rejoining_at;
            &&& 0 <= at < after.joined.len()
            &&& action matches ActionView::Send(frame)
            &&& frame.topic == after.joined[at].topic
            &&& frame.event == "phx_join"@
            &&& frame.join_ref is Some
            &&& frame.join_ref == frame.message_ref
            &&& frame.payload == Tree::Object(
                if after.joined[at].presence {
                    Seq::empty()
                } else {
                    seq![("presence"@, Tree::Bool(false))]
                },
            )
        }),
{
    sessions_stay_sound(state, input);
}

/// What was said of a topic's presence stays, unless the topic is joined anew
/// on command; the user's own topic has presence.
pub proof fn presence_is_kept(state: SessionView, input: InputView, i: int)
    requires
        is_sound(state),
        expects(state.phase, input),
        0 <= i < state.joined.len(),
        state.joined[i].topic != state.user_topic,
        !(state.phase matches PhaseView::Joining { topic, .. } && topic == state.joined[i].topic),
    ensures
        i < next(state, input).0.joined.len(),
        next(state, input).0.joined[i].presence == state.joined[i].presence,
{
    match (state.phase, input) {
        (PhaseView::JoiningUser { .. }, _) => lemma_place_of(state.joined, state.user_topic),
        (PhaseView::Joining { topic, .. }, _) => lemma_place_of(state.joined, topic),
        _ => {},
    }
}

/// A join that was sent on command is remembered with what it said of
/// presence; one that could not be sent changes nothing.
pub proof fn a_join_that_was_sent_is_remembered(
    state: SessionView,
    topic: Seq<char>,
    presence: bool,
    sent: bool,
)
    requires
        is_sound(state),
        state.phase is Live,
    ensures
        ({
            let asked = next(
                state,
                InputView::Command(CommandView::JoinTopic { topic, presence }),
            );
            let (after, events, action) = next(asked.0, InputView::Sent(sent));
            &&& events.len() == 0
            &&& action is Listen
            &&& !sent ==> after.joined == state.joined
            &&& sent ==> exists|i: int|
                0 <= i < after.joined.len() && (#[trigger] after.joined[i]).topic == topic
                    && after.joined[i].presence == presence && asked.2 == ActionView::Send(
                    join_frame(topic, presence, after.joined[i].join_ref),
                )
        }),
{
    let asked = next(state, InputView::Command(CommandView::JoinTopic { topic, presence }));
    let entry = JoinedView { topic, join_ref: decimal(state.refs + 1), presence };
    lemma_place_with(state.joined, entry, topic);
    if sent {
        let after = next(asked.0, InputView::Sent(sent)).0;
        let at = place_of(after.joined, topic);
        lemma_place_of(after.joined, topic);
        assert(after.joined[at].topic == topic);
    }
}

/// A heartbeat belongs to no topic of its own: it goes out on the topic
/// `phoenix` and says nothing.
pub proof fn heartbeats_go_out_on_the_phoenix_topic(state: SessionView)
    requires
        state.phase is Live,
    ensures
        next(state, InputView::HeartbeatDue).2 matches ActionView::Send(frame) && frame.topic
            == "phoenix"@ && frame.event == "heartbeat"@ && frame.join_ref is None
            && frame.message_ref is Some && frame.payload == Tree::Object(Seq::empty()),
{
}

/// What ends a connection is reported, and the session rests, then connects
/// again: a connection that was live as lost, one that was not yet as coming.
pub proof fn lost_connections_are_reported(state: SessionView, input: InputView)
    requires
        expects(state.phase, input),
    ensures
        next(state, input).2 is Rest <==> (input is ConnectFailed || input is ConnectionLost || (
        input == InputView::Sent(false) && (state.phase is JoiningUser || state.phase is Beating))),
        next(state, input).2 is Rest ==> next(state, input).0.phase is Resting,
        input is ConnectFailed || (input == InputView::Sent(false) && state.phase is JoiningUser)
            ==> next(state, input).1 == seq![EventView::Reconnecting],
        input is ConnectionLost || (input == InputView::Sent(false) && state.phase is Beating)
            ==> next(state, input).1 == seq![EventView::Disconnected],
        input is Rested ==> next(state, input).2 is Connect && next(state, input).1.len() == 0,
{
}

/// The session stops when it is told to, or when nobody is left who could tell
/// it, and never otherwise.
pub proof fn only_a_shutdown_stops(state: SessionView, input: InputView)
    requires
        expects(state.phase, input),
    ensures
        next(state, input).2 is Stop <==> input is CommandsClosed || input == InputView::Command(
            CommandView::Shutdown,
        ),
{
}

/// Every frame that arrives is reported as it is, after anything else that it
/// means, and the session goes on listening.
pub proof fn every_frame_is_reported(state: SessionView, frame: Frame)
    requires
        state.phase is Live,
    ensures
        ({
            let (after, events, action) = next(state, InputView::Received(frame));
            &&& after == state
            &&& action is Listen
            &&& events.len() > 0
            &&& events.last() == EventView::Frame(frame)
            &&& forall|i: int|
                0 <= i < events.len() - 1 ==> #[trigger] events[i] is Connected
        }),
{
}

/// The reply that grants the join tells the version of the protocol, where it
/// gives one.
pub proof fn a_granted_join_tells_the_version(
    state: SessionView,
    frame: Frame,
    response: Tree,
    version: u32,
)
    requires
        state.phase is Live,
        grants_user_join(state, frame),
        member(frame.payload, "response"@) == Some(response),
        member(response, "protocol_version"@) == Some(
            Tree::Number(crate::json::Num::Whole(version as int)),
        ),
    ensures
        next(state, InputView::Received(frame)).1[0] == EventView::Connected(Some(version)),
{
    assert(version as int % 0x1_0000_0000 == version as int);
}

/// A session is connected by one kind of frame alone: the reply, with the
/// status `ok`, to the join of the user topic that was sent last.
pub proof fn only_the_reply_to_the_users_last_join_connects(
    user: Seq<char>,
    inputs: Seq<InputView>,
    frame: Frame,
)
    requires
        are_expected(user, inputs),
        state_after(user, inputs).phase is Live,
    ensures
        ({
            let topic = "grappa:user:"@ + user;
            let events = next(state_after(user, inputs), InputView::Received(frame)).1;
            let granted = frame.topic == topic && frame.event == "phx_reply"@ && member(
                frame.payload,
                "status"@,
            ) == Some(Tree::Text("ok"@)) && match last_join(user, inputs, topic) {
                Some(join) => frame.message_ref == join.join_ref,
                None => false,
            };
            &&& granted ==> events.len() == 2 && events[0] is Connected
            &&& !granted ==> events == seq![EventView::Frame(frame)]
        }),
{
    let topic = "grappa:user:"@ + user;
    lemma_history(user, inputs, topic);
    lemma_user_topic(user, inputs);
    let joined = state_after(user, inputs).joined;
    lemma_place_of(joined, topic);
}

/// A session keeps to its user.
proof fn lemma_user_topic(user: Seq<char>, inputs: Seq<InputView>)
    ensures
        state_after(user, inputs).user_topic == "grappa:user:"@ + user,
    decreases inputs.len(),
{
    if inputs.len() > 0 {
        lemma_user_topic(user, inputs.drop_last());
    }
}

/// Without a version in the reply, or with one that is no whole number, none
/// is told; of a larger one the lowest thirty-two bits are.
pub proof fn versions_are_cut_to_thirty_two_bits(payload: Tree, response: Tree, n: int)
    ensures
        member(payload, "response"@) is None ==> reply_version(payload) is None,
        member(payload, "response"@) == Some(response) && member(response, "protocol_version"@)
            is None ==> reply_version(payload) is None,
        member(payload, "response"@) == Some(response) && member(response, "protocol_version"@)
            == Some(Tree::Number(crate::json::Num::Whole(n))) && 0 <= n <= u64::MAX
            ==> reply_version(payload) is Some && reply_version(payload)->0 == n % 0x1_0000_0000,
{
}

/// A command asks for what it says.
pub proof fn a_command_asks_for_what_it_says(command: SessionCommand)
    ensures
        command matches SessionCommand::JoinTopic { topic, presence } ==> command@
            == (CommandView::JoinTopic {
                topic: topic@,
                presence,
            }),
        command matches SessionCommand::Send { topic, event, payload } ==> command@
            == (CommandView::Send {
                topic: topic@,
                event: event@,
                payload: payload@,
            }),
{
}

/// An event tells what it says.
pub proof fn an_event_tells_what_it_says(event: SessionEvent)
    ensures
        event matches SessionEvent::Connected { protocol_version } ==> event@ == (
        EventView::Connected(protocol_version)),
        event matches SessionEvent::Frame(message) ==> event@ == (EventView::Frame(message@)),
        event matches SessionEvent::Disconnected ==> event@ == (EventView::Disconnected),
{
}

/// An input is what happened.
pub proof fn an_input_is_what_happened(input: Input)
    ensures
        input matches Input::Connected ==> input@ == (InputView::Connected),
        input matches Input::ConnectFailed ==> input@ == (InputView::ConnectFailed),
        input matches Input::Sent(ok) ==> input@ == (InputView::Sent(ok)),
        input matches Input::Rested ==> input@ == (InputView::Rested),
        input matches Input::HeartbeatDue ==> input@ == (InputView::HeartbeatDue),
        input matches Input::Command(command) ==> input@ == (InputView::Command(command@)),
        input matches Input::CommandsClosed ==> input@ == (InputView::CommandsClosed),
        input matches Input::Received(message) ==> input@ == (InputView::Received(message@)),
{
}

/// An action is what to do.
pub proof fn an_action_is_what_to_do(action: Action)
    ensures
        action matches Action::Connect ==> action@ == (ActionView::Connect),
        action matches Action::Send(message) ==> action@ == (ActionView::Send(message@)),
        action matches Action::Rest ==> action@ == (ActionView::Rest),
        action matches Action::Listen ==> action@ == (ActionView::Listen),
{
}

/// A heartbeat is due every half minute, and a lost connection is tried again
/// after a sixth of that.
pub proof fn connections_are_tried_again_soon()
    ensures
        HEARTBEAT_INTERVAL == 30,
        HEARTBEAT_INTERVAL == 6 * RECONNECT_DELAY,
{
}

} // verus!
