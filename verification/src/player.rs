//! The integrated radio player, as far as it decides anything: how the bytes
//! of a stream are handed to the decoder, and decoded blocks to the output.
//!
//! Three threads serve a tuned station: the network thread reads the stream
//! (splitting off ICY titles), the decoder thread turns bytes into samples,
//! and the output pulls those samples, playing silence rather than blocking
//! when the network falls behind.

use vstd::prelude::*;

use crate::radio::IcyChunk;

verus! {

/// What the player reports.
#[derive(Debug, Clone, PartialEq, Eq)]
pub enum PlayerEvent {
    Playing,
    /// A track title carried by the stream itself (ICY metadata).
    Title(String),
    /// The stream couldn't be opened, decoded or played.
    Failed(String),
    /// The server ended the stream.
    Ended,
}

/// Stream bytes buffered between the network and the decoder (chunks as the
/// server sends them), and decoded sample blocks between the decoder and the
/// output: a few seconds each, so a slow network or a busy decoder holds the
/// other back instead of growing memory.
pub const BYTE_CHUNKS: usize = 256;

pub const SAMPLE_BLOCKS: usize = 64;

/// Frames per decoded block handed to the output.
pub const BLOCK_FRAMES: usize = 1024;

/// What is reported when decoding or reading fails: nothing, once the
/// listener has tuned away.
pub open spec fn failure_event(text: String, cancelled: bool) -> Option<PlayerEvent> {
    if cancelled {
        None
    } else {
        Some(PlayerEvent::Failed(text))
    }
}

/// What is reported of a failure, if anything.
pub fn report_failure(text: String, cancelled: bool) -> (event: Option<PlayerEvent>)
    ensures
        event == failure_event(text, cancelled),
{
    if cancelled {
        None
    } else {
        Some(PlayerEvent::Failed(text))
    }
}

/// What happened to the network side of a station.
#[derive(Debug)]
pub enum FeedInput {
    /// The stream was opened.
    Opened,
    OpenFailed(String),
    /// The next part of the stream.
    Chunks(Vec<IcyChunk>),
    /// The server ended the stream.
    Ended,
    Failed(String),
    /// The decoder took the audio, or is gone.
    Handed(bool),
    /// An event was reported.
    Reported,
}

/// What the network side of a station does next.
#[derive(Debug)]
pub enum FeedAction {
    /// Read on.
    Read,
    /// Hand audio to the decoder.
    Hand(Vec<u8>),
    Report(PlayerEvent),
    /// Report this last event, and stop.
    Finish(PlayerEvent),
    Stop,
}

/// The network side of a tuned station: the chunks that were read and not
/// handed on yet.
#[derive(Debug)]
pub struct StationFeed {
    pub pending: Vec<IcyChunk>,
}

/// What is done about the first of the chunks; without any the stream is read
/// on, unless the listener has tuned away.
pub open spec fn feed_next(pending: Seq<IcyChunk>, cancelled: bool) -> (
    Seq<IcyChunk>,
    FeedAction,
) {
    if pending.len() > 0 {
        (
            pending.skip(1),
            match pending[0] {
                IcyChunk::Audio(audio) => FeedAction::Hand(audio),
                IcyChunk::Title(title) => FeedAction::Report(PlayerEvent::Title(title)),
            },
        )
    } else if cancelled {
        (pending, FeedAction::Stop)
    } else {
        (pending, FeedAction::Read)
    }
}

/// What follows an input: the chunks that are left, and what to do.
pub open spec fn feed_step(pending: Seq<IcyChunk>, input: FeedInput, cancelled: bool) -> (
    Seq<IcyChunk>,
    FeedAction,
) {
    match input {
        FeedInput::Opened => feed_next(pending, cancelled),
        FeedInput::OpenFailed(text) => (pending, FeedAction::Finish(PlayerEvent::Failed(text))),
        FeedInput::Chunks(chunks) => feed_next(chunks@, cancelled),
        FeedInput::Ended => (pending, FeedAction::Finish(PlayerEvent::Ended)),
        FeedInput::Failed(text) => (
            pending,
            match failure_event(text, cancelled) {
                Some(event) => FeedAction::Finish(event),
                None => FeedAction::Stop,
            },
        ),
        FeedInput::Handed(taken) => if taken {
            feed_next(pending, cancelled)
        } else {
            (pending, FeedAction::Stop)
        },
        FeedInput::Reported => feed_next(pending, cancelled),
    }
}

impl StationFeed {
    pub fn new() -> (feed: Self)
        ensures
            feed.pending@ == Seq::<IcyChunk>::empty(),
    {
        StationFeed { pending: Vec::new() }
    }

    fn next(&mut self, cancelled: bool) -> (action: FeedAction)
        ensures
            (final(self).pending@, action) == feed_next(old(self).pending@, cancelled),
    {
        if self.pending.len() > 0 {
            let chunk = self.pending.remove(0);
            assert(self.pending@ =~= old(self).pending@.skip(1));
            match chunk {
                IcyChunk::Audio(audio) => FeedAction::Hand(audio),
                IcyChunk::Title(title) => FeedAction::Report(PlayerEvent::Title(title)),
            }
        } else if cancelled {
            FeedAction::Stop
        } else {
            FeedAction::Read
        }
    }

    /// Goes on with what happened; `cancelled` is whether the listener has
    /// tuned away.
    pub fn step(&mut self, input: FeedInput, cancelled: bool) -> (action: FeedAction)
        ensures
            (final(self).pending@, action) == feed_step(old(self).pending@, input, cancelled),
    {
        match input {
            FeedInput::Opened => self.next(cancelled),
            FeedInput::OpenFailed(text) => FeedAction::Finish(PlayerEvent::Failed(text)),
            FeedInput::Chunks(chunks) => {
                self.pending = chunks;
                self.next(cancelled)
            },
            FeedInput::Ended => FeedAction::Finish(PlayerEvent::Ended),
            FeedInput::Failed(text) => match report_failure(text, cancelled) {
                Some(event) => FeedAction::Finish(event),
                None => FeedAction::Stop,
            },
            FeedInput::Handed(taken) => if taken {
                self.next(cancelled)
            } else {
                FeedAction::Stop
            },
            FeedInput::Reported => self.next(cancelled),
        }
    }
}

/// Nothing that was read is left out or comes out of order: what an input
/// leaves begins where the action ends.
pub proof fn chunks_are_handed_on_in_order(
    pending: Seq<IcyChunk>,
    cancelled: bool,
)
    requires
        pending.len() > 0,
    ensures
        ({
            let (left, action) = feed_next(pending, cancelled);
            left == pending.skip(1) && match pending[0] {
                IcyChunk::Audio(audio) => action == FeedAction::Hand(audio),
                IcyChunk::Title(title) => action == FeedAction::Report(PlayerEvent::Title(title)),
            }
        }),
{
}

/// A station to tune: its stream, the decoder's format hint (`mp3` or `ogg`),
/// and the number that names the tune.
#[derive(Debug)]
pub struct Station {
    pub url: String,
    pub hint: &'static str,
    pub generation: u64,
}

/// What the audio thread hears.
#[derive(Debug)]
pub enum TunerInput<V> {
    Play(Station),
    Stop,
    Volume(V),
    /// The output device was opened for a station, or not, for the reason
    /// given.
    Opened(Station, Option<String>),
}

/// What the audio thread does.
#[derive(Debug)]
pub enum TunerAction<V> {
    /// Open the output device, for a station.
    Open(Station),
    /// Play a station at a volume.
    Start(Station, V),
    /// Change the volume of the station that plays.
    SetVolume(V),
    /// Report an event of the tune of that number.
    Report(u64, PlayerEvent),
    Nothing,
}

/// What an input comes to: whether the station that plays is stopped, and what
/// is done then.
#[derive(Debug)]
pub struct TunerStep<V> {
    pub stop: bool,
    pub action: TunerAction<V>,
}

/// The audio thread, which owns the output device. `V` is a volume.
#[derive(Debug)]
pub struct Tuner<V> {
    /// The output device is open: it is opened for the first station.
    pub open: bool,
    /// A station plays.
    pub playing: bool,
    /// The volume that stations begin with.
    pub volume: V,
}

/// What follows an input. Another station is stopped before one is tuned, and
/// the volume holds for the stations to come.
pub open spec fn tuner_step<V>(tuner: Tuner<V>, input: TunerInput<V>) -> (Tuner<V>, TunerStep<V>) {
    match input {
        TunerInput::Play(station) => if tuner.open {
            (
                Tuner { playing: true, ..tuner },
                TunerStep {
                    stop: tuner.playing,
                    action: TunerAction::Start(station, tuner.volume),
                },
            )
        } else {
            (
                Tuner { playing: false, ..tuner },
                TunerStep { stop: tuner.playing, action: TunerAction::Open(station) },
            )
        },
        TunerInput::Stop => (
            Tuner { playing: false, ..tuner },
            TunerStep { stop: tuner.playing, action: TunerAction::Nothing },
        ),
        TunerInput::Volume(volume) => (
            Tuner { volume, ..tuner },
            TunerStep {
                stop: false,
                action: if tuner.playing {
                    TunerAction::SetVolume(volume)
                } else {
                    TunerAction::Nothing
                },
            },
        ),
        TunerInput::Opened(station, None) => (
            Tuner { open: true, playing: true, ..tuner },
            TunerStep {
                stop: tuner.playing,
                action: TunerAction::Start(station, tuner.volume),
            },
        ),
        TunerInput::Opened(station, Some(reason)) => (
            tuner,
            TunerStep {
                stop: false,
                action: TunerAction::Report(station.generation, PlayerEvent::Failed(reason)),
            },
        ),
    }
}

impl<V: Copy> Tuner<V> {
    pub fn new(volume: V) -> (tuner: Self)
        ensures
            tuner == (Tuner { open: false, playing: false, volume }),
    {
        Tuner { open: false, playing: false, volume }
    }

    /// Goes on with what the thread heard.
    pub fn step(&mut self, input: TunerInput<V>) -> (step: TunerStep<V>)
        ensures
            (*final(self), step) == tuner_step(*old(self), input),
    {
        let was_playing = self.playing;
        match input {
            TunerInput::Play(station) => if self.open {
                self.playing = true;
                TunerStep { stop: was_playing, action: TunerAction::Start(station, self.volume) }
            } else {
                self.playing = false;
                TunerStep { stop: was_playing, action: TunerAction::Open(station) }
            },
            TunerInput::Stop => {
                self.playing = false;
                TunerStep { stop: was_playing, action: TunerAction::Nothing }
            },
            TunerInput::Volume(volume) => {
                self.volume = volume;
                let action = if was_playing {
                    TunerAction::SetVolume(volume)
                } else {
                    TunerAction::Nothing
                };
                TunerStep { stop: false, action }
            },
            TunerInput::Opened(station, failure) => match failure {
                None => {
                    self.open = true;
                    self.playing = true;
                    TunerStep {
                        stop: was_playing,
                        action: TunerAction::Start(station, self.volume),
                    }
                },
                Some(reason) => TunerStep {
                    stop: false,
                    action: TunerAction::Report(station.generation, PlayerEvent::Failed(reason)),
                },
            },
        }
    }
}

/// One station plays at a time: where one is started, the one that played
/// before is stopped.
pub proof fn one_station_plays_at_a_time<V>(tuner: Tuner<V>, input: TunerInput<V>)
    ensures
        ({
            let (after, step) = tuner_step(tuner, input);
            &&& step.action is Start ==> step.stop == tuner.playing && after.playing
            &&& after.playing ==> step.action is Start || (tuner.playing && !step.stop)
        }),
{
}

/// A station begins at the volume that was set last.
pub proof fn stations_begin_at_the_volume_set<V>(tuner: Tuner<V>, volume: V, station: Station)
    requires
        tuner.open,
    ensures
        ({
            let (louder, _) = tuner_step(tuner, TunerInput::Volume(volume));
            let (_, step) = tuner_step(louder, TunerInput::Play(station));
            step.action == TunerAction::Start(station, volume)
        }),
{
}

/// Where a decoder asks to go.
#[derive(Debug, Clone, Copy, PartialEq, Eq, Structural)]
pub enum SeekPoint {
    Start(u64),
    End(i64),
    Current(i64),
}

/// The stream's bytes as the decoder reads them. They can't be sought; the
/// decoder is told so, and only asks where it is.
#[derive(Debug)]
pub struct StreamReader {
    current: Vec<u8>,
    offset: usize,
    position: u64,
}

impl StreamReader {
    /// The bytes that came in and were not read yet.
    pub closed spec fn pending(&self) -> Seq<u8> {
        self.current@.skip(self.offset as int)
    }

    /// The bytes that were read so far.
    pub closed spec fn place(&self) -> nat {
        self.position as nat
    }

    #[verifier::type_invariant]
    spec fn is_sound(&self) -> bool {
        self.offset <= self.current@.len()
    }

    pub fn new() -> (reader: Self)
        ensures
            reader.pending() == Seq::<u8>::empty(),
            reader.place() == 0,
    {
        let reader = StreamReader { current: Vec::new(), offset: 0, position: 0 };
        assert(reader.pending() =~= Seq::empty());
        reader
    }

    /// Whether a chunk is needed before anything can be read.
    pub fn is_empty(&self) -> (empty: bool)
        ensures
            empty == (self.pending().len() == 0),
    {
        proof {
            use_type_invariant(self);
        }
        self.offset >= self.current.len()
    }

    /// Takes in the next chunk of the stream.
    pub fn feed(&mut self, chunk: Vec<u8>)
        requires
            old(self).pending().len() == 0,
        ensures
            final(self).pending() == chunk@,
            final(self).place() == old(self).place(),
    {
        *self = StreamReader { current: chunk, offset: 0, position: self.position };
        assert(self.pending() =~= chunk@);
    }

    /// Reads into `buf` as much as it holds, or as there is, and says how
    /// much that was.
    pub fn read(&mut self, buf: &mut [u8]) -> (count: usize)
        requires
            old(self).place() + old(buf)@.len() <= u64::MAX,
        ensures
            count == if old(buf)@.len() <= old(self).pending().len() {
                old(buf)@.len()
            } else {
                old(self).pending().len()
            },
            final(buf)@ == old(self).pending().take(count as int) + old(buf)@.skip(count as int),
            final(self).pending() == old(self).pending().skip(count as int),
            final(self).place() == old(self).place() + count,
    {
        proof {
            use_type_invariant(&*self);
        }
        let ghost pending = self.pending();
        let ghost before = buf@;
        let left: usize = self.current.len() - self.offset;
        let count: usize = if buf.len() <= left {
            buf.len()
        } else {
            left
        };
        let offset: usize = self.offset;
        let mut i: usize = 0;
        while i < count
            invariant
                i <= count <= before.len(),
                buf@.len() == before.len(),
                offset + count <= self.current.len(),
                forall|j: int| 0 <= j < i ==> #[trigger] buf@[j] == self.current@[offset + j],
                forall|j: int| i <= j < before.len() ==> #[trigger] buf@[j] == before[j],
            decreases count - i,
        {
            buf[i] = self.current[offset + i];
            i += 1;
        }
        assert(buf@ =~= pending.take(count as int) + before.skip(count as int));
        let position: u64 = self.position + count as u64;
        self.offset = offset + count;
        self.position = position;
        assert(self.pending() =~= pending.skip(count as int));
        count
    }

    /// How many bytes were read, when that is what is asked; anything else
    /// is a seek, which a live stream can't do.
    pub fn seek(&self, point: SeekPoint) -> (position: Option<u64>)
        ensures
            match position {
                Some(position) => point == SeekPoint::Current(0) && position == self.place(),
                None => point != SeekPoint::Current(0),
            },
    {
        match point {
            SeekPoint::Current(offset) => if offset == 0 {
                Some(self.position)
            } else {
                None
            },
            _ => None,
        }
    }
}

/// Samples of a block: whole frames.
pub fn block_len(channels: u16) -> (len: usize)
    ensures
        len == 1024 * channels,
{
    BLOCK_FRAMES * (channels as usize)
}

/// Decoded samples on their way into blocks of whole frames.
#[derive(Debug)]
pub struct BlockBuilder<T> {
    pub block: Vec<T>,
    pub len: usize,
}

impl<T> BlockBuilder<T> {
    /// Whether more is wanted for the block.
    pub open spec fn is_open(&self) -> bool {
        self.block@.len() < self.len
    }

    pub fn new(channels: u16) -> (builder: Self)
        requires
            channels > 0,
        ensures
            builder.block@ == Seq::<T>::empty(),
            builder.len == 1024 * channels,
            builder.is_open(),
    {
        BlockBuilder { block: Vec::new(), len: block_len(channels) }
    }

    /// Adds a sample, and gives the block once it is full.
    pub fn push(&mut self, sample: T) -> (full: Option<Vec<T>>)
        requires
            old(self).is_open(),
        ensures
            final(self).len == old(self).len,
            final(self).is_open(),
            match full {
                Some(block) => block@ == old(self).block@.push(sample) && block@.len()
                    == old(self).len && final(self).block@ == Seq::<T>::empty(),
                None => final(self).block@ == old(self).block@.push(sample)
                    && old(self).block@.len() + 1 < old(self).len,
            },
    {
        let mut block: Vec<T> = Vec::new();
        std::mem::swap(&mut block, &mut self.block);
        block.push(sample);
        if block.len() == self.len {
            Some(block)
        } else {
            self.block = block;
            None
        }
    }
}

/// What the output plays next.
#[derive(Debug, Clone, Copy, PartialEq, Eq, Structural)]
pub enum Playback<T> {
    Silence,
    Sample(T),
    /// Nothing is left: the next block is wanted.
    Wanting,
}

/// Decoded blocks on their way to the output. When the decoder falls behind
/// a frame of silence is played instead of waiting, so the output never
/// stalls; blocks are whole frames, so channels stay aligned.
#[derive(Debug)]
pub struct LiveSource<T> {
    pub block: Vec<T>,
    pub offset: usize,
    pub silence_left: usize,
    pub channels: u16,
}

impl<T: Copy> LiveSource<T> {
    pub open spec fn is_sound(&self) -> bool {
        self.offset <= self.block@.len()
    }

    /// The samples of the block that were not played yet.
    pub open spec fn rest(&self) -> Seq<T> {
        self.block@.skip(self.offset as int)
    }

    /// What is played before the next block is wanted.
    pub open spec fn due(&self) -> nat {
        self.silence_left as nat + self.rest().len()
    }

    pub fn new(channels: u16) -> (source: Self)
        ensures
            source.is_sound(),
            source.due() == 0,
            source.channels == channels,
    {
        LiveSource { block: Vec::new(), offset: 0, silence_left: 0, channels }
    }

    /// Plays silence first, then the block.
    pub fn next(&mut self) -> (playback: Playback<T>)
        requires
            old(self).is_sound(),
        ensures
            final(self).is_sound(),
            final(self).channels == old(self).channels,
            match playback {
                Playback::Silence => old(self).silence_left > 0 && final(self).silence_left
                    == old(self).silence_left - 1 && final(self).rest() == old(self).rest(),
                Playback::Sample(sample) => old(self).silence_left == 0
                    && old(self).rest().len() > 0 && sample == old(self).rest()[0]
                    && final(self).silence_left == 0 && final(self).rest()
                    == old(self).rest().skip(1),
                Playback::Wanting => old(self).due() == 0 && final(self).due() == 0,
            },
    {
        if self.silence_left > 0 {
            self.silence_left = self.silence_left - 1;
            return Playback::Silence;
        }
        if self.offset < self.block.len() {
            let sample = self.block[self.offset];
            self.offset = self.offset + 1;
            assert(self.rest() =~= old(self).rest().skip(1));
            return Playback::Sample(sample);
        }
        Playback::Wanting
    }

    /// Takes the next block, or a frame of silence in its place where none
    /// has come yet.
    pub fn arrive(&mut self, block: Option<Vec<T>>)
        requires
            old(self).is_sound(),
            old(self).due() == 0,
        ensures
            final(self).is_sound(),
            final(self).channels == old(self).channels,
            match block {
                Some(block) => final(self).rest() == block@ && final(self).silence_left == 0,
                None => final(self).rest() == Seq::<T>::empty() && final(self).silence_left
                    == old(self).channels,
            },
    {
        match block {
            Some(block) => {
                self.block = block;
                self.offset = 0;
                assert(self.rest() =~= self.block@);
            },
            None => {
                self.silence_left = self.channels as usize;
                assert(self.rest() =~= Seq::empty());
            },
        }
    }
}

/// Whether what was played and what is due make whole frames together.
pub open spec fn is_aligned(played: int, due: int, channels: int) -> bool {
    (played + due) % channels == 0
}

/// Channels stay aligned: playing what is due keeps whole frames whole, and
/// where the next block is wanted, whole frames were played; a block of whole
/// frames, or a silent frame in its place, begins at the beginning of a
/// frame.
pub proof fn channels_stay_aligned(played: int, due: int, channels: int, frames: int)
    requires
        channels > 0,
        is_aligned(played, due, channels),
    ensures
        due > 0 ==> is_aligned(played + 1, due - 1, channels),
        due == 0 ==> played % channels == 0,
        due == 0 ==> is_aligned(played, frames * channels, channels),
        due == 0 ==> is_aligned(played, channels, channels),
{
    if due == 0 {
        vstd::arithmetic::div_mod::lemma_mod_multiples_vanish(frames, played, channels);
        assert(channels * frames == frames * channels) by (nonlinear_arith);
        vstd::arithmetic::div_mod::lemma_mod_multiples_vanish(1, played, channels);
    }
}

/// What was read is handed on piece by piece, audio to the decoder and titles
/// to the listener, before anything more is read; then the stream is read on,
/// unless the listener has tuned away.
pub proof fn a_feed_reads_on_when_all_is_handed_on(
    pending: Seq<IcyChunk>,
    chunks: Vec<IcyChunk>,
    audio: Vec<u8>,
    title: String,
    cancelled: bool,
)
    ensures
        chunks@.len() > 0 && chunks@[0] == IcyChunk::Audio(audio) ==> feed_step(
            pending,
            FeedInput::Chunks(chunks),
            cancelled,
        ) == (chunks@.subrange(1, chunks@.len() as int), FeedAction::Hand(audio)),
        chunks@.len() > 0 && chunks@[0] == IcyChunk::Title(title) ==> feed_step(
            pending,
            FeedInput::Chunks(chunks),
            cancelled,
        ) == (
            chunks@.subrange(1, chunks@.len() as int),
            FeedAction::Report(PlayerEvent::Title(title)),
        ),
        pending.len() > 0 && pending[0] == IcyChunk::Audio(audio) ==> {
            let next = (pending.subrange(1, pending.len() as int), FeedAction::Hand(audio));
            &&& feed_step(pending, FeedInput::Handed(true), cancelled) == next
            &&& feed_step(pending, FeedInput::Reported, cancelled) == next
        },
        pending.len() > 0 && pending[0] == IcyChunk::Title(title) ==> {
            let next = (
                pending.subrange(1, pending.len() as int),
                FeedAction::Report(PlayerEvent::Title(title)),
            );
            &&& feed_step(pending, FeedInput::Handed(true), cancelled) == next
            &&& feed_step(pending, FeedInput::Reported, cancelled) == next
        },
        pending.len() == 0 ==> {
            let next = (
                pending,
                if cancelled {
                    FeedAction::Stop
                } else {
                    FeedAction::Read
                },
            );
            &&& feed_step(pending, FeedInput::Opened, cancelled) == next
            &&& feed_step(pending, FeedInput::Handed(true), cancelled) == next
            &&& feed_step(pending, FeedInput::Reported, cancelled) == next
        },
{
    assert(chunks@.len() > 0 ==> chunks@.skip(1) =~= chunks@.subrange(1, chunks@.len() as int));
    assert(pending.len() > 0 ==> pending.skip(1) =~= pending.subrange(1, pending.len() as int));
}

/// A feed ends with the stream, with its failure, or without the decoder: the
/// end and a failure are reported, the failure not once the listener has tuned
/// away, except where the stream could not be opened.
pub proof fn a_feed_ends_with_its_stream(pending: Seq<IcyChunk>, reason: String, cancelled: bool)
    ensures
        feed_step(pending, FeedInput::Ended, cancelled).1 == FeedAction::Finish(
            PlayerEvent::Ended,
        ),
        feed_step(pending, FeedInput::OpenFailed(reason), cancelled).1 == FeedAction::Finish(
            PlayerEvent::Failed(reason),
        ),
        feed_step(pending, FeedInput::Failed(reason), false).1 == FeedAction::Finish(
            PlayerEvent::Failed(reason),
        ),
        feed_step(pending, FeedInput::Failed(reason), true).1 == FeedAction::Stop,
        feed_step(pending, FeedInput::Handed(false), cancelled).1 == FeedAction::Stop,
        failure_event(reason, false) == Some(PlayerEvent::Failed(reason)),
        failure_event(reason, true) is None,
{
}

/// The output is opened for the first station and stays open; what was asked
/// to be tuned is tuned, and a failure is reported for the tune that it is of.
pub proof fn the_output_is_opened_once<V>(
    tuner: Tuner<V>,
    station: Station,
    volume: V,
    reason: String,
)
    ensures
        ({
            let (next, step) = tuner_step(tuner, TunerInput::Play(station));
            &&& next.open == tuner.open
            &&& next.volume == tuner.volume
            &&& next.playing == tuner.open
            &&& step.stop == tuner.playing
            &&& step.action == if tuner.open {
                TunerAction::Start(station, tuner.volume)
            } else {
                TunerAction::Open(station)
            }
        }),
        ({
            let (next, step) = tuner_step(tuner, TunerInput::Opened(station, None));
            &&& next.open && next.playing
            &&& next.volume == tuner.volume
            &&& step.stop == tuner.playing
            &&& step.action == TunerAction::Start(station, tuner.volume)
        }),
        ({
            let (next, step) = tuner_step(tuner, TunerInput::Opened(station, Some(reason)));
            &&& next == tuner
            &&& !step.stop
            &&& step.action == TunerAction::<V>::Report(
                station.generation,
                PlayerEvent::Failed(reason),
            )
        }),
        ({
            let (next, step) = tuner_step(tuner, TunerInput::Stop);
            &&& !next.playing
            &&& next.open == tuner.open
            &&& next.volume == tuner.volume
            &&& step.stop == tuner.playing
            &&& step.action == TunerAction::<V>::Nothing
        }),
        ({
            let (next, step) = tuner_step(tuner, TunerInput::Volume(volume));
            &&& next.volume == volume
            &&& next.open == tuner.open
            &&& next.playing == tuner.playing
            &&& !step.stop
            &&& step.action == if tuner.playing {
                TunerAction::SetVolume(volume)
            } else {
                TunerAction::Nothing
            }
        }),
{
}

} // verus!
