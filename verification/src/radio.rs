//! Internet radio streams for the integrated player: Shoutcast/Icecast (ICY)
//! metadata split from the audio, the feeds that tell what is playing, and the
//! playlist files stations publish.

use vstd::prelude::*;
use vstd::utf8::{decode_utf8, valid_utf8};

use crate::address::{opt_url, parse_url, url_parts, UrlView, WebUrl};
use crate::decimal::{parse_unsigned, read_unsigned};
use crate::json::{
    as_text, lemma_array_tree, member, member_of, opt_tree, trees, Json, Tree,
};
use crate::split::{
    begins_with_text, ends_with_text, find, index_of, lemma_find, lemma_find_is, position_of,
    same_text, split_on, split_text, stands_at, texts,
};
use crate::text::{
    chars_of, end_index_where, first_where, head, index_where, lemma_end_where,
    lemma_end_where_is, lemma_first_where, lemma_first_where_is, letter_case_is_that_of_ascii,
    letter_case_keeps_places, lowercase, lowered, opt, skip_trailing, string_of, tail, trim,
    trimmed,
};

verus! {

/// A stream's audio codec, which the player decodes.
#[derive(Debug, Clone, Copy, PartialEq, Eq, Structural)]
pub enum RadioCodec {
    Mp3,
    Vorbis,
}

impl RadioCodec {
    /// The file extension hint the decoder is given.
    pub fn extension(self) -> (extension: &'static str)
        ensures
            extension@ == match self {
                RadioCodec::Mp3 => "mp3"@,
                RadioCodec::Vorbis => "ogg"@,
            },
    {
        match self {
            RadioCodec::Mp3 => "mp3",
            RadioCodec::Vorbis => "ogg",
        }
    }

    pub fn label(self) -> (label: &'static str)
        ensures
            label@ == match self {
                RadioCodec::Mp3 => "MP3"@,
                RadioCodec::Vorbis => "Ogg Vorbis"@,
            },
    {
        match self {
            RadioCodec::Mp3 => "MP3",
            RadioCodec::Vorbis => "Ogg Vorbis",
        }
    }
}

/// Where a station publishes its current track.
#[derive(Debug, Clone, Copy, PartialEq, Eq)]
pub enum NowPlayingSource {
    /// SomaFM's `songs/<id>.json`; the first song is the current one.
    SomaFm(&'static str),
    /// An Icecast `status-json.xsl`, read for the mount being streamed.
    IcecastStatus { url: &'static str, mount: &'static str },
}

/// What a [`NowPlayingSource`] says.
pub enum SourceView {
    SomaFm(Seq<char>),
    IcecastStatus { url: Seq<char>, mount: Seq<char> },
}

impl View for NowPlayingSource {
    type V = SourceView;

    open spec fn view(&self) -> SourceView {
        match *self {
            NowPlayingSource::SomaFm(url) => SourceView::SomaFm(url@),
            NowPlayingSource::IcecastStatus { url, mount } => SourceView::IcecastStatus {
                url: url@,
                mount: mount@,
            },
        }
    }
}

impl NowPlayingSource {
    /// The address of the feed.
    pub fn url(self) -> (url: &'static str)
        ensures
            url@ == match self@ {
                SourceView::SomaFm(url) => url,
                SourceView::IcecastStatus { url, .. } => url,
            },
    {
        match self {
            NowPlayingSource::SomaFm(url) => url,
            NowPlayingSource::IcecastStatus { url, .. } => url,
        }
    }
}

/// A station's current track; `artist` is `None` when the feed gives one
/// joined line.
#[derive(Debug, Clone, PartialEq, Eq)]
pub struct Track {
    pub artist: Option<String>,
    pub title: String,
}

/// What a [`Track`] says.
pub struct TrackView {
    pub artist: Option<Seq<char>>,
    pub title: Seq<char>,
}

impl View for Track {
    type V = TrackView;

    open spec fn view(&self) -> TrackView {
        TrackView { artist: opt(self.artist), title: self.title@ }
    }
}

pub open spec fn opt_track(track: Option<Track>) -> Option<TrackView> {
    match track {
        Some(track) => Some(track@),
        None => None,
    }
}

pub open spec fn track_label(track: TrackView) -> Seq<char> {
    match track.artist {
        Some(artist) => artist + " — "@ + track.title,
        None => track.title,
    }
}

impl Track {
    /// `Artist — Title`, or the title alone.
    pub fn label(&self) -> (label: String)
        ensures
            label@ == track_label(self@),
    {
        match &self.artist {
            Some(artist) => {
                let mut label = artist.clone();
                label.append(" — ");
                label.append(self.title.as_str());
                assert(label@ =~= artist@ + " — "@ + self.title@);
                label
            },
            None => self.title.clone(),
        }
    }
}

/// The `/np` action text.
pub fn now_playing_line(track: &Track, station: &str) -> (line: String)
    ensures
        line@ == "is now playing: "@ + track_label(track@) + " ["@ + station@ + "]"@,
{
    let mut line = String::new();
    line.append("is now playing: ");
    line.append(track.label().as_str());
    line.append(" [");
    line.append(station);
    line.append("]");
    assert(line@ =~= "is now playing: "@ + track_label(track@) + " ["@ + station@ + "]"@);
    line
}

/// How often the now-playing feed is read, in seconds.
pub const NOW_PLAYING_POLL_SECS: u64 = 60;

/// After how long without an answer the last track counts as stale.
pub const NOW_PLAYING_STALE_SECS: u64 = NOW_PLAYING_POLL_SECS * 3;

/// The trimmed text that a document is; empty when it is none.
pub open spec fn trimmed_text(tree: Option<Tree>) -> Seq<char> {
    match as_text(tree) {
        Some(text) => trim(text),
        None => Seq::empty(),
    }
}

fn trimmed_json(value: Option<&Json>) -> (text: String)
    ensures
        text@ == trimmed_text(opt_tree(value)),
{
    match value {
        Some(json) => match json.as_str() {
            Some(text) => {
                let chars = chars_of(text);
                string_of(trimmed(&chars))
            },
            None => String::new(),
        },
        None => String::new(),
    }
}

/// The first song of a SomaFM feed, where it has a title.
pub open spec fn somafm_track(body: Tree) -> Option<TrackView> {
    match member(body, "songs"@) {
        Some(Tree::Array(songs)) => {
            let title = trimmed_text(member(songs[0], "title"@));
            let artist = trimmed_text(member(songs[0], "artist"@));
            if songs.len() == 0 || title.len() == 0 {
                None
            } else {
                Some(
                    TrackView {
                        artist: if artist.len() == 0 {
                            None
                        } else {
                            Some(artist)
                        },
                        title,
                    },
                )
            }
        },
        _ => None,
    }
}

/// The first song of a SomaFM `songs/<id>.json` feed.
pub fn parse_somafm_songs(body: &Json) -> (track: Option<Track>)
    ensures
        opt_track(track) == somafm_track(body@),
{
    let songs = match body.get("songs") {
        Some(Json::Array(songs)) => songs,
        _ => {
            return None;
        },
    };
    proof {
        lemma_array_tree(*songs);
    }
    if songs.len() == 0 {
        return None;
    }
    assert(trees(songs@)[0] == songs@[0]@);
    let title = trimmed_json(songs[0].get("title"));
    if title.as_str().is_empty() {
        return None;
    }
    let artist = trimmed_json(songs[0].get("artist"));
    let artist = if artist.as_str().is_empty() {
        None
    } else {
        Some(artist)
    };
    Some(Track { artist, title })
}

/// Whether an address has that path.
pub open spec fn has_path(url: Option<UrlView>, path: Seq<char>) -> bool {
    url is Some && url->0.path == path
}

/// Whether an address has that path.
pub fn url_has_path(url: &Option<WebUrl>, path: &str) -> (yes: bool)
    ensures
        yes == has_path(opt_url(*url), path@),
{
    match url {
        Some(url) => same_text(url.path.as_str(), path),
        None => false,
    }
}

/// Whether a row of an Icecast status is the one of a mount.
pub open spec fn is_row_of(row: Tree, mount: Seq<char>) -> bool {
    has_path(url_parts(trimmed_text(member(row, "listenurl"@))), mount)
}

/// The first row of a mount.
pub open spec fn row_of(rows: Seq<Tree>, mount: Seq<char>) -> Option<Tree>
    decreases rows.len(),
{
    if rows.len() == 0 {
        None
    } else if is_row_of(rows[0], mount) {
        Some(rows[0])
    } else {
        row_of(rows.drop_first(), mount)
    }
}

/// The rows of an Icecast status: a single one stands alone.
pub open spec fn status_rows(sources: Tree) -> Seq<Tree> {
    match sources {
        Tree::Array(rows) => rows,
        single => seq![single],
    }
}

/// The track of a row, where it has a title.
pub open spec fn row_track(row: Option<Tree>) -> Option<TrackView> {
    match row {
        Some(row) => {
            let title = trimmed_text(member(row, "title"@));
            if title.len() == 0 {
                None
            } else {
                Some(TrackView { artist: None, title })
            }
        },
        None => None,
    }
}

pub open spec fn icecast_track(body: Tree, mount: Seq<char>) -> Option<TrackView> {
    match member_of(member(body, "icestats"@), "source"@) {
        Some(sources) => row_track(row_of(status_rows(sources), mount)),
        None => None,
    }
}

fn is_mount_row(row: &Json, mount: &str) -> (yes: bool)
    ensures
        yes == is_row_of(row@, mount@),
{
    let listen = trimmed_json(row.get("listenurl"));
    url_has_path(&parse_url(listen.as_str()), mount)
}

fn title_track(row: &Json) -> (track: Option<Track>)
    ensures
        opt_track(track) == row_track(Some(row@)),
{
    let title = trimmed_json(row.get("title"));
    if title.as_str().is_empty() {
        None
    } else {
        Some(Track { artist: None, title })
    }
}

/// The title of `mount` in an Icecast `status-json.xsl` document.
pub fn parse_icecast_status(body: &Json, mount: &str) -> (track: Option<Track>)
    ensures
        opt_track(track) == icecast_track(body@, mount@),
{
    let sources = match body.get("icestats") {
        Some(stats) => match stats.get("source") {
            Some(sources) => sources,
            None => {
                return None;
            },
        },
        None => {
            return None;
        },
    };
    match sources {
        Json::Array(rows) => {
            proof {
                lemma_array_tree(*rows);
            }
            let ghost all = trees(rows@);
            let mut i: usize = 0;
            assert(all.skip(0) =~= all);
            while i < rows.len()
                invariant
                    i <= rows@.len(),
                    all == trees(rows@),
                    row_of(all, mount@) == row_of(all.skip(i as int), mount@),
                    member_of(member(body@, "icestats"@), "source"@) == Some(Tree::Array(all)),
                decreases rows@.len() - i,
            {
                let ghost here = all.skip(i as int);
                assert(here[0] == rows@[i as int]@);
                assert(here.drop_first() =~= all.skip(i + 1));
                if is_mount_row(&rows[i], mount) {
                    return title_track(&rows[i]);
                }
                i += 1;
            }
            assert(all.skip(i as int) =~= Seq::empty());
            None
        },
        single => {
            assert(status_rows(single@) =~= seq![single@]);
            assert(status_rows(single@).drop_first() =~= Seq::empty());
            assert(row_of(status_rows(single@).drop_first(), mount@) is None);
            if is_mount_row(single, mount) {
                title_track(single)
            } else {
                None
            }
        },
    }
}

/// The track that a feed's document tells.
pub open spec fn feed_track(source: SourceView, body: Tree) -> Option<TrackView> {
    match source {
        SourceView::SomaFm(_) => somafm_track(body),
        SourceView::IcecastStatus { mount, .. } => icecast_track(body, mount),
    }
}

/// Reads the document of a station's now-playing feed; `None` for no usable
/// answer.
pub fn read_now_playing(source: NowPlayingSource, body: &Json) -> (track: Option<Track>)
    ensures
        opt_track(track) == feed_track(source@, body@),
{
    match source {
        NowPlayingSource::SomaFm(_) => parse_somafm_songs(body),
        NowPlayingSource::IcecastStatus { mount, .. } => parse_icecast_status(body, mount),
    }
}

/// The text that `String::from_utf8_lossy` makes of some bytes.
pub uninterp spec fn lossy_text(bytes: Seq<u8>) -> Seq<char>;

/// `String::from_utf8_lossy`: bytes that are text are that text; what stands
/// in for others is the function's business.
#[verifier::external_body]
fn from_utf8_lossy(bytes: &[u8]) -> (text: String)
    ensures
        text@ == lossy_text(bytes@),
        valid_utf8(bytes@) ==> text@ == decode_utf8(bytes@),
{
    String::from_utf8_lossy(bytes).into_owned()
}

/// The text of an ICY metadata block: what its bytes say, where they are text.
pub open spec fn block_text(meta: Seq<u8>) -> Seq<char> {
    if valid_utf8(meta) {
        decode_utf8(meta)
    } else {
        lossy_text(meta)
    }
}

/// The title in the text of an ICY metadata block: between `StreamTitle='` and
/// the next `';`, trimmed; `None` when it is empty or not there.
pub open spec fn title_in(text: Seq<char>) -> Option<Seq<char>> {
    let text = skip_trailing(text, |c: char| c == '\0');
    match find(text, "StreamTitle='"@) {
        Some(at) => {
            let rest = text.skip(at + "StreamTitle='"@.len());
            let title = trim(
                match find(rest, "';"@) {
                    Some(end) => rest.take(end),
                    None => rest,
                },
            );
            if title.len() == 0 {
                None
            } else {
                Some(title)
            }
        },
        None => None,
    }
}

fn is_not_nul(c: char) -> (yes: bool)
    ensures
        yes == (c != '\0'),
{
    c != '\0'
}

/// The title in the text of an ICY metadata block.
pub fn title_in_text(text: &str) -> (title: Option<String>)
    ensures
        opt(title) == title_in(text@),
{
    let chars = chars_of(text);
    let ghost nul = |c: char| c == '\0';
    let ghost kept = |c: char| !nul(c);
    let end = end_index_where(&chars, is_not_nul, Ghost(kept));
    let body = head(&chars, end);
    let at = match position_of(body, "StreamTitle='") {
        Some(at) => at,
        None => {
            return None;
        },
    };
    assert(body.len() == body@.len());
    let rest = tail(body, at + chars_of("StreamTitle='").len());
    let inner = match position_of(rest, "';") {
        Some(end) => head(rest, end),
        None => rest,
    };
    let title = trimmed(inner);
    if title.len() == 0 {
        None
    } else {
        Some(string_of(title))
    }
}

/// The `StreamTitle` of an ICY metadata block, if it has one.
pub fn stream_title(meta: &[u8]) -> (title: Option<String>)
    ensures
        opt(title) == title_in(block_text(meta@)),
{
    title_in_text(from_utf8_lossy(meta).as_str())
}

/// What an ICY stream carries: audio bytes, or a new track title.
#[derive(Debug, Clone, PartialEq, Eq)]
pub enum IcyChunk {
    Audio(Vec<u8>),
    Title(String),
}

/// What an [`IcyChunk`] says.
pub enum Piece {
    Audio(Seq<u8>),
    Title(Seq<char>),
}

impl View for IcyChunk {
    type V = Piece;

    open spec fn view(&self) -> Piece {
        match *self {
            IcyChunk::Audio(bytes) => Piece::Audio(bytes@),
            IcyChunk::Title(title) => Piece::Title(title@),
        }
    }
}

pub open spec fn pieces(chunks: Seq<IcyChunk>) -> Seq<Piece> {
    Seq::new(chunks.len(), |i: int| chunks[i]@)
}

/// Splits an ICY stream into audio and titles. With `icy-metaint: N` the
/// server sends N audio bytes, then one length byte (times 16) of
/// metadata such as `StreamTitle='Artist - Title';`, and so on. Without
/// the header everything is audio.
#[derive(Debug, Clone)]
pub struct IcyDemuxer {
    metaint: Option<usize>,
    until_meta: usize,
    meta_remaining: Option<usize>,
    meta: Vec<u8>,
}

/// Where a demuxer is in its stream.
pub enum Spot {
    /// So many audio bytes before the next length byte.
    Audio(nat),
    /// So many bytes before the end of a metadata block, and those before.
    Meta(nat, Seq<u8>),
}

/// What a demuxer remembers: the interval, if there is metadata at all, and
/// where it is.
pub struct IcyState {
    pub metaint: Option<nat>,
    pub spot: Spot,
}

impl View for IcyDemuxer {
    type V = IcyState;

    closed spec fn view(&self) -> IcyState {
        IcyState {
            metaint: match self.metaint {
                Some(n) => Some(n as nat),
                None => None,
            },
            spot: match self.meta_remaining {
                Some(n) => Spot::Meta(n as nat, self.meta@),
                None => Spot::Audio(self.until_meta as nat),
            },
        }
    }
}

/// The audio that is at hand, if any.
pub open spec fn at_hand(audio: Seq<u8>) -> Seq<Piece> {
    if audio.len() == 0 {
        Seq::empty()
    } else {
        seq![Piece::Audio(audio)]
    }
}

/// The title of a metadata block, if any.
pub open spec fn title_pieces(meta: Seq<u8>) -> Seq<Piece> {
    match title_in(block_text(meta)) {
        Some(title) => seq![Piece::Title(title)],
        None => Seq::empty(),
    }
}

/// Where a demuxer is after the bytes, and the pieces that it gives, the audio
/// at hand before them included.
pub open spec fn demux(
    metaint: nat,
    spot: Spot,
    bytes: Seq<u8>,
    audio: Seq<u8>,
) -> (Spot, Seq<Piece>)
    decreases bytes.len(),
{
    if bytes.len() == 0 {
        (spot, at_hand(audio))
    } else {
        let b = bytes[0];
        let rest = bytes.skip(1);
        match spot {
            Spot::Audio(left) => if left > 0 {
                demux(metaint, Spot::Audio((left - 1) as nat), rest, audio.push(b))
            } else if b == 0 {
                demux(metaint, Spot::Audio(metaint), rest, audio)
            } else {
                demux(metaint, Spot::Meta((b * 16) as nat, Seq::empty()), rest, audio)
            },
            Spot::Meta(left, meta) => if left > 1 {
                demux(metaint, Spot::Meta((left - 1) as nat, meta.push(b)), rest, audio)
            } else {
                let (end, behind) = demux(metaint, Spot::Audio(metaint), rest, Seq::empty());
                (end, at_hand(audio) + title_pieces(meta.push(b)) + behind)
            },
        }
    }
}

/// What a demuxer is and gives after the bytes.
pub open spec fn demuxed(state: IcyState, bytes: Seq<u8>) -> (IcyState, Seq<Piece>) {
    match state.metaint {
        None => (state, at_hand(bytes)),
        Some(metaint) => {
            let (spot, out) = demux(metaint, state.spot, bytes, Seq::empty());
            (IcyState { spot, ..state }, out)
        },
    }
}

impl IcyDemuxer {
    /// Whether a metadata block that is begun has bytes left, as it always
    /// has.
    pub closed spec fn is_sound(&self) -> bool {
        self.meta_remaining matches Some(n) ==> n > 0
    }

    /// A demuxer at the start of a stream; an interval of zero is none.
    pub fn new(metaint: Option<usize>) -> (demuxer: Self)
        ensures
            demuxer.is_sound(),
            demuxer@ == (match metaint {
                Some(n) => if n > 0 {
                    IcyState { metaint: Some(n as nat), spot: Spot::Audio(n as nat) }
                } else {
                    IcyState { metaint: None, spot: Spot::Audio(0) }
                },
                None => IcyState { metaint: None, spot: Spot::Audio(0) },
            }),
    {
        let (metaint, until_meta): (Option<usize>, usize) = match metaint {
            Some(n) => if n > 0 {
                (Some(n), n)
            } else {
                (None, 0)
            },
            None => (None, 0),
        };
        IcyDemuxer { metaint, until_meta, meta_remaining: None, meta: Vec::new() }
    }

    /// Feeds bytes as they arrive; audio comes out in order, with a title
    /// wherever a metadata block carried one.
    pub fn push(&mut self, bytes: &[u8]) -> (chunks: Vec<IcyChunk>)
        requires
            old(self).is_sound(),
        ensures
            final(self).is_sound(),
            (final(self)@, pieces(chunks@)) == demuxed(old(self)@, bytes@),
    {
        let mut chunks: Vec<IcyChunk> = Vec::new();
        let metaint: usize = match self.metaint {
            Some(metaint) => metaint,
            None => {
                if bytes.len() > 0 {
                    let mut audio: Vec<u8> = Vec::new();
                    audio.extend_from_slice(bytes);
                    assert(audio@ =~= bytes@);
                    chunks.push(IcyChunk::Audio(audio));
                }
                assert(pieces(chunks@) =~= at_hand(bytes@));
                return chunks;
            },
        };
        let ghost whole = demux(metaint as nat, self@.spot, bytes@, Seq::empty());
        let mut audio: Vec<u8> = Vec::new();
        let mut i: usize = 0;
        assert(bytes@.skip(0) =~= bytes@);
        assert(pieces(chunks@) + whole.1 =~= whole.1);
        while i < bytes.len()
            invariant
                i <= bytes@.len(),
                self.is_sound(),
                self.metaint == Some(metaint),
                old(self).metaint == Some(metaint),
                whole == demux(metaint as nat, old(self)@.spot, bytes@, Seq::empty()),
                ({
                    let (end, behind) = demux(
                        metaint as nat,
                        self@.spot,
                        bytes@.skip(i as int),
                        audio@,
                    );
                    whole == (end, pieces(chunks@) + behind)
                }),
            decreases bytes@.len() - i,
        {
            let b = bytes[i];
            let ghost here = bytes@.skip(i as int);
            let ghost before = pieces(chunks@);
            assert(here[0] == b);
            assert(here.skip(1) =~= bytes@.skip(i + 1));
            match self.meta_remaining {
                None => if self.until_meta > 0 {
                    audio.push(b);
                    self.until_meta = self.until_meta - 1;
                } else if b == 0 {
                    self.until_meta = metaint;
                } else {
                    self.meta_remaining = Some(b as usize * 16);
                    self.meta = Vec::new();
                },
                Some(remaining) => {
                    self.meta.push(b);
                    if remaining > 1 {
                        self.meta_remaining = Some(remaining - 1);
                    } else {
                        self.meta_remaining = None;
                        self.until_meta = metaint;
                        let ghost held = audio@;
                        if audio.len() > 0 {
                            let mut taken: Vec<u8> = Vec::new();
                            std::mem::swap(&mut taken, &mut audio);
                            chunks.push(IcyChunk::Audio(taken));
                        }
                        assert(pieces(chunks@) =~= before + at_hand(held));
                        let ghost between = pieces(chunks@);
                        if let Some(title) = stream_title(self.meta.as_slice()) {
                            chunks.push(IcyChunk::Title(title));
                        }
                        assert(pieces(chunks@) =~= between + title_pieces(self.meta@));
                        assert(audio@ =~= Seq::empty());
                        let ghost behind = demux(
                            metaint as nat,
                            Spot::Audio(metaint as nat),
                            here.skip(1),
                            Seq::empty(),
                        ).1;
                        assert(pieces(chunks@) + behind =~= before + (at_hand(held) + title_pieces(
                            self.meta@,
                        ) + behind));
                    }
                },
            }
            i += 1;
        }
        assert(bytes@.skip(i as int) =~= Seq::empty());
        let ghost before = pieces(chunks@);
        let ghost held = audio@;
        if audio.len() > 0 {
            chunks.push(IcyChunk::Audio(audio));
        }
        assert(pieces(chunks@) =~= before + at_hand(held));
        chunks
    }
}

/// What comes out of a stream, byte by byte.
pub enum Atom {
    Byte(u8),
    Title(Seq<char>),
}

pub open spec fn byte_atoms(bytes: Seq<u8>) -> Seq<Atom> {
    Seq::new(bytes.len(), |i: int| Atom::Byte(bytes[i]))
}

/// What pieces carry, whatever the audio is cut into.
pub open spec fn flat(pieces: Seq<Piece>) -> Seq<Atom>
    decreases pieces.len(),
{
    if pieces.len() == 0 {
        Seq::empty()
    } else {
        (match pieces[0] {
            Piece::Audio(bytes) => byte_atoms(bytes),
            Piece::Title(title) => seq![Atom::Title(title)],
        }) + flat(pieces.drop_first())
    }
}

proof fn lemma_flat_concat(a: Seq<Piece>, b: Seq<Piece>)
    ensures
        flat(a + b) == flat(a) + flat(b),
    decreases a.len(),
{
    if a.len() == 0 {
        assert(a + b =~= b);
        assert(flat(a + b) =~= flat(a) + flat(b));
    } else {
        lemma_flat_concat(a.drop_first(), b);
        assert((a + b).drop_first() =~= a.drop_first() + b);
        assert(flat(a + b) =~= flat(a) + flat(b));
    }
}

proof fn lemma_flat_at_hand(audio: Seq<u8>)
    ensures
        flat(at_hand(audio)) == byte_atoms(audio),
{
    if audio.len() > 0 {
        assert(at_hand(audio).drop_first() =~= Seq::empty());
        assert(flat(at_hand(audio).drop_first()) =~= Seq::empty());
    }
    assert(flat(at_hand(audio)) =~= byte_atoms(audio));
}

/// The audio at hand comes out first.
proof fn lemma_audio_first(metaint: nat, spot: Spot, bytes: Seq<u8>, audio: Seq<u8>, more: Seq<u8>)
    ensures
        demux(metaint, spot, bytes, audio + more).0 == demux(metaint, spot, bytes, more).0,
        flat(demux(metaint, spot, bytes, audio + more).1) == byte_atoms(audio) + flat(
            demux(metaint, spot, bytes, more).1,
        ),
    decreases bytes.len(),
{
    assert(byte_atoms(audio + more) =~= byte_atoms(audio) + byte_atoms(more));
    lemma_flat_at_hand(audio + more);
    lemma_flat_at_hand(more);
    if bytes.len() > 0 {
        let b = bytes[0];
        let rest = bytes.skip(1);
        match spot {
            Spot::Audio(left) => if left > 0 {
                assert((audio + more).push(b) =~= audio + more.push(b));
                lemma_audio_first(
                    metaint,
                    Spot::Audio((left - 1) as nat),
                    rest,
                    audio,
                    more.push(b),
                );
            } else if b == 0 {
                lemma_audio_first(metaint, Spot::Audio(metaint), rest, audio, more);
            } else {
                lemma_audio_first(
                    metaint,
                    Spot::Meta((b * 16) as nat, Seq::empty()),
                    rest,
                    audio,
                    more,
                );
            },
            Spot::Meta(left, meta) => if left > 1 {
                lemma_audio_first(
                    metaint,
                    Spot::Meta((left - 1) as nat, meta.push(b)),
                    rest,
                    audio,
                    more,
                );
            } else {
                let behind = demux(metaint, Spot::Audio(metaint), rest, Seq::empty()).1;
                let title = title_pieces(meta.push(b));
                lemma_flat_concat(at_hand(audio + more), title);
                lemma_flat_concat(at_hand(audio + more) + title, behind);
                lemma_flat_concat(at_hand(more), title);
                lemma_flat_concat(at_hand(more) + title, behind);
                assert(flat(demux(metaint, spot, bytes, audio + more).1) =~= byte_atoms(audio)
                    + flat(demux(metaint, spot, bytes, more).1));
            },
        }
    }
}

proof fn lemma_cut(metaint: nat, spot: Spot, a: Seq<u8>, b: Seq<u8>, audio: Seq<u8>)
    ensures
        ({
            let (mid, x) = demux(metaint, spot, a, audio);
            let (end, y) = demux(metaint, mid, b, Seq::empty());
            let (whole, z) = demux(metaint, spot, a + b, audio);
            whole == end && flat(z) == flat(x) + flat(y)
        }),
    decreases a.len(),
{
    if a.len() == 0 {
        assert(a + b =~= b);
        assert(audio + Seq::<u8>::empty() =~= audio);
        lemma_audio_first(metaint, spot, b, audio, Seq::empty());
        lemma_flat_at_hand(audio);
    } else {
        let c = a[0];
        let rest = a.skip(1);
        assert((a + b)[0] == c);
        assert((a + b).skip(1) =~= rest + b);
        match spot {
            Spot::Audio(left) => if left > 0 {
                lemma_cut(metaint, Spot::Audio((left - 1) as nat), rest, b, audio.push(c));
            } else if c == 0 {
                lemma_cut(metaint, Spot::Audio(metaint), rest, b, audio);
            } else {
                lemma_cut(metaint, Spot::Meta((c * 16) as nat, Seq::empty()), rest, b, audio);
            },
            Spot::Meta(left, meta) => if left > 1 {
                lemma_cut(metaint, Spot::Meta((left - 1) as nat, meta.push(c)), rest, b, audio);
            } else {
                lemma_cut(metaint, Spot::Audio(metaint), rest, b, Seq::empty());
                let before = at_hand(audio) + title_pieces(meta.push(c));
                let (mid, x) = demux(metaint, Spot::Audio(metaint), rest, Seq::empty());
                let (end, y) = demux(metaint, mid, b, Seq::empty());
                let (whole, z) = demux(metaint, Spot::Audio(metaint), rest + b, Seq::empty());
                lemma_flat_concat(before, x);
                lemma_flat_concat(before, z);
                assert(flat(before + z) =~= flat(before + x) + flat(y));
            },
        }
    }
}

/// How the network cuts a stream does not matter: fed in two parts, it carries
/// the same audio and titles, in the same order, as fed at once.
pub proof fn a_stream_may_be_cut_anywhere(state: IcyState, a: Seq<u8>, b: Seq<u8>)
    ensures
        ({
            let (mid, x) = demuxed(state, a);
            let (end, y) = demuxed(mid, b);
            let (whole, z) = demuxed(state, a + b);
            whole == end && flat(z) == flat(x) + flat(y)
        }),
{
    match state.metaint {
        Some(metaint) => {
            lemma_cut(metaint, state.spot, a, b, Seq::empty());
        },
        None => {
            lemma_flat_at_hand(a);
            lemma_flat_at_hand(b);
            lemma_flat_at_hand(a + b);
            assert(byte_atoms(a + b) =~= byte_atoms(a) + byte_atoms(b));
        },
    }
}

/// Without metadata every byte is audio.
pub proof fn without_an_interval_all_is_audio(state: IcyState, bytes: Seq<u8>)
    requires
        state.metaint is None,
    ensures
        flat(demuxed(state, bytes).1) == byte_atoms(bytes),
{
    lemma_flat_at_hand(bytes);
}

/// The interval between metadata blocks that the server states; `None` for
/// none, or one that is no number.
pub fn parse_metaint(header: &str) -> (metaint: Option<usize>)
    ensures
        match metaint {
            Some(n) => parse_unsigned(trim(header@), usize::MAX as nat) == Some(n as nat),
            None => parse_unsigned(trim(header@), usize::MAX as nat) is None,
        },
{
    let chars = chars_of(header);
    match read_unsigned(trimmed(&chars), usize::MAX as u64) {
        Some(n) => Some(n as usize),
        None => None,
    }
}

/// The stream that a trimmed line of a playlist names: the value of a `file`
/// entry, or the line itself, where it is an http address.
pub open spec fn line_url(line: Seq<char>) -> Option<Seq<char>> {
    let k = first_where(line, |c: char| c == '=');
    let url = if k < line.len() && "file"@.is_prefix_of(lowered(line.take(k))) {
        trim(line.skip(k + 1))
    } else {
        line
    };
    if "http://"@.is_prefix_of(url) || "https://"@.is_prefix_of(url) {
        Some(url)
    } else {
        None
    }
}

/// The streams that lines name, in their order.
pub open spec fn urls_of(lines: Seq<Seq<char>>) -> Seq<Seq<char>>
    decreases lines.len(),
{
    if lines.len() == 0 {
        Seq::empty()
    } else {
        match line_url(trim(lines.last())) {
            Some(url) => urls_of(lines.drop_last()).push(url),
            None => urls_of(lines.drop_last()),
        }
    }
}

/// The streams that a playlist lists, in order.
pub open spec fn listed_urls(playlist: Seq<char>) -> Seq<Seq<char>> {
    urls_of(split_on(playlist, |c: char| c == '\n'))
}

fn url_of_line(line: &[char]) -> (url: Option<String>)
    ensures
        opt(url) == line_url(line@),
{
    let k = index_of(line, '=');
    let url = if k < line.len() && begins_with_text(&lowercase(head(line, k)), "file") {
        trimmed(tail(line, k + 1))
    } else {
        line
    };
    if begins_with_text(url, "http://") || begins_with_text(url, "https://") {
        Some(string_of(url))
    } else {
        None
    }
}

/// Stream URLs listed in a `.pls` or `.m3u` playlist, in order.
pub fn playlist_urls(playlist: &str) -> (urls: Vec<String>)
    ensures
        texts(urls@) == listed_urls(playlist@),
{
    let chars = chars_of(playlist);
    let lines = split_text(&chars, '\n');
    let ghost all = texts(lines@);
    let mut urls: Vec<String> = Vec::new();
    let mut i: usize = 0;
    assert(texts(urls@) =~= urls_of(all.take(0)));
    while i < lines.len()
        invariant
            i <= lines@.len(),
            all == texts(lines@),
            texts(urls@) == urls_of(all.take(i as int)),
        decreases lines@.len() - i,
    {
        let line = chars_of(lines[i].as_str());
        assert(all.take(i + 1).last() == line@);
        assert(all.take(i + 1).drop_last() =~= all.take(i as int));
        let ghost before = urls@;
        if let Some(url) = url_of_line(trimmed(&line)) {
            urls.push(url);
            assert(texts(urls@) =~= texts(before).push(url@));
        }
        i += 1;
    }
    assert(all.take(i as int) =~= all);
    urls
}

/// Why a stream couldn't be opened or read.
#[derive(Debug, Clone, PartialEq, Eq)]
pub enum RadioError {
    /// The transport's words.
    Http(String),
    /// A playlist that lists no stream.
    EmptyPlaylist,
}

impl RadioError {
    /// The error in words.
    pub fn text(&self) -> (text: String)
        ensures
            text@ == match *self {
                RadioError::Http(reason) => reason@,
                RadioError::EmptyPlaylist => "the playlist lists no stream"@,
            },
    {
        match self {
            RadioError::Http(reason) => reason.clone(),
            RadioError::EmptyPlaylist => "the playlist lists no stream".to_string(),
        }
    }
}

/// The stream that a playlist is followed to: the first that it lists.
pub fn first_stream(playlist: &str) -> (stream: Result<String, RadioError>)
    ensures
        match stream {
            Ok(url) => listed_urls(playlist@).len() > 0 && url@ == listed_urls(playlist@)[0],
            Err(RadioError::EmptyPlaylist) => listed_urls(playlist@).len() == 0,
            Err(RadioError::Http(_)) => false,
        },
{
    let urls = playlist_urls(playlist);
    if urls.len() > 0 {
        assert(texts(urls@)[0] == urls@[0]@);
        Ok(urls[0].clone())
    } else {
        Err(RadioError::EmptyPlaylist)
    }
}

/// The address up to its query or fragment, in small letters.
pub open spec fn plain_path(url: Seq<char>) -> Seq<char> {
    lowered(url.take(first_where(url, |c: char| c == '?' || c == '#')))
}

pub open spec fn holds(text: Seq<char>, part: Seq<char>) -> bool {
    find(text, part) is Some
}

/// Whether an address, or the type of what it answers, is that of a playlist.
pub open spec fn names_playlist(url: Seq<char>, content_type: Seq<char>) -> bool {
    ||| ".pls"@.is_suffix_of(plain_path(url))
    ||| ".m3u"@.is_suffix_of(plain_path(url))
    ||| holds(lowered(content_type), "scpls"@)
    ||| holds(lowered(content_type), "mpegurl"@)
}

fn ends_path(c: char) -> (yes: bool)
    ensures
        yes == (c == '?' || c == '#'),
{
    c == '?' || c == '#'
}

/// Whether an address is that of a playlist, or answers with one.
pub fn is_playlist(url: &str, content_type: Option<&str>) -> (yes: bool)
    ensures
        yes == names_playlist(
            url@,
            match content_type {
                Some(content_type) => content_type@,
                None => Seq::empty(),
            },
        ),
{
    let chars = chars_of(url);
    let ghost stop = |c: char| c == '?' || c == '#';
    let path = lowercase(head(&chars, index_where(&chars, ends_path, Ghost(stop))));
    let content_type = match content_type {
        Some(content_type) => chars_of(content_type),
        None => Vec::new(),
    };
    let small = lowercase(&content_type);
    ends_with_text(&path, ".pls") || ends_with_text(&path, ".m3u") || position_of(
        &small,
        "scpls",
    ).is_some() || position_of(&small, "mpegurl").is_some()
}

proof fn lemma_audio_run(
    metaint: nat,
    left: nat,
    bytes: Seq<u8>,
    rest: Seq<u8>,
    audio: Seq<u8>,
)
    requires
        bytes.len() <= left,
    ensures
        demux(metaint, Spot::Audio(left), bytes + rest, audio) == demux(
            metaint,
            Spot::Audio((left - bytes.len()) as nat),
            rest,
            audio + bytes,
        ),
    decreases bytes.len(),
{
    let all = bytes + rest;
    if bytes.len() == 0 {
        assert(all =~= rest);
        assert(audio + bytes =~= audio);
    } else {
        let less = bytes.skip(1);
        assert(all[0] == bytes[0]);
        assert(all.skip(1) =~= less + rest);
        lemma_audio_run(metaint, (left - 1) as nat, less, rest, audio.push(bytes[0]));
        assert(audio.push(bytes[0]) + less =~= audio + bytes);
    }
}

proof fn lemma_meta_run(
    metaint: nat,
    left: nat,
    held: Seq<u8>,
    bytes: Seq<u8>,
    rest: Seq<u8>,
    audio: Seq<u8>,
)
    requires
        bytes.len() < left,
    ensures
        demux(metaint, Spot::Meta(left, held), bytes + rest, audio) == demux(
            metaint,
            Spot::Meta((left - bytes.len()) as nat, held + bytes),
            rest,
            audio,
        ),
    decreases bytes.len(),
{
    let all = bytes + rest;
    if bytes.len() == 0 {
        assert(all =~= rest);
        assert(held + bytes =~= held);
    } else {
        let less = bytes.skip(1);
        assert(all[0] == bytes[0]);
        assert(all.skip(1) =~= less + rest);
        lemma_meta_run(metaint, (left - 1) as nat, held.push(bytes[0]), less, rest, audio);
        assert(held.push(bytes[0]) + less =~= held + bytes);
    }
}

/// After each interval of audio a length byte tells how many times sixteen
/// bytes of metadata follow: the audio comes out, then the title of the
/// metadata if there is one, and the next interval begins.
pub proof fn an_interval_gives_its_audio_and_its_title(audio: Seq<u8>, length: u8, meta: Seq<u8>)
    requires
        audio.len() > 0,
        meta.len() == 16 * length,
    ensures
        ({
            let state = IcyState {
                metaint: Some(audio.len()),
                spot: Spot::Audio(audio.len()),
            };
            let (next, out) = demuxed(state, audio + seq![length] + meta);
            &&& next == state
            &&& flat(out) == byte_atoms(audio) + (if length == 0 {
                Seq::empty()
            } else {
                match title_in(block_text(meta)) {
                    Some(title) => seq![Atom::Title(title)],
                    None => Seq::empty(),
                }
            })
        }),
{
    let n = audio.len();
    let none = Seq::<u8>::empty();
    let rest = seq![length] + meta;
    assert(audio + seq![length] + meta =~= audio + rest);
    lemma_audio_run(n, n, audio, rest, none);
    assert(none + audio =~= audio);
    assert(rest[0] == length);
    assert(rest.skip(1) =~= meta);
    lemma_flat_at_hand(audio);
    if length == 0 {
        assert(meta =~= none);
        assert(demux(n, Spot::Audio(n), none, audio) == (Spot::Audio(n), at_hand(audio)));
        assert(demux(n, Spot::Audio(0), rest, audio) == (Spot::Audio(n), at_hand(audio)));
        assert(byte_atoms(audio) + Seq::<Atom>::empty() =~= byte_atoms(audio));
    } else {
        let left = (length * 16) as nat;
        let front = meta.drop_last();
        let last = seq![meta.last()];
        assert(meta =~= front + last);
        lemma_meta_run(n, left, none, front, last, audio);
        assert(none + front =~= front);
        assert(last.skip(1) =~= none);
        assert(front.push(meta.last()) =~= meta);
        let title = title_pieces(meta);
        assert(demux(n, Spot::Audio(n), none, none) == (Spot::Audio(n), at_hand(none)));
        assert(demux(n, Spot::Meta(1, front), last, audio) == (
            Spot::Audio(n),
            at_hand(audio) + title + at_hand(none),
        ));
        assert(demux(n, Spot::Audio(0), rest, audio) == demux(
            n,
            Spot::Meta(left, none),
            meta,
            audio,
        ));
        lemma_flat_concat(at_hand(audio), title);
        lemma_flat_concat(at_hand(audio) + title, at_hand(none));
        lemma_flat_at_hand(none);
        assert(byte_atoms(none) =~= Seq::empty());
        if title.len() > 0 {
            assert(title.drop_first() =~= Seq::empty());
            assert(flat(title.drop_first()) =~= Seq::empty());
        }
        assert(flat(at_hand(audio) + title + at_hand(none)) =~= byte_atoms(audio) + flat(title));
        assert(flat(title) =~= (match title_in(block_text(meta)) {
            Some(title) => seq![Atom::Title(title)],
            None => Seq::empty(),
        }));
    }
}

/// Whether a quote and a semicolon stand at a position of a text.
pub open spec fn closes_at(text: Seq<char>, j: int) -> bool {
    text[j] == '\'' && text[j + 1] == ';'
}

/// The title stands between `StreamTitle='` and the first `';` behind it,
/// without white space around it; the zeros that fill the block up do not
/// count.
pub proof fn the_title_stands_between_its_quotes(
    title: Seq<char>,
    after: Seq<char>,
    zeros: Seq<char>,
)
    requires
        forall|j: int| 0 <= j < title.len() - 1 ==> !(#[trigger] closes_at(title, j)),
        after.len() > 0 ==> after.last() != '\0',
        forall|j: int| 0 <= j < zeros.len() ==> #[trigger] zeros[j] == '\0',
    ensures
        title_in("StreamTitle='"@ + title + "';"@ + after + zeros) == if trim(title).len() == 0 {
            None
        } else {
            Some(trim(title))
        },
{
    reveal_strlit("StreamTitle='");
    reveal_strlit("';");
    let marker = "StreamTitle='"@;
    let close = "';"@;
    assert(close[0] == '\'' && close[1] == ';');
    let body = marker + title + close + after;
    let text = marker + title + close + after + zeros;
    let nul = |c: char| c == '\0';
    let kept = |c: char| !nul(c);
    let n = body.len() as int;
    assert(text[n - 1] == body[n - 1]);
    assert(body.last() != '\0') by {
        if after.len() == 0 {
            assert(body.last() == close[1]);
        } else {
            assert(body.last() == after.last());
        }
    }
    assert forall|j: int| n <= j < text.len() implies !kept(#[trigger] text[j]) by {
        assert(text[j] == zeros[j - n]);
    }
    lemma_end_where_is(text, kept, n);
    assert(text.take(n) =~= body);
    assert(body.skip(0) =~= body);
    assert(marker =~= body.subrange(0, marker.len() as int));
    lemma_find_is(body, marker, 0);
    let rest = body.skip(marker.len() as int);
    assert(rest =~= title + close + after);
    let k = title.len() as int;
    assert(rest.skip(k).subrange(0, 2) =~= close);
    assert(stands_at(rest, close, k));
    assert forall|j: int| 0 <= j < k implies !stands_at(rest, close, j) by {
        if stands_at(rest, close, j) {
            let here = rest.skip(j);
            assert(close =~= here.subrange(0, 2));
            assert(close[0] == here.subrange(0, 2)[0] && close[1] == here.subrange(0, 2)[1]);
            assert(here[0] == rest[j] && here[1] == rest[j + 1]);
            assert(rest[j] == title[j]);
            if j + 1 < k {
                assert(!closes_at(title, j));
                assert(rest[j + 1] == title[j + 1]);
            } else {
                assert(rest[k] == close[0]);
            }
        }
    }
    lemma_find_is(rest, close, k);
    assert(rest.take(k) =~= title);
}

/// A block without `StreamTitle='` has no title.
pub proof fn other_blocks_have_no_title(text: Seq<char>)
    requires
        forall|j: int| 0 <= j < text.len() ==> #[trigger] text[j] != '=',
    ensures
        title_in(text) is None,
{
    reveal_strlit("StreamTitle='");
    let marker = "StreamTitle='"@;
    assert(marker[11] == '=');
    let nul = |c: char| c == '\0';
    let kept = |c: char| !nul(c);
    lemma_end_where(text, kept);
    let body = skip_trailing(text, nul);
    lemma_find(body, marker);
    if let Some(i) = find(body, marker) {
        let here = body.skip(i);
        assert(marker =~= here.subrange(0, marker.len() as int));
        assert(here.subrange(0, marker.len() as int)[11] == here[11]);
        assert(here[11] == text[i + 11]);
    }
}

/// Whether a text begins as an http address.
pub open spec fn begins_as_address(text: Seq<char>) -> bool {
    ||| text.len() >= 7 && text.subrange(0, 7) == seq!['h', 't', 't', 'p', ':', '/', '/']
    ||| text.len() >= 8 && text.subrange(0, 8) == seq!['h', 't', 't', 'p', 's', ':', '/', '/']
}

proof fn lemma_begins_as_address(text: Seq<char>)
    ensures
        begins_as_address(text) == ("http://"@.is_prefix_of(text) || "https://"@.is_prefix_of(
            text,
        )),
{
    reveal_strlit("http://");
    reveal_strlit("https://");
    assert("http://"@ =~= seq!['h', 't', 't', 'p', ':', '/', '/']);
    assert("https://"@ =~= seq!['h', 't', 't', 'p', 's', ':', '/', '/']);
}

/// A line of a playlist that is an address names a stream; so does the value
/// of an entry whose name begins with `file`, in any letter case, where it is
/// an address; any other line names none.
pub proof fn entries_and_addresses_name_streams(name: Seq<char>, value: Seq<char>, line: Seq<char>)
    requires
        name.len() >= 4,
        lowered(name).subrange(0, 4) == seq!['f', 'i', 'l', 'e'],
        forall|i: int| 0 <= i < name.len() ==> #[trigger] name[i] != '=',
    ensures
        line_url(name + seq!['='] + value) == if begins_as_address(trim(value)) {
            Some(trim(value))
        } else {
            None
        },
        begins_as_address(line) ==> line_url(line) == Some(line),
        !begins_as_address(line) && (line.len() == 0 || lowered(line)[0] != 'f') ==> line_url(line)
            is None,
{
    reveal_strlit("file");
    let entry = name + seq!['='] + value;
    let equals = |c: char| c == '=';
    let n = name.len() as int;
    assert forall|i: int| 0 <= i < n implies !equals(#[trigger] entry[i]) by {
        assert(entry[i] == name[i]);
    }
    assert(entry[n] == '=');
    lemma_first_where_is(entry, equals, n);
    assert(entry.take(n) =~= name);
    assert(entry.skip(n + 1) =~= value);
    assert("file"@ =~= seq!['f', 'i', 'l', 'e']);
    assert("file"@[0] == 'f');
    lemma_begins_as_address(trim(value));
    lemma_begins_as_address(line);
    lemma_first_where(line, equals);
    let k = first_where(line, equals);
    let front = line.take(k);
    if "file"@.is_prefix_of(lowered(front)) {
        letter_case_keeps_places(front, 0);
        letter_case_keeps_places(line, 0);
        assert("file"@[0] == lowered(front).subrange(0, 4)[0]);
        assert(front[0] == line[0]);
        assert(lowered(line)[0] == 'f');
        if begins_as_address(line) {
            letter_case_is_that_of_ascii(line[0]);
            assert(line.subrange(0, 7)[0] == line[0]);
            assert(line.len() >= 8 ==> line.subrange(0, 8)[0] == line[0]);
            assert(line[0] == 'h');
        }
    }
}

/// The streams come in the order of the lines.
pub proof fn streams_come_in_the_order_of_the_lines(a: Seq<Seq<char>>, b: Seq<Seq<char>>)
    ensures
        urls_of(a + b) == urls_of(a) + urls_of(b),
    decreases b.len(),
{
    if b.len() == 0 {
        assert(a + b =~= a);
        assert(urls_of(a) + urls_of(b) =~= urls_of(a));
    } else {
        assert((a + b).drop_last() =~= a + b.drop_last());
        assert((a + b).last() == b.last());
        streams_come_in_the_order_of_the_lines(a, b.drop_last());
        assert(urls_of(a + b) =~= urls_of(a) + urls_of(b));
    }
}

/// A line gives the stream that it names, and otherwise nothing.
pub proof fn a_line_gives_its_stream(line: Seq<char>)
    ensures
        urls_of(seq![line]) == match line_url(trim(line)) {
            Some(url) => seq![url],
            None => Seq::empty(),
        },
{
    assert(seq![line].drop_last() =~= Seq::empty());
    assert(urls_of(Seq::empty()) =~= Seq::empty());
    assert(Seq::<Seq<char>>::empty().push(line) =~= seq![line]);
    if let Some(url) = line_url(trim(line)) {
        assert(Seq::<Seq<char>>::empty().push(url) =~= seq![url]);
    }
}

/// An address is that of a playlist by its extension, in any letter case and
/// before any query, or by the type of what it answers; a name without either
/// is not.
pub proof fn playlists_are_told_by_extension_or_type(
    path: Seq<char>,
    extension: Seq<char>,
    query: Seq<char>,
    content_type: Seq<char>,
)
    requires
        extension.len() == 4,
        forall|i: int|
            0 <= i < path.len() ==> #[trigger] path[i] != '?' && path[i] != '#',
        forall|i: int|
            0 <= i < extension.len() ==> #[trigger] extension[i] != '?' && extension[i] != '#',
        query.len() > 0 ==> query[0] == '?' || query[0] == '#',
    ensures
        lowered(extension) == seq!['.', 'p', 'l', 's'] || lowered(extension) == seq![
            '.',
            'm',
            '3',
            'u',
        ] ==> names_playlist(path + extension + query, content_type),
        lowered(extension) != seq!['.', 'p', 'l', 's'] && lowered(extension) != seq![
            '.',
            'm',
            '3',
            'u',
        ] ==> !names_playlist(path + extension + query, Seq::empty()),
{
    reveal_strlit(".pls");
    reveal_strlit(".m3u");
    reveal_strlit("scpls");
    reveal_strlit("mpegurl");
    assert(".pls"@ =~= seq!['.', 'p', 'l', 's']);
    assert(".m3u"@ =~= seq!['.', 'm', '3', 'u']);
    let url = path + extension + query;
    let n = path.len() + 4;
    let stop = |c: char| c == '?' || c == '#';
    assert forall|i: int| 0 <= i < n implies !stop(#[trigger] url[i]) by {
        if i < path.len() {
            assert(url[i] == path[i]);
        } else {
            assert(url[i] == extension[i - path.len()]);
        }
    }
    assert(query.len() > 0 ==> url[n as int] == query[0]);
    lemma_first_where_is(url, stop, n as int);
    let plain = plain_path(url);
    let whole = url.take(n as int);
    assert(plain.len() == n);
    assert(plain.subrange(n - 4, n as int) =~= lowered(extension)) by {
        assert(whole.subrange(n - 4, n as int) =~= extension);
    }
    lemma_find(lowered(Seq::empty()), "scpls"@);
    lemma_find(lowered(Seq::empty()), "mpegurl"@);
    assert(lowered(Seq::empty()) =~= Seq::<char>::empty());
}

/// The types of playlists hold `scpls` or `mpegurl`, in any letter case.
pub proof fn playlist_types_hold_their_word(
    url: Seq<char>,
    before: Seq<char>,
    word: Seq<char>,
    after: Seq<char>,
)
    requires
        lowered(word) == seq!['s', 'c', 'p', 'l', 's'] || lowered(word) == seq![
            'm',
            'p',
            'e',
            'g',
            'u',
            'r',
            'l',
        ],
    ensures
        names_playlist(url, before + word + after),
{
    reveal_strlit("scpls");
    reveal_strlit("mpegurl");
    assert("scpls"@ =~= seq!['s', 'c', 'p', 'l', 's']);
    assert("mpegurl"@ =~= seq!['m', 'p', 'e', 'g', 'u', 'r', 'l']);
    let whole = lowered(before + word + after);
    let k = before.len() as int;
    let small = lowered(word);
    assert(whole.skip(k).subrange(0, small.len() as int) =~= small);
    assert(stands_at(whole, small, k));
    lemma_find(whole, small);
}

/// The first row of a mount is taken.
pub proof fn the_first_row_of_a_mount_counts(rows: Seq<Tree>, mount: Seq<char>, place: int)
    requires
        0 <= place <= rows.len(),
        forall|i: int| 0 <= i < place ==> !is_row_of(#[trigger] rows[i], mount),
        place < rows.len() ==> is_row_of(rows[place], mount),
    ensures
        row_of(rows, mount) == if place < rows.len() {
            Some(rows[place])
        } else {
            None
        },
    decreases rows.len(),
{
    if place > 0 {
        let others = rows.drop_first();
        assert(!is_row_of(rows[0], mount));
        assert forall|i: int| 0 <= i < place - 1 implies !is_row_of(
            #[trigger] others[i],
            mount,
        ) by {
            assert(others[i] == rows[i + 1]);
        }
        if place < rows.len() {
            assert(others[place - 1] == rows[place]);
        }
        the_first_row_of_a_mount_counts(others, mount, place - 1);
    }
}

/// An Icecast status tells the title of the mount, whether its rows stand in a
/// list or one stands alone, and no artist.
pub proof fn the_status_tells_the_title_of_the_mount(
    body: Tree,
    stats: Tree,
    rows: Seq<Tree>,
    place: int,
    mount: Seq<char>,
    listen: Seq<char>,
    title: Seq<char>,
)
    requires
        member(body, "icestats"@) == Some(stats),
        0 <= place < rows.len(),
        member(stats, "source"@) == Some(Tree::Array(rows)) || (member(stats, "source"@) == Some(
            rows[place],
        ) && !(rows[place] is Array)),
        forall|i: int| 0 <= i < place ==> !is_row_of(#[trigger] rows[i], mount),
        member(rows[place], "listenurl"@) == Some(Tree::Text(listen)),
        url_parts(trim(listen)) is Some,
        url_parts(trim(listen))->0.path == mount,
        member(rows[place], "title"@) == Some(Tree::Text(title)),
        trim(title).len() > 0,
    ensures
        icecast_track(body, mount) == Some(TrackView { artist: None, title: trim(title) }),
        track_label(icecast_track(body, mount)->0) == trim(title),
{
    if member(stats, "source"@) == Some(Tree::Array(rows)) {
        the_first_row_of_a_mount_counts(rows, mount, place);
    } else {
        the_first_row_of_a_mount_counts(seq![rows[place]], mount, 0);
    }
}

/// A SomaFM feed tells its first song: the title, and the artist where there
/// is one, without white space around them.
pub proof fn the_feed_tells_its_first_song(
    body: Tree,
    songs: Seq<Tree>,
    title: Seq<char>,
    artist: Seq<char>,
)
    requires
        member(body, "songs"@) == Some(Tree::Array(songs)),
        songs.len() > 0,
        member(songs[0], "title"@) == Some(Tree::Text(title)),
        member(songs[0], "artist"@) == Some(Tree::Text(artist)),
    ensures
        trim(title).len() > 0 && trim(artist).len() > 0 ==> somafm_track(body) == Some(
            TrackView { artist: Some(trim(artist)), title: trim(title) },
        ) && track_label(somafm_track(body)->0) == trim(artist) + " — "@ + trim(title),
        trim(title).len() > 0 && trim(artist).len() == 0 ==> somafm_track(body) == Some(
            TrackView { artist: None, title: trim(title) },
        ),
        trim(title).len() == 0 ==> somafm_track(body) is None,
{
}

/// The pieces of a stream say what the chunks hold: audio its bytes, a title
/// its text.
pub proof fn chunks_say_what_they_hold(chunks: Seq<IcyChunk>, i: int)
    requires
        0 <= i < chunks.len(),
    ensures
        pieces(chunks).len() == chunks.len(),
        chunks[i] matches IcyChunk::Audio(bytes) ==> pieces(chunks)[i] == Piece::Audio(bytes@),
        chunks[i] matches IcyChunk::Title(title) ==> pieces(chunks)[i] == Piece::Title(title@),
{
}

/// The feed is read once a minute, and what it told is stale after three.
pub proof fn tracks_go_stale_after_three_readings()
    ensures
        NOW_PLAYING_POLL_SECS == 60,
        NOW_PLAYING_STALE_SECS == 3 * NOW_PLAYING_POLL_SECS,
{
}

} // verus!
