use cordiale::json::Json;
use cordiale::radio::{
    first_stream, is_playlist, now_playing_line, parse_icecast_status, parse_metaint,
    parse_somafm_songs, playlist_urls, read_now_playing, stream_title, IcyChunk, IcyDemuxer,
    NowPlayingSource, RadioCodec, RadioError,
};
use cordiale::stations::radio_stations;

fn json(text: &str) -> Json {
    Json::parse(text).expect("a document")
}

#[test]
fn now_playing_feeds_and_line() {
    let soma = json(r##"{"songs": [
        {"title": " Roygbiv ", "artist": "Boards of Canada"},
        {"title": "older", "artist": "x"}
    ]}"##);
    let track = parse_somafm_songs(&soma).expect("a track");
    assert_eq!(
        now_playing_line(&track, "Groove Salad"),
        "is now playing: Boards of Canada — Roygbiv [Groove Salad]"
    );
    assert_eq!(parse_somafm_songs(&json(r##"{"songs": []}"##)), None);
    let icecast = json(r##"{"icestats": {"source": [
        {"listenurl": "http://host:8000/other.mp3", "title": "nope"},
        {"listenurl": "http://host:8000/stream.ogg", "title": "Hubbard - Commando"}
    ]}}"##);
    let track = parse_icecast_status(&icecast, "/stream.ogg").expect("a track");
    assert_eq!(track.label(), "Hubbard - Commando");
    let single = json(r##"{"icestats": {"source":
        {"listenurl": "http://host/stream.ogg", "title": "solo"}}}"##);
    assert!(parse_icecast_status(&single, "/stream.ogg").is_some());
    assert_eq!(parse_icecast_status(&icecast, "/missing"), None);
}

#[test]
fn stations_are_mp3_or_vorbis_with_unique_ids() {
    let stations = radio_stations();
    let mut ids: Vec<&str> = stations.iter().map(|station| station.id).collect();
    ids.sort_unstable();
    ids.dedup();
    assert_eq!(ids.len(), stations.len());
    assert!(stations
        .iter()
        .any(|station| station.codec == RadioCodec::Vorbis));
    assert!(stations
        .iter()
        .all(|station| station.stream_url.starts_with("https://")));
}

#[test]
fn demuxer_splits_audio_and_titles_across_pushes() {
    let meta = b"StreamTitle='Boards of Canada - Roygbiv';StreamUrl='';";
    let mut block = vec![0u8; 64];
    block[..meta.len()].copy_from_slice(meta);
    let mut stream = b"abcd".to_vec();
    stream.push(4); // 4 * 16 = 64 bytes of metadata
    stream.extend_from_slice(&block);
    stream.extend_from_slice(b"efgh");
    stream.push(0); // an empty metadata block
    stream.extend_from_slice(b"ij");

    let mut demuxer = IcyDemuxer::new(Some(4));
    let mut chunks = Vec::new();
    for piece in stream.chunks(3) {
        chunks.extend(demuxer.push(piece));
    }
    let audio: Vec<u8> = chunks
        .iter()
        .filter_map(|chunk| match chunk {
            IcyChunk::Audio(bytes) => Some(bytes.clone()),
            IcyChunk::Title(_) => None,
        })
        .flatten()
        .collect();
    assert_eq!(audio, b"abcdefghij");
    assert!(chunks.contains(&IcyChunk::Title("Boards of Canada - Roygbiv".to_string())));
}

#[test]
fn without_metaint_everything_is_audio() {
    let mut demuxer = IcyDemuxer::new(None);
    assert_eq!(
        demuxer.push(b"OggS"),
        vec![IcyChunk::Audio(b"OggS".to_vec())]
    );
    assert_eq!(stream_title(b"StreamTitle='';\0\0"), None);
}

#[test]
fn playlists_list_their_streams() {
    let pls = "[playlist]\nnumberofentries=2\nFile1=https://ice1.somafm.com/groovesalad-128-mp3\nTitle1=Groove Salad\nFile2=https://ice2.somafm.com/groovesalad-128-mp3\n";
    assert_eq!(
        playlist_urls(pls),
        vec![
            "https://ice1.somafm.com/groovesalad-128-mp3",
            "https://ice2.somafm.com/groovesalad-128-mp3"
        ]
    );
    let m3u = "#EXTM3U\n#EXTINF:-1,Station\nhttp://example.org/stream.ogg\n";
    assert_eq!(playlist_urls(m3u), vec!["http://example.org/stream.ogg"]);
    assert!(is_playlist("https://somafm.com/groovesalad.pls", None));
    assert!(!is_playlist(
        "https://ice1.somafm.com/groovesalad-128-mp3",
        None
    ));
}

#[test]
fn a_stream_may_be_cut_into_any_pieces() {
    let mut stream = b"abcdefgh".to_vec();
    stream.push(1);
    let mut block = vec![0u8; 16];
    block[..15].copy_from_slice(b"StreamTitle='x'");
    stream.extend_from_slice(&block);
    stream.extend_from_slice(b"ijklmnop");
    let flat = |size: usize| -> (Vec<u8>, Vec<String>) {
        let mut demuxer = IcyDemuxer::new(Some(8));
        let mut audio = Vec::new();
        let mut titles = Vec::new();
        for piece in stream.chunks(size) {
            for chunk in demuxer.push(piece) {
                match chunk {
                    IcyChunk::Audio(bytes) => audio.extend(bytes),
                    IcyChunk::Title(title) => titles.push(title),
                }
            }
        }
        (audio, titles)
    };
    let whole = flat(stream.len());
    assert_eq!(whole.0, b"abcdefghijklmnop");
    for size in 1..stream.len() {
        assert_eq!(flat(size), whole);
    }
}

#[test]
fn titles_survive_broken_text() {
    assert_eq!(
        stream_title(b"StreamTitle='a\xffb';"),
        Some("a\u{fffd}b".to_string())
    );
}

#[test]
fn metadata_intervals_are_numbers() {
    assert_eq!(parse_metaint(" 16000 "), Some(16000));
    assert_eq!(parse_metaint("x"), None);
}

#[test]
fn empty_playlists_are_errors() {
    assert_eq!(first_stream("[playlist]\n"), Err(RadioError::EmptyPlaylist));
    assert_eq!(
        first_stream("http://a.b/c\n"),
        Ok("http://a.b/c".to_string())
    );
    assert_eq!(
        RadioError::EmptyPlaylist.text(),
        "the playlist lists no stream"
    );
    assert!(is_playlist("http://a.b/c", Some("audio/x-scpls")));
    assert!(is_playlist("http://a.b/c.M3U?x", None));
}

#[test]
fn feeds_are_read_by_their_kind() {
    let soma = json(r##"{"songs": [{"title": "t", "artist": "a"}]}"##);
    let source = NowPlayingSource::SomaFm("https://somafm.com/songs/x.json");
    assert!(read_now_playing(source, &soma).is_some());
    let icecast = NowPlayingSource::IcecastStatus {
        url: "https://a.b/status-json.xsl",
        mount: "/x",
    };
    assert_eq!(read_now_playing(icecast, &soma), None);
    assert_eq!(icecast.url(), "https://a.b/status-json.xsl");
    assert_eq!(RadioCodec::Vorbis.extension(), "ogg");
    assert_eq!(RadioCodec::Mp3.label(), "MP3");
}
