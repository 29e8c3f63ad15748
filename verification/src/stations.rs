//! The stations of the radio picker: SomaFM channels plus a few other Icecast
//! stations, as direct MP3 or Ogg Vorbis streams.

use vstd::prelude::*;

use crate::radio::{NowPlayingSource, RadioCodec, SourceView};

verus! {

/// One station of the radio picker.
#[derive(Debug, Clone, PartialEq, Eq)]
pub struct RadioStation {
    pub id: &'static str,
    pub title: &'static str,
    pub genres: Vec<&'static str>,
    pub description: &'static str,
    pub stream_url: &'static str,
    pub codec: RadioCodec,
    /// Kilobits per second, when the station states it.
    pub bitrate: Option<u32>,
    pub now_playing: Option<NowPlayingSource>,
}

/// What a [`RadioStation`] says.
pub struct StationView {
    pub id: Seq<char>,
    pub title: Seq<char>,
    pub genres: Seq<Seq<char>>,
    pub description: Seq<char>,
    pub stream_url: Seq<char>,
    pub codec: RadioCodec,
    pub bitrate: Option<u32>,
    pub now_playing: Option<SourceView>,
}

pub open spec fn genre_texts(genres: Seq<&'static str>) -> Seq<Seq<char>> {
    Seq::new(genres.len(), |i: int| genres[i]@)
}

impl View for RadioStation {
    type V = StationView;

    open spec fn view(&self) -> StationView {
        StationView {
            id: self.id@,
            title: self.title@,
            genres: genre_texts(self.genres@),
            description: self.description@,
            stream_url: self.stream_url@,
            codec: self.codec,
            bitrate: self.bitrate,
            now_playing: match self.now_playing {
                Some(source) => Some(source@),
                None => None,
            },
        }
    }
}

/// How many stations there are.
pub const STATION_COUNT: usize = 24;

/// The stations, in the order of the picker.
pub open spec fn station_at(i: int) -> StationView {
    if i == 0 {
        StationView {
            id: "groovesalad"@,
            title: "Groove Salad"@,
            genres: seq!["ambient"@, "electronic"@],
            description: "A nicely chilled plate of ambient/downtempo beats and grooves."@,
            stream_url: "https://ice.somafm.com/groovesalad-128-mp3"@,
            codec: RadioCodec::Mp3,
            bitrate: Some(128),
            now_playing: Some(SourceView::SomaFm("https://api.somafm.com/songs/groovesalad.json"@)),
        }
    } else if i == 1 {
        StationView {
            id: "dronezone"@,
            title: "Drone Zone"@,
            genres: seq!["ambient"@],
            description: "Served best chilled, safe with most medications. Atmospheric textures with minimal beats."@,
            stream_url: "https://ice.somafm.com/dronezone-128-mp3"@,
            codec: RadioCodec::Mp3,
            bitrate: Some(128),
            now_playing: Some(SourceView::SomaFm("https://api.somafm.com/songs/dronezone.json"@)),
        }
    } else if i == 2 {
        StationView {
            id: "spacestation"@,
            title: "Space Station Soma"@,
            genres: seq!["electronic"@],
            description: "Tune in, turn on, space out. Spaced-out ambient and mid-tempo electronica."@,
            stream_url: "https://ice.somafm.com/spacestation-128-mp3"@,
            codec: RadioCodec::Mp3,
            bitrate: Some(128),
            now_playing: Some(SourceView::SomaFm("https://api.somafm.com/songs/spacestation.json"@)),
        }
    } else if i == 3 {
        StationView {
            id: "lush"@,
            title: "Lush"@,
            genres: seq!["electronic"@],
            description: "Sensuous and mellow female vocals, many with an electronic influence."@,
            stream_url: "https://ice.somafm.com/lush-128-mp3"@,
            codec: RadioCodec::Mp3,
            bitrate: Some(128),
            now_playing: Some(SourceView::SomaFm("https://api.somafm.com/songs/lush.json"@)),
        }
    } else if i == 4 {
        StationView {
            id: "indiepop"@,
            title: "Indie Pop Rocks!"@,
            genres: seq!["alternative"@, "rock"@],
            description: "New and classic favorite indie pop tracks."@,
            stream_url: "https://ice.somafm.com/indiepop-128-mp3"@,
            codec: RadioCodec::Mp3,
            bitrate: Some(128),
            now_playing: Some(SourceView::SomaFm("https://api.somafm.com/songs/indiepop.json"@)),
        }
    } else if i == 5 {
        StationView {
            id: "u80s"@,
            title: "Underground 80s"@,
            genres: seq!["alternative"@, "electronic"@],
            description: "Early 80s UK Synthpop and a bit of New Wave."@,
            stream_url: "https://ice.somafm.com/u80s-128-mp3"@,
            codec: RadioCodec::Mp3,
            bitrate: Some(128),
            now_playing: Some(SourceView::SomaFm("https://api.somafm.com/songs/u80s.json"@)),
        }
    } else if i == 6 {
        StationView {
            id: "secretagent"@,
            title: "Secret Agent"@,
            genres: seq!["lounge"@],
            description: "The soundtrack for your stylish, mysterious, dangerous life. For Spies and PIs too!"@,
            stream_url: "https://ice.somafm.com/secretagent-128-mp3"@,
            codec: RadioCodec::Mp3,
            bitrate: Some(128),
            now_playing: Some(SourceView::SomaFm("https://api.somafm.com/songs/secretagent.json"@)),
        }
    } else if i == 7 {
        StationView {
            id: "defcon"@,
            title: "DEF CON Radio"@,
            genres: seq!["electronic"@, "specials"@],
            description: "Music for Hacking. The DEF CON Year-Round Channel."@,
            stream_url: "https://ice.somafm.com/defcon-128-mp3"@,
            codec: RadioCodec::Mp3,
            bitrate: Some(128),
            now_playing: Some(SourceView::SomaFm("https://api.somafm.com/songs/defcon.json"@)),
        }
    } else if i == 8 {
        StationView {
            id: "folkfwd"@,
            title: "Folk Forward"@,
            genres: seq!["folk"@, "alternative"@],
            description: "Indie Folk, Alt-folk and the occasional folk classics. "@,
            stream_url: "https://ice.somafm.com/folkfwd-128-mp3"@,
            codec: RadioCodec::Mp3,
            bitrate: Some(128),
            now_playing: Some(SourceView::SomaFm("https://api.somafm.com/songs/folkfwd.json"@)),
        }
    } else if i == 9 {
        StationView {
            id: "bootliquor"@,
            title: "Boot Liquor"@,
            genres: seq!["americana"@],
            description: "Americana Roots music for Cowhands, Cowpokes and Cowtippers"@,
            stream_url: "https://ice.somafm.com/bootliquor-128-mp3"@,
            codec: RadioCodec::Mp3,
            bitrate: Some(128),
            now_playing: Some(SourceView::SomaFm("https://api.somafm.com/songs/bootliquor.json"@)),
        }
    } else if i == 10 {
        StationView {
            id: "bossa"@,
            title: "Bossa Beyond"@,
            genres: seq!["bossanova"@, "world"@],
            description: "Silky-smooth, laid-back Brazilian-style rhythms of Bossa Nova, Samba and beyond"@,
            stream_url: "https://ice.somafm.com/bossa-128-mp3"@,
            codec: RadioCodec::Mp3,
            bitrate: Some(128),
            now_playing: Some(SourceView::SomaFm("https://api.somafm.com/songs/bossa.json"@)),
        }
    } else if i == 11 {
        StationView {
            id: "reggae"@,
            title: "Heavyweight Reggae"@,
            genres: seq!["reggae"@],
            description: "Reggae, Ska, Rocksteady classic and deep tracks."@,
            stream_url: "https://ice.somafm.com/reggae-128-mp3"@,
            codec: RadioCodec::Mp3,
            bitrate: Some(160),
            now_playing: Some(SourceView::SomaFm("https://api.somafm.com/songs/reggae.json"@)),
        }
    } else if i == 12 {
        StationView {
            id: "sonicuniverse"@,
            title: "Sonic Universe"@,
            genres: seq!["jazz"@],
            description: "Transcending the world of jazz with eclectic, avant-garde takes on tradition."@,
            stream_url: "https://ice.somafm.com/sonicuniverse-128-mp3"@,
            codec: RadioCodec::Mp3,
            bitrate: Some(128),
            now_playing: Some(SourceView::SomaFm("https://api.somafm.com/songs/sonicuniverse.json"@)),
        }
    } else if i == 13 {
        StationView {
            id: "missioncontrol"@,
            title: "Mission Control"@,
            genres: seq!["ambient"@, "electronic"@],
            description: "Celebrating NASA and Space Explorers everywhere."@,
            stream_url: "https://ice.somafm.com/missioncontrol-128-mp3"@,
            codec: RadioCodec::Mp3,
            bitrate: Some(128),
            now_playing: Some(SourceView::SomaFm("https://api.somafm.com/songs/missioncontrol.json"@)),
        }
    } else if i == 14 {
        StationView {
            id: "fluid"@,
            title: "Fluid"@,
            genres: seq!["electronic"@, "hiphop"@],
            description: "Drown in the electronic sound of instrumental hiphop, future soul and liquid trap."@,
            stream_url: "https://ice.somafm.com/fluid-128-mp3"@,
            codec: RadioCodec::Mp3,
            bitrate: Some(128),
            now_playing: Some(SourceView::SomaFm("https://api.somafm.com/songs/fluid.json"@)),
        }
    } else if i == 15 {
        StationView {
            id: "metal"@,
            title: "Metal Detector"@,
            genres: seq!["metal"@],
            description: "From black to doom, prog to sludge, thrash to post, stoner to crossover, punk to industrial."@,
            stream_url: "https://ice.somafm.com/metal-128-mp3"@,
            codec: RadioCodec::Mp3,
            bitrate: Some(128),
            now_playing: Some(SourceView::SomaFm("https://api.somafm.com/songs/metal.json"@)),
        }
    } else if i == 16 {
        StationView {
            id: "seventies"@,
            title: "Left Coast 70s"@,
            genres: seq!["70s"@, "rock"@],
            description: "Mellow album rock from the Seventies. Yacht not required."@,
            stream_url: "https://ice.somafm.com/seventies-128-mp3"@,
            codec: RadioCodec::Mp3,
            bitrate: Some(128),
            now_playing: Some(SourceView::SomaFm("https://api.somafm.com/songs/seventies.json"@)),
        }
    } else if i == 17 {
        StationView {
            id: "poptron"@,
            title: "PopTron"@,
            genres: seq!["alternative"@],
            description: "Electropop and indie dance rock with sparkle and pop."@,
            stream_url: "https://ice.somafm.com/poptron-128-mp3"@,
            codec: RadioCodec::Mp3,
            bitrate: Some(128),
            now_playing: Some(SourceView::SomaFm("https://api.somafm.com/songs/poptron.json"@)),
        }
    } else if i == 18 {
        StationView {
            id: "covers"@,
            title: "Covers"@,
            genres: seq!["eclectic"@],
            description: "Just covers. Songs you know by artists you don't. We've got you covered."@,
            stream_url: "https://ice.somafm.com/covers-128-mp3"@,
            codec: RadioCodec::Mp3,
            bitrate: Some(128),
            now_playing: Some(SourceView::SomaFm("https://api.somafm.com/songs/covers.json"@)),
        }
    } else if i == 19 {
        StationView {
            id: "brfm"@,
            title: "Black Rock FM"@,
            genres: seq!["eclectic"@],
            description: "From the Black Rock Desert playa to the world, year round!"@,
            stream_url: "https://ice.somafm.com/brfm-128-mp3"@,
            codec: RadioCodec::Mp3,
            bitrate: Some(128),
            now_playing: Some(SourceView::SomaFm("https://api.somafm.com/songs/brfm.json"@)),
        }
    } else if i == 20 {
        StationView {
            id: "doomed"@,
            title: "Doomed"@,
            genres: seq!["ambient"@, "industrial"@],
            description: "Where every day is Halloween: dark industrial/ambient music for tortured souls."@,
            stream_url: "https://ice.somafm.com/doomed-128-mp3"@,
            codec: RadioCodec::Mp3,
            bitrate: Some(128),
            now_playing: Some(SourceView::SomaFm("https://api.somafm.com/songs/doomed.json"@)),
        }
    } else if i == 21 {
        StationView {
            id: "rockantenne-metal"@,
            title: "ROCK ANTENNE Heavy Metal"@,
            genres: seq!["metal"@, "rock"@],
            description: "Heavy metal around the clock, from Bavaria's rock station."@,
            stream_url: "https://stream.rockantenne.de/heavy-metal/stream/mp3"@,
            codec: RadioCodec::Mp3,
            bitrate: Some(128),
            now_playing: None,
        }
    } else if i == 22 {
        StationView {
            id: "kohina"@,
            title: "Kohina"@,
            genres: seq!["chiptune"@, "demoscene"@],
            description: "Hand picked chip tunes from classic computers and consoles. SID, Amiga, Atari ST, Arcade, PC, and more!"@,
            stream_url: "https://kohina.brona.dk/icecast/stream.ogg"@,
            codec: RadioCodec::Vorbis,
            bitrate: Some(128),
            now_playing: Some(
            SourceView::IcecastStatus {
                url: "https://kohina.brona.dk/icecast/status-json.xsl"@,
                mount: "/stream.ogg"@,
            },
        ),
        }
    } else {
        StationView {
            id: "knac"@,
            title: "KNAC Pure Rock"@,
            genres: seq!["rock"@, "metal"@],
            description: "Hard rock and metal out of Los Angeles. The loudest dot com on the planet."@,
            stream_url: "https://s6.autopo.st/proxy/ggjdvxin?mp=/stream"@,
            codec: RadioCodec::Mp3,
            bitrate: Some(128),
            now_playing: None,
        }
    }
}

/// The place of the station with that id, if there is one: by its length and
/// a few of its characters.
spec fn only_place(id: Seq<char>) -> int {
    if id.len() == 4 {
        if id[0] == 'l' {
            3
        } else if id[0] == 'u' {
            5
        } else if id[0] == 'b' {
            19
        } else {
            23
        }
    } else if id.len() == 5 {
        if id[0] == 'b' {
            10
        } else if id[0] == 'f' {
            14
        } else {
            15
        }
    } else if id.len() == 6 {
        if id[2] == 'f' {
            7
        } else if id[2] == 'g' {
            11
        } else if id[2] == 'v' {
            18
        } else if id[2] == 'o' {
            20
        } else {
            22
        }
    } else if id.len() == 7 {
        if id[0] == 'f' {
            8
        } else {
            17
        }
    } else if id.len() == 8 {
        4
    } else if id.len() == 9 {
        if id[0] == 'd' {
            1
        } else {
            16
        }
    } else if id.len() == 10 {
        9
    } else if id.len() == 11 {
        if id[0] == 'g' {
            0
        } else {
            6
        }
    } else if id.len() == 12 {
        2
    } else if id.len() == 13 {
        12
    } else if id.len() == 14 {
        13
    } else {
        21
    }
}

proof fn lemma_only_place(i: int)
    requires
        0 <= i < STATION_COUNT,
    ensures
        only_place(station_at(i).id) == i,
{
    if i == 0 {
        reveal_strlit("groovesalad");
    } else if i == 1 {
        reveal_strlit("dronezone");
    } else if i == 2 {
        reveal_strlit("spacestation");
    } else if i == 3 {
        reveal_strlit("lush");
    } else if i == 4 {
        reveal_strlit("indiepop");
    } else if i == 5 {
        reveal_strlit("u80s");
    } else if i == 6 {
        reveal_strlit("secretagent");
    } else if i == 7 {
        reveal_strlit("defcon");
    } else if i == 8 {
        reveal_strlit("folkfwd");
    } else if i == 9 {
        reveal_strlit("bootliquor");
    } else if i == 10 {
        reveal_strlit("bossa");
    } else if i == 11 {
        reveal_strlit("reggae");
    } else if i == 12 {
        reveal_strlit("sonicuniverse");
    } else if i == 13 {
        reveal_strlit("missioncontrol");
    } else if i == 14 {
        reveal_strlit("fluid");
    } else if i == 15 {
        reveal_strlit("metal");
    } else if i == 16 {
        reveal_strlit("seventies");
    } else if i == 17 {
        reveal_strlit("poptron");
    } else if i == 18 {
        reveal_strlit("covers");
    } else if i == 19 {
        reveal_strlit("brfm");
    } else if i == 20 {
        reveal_strlit("doomed");
    } else if i == 21 {
        reveal_strlit("rockantenne-metal");
    } else if i == 22 {
        reveal_strlit("kohina");
    } else {
        reveal_strlit("knac");
    }
}

/// No two stations have the same id.
pub proof fn station_ids_are_unique(i: int, j: int)
    requires
        0 <= i < STATION_COUNT,
        0 <= j < STATION_COUNT,
        station_at(i).id == station_at(j).id,
    ensures
        i == j,
{
    lemma_only_place(i);
    lemma_only_place(j);
}

/// Every stream is fetched over https.
pub proof fn streams_are_fetched_over_https(i: int)
    requires
        0 <= i < STATION_COUNT,
    ensures
        "https://"@.is_prefix_of(station_at(i).stream_url),
{
    reveal_strlit("https://");
    if i == 0 {
        reveal_strlit("https://ice.somafm.com/groovesalad-128-mp3");
    } else if i == 1 {
        reveal_strlit("https://ice.somafm.com/dronezone-128-mp3");
    } else if i == 2 {
        reveal_strlit("https://ice.somafm.com/spacestation-128-mp3");
    } else if i == 3 {
        reveal_strlit("https://ice.somafm.com/lush-128-mp3");
    } else if i == 4 {
        reveal_strlit("https://ice.somafm.com/indiepop-128-mp3");
    } else if i == 5 {
        reveal_strlit("https://ice.somafm.com/u80s-128-mp3");
    } else if i == 6 {
        reveal_strlit("https://ice.somafm.com/secretagent-128-mp3");
    } else if i == 7 {
        reveal_strlit("https://ice.somafm.com/defcon-128-mp3");
    } else if i == 8 {
        reveal_strlit("https://ice.somafm.com/folkfwd-128-mp3");
    } else if i == 9 {
        reveal_strlit("https://ice.somafm.com/bootliquor-128-mp3");
    } else if i == 10 {
        reveal_strlit("https://ice.somafm.com/bossa-128-mp3");
    } else if i == 11 {
        reveal_strlit("https://ice.somafm.com/reggae-128-mp3");
    } else if i == 12 {
        reveal_strlit("https://ice.somafm.com/sonicuniverse-128-mp3");
    } else if i == 13 {
        reveal_strlit("https://ice.somafm.com/missioncontrol-128-mp3");
    } else if i == 14 {
        reveal_strlit("https://ice.somafm.com/fluid-128-mp3");
    } else if i == 15 {
        reveal_strlit("https://ice.somafm.com/metal-128-mp3");
    } else if i == 16 {
        reveal_strlit("https://ice.somafm.com/seventies-128-mp3");
    } else if i == 17 {
        reveal_strlit("https://ice.somafm.com/poptron-128-mp3");
    } else if i == 18 {
        reveal_strlit("https://ice.somafm.com/covers-128-mp3");
    } else if i == 19 {
        reveal_strlit("https://ice.somafm.com/brfm-128-mp3");
    } else if i == 20 {
        reveal_strlit("https://ice.somafm.com/doomed-128-mp3");
    } else if i == 21 {
        reveal_strlit("https://stream.rockantenne.de/heavy-metal/stream/mp3");
    } else if i == 22 {
        reveal_strlit("https://kohina.brona.dk/icecast/stream.ogg");
    } else {
        reveal_strlit("https://s6.autopo.st/proxy/ggjdvxin?mp=/stream");
    }
    assert("https://"@ =~= station_at(i).stream_url.subrange(0, 8));
}

/// The stations of the picker, in its order.
#[verifier::rlimit(50)]
pub fn radio_stations() -> (stations: Vec<RadioStation>)
    ensures
        stations@.len() == STATION_COUNT,
        forall|i: int| 0 <= i < STATION_COUNT ==> (#[trigger] stations@[i])@ == station_at(i),
{
    let mut stations: Vec<RadioStation> = Vec::new();
    let genres: Vec<&'static str> = vec!["ambient", "electronic"];
    assert(genre_texts(genres@) =~= station_at(0).genres);
    stations.push(
        RadioStation {
            id: "groovesalad",
            title: "Groove Salad",
            genres,
            description: "A nicely chilled plate of ambient/downtempo beats and grooves.",
            stream_url: "https://ice.somafm.com/groovesalad-128-mp3",
            codec: RadioCodec::Mp3,
            bitrate: Some(128),
            now_playing: Some(NowPlayingSource::SomaFm("https://api.somafm.com/songs/groovesalad.json")),
        },
    );
    assert(stations@[0]@ == station_at(0));
    let genres: Vec<&'static str> = vec!["ambient"];
    assert(genre_texts(genres@) =~= station_at(1).genres);
    stations.push(
        RadioStation {
            id: "dronezone",
            title: "Drone Zone",
            genres,
            description: "Served best chilled, safe with most medications. Atmospheric textures with minimal beats.",
            stream_url: "https://ice.somafm.com/dronezone-128-mp3",
            codec: RadioCodec::Mp3,
            bitrate: Some(128),
            now_playing: Some(NowPlayingSource::SomaFm("https://api.somafm.com/songs/dronezone.json")),
        },
    );
    assert(stations@[1]@ == station_at(1));
    let genres: Vec<&'static str> = vec!["electronic"];
    assert(genre_texts(genres@) =~= station_at(2).genres);
    stations.push(
        RadioStation {
            id: "spacestation",
            title: "Space Station Soma",
            genres,
            description: "Tune in, turn on, space out. Spaced-out ambient and mid-tempo electronica.",
            stream_url: "https://ice.somafm.com/spacestation-128-mp3",
            codec: RadioCodec::Mp3,
            bitrate: Some(128),
            now_playing: Some(NowPlayingSource::SomaFm("https://api.somafm.com/songs/spacestation.json")),
        },
    );
    assert(stations@[2]@ == station_at(2));
    let genres: Vec<&'static str> = vec!["electronic"];
    assert(genre_texts(genres@) =~= station_at(3).genres);
    stations.push(
        RadioStation {
            id: "lush",
            title: "Lush",
            genres,
            description: "Sensuous and mellow female vocals, many with an electronic influence.",
            stream_url: "https://ice.somafm.com/lush-128-mp3",
            codec: RadioCodec::Mp3,
            bitrate: Some(128),
            now_playing: Some(NowPlayingSource::SomaFm("https://api.somafm.com/songs/lush.json")),
        },
    );
    assert(stations@[3]@ == station_at(3));
    let genres: Vec<&'static str> = vec!["alternative", "rock"];
    assert(genre_texts(genres@) =~= station_at(4).genres);
    stations.push(
        RadioStation {
            id: "indiepop",
            title: "Indie Pop Rocks!",
            genres,
            description: "New and classic favorite indie pop tracks.",
            stream_url: "https://ice.somafm.com/indiepop-128-mp3",
            codec: RadioCodec::Mp3,
            bitrate: Some(128),
            now_playing: Some(NowPlayingSource::SomaFm("https://api.somafm.com/songs/indiepop.json")),
        },
    );
    assert(stations@[4]@ == station_at(4));
    let genres: Vec<&'static str> = vec!["alternative", "electronic"];
    assert(genre_texts(genres@) =~= station_at(5).genres);
    stations.push(
        RadioStation {
            id: "u80s",
            title: "Underground 80s",
            genres,
            description: "Early 80s UK Synthpop and a bit of New Wave.",
            stream_url: "https://ice.somafm.com/u80s-128-mp3",
            codec: RadioCodec::Mp3,
            bitrate: Some(128),
            now_playing: Some(NowPlayingSource::SomaFm("https://api.somafm.com/songs/u80s.json")),
        },
    );
    assert(stations@[5]@ == station_at(5));
    let genres: Vec<&'static str> = vec!["lounge"];
    assert(genre_texts(genres@) =~= station_at(6).genres);
    stations.push(
        RadioStation {
            id: "secretagent",
            title: "Secret Agent",
            genres,
            description: "The soundtrack for your stylish, mysterious, dangerous life. For Spies and PIs too!",
            stream_url: "https://ice.somafm.com/secretagent-128-mp3",
            codec: RadioCodec::Mp3,
            bitrate: Some(128),
            now_playing: Some(NowPlayingSource::SomaFm("https://api.somafm.com/songs/secretagent.json")),
        },
    );
    assert(stations@[6]@ == station_at(6));
    let genres: Vec<&'static str> = vec!["electronic", "specials"];
    assert(genre_texts(genres@) =~= station_at(7).genres);
    stations.push(
        RadioStation {
            id: "defcon",
            title: "DEF CON Radio",
            genres,
            description: "Music for Hacking. The DEF CON Year-Round Channel.",
            stream_url: "https://ice.somafm.com/defcon-128-mp3",
            codec: RadioCodec::Mp3,
            bitrate: Some(128),
            now_playing: Some(NowPlayingSource::SomaFm("https://api.somafm.com/songs/defcon.json")),
        },
    );
    assert(stations@[7]@ == station_at(7));
    let genres: Vec<&'static str> = vec!["folk", "alternative"];
    assert(genre_texts(genres@) =~= station_at(8).genres);
    stations.push(
        RadioStation {
            id: "folkfwd",
            title: "Folk Forward",
            genres,
            description: "Indie Folk, Alt-folk and the occasional folk classics. ",
            stream_url: "https://ice.somafm.com/folkfwd-128-mp3",
            codec: RadioCodec::Mp3,
            bitrate: Some(128),
            now_playing: Some(NowPlayingSource::SomaFm("https://api.somafm.com/songs/folkfwd.json")),
        },
    );
    assert(stations@[8]@ == station_at(8));
    let genres: Vec<&'static str> = vec!["americana"];
    assert(genre_texts(genres@) =~= station_at(9).genres);
    stations.push(
        RadioStation {
            id: "bootliquor",
            title: "Boot Liquor",
            genres,
            description: "Americana Roots music for Cowhands, Cowpokes and Cowtippers",
            stream_url: "https://ice.somafm.com/bootliquor-128-mp3",
            codec: RadioCodec::Mp3,
            bitrate: Some(128),
            now_playing: Some(NowPlayingSource::SomaFm("https://api.somafm.com/songs/bootliquor.json")),
        },
    );
    assert(stations@[9]@ == station_at(9));
    let genres: Vec<&'static str> = vec!["bossanova", "world"];
    assert(genre_texts(genres@) =~= station_at(10).genres);
    stations.push(
        RadioStation {
            id: "bossa",
            title: "Bossa Beyond",
            genres,
            description: "Silky-smooth, laid-back Brazilian-style rhythms of Bossa Nova, Samba and beyond",
            stream_url: "https://ice.somafm.com/bossa-128-mp3",
            codec: RadioCodec::Mp3,
            bitrate: Some(128),
            now_playing: Some(NowPlayingSource::SomaFm("https://api.somafm.com/songs/bossa.json")),
        },
    );
    assert(stations@[10]@ == station_at(10));
    let genres: Vec<&'static str> = vec!["reggae"];
    assert(genre_texts(genres@) =~= station_at(11).genres);
    stations.push(
        RadioStation {
            id: "reggae",
            title: "Heavyweight Reggae",
            genres,
            description: "Reggae, Ska, Rocksteady classic and deep tracks.",
            stream_url: "https://ice.somafm.com/reggae-128-mp3",
            codec: RadioCodec::Mp3,
            bitrate: Some(160),
            now_playing: Some(NowPlayingSource::SomaFm("https://api.somafm.com/songs/reggae.json")),
        },
    );
    assert(stations@[11]@ == station_at(11));
    let genres: Vec<&'static str> = vec!["jazz"];
    assert(genre_texts(genres@) =~= station_at(12).genres);
    stations.push(
        RadioStation {
            id: "sonicuniverse",
            title: "Sonic Universe",
            genres,
            description: "Transcending the world of jazz with eclectic, avant-garde takes on tradition.",
            stream_url: "https://ice.somafm.com/sonicuniverse-128-mp3",
            codec: RadioCodec::Mp3,
            bitrate: Some(128),
            now_playing: Some(NowPlayingSource::SomaFm("https://api.somafm.com/songs/sonicuniverse.json")),
        },
    );
    assert(stations@[12]@ == station_at(12));
    let genres: Vec<&'static str> = vec!["ambient", "electronic"];
    assert(genre_texts(genres@) =~= station_at(13).genres);
    stations.push(
        RadioStation {
            id: "missioncontrol",
            title: "Mission Control",
            genres,
            description: "Celebrating NASA and Space Explorers everywhere.",
            stream_url: "https://ice.somafm.com/missioncontrol-128-mp3",
            codec: RadioCodec::Mp3,
            bitrate: Some(128),
            now_playing: Some(NowPlayingSource::SomaFm("https://api.somafm.com/songs/missioncontrol.json")),
        },
    );
    assert(stations@[13]@ == station_at(13));
    let genres: Vec<&'static str> = vec!["electronic", "hiphop"];
    assert(genre_texts(genres@) =~= station_at(14).genres);
    stations.push(
        RadioStation {
            id: "fluid",
            title: "Fluid",
            genres,
            description: "Drown in the electronic sound of instrumental hiphop, future soul and liquid trap.",
            stream_url: "https://ice.somafm.com/fluid-128-mp3",
            codec: RadioCodec::Mp3,
            bitrate: Some(128),
            now_playing: Some(NowPlayingSource::SomaFm("https://api.somafm.com/songs/fluid.json")),
        },
    );
    assert(stations@[14]@ == station_at(14));
    let genres: Vec<&'static str> = vec!["metal"];
    assert(genre_texts(genres@) =~= station_at(15).genres);
    stations.push(
        RadioStation {
            id: "metal",
            title: "Metal Detector",
            genres,
            description: "From black to doom, prog to sludge, thrash to post, stoner to crossover, punk to industrial.",
            stream_url: "https://ice.somafm.com/metal-128-mp3",
            codec: RadioCodec::Mp3,
            bitrate: Some(128),
            now_playing: Some(NowPlayingSource::SomaFm("https://api.somafm.com/songs/metal.json")),
        },
    );
    assert(stations@[15]@ == station_at(15));
    let genres: Vec<&'static str> = vec!["70s", "rock"];
    assert(genre_texts(genres@) =~= station_at(16).genres);
    stations.push(
        RadioStation {
            id: "seventies",
            title: "Left Coast 70s",
            genres,
            description: "Mellow album rock from the Seventies. Yacht not required.",
            stream_url: "https://ice.somafm.com/seventies-128-mp3",
            codec: RadioCodec::Mp3,
            bitrate: Some(128),
            now_playing: Some(NowPlayingSource::SomaFm("https://api.somafm.com/songs/seventies.json")),
        },
    );
    assert(stations@[16]@ == station_at(16));
    let genres: Vec<&'static str> = vec!["alternative"];
    assert(genre_texts(genres@) =~= station_at(17).genres);
    stations.push(
        RadioStation {
            id: "poptron",
            title: "PopTron",
            genres,
            description: "Electropop and indie dance rock with sparkle and pop.",
            stream_url: "https://ice.somafm.com/poptron-128-mp3",
            codec: RadioCodec::Mp3,
            bitrate: Some(128),
            now_playing: Some(NowPlayingSource::SomaFm("https://api.somafm.com/songs/poptron.json")),
        },
    );
    assert(stations@[17]@ == station_at(17));
    let genres: Vec<&'static str> = vec!["eclectic"];
    assert(genre_texts(genres@) =~= station_at(18).genres);
    stations.push(
        RadioStation {
            id: "covers",
            title: "Covers",
            genres,
            description: "Just covers. Songs you know by artists you don't. We've got you covered.",
            stream_url: "https://ice.somafm.com/covers-128-mp3",
            codec: RadioCodec::Mp3,
            bitrate: Some(128),
            now_playing: Some(NowPlayingSource::SomaFm("https://api.somafm.com/songs/covers.json")),
        },
    );
    assert(stations@[18]@ == station_at(18));
    let genres: Vec<&'static str> = vec!["eclectic"];
    assert(genre_texts(genres@) =~= station_at(19).genres);
    stations.push(
        RadioStation {
            id: "brfm",
            title: "Black Rock FM",
            genres,
            description: "From the Black Rock Desert playa to the world, year round!",
            stream_url: "https://ice.somafm.com/brfm-128-mp3",
            codec: RadioCodec::Mp3,
            bitrate: Some(128),
            now_playing: Some(NowPlayingSource::SomaFm("https://api.somafm.com/songs/brfm.json")),
        },
    );
    assert(stations@[19]@ == station_at(19));
    let genres: Vec<&'static str> = vec!["ambient", "industrial"];
    assert(genre_texts(genres@) =~= station_at(20).genres);
    stations.push(
        RadioStation {
            id: "doomed",
            title: "Doomed",
            genres,
            description: "Where every day is Halloween: dark industrial/ambient music for tortured souls.",
            stream_url: "https://ice.somafm.com/doomed-128-mp3",
            codec: RadioCodec::Mp3,
            bitrate: Some(128),
            now_playing: Some(NowPlayingSource::SomaFm("https://api.somafm.com/songs/doomed.json")),
        },
    );
    assert(stations@[20]@ == station_at(20));
    let genres: Vec<&'static str> = vec!["metal", "rock"];
    assert(genre_texts(genres@) =~= station_at(21).genres);
    stations.push(
        RadioStation {
            id: "rockantenne-metal",
            title: "ROCK ANTENNE Heavy Metal",
            genres,
            description: "Heavy metal around the clock, from Bavaria's rock station.",
            stream_url: "https://stream.rockantenne.de/heavy-metal/stream/mp3",
            codec: RadioCodec::Mp3,
            bitrate: Some(128),
            now_playing: None,
        },
    );
    assert(stations@[21]@ == station_at(21));
    let genres: Vec<&'static str> = vec!["chiptune", "demoscene"];
    assert(genre_texts(genres@) =~= station_at(22).genres);
    stations.push(
        RadioStation {
            id: "kohina",
            title: "Kohina",
            genres,
            description: "Hand picked chip tunes from classic computers and consoles. SID, Amiga, Atari ST, Arcade, PC, and more!",
            stream_url: "https://kohina.brona.dk/icecast/stream.ogg",
            codec: RadioCodec::Vorbis,
            bitrate: Some(128),
            now_playing: Some(
                NowPlayingSource::IcecastStatus {
                    url: "https://kohina.brona.dk/icecast/status-json.xsl",
                    mount: "/stream.ogg",
                },
            ),
        },
    );
    assert(stations@[22]@ == station_at(22));
    let genres: Vec<&'static str> = vec!["rock", "metal"];
    assert(genre_texts(genres@) =~= station_at(23).genres);
    stations.push(
        RadioStation {
            id: "knac",
            title: "KNAC Pure Rock",
            genres,
            description: "Hard rock and metal out of Los Angeles. The loudest dot com on the planet.",
            stream_url: "https://s6.autopo.st/proxy/ggjdvxin?mp=/stream",
            codec: RadioCodec::Mp3,
            bitrate: Some(128),
            now_playing: None,
        },
    );
    assert(stations@[23]@ == station_at(23));
    stations
}

/// The stations of SomaFM stream and tell their songs under their ids, as MP3
/// of 128 kbit/s, the one for reggae of 160.
#[verifier::rlimit(100)]
#[verifier::spinoff_prover]
pub proof fn somafm_stations_are_found_by_their_id(i: int)
    requires
        0 <= i < 21,
    ensures
        station_at(i).stream_url == "https://ice.somafm.com/"@ + station_at(i).id + "-128-mp3"@,
        station_at(i).now_playing == Some(
            SourceView::SomaFm("https://api.somafm.com/songs/"@ + station_at(i).id + ".json"@),
        ),
        station_at(i).codec == RadioCodec::Mp3,
        station_at(i).bitrate == Some(
            if i == 11 {
                160u32
            } else {
                128u32
            },
        ),
{
    if i == 0 {
        lemma_somafm_0();
    } else if i == 1 {
        lemma_somafm_1();
    } else if i == 2 {
        lemma_somafm_2();
    } else if i == 3 {
        lemma_somafm_3();
    } else if i == 4 {
        lemma_somafm_4();
    } else if i == 5 {
        lemma_somafm_5();
    } else if i == 6 {
        lemma_somafm_6();
    } else if i == 7 {
        lemma_somafm_7();
    } else if i == 8 {
        lemma_somafm_8();
    } else if i == 9 {
        lemma_somafm_9();
    } else if i == 10 {
        lemma_somafm_10();
    } else if i == 11 {
        lemma_somafm_11();
    } else if i == 12 {
        lemma_somafm_12();
    } else if i == 13 {
        lemma_somafm_13();
    } else if i == 14 {
        lemma_somafm_14();
    } else if i == 15 {
        lemma_somafm_15();
    } else if i == 16 {
        lemma_somafm_16();
    } else if i == 17 {
        lemma_somafm_17();
    } else if i == 18 {
        lemma_somafm_18();
    } else if i == 19 {
        lemma_somafm_19();
    } else {
        lemma_somafm_20();
    }
}

proof fn lemma_somafm_0()
    ensures
        "https://ice.somafm.com/groovesalad-128-mp3"@ == "https://ice.somafm.com/"@ + "groovesalad"@
            + "-128-mp3"@,
        "https://api.somafm.com/songs/groovesalad.json"@ == "https://api.somafm.com/songs/"@
            + "groovesalad"@ + ".json"@,
{
    reveal_strlit("https://ice.somafm.com/groovesalad-128-mp3");
    reveal_strlit("https://ice.somafm.com/");
    reveal_strlit("groovesalad");
    reveal_strlit("-128-mp3");
    reveal_strlit("https://api.somafm.com/songs/groovesalad.json");
    reveal_strlit("https://api.somafm.com/songs/");
    reveal_strlit(".json");
    assert("https://ice.somafm.com/groovesalad-128-mp3"@ =~= "https://ice.somafm.com/"@ + "groovesalad"@
        + "-128-mp3"@);
    assert("https://api.somafm.com/songs/groovesalad.json"@ =~= "https://api.somafm.com/songs/"@
        + "groovesalad"@ + ".json"@);
}

proof fn lemma_somafm_1()
    ensures
        "https://ice.somafm.com/dronezone-128-mp3"@ == "https://ice.somafm.com/"@ + "dronezone"@
            + "-128-mp3"@,
        "https://api.somafm.com/songs/dronezone.json"@ == "https://api.somafm.com/songs/"@
            + "dronezone"@ + ".json"@,
{
    reveal_strlit("https://ice.somafm.com/dronezone-128-mp3");
    reveal_strlit("https://ice.somafm.com/");
    reveal_strlit("dronezone");
    reveal_strlit("-128-mp3");
    reveal_strlit("https://api.somafm.com/songs/dronezone.json");
    reveal_strlit("https://api.somafm.com/songs/");
    reveal_strlit(".json");
    assert("https://ice.somafm.com/dronezone-128-mp3"@ =~= "https://ice.somafm.com/"@ + "dronezone"@
        + "-128-mp3"@);
    assert("https://api.somafm.com/songs/dronezone.json"@ =~= "https://api.somafm.com/songs/"@
        + "dronezone"@ + ".json"@);
}

proof fn lemma_somafm_2()
    ensures
        "https://ice.somafm.com/spacestation-128-mp3"@ == "https://ice.somafm.com/"@ + "spacestation"@
            + "-128-mp3"@,
        "https://api.somafm.com/songs/spacestation.json"@ == "https://api.somafm.com/songs/"@
            + "spacestation"@ + ".json"@,
{
    reveal_strlit("https://ice.somafm.com/spacestation-128-mp3");
    reveal_strlit("https://ice.somafm.com/");
    reveal_strlit("spacestation");
    reveal_strlit("-128-mp3");
    reveal_strlit("https://api.somafm.com/songs/spacestation.json");
    reveal_strlit("https://api.somafm.com/songs/");
    reveal_strlit(".json");
    assert("https://ice.somafm.com/spacestation-128-mp3"@ =~= "https://ice.somafm.com/"@ + "spacestation"@
        + "-128-mp3"@);
    assert("https://api.somafm.com/songs/spacestation.json"@ =~= "https://api.somafm.com/songs/"@
        + "spacestation"@ + ".json"@);
}

proof fn lemma_somafm_3()
    ensures
        "https://ice.somafm.com/lush-128-mp3"@ == "https://ice.somafm.com/"@ + "lush"@
            + "-128-mp3"@,
        "https://api.somafm.com/songs/lush.json"@ == "https://api.somafm.com/songs/"@
            + "lush"@ + ".json"@,
{
    reveal_strlit("https://ice.somafm.com/lush-128-mp3");
    reveal_strlit("https://ice.somafm.com/");
    reveal_strlit("lush");
    reveal_strlit("-128-mp3");
    reveal_strlit("https://api.somafm.com/songs/lush.json");
    reveal_strlit("https://api.somafm.com/songs/");
    reveal_strlit(".json");
    assert("https://ice.somafm.com/lush-128-mp3"@ =~= "https://ice.somafm.com/"@ + "lush"@
        + "-128-mp3"@);
    assert("https://api.somafm.com/songs/lush.json"@ =~= "https://api.somafm.com/songs/"@
        + "lush"@ + ".json"@);
}

proof fn lemma_somafm_4()
    ensures
        "https://ice.somafm.com/indiepop-128-mp3"@ == "https://ice.somafm.com/"@ + "indiepop"@
            + "-128-mp3"@,
        "https://api.somafm.com/songs/indiepop.json"@ == "https://api.somafm.com/songs/"@
            + "indiepop"@ + ".json"@,
{
    reveal_strlit("https://ice.somafm.com/indiepop-128-mp3");
    reveal_strlit("https://ice.somafm.com/");
    reveal_strlit("indiepop");
    reveal_strlit("-128-mp3");
    reveal_strlit("https://api.somafm.com/songs/indiepop.json");
    reveal_strlit("https://api.somafm.com/songs/");
    reveal_strlit(".json");
    assert("https://ice.somafm.com/indiepop-128-mp3"@ =~= "https://ice.somafm.com/"@ + "indiepop"@
        + "-128-mp3"@);
    assert("https://api.somafm.com/songs/indiepop.json"@ =~= "https://api.somafm.com/songs/"@
        + "indiepop"@ + ".json"@);
}

proof fn lemma_somafm_5()
    ensures
        "https://ice.somafm.com/u80s-128-mp3"@ == "https://ice.somafm.com/"@ + "u80s"@
            + "-128-mp3"@,
        "https://api.somafm.com/songs/u80s.json"@ == "https://api.somafm.com/songs/"@
            + "u80s"@ + ".json"@,
{
    reveal_strlit("https://ice.somafm.com/u80s-128-mp3");
    reveal_strlit("https://ice.somafm.com/");
    reveal_strlit("u80s");
    reveal_strlit("-128-mp3");
    reveal_strlit("https://api.somafm.com/songs/u80s.json");
    reveal_strlit("https://api.somafm.com/songs/");
    reveal_strlit(".json");
    assert("https://ice.somafm.com/u80s-128-mp3"@ =~= "https://ice.somafm.com/"@ + "u80s"@
        + "-128-mp3"@);
    assert("https://api.somafm.com/songs/u80s.json"@ =~= "https://api.somafm.com/songs/"@
        + "u80s"@ + ".json"@);
}

proof fn lemma_somafm_6()
    ensures
        "https://ice.somafm.com/secretagent-128-mp3"@ == "https://ice.somafm.com/"@ + "secretagent"@
            + "-128-mp3"@,
        "https://api.somafm.com/songs/secretagent.json"@ == "https://api.somafm.com/songs/"@
            + "secretagent"@ + ".json"@,
{
    reveal_strlit("https://ice.somafm.com/secretagent-128-mp3");
    reveal_strlit("https://ice.somafm.com/");
    reveal_strlit("secretagent");
    reveal_strlit("-128-mp3");
    reveal_strlit("https://api.somafm.com/songs/secretagent.json");
    reveal_strlit("https://api.somafm.com/songs/");
    reveal_strlit(".json");
    assert("https://ice.somafm.com/secretagent-128-mp3"@ =~= "https://ice.somafm.com/"@ + "secretagent"@
        + "-128-mp3"@);
    assert("https://api.somafm.com/songs/secretagent.json"@ =~= "https://api.somafm.com/songs/"@
        + "secretagent"@ + ".json"@);
}

proof fn lemma_somafm_7()
    ensures
        "https://ice.somafm.com/defcon-128-mp3"@ == "https://ice.somafm.com/"@ + "defcon"@
            + "-128-mp3"@,
        "https://api.somafm.com/songs/defcon.json"@ == "https://api.somafm.com/songs/"@
            + "defcon"@ + ".json"@,
{
    reveal_strlit("https://ice.somafm.com/defcon-128-mp3");
    reveal_strlit("https://ice.somafm.com/");
    reveal_strlit("defcon");
    reveal_strlit("-128-mp3");
    reveal_strlit("https://api.somafm.com/songs/defcon.json");
    reveal_strlit("https://api.somafm.com/songs/");
    reveal_strlit(".json");
    assert("https://ice.somafm.com/defcon-128-mp3"@ =~= "https://ice.somafm.com/"@ + "defcon"@
        + "-128-mp3"@);
    assert("https://api.somafm.com/songs/defcon.json"@ =~= "https://api.somafm.com/songs/"@
        + "defcon"@ + ".json"@);
}

proof fn lemma_somafm_8()
    ensures
        "https://ice.somafm.com/folkfwd-128-mp3"@ == "https://ice.somafm.com/"@ + "folkfwd"@
            + "-128-mp3"@,
        "https://api.somafm.com/songs/folkfwd.json"@ == "https://api.somafm.com/songs/"@
            + "folkfwd"@ + ".json"@,
{
    reveal_strlit("https://ice.somafm.com/folkfwd-128-mp3");
    reveal_strlit("https://ice.somafm.com/");
    reveal_strlit("folkfwd");
    reveal_strlit("-128-mp3");
    reveal_strlit("https://api.somafm.com/songs/folkfwd.json");
    reveal_strlit("https://api.somafm.com/songs/");
    reveal_strlit(".json");
    assert("https://ice.somafm.com/folkfwd-128-mp3"@ =~= "https://ice.somafm.com/"@ + "folkfwd"@
        + "-128-mp3"@);
    assert("https://api.somafm.com/songs/folkfwd.json"@ =~= "https://api.somafm.com/songs/"@
        + "folkfwd"@ + ".json"@);
}

proof fn lemma_somafm_9()
    ensures
        "https://ice.somafm.com/bootliquor-128-mp3"@ == "https://ice.somafm.com/"@ + "bootliquor"@
            + "-128-mp3"@,
        "https://api.somafm.com/songs/bootliquor.json"@ == "https://api.somafm.com/songs/"@
            + "bootliquor"@ + ".json"@,
{
    reveal_strlit("https://ice.somafm.com/bootliquor-128-mp3");
    reveal_strlit("https://ice.somafm.com/");
    reveal_strlit("bootliquor");
    reveal_strlit("-128-mp3");
    reveal_strlit("https://api.somafm.com/songs/bootliquor.json");
    reveal_strlit("https://api.somafm.com/songs/");
    reveal_strlit(".json");
    assert("https://ice.somafm.com/bootliquor-128-mp3"@ =~= "https://ice.somafm.com/"@ + "bootliquor"@
        + "-128-mp3"@);
    assert("https://api.somafm.com/songs/bootliquor.json"@ =~= "https://api.somafm.com/songs/"@
        + "bootliquor"@ + ".json"@);
}

proof fn lemma_somafm_10()
    ensures
        "https://ice.somafm.com/bossa-128-mp3"@ == "https://ice.somafm.com/"@ + "bossa"@
            + "-128-mp3"@,
        "https://api.somafm.com/songs/bossa.json"@ == "https://api.somafm.com/songs/"@
            + "bossa"@ + ".json"@,
{
    reveal_strlit("https://ice.somafm.com/bossa-128-mp3");
    reveal_strlit("https://ice.somafm.com/");
    reveal_strlit("bossa");
    reveal_strlit("-128-mp3");
    reveal_strlit("https://api.somafm.com/songs/bossa.json");
    reveal_strlit("https://api.somafm.com/songs/");
    reveal_strlit(".json");
    assert("https://ice.somafm.com/bossa-128-mp3"@ =~= "https://ice.somafm.com/"@ + "bossa"@
        + "-128-mp3"@);
    assert("https://api.somafm.com/songs/bossa.json"@ =~= "https://api.somafm.com/songs/"@
        + "bossa"@ + ".json"@);
}

proof fn lemma_somafm_11()
    ensures
        "https://ice.somafm.com/reggae-128-mp3"@ == "https://ice.somafm.com/"@ + "reggae"@
            + "-128-mp3"@,
        "https://api.somafm.com/songs/reggae.json"@ == "https://api.somafm.com/songs/"@
            + "reggae"@ + ".json"@,
{
    reveal_strlit("https://ice.somafm.com/reggae-128-mp3");
    reveal_strlit("https://ice.somafm.com/");
    reveal_strlit("reggae");
    reveal_strlit("-128-mp3");
    reveal_strlit("https://api.somafm.com/songs/reggae.json");
    reveal_strlit("https://api.somafm.com/songs/");
    reveal_strlit(".json");
    assert("https://ice.somafm.com/reggae-128-mp3"@ =~= "https://ice.somafm.com/"@ + "reggae"@
        + "-128-mp3"@);
    assert("https://api.somafm.com/songs/reggae.json"@ =~= "https://api.somafm.com/songs/"@
        + "reggae"@ + ".json"@);
}

proof fn lemma_somafm_12()
    ensures
        "https://ice.somafm.com/sonicuniverse-128-mp3"@ == "https://ice.somafm.com/"@ + "sonicuniverse"@
            + "-128-mp3"@,
        "https://api.somafm.com/songs/sonicuniverse.json"@ == "https://api.somafm.com/songs/"@
            + "sonicuniverse"@ + ".json"@,
{
    reveal_strlit("https://ice.somafm.com/sonicuniverse-128-mp3");
    reveal_strlit("https://ice.somafm.com/");
    reveal_strlit("sonicuniverse");
    reveal_strlit("-128-mp3");
    reveal_strlit("https://api.somafm.com/songs/sonicuniverse.json");
    reveal_strlit("https://api.somafm.com/songs/");
    reveal_strlit(".json");
    assert("https://ice.somafm.com/sonicuniverse-128-mp3"@ =~= "https://ice.somafm.com/"@ + "sonicuniverse"@
        + "-128-mp3"@);
    assert("https://api.somafm.com/songs/sonicuniverse.json"@ =~= "https://api.somafm.com/songs/"@
        + "sonicuniverse"@ + ".json"@);
}

proof fn lemma_somafm_13()
    ensures
        "https://ice.somafm.com/missioncontrol-128-mp3"@ == "https://ice.somafm.com/"@ + "missioncontrol"@
            + "-128-mp3"@,
        "https://api.somafm.com/songs/missioncontrol.json"@ == "https://api.somafm.com/songs/"@
            + "missioncontrol"@ + ".json"@,
{
    reveal_strlit("https://ice.somafm.com/missioncontrol-128-mp3");
    reveal_strlit("https://ice.somafm.com/");
    reveal_strlit("missioncontrol");
    reveal_strlit("-128-mp3");
    reveal_strlit("https://api.somafm.com/songs/missioncontrol.json");
    reveal_strlit("https://api.somafm.com/songs/");
    reveal_strlit(".json");
    assert("https://ice.somafm.com/missioncontrol-128-mp3"@ =~= "https://ice.somafm.com/"@ + "missioncontrol"@
        + "-128-mp3"@);
    assert("https://api.somafm.com/songs/missioncontrol.json"@ =~= "https://api.somafm.com/songs/"@
        + "missioncontrol"@ + ".json"@);
}

proof fn lemma_somafm_14()
    ensures
        "https://ice.somafm.com/fluid-128-mp3"@ == "https://ice.somafm.com/"@ + "fluid"@
            + "-128-mp3"@,
        "https://api.somafm.com/songs/fluid.json"@ == "https://api.somafm.com/songs/"@
            + "fluid"@ + ".json"@,
{
    reveal_strlit("https://ice.somafm.com/fluid-128-mp3");
    reveal_strlit("https://ice.somafm.com/");
    reveal_strlit("fluid");
    reveal_strlit("-128-mp3");
    reveal_strlit("https://api.somafm.com/songs/fluid.json");
    reveal_strlit("https://api.somafm.com/songs/");
    reveal_strlit(".json");
    assert("https://ice.somafm.com/fluid-128-mp3"@ =~= "https://ice.somafm.com/"@ + "fluid"@
        + "-128-mp3"@);
    assert("https://api.somafm.com/songs/fluid.json"@ =~= "https://api.somafm.com/songs/"@
        + "fluid"@ + ".json"@);
}

proof fn lemma_somafm_15()
    ensures
        "https://ice.somafm.com/metal-128-mp3"@ == "https://ice.somafm.com/"@ + "metal"@
            + "-128-mp3"@,
        "https://api.somafm.com/songs/metal.json"@ == "https://api.somafm.com/songs/"@
            + "metal"@ + ".json"@,
{
    reveal_strlit("https://ice.somafm.com/metal-128-mp3");
    reveal_strlit("https://ice.somafm.com/");
    reveal_strlit("metal");
    reveal_strlit("-128-mp3");
    reveal_strlit("https://api.somafm.com/songs/metal.json");
    reveal_strlit("https://api.somafm.com/songs/");
    reveal_strlit(".json");
    assert("https://ice.somafm.com/metal-128-mp3"@ =~= "https://ice.somafm.com/"@ + "metal"@
        + "-128-mp3"@);
    assert("https://api.somafm.com/songs/metal.json"@ =~= "https://api.somafm.com/songs/"@
        + "metal"@ + ".json"@);
}

proof fn lemma_somafm_16()
    ensures
        "https://ice.somafm.com/seventies-128-mp3"@ == "https://ice.somafm.com/"@ + "seventies"@
            + "-128-mp3"@,
        "https://api.somafm.com/songs/seventies.json"@ == "https://api.somafm.com/songs/"@
            + "seventies"@ + ".json"@,
{
    reveal_strlit("https://ice.somafm.com/seventies-128-mp3");
    reveal_strlit("https://ice.somafm.com/");
    reveal_strlit("seventies");
    reveal_strlit("-128-mp3");
    reveal_strlit("https://api.somafm.com/songs/seventies.json");
    reveal_strlit("https://api.somafm.com/songs/");
    reveal_strlit(".json");
    assert("https://ice.somafm.com/seventies-128-mp3"@ =~= "https://ice.somafm.com/"@ + "seventies"@
        + "-128-mp3"@);
    assert("https://api.somafm.com/songs/seventies.json"@ =~= "https://api.somafm.com/songs/"@
        + "seventies"@ + ".json"@);
}

proof fn lemma_somafm_17()
    ensures
        "https://ice.somafm.com/poptron-128-mp3"@ == "https://ice.somafm.com/"@ + "poptron"@
            + "-128-mp3"@,
        "https://api.somafm.com/songs/poptron.json"@ == "https://api.somafm.com/songs/"@
            + "poptron"@ + ".json"@,
{
    reveal_strlit("https://ice.somafm.com/poptron-128-mp3");
    reveal_strlit("https://ice.somafm.com/");
    reveal_strlit("poptron");
    reveal_strlit("-128-mp3");
    reveal_strlit("https://api.somafm.com/songs/poptron.json");
    reveal_strlit("https://api.somafm.com/songs/");
    reveal_strlit(".json");
    assert("https://ice.somafm.com/poptron-128-mp3"@ =~= "https://ice.somafm.com/"@ + "poptron"@
        + "-128-mp3"@);
    assert("https://api.somafm.com/songs/poptron.json"@ =~= "https://api.somafm.com/songs/"@
        + "poptron"@ + ".json"@);
}

proof fn lemma_somafm_18()
    ensures
        "https://ice.somafm.com/covers-128-mp3"@ == "https://ice.somafm.com/"@ + "covers"@
            + "-128-mp3"@,
        "https://api.somafm.com/songs/covers.json"@ == "https://api.somafm.com/songs/"@
            + "covers"@ + ".json"@,
{
    reveal_strlit("https://ice.somafm.com/covers-128-mp3");
    reveal_strlit("https://ice.somafm.com/");
    reveal_strlit("covers");
    reveal_strlit("-128-mp3");
    reveal_strlit("https://api.somafm.com/songs/covers.json");
    reveal_strlit("https://api.somafm.com/songs/");
    reveal_strlit(".json");
    assert("https://ice.somafm.com/covers-128-mp3"@ =~= "https://ice.somafm.com/"@ + "covers"@
        + "-128-mp3"@);
    assert("https://api.somafm.com/songs/covers.json"@ =~= "https://api.somafm.com/songs/"@
        + "covers"@ + ".json"@);
}

proof fn lemma_somafm_19()
    ensures
        "https://ice.somafm.com/brfm-128-mp3"@ == "https://ice.somafm.com/"@ + "brfm"@
            + "-128-mp3"@,
        "https://api.somafm.com/songs/brfm.json"@ == "https://api.somafm.com/songs/"@
            + "brfm"@ + ".json"@,
{
    reveal_strlit("https://ice.somafm.com/brfm-128-mp3");
    reveal_strlit("https://ice.somafm.com/");
    reveal_strlit("brfm");
    reveal_strlit("-128-mp3");
    reveal_strlit("https://api.somafm.com/songs/brfm.json");
    reveal_strlit("https://api.somafm.com/songs/");
    reveal_strlit(".json");
    assert("https://ice.somafm.com/brfm-128-mp3"@ =~= "https://ice.somafm.com/"@ + "brfm"@
        + "-128-mp3"@);
    assert("https://api.somafm.com/songs/brfm.json"@ =~= "https://api.somafm.com/songs/"@
        + "brfm"@ + ".json"@);
}

proof fn lemma_somafm_20()
    ensures
        "https://ice.somafm.com/doomed-128-mp3"@ == "https://ice.somafm.com/"@ + "doomed"@
            + "-128-mp3"@,
        "https://api.somafm.com/songs/doomed.json"@ == "https://api.somafm.com/songs/"@
            + "doomed"@ + ".json"@,
{
    reveal_strlit("https://ice.somafm.com/doomed-128-mp3");
    reveal_strlit("https://ice.somafm.com/");
    reveal_strlit("doomed");
    reveal_strlit("-128-mp3");
    reveal_strlit("https://api.somafm.com/songs/doomed.json");
    reveal_strlit("https://api.somafm.com/songs/");
    reveal_strlit(".json");
    assert("https://ice.somafm.com/doomed-128-mp3"@ =~= "https://ice.somafm.com/"@ + "doomed"@
        + "-128-mp3"@);
    assert("https://api.somafm.com/songs/doomed.json"@ =~= "https://api.somafm.com/songs/"@
        + "doomed"@ + ".json"@);
}

/// The picker: the id, the title and the genres of each station, in order.
pub open spec fn picker() -> Seq<(Seq<char>, Seq<char>, Seq<Seq<char>>)> {
    seq![
        ("groovesalad"@, "Groove Salad"@, seq!["ambient"@, "electronic"@]),
        ("dronezone"@, "Drone Zone"@, seq!["ambient"@]),
        ("spacestation"@, "Space Station Soma"@, seq!["electronic"@]),
        ("lush"@, "Lush"@, seq!["electronic"@]),
        ("indiepop"@, "Indie Pop Rocks!"@, seq!["alternative"@, "rock"@]),
        ("u80s"@, "Underground 80s"@, seq!["alternative"@, "electronic"@]),
        ("secretagent"@, "Secret Agent"@, seq!["lounge"@]),
        ("defcon"@, "DEF CON Radio"@, seq!["electronic"@, "specials"@]),
        ("folkfwd"@, "Folk Forward"@, seq!["folk"@, "alternative"@]),
        ("bootliquor"@, "Boot Liquor"@, seq!["americana"@]),
        ("bossa"@, "Bossa Beyond"@, seq!["bossanova"@, "world"@]),
        ("reggae"@, "Heavyweight Reggae"@, seq!["reggae"@]),
        ("sonicuniverse"@, "Sonic Universe"@, seq!["jazz"@]),
        ("missioncontrol"@, "Mission Control"@, seq!["ambient"@, "electronic"@]),
        ("fluid"@, "Fluid"@, seq!["electronic"@, "hiphop"@]),
        ("metal"@, "Metal Detector"@, seq!["metal"@]),
        ("seventies"@, "Left Coast 70s"@, seq!["70s"@, "rock"@]),
        ("poptron"@, "PopTron"@, seq!["alternative"@]),
        ("covers"@, "Covers"@, seq!["eclectic"@]),
        ("brfm"@, "Black Rock FM"@, seq!["eclectic"@]),
        ("doomed"@, "Doomed"@, seq!["ambient"@, "industrial"@]),
        ("rockantenne-metal"@, "ROCK ANTENNE Heavy Metal"@, seq!["metal"@, "rock"@]),
        ("kohina"@, "Kohina"@, seq!["chiptune"@, "demoscene"@]),
        ("knac"@, "KNAC Pure Rock"@, seq!["rock"@, "metal"@]),
    ]
}

/// The stations are those of the picker, in its order.
#[verifier::rlimit(60)]
#[verifier::spinoff_prover]
pub proof fn stations_are_those_of_the_picker(i: int)
    requires
        0 <= i < 24,
    ensures
        picker().len() == 24,
        station_at(i).id == picker()[i].0,
        station_at(i).title == picker()[i].1,
        station_at(i).genres == picker()[i].2,
{
    let list = picker();
    assert(list[0].0 == "groovesalad"@ && list[0].1 == "Groove Salad"@);
    assert(list[0].2 == seq!["ambient"@, "electronic"@]);
    assert(list[1].0 == "dronezone"@ && list[1].1 == "Drone Zone"@);
    assert(list[1].2 == seq!["ambient"@]);
    assert(list[2].0 == "spacestation"@ && list[2].1 == "Space Station Soma"@);
    assert(list[2].2 == seq!["electronic"@]);
    assert(list[3].0 == "lush"@ && list[3].1 == "Lush"@);
    assert(list[3].2 == seq!["electronic"@]);
    assert(list[4].0 == "indiepop"@ && list[4].1 == "Indie Pop Rocks!"@);
    assert(list[4].2 == seq!["alternative"@, "rock"@]);
    assert(list[5].0 == "u80s"@ && list[5].1 == "Underground 80s"@);
    assert(list[5].2 == seq!["alternative"@, "electronic"@]);
    assert(list[6].0 == "secretagent"@ && list[6].1 == "Secret Agent"@);
    assert(list[6].2 == seq!["lounge"@]);
    assert(list[7].0 == "defcon"@ && list[7].1 == "DEF CON Radio"@);
    assert(list[7].2 == seq!["electronic"@, "specials"@]);
    assert(list[8].0 == "folkfwd"@ && list[8].1 == "Folk Forward"@);
    assert(list[8].2 == seq!["folk"@, "alternative"@]);
    assert(list[9].0 == "bootliquor"@ && list[9].1 == "Boot Liquor"@);
    assert(list[9].2 == seq!["americana"@]);
    assert(list[10].0 == "bossa"@ && list[10].1 == "Bossa Beyond"@);
    assert(list[10].2 == seq!["bossanova"@, "world"@]);
    assert(list[11].0 == "reggae"@ && list[11].1 == "Heavyweight Reggae"@);
    assert(list[11].2 == seq!["reggae"@]);
    assert(list[12].0 == "sonicuniverse"@ && list[12].1 == "Sonic Universe"@);
    assert(list[12].2 == seq!["jazz"@]);
    assert(list[13].0 == "missioncontrol"@ && list[13].1 == "Mission Control"@);
    assert(list[13].2 == seq!["ambient"@, "electronic"@]);
    assert(list[14].0 == "fluid"@ && list[14].1 == "Fluid"@);
    assert(list[14].2 == seq!["electronic"@, "hiphop"@]);
    assert(list[15].0 == "metal"@ && list[15].1 == "Metal Detector"@);
    assert(list[15].2 == seq!["metal"@]);
    assert(list[16].0 == "seventies"@ && list[16].1 == "Left Coast 70s"@);
    assert(list[16].2 == seq!["70s"@, "rock"@]);
    assert(list[17].0 == "poptron"@ && list[17].1 == "PopTron"@);
    assert(list[17].2 == seq!["alternative"@]);
    assert(list[18].0 == "covers"@ && list[18].1 == "Covers"@);
    assert(list[18].2 == seq!["eclectic"@]);
    assert(list[19].0 == "brfm"@ && list[19].1 == "Black Rock FM"@);
    assert(list[19].2 == seq!["eclectic"@]);
    assert(list[20].0 == "doomed"@ && list[20].1 == "Doomed"@);
    assert(list[20].2 == seq!["ambient"@, "industrial"@]);
    assert(list[21].0 == "rockantenne-metal"@ && list[21].1 == "ROCK ANTENNE Heavy Metal"@);
    assert(list[21].2 == seq!["metal"@, "rock"@]);
    assert(list[22].0 == "kohina"@ && list[22].1 == "Kohina"@);
    assert(list[22].2 == seq!["chiptune"@, "demoscene"@]);
    assert(list[23].0 == "knac"@ && list[23].1 == "KNAC Pure Rock"@);
    assert(list[23].2 == seq!["rock"@, "metal"@]);
}

/// The stations beside those of SomaFM: one tells its songs in an Icecast
/// status, under its mount, and streams Ogg Vorbis; the others tell none.
pub proof fn other_stations_have_sources_of_their_own()
    ensures
        station_at(21).stream_url == "https://stream.rockantenne.de/heavy-metal/stream/mp3"@,
        station_at(22).stream_url == "https://kohina.brona.dk/icecast/stream.ogg"@,
        station_at(23).stream_url == "https://s6.autopo.st/proxy/ggjdvxin?mp=/stream"@,
        station_at(21).now_playing is None,
        station_at(23).now_playing is None,
        station_at(22).now_playing == Some(
            SourceView::IcecastStatus {
                url: "https://kohina.brona.dk/icecast/status-json.xsl"@,
                mount: "/stream.ogg"@,
            },
        ),
        station_at(21).codec == RadioCodec::Mp3,
        station_at(22).codec == RadioCodec::Vorbis,
        station_at(23).codec == RadioCodec::Mp3,
        station_at(21).bitrate == Some(128u32),
        station_at(22).bitrate == Some(128u32),
        station_at(23).bitrate == Some(128u32),
{
}

} // verus!
