use cordiale::player::{
    block_len, report_failure, BlockBuilder, FeedAction, FeedInput, LiveSource, Playback,
    PlayerEvent, SeekPoint, Station, StationFeed, StreamReader, Tuner, TunerAction, TunerInput,
};
use cordiale::radio::IcyChunk;

#[test]
fn stream_reader_reads_chunks_in_order_and_ends() {
    let mut reader = StreamReader::new();
    assert!(reader.is_empty());
    let mut all = Vec::new();
    for chunk in [b"Og".to_vec(), b"gS".to_vec()] {
        reader.feed(chunk);
        while !reader.is_empty() {
            let mut buf = [0u8; 1];
            let count = reader.read(&mut buf);
            all.extend_from_slice(&buf[..count]);
        }
    }
    assert_eq!(all, b"OggS");
    assert_eq!(reader.seek(SeekPoint::Current(0)), Some(4));
    assert_eq!(reader.seek(SeekPoint::Start(0)), None);
}

#[test]
fn a_short_chunk_leaves_the_rest_of_the_buffer() {
    let mut reader = StreamReader::new();
    let mut buf = [7u8; 3];
    reader.feed(b"ab".to_vec());
    assert_eq!(reader.read(&mut buf), 2);
    assert_eq!(buf, [b'a', b'b', 7]);
}

fn play(source: &mut LiveSource<f32>, blocks: &mut Vec<Vec<f32>>, ended: bool) -> Option<f32> {
    loop {
        match source.next() {
            Playback::Silence => return Some(0.0),
            Playback::Sample(sample) => return Some(sample),
            Playback::Wanting => {
                if blocks.is_empty() {
                    if ended {
                        return None;
                    }
                    source.arrive(None);
                } else {
                    source.arrive(Some(blocks.remove(0)));
                }
            }
        }
    }
}

#[test]
fn live_source_fills_gaps_with_whole_silent_frames() {
    let mut blocks: Vec<Vec<f32>> = Vec::new();
    let mut source: LiveSource<f32> = LiveSource::new(2);
    assert_eq!(play(&mut source, &mut blocks, false), Some(0.0));
    assert_eq!(play(&mut source, &mut blocks, false), Some(0.0));
    blocks.push(vec![0.5, -0.5]);
    assert_eq!(play(&mut source, &mut blocks, false), Some(0.5));
    assert_eq!(play(&mut source, &mut blocks, false), Some(-0.5));
    assert_eq!(play(&mut source, &mut blocks, true), None);
}

#[test]
fn blocks_hold_whole_frames() {
    assert_eq!(block_len(2), 2048);
    let mut builder: BlockBuilder<u8> = BlockBuilder::new(2);
    let mut full = 0;
    for n in 0..5000u32 {
        if let Some(block) = builder.push((n % 251) as u8) {
            assert_eq!(block.len(), 2048);
            assert_eq!(block[0], (full * 2048 % 251) as u8);
            full += 1;
        }
    }
    assert_eq!(full, 2);
    assert_eq!(builder.block.len(), 5000 - 2 * 2048);
}

#[test]
fn failures_are_reported_unless_tuned_away() {
    assert_eq!(
        report_failure("reset".to_string(), false),
        Some(PlayerEvent::Failed("reset".to_string()))
    );
    assert_eq!(report_failure("reset".to_string(), true), None);
}

#[test]
fn a_feed_hands_on_what_it_reads() {
    let mut feed = StationFeed::new();
    assert!(matches!(feed.step(FeedInput::Opened, false), FeedAction::Read));
    let chunks = vec![
        IcyChunk::Audio(vec![1, 2]),
        IcyChunk::Title("t".to_string()),
        IcyChunk::Audio(vec![3]),
    ];
    assert!(matches!(
        feed.step(FeedInput::Chunks(chunks), true),
        FeedAction::Hand(audio) if audio == vec![1, 2]
    ));
    assert!(matches!(
        feed.step(FeedInput::Handed(true), false),
        FeedAction::Report(PlayerEvent::Title(title)) if title == "t"
    ));
    assert!(matches!(
        feed.step(FeedInput::Reported, false),
        FeedAction::Hand(audio) if audio == vec![3]
    ));
    assert!(matches!(feed.step(FeedInput::Handed(true), false), FeedAction::Read));
    assert!(matches!(
        feed.step(FeedInput::Ended, false),
        FeedAction::Finish(PlayerEvent::Ended)
    ));
}

#[test]
fn a_feed_stops_when_nobody_listens() {
    let mut feed = StationFeed::new();
    assert!(matches!(feed.step(FeedInput::Opened, true), FeedAction::Stop));
    assert!(matches!(feed.step(FeedInput::Handed(false), false), FeedAction::Stop));
    assert!(matches!(
        feed.step(FeedInput::Failed("x".to_string()), true),
        FeedAction::Stop
    ));
    assert!(matches!(
        feed.step(FeedInput::Failed("x".to_string()), false),
        FeedAction::Finish(PlayerEvent::Failed(_))
    ));
    assert!(matches!(
        feed.step(FeedInput::OpenFailed("x".to_string()), true),
        FeedAction::Finish(PlayerEvent::Failed(_))
    ));
}

fn station(generation: u64) -> Station {
    Station {
        url: "https://a.b/c".to_string(),
        hint: "mp3",
        generation,
    }
}

#[test]
fn a_tuner_opens_the_device_once_and_stops_before_it_tunes() {
    let mut tuner: Tuner<u8> = Tuner::new(100);
    let step = tuner.step(TunerInput::Play(station(1)));
    assert!(!step.stop);
    let opened = match step.action {
        TunerAction::Open(station) => station,
        other => panic!("{:?}", other),
    };
    let step = tuner.step(TunerInput::Opened(opened, None));
    assert!(matches!(step.action, TunerAction::Start(_, 100)));
    let step = tuner.step(TunerInput::Volume(30));
    assert!(matches!(step.action, TunerAction::SetVolume(30)));
    let step = tuner.step(TunerInput::Play(station(2)));
    assert!(step.stop);
    assert!(matches!(step.action, TunerAction::Start(s, 30) if s.generation == 2));
    assert!(tuner.step(TunerInput::Stop).stop);
    assert!(!tuner.step(TunerInput::Stop).stop);
    let step = tuner.step(TunerInput::Volume(7));
    assert!(matches!(step.action, TunerAction::Nothing));
}

#[test]
fn a_device_that_does_not_open_is_reported() {
    let mut tuner: Tuner<u8> = Tuner::new(100);
    let step = tuner.step(TunerInput::Opened(station(5), Some("busy".to_string())));
    assert!(matches!(
        step.action,
        TunerAction::Report(5, PlayerEvent::Failed(reason)) if reason == "busy"
    ));
    assert!(matches!(
        tuner.step(TunerInput::Play(station(6))).action,
        TunerAction::Open(_)
    ));
}
