//! The worker that follows an HLS stream.

use rworldradio::hls::{
    best_variant, open, poll_source, HlsAction, HlsEvent, PollSource, WaitTime, Worker,
    MAX_SEEN_SEGMENTS,
};
use rworldradio::m3u8::Variant;
use rworldradio::ts_demuxer::AudioCodec;

const URL: &str = "http://h/a/list.m3u8";

fn playlist(text: &str) -> HlsEvent {
    HlsEvent::Playlist(Ok(text.to_string()))
}

fn adts() -> Vec<u8> {
    vec![0xFF, 0xF1, 0x50, 0x80, 0x01, 0xFF, 0xFC]
}

/// A worker that waits for its first media playlist.
fn following() -> Worker {
    let (mut worker, _) = Worker::new(URL);
    let action = worker.step(playlist("#EXTM3U\n"), false);
    assert!(matches!(action, HlsAction::FetchPlaylist(url) if url == URL));
    worker
}

#[test]
fn the_best_variant_is_followed() {
    let (mut worker, first) = Worker::new(URL);
    assert!(matches!(first, HlsAction::FetchPlaylist(url) if url == URL));
    let master = "#EXT-X-STREAM-INF:BANDWIDTH=1\nlow.m3u8\n#EXT-X-STREAM-INF:BANDWIDTH=9\nx.m3u8\n\
                  #EXT-X-STREAM-INF:BANDWIDTH=9\nhigh.m3u8\n";
    let action = worker.step(playlist(master), false);
    assert!(matches!(action, HlsAction::FetchPlaylist(url) if url == "http://h/a/high.m3u8"));
}

#[test]
fn a_first_playlist_that_cannot_be_fetched_is_the_end() {
    let (mut worker, _) = Worker::new(URL);
    let action = worker.step(HlsEvent::Playlist(Err("gone".into())), false);
    assert!(matches!(
        action,
        HlsAction::Close(Some(issue)) if issue == "could not fetch playlist: gone"
    ));
    assert_eq!(worker.last_issue(), "could not fetch playlist: gone");
}

#[test]
fn a_master_playlist_without_variants_is_the_end() {
    let (mut worker, _) = Worker::new(URL);
    let action = worker.step(playlist("#EXT-X-STREAM-INF:BANDWIDTH=1\n"), false);
    assert!(matches!(
        action,
        HlsAction::Close(Some(issue)) if issue == "master playlist has no variants"
    ));
}

#[test]
fn segments_are_fetched_once_and_pushed() {
    let mut worker = following();
    let action = worker.step(playlist("a.aac\na.aac\nb.aac\n"), false);
    assert!(matches!(action, HlsAction::FetchSegment(url) if url == "http://h/a/a.aac"));
    let action = worker.step(HlsEvent::Segment(Ok(adts())), false);
    assert!(matches!(action, HlsAction::Push(bytes) if bytes == adts()));
    assert_eq!(worker.codec(), AudioCodec::AdtsAac);
    let action = worker.step(HlsEvent::Pushed(true), false);
    assert!(matches!(action, HlsAction::FetchSegment(url) if url == "http://h/a/b.aac"));
    let action = worker.step(HlsEvent::Segment(Err("gone".into())), false);
    // Something was written in this round, so the playlist is looked at again at once.
    assert!(matches!(action, HlsAction::FetchPlaylist(url) if url == URL));
    assert_eq!(worker.last_issue(), "segment fetch failed: gone");
    // Nothing new: the worker waits.
    let action = worker.step(
        playlist("#EXT-X-TARGETDURATION:8\n#EXTINF:4.5,\na.aac\nb.aac\n"),
        false,
    );
    match action {
        HlsAction::Wait(WaitTime::Poll { target, last }) => {
            assert_eq!(target, "8");
            assert!(last.is_some());
        }
        other => panic!("unexpected {other:?}"),
    }
    let action = worker.step(HlsEvent::Waited, false);
    assert!(matches!(action, HlsAction::FetchPlaylist(url) if url == URL));
    // The end of the playlist is a clean end once something was written.
    let action = worker.step(playlist("#EXT-X-ENDLIST\n"), false);
    assert!(matches!(action, HlsAction::Close(None)));
}

#[test]
fn a_playlist_without_audio_ends_with_the_last_issue() {
    let mut worker = following();
    worker.step(playlist("a.bin\n#EXT-X-ENDLIST\n"), false);
    let action = worker.step(HlsEvent::Segment(Ok(vec![1, 2, 3])), false);
    assert!(matches!(
        action,
        HlsAction::Close(Some(issue)) if issue
            == "segment produced no audio elementary stream (unsupported codec/container?)"
    ));
}

#[test]
fn an_empty_playlist_that_ends_tells_that_nothing_was_listed() {
    let mut worker = following();
    let action = worker.step(playlist("#EXT-X-ENDLIST"), false);
    assert!(matches!(
        action,
        HlsAction::Close(Some(issue)) if issue == "no segments were listed in the media playlist"
    ));
}

#[test]
fn a_media_playlist_is_tried_again_once_something_was_written() {
    let mut worker = following();
    let action = worker.step(HlsEvent::Playlist(Err("gone".into())), false);
    assert!(matches!(
        action,
        HlsAction::Close(Some(issue)) if issue == "could not fetch media playlist: gone"
    ));

    let mut worker = following();
    worker.step(playlist("a.aac\n"), false);
    worker.step(HlsEvent::Segment(Ok(adts())), false);
    worker.step(HlsEvent::Pushed(true), false);
    let action = worker.step(HlsEvent::Playlist(Err("gone".into())), false);
    assert!(matches!(action, HlsAction::Wait(WaitTime::Retry)));
}

#[test]
fn a_closed_queue_ends_the_worker() {
    let mut worker = following();
    worker.step(playlist("a.aac\n"), false);
    worker.step(HlsEvent::Segment(Ok(adts())), false);
    assert!(matches!(worker.step(HlsEvent::Pushed(false), false), HlsAction::Quit));
}

#[test]
fn a_stop_ends_the_worker() {
    let mut worker = following();
    let action = worker.step(playlist("a.aac\n"), true);
    assert!(matches!(action, HlsAction::Close(Some(_))));

    let mut worker = following();
    worker.step(playlist("a.aac\nb.aac\n"), false);
    worker.step(HlsEvent::Segment(Ok(adts())), true);
    assert!(matches!(worker.step(HlsEvent::Pushed(true), true), HlsAction::Close(None)));
}

#[test]
fn the_memory_of_segments_is_cleared_after_a_long_round() {
    let mut worker = following();
    let mut text = String::new();
    for i in 0..=MAX_SEEN_SEGMENTS {
        text.push_str(&format!("s{i}.aac\n"));
    }
    let mut action = worker.step(playlist(&text), false);
    let mut fetched = 0;
    while matches!(action, HlsAction::FetchSegment(_)) {
        fetched += 1;
        action = worker.step(HlsEvent::Segment(Err("x".into())), false);
    }
    assert_eq!(fetched, MAX_SEEN_SEGMENTS + 1);
    assert!(matches!(action, HlsAction::Wait(_)));
    worker.step(HlsEvent::Waited, false);
    // The first segment is asked for again.
    let action = worker.step(playlist("s0.aac\n"), false);
    assert!(matches!(action, HlsAction::FetchSegment(_)));
}

#[test]
fn a_poll_goes_by_the_target_duration_first() {
    assert_eq!(poll_source(true, true), PollSource::TargetDuration);
    assert_eq!(poll_source(true, false), PollSource::TargetDuration);
    assert_eq!(poll_source(false, true), PollSource::LastSegment);
    assert_eq!(poll_source(false, false), PollSource::Default);
}

#[test]
fn the_last_of_the_best_variants_is_taken() {
    let variant = |bandwidth| Variant { uri: String::new(), bandwidth };
    assert_eq!(best_variant(&vec![]), None);
    assert_eq!(best_variant(&vec![variant(-1)]), Some(0));
    assert_eq!(best_variant(&vec![variant(5), variant(9), variant(9), variant(2)]), Some(2));
}

#[test]
fn an_open_that_came_too_late_tells_the_last_issue() {
    let stream = open("queue", true, AudioCodec::MpegAudio, "issue".into()).ok().unwrap();
    assert_eq!(stream.queue, "queue");
    assert_eq!(stream.codec, AudioCodec::MpegAudio);
    let issue = open("queue", false, AudioCodec::MpegAudio, "issue".into()).err().unwrap();
    assert_eq!(issue, "issue");
}

/// The wait of a worker that sees a playlist twice and finds nothing new.
fn poll_of(text: &str) -> (String, Option<String>) {
    let mut worker = following();
    let mut action = worker.step(playlist(text), false);
    while matches!(action, HlsAction::FetchSegment(_)) {
        action = worker.step(HlsEvent::Segment(Err("x".into())), false);
    }
    assert!(matches!(action, HlsAction::Wait(_)));
    worker.step(HlsEvent::Waited, false);
    match worker.step(playlist(text), false) {
        HlsAction::Wait(WaitTime::Poll { target, last }) => (target, last),
        other => panic!("unexpected {other:?}"),
    }
}

#[test]
fn without_a_target_duration_the_last_segment_counts() {
    let (target, last) = poll_of("#EXTINF:4.0,\na.aac\n#EXTINF:4.5,\nb.aac\n");
    assert_eq!(target.parse::<f64>().unwrap(), 0.0);
    assert_eq!(last.as_deref(), Some("4.5"));
    let (target, last) = poll_of("#EXTM3U\n");
    assert_eq!(target.parse::<f64>().unwrap(), 0.0);
    assert_eq!(last, None);
    let (target, last) = poll_of("#EXT-X-TARGETDURATION:9\n#EXTINF:4.5,\nb.aac\n");
    assert_eq!(target, "9");
    assert_eq!(last.as_deref(), Some("4.5"));
}

#[test]
fn a_round_pushes_the_audio_of_its_segments_in_order() {
    let mut worker = following();
    let frame = |mark: u8| vec![0xFF, 0xF1, 0x50, 0x80, 0x01, 0xFF, mark];
    let mut pushed: Vec<u8> = Vec::new();
    let mut fetched: Vec<String> = Vec::new();
    let mut action = worker.step(playlist("a.aac\nb.aac\na.aac\nbroken.bin\nc.aac\n"), false);
    loop {
        let event = match action {
            HlsAction::FetchSegment(url) => {
                fetched.push(url.clone());
                HlsEvent::Segment(match url.as_str() {
                    "http://h/a/a.aac" => Ok(frame(1)),
                    "http://h/a/b.aac" => Err("gone".into()),
                    "http://h/a/broken.bin" => Ok(vec![0]),
                    _ => Ok(frame(3)),
                })
            }
            HlsAction::Push(bytes) => {
                pushed.extend_from_slice(&bytes);
                HlsEvent::Pushed(true)
            }
            HlsAction::FetchPlaylist(_) => break,
            other => panic!("unexpected {other:?}"),
        };
        action = worker.step(event, false);
    }
    assert_eq!(pushed, [frame(1), frame(3)].concat());
    assert_eq!(
        fetched,
        ["http://h/a/a.aac", "http://h/a/b.aac", "http://h/a/broken.bin", "http://h/a/c.aac"]
    );
}

#[test]
fn a_worker_says_which_playlists_it_can_read() {
    let (mut worker, _) = Worker::new("?x=http://host/a");
    assert!(worker.resolves("#EXTM3U\nlow.ts\n"));
    assert!(!worker.resolves("#EXT-X-STREAM-INF:BANDWIDTH=1\nlow.m3u8\n"));
    worker.step(playlist("#EXTM3U\n"), false);
    assert!(!worker.resolves("#EXTM3U\nlow.ts\n"));
    assert!(worker.resolves("/low.ts\n"));
    let action = worker.step(playlist("/low.ts\n"), false);
    assert!(matches!(action, HlsAction::FetchSegment(url) if url == "?x=http://host/low.ts"));
}
