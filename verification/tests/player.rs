//! The search for a stream, and sessions.

use rworldradio::format::StreamFormat;
use rworldradio::player::{
    first_line, first_stream_url, is_hls_url, looks_like_playlist, open_byte_source, pick_config,
    pick_track, run_session, spawn_failure, DeviceFault, EndReason, OpenAction, OpenEvent, Opener, Player,
    PlayerEvent, PlayerStep, Session, SessionAction, SampleKind, SessionEvent, StreamHead, TrackInfo,
};
use rworldradio::station::Station;
use rworldradio::ts_demuxer::AudioCodec;

#[test]
fn detects_hls_urls_including_query_strings() {
    assert!(is_hls_url("https://host/live/playlist.m3u8"));
    assert!(is_hls_url("https://host/live/PLAYLIST.M3U8?token=abc"));
    assert!(!is_hls_url("https://host/stream.mp3"));
    assert!(!is_hls_url("https://host/stream"));
    assert!(!is_hls_url("https://host/list.m3u"));
}

#[test]
fn playlist_bodies_are_recognized_whatever_the_url_said() {
    assert!(looks_like_playlist(b"#EXTM3U\n#EXT-X-VER", None));
    assert!(looks_like_playlist(b"[playlist]\nFile1=h", None));
    assert!(looks_like_playlist(b"[PLAYLIST]\r\nnumbe", None));
    // Bare URL list, no header, and a useless content type.
    assert!(looks_like_playlist(
        b"http://dispatcher.rn",
        Some("application/octet-stream")
    ));
    assert!(looks_like_playlist(
        &[0x00; 16],
        Some("application/vnd.apple.mpegurl")
    ));
    assert!(looks_like_playlist(&[0x00; 16], Some("audio/x-scpls; charset=utf-8")));

    // Actual audio must not be mistaken for a playlist.
    assert!(!looks_like_playlist(&[0xFF, 0xF9, 0x50, 0x80], Some("audio/aac")));
    assert!(!looks_like_playlist(b"ID3\x04\x00\x00\x00\x00", Some("audio/mpeg")));
    assert!(!looks_like_playlist(&[], None));
}

#[test]
fn extracts_the_stream_url_from_legacy_playlists() {
    let m3u = "#EXTM3U\n#EXTINF:-1,Station\nhttp://host.example/stream.mp3\n";
    assert_eq!(
        first_stream_url(m3u).unwrap(),
        "http://host.example/stream.mp3"
    );

    let pls = "[playlist]\nnumberofentries=1\nFile1=https://host.example/live\n\
               Title1=Station\nLength1=-1\n";
    assert_eq!(first_stream_url(pls).unwrap(), "https://host.example/live");

    // A bare URL list with no header at all.
    assert_eq!(
        first_stream_url("\n\nhttp://a.example/x\nhttp://b.example/y\n").unwrap(),
        "http://a.example/x"
    );

    assert!(first_stream_url("[playlist]\nnumberofentries=0\n").is_none());
    assert!(first_stream_url("").is_none());
}

#[test]
fn tunein_response_is_reduced_to_its_url() {
    assert_eq!(first_line("http://example/stream\r\n"), "http://example/stream");
    assert_eq!(first_line("\n  http://example/s  \nignored"), "http://example/s");
    assert_eq!(first_line(""), "");
}

#[test]
fn odd_playlist_lines_are_read_as_they_stand() {
    assert_eq!(first_stream_url(" FILE2 = https://h/x \n").unwrap(), "https://h/x");
    // A URL with a query is no entry of a PLS playlist.
    assert_eq!(first_stream_url("http://h/x?a=b").unwrap(), "http://h/x?a=b");
    assert!(first_stream_url("#http://h/x\nTitle1=http://h/y\n").is_none());
    // A comment is no entry.
    assert!(first_stream_url("# file=http://h/x").is_none());
    assert!(first_stream_url("File1=ftp://h/x").is_none());
}

fn station(url: &str) -> Station {
    Station { name: "S".into(), url: url.into(), codec: "MP3".into(), ..Station::default() }
}

fn head(bytes: &[u8], content_type: Option<&str>, final_url: &str) -> OpenEvent {
    OpenEvent::Stream(Ok(StreamHead {
        head: bytes.to_vec(),
        content_type: content_type.map(|value| value.to_string()),
        final_url: final_url.into(),
    }))
}

fn failure(action: OpenAction) -> String {
    match action {
        OpenAction::Fail(message) => message,
        other => panic!("unexpected {other:?}"),
    }
}

/// A search that waits for a progressive stream.
fn searching() -> Opener {
    let (opener, action) = open_byte_source(&station("http://h/s"));
    assert!(matches!(action, OpenAction::OpenStream(url) if url == "http://h/s"));
    opener
}

#[test]
fn a_plain_stream_is_played_as_it_is() {
    let mut opener = searching();
    let action = opener.step(head(&[0, 1], None, "http://h/s"));
    assert!(matches!(action, OpenAction::Done(StreamFormat::MpegAudio)));
}

#[test]
fn a_resolver_link_is_resolved_first() {
    let mut link = station("http://tune/x");
    link.needs_tunein_resolve = true;
    let (mut opener, action) = open_byte_source(&link);
    assert!(matches!(action, OpenAction::Resolve(url) if url == "http://tune/x"));
    let action = opener.step(OpenEvent::Text(Ok(" http://h/l.m3u8 \r\n".into())));
    assert!(matches!(action, OpenAction::OpenHls(url) if url == "http://h/l.m3u8"));
    let action = opener.step(OpenEvent::Hls(Ok(AudioCodec::AdtsAac)));
    assert!(matches!(action, OpenAction::Done(StreamFormat::Adts)));

    let (mut opener, _) = open_byte_source(&link);
    let action = opener.step(OpenEvent::Text(Ok("\n \n".into())));
    assert_eq!(failure(action), "TuneIn resolver returned an empty stream URL");
    let (mut opener, _) = open_byte_source(&link);
    let action = opener.step(OpenEvent::Text(Err("x".into())));
    assert_eq!(failure(action), "could not resolve TuneIn stream: x");
}

#[test]
fn playlists_are_followed_two_hops_far() {
    let mut opener = searching();
    for hop in ["http://h/1", "http://h/2"] {
        let action = opener.step(head(b"http://", None, "http://r/x"));
        assert!(matches!(action, OpenAction::FetchPlaylist(url) if url == "http://r/x"));
        let action = opener.step(OpenEvent::Text(Ok(hop.into())));
        assert!(matches!(action, OpenAction::OpenStream(url) if url == hop));
    }
    let action = opener.step(head(b"http://", None, "http://r/x"));
    assert_eq!(failure(action), "playlist redirects went in circles");
}

#[test]
fn a_redirect_to_an_hls_playlist_is_followed() {
    let mut opener = searching();
    let action = opener.step(head(&[0], None, "http://cdn/x.m3u8?sig"));
    assert!(matches!(action, OpenAction::FetchPlaylist(_)));
    let action = opener.step(OpenEvent::Text(Ok("#EXTM3U\n#EXT-X-VERSION:3\n".into())));
    assert!(matches!(action, OpenAction::OpenHls(url) if url == "http://cdn/x.m3u8?sig"));
    let action = opener.step(OpenEvent::Hls(Err("late".into())));
    assert_eq!(failure(action), "could not open HLS stream: late");
}

#[test]
fn a_search_that_fails_says_why() {
    let action = searching().step(OpenEvent::Stream(Err("x".into())));
    assert_eq!(failure(action), "could not open stream: x");
    let mut opener = searching();
    opener.step(head(b"[playlist]", None, "http://r/x"));
    let action = opener.step(OpenEvent::Text(Err("x".into())));
    assert_eq!(failure(action), "could not fetch playlist: x");
    let mut opener = searching();
    opener.step(head(b"[playlist]", None, "http://r/x"));
    let action = opener.step(OpenEvent::Text(Ok("nothing".into())));
    assert_eq!(failure(action), "playlist contained no stream URL");
}

/// What is done, in words.
fn said(steps: Vec<PlayerStep<&str, u32, u32>>) -> Vec<String> {
    steps
        .into_iter()
        .map(|step| match step {
            PlayerStep::SetStop(stop) => format!("set {stop}"),
            PlayerStep::Mute(sink) => format!("mute {sink}"),
            PlayerStep::Close(queue) => format!("close {queue}"),
            PlayerStep::Tell(PlayerEvent::Connecting { station }) => format!("connecting {station}"),
            PlayerStep::Tell(PlayerEvent::Stopped) => "stopped".to_string(),
            PlayerStep::Tell(other) => panic!("unexpected {other:?}"),
            PlayerStep::Wake => "wake".to_string(),
        })
        .collect()
}

#[test]
fn a_stale_session_tells_nothing() {
    let mut player: Player<&str, u32, u32> = Player::new();
    let (steps, first) = player.play(&station("http://h/a"), "a");
    assert_eq!(said(steps), ["connecting S", "wake"]);
    assert!(player.is_current(first));
    assert_eq!(player.register_queue(first, 7), None);
    assert_eq!(player.register_sink(first, 8), None);

    let (steps, second) = player.play(&station("http://h/b"), "b");
    assert_eq!(said(steps), ["set a", "mute 8", "close 7", "connecting S", "wake"]);
    assert!(!player.is_current(first));
    assert!(player.is_current(second));
    assert_eq!(player.register_queue(first, 9), Some(9));
    assert_eq!(player.register_sink(first, 9), Some(9));
    assert!(player.emit_if_current(first, PlayerEvent::Stopped).is_none());
    assert!(player.emit_if_current(second, PlayerEvent::Stopped).is_some());

    assert_eq!(said(player.stop()), ["set b", "stopped", "wake"]);
    assert!(!player.is_current(second));
    assert!(player.stop().is_empty());
}

#[test]
fn a_stop_silences_closes_and_tells_once() {
    let mut player: Player<&str, u32, u32> = Player::new();
    assert!(player.stop().is_empty());
    let (_, generation) = player.play(&station("http://h/a"), "a");
    player.register_queue(generation, 7);
    player.register_sink(generation, 8);
    assert_eq!(said(player.stop()), ["set a", "mute 8", "close 7", "stopped", "wake"]);
    assert!(player.stop().is_empty());

    let (_, generation) = player.play(&station("http://h/a"), "a");
    player.register_queue(generation, 7);
    // Nothing is told of a player that is just given up.
    assert_eq!(said(player.tear_down_active()), ["set a", "close 7"]);
}

#[test]
fn the_level_is_that_of_the_running_session() {
    let mut player: Player<&str, u32, u32> = Player::new();
    assert_eq!(player.level_source(), None);
    let (_, generation) = player.play(&station("http://h/a"), "a");
    assert_eq!(player.level_source(), None);
    player.register_sink(generation, 8);
    assert_eq!(player.level_source(), Some(&8));
    player.stop();
    assert_eq!(player.level_source(), None);
}

#[test]
fn generations_go_round_their_range() {
    let mut player: Player<(), (), ()> = Player { generation: u64::MAX, active: None };
    assert!(player.tear_down_active().is_empty());
    assert_eq!(player.generation, 0);
    assert_eq!(player.begin_session().1, 2);
}

fn ended(action: SessionAction) -> Result<EndReason, String> {
    match action {
        SessionAction::End { outcome, close_queue: false } => outcome,
        other => panic!("unexpected {other:?}"),
    }
}

/// A session that reads packets of track 5, playing or not.
fn session(playing: bool) -> Session {
    let (mut session, action) = Session::setup_and_play(true);
    assert!(matches!(action, SessionAction::OpenSource));
    assert!(matches!(session.step(SessionEvent::Source(Ok(())), true, false), SessionAction::NoteQueue));
    assert!(matches!(session.step(SessionEvent::QueueNoted(true), true, false), SessionAction::OpenReader));
    let tracks = vec![
        TrackInfo { id: 4, has_codec: false },
        TrackInfo { id: 5, has_codec: true },
        TrackInfo { id: 6, has_codec: true },
    ];
    let action = session.step(SessionEvent::Reader(Ok(tracks)), true, false);
    assert!(matches!(action, SessionAction::MakeDecoder(5)));
    let action = session.step(SessionEvent::Decoder(Ok(())), true, false);
    assert!(matches!(action, SessionAction::ReadPacket { reset: false }));
    if playing {
        assert!(matches!(session.step(SessionEvent::Packet(5), true, false), SessionAction::Decode));
        assert!(matches!(session.step(SessionEvent::Decoded, true, false), SessionAction::OpenOutput));
        assert!(matches!(session.step(SessionEvent::Output(Ok(())), true, false), SessionAction::NoteSink));
        assert!(matches!(session.step(SessionEvent::SinkNoted(true), true, false), SessionAction::StartOutput));
        let action = session.step(SessionEvent::OutputStarted(Ok(())), true, false);
        assert!(matches!(action, SessionAction::Play { announce: true }));
        let action = session.step(SessionEvent::Played { taken: true, failure: None }, true, false);
        assert!(matches!(action, SessionAction::ReadPacket { reset: false }));
    }
    session
}

#[test]
fn a_session_plays_packet_after_packet() {
    let mut session = session(true);
    let action = session.step(SessionEvent::Packet(4), true, false);
    assert!(matches!(action, SessionAction::ReadPacket { reset: false }));
    session.step(SessionEvent::Packet(5), true, false);
    // The device is opened once, and the station is told to be playing once.
    let action = session.step(SessionEvent::Decoded, true, false);
    assert!(matches!(action, SessionAction::Play { announce: false }));
    session.step(SessionEvent::Played { taken: true, failure: None }, true, false);
    let action = session.step(SessionEvent::PacketReset, true, false);
    assert!(matches!(action, SessionAction::ReadPacket { reset: true }));
    session.step(SessionEvent::Packet(5), true, false);
    let action = session.step(SessionEvent::DecodeReset, true, false);
    assert!(matches!(action, SessionAction::ReadPacket { reset: true }));
    assert_eq!(ended(session.step(SessionEvent::PacketEnd, true, false)), Ok(EndReason::StreamEnded));
}

#[test]
fn malformed_packets_are_passed_over() {
    let mut session = session(false);
    session.step(SessionEvent::Packet(5), true, false);
    let action = session.step(SessionEvent::Malformed, true, false);
    assert!(matches!(action, SessionAction::ReadPacket { reset: false }));
}

#[test]
fn a_broken_stream_is_an_error_before_it_has_played() {
    let failed = || SessionEvent::PacketFailed("x".into());
    assert_eq!(ended(session(false).step(failed(), true, false)), Err("stream error: x".into()));
    assert_eq!(ended(session(true).step(failed(), true, false)), Ok(EndReason::StreamEnded));
    assert_eq!(ended(session(true).step(failed(), false, false)), Ok(EndReason::Superseded));
    let mut undecodable = session(false);
    undecodable.step(SessionEvent::Packet(5), true, false);
    assert_eq!(
        ended(undecodable.step(SessionEvent::DecodeFailed("x".into()), true, false)),
        Err("decode failed: x".into())
    );
}

#[test]
fn a_superseded_session_ends_quietly() {
    let (_, action) = Session::setup_and_play(false);
    assert_eq!(ended(action), Ok(EndReason::Superseded));
    assert_eq!(
        ended(session(true).step(SessionEvent::Packet(4), true, true)),
        Ok(EndReason::Superseded)
    );
    let (mut late, _) = Session::setup_and_play(true);
    late.step(SessionEvent::Source(Ok(())), true, false);
    assert!(matches!(
        late.step(SessionEvent::QueueNoted(false), false, false),
        SessionAction::End { outcome: Ok(EndReason::Superseded), close_queue: true }
    ));
    let mut muted = session(true);
    muted.step(SessionEvent::Packet(5), true, false);
    muted.step(SessionEvent::Decoded, true, false);
    assert_eq!(
        ended(muted.step(SessionEvent::Played { taken: false, failure: None }, true, false)),
        Ok(EndReason::Superseded)
    );
}

#[test]
fn a_session_that_cannot_begin_says_why() {
    let begin = || Session::setup_and_play(true).0;
    assert_eq!(
        ended(begin().step(SessionEvent::Source(Err("x".into())), true, false)),
        Err("x".into())
    );
    let mut reader = begin();
    reader.step(SessionEvent::Source(Ok(())), true, false);
    reader.step(SessionEvent::QueueNoted(true), true, false);
    let mut silent = reader;
    let mut undecodable = reader;
    assert_eq!(
        ended(reader.step(SessionEvent::Reader(Err("x".into())), true, false)),
        Err("x".into())
    );
    assert_eq!(
        ended(silent.step(SessionEvent::Reader(Ok(vec![])), true, false)),
        Err("no audio track in stream".into())
    );
    undecodable.step(
        SessionEvent::Reader(Ok(vec![TrackInfo { id: 1, has_codec: true }])),
        true,
        false,
    );
    assert_eq!(
        ended(undecodable.step(SessionEvent::Decoder(Err("x".into())), true, false)),
        Err("no decoder for this stream: x".into())
    );
}

#[test]
fn a_failing_device_ends_the_session() {
    let mut opening = session(false);
    opening.step(SessionEvent::Packet(5), true, false);
    opening.step(SessionEvent::Decoded, true, false);
    let mut starting = opening;
    assert_eq!(
        ended(opening.step(SessionEvent::Output(Err("x".into())), true, false)),
        Err("x".into())
    );
    starting.step(SessionEvent::Output(Ok(())), true, false);
    let mut superseded = starting;
    assert_eq!(
        ended(superseded.step(SessionEvent::SinkNoted(false), true, false)),
        Ok(EndReason::Superseded)
    );
    starting.step(SessionEvent::SinkNoted(true), true, false);
    assert_eq!(
        ended(starting.step(SessionEvent::OutputStarted(Err("x".into())), true, false)),
        Err("could not start audio output: x".into())
    );
    let mut playing = session(true);
    playing.step(SessionEvent::Packet(5), true, false);
    playing.step(SessionEvent::Decoded, true, false);
    let event = SessionEvent::Played { taken: true, failure: Some("x".into()) };
    assert_eq!(ended(playing.step(event, true, false)), Err("audio output failed: x".into()));
}

#[test]
fn the_end_of_a_session_is_told() {
    let station = station("http://h/s");
    assert!(matches!(run_session(&station, Ok(EndReason::StreamEnded)), Some(PlayerEvent::Stopped)));
    assert!(run_session(&station, Ok(EndReason::Superseded)).is_none());
    assert!(matches!(
        run_session(&station, Err("x".into())),
        Some(PlayerEvent::Error { station, detail }) if station == "S" && detail == "x"
    ));
    assert!(matches!(
        spawn_failure("x"),
        PlayerEvent::Error { station, detail }
            if station.is_empty() && detail == "could not start playback thread: x"
    ));
}

#[test]
fn the_first_track_with_a_codec_is_picked() {
    assert_eq!(pick_track(&vec![]), None);
    assert_eq!(pick_track(&vec![TrackInfo { id: 1, has_codec: false }]), None);
}

#[test]
fn the_first_error_of_a_device_counts() {
    let mut fault = DeviceFault::new();
    assert_eq!(fault.failure(), None);
    assert!(fault.note("gone".into()));
    assert!(!fault.note("still gone".into()));
    assert_eq!(fault.failure(), Some("gone".into()));
}

#[test]
fn the_default_configuration_of_a_device_is_preferred() {
    assert_eq!(pick_config(Ok(1), Some(2)), Ok(1));
    assert_eq!(pick_config(Err("x".into()), Some(2)), Ok(2));
    assert_eq!(
        pick_config::<u8>(Err("x".into()), None),
        Err("no usable audio output device: x (on a desktop, check that PulseAudio/PipeWire is \
             running)"
            .to_string())
    );
}

#[test]
fn four_types_of_samples_can_be_played() {
    for kind in [SampleKind::F32, SampleKind::I16, SampleKind::U16, SampleKind::I32] {
        assert_eq!(kind.unsupported(), None);
    }
    assert_eq!(
        SampleKind::Other("U24".into()).unsupported().as_deref(),
        Some("unsupported audio sample format: U24")
    );
}

#[test]
fn a_session_that_has_ended_is_active_no_more() {
    let mut player: Player<&str, u32, u32> = Player::new();
    let (_, first) = player.play(&station("http://h/a"), "stop a");
    let (_, second) = player.play(&station("http://h/b"), "stop b");
    player.register_sink(second, 8);
    // A superseded session has nothing to end.
    assert!(player.end_session(first).is_none());
    assert!(player.active.is_some());
    assert_eq!(player.level_source(), Some(&8));
    let ended = player.end_session(second).unwrap();
    assert!(player.active.is_none());
    assert!(player.is_current(second));
    assert!(player.end_session(second).is_none());
    assert_eq!(player.level_source(), None);
    assert_eq!(said(ended.unwind()), ["set stop b", "mute 8"]);
    assert!(player.stop().is_empty());
}
