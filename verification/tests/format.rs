//! What a stream is read as.

use rworldradio::adts::normalize_buffer;
use rworldradio::format::{
    extension_for_mime, for_hls, for_http, from_syncword, ContainerHint, StreamFormat,
};
use rworldradio::ts_demuxer::AudioCodec;
use symphonia::default::formats::AdtsReader;

fn describe(format: StreamFormat) -> &'static str {
    format.describe()
}

/// The hint for a container.
fn hint(format: StreamFormat) -> (Option<String>, Option<String>) {
    match format {
        StreamFormat::Container(ContainerHint { mime_type, extension }) => (mime_type, extension),
        other => panic!("not a container: {other:?}"),
    }
}

#[test]
fn syncword_beats_a_wrong_content_type() {
    // Server claims MP3, body is plainly ADTS AAC.
    let format = for_http(&[0xFF, 0xF9, 0x50, 0x80], Some("audio/mpeg"), "http://h/s", "MP3");
    assert_eq!(describe(format), "raw ADTS AAC");

    // ...and the other way round.
    let format = for_http(&[0xFF, 0xFB, 0x90, 0x00], Some("audio/aac"), "http://h/s", "AAC");
    assert_eq!(describe(format), "raw MPEG audio");
}

#[test]
fn id3_prefixed_body_is_treated_as_mpeg_audio() {
    let format = for_http(b"ID3\x04\x00\x00\x00\x00\x00\x20", None, "http://h/s", "");
    assert_eq!(describe(format), "raw MPEG audio");
}

#[test]
fn content_type_is_used_when_the_body_gives_nothing_away() {
    for (mime, expected) in [
        ("audio/aacp; charset=utf-8", "raw ADTS AAC"),
        ("audio/mpeg", "raw MPEG audio"),
        ("application/ogg", "container (sniffed)"),
        ("audio/flac", "container (sniffed)"),
    ] {
        let format = for_http(&[0x00, 0x01], Some(mime), "http://h/s", "");
        assert_eq!(describe(format), expected, "for {mime}");
    }
}

#[test]
fn url_extension_then_dataset_codec_are_the_last_resorts() {
    assert_eq!(
        describe(for_http(&[0x00], None, "http://h/s.aac?t=1", "")),
        "raw ADTS AAC"
    );
    assert_eq!(
        describe(for_http(&[0x00], None, "http://h/s.ogg", "")),
        "container (sniffed)"
    );
    assert_eq!(
        describe(for_http(&[0x00], None, "http://h/listen", "MP3")),
        "raw MPEG audio"
    );
    assert_eq!(
        describe(for_http(&[0x00], None, "http://h/listen", "UNKNOWN")),
        "container (sniffed)"
    );
}

#[test]
fn hls_codec_maps_directly() {
    assert_eq!(describe(for_hls(AudioCodec::AdtsAac)), "raw ADTS AAC");
    assert_eq!(describe(for_hls(AudioCodec::MpegAudio)), "raw MPEG audio");
    assert_eq!(describe(for_hls(AudioCodec::Unknown)), "container (sniffed)");
}

#[test]
fn adts_reader_opens_an_mpeg2_stream_through_the_normalizer() {
    // MPEG-2 ADTS frames: symphonia's own probe cannot find these, but its ADTS reader opens them
    // once they are normalized.
    let mut stream: Vec<u8> = Vec::new();
    for _ in 0..4 {
        let mut frame = vec![0xFF, 0xF9, 0x50, 0x80, 0x00, 0x1F, 0x00];
        let payload = 60usize;
        let total = frame.len() + payload;
        frame[3] = 0x80 | ((total >> 11) & 0x03) as u8;
        frame[4] = ((total >> 3) & 0xFF) as u8;
        frame[5] = (0x1F) | (((total & 0x07) << 5) as u8);
        frame.extend(std::iter::repeat(0x55).take(payload));
        stream.extend(frame);
    }

    let source = symphonia::core::io::MediaSourceStream::new(
        Box::new(std::io::Cursor::new(normalize_buffer(&stream))),
        symphonia::core::io::MediaSourceStreamOptions::default(),
    );
    let options = symphonia::core::formats::FormatOptions::default();
    let reader: Box<dyn symphonia::core::formats::FormatReader> = Box::new(
        <AdtsReader as symphonia::core::formats::FormatReader>::try_new(source, &options)
            .expect("AdtsReader should open the normalized stream"),
    );
    assert_eq!(reader.tracks().len(), 1);
    assert_eq!(reader.tracks()[0].codec_params.sample_rate, Some(44100));
}

#[test]
fn hints_carry_what_is_known() {
    assert_eq!(
        hint(for_http(&[], Some(" Audio/OGG ; x"), "http://h/s.mp3", "MP3")),
        (Some("audio/ogg".into()), Some("ogg".into()))
    );
    assert_eq!(
        hint(for_http(&[], Some("text/html"), "http://h/s.OPUS?x", "")),
        (Some("text/html".into()), Some("opus".into()))
    );
    assert_eq!(
        hint(for_http(&[], Some(" ; x"), "http://h/s", "flac")),
        (None, Some("flac".into()))
    );
    assert_eq!(hint(for_http(&[], None, "http://h/s", "vorbis")), (None, Some("ogg".into())));
    assert_eq!(hint(for_http(&[], None, "http://h/s", "")), (None, None));
    assert_eq!(hint(for_hls(AudioCodec::Unknown)), (None, None));
}

#[test]
fn the_station_list_names_aac_in_several_ways() {
    for codec in ["AAC", "aac+", "AacP"] {
        assert_eq!(describe(for_http(&[], None, "http://h/s", codec)), "raw ADTS AAC");
    }
}

#[test]
fn containers_have_extensions() {
    assert_eq!(extension_for_mime("audio/x-m4a"), Some("m4a"));
    assert_eq!(extension_for_mime("audio/vnd.wave"), Some("wav"));
    assert_eq!(extension_for_mime("audio/x-flac"), Some("flac"));
    assert_eq!(extension_for_mime("audio/mpeg"), None);
}

#[test]
fn few_bytes_show_nothing() {
    assert!(from_syncword(&[0xFF]).is_none());
    assert!(from_syncword(b"ID").is_none());
    assert!(from_syncword(&[0xFF, 0xE0]).is_none());
}

#[test]
fn a_reader_that_could_not_be_opened_is_told_by_its_format() {
    assert_eq!(StreamFormat::Adts.open_failure("x"), "not a readable AAC stream: x");
    assert_eq!(StreamFormat::MpegAudio.open_failure("x"), "not a readable MPEG audio stream: x");
    assert_eq!(for_hls(AudioCodec::Unknown).open_failure("x"), "unsupported stream format: x");
}
