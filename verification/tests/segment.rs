//! The audio of a segment.

use rworldradio::segment::{
    elementary_stream, extension_codec, looks_like_mpeg_ts, strip_id3, syncword_codec,
};
use rworldradio::ts_demuxer::AudioCodec;

fn adts_frame() -> Vec<u8> {
    // ADTS header: syncword 0xFFF, MPEG-4, no CRC, AAC-LC, 44.1kHz, stereo.
    vec![0xFF, 0xF1, 0x50, 0x80, 0x01, 0xFF, 0xFC, 0x00, 0x11, 0x22]
}

fn id3v2_tag(payload_len: usize) -> Vec<u8> {
    let mut tag = vec![b'I', b'D', b'3', 0x04, 0x00, 0x00];
    // syncsafe length
    tag.push(((payload_len >> 21) & 0x7F) as u8);
    tag.push(((payload_len >> 14) & 0x7F) as u8);
    tag.push(((payload_len >> 7) & 0x7F) as u8);
    tag.push((payload_len & 0x7F) as u8);
    tag.extend(std::iter::repeat(0u8).take(payload_len));
    tag
}

#[test]
fn packed_adts_segment_passes_through() {
    let segment = adts_frame();
    let (stream, codec) = elementary_stream(&segment, "http://h/a/b.aac").unwrap();
    assert_eq!(codec, AudioCodec::AdtsAac);
    assert_eq!(stream, segment);
}

#[test]
fn leading_id3_tag_is_stripped() {
    let mut segment = id3v2_tag(64);
    segment.extend(adts_frame());
    let (stream, codec) = elementary_stream(&segment, "http://h/a/b.aac").unwrap();
    assert_eq!(codec, AudioCodec::AdtsAac);
    assert_eq!(stream, adts_frame(), "ID3 tag was not removed");
}

#[test]
fn stacked_id3_tags_are_all_stripped() {
    let mut segment = id3v2_tag(16);
    segment.extend(id3v2_tag(8));
    segment.extend(adts_frame());
    let (stream, _) = elementary_stream(&segment, "http://h/a/b.aac").unwrap();
    assert_eq!(stream, adts_frame());
}

#[test]
fn mpeg_audio_syncword_is_recognized() {
    // 0xFFFB: MPEG-1 Layer III.
    let segment = vec![0xFF, 0xFB, 0x90, 0x00, 0x01, 0x02];
    let (_, codec) = elementary_stream(&segment, "http://h/a/b.ts").unwrap();
    assert_eq!(codec, AudioCodec::MpegAudio);
}

#[test]
fn extension_is_the_fallback_when_joined_mid_frame() {
    let segment = vec![0x12, 0x34, 0x56, 0x78];
    let (_, codec) = elementary_stream(&segment, "http://h/a/b.aac?token=1").unwrap();
    assert_eq!(codec, AudioCodec::AdtsAac);
    assert!(elementary_stream(&segment, "http://h/a/b.bin").is_none());
}

#[test]
fn mpeg_ts_still_goes_through_the_demuxer() {
    // Two sync bytes at a 188 stride is enough to be treated as TS; with no parseable PAT/PMT the
    // result is None rather than raw TS bytes.
    let mut segment = vec![0x00u8; 400];
    segment[0] = 0x47;
    segment[188] = 0x47;
    assert!(looks_like_mpeg_ts(&segment));
    assert!(elementary_stream(&segment, "http://h/a/b.ts").is_none());
}

#[test]
fn an_adts_frame_full_of_0x47_bytes_is_still_read_as_aac() {
    // Compressed audio can contain any byte pattern, including one that satisfies the 188-byte TS
    // stride heuristic. The leading syncword is checked first precisely so that can't hijack the
    // segment.
    let mut segment = adts_frame();
    segment.resize(400, 0x47);
    assert!(looks_like_mpeg_ts(&segment), "fixture no longer exercises the clash");
    let (_, codec) = elementary_stream(&segment, "http://h/a/b.aac").unwrap();
    assert_eq!(codec, AudioCodec::AdtsAac);
}

#[test]
fn truncated_id3_tag_yields_nothing_rather_than_panicking() {
    let segment = id3v2_tag(1000); // claims more payload than it has
    assert!(elementary_stream(&segment, "http://h/a/b.aac").is_none());
    assert!(elementary_stream(&[], "http://h/a/b.aac").is_none());
}

#[test]
fn a_tag_that_claims_too_much_leaves_nothing() {
    let mut tag = id3v2_tag(1000);
    tag.truncate(200);
    assert!(strip_id3(&tag).is_empty());
    assert_eq!(strip_id3(&adts_frame()), adts_frame().as_slice());
}

#[test]
fn extensions_name_codecs() {
    assert_eq!(extension_codec("http://h/a.MP3?x"), Some(AudioCodec::MpegAudio));
    assert_eq!(extension_codec("http://h/a.aac"), Some(AudioCodec::AdtsAac));
    assert_eq!(extension_codec("http://h/a.ts"), None);
}

#[test]
fn syncwords_name_codecs() {
    assert_eq!(syncword_codec(&[0xFF, 0xF9]), Some(AudioCodec::AdtsAac));
    assert_eq!(syncword_codec(&[0xFF, 0xFA]), Some(AudioCodec::MpegAudio));
    assert_eq!(syncword_codec(&[0xFF]), None);
    assert_eq!(syncword_codec(&[0x00, 0xF1]), None);
}

#[test]
fn what_is_left_behind_the_tags_is_the_end_of_the_data() {
    let data = [id3v2_tag(3), id3v2_tag(0), adts_frame()].concat();
    let rest = strip_id3(&data);
    assert_eq!(rest, &data[data.len() - rest.len()..]);
    assert!(!rest.starts_with(b"ID3"));
    let (stream, codec) = elementary_stream(&data, "x").unwrap();
    assert!(!stream.is_empty() && stream.len() <= data.len());
    assert_ne!(codec, AudioCodec::Unknown);
}
