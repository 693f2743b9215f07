//! Turns one downloaded HLS segment into a raw elementary audio stream, whichever of the two
//! segment formats it is: MPEG-TS, or "packed audio" - a bare ADTS AAC or MPEG audio bitstream
//! behind an ID3 tag.

use vstd::prelude::*;
use vstd::slice::{slice_subrange, slice_to_vec};

use crate::text;
use crate::ts_demuxer;
use crate::ts_demuxer::AudioCodec;

verus! {

/// The data begins with an ID3v2 tag header.
pub open spec fn starts_with_id3(data: Seq<u8>) -> bool {
    data.len() >= 10 && data[0] == 0x49 && data[1] == 0x44 && data[2] == 0x33
}

/// The size of an ID3v2 tag: its header, the size that the header gives in four bytes of seven
/// bits each, and the footer that a flag announces.
pub open spec fn id3_size(data: Seq<u8>) -> int {
    10 + (data[6] & 0x7F) * 0x20_0000 + (data[7] & 0x7F) * 0x4000 + (data[8] & 0x7F) * 0x80 + (data[9]
        & 0x7F) + (if data[5] & 0x10 != 0 { 10int } else { 0 })
}

/// The data behind any number of leading ID3v2 tags. Nothing is left where a tag covers all.
pub open spec fn after_id3(data: Seq<u8>) -> Seq<u8>
    decreases data.len(),
{
    if !starts_with_id3(data) {
        data
    } else if id3_size(data) >= data.len() {
        Seq::empty()
    } else {
        after_id3(data.skip(id3_size(data)))
    }
}

/// The codec that the leading frame header of a bitstream shows. ADTS has twelve sync bits and
/// layer 0, MPEG audio eleven sync bits and another layer.
pub open spec fn syncword_of(audio: Seq<u8>) -> Option<AudioCodec> {
    if audio.len() < 2 || audio[0] != 0xFF {
        None
    } else if audio[1] & 0xF6 == 0xF0 {
        Some(AudioCodec::AdtsAac)
    } else if audio[1] & 0xE0 == 0xE0 && audio[1] & 0x06 != 0x00 {
        Some(AudioCodec::MpegAudio)
    } else {
        None
    }
}

/// Two sync bytes stand at the distance of a packet, the first one within a packet's length.
pub open spec fn ts_strides(data: Seq<u8>) -> bool {
    exists|start: int|
        0 <= start < 188 && start + 188 < data.len() && #[trigger] data[start] == 0x47 && data[start
            + 188] == 0x47
}

/// The codec that the extension of a URI names.
pub open spec fn extension_of(uri: Seq<char>) -> Option<AudioCodec> {
    let path = text::ascii_lower(text::before_char(uri, '?'));
    if text::finishes_with(path, ".aac"@) {
        Some(AudioCodec::AdtsAac)
    } else if text::finishes_with(path, ".mp3"@) {
        Some(AudioCodec::MpegAudio)
    } else {
        None
    }
}

/// The audio of a segment: what a syncword shows to be packed audio, else what is in a transport
/// stream, else what the extension of the segment's URI says it is.
pub open spec fn segment_audio(data: Seq<u8>, uri: Seq<char>) -> Option<(Seq<u8>, AudioCodec)> {
    let audio = after_id3(data);
    if audio.len() == 0 {
        None
    } else if syncword_of(audio) is Some {
        Some((audio, syncword_of(audio).unwrap()))
    } else if ts_strides(data) {
        let (codec, stream) = ts_demuxer::demuxed(data);
        if stream.len() > 0 { Some((stream, codec)) } else { None }
    } else {
        match extension_of(uri) {
            Some(codec) => Some((audio, codec)),
            None => None,
        }
    }
}

/// Extracts the audio elementary stream from a segment, or `None` if there is no recognizable
/// audio in it.
pub fn elementary_stream(data: &[u8], uri: &str) -> (audio: Option<(Vec<u8>, AudioCodec)>)
    ensures
        match audio {
            Some((stream, codec)) => segment_audio(data@, uri@) == Some((stream@, codec)),
            None => segment_audio(data@, uri@) is None,
        },
{
    let audio: &[u8] = strip_id3(data);
    if audio.len() == 0 {
        return None;
    }
    if let Some(codec) = syncword_codec(audio) {
        return Some((slice_to_vec(audio), codec));
    }
    if looks_like_mpeg_ts(data) {
        let demuxed: ts_demuxer::Extracted = ts_demuxer::extract(data);
        if demuxed.elementary_stream.len() > 0 {
            return Some((demuxed.elementary_stream, demuxed.codec));
        }
        // A transport stream without audio: its bytes are no elementary stream.
        return None;
    }
    match extension_codec(uri) {
        Some(codec) => Some((slice_to_vec(audio), codec)),
        None => None,
    }
}

/// True if two sync bytes stand at the stride of transport stream packets.
pub fn looks_like_mpeg_ts(data: &[u8]) -> (strides: bool)
    ensures
        strides == ts_strides(data@),
{
    let mut start: usize = 0;
    while start < ts_demuxer::PACKET_SIZE && start < data.len() && data.len() - start
        > ts_demuxer::PACKET_SIZE
        invariant
            start <= 188,
            forall|i: int|
                0 <= i < start ==> !(i + 188 < data@.len() && #[trigger] data@[i] == 0x47 && data@[i
                    + 188] == 0x47),
        decreases 188 - start,
    {
        if data[start] == 0x47 && data[start + ts_demuxer::PACKET_SIZE] == 0x47 {
            assert(data@[start as int] == 0x47);
            return true;
        }
        start += 1;
    }
    false
}

/// Skips any number of leading ID3v2 tags.
pub fn strip_id3(data: &[u8]) -> (rest: &[u8])
    ensures
        rest@ == after_id3(data@),
{
    let mut rest: &[u8] = data;
    while rest.len() >= 10 && rest[0] == 0x49 && rest[1] == 0x44 && rest[2] == 0x33
        invariant
            after_id3(data@) == after_id3(rest@),
        decreases rest@.len(),
    {
        let b6: u8 = rest[6] & 0x7F;
        let b7: u8 = rest[7] & 0x7F;
        let b8: u8 = rest[8] & 0x7F;
        let b9: u8 = rest[9] & 0x7F;
        let size: usize = (b6 as usize) * 0x20_0000 + (b7 as usize) * 0x4000 + (b8 as usize) * 0x80
            + b9 as usize;
        let footer: usize = if rest[5] & 0x10 != 0 { 10 } else { 0 };
        let total: usize = 10 + size + footer;
        if total >= rest.len() {
            let nothing: &[u8] = slice_subrange(rest, 0, 0);
            assert(nothing@ =~= Seq::empty());
            return nothing;
        }
        assert(rest@.subrange(total as int, rest@.len() as int) =~= rest@.skip(total as int));
        rest = slice_subrange(rest, total, rest.len());
    }
    rest
}

/// The codec that the leading frame header shows.
pub fn syncword_codec(audio: &[u8]) -> (codec: Option<AudioCodec>)
    ensures
        codec == syncword_of(audio@),
{
    if audio.len() < 2 || audio[0] != 0xFF {
        return None;
    }
    if audio[1] & 0xF6 == 0xF0 {
        return Some(AudioCodec::AdtsAac);
    }
    if audio[1] & 0xE0 == 0xE0 && audio[1] & 0x06 != 0x00 {
        return Some(AudioCodec::MpegAudio);
    }
    None
}

/// The codec that the extension of a URI names.
pub fn extension_codec(uri: &str) -> (codec: Option<AudioCodec>)
    ensures
        codec == extension_of(uri@),
{
    let chars: Vec<char> = text::chars_of(uri);
    let path: Vec<char> = text::to_ascii_lower(text::up_to_char(chars.as_slice(), '?'));
    if text::ends_with(path.as_slice(), text::chars_of(".aac").as_slice()) {
        return Some(AudioCodec::AdtsAac);
    }
    if text::ends_with(path.as_slice(), text::chars_of(".mp3").as_slice()) {
        return Some(AudioCodec::MpegAudio);
    }
    None
}

/// A leading ID3 tag does not matter for packed audio, and so neither do several: what comes
/// behind the tag is what counts.
pub proof fn law_id3_tags_are_skipped(tag: Seq<u8>, rest: Seq<u8>, uri: Seq<char>)
    requires
        starts_with_id3(tag),
        id3_size(tag) == tag.len(),
    ensures
        after_id3(tag + rest) == after_id3(rest),
        syncword_of(after_id3(rest)) is Some ==> segment_audio(tag + rest, uri) == segment_audio(
            rest,
            uri,
        ),
{
    assert((tag + rest).skip(tag.len() as int) =~= rest);
    if rest.len() == 0 {
        assert(after_id3(rest) =~= Seq::empty());
    }
}

/// Data that does not begin with a tag is kept whole.
pub proof fn law_data_without_a_tag_is_kept(data: Seq<u8>)
    requires
        !starts_with_id3(data),
    ensures
        after_id3(data) == data,
{
}

/// A leading syncword decides alone: neither bytes that look like a transport stream nor the
/// extension can overrule it.
pub proof fn law_syncword_decides(data: Seq<u8>, uri: Seq<char>)
    requires
        syncword_of(data) is Some,
    ensures
        segment_audio(data, uri) == Some((data, syncword_of(data).unwrap())),
{
    assert(after_id3(data) == data);
}

/// Bytes of a transport stream are never handed on as an elementary stream: what is handed on is
/// what the demuxer finds in it, with a known codec, and nothing where it finds nothing.
pub proof fn law_transport_stream_is_demuxed(data: Seq<u8>, uri: Seq<char>)
    requires
        ts_strides(data),
        after_id3(data).len() > 0,
        syncword_of(after_id3(data)) is None,
    ensures
        segment_audio(data, uri) == (if ts_demuxer::demuxed(data).1.len() > 0 {
            Some((ts_demuxer::demuxed(data).1, ts_demuxer::demuxed(data).0))
        } else {
            None
        }),
        segment_audio(data, uri) matches Some((_, codec)) ==> codec != AudioCodec::Unknown,
{
    ts_demuxer::law_no_stream_without_a_codec(data);
}

/// What is left behind the tags is the end of the data, and begins with no tag.
pub proof fn law_tags_are_stripped_from_the_front(data: Seq<u8>)
    ensures
        after_id3(data).is_suffix_of(data),
        !starts_with_id3(after_id3(data)),
    decreases data.len(),
{
    if starts_with_id3(data) {
        let size = id3_size(data);
        if size < data.len() {
            let rest = data.skip(size);
            law_tags_are_stripped_from_the_front(rest);
            let left = after_id3(data);
            assert(left =~= rest.skip(rest.len() - left.len()));
            assert(left =~= data.skip(data.len() - left.len()));
        } else {
            assert(after_id3(data) =~= data.skip(data.len() as int));
        }
    } else {
        assert(data =~= data.skip(0));
    }
}

/// What is found in a segment is some audio, no longer than the segment and of a known codec.
pub proof fn law_audio_is_some_of_the_segment(data: Seq<u8>, uri: Seq<char>)
    ensures
        segment_audio(data, uri) matches Some((audio, codec)) ==> 0 < audio.len() <= data.len()
            && codec != AudioCodec::Unknown,
{
    law_tags_are_stripped_from_the_front(data);
    ts_demuxer::law_no_stream_without_a_codec(data);
    ts_demuxer::law_a_packet_gives_at_most_its_payload(data);
}

/// An ID3 tag as it is written: its mark, its version, its flags, its size in four bytes of seven
/// bits each, what it holds, and a footer where a flag announces one.
pub open spec fn written_tag(
    version: (u8, u8),
    flags: u8,
    high_bits: (u8, u8, u8, u8),
    body: Seq<u8>,
    footer: Seq<u8>,
) -> Seq<u8> {
    seq![
        0x49u8,
        0x44,
        0x33,
        version.0,
        version.1,
        flags,
        (high_bits.0 & 0x80) | (body.len() / 0x20_0000) as u8,
        (high_bits.1 & 0x80) | ((body.len() / 0x4000) % 128) as u8,
        (high_bits.2 & 0x80) | ((body.len() / 0x80) % 128) as u8,
        (high_bits.3 & 0x80) | (body.len() % 128) as u8,
    ] + body + footer
}

/// A tag is passed over as a whole, whatever it holds: what is left is what is left of the data
/// behind it.
pub proof fn law_a_written_tag_is_passed_over(
    version: (u8, u8),
    flags: u8,
    high_bits: (u8, u8, u8, u8),
    body: Seq<u8>,
    footer: Seq<u8>,
    rest: Seq<u8>,
)
    requires
        body.len() < 0x1000_0000,
        footer.len() == (if flags & 0x10 != 0 { 10int } else { 0 }),
    ensures
        after_id3(written_tag(version, flags, high_bits, body, footer) + rest) == after_id3(rest),
{
    let tag = written_tag(version, flags, high_bits, body, footer);
    let (h0, h1, h2, h3) = high_bits;
    let s0 = (body.len() / 0x20_0000) as u8;
    let s1 = ((body.len() / 0x4000) % 128) as u8;
    let s2 = ((body.len() / 0x80) % 128) as u8;
    let s3 = (body.len() % 128) as u8;
    assert(((h0 & 0x80) | s0) & 0x7F == s0 && ((h1 & 0x80) | s1) & 0x7F == s1 && ((h2 & 0x80) | s2)
        & 0x7F == s2 && ((h3 & 0x80) | s3) & 0x7F == s3) by (bit_vector)
        requires
            s0 < 128u8,
            s1 < 128u8,
            s2 < 128u8,
            s3 < 128u8,
    ;
    assert(tag[6] == (h0 & 0x80) | s0 && tag[7] == (h1 & 0x80) | s1 && tag[8] == (h2 & 0x80) | s2
        && tag[9] == (h3 & 0x80) | s3);
    assert(s0 * 0x20_0000 + s1 * 0x4000 + s2 * 0x80 + s3 == body.len());
    assert(id3_size(tag) == tag.len());
    law_id3_tags_are_skipped(tag, rest, Seq::empty());
}

/// Data that does not begin with the three letters of a tag, or has no room for a tag's header, is
/// left as it is.
pub proof fn law_other_data_is_no_tag(data: Seq<u8>)
    requires
        data.len() < 10 || data[0] != 73 || data[1] != 68 || data[2] != 51,
    ensures
        after_id3(data) == data,
{
}

/// The codec that a frame header shows: ADTS by twelve set bits and a layer of zero, MPEG audio by
/// eleven set bits and another layer, and none without eleven set bits.
pub proof fn law_a_frame_header_shows_its_codec(audio: Seq<u8>)
    ensures
        audio.len() < 2 ==> syncword_of(audio) is None,
        audio.len() >= 2 ==> {
            let second = audio[1];
            let layer = (second / 2) % 4;
            &&& audio[0] != 255 || second < 224 ==> syncword_of(audio) is None
            &&& audio[0] == 255 && second >= 240 && layer == 0 ==> syncword_of(audio) == Some(
                AudioCodec::AdtsAac,
            )
            &&& audio[0] == 255 && second >= 224 && layer != 0 ==> syncword_of(audio) == Some(
                AudioCodec::MpegAudio,
            )
            &&& audio[0] == 255 && 224 <= second < 240 && layer == 0 ==> syncword_of(audio) is None
        },
{
    if audio.len() >= 2 {
        let b = audio[1];
        assert((b & 0xF6 == 0xF0) == (b >= 240 && (b / 2) % 4 == 0)) by (bit_vector);
        assert((b & 0xE0 == 0xE0) == (b >= 224)) by (bit_vector);
        assert((b & 0x06 == 0x00) == ((b / 2) % 4 == 0)) by (bit_vector);
    }
}

/// Data strides like a transport stream if a sync byte stands within the length of a packet and
/// another one the length of a packet behind it, and not otherwise.
pub proof fn law_strides_are_two_sync_bytes(data: Seq<u8>, start: int)
    ensures
        0 <= start < 188 && start + 188 < data.len() && data[start] == 71 && data[start + 188] == 71
            ==> ts_strides(data),
        (forall|i: int|
            0 <= i < 188 && i + 188 < data.len() ==> !(#[trigger] data[i] == 71 && data[i + 188]
                == 71)) ==> !ts_strides(data),
{
    if 0 <= start < 188 && start + 188 < data.len() && data[start] == 71 && data[start + 188] == 71 {
        assert(data[start] == 0x47);
    }
}

/// The extension counts in any case of its letters, and the query behind it does not count. Only
/// two extensions name a codec.
pub proof fn law_an_extension_names_its_codec(path: Seq<char>, query: Seq<char>)
    requires
        forall|i: int| 0 <= i < path.len() ==> #[trigger] path[i] != '?',
    ensures
        ({
            let codec = if text::finishes_with(text::ascii_lower(path), ".aac"@) {
                Some(AudioCodec::AdtsAac)
            } else if text::finishes_with(text::ascii_lower(path), ".mp3"@) {
                Some(AudioCodec::MpegAudio)
            } else {
                None
            };
            &&& extension_of(path) == codec
            &&& extension_of(path + seq!['?'] + query) == codec
        }),
{
    text::law_a_text_is_parted_at_the_first(path, '?', query);
}

/// Data that shows neither a frame header nor a transport stream is believed to be what its
/// extension says, without its tags, and is nothing without such an extension.
pub proof fn law_the_extension_is_believed_last(data: Seq<u8>, uri: Seq<char>)
    requires
        after_id3(data).len() > 0,
        syncword_of(after_id3(data)) is None,
        !ts_strides(data),
    ensures
        segment_audio(data, uri) == (match extension_of(uri) {
            Some(codec) => Some((after_id3(data), codec)),
            None => None,
        }),
{
}

/// A frame header behind the tags decides alone, and data that is all tags is nothing.
pub proof fn law_a_frame_header_behind_the_tags_decides(data: Seq<u8>, uri: Seq<char>)
    ensures
        after_id3(data).len() == 0 ==> segment_audio(data, uri) is None,
        syncword_of(after_id3(data)) matches Some(codec) ==> segment_audio(data, uri) == Some(
            (after_id3(data), codec),
        ),
{
}

} // verus!
