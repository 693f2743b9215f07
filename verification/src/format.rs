//! Decides what a stream is to be read as.
//!
//! Sniffing for a container is not the default. A raw elementary stream (ADTS AAC, MPEG audio,
//! what internet radio serves) may hold no marker that a sniffer knows, and a live stream never
//! ends, so sniffing it may never end either. Where the codec is known, from the HLS segment, the
//! leading frame header, the content type, the URL or the station list, the matching reader is
//! named at once.

use vstd::prelude::*;

use crate::text;
use crate::ts_demuxer::AudioCodec;

verus! {

/// What can be told to a sniffer about a container.
#[derive(Clone, Debug)]
pub struct ContainerHint {
    pub mime_type: Option<String>,
    pub extension: Option<String>,
}

/// What a stream is to be read as.
#[derive(Clone, Debug)]
pub enum StreamFormat {
    /// Raw ADTS AAC, which is normalized first.
    Adts,
    /// Raw MPEG-1/2 audio.
    MpegAudio,
    /// A real container (Ogg, FLAC, MP4, WAV, ...) that is to be sniffed.
    Container(ContainerHint),
}

/// A stream format, its hint as texts.
pub enum FormatView {
    Adts,
    MpegAudio,
    Container { mime_type: Option<Seq<char>>, extension: Option<Seq<char>> },
}

impl View for StreamFormat {
    type V = FormatView;

    open spec fn view(&self) -> FormatView {
        match *self {
            StreamFormat::Adts => FormatView::Adts,
            StreamFormat::MpegAudio => FormatView::MpegAudio,
            StreamFormat::Container(hint) => FormatView::Container {
                mime_type: text::optional_text(hint.mime_type),
                extension: text::optional_text(hint.extension),
            },
        }
    }
}

/// The MIME type in a content type: without parameters and white space, in lower case.
pub open spec fn mime_of(content_type: Seq<char>) -> Seq<char> {
    text::ascii_lower(text::trimmed(text::before_char(content_type, ';')))
}

/// The MIME type names raw ADTS AAC.
pub open spec fn is_aac_mime(mime: Seq<char>) -> bool {
    mime == "audio/aac"@ || mime == "audio/aacp"@ || mime == "audio/x-aac"@ || mime
        == "audio/x-hx-aac-adts"@
}

/// The MIME type names raw MPEG audio.
pub open spec fn is_mpeg_mime(mime: Seq<char>) -> bool {
    mime == "audio/mpeg"@ || mime == "audio/mp3"@ || mime == "audio/mpeg3"@ || mime == "audio/x-mpeg"@
}

/// The extension that goes with the MIME type of a container.
pub open spec fn mime_extension(mime: Seq<char>) -> Option<Seq<char>> {
    if mime == "audio/ogg"@ || mime == "application/ogg"@ || mime == "audio/opus"@ || mime
        == "audio/vorbis"@ {
        Some("ogg"@)
    } else if mime == "audio/flac"@ || mime == "audio/x-flac"@ {
        Some("flac"@)
    } else if mime == "audio/mp4"@ || mime == "audio/x-m4a"@ || mime == "video/mp4"@ {
        Some("m4a"@)
    } else if mime == "audio/wav"@ || mime == "audio/x-wav"@ || mime == "audio/wave"@ || mime
        == "audio/vnd.wave"@ {
        Some("wav"@)
    } else {
        None
    }
}

/// The known extension that the path of a URL ends with.
pub open spec fn path_extension(path: Seq<char>) -> Option<Seq<char>> {
    if text::finishes_with(path, ".ogg"@) {
        Some("ogg"@)
    } else if text::finishes_with(path, ".oga"@) {
        Some("oga"@)
    } else if text::finishes_with(path, ".opus"@) {
        Some("opus"@)
    } else if text::finishes_with(path, ".flac"@) {
        Some("flac"@)
    } else if text::finishes_with(path, ".m4a"@) {
        Some("m4a"@)
    } else if text::finishes_with(path, ".mp4"@) {
        Some("mp4"@)
    } else if text::finishes_with(path, ".wav"@) {
        Some("wav"@)
    } else if text::finishes_with(path, ".aac"@) {
        Some("aac"@)
    } else if text::finishes_with(path, ".mp3"@) {
        Some("mp3"@)
    } else {
        None
    }
}

/// What the first bytes of a body show. An ID3 tag stands before MPEG audio.
pub open spec fn head_format(head: Seq<u8>) -> Option<FormatView> {
    if head.len() >= 3 && head[0] == 0x49 && head[1] == 0x44 && head[2] == 0x33 {
        Some(FormatView::MpegAudio)
    } else {
        match crate::segment::syncword_of(head) {
            Some(AudioCodec::AdtsAac) => Some(FormatView::Adts),
            Some(AudioCodec::MpegAudio) => Some(FormatView::MpegAudio),
            _ => None,
        }
    }
}

/// What the station list says of the codec.
pub open spec fn codec_format(codec: Seq<char>, mime_type: Option<Seq<char>>) -> FormatView {
    let name = text::ascii_upper(codec);
    if name == "MP3"@ {
        FormatView::MpegAudio
    } else if name == "AAC"@ || name == "AAC+"@ || name == "AACP"@ {
        FormatView::Adts
    } else if name == "OGG"@ || name == "VORBIS"@ || name == "OPUS"@ {
        FormatView::Container { mime_type, extension: Some("ogg"@) }
    } else if name == "FLAC"@ {
        FormatView::Container { mime_type, extension: Some("flac"@) }
    } else {
        FormatView::Container { mime_type, extension: None }
    }
}

/// What the URL says, or else the station list.
pub open spec fn url_format(
    url: Seq<char>,
    codec: Seq<char>,
    mime_type: Option<Seq<char>>,
) -> FormatView {
    match path_extension(text::ascii_lower(text::before_char(url, '?'))) {
        Some(extension) => if extension == "aac"@ {
            FormatView::Adts
        } else if extension == "mp3"@ {
            FormatView::MpegAudio
        } else {
            FormatView::Container { mime_type, extension: Some(extension) }
        },
        None => codec_format(codec, mime_type),
    }
}

/// What a progressive HTTP stream is: its first bytes say it most reliably, then the content type,
/// then the extension of the URL, then the station list.
pub open spec fn http_format(
    head: Seq<u8>,
    content_type: Option<Seq<char>>,
    url: Seq<char>,
    codec: Seq<char>,
) -> FormatView {
    match head_format(head) {
        Some(format) => format,
        None => match content_type {
            Some(value) => {
                let mime = mime_of(value);
                let mime_type = if mime.len() > 0 { Some(mime) } else { None };
                if is_aac_mime(mime) {
                    FormatView::Adts
                } else if is_mpeg_mime(mime) {
                    FormatView::MpegAudio
                } else if mime_extension(mime) is Some {
                    FormatView::Container { mime_type, extension: mime_extension(mime) }
                } else {
                    url_format(url, codec, mime_type)
                }
            },
            None => url_format(url, codec, None),
        },
    }
}

/// What an HLS stream of a codec is read as.
pub open spec fn hls_format(codec: AudioCodec) -> FormatView {
    match codec {
        AudioCodec::AdtsAac => FormatView::Adts,
        AudioCodec::MpegAudio => FormatView::MpegAudio,
        AudioCodec::Unknown => FormatView::Container { mime_type: None, extension: None },
    }
}

/// The short name of a format.
pub open spec fn format_name(format: FormatView) -> Seq<char> {
    match format {
        FormatView::Adts => "raw ADTS AAC"@,
        FormatView::MpegAudio => "raw MPEG audio"@,
        FormatView::Container { .. } => "container (sniffed)"@,
    }
}

/// What is said of a reader of a format that could not be opened.
pub open spec fn open_failure_text(format: FormatView, error: Seq<char>) -> Seq<char> {
    match format {
        FormatView::Adts => "not a readable AAC stream: "@ + error,
        FormatView::MpegAudio => "not a readable MPEG audio stream: "@ + error,
        FormatView::Container { .. } => "unsupported stream format: "@ + error,
    }
}

impl StreamFormat {
    /// Short name for status and diagnostic messages.
    pub fn describe(&self) -> (name: &'static str)
        ensures
            name@ == format_name(self@),
    {
        match self {
            StreamFormat::Adts => "raw ADTS AAC",
            StreamFormat::MpegAudio => "raw MPEG audio",
            StreamFormat::Container(_) => "container (sniffed)",
        }
    }

    /// The message for a reader of this format that could not be opened.
    pub fn open_failure(&self, error: &str) -> (message: String)
        ensures
            message@ == open_failure_text(self@, error@),
    {
        let mut message: String = match self {
            StreamFormat::Adts => "not a readable AAC stream: ".to_string(),
            StreamFormat::MpegAudio => "not a readable MPEG audio stream: ".to_string(),
            StreamFormat::Container(_) => "unsupported stream format: ".to_string(),
        };
        message.append(error);
        message
    }
}

/// The format of an HLS stream, whose codec is already known.
pub fn for_hls(codec: AudioCodec) -> (format: StreamFormat)
    ensures
        format@ == hls_format(codec),
{
    match codec {
        AudioCodec::AdtsAac => StreamFormat::Adts,
        AudioCodec::MpegAudio => StreamFormat::MpegAudio,
        AudioCodec::Unknown => StreamFormat::Container(
            ContainerHint { mime_type: None, extension: None },
        ),
    }
}

/// The MIME type in a content type.
pub fn parse_mime(content_type: &str) -> (mime: Vec<char>)
    ensures
        mime@ == mime_of(content_type@),
{
    let value: Vec<char> = text::chars_of(content_type);
    text::to_ascii_lower(text::trim(text::up_to_char(value.as_slice(), ';')))
}

/// A container with a hint.
fn container(mime_type: Option<String>, extension: &str) -> (format: StreamFormat)
    ensures
        format@ == (FormatView::Container {
            mime_type: text::optional_text(mime_type),
            extension: Some(extension@),
        }),
{
    StreamFormat::Container(ContainerHint { mime_type, extension: Some(extension.to_string()) })
}

/// The format of a progressive HTTP stream. `head` is the first few bytes of the body.
pub fn for_http(
    head: &[u8],
    content_type: Option<&str>,
    url: &str,
    dataset_codec: &str,
) -> (format: StreamFormat)
    ensures
        format@ == http_format(
            head@,
            (match content_type {
                Some(value) => Some(value@),
                None => None,
            }),
            url@,
            dataset_codec@,
        ),
{
    if let Some(format) = from_syncword(head) {
        return format;
    }
    let mut mime_type: Option<String> = None;
    if let Some(value) = content_type {
        let mime: Vec<char> = parse_mime(value);
        let m: &[char] = mime.as_slice();
        if text::is_text(m, "audio/aac") || text::is_text(m, "audio/aacp") || text::is_text(
            m,
            "audio/x-aac",
        ) || text::is_text(m, "audio/x-hx-aac-adts") {
            return StreamFormat::Adts;
        }
        if text::is_text(m, "audio/mpeg") || text::is_text(m, "audio/mp3") || text::is_text(
            m,
            "audio/mpeg3",
        ) || text::is_text(m, "audio/x-mpeg") {
            return StreamFormat::MpegAudio;
        }
        let mime_text: String = text::string_of(m);
        let known: Option<&'static str> = extension_for_mime(mime_text.as_str());
        if m.len() > 0 {
            mime_type = Some(mime_text);
        }
        if let Some(extension) = known {
            return container(mime_type, extension);
        }
    }
    let url_chars: Vec<char> = text::chars_of(url);
    let path: Vec<char> = text::to_ascii_lower(text::up_to_char(url_chars.as_slice(), '?'));
    if let Some(extension) = extension_of_path(path.as_slice()) {
        proof {
            reveal_strlit("aac");
            reveal_strlit("mp3");
        }
        let name: Vec<char> = text::chars_of(extension);
        if text::is_text(name.as_slice(), "aac") {
            return StreamFormat::Adts;
        }
        if text::is_text(name.as_slice(), "mp3") {
            return StreamFormat::MpegAudio;
        }
        return container(mime_type, extension);
    }
    let codec: Vec<char> = text::to_ascii_upper(text::chars_of(dataset_codec).as_slice());
    let c: &[char] = codec.as_slice();
    if text::is_text(c, "MP3") {
        StreamFormat::MpegAudio
    } else if text::is_text(c, "AAC") || text::is_text(c, "AAC+") || text::is_text(c, "AACP") {
        StreamFormat::Adts
    } else if text::is_text(c, "OGG") || text::is_text(c, "VORBIS") || text::is_text(c, "OPUS") {
        container(mime_type, "ogg")
    } else if text::is_text(c, "FLAC") {
        container(mime_type, "flac")
    } else {
        StreamFormat::Container(ContainerHint { mime_type, extension: None })
    }
}

/// The extension that goes with the MIME type of a container.
pub fn extension_for_mime(mime: &str) -> (extension: Option<&'static str>)
    ensures
        match extension {
            Some(name) => mime_extension(mime@) == Some(name@),
            None => mime_extension(mime@) is None,
        },
{
    let chars: Vec<char> = text::chars_of(mime);
    let m: &[char] = chars.as_slice();
    if text::is_text(m, "audio/ogg") || text::is_text(m, "application/ogg") || text::is_text(
        m,
        "audio/opus",
    ) || text::is_text(m, "audio/vorbis") {
        Some("ogg")
    } else if text::is_text(m, "audio/flac") || text::is_text(m, "audio/x-flac") {
        Some("flac")
    } else if text::is_text(m, "audio/mp4") || text::is_text(m, "audio/x-m4a") || text::is_text(
        m,
        "video/mp4",
    ) {
        Some("m4a")
    } else if text::is_text(m, "audio/wav") || text::is_text(m, "audio/x-wav") || text::is_text(
        m,
        "audio/wave",
    ) || text::is_text(m, "audio/vnd.wave") {
        Some("wav")
    } else {
        None
    }
}

/// The known extension that a path ends with.
fn extension_of_path(path: &[char]) -> (extension: Option<&'static str>)
    ensures
        match extension {
            Some(name) => path_extension(path@) == Some(name@),
            None => path_extension(path@) is None,
        },
{
    if text::ends_with_text(path, ".ogg") {
        Some("ogg")
    } else if text::ends_with_text(path, ".oga") {
        Some("oga")
    } else if text::ends_with_text(path, ".opus") {
        Some("opus")
    } else if text::ends_with_text(path, ".flac") {
        Some("flac")
    } else if text::ends_with_text(path, ".m4a") {
        Some("m4a")
    } else if text::ends_with_text(path, ".mp4") {
        Some("mp4")
    } else if text::ends_with_text(path, ".wav") {
        Some("wav")
    } else if text::ends_with_text(path, ".aac") {
        Some("aac")
    } else if text::ends_with_text(path, ".mp3") {
        Some("mp3")
    } else {
        None
    }
}

/// Identifies a raw elementary stream from its leading bytes.
pub fn from_syncword(head: &[u8]) -> (format: Option<StreamFormat>)
    ensures
        match format {
            Some(found) => head_format(head@) == Some(found@),
            None => head_format(head@) is None,
        },
{
    if head.len() >= 3 && head[0] == 0x49 && head[1] == 0x44 && head[2] == 0x33 {
        return Some(StreamFormat::MpegAudio);
    }
    match crate::segment::syncword_codec(head) {
        Some(AudioCodec::AdtsAac) => Some(StreamFormat::Adts),
        Some(AudioCodec::MpegAudio) => Some(StreamFormat::MpegAudio),
        _ => None,
    }
}

/// A body whose first bytes show what it is is read as that, whatever the content type, the URL
/// and the station list claim.
pub proof fn law_first_bytes_decide(
    head: Seq<u8>,
    content_type: Option<Seq<char>>,
    url: Seq<char>,
    codec: Seq<char>,
    other_type: Option<Seq<char>>,
    other_url: Seq<char>,
    other_codec: Seq<char>,
)
    requires
        head_format(head) is Some,
    ensures
        http_format(head, content_type, url, codec) == http_format(
            head,
            other_type,
            other_url,
            other_codec,
        ),
        !(http_format(head, content_type, url, codec) is Container),
{
}

/// A content type that names a raw stream is believed before the URL and the station list.
pub proof fn law_content_type_is_believed_next(
    head: Seq<u8>,
    content_type: Seq<char>,
    url: Seq<char>,
    codec: Seq<char>,
)
    requires
        head_format(head) is None,
    ensures
        is_aac_mime(mime_of(content_type)) ==> http_format(head, Some(content_type), url, codec)
            == FormatView::Adts,
        is_mpeg_mime(mime_of(content_type)) && !is_aac_mime(mime_of(content_type)) ==> http_format(
            head,
            Some(content_type),
            url,
            codec,
        ) == FormatView::MpegAudio,
{
}

/// A body that is read as a raw stream by its first bytes in HLS is read as the same over HTTP.
pub proof fn law_syncwords_agree(audio: Seq<u8>, content_type: Option<Seq<char>>, url: Seq<char>, codec: Seq<char>)
    requires
        crate::segment::syncword_of(audio) is Some,
    ensures
        http_format(audio, content_type, url, codec) == hls_format(
            crate::segment::syncword_of(audio).unwrap(),
        ),
{
}

/// A MIME type is read without its parameters and the white space around it, in lower case.
pub proof fn law_a_mime_type_is_read_without_its_parameters(
    before: Seq<char>,
    mime: Seq<char>,
    after: Seq<char>,
    parameters: Seq<char>,
)
    requires
        forall|i: int| 0 <= i < before.len() ==> text::is_white(#[trigger] before[i]),
        forall|i: int| 0 <= i < after.len() ==> text::is_white(#[trigger] after[i]),
        forall|i: int| 0 <= i < mime.len() ==> #[trigger] mime[i] != ';',
        mime.len() > 0 ==> !text::is_white(mime[0]) && !text::is_white(mime[mime.len() - 1]),
    ensures
        mime_of(before + mime + after) == text::ascii_lower(mime),
        mime_of(before + mime + after + seq![';'] + parameters) == text::ascii_lower(mime),
{
    let value = before + mime + after;
    assert forall|i: int| 0 <= i < value.len() implies #[trigger] value[i] != ';' by {
        if i < before.len() {
            assert(value[i] == before[i]);
        } else if i < before.len() + mime.len() {
            assert(value[i] == mime[i - before.len()]);
        } else {
            assert(value[i] == after[i - before.len() - mime.len()]);
        }
    }
    text::law_a_text_is_parted_at_the_first(value, ';', parameters);
    text::law_trimming_takes_the_white_space_off(before, mime, after);
}

/// What the first bytes show: MPEG audio behind an ID3 tag, and else the codec of a frame header.
pub proof fn law_the_first_bytes_show_the_format(head: Seq<u8>)
    ensures
        head.len() >= 3 && head[0] == 73 && head[1] == 68 && head[2] == 51 ==> head_format(head)
            == Some(FormatView::MpegAudio),
        head.len() >= 2 && head[0] == 255 && (head[1] == 240 || head[1] == 241 || head[1] == 248
            || head[1] == 249) ==> head_format(head) == Some(FormatView::Adts),
        head.len() >= 2 && head[0] == 255 && head[1] >= 224 && (head[1] / 2) % 4 != 0 ==> head_format(
            head,
        ) == Some(FormatView::MpegAudio),
        head.len() < 2 || (head[0] != 255 && head[0] != 73) ==> head_format(head) is None,
{
    crate::segment::law_a_frame_header_shows_its_codec(head);
    if head.len() >= 2 {
        let b = head[1];
        assert((b >= 240 && (b / 2) % 4 == 0) == (b == 240 || b == 241 || b == 248 || b == 249))
            by (bit_vector);
    }
}

/// The format that the first bytes show is the format of the stream.
pub proof fn law_the_first_bytes_are_believed(
    head: Seq<u8>,
    content_type: Option<Seq<char>>,
    url: Seq<char>,
    codec: Seq<char>,
)
    ensures
        head_format(head) matches Some(format) ==> http_format(head, content_type, url, codec)
            == format,
{
}

/// Which MIME types name a raw stream, and which a container, with the extension that goes with it.
/// The container is sniffed with both. Of any other MIME type, the URL is asked, and the MIME type
/// is kept for the sniffer.
pub proof fn law_a_mime_type_names_its_format(
    head: Seq<u8>,
    content_type: Seq<char>,
    url: Seq<char>,
    codec: Seq<char>,
)
    requires
        head_format(head) is None,
    ensures
        ({
            let mime = mime_of(content_type);
            let format = http_format(head, Some(content_type), url, codec);
            let aac = mime == "audio/aac"@ || mime == "audio/aacp"@ || mime == "audio/x-aac"@ || mime
                == "audio/x-hx-aac-adts"@;
            let mpeg = mime == "audio/mpeg"@ || mime == "audio/mp3"@ || mime == "audio/mpeg3"@ || mime
                == "audio/x-mpeg"@;
            let ogg = mime == "audio/ogg"@ || mime == "application/ogg"@ || mime == "audio/opus"@
                || mime == "audio/vorbis"@;
            let flac = mime == "audio/flac"@ || mime == "audio/x-flac"@;
            let m4a = mime == "audio/mp4"@ || mime == "audio/x-m4a"@ || mime == "video/mp4"@;
            let wav = mime == "audio/wav"@ || mime == "audio/x-wav"@ || mime == "audio/wave"@ || mime
                == "audio/vnd.wave"@;
            &&& aac ==> format == FormatView::Adts
            &&& mpeg ==> format == FormatView::MpegAudio
            &&& ogg ==> format == (FormatView::Container {
                mime_type: Some(mime),
                extension: Some("ogg"@),
            })
            &&& flac ==> format == (FormatView::Container {
                mime_type: Some(mime),
                extension: Some("flac"@),
            })
            &&& m4a ==> format == (FormatView::Container {
                mime_type: Some(mime),
                extension: Some("m4a"@),
            })
            &&& wav ==> format == (FormatView::Container {
                mime_type: Some(mime),
                extension: Some("wav"@),
            })
            &&& !aac && !mpeg && !ogg && !flac && !m4a && !wav ==> format == url_format(
                url,
                codec,
                if mime.len() > 0 {
                    Some(mime)
                } else {
                    None
                },
            )
        }),
        http_format(head, None, url, codec) == url_format(url, codec, None),
{
    let mime = mime_of(content_type);
    lemma_mimes();
}

/// The lengths of the MIME types, and two characters in which those of the same length differ.
proof fn lemma_mimes()
    ensures
        "audio/aac"@.len() == 9 && "audio/aac"@[6] == 'a' && "audio/aac"@[8] == 'c',
        "audio/aacp"@.len() == 10 && "audio/aacp"@[6] == 'a' && "audio/aacp"@[8] == 'c',
        "audio/x-aac"@.len() == 11 && "audio/x-aac"@[6] == 'x' && "audio/x-aac"@[8] == 'a',
        "audio/x-hx-aac-adts"@.len() == 19 && "audio/x-hx-aac-adts"@[6] == 'x' && "audio/x-hx-aac-adts"@[8] == 'h',
        "audio/mpeg"@.len() == 10 && "audio/mpeg"@[6] == 'm' && "audio/mpeg"@[8] == 'e',
        "audio/mp3"@.len() == 9 && "audio/mp3"@[6] == 'm' && "audio/mp3"@[8] == '3',
        "audio/mpeg3"@.len() == 11 && "audio/mpeg3"@[6] == 'm' && "audio/mpeg3"@[8] == 'e',
        "audio/x-mpeg"@.len() == 12 && "audio/x-mpeg"@[6] == 'x' && "audio/x-mpeg"@[8] == 'm',
        "audio/ogg"@.len() == 9 && "audio/ogg"@[6] == 'o' && "audio/ogg"@[8] == 'g',
        "application/ogg"@.len() == 15 && "application/ogg"@[6] == 'a' && "application/ogg"@[8] == 'i',
        "audio/opus"@.len() == 10 && "audio/opus"@[6] == 'o' && "audio/opus"@[8] == 'u',
        "audio/vorbis"@.len() == 12 && "audio/vorbis"@[6] == 'v' && "audio/vorbis"@[8] == 'r',
        "audio/flac"@.len() == 10 && "audio/flac"@[6] == 'f' && "audio/flac"@[8] == 'a',
        "audio/x-flac"@.len() == 12 && "audio/x-flac"@[6] == 'x' && "audio/x-flac"@[8] == 'f',
        "audio/mp4"@.len() == 9 && "audio/mp4"@[6] == 'm' && "audio/mp4"@[8] == '4',
        "audio/x-m4a"@.len() == 11 && "audio/x-m4a"@[6] == 'x' && "audio/x-m4a"@[8] == 'm',
        "video/mp4"@.len() == 9 && "video/mp4"@[6] == 'm' && "video/mp4"@[8] == '4',
        "audio/wav"@.len() == 9 && "audio/wav"@[6] == 'w' && "audio/wav"@[8] == 'v',
        "audio/x-wav"@.len() == 11 && "audio/x-wav"@[6] == 'x' && "audio/x-wav"@[8] == 'w',
        "audio/wave"@.len() == 10 && "audio/wave"@[6] == 'w' && "audio/wave"@[8] == 'v',
        "audio/vnd.wave"@.len() == 14 && "audio/vnd.wave"@[6] == 'v' && "audio/vnd.wave"@[8] == 'd',
{
    reveal_strlit("audio/aac");
    reveal_strlit("audio/aacp");
    reveal_strlit("audio/x-aac");
    reveal_strlit("audio/x-hx-aac-adts");
    reveal_strlit("audio/mpeg");
    reveal_strlit("audio/mp3");
    reveal_strlit("audio/mpeg3");
    reveal_strlit("audio/x-mpeg");
    reveal_strlit("audio/ogg");
    reveal_strlit("application/ogg");
    reveal_strlit("audio/opus");
    reveal_strlit("audio/vorbis");
    reveal_strlit("audio/flac");
    reveal_strlit("audio/x-flac");
    reveal_strlit("audio/mp4");
    reveal_strlit("audio/x-m4a");
    reveal_strlit("video/mp4");
    reveal_strlit("audio/wav");
    reveal_strlit("audio/x-wav");
    reveal_strlit("audio/wave");
    reveal_strlit("audio/vnd.wave");
}

/// The last characters of a text that ends with a pattern are those of the pattern.
proof fn lemma_last_chars(path: Seq<char>, pattern: Seq<char>)
    requires
        pattern.len() >= 4,
    ensures
        text::finishes_with(path, pattern) ==> path.len() >= 4 && path[path.len() - 1]
            == pattern[pattern.len() - 1] && path[path.len() - 2] == pattern[pattern.len() - 2]
            && path[path.len() - 3] == pattern[pattern.len() - 3],
{
    if text::finishes_with(path, pattern) {
        let back = path.skip(path.len() - pattern.len());
        assert(back[pattern.len() - 1] == path[path.len() - 1]);
        assert(back[pattern.len() - 2] == path[path.len() - 2]);
        assert(back[pattern.len() - 3] == path[path.len() - 3]);
    }
}

/// Where nothing better is known, the extension of the URL names the format, in any case of its
/// letters and whatever query stands behind it: two name a raw stream, the others a container that
/// is sniffed with it.
pub proof fn law_an_extension_names_the_format(
    path: Seq<char>,
    query: Seq<char>,
    codec: Seq<char>,
    mime_type: Option<Seq<char>>,
)
    requires
        forall|i: int| 0 <= i < path.len() ==> #[trigger] path[i] != '?',
    ensures
        ({
            let lower = text::ascii_lower(path);
            let format = url_format(path, codec, mime_type);
            &&& url_format(path + seq!['?'] + query, codec, mime_type) == format
            &&& text::finishes_with(lower, ".aac"@) ==> format == FormatView::Adts
            &&& text::finishes_with(lower, ".mp3"@) ==> format == FormatView::MpegAudio
            &&& text::finishes_with(lower, ".ogg"@) ==> format == (FormatView::Container {
                mime_type,
                extension: Some("ogg"@),
            })
            &&& text::finishes_with(lower, ".oga"@) ==> format == (FormatView::Container {
                mime_type,
                extension: Some("oga"@),
            })
            &&& text::finishes_with(lower, ".opus"@) ==> format == (FormatView::Container {
                mime_type,
                extension: Some("opus"@),
            })
            &&& text::finishes_with(lower, ".flac"@) ==> format == (FormatView::Container {
                mime_type,
                extension: Some("flac"@),
            })
            &&& text::finishes_with(lower, ".m4a"@) ==> format == (FormatView::Container {
                mime_type,
                extension: Some("m4a"@),
            })
            &&& text::finishes_with(lower, ".mp4"@) ==> format == (FormatView::Container {
                mime_type,
                extension: Some("mp4"@),
            })
            &&& text::finishes_with(lower, ".wav"@) ==> format == (FormatView::Container {
                mime_type,
                extension: Some("wav"@),
            })
            &&& path_extension(lower) is None ==> format == codec_format(codec, mime_type)
        }),
{
    text::law_a_text_is_parted_at_the_first(path, '?', query);
    let lower = text::ascii_lower(path);
    lemma_extensions(lower);
    reveal_strlit("ogg");
    reveal_strlit("oga");
    reveal_strlit("opus");
    reveal_strlit("flac");
    reveal_strlit("m4a");
    reveal_strlit("mp4");
    reveal_strlit("wav");
    reveal_strlit("aac");
    reveal_strlit("mp3");
    assert("ogg"@[0] == 'o' && "ogg"@[1] == 'g' && "ogg"@[2] == 'g');
    assert("oga"@[0] == 'o' && "oga"@[1] == 'g' && "oga"@[2] == 'a');
    assert("opus"@[0] == 'o' && "opus"@[1] == 'p' && "opus"@[2] == 'u');
    assert("flac"@[0] == 'f' && "flac"@[1] == 'l' && "flac"@[2] == 'a');
    assert("m4a"@[0] == 'm' && "m4a"@[1] == '4' && "m4a"@[2] == 'a');
    assert("mp4"@[0] == 'm' && "mp4"@[1] == 'p' && "mp4"@[2] == '4');
    assert("wav"@[0] == 'w' && "wav"@[1] == 'a' && "wav"@[2] == 'v');
    assert("aac"@[0] == 'a' && "aac"@[1] == 'a' && "aac"@[2] == 'c');
    assert("mp3"@[0] == 'm' && "mp3"@[1] == 'p' && "mp3"@[2] == '3');
}

/// A path that ends with an extension has that extension and no other, and one that ends with none
/// of them has none.
pub proof fn law_a_path_has_the_extension_that_it_ends_with(path: Seq<char>)
    ensures
        text::finishes_with(path, ".ogg"@) ==> path_extension(path) == Some("ogg"@),
        text::finishes_with(path, ".oga"@) ==> path_extension(path) == Some("oga"@),
        text::finishes_with(path, ".opus"@) ==> path_extension(path) == Some("opus"@),
        text::finishes_with(path, ".flac"@) ==> path_extension(path) == Some("flac"@),
        text::finishes_with(path, ".m4a"@) ==> path_extension(path) == Some("m4a"@),
        text::finishes_with(path, ".mp4"@) ==> path_extension(path) == Some("mp4"@),
        text::finishes_with(path, ".wav"@) ==> path_extension(path) == Some("wav"@),
        text::finishes_with(path, ".aac"@) ==> path_extension(path) == Some("aac"@),
        text::finishes_with(path, ".mp3"@) ==> path_extension(path) == Some("mp3"@),
        !text::finishes_with(path, ".ogg"@) && !text::finishes_with(path, ".oga"@)
            && !text::finishes_with(path, ".opus"@) && !text::finishes_with(path, ".flac"@)
            && !text::finishes_with(path, ".m4a"@) && !text::finishes_with(path, ".mp4"@)
            && !text::finishes_with(path, ".wav"@) && !text::finishes_with(path, ".aac"@)
            && !text::finishes_with(path, ".mp3"@) ==> path_extension(path) is None,
{
    lemma_extensions(path);
}

proof fn lemma_extensions(path: Seq<char>)
    ensures
        text::finishes_with(path, ".ogg"@) ==> path_extension(path) == Some("ogg"@),
        text::finishes_with(path, ".oga"@) ==> path_extension(path) == Some("oga"@),
        text::finishes_with(path, ".opus"@) ==> path_extension(path) == Some("opus"@),
        text::finishes_with(path, ".flac"@) ==> path_extension(path) == Some("flac"@),
        text::finishes_with(path, ".m4a"@) ==> path_extension(path) == Some("m4a"@),
        text::finishes_with(path, ".mp4"@) ==> path_extension(path) == Some("mp4"@),
        text::finishes_with(path, ".wav"@) ==> path_extension(path) == Some("wav"@),
        text::finishes_with(path, ".aac"@) ==> path_extension(path) == Some("aac"@),
        text::finishes_with(path, ".mp3"@) ==> path_extension(path) == Some("mp3"@),
{
    reveal_strlit(".ogg");
    reveal_strlit(".oga");
    reveal_strlit(".opus");
    reveal_strlit(".flac");
    reveal_strlit(".m4a");
    reveal_strlit(".mp4");
    reveal_strlit(".wav");
    reveal_strlit(".aac");
    reveal_strlit(".mp3");
    assert(".ogg"@[3] == 'g' && ".ogg"@[2] == 'g' && ".ogg"@[1] == 'o');
    lemma_last_chars(path, ".ogg"@);
    assert(".oga"@[3] == 'a' && ".oga"@[2] == 'g' && ".oga"@[1] == 'o');
    lemma_last_chars(path, ".oga"@);
    assert(".opus"@[4] == 's' && ".opus"@[3] == 'u' && ".opus"@[2] == 'p');
    lemma_last_chars(path, ".opus"@);
    assert(".flac"@[4] == 'c' && ".flac"@[3] == 'a' && ".flac"@[2] == 'l');
    lemma_last_chars(path, ".flac"@);
    assert(".m4a"@[3] == 'a' && ".m4a"@[2] == '4' && ".m4a"@[1] == 'm');
    lemma_last_chars(path, ".m4a"@);
    assert(".mp4"@[3] == '4' && ".mp4"@[2] == 'p' && ".mp4"@[1] == 'm');
    lemma_last_chars(path, ".mp4"@);
    assert(".wav"@[3] == 'v' && ".wav"@[2] == 'a' && ".wav"@[1] == 'w');
    lemma_last_chars(path, ".wav"@);
    assert(".aac"@[3] == 'c' && ".aac"@[2] == 'a' && ".aac"@[1] == 'a');
    lemma_last_chars(path, ".aac"@);
    assert(".mp3"@[3] == '3' && ".mp3"@[2] == 'p' && ".mp3"@[1] == 'm');
    lemma_last_chars(path, ".mp3"@);
}

/// Where nothing else is known, the station list names the format, in any case of its letters. What
/// it does not name is a container of which only the MIME type is known, if that is.
pub proof fn law_the_station_list_is_asked_last(codec: Seq<char>, mime_type: Option<Seq<char>>)
    ensures
        ({
            let name = text::ascii_upper(codec);
            let format = codec_format(codec, mime_type);
            let aac = name == "AAC"@ || name == "AAC+"@ || name == "AACP"@;
            let ogg = name == "OGG"@ || name == "VORBIS"@ || name == "OPUS"@;
            &&& name == "MP3"@ ==> format == FormatView::MpegAudio
            &&& aac ==> format == FormatView::Adts
            &&& ogg ==> format == (FormatView::Container { mime_type, extension: Some("ogg"@) })
            &&& name == "FLAC"@ ==> format == (FormatView::Container {
                mime_type,
                extension: Some("flac"@),
            })
            &&& name != "MP3"@ && !aac && !ogg && name != "FLAC"@ ==> format
                == (FormatView::Container { mime_type, extension: None })
        }),
{
    reveal_strlit("MP3");
    reveal_strlit("AAC");
    reveal_strlit("AAC+");
    reveal_strlit("AACP");
    reveal_strlit("OGG");
    reveal_strlit("VORBIS");
    reveal_strlit("OPUS");
    reveal_strlit("FLAC");
    assert("MP3"@[0] == 'M' && "AAC"@[0] == 'A' && "AAC+"@[0] == 'A' && "AACP"@[0] == 'A');
    assert("OGG"@[0] == 'O' && "VORBIS"@[0] == 'V' && "OPUS"@[0] == 'O' && "FLAC"@[0] == 'F');
}

/// An HLS stream is read as its codec says, and is sniffed without a hint where that is not known.
pub proof fn law_an_hls_stream_is_read_as_its_codec()
    ensures
        hls_format(AudioCodec::AdtsAac) == FormatView::Adts,
        hls_format(AudioCodec::MpegAudio) == FormatView::MpegAudio,
        hls_format(AudioCodec::Unknown) == (FormatView::Container {
            mime_type: None,
            extension: None,
        }),
{
}

/// Each format has its name, and a failure to read it is told with what the reader said.
pub proof fn law_formats_have_their_names(
    mime_type: Option<Seq<char>>,
    extension: Option<Seq<char>>,
    error: Seq<char>,
)
    ensures
        format_name(FormatView::Adts) == "raw ADTS AAC"@,
        format_name(FormatView::MpegAudio) == "raw MPEG audio"@,
        format_name(FormatView::Container { mime_type, extension }) == "container (sniffed)"@,
        open_failure_text(FormatView::Adts, error) == "not a readable AAC stream: "@ + error,
        open_failure_text(FormatView::MpegAudio, error) == "not a readable MPEG audio stream: "@
            + error,
        open_failure_text(FormatView::Container { mime_type, extension }, error)
            == "unsupported stream format: "@ + error,
{
}

} // verus!
