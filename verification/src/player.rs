//! Plays one station at a time: finds the stream behind a station's URL, and decides what a
//! playing session does next and what is told of it.
//!
//! All that touches the network, the decoder or the audio device is done by the caller, which
//! performs the actions that are asked for here and reports what came of them.

use vstd::prelude::*;

use crate::format::{FormatView, StreamFormat};
use crate::m3u8;
use crate::station::Station;
use crate::text;
use crate::ts_demuxer::AudioCodec;

verus! {

/// Enough leading bytes to recognize a playlist marker as well as an audio frame header.
pub const HEAD_PEEK_BYTES: usize = 16;

/// How many seconds to wait for them: a guard against stalls, no buffering delay.
pub const HEAD_PEEK_SECONDS: u64 = 15;

/// How many playlists are followed. More than two hops means that something is looping.
pub const MAX_PLAYLIST_HOPS: usize = 2;

/// The URL, without its query, is that of an HLS playlist.
pub open spec fn names_hls(url: Seq<char>) -> bool {
    text::finishes_with(text::ascii_lower(text::before_char(url, '?')), ".m3u8"@)
}

/// The URL is that of an HLS playlist.
pub fn is_hls_url(url: &str) -> (hls: bool)
    ensures
        hls == names_hls(url@),
{
    let chars: Vec<char> = text::chars_of(url);
    let path: Vec<char> = text::to_ascii_lower(text::up_to_char(chars.as_slice(), '?'));
    text::ends_with_text(path.as_slice(), ".m3u8")
}

/// The first of some lines that holds more than white space, without the white space around it.
pub open spec fn first_filled(lines: Seq<Seq<char>>) -> Seq<char>
    decreases lines.len(),
{
    if lines.len() == 0 {
        Seq::empty()
    } else if text::trimmed(lines[0]).len() > 0 {
        text::trimmed(lines[0])
    } else {
        first_filled(lines.skip(1))
    }
}

/// The first line of a text that holds more than white space: a resolver response is just the URL
/// of the stream on a line of its own.
pub fn first_line(text: &str) -> (line: String)
    ensures
        line@ == first_filled(text::lines_of(text@)),
{
    let chars: Vec<char> = text::chars_of(text);
    let lines: Vec<Vec<char>> = text::split_lines(chars.as_slice());
    let ghost texts = text::char_texts(lines@);
    assert(texts.skip(0) =~= texts);
    for position in 0..lines.len()
        invariant
            texts == text::char_texts(lines@),
            texts == text::lines_of(text@),
            first_filled(texts) == first_filled(texts.skip(position as int)),
    {
        let line: &[char] = text::trim(lines[position].as_slice());
        assert(texts.skip(position as int)[0] == lines@[position as int]@);
        if line.len() > 0 {
            return text::string_of(line);
        }
        assert(texts.skip(position as int).skip(1) =~= texts.skip(position + 1));
    }
    String::new()
}

/// The bytes begin with the characters.
pub open spec fn bytes_begin_with(bytes: Seq<u8>, pattern: Seq<char>) -> bool {
    bytes.len() >= pattern.len() && forall|i: int|
        0 <= i < pattern.len() ==> #[trigger] bytes[i] as char == pattern[i]
}

/// The bytes begin with the characters, whatever the case of their letters.
pub open spec fn bytes_begin_with_any_case(bytes: Seq<u8>, pattern: Seq<char>) -> bool {
    bytes.len() >= pattern.len() && forall|i: int|
        0 <= i < pattern.len() ==> text::lower_char(#[trigger] bytes[i] as char) == pattern[i]
}

/// The bytes begin with the characters of a literal.
fn begins_with_text(bytes: &[u8], pattern: &str) -> (yes: bool)
    ensures
        yes == bytes_begin_with(bytes@, pattern@),
{
    let chars: Vec<char> = text::chars_of(pattern);
    if bytes.len() < chars.len() {
        return false;
    }
    for position in 0..chars.len()
        invariant
            chars@ == pattern@,
            bytes@.len() >= chars@.len(),
            forall|i: int| 0 <= i < position ==> #[trigger] bytes@[i] as char == pattern@[i],
    {
        if bytes[position] as char != chars[position] {
            return false;
        }
    }
    true
}

/// The bytes begin with the characters of a literal, whatever the case of their letters.
fn begins_with_text_any_case(bytes: &[u8], pattern: &str) -> (yes: bool)
    ensures
        yes == bytes_begin_with_any_case(bytes@, pattern@),
{
    let chars: Vec<char> = text::chars_of(pattern);
    if bytes.len() < chars.len() {
        return false;
    }
    for position in 0..chars.len()
        invariant
            chars@ == pattern@,
            bytes@.len() >= chars@.len(),
            forall|i: int|
                0 <= i < position ==> text::lower_char(#[trigger] bytes@[i] as char) == pattern@[i],
    {
        let mut byte: u8 = bytes[position];
        if 0x41 <= byte && byte <= 0x5A {
            byte = byte + 32;
        }
        assert(byte as char == text::lower_char(bytes@[position as int] as char));
        if byte as char != chars[position] {
            return false;
        }
    }
    true
}

/// The MIME type is that of a playlist.
pub open spec fn is_playlist_mime(mime: Seq<char>) -> bool {
    mime == "application/vnd.apple.mpegurl"@ || mime == "application/x-mpegurl"@ || mime
        == "audio/x-mpegurl"@ || mime == "audio/mpegurl"@ || mime == "audio/x-scpls"@ || mime
        == "audio/scpls"@
}

/// The body begins as a playlist does: with the marker of an M3U or HLS playlist or of a PLS
/// playlist, or with a URL, which no audio begins with.
pub open spec fn begins_as_playlist(head: Seq<u8>) -> bool {
    bytes_begin_with(head, "#EXTM3U"@) || bytes_begin_with(head, "#EXT-X"@)
        || bytes_begin_with_any_case(head, "[playlist]"@) || bytes_begin_with(head, "http://"@)
        || bytes_begin_with(head, "https://"@)
}

/// The body is a playlist rather than audio, going by how it begins or else by its content type.
pub open spec fn is_playlist(head: Seq<u8>, content_type: Option<Seq<char>>) -> bool {
    begins_as_playlist(head) || (match content_type {
        Some(value) => is_playlist_mime(crate::format::mime_of(value)),
        None => false,
    })
}

/// The body is a playlist rather than audio. The URL says little of that: a URL without an
/// extension often redirects to a playlist.
pub fn looks_like_playlist(head: &[u8], content_type: Option<&str>) -> (playlist: bool)
    ensures
        playlist == is_playlist(
            head@,
            (match content_type {
                Some(value) => Some(value@),
                None => None,
            }),
        ),
{
    if begins_with_text(head, "#EXTM3U") || begins_with_text(head, "#EXT-X") {
        return true;
    }
    if begins_with_text_any_case(head, "[playlist]") {
        return true;
    }
    if begins_with_text(head, "http://") || begins_with_text(head, "https://") {
        return true;
    }
    match content_type {
        None => false,
        Some(value) => {
            let mime: Vec<char> = crate::format::parse_mime(value);
            let m: &[char] = mime.as_slice();
            text::is_text(m, "application/vnd.apple.mpegurl") || text::is_text(
                m,
                "application/x-mpegurl",
            ) || text::is_text(m, "audio/x-mpegurl") || text::is_text(m, "audio/mpegurl")
                || text::is_text(m, "audio/x-scpls") || text::is_text(m, "audio/scpls")
        },
    }
}

/// What a line of a playlist points at, whether it is a URL or not: the value of a `File` entry,
/// or the line itself unless it is a comment.
pub open spec fn pointed_at(line: Seq<char>) -> Seq<char> {
    if text::has_char(line, '=') && text::begins_with(
        text::ascii_lower(text::trimmed_start(text::before_char(line, '='))),
        "file"@,
    ) {
        text::trimmed(text::after_char(line, '='))
    } else if line.len() > 0 && line[0] == '#' {
        Seq::empty()
    } else {
        line
    }
}

/// A URL that can be streamed from.
pub open spec fn is_stream_url(url: Seq<char>) -> bool {
    text::begins_with(url, "http://"@) || text::begins_with(url, "https://"@)
}

/// The first URL that some lines point at.
pub open spec fn first_url(lines: Seq<Seq<char>>) -> Option<Seq<char>>
    decreases lines.len(),
{
    if lines.len() == 0 {
        None
    } else if is_stream_url(pointed_at(text::trimmed(lines[0]))) {
        Some(pointed_at(text::trimmed(lines[0])))
    } else {
        first_url(lines.skip(1))
    }
}

/// The URL that a line points at.
fn url_in_line(line: &[char]) -> (url: Option<String>)
    ensures
        match url {
            Some(found) => is_stream_url(pointed_at(line@)) && found@ == pointed_at(line@),
            None => !is_stream_url(pointed_at(line@)),
        },
{
    proof {
        reveal_strlit("http://");
        reveal_strlit("https://");
        text::lemma_index_of_char(line@, '=');
    }
    let at: usize = text::find_char(line, '=');
    let mut is_file: bool = false;
    if at < line.len() {
        let key: Vec<char> = text::to_ascii_lower(
            text::trim_start(text::up_to_char(line, '=')),
        );
        is_file = text::starts_with_text(key.as_slice(), "file");
    }
    let candidate: &[char] = if is_file {
        text::trim(vstd::slice::slice_subrange(line, at + 1, line.len()))
    } else if line.len() > 0 && line[0] == '#' {
        return None;
    } else {
        line
    };
    assert(candidate@ == pointed_at(line@));
    if text::starts_with_text(candidate, "http://") || text::starts_with_text(
        candidate,
        "https://",
    ) {
        Some(text::string_of(candidate))
    } else {
        None
    }
}

/// The first playable URL in a playlist of bare URL lines or of `FileN=<url>` entries.
pub fn first_stream_url(text: &str) -> (url: Option<String>)
    ensures
        match url {
            Some(found) => first_url(text::lines_of(text@)) == Some(found@),
            None => first_url(text::lines_of(text@)) is None,
        },
{
    let chars: Vec<char> = text::chars_of(text);
    let lines: Vec<Vec<char>> = text::split_lines(chars.as_slice());
    let ghost texts = text::char_texts(lines@);
    assert(texts.skip(0) =~= texts);
    for position in 0..lines.len()
        invariant
            texts == text::char_texts(lines@),
            texts == text::lines_of(text@),
            first_url(texts) == first_url(texts.skip(position as int)),
    {
        assert(texts.skip(position as int)[0] == lines@[position as int]@);
        let found: Option<String> = url_in_line(text::trim(lines[position].as_slice()));
        if found.is_some() {
            return found;
        }
        assert(texts.skip(position as int).skip(1) =~= texts.skip(position + 1));
    }
    None
}

/// Every URL that is taken from a playlist can be streamed from.
pub proof fn law_playlists_give_stream_urls(lines: Seq<Seq<char>>)
    ensures
        first_url(lines) matches Some(url) ==> is_stream_url(url),
    decreases lines.len(),
{
    if lines.len() > 0 {
        law_playlists_give_stream_urls(lines.skip(1));
    }
}

/// What the search for the stream of a station asks for.
#[derive(Debug)]
pub enum OpenAction {
    /// Fetch the response of the resolver at a URL.
    Resolve(String),
    /// Open the HLS stream at a URL.
    OpenHls(String),
    /// Open the progressive stream at a URL and look at its first bytes.
    OpenStream(String),
    /// Close the stream at hand, which is a playlist, and fetch the playlist at a URL.
    FetchPlaylist(String),
    /// The stream at hand is the one, to be read in this format.
    Done(StreamFormat),
    /// There is no stream; the text says why.
    Fail(String),
}

/// A progressive stream that has been opened.
#[derive(Debug)]
pub struct StreamHead {
    /// The first bytes of the body.
    pub head: Vec<u8>,
    pub content_type: Option<String>,
    /// The URL that is streamed from, after redirects.
    pub final_url: String,
}

/// What came of what the search asked for.
#[derive(Debug)]
pub enum OpenEvent {
    /// The response of the resolver or the playlist.
    Text(Result<String, String>),
    /// The codec of the HLS stream.
    Hls(Result<AudioCodec, String>),
    /// The progressive stream.
    Stream(Result<StreamHead, String>),
}

/// What the search is waiting for.
#[derive(Clone, Copy, Debug, PartialEq, Eq, Structural)]
pub enum OpenPhase {
    Resolver,
    Hls,
    Stream,
    Playlist,
    Finished,
}

/// What the search asks for, as texts.
pub enum OpenActionView {
    Resolve(Seq<char>),
    OpenHls(Seq<char>),
    OpenStream(Seq<char>),
    FetchPlaylist(Seq<char>),
    Done(FormatView),
    Fail(Seq<char>),
}

impl View for OpenAction {
    type V = OpenActionView;

    open spec fn view(&self) -> OpenActionView {
        match *self {
            OpenAction::Resolve(url) => OpenActionView::Resolve(url@),
            OpenAction::OpenHls(url) => OpenActionView::OpenHls(url@),
            OpenAction::OpenStream(url) => OpenActionView::OpenStream(url@),
            OpenAction::FetchPlaylist(url) => OpenActionView::FetchPlaylist(url@),
            OpenAction::Done(format) => OpenActionView::Done(format@),
            OpenAction::Fail(message) => OpenActionView::Fail(message@),
        }
    }
}

/// A progressive stream that has been opened, as texts and bytes.
pub struct HeadView {
    pub head: Seq<u8>,
    pub content_type: Option<Seq<char>>,
    pub final_url: Seq<char>,
}

impl View for StreamHead {
    type V = HeadView;

    open spec fn view(&self) -> HeadView {
        HeadView {
            head: self.head@,
            content_type: text::optional_text(self.content_type),
            final_url: self.final_url@,
        }
    }
}

/// What came of what the search asked for, as texts and bytes.
pub enum OpenEventView {
    Text(Result<Seq<char>, Seq<char>>),
    Hls(Result<AudioCodec, Seq<char>>),
    Stream(Result<HeadView, Seq<char>>),
}

impl View for OpenEvent {
    type V = OpenEventView;

    open spec fn view(&self) -> OpenEventView {
        match *self {
            OpenEvent::Text(Ok(text)) => OpenEventView::Text(Ok(text@)),
            OpenEvent::Text(Err(error)) => OpenEventView::Text(Err(error@)),
            OpenEvent::Hls(Ok(codec)) => OpenEventView::Hls(Ok(codec)),
            OpenEvent::Hls(Err(error)) => OpenEventView::Hls(Err(error@)),
            OpenEvent::Stream(Ok(stream)) => OpenEventView::Stream(Ok(stream@)),
            OpenEvent::Stream(Err(error)) => OpenEventView::Stream(Err(error@)),
        }
    }
}

/// The state of a search.
pub struct OpenView {
    pub phase: OpenPhase,
    /// The URL that was asked for last.
    pub url: Seq<char>,
    /// What the station list says of the codec.
    pub codec: Seq<char>,
    /// How many playlists have been followed.
    pub hops: nat,
}

/// The event is the one that a search in this phase waits for.
pub open spec fn answers(phase: OpenPhase, event: OpenEventView) -> bool {
    match event {
        OpenEventView::Text(_) => phase == OpenPhase::Resolver || phase == OpenPhase::Playlist,
        OpenEventView::Hls(_) => phase == OpenPhase::Hls,
        OpenEventView::Stream(_) => phase == OpenPhase::Stream,
    }
}

/// The search ends without a stream.
pub open spec fn open_failed(search: OpenView, message: Seq<char>) -> (OpenView, OpenActionView) {
    (OpenView { phase: OpenPhase::Finished, ..search }, OpenActionView::Fail(message))
}

/// The search ends with a stream.
pub open spec fn open_done(search: OpenView, format: FormatView) -> (OpenView, OpenActionView) {
    (OpenView { phase: OpenPhase::Finished, ..search }, OpenActionView::Done(format))
}

/// The search goes on to a URL of an HLS playlist.
pub open spec fn hls_at(search: OpenView, url: Seq<char>) -> (OpenView, OpenActionView) {
    (OpenView { phase: OpenPhase::Hls, url, ..search }, OpenActionView::OpenHls(url))
}

/// The search goes on to a URL.
pub open spec fn stream_at(search: OpenView, url: Seq<char>) -> (OpenView, OpenActionView) {
    if names_hls(url) {
        hls_at(search, url)
    } else {
        (OpenView { phase: OpenPhase::Stream, url, ..search }, OpenActionView::OpenStream(url))
    }
}

/// Begins the search for the stream of a station: a resolver link is resolved first.
pub open spec fn search_of(url: Seq<char>, codec: Seq<char>, needs_resolve: bool) -> (
    OpenView,
    OpenActionView,
) {
    let search = OpenView { phase: OpenPhase::Resolver, url, codec, hops: 0 };
    if needs_resolve {
        (search, OpenActionView::Resolve(url))
    } else {
        stream_at(search, url)
    }
}

/// The resolver has answered.
pub open spec fn after_resolver(search: OpenView, response: Result<Seq<char>, Seq<char>>) -> (
    OpenView,
    OpenActionView,
) {
    match response {
        Err(error) => open_failed(search, "could not resolve TuneIn stream: "@ + error),
        Ok(text) => {
            let url = first_filled(text::lines_of(text));
            if url.len() == 0 {
                open_failed(search, "TuneIn resolver returned an empty stream URL"@)
            } else {
                stream_at(search, url)
            }
        },
    }
}

/// The HLS stream has been opened.
pub open spec fn after_hls(search: OpenView, opened: Result<AudioCodec, Seq<char>>) -> (
    OpenView,
    OpenActionView,
) {
    match opened {
        Err(error) => open_failed(search, "could not open HLS stream: "@ + error),
        Ok(codec) => open_done(search, crate::format::hls_format(codec)),
    }
}

/// The progressive stream has been opened. It may be a playlist, by where a redirect has led or by
/// what the body is; it is followed, unless there have been too many.
pub open spec fn after_stream(search: OpenView, opened: Result<HeadView, Seq<char>>) -> (
    OpenView,
    OpenActionView,
) {
    match opened {
        Err(error) => open_failed(search, "could not open stream: "@ + error),
        Ok(stream) => if !names_hls(stream.final_url) && !is_playlist(
            stream.head,
            stream.content_type,
        ) {
            open_done(
                search,
                crate::format::http_format(
                    stream.head,
                    stream.content_type,
                    stream.final_url,
                    search.codec,
                ),
            )
        } else if search.hops >= MAX_PLAYLIST_HOPS {
            open_failed(search, "playlist redirects went in circles"@)
        } else {
            (
                OpenView { phase: OpenPhase::Playlist, url: stream.final_url, ..search },
                OpenActionView::FetchPlaylist(stream.final_url),
            )
        },
    }
}

/// The text is that of an HLS playlist, of variants or of segments.
pub open spec fn is_hls_playlist(text: Seq<char>) -> bool {
    text::occurs(text, "#EXT-X-STREAM-INF"@) || text::occurs(text, "#EXT-X-"@)
}

/// The playlist has been fetched. An HLS playlist is opened as such, and any other points at a
/// stream.
pub open spec fn after_playlist(search: OpenView, playlist: Result<Seq<char>, Seq<char>>) -> (
    OpenView,
    OpenActionView,
) {
    match playlist {
        Err(error) => open_failed(search, "could not fetch playlist: "@ + error),
        Ok(text) => if is_hls_playlist(text) {
            hls_at(search, search.url)
        } else {
            match first_url(text::lines_of(text)) {
                None => open_failed(search, "playlist contained no stream URL"@),
                Some(url) => stream_at(OpenView { hops: search.hops + 1, ..search }, url),
            }
        },
    }
}

/// What a search does about an event.
pub open spec fn open_step(search: OpenView, event: OpenEventView) -> (OpenView, OpenActionView) {
    match event {
        OpenEventView::Text(text) => if search.phase == OpenPhase::Resolver {
            after_resolver(search, text)
        } else {
            after_playlist(search, text)
        },
        OpenEventView::Hls(opened) => after_hls(search, opened),
        OpenEventView::Stream(opened) => after_stream(search, opened),
    }
}

/// No more playlists have been followed than may be.
pub open spec fn valid_search(search: OpenView) -> bool {
    search.hops <= MAX_PLAYLIST_HOPS && (search.phase == OpenPhase::Playlist ==> search.hops
        < MAX_PLAYLIST_HOPS)
}

/// Searches for the stream of a station.
pub struct Opener {
    phase: OpenPhase,
    url: String,
    codec: String,
    hops: usize,
}

impl View for Opener {
    type V = OpenView;

    closed spec fn view(&self) -> OpenView {
        OpenView {
            phase: self.phase,
            url: self.url@,
            codec: self.codec@,
            hops: self.hops as nat,
        }
    }
}

/// Begins the search for the stream of a station.
pub fn open_byte_source(station: &Station) -> (search: (Opener, OpenAction))
    ensures
        search.0.wf(),
        (search.0@, search.1@) == search_of(
            station.stream_url(),
            station.codec@,
            station.needs_tunein_resolve,
        ),
{
    let url: String = station.playback_url().to_string();
    let mut opener = Opener {
        phase: OpenPhase::Resolver,
        url: url.clone(),
        codec: station.codec.clone(),
        hops: 0,
    };
    if station.needs_tunein_resolve {
        return (opener, OpenAction::Resolve(url));
    }
    let action = opener.open_stream_url(url);
    (opener, action)
}

/// A message with an error behind it.
fn with_error(prefix: &str, error: &str) -> (message: String)
    ensures
        message@ == prefix@ + error@,
{
    let mut message: String = prefix.to_string();
    message.append(error);
    message
}

impl Opener {
    /// The state makes sense.
    pub open spec fn wf(&self) -> bool {
        valid_search(self@)
    }

    /// Goes on to a URL of an HLS playlist.
    fn open_hls_url(&mut self, url: String) -> (action: OpenAction)
        requires
            old(self).wf(),
        ensures
            final(self).wf(),
            (final(self)@, action@) == hls_at(old(self)@, url@),
    {
        self.phase = OpenPhase::Hls;
        self.url = url.clone();
        OpenAction::OpenHls(url)
    }

    /// Goes on to a URL.
    fn open_stream_url(&mut self, url: String) -> (action: OpenAction)
        requires
            old(self).wf(),
        ensures
            final(self).wf(),
            (final(self)@, action@) == stream_at(old(self)@, url@),
    {
        if is_hls_url(url.as_str()) {
            return self.open_hls_url(url);
        }
        self.phase = OpenPhase::Stream;
        self.url = url.clone();
        OpenAction::OpenStream(url)
    }

    /// Ends the search without a stream.
    fn fail(&mut self, message: String) -> (action: OpenAction)
        requires
            old(self).wf(),
        ensures
            final(self).wf(),
            (final(self)@, action@) == open_failed(old(self)@, message@),
    {
        self.phase = OpenPhase::Finished;
        OpenAction::Fail(message)
    }

    /// Ends the search with a stream.
    fn finish(&mut self, format: StreamFormat) -> (action: OpenAction)
        requires
            old(self).wf(),
        ensures
            final(self).wf(),
            (final(self)@, action@) == open_done(old(self)@, format@),
    {
        self.phase = OpenPhase::Finished;
        OpenAction::Done(format)
    }

    /// Takes the response of the resolver.
    fn take_resolved(&mut self, text: String) -> (action: OpenAction)
        requires
            old(self).wf(),
        ensures
            final(self).wf(),
            (final(self)@, action@) == after_resolver(old(self)@, Ok(text@)),
    {
        let url: String = first_line(text.as_str());
        if text::is_empty(url.as_str()) {
            return self.fail("TuneIn resolver returned an empty stream URL".to_string());
        }
        self.open_stream_url(url)
    }

    /// Takes a progressive stream.
    fn take_stream(&mut self, stream: StreamHead) -> (action: OpenAction)
        requires
            old(self).wf(),
            old(self)@.phase == OpenPhase::Stream,
        ensures
            final(self).wf(),
            (final(self)@, action@) == after_stream(old(self)@, Ok(stream@)),
    {
        let content_type: Option<&str> = match &stream.content_type {
            Some(value) => Some(value.as_str()),
            None => None,
        };
        let is_playlist: bool = is_hls_url(stream.final_url.as_str()) || looks_like_playlist(
            stream.head.as_slice(),
            content_type,
        );
        if is_playlist {
            if self.hops >= MAX_PLAYLIST_HOPS {
                return self.fail("playlist redirects went in circles".to_string());
            }
            self.phase = OpenPhase::Playlist;
            self.url = stream.final_url.clone();
            return OpenAction::FetchPlaylist(stream.final_url);
        }
        let format: StreamFormat = crate::format::for_http(
            stream.head.as_slice(),
            content_type,
            stream.final_url.as_str(),
            self.codec.as_str(),
        );
        self.finish(format)
    }

    /// Takes a playlist and goes on to what it points at.
    fn follow_playlist(&mut self, text: String) -> (action: OpenAction)
        requires
            old(self).wf(),
            old(self)@.phase == OpenPhase::Playlist,
        ensures
            final(self).wf(),
            (final(self)@, action@) == after_playlist(old(self)@, Ok(text@)),
    {
        let chars: Vec<char> = text::chars_of(text.as_str());
        let marker: Vec<char> = text::chars_of("#EXT-X-");
        if m3u8::is_master_playlist(text.as_str()) || text::contains(
            chars.as_slice(),
            marker.as_slice(),
        ) {
            let url: String = self.url.clone();
            return self.open_hls_url(url);
        }
        match first_stream_url(text.as_str()) {
            None => self.fail("playlist contained no stream URL".to_string()),
            Some(url) => {
                self.phase = OpenPhase::Stream;
                self.hops = self.hops + 1;
                self.open_stream_url(url)
            },
        }
    }

    /// Takes what came of the last wish and gives the next.
    pub fn step(&mut self, event: OpenEvent) -> (action: OpenAction)
        requires
            old(self).wf(),
            answers(old(self)@.phase, event@),
        ensures
            final(self).wf(),
            (final(self)@, action@) == open_step(old(self)@, event@),
    {
        match event {
            OpenEvent::Text(Ok(text)) => if self.phase == OpenPhase::Resolver {
                self.take_resolved(text)
            } else {
                self.follow_playlist(text)
            },
            OpenEvent::Text(Err(error)) => if self.phase == OpenPhase::Resolver {
                self.fail(with_error("could not resolve TuneIn stream: ", error.as_str()))
            } else {
                self.fail(with_error("could not fetch playlist: ", error.as_str()))
            },
            OpenEvent::Hls(Ok(codec)) => self.finish(crate::format::for_hls(codec)),
            OpenEvent::Hls(Err(error)) => self.fail(
                with_error("could not open HLS stream: ", error.as_str()),
            ),
            OpenEvent::Stream(Ok(stream)) => self.take_stream(stream),
            OpenEvent::Stream(Err(error)) => self.fail(
                with_error("could not open stream: ", error.as_str()),
            ),
        }
    }
}

/// How many answers a search may still need.
pub open spec fn answers_left(search: OpenView) -> int {
    match search.phase {
        OpenPhase::Resolver => 2 * MAX_PLAYLIST_HOPS + 3,
        OpenPhase::Stream => 2 * (MAX_PLAYLIST_HOPS - search.hops) + 2,
        OpenPhase::Playlist => 2 * (MAX_PLAYLIST_HOPS - search.hops) + 1,
        OpenPhase::Hls => 1,
        OpenPhase::Finished => 0,
    }
}

/// Every search ends, whatever it is answered: each answer brings it nearer to its end, and it
/// needs seven at most.
pub proof fn law_every_search_ends(search: OpenView, event: OpenEventView)
    requires
        valid_search(search),
        answers(search.phase, event),
    ensures
        valid_search(open_step(search, event).0),
        0 <= answers_left(open_step(search, event).0) < answers_left(search) <= 7,
        open_step(search, event).0.phase == OpenPhase::Finished <==> (open_step(search, event).1 is Done
            || open_step(search, event).1 is Fail),
{
}

/// What is played over HTTP is never a body that is known to be a playlist.
pub proof fn law_no_playlist_is_played(search: OpenView, stream: HeadView)
    requires
        is_playlist(stream.head, stream.content_type) || names_hls(stream.final_url),
    ensures
        !(open_step(search, OpenEventView::Stream(Ok(stream))).1 is Done),
{
}

/// What is told of the player.
#[derive(Clone, Debug)]
pub enum PlayerEvent {
    Connecting { station: String },
    Playing { station: String },
    Stopped,
    Error { station: String, detail: String },
}

/// What is told of the player, as texts.
pub enum PlayerEventView {
    Connecting { station: Seq<char> },
    Playing { station: Seq<char> },
    Stopped,
    Error { station: Seq<char>, detail: Seq<char> },
}

impl View for PlayerEvent {
    type V = PlayerEventView;

    open spec fn view(&self) -> PlayerEventView {
        match *self {
            PlayerEvent::Connecting { station } => PlayerEventView::Connecting {
                station: station@,
            },
            PlayerEvent::Playing { station } => PlayerEventView::Playing { station: station@ },
            PlayerEvent::Stopped => PlayerEventView::Stopped,
            PlayerEvent::Error { station, detail } => PlayerEventView::Error {
                station: station@,
                detail: detail@,
            },
        }
    }
}

/// A running session: the handles by which it is stopped. The queue and the sink come when it has
/// opened them.
pub struct ActiveSession<T, Q, S> {
    pub stop: T,
    pub queue: Option<Q>,
    pub sink: Option<S>,
}

/// One thing that is done when playing is begun or stopped.
pub enum PlayerStep<T, Q, S> {
    /// Set the stop flag of a session.
    SetStop(T),
    /// Mute a sink.
    Mute(S),
    /// Close a queue, without an error.
    Close(Q),
    /// Send an event.
    Tell(PlayerEvent),
    /// Call the waker.
    Wake,
}

/// One thing that is done when playing is begun or stopped, with the event as a value.
pub enum PlayerStepView<T, Q, S> {
    SetStop(T),
    Mute(S),
    Close(Q),
    Tell(PlayerEventView),
    Wake,
}

impl<T, Q, S> View for PlayerStep<T, Q, S> {
    type V = PlayerStepView<T, Q, S>;

    open spec fn view(&self) -> PlayerStepView<T, Q, S> {
        match *self {
            PlayerStep::SetStop(stop) => PlayerStepView::SetStop(stop),
            PlayerStep::Mute(sink) => PlayerStepView::Mute(sink),
            PlayerStep::Close(queue) => PlayerStepView::Close(queue),
            PlayerStep::Tell(event) => PlayerStepView::Tell(event@),
            PlayerStep::Wake => PlayerStepView::Wake,
        }
    }
}

/// Steps, as values.
pub open spec fn step_views<T, Q, S>(steps: Seq<PlayerStep<T, Q, S>>) -> Seq<
    PlayerStepView<T, Q, S>,
> {
    Seq::new(steps.len(), |i: int| steps[i]@)
}

/// What is done to stop a session, in order: its flag is set, then it falls silent, and then its
/// queue is closed, so that a blocked read returns at once.
pub open spec fn unwinding<T, Q, S>(session: ActiveSession<T, Q, S>) -> Seq<
    PlayerStepView<T, Q, S>,
> {
    let flag = seq![PlayerStepView::<T, Q, S>::SetStop(session.stop)];
    let silence = match session.sink {
        Some(sink) => seq![PlayerStepView::<T, Q, S>::Mute(sink)],
        None => Seq::empty(),
    };
    let closing = match session.queue {
        Some(queue) => seq![PlayerStepView::<T, Q, S>::Close(queue)],
        None => Seq::empty(),
    };
    flag + silence + closing
}

/// What is done to stop the running session, if there is one.
pub open spec fn unwinding_any<T, Q, S>(active: Option<ActiveSession<T, Q, S>>) -> Seq<
    PlayerStepView<T, Q, S>,
> {
    match active {
        Some(session) => unwinding(session),
        None => Seq::empty(),
    }
}

/// What is done to tell an event.
pub open spec fn telling<T, Q, S>(event: PlayerEventView) -> Seq<PlayerStepView<T, Q, S>> {
    seq![PlayerStepView::Tell(event), PlayerStepView::Wake]
}

/// What a stop does: nothing at all where nothing plays.
pub open spec fn stop_steps<T, Q, S>(active: Option<ActiveSession<T, Q, S>>) -> Seq<
    PlayerStepView<T, Q, S>,
> {
    match active {
        Some(session) => unwinding(session) + telling(PlayerEventView::Stopped),
        None => Seq::empty(),
    }
}

impl<T, Q, S> ActiveSession<T, Q, S> {
    /// What is done to stop the session.
    pub fn unwind(self) -> (steps: Vec<PlayerStep<T, Q, S>>)
        ensures
            step_views(steps@) == unwinding(self),
    {
        let mut steps: Vec<PlayerStep<T, Q, S>> = Vec::new();
        steps.push(PlayerStep::SetStop(self.stop));
        if let Some(sink) = self.sink {
            steps.push(PlayerStep::Mute(sink));
        }
        if let Some(queue) = self.queue {
            steps.push(PlayerStep::Close(queue));
        }
        assert(step_views(steps@) =~= unwinding(self));
        steps
    }
}

/// Adds what is done to tell an event.
fn tell<T, Q, S>(steps: &mut Vec<PlayerStep<T, Q, S>>, event: PlayerEvent)
    ensures
        step_views(final(steps)@) == step_views(old(steps)@) + telling(event@),
{
    steps.push(PlayerStep::Tell(event));
    steps.push(PlayerStep::Wake);
    assert(step_views(steps@) =~= step_views(old(steps)@) + telling(event@));
}

/// The number behind a generation.
pub open spec fn next_generation(generation: u64) -> u64 {
    if generation == u64::MAX {
        0
    } else {
        (generation + 1) as u64
    }
}

/// Controls which session is the current one. Every session has a generation, and every `play` and
/// `stop` makes the generations before it stale.
pub struct Player<T, Q, S> {
    pub generation: u64,
    pub active: Option<ActiveSession<T, Q, S>>,
}

/// A player whose running session, if there was one, has been invalidated.
pub open spec fn torn_down<T, Q, S>(player: Player<T, Q, S>) -> Player<T, Q, S> {
    Player { generation: next_generation(player.generation), active: None }
}

/// The sink of the running session.
pub open spec fn sounding<T, Q, S>(player: Player<T, Q, S>) -> Option<S> {
    match player.active {
        Some(session) => session.sink,
        None => None,
    }
}

impl<T, Q, S> Player<T, Q, S> {
    /// A player that plays nothing.
    pub fn new() -> (player: Self)
        ensures
            player.generation == 0,
            player.active is None,
    {
        Player { generation: 0, active: None }
    }

    /// The session of a generation has not been superseded.
    pub fn is_current(&self, generation: u64) -> (current: bool)
        ensures
            current == (self.generation == generation),
    {
        self.generation == generation
    }

    /// Invalidates the running session. The result is what is done to stop it: nothing where there
    /// was none.
    pub fn tear_down_active(&mut self) -> (steps: Vec<PlayerStep<T, Q, S>>)
        ensures
            step_views(steps@) == unwinding_any(old(self).active),
            *final(self) == torn_down(*old(self)),
    {
        self.generation = self.generation.wrapping_add(1);
        match self.active.take() {
            Some(session) => session.unwind(),
            None => {
                let steps: Vec<PlayerStep<T, Q, S>> = Vec::new();
                assert(step_views(steps@) =~= unwinding_any(old(self).active));
                steps
            },
        }
    }

    /// Invalidates the running session. The result is what is done to stop it, and the generation
    /// of a new one.
    pub fn begin_session(&mut self) -> (begun: (Vec<PlayerStep<T, Q, S>>, u64))
        ensures
            step_views(begun.0@) == unwinding_any(old(self).active),
            begun.1 == final(self).generation,
            final(self).active is None,
            final(self).generation == next_generation(next_generation(old(self).generation)),
    {
        let steps = self.tear_down_active();
        self.generation = self.generation.wrapping_add(1);
        (steps, self.generation)
    }

    /// Begins to play a station. The result is what is done about it: what was playing is stopped,
    /// and that the station is being connected to is told. With it comes the generation of the new
    /// session.
    pub fn play(&mut self, station: &Station, stop: T) -> (begun: (
        Vec<PlayerStep<T, Q, S>>,
        u64,
    ))
        ensures
            step_views(begun.0@) == unwinding_any(old(self).active) + telling(
                PlayerEventView::Connecting { station: station.name@ },
            ),
            begun.1 == final(self).generation,
            final(self).active == Some(ActiveSession::<T, Q, S> { stop, queue: None, sink: None }),
            final(self).generation == next_generation(next_generation(old(self).generation)),
    {
        let (mut steps, generation) = self.begin_session();
        tell(&mut steps, PlayerEvent::Connecting { station: station.name.clone() });
        self.active = Some(ActiveSession { stop, queue: None, sink: None });
        (steps, generation)
    }

    /// Stops playing. The result is what is done about it: nothing where nothing plays.
    pub fn stop(&mut self) -> (steps: Vec<PlayerStep<T, Q, S>>)
        ensures
            step_views(steps@) == stop_steps(old(self).active),
            *final(self) == torn_down(*old(self)),
    {
        let mut steps = self.tear_down_active();
        proof {
            if old(self).active is Some {
                assert(step_views(steps@).len() > 0);
            }
        }
        if steps.len() > 0 {
            tell(&mut steps, PlayerEvent::Stopped);
        }
        steps
    }

    /// The sink whose level is shown: that of the running session, once it has one. Where nothing
    /// plays there is none, and the level is zero.
    pub fn level_source(&self) -> (sink: Option<&S>)
        ensures
            match sink {
                Some(found) => sounding(*self) == Some(*found),
                None => sounding(*self) is None,
            },
    {
        match &self.active {
            Some(session) => match &session.sink {
                Some(sink) => Some(sink),
                None => None,
            },
            None => None,
        }
    }

    /// Ends the session of a generation, which has come to its end by itself, and hands it over.
    /// Nothing plays then, and nothing is shown of it any more. A session that has been superseded
    /// is not the player's any more: nothing changes.
    pub fn end_session(&mut self, generation: u64) -> (ended: Option<ActiveSession<T, Q, S>>)
        ensures
            final(self).generation == old(self).generation,
            old(self).generation == generation ==> ended == old(self).active
                && final(self).active is None,
            old(self).generation != generation ==> ended is None && final(self).active
                == old(self).active,
    {
        if self.generation == generation {
            self.active.take()
        } else {
            None
        }
    }

    /// Notes the queue of the session of a generation, by which a `stop` can close it. It is
    /// handed back where the session has been superseded.
    pub fn register_queue(&mut self, generation: u64, queue: Q) -> (refused: Option<Q>)
        ensures
            final(self).generation == old(self).generation,
            old(self).generation == generation && old(self).active is Some ==> refused is None
                && final(self).active == Some(
                ActiveSession::<T, Q, S> { queue: Some(queue), ..old(self).active.unwrap() },
            ),
            !(old(self).generation == generation && old(self).active is Some) ==> refused == Some(
                queue,
            ) && final(self).active == old(self).active,
    {
        if self.generation != generation {
            return Some(queue);
        }
        match self.active.take() {
            Some(session) => {
                self.active = Some(
                    ActiveSession {
                        stop: session.stop,
                        queue: Some(queue),
                        sink: session.sink,
                    },
                );
                None
            },
            None => Some(queue),
        }
    }

    /// Notes the sink of the session of a generation, by which a `stop` can silence it. It is
    /// handed back where the session has been superseded.
    pub fn register_sink(&mut self, generation: u64, sink: S) -> (refused: Option<S>)
        ensures
            final(self).generation == old(self).generation,
            old(self).generation == generation && old(self).active is Some ==> refused is None
                && final(self).active == Some(
                ActiveSession::<T, Q, S> { sink: Some(sink), ..old(self).active.unwrap() },
            ),
            !(old(self).generation == generation && old(self).active is Some) ==> refused == Some(
                sink,
            ) && final(self).active == old(self).active,
    {
        if self.generation != generation {
            return Some(sink);
        }
        match self.active.take() {
            Some(session) => {
                self.active = Some(
                    ActiveSession {
                        stop: session.stop,
                        queue: session.queue,
                        sink: Some(sink),
                    },
                );
                None
            },
            None => Some(sink),
        }
    }

    /// What is told of the session of a generation: nothing where it has been superseded.
    pub fn emit_if_current(&self, generation: u64, event: PlayerEvent) -> (told: Option<
        PlayerEvent,
    >)
        ensures
            told == (if self.generation == generation {
                Some(event)
            } else {
                None
            }),
    {
        if self.is_current(generation) {
            Some(event)
        } else {
            None
        }
    }
}

/// A stop of a running session sets its flag first, mutes its sink, if it has one, before its
/// queue, if it has one, is closed, and then tells that it has stopped, once, and wakes once.
/// Nothing else is done. Where nothing plays nothing is done, so that of two stops in a row the
/// second does nothing. After a stop no sink sounds.
pub proof fn law_a_stop_silences_closes_and_tells_once<T, Q, S>(player: Player<T, Q, S>)
    ensures
        player.active is None ==> stop_steps(player.active).len() == 0,
        stop_steps(torn_down(player).active).len() == 0,
        sounding(torn_down(player)) is None,
        player.active matches Some(session) ==> {
            let steps = stop_steps(player.active);
            let last = steps.len() - 1;
            &&& steps[0] == PlayerStepView::<T, Q, S>::SetStop(session.stop)
            &&& session.sink matches Some(sink) ==> steps[1] == PlayerStepView::<T, Q, S>::Mute(sink)
            &&& session.queue matches Some(queue) ==> steps[last - 2] == PlayerStepView::<
                T,
                Q,
                S,
            >::Close(queue)
            &&& steps[last - 1] == PlayerStepView::<T, Q, S>::Tell(PlayerEventView::Stopped)
            &&& steps[last] == PlayerStepView::<T, Q, S>::Wake
            &&& steps.len() == 3 + (if session.sink is Some { 1int } else { 0 }) + (
            if session.queue is Some { 1int } else { 0 })
            &&& forall|i: int|
                0 <= i < last - 1 ==> !(#[trigger] steps[i] is Tell) && !(steps[i] is Wake)
        },
{
    if let Some(session) = player.active {
        let steps = stop_steps(player.active);
        let before = unwinding(session);
        assert forall|i: int| 0 <= i < steps.len() - 2 implies !(#[trigger] steps[i] is Tell) && !(
        steps[i] is Wake) by {
            assert(steps[i] == before[i]);
        }
    }
}

/// What can be done to a player from outside.
pub enum Control {
    Play,
    Stop,
}

/// The generation after a control.
pub open spec fn generation_after(generation: u64, control: Control) -> u64 {
    match control {
        Control::Play => next_generation(next_generation(generation)),
        Control::Stop => next_generation(generation),
    }
}

/// The generation after some controls, in order.
pub open spec fn generation_after_all(generation: u64, controls: Seq<Control>) -> u64
    decreases controls.len(),
{
    if controls.len() == 0 {
        generation
    } else {
        generation_after(
            generation_after_all(generation, controls.drop_last()),
            controls.last(),
        )
    }
}

/// How far some controls move the generation.
spec fn distance(controls: Seq<Control>) -> int
    decreases controls.len(),
{
    if controls.len() == 0 {
        0
    } else {
        distance(controls.drop_last()) + (match controls.last() {
            Control::Play => 2int,
            Control::Stop => 1int,
        })
    }
}

/// The generation moves by the distance, round the end of its range.
proof fn lemma_distance(generation: u64, controls: Seq<Control>)
    requires
        controls.len() < 0x8000_0000_0000_0000,
    ensures
        controls.len() <= distance(controls) <= 2 * controls.len(),
        generation_after_all(generation, controls) as int == generation + distance(controls)
            || generation_after_all(generation, controls) as int == generation + distance(controls)
            - 0x1_0000_0000_0000_0000,
    decreases controls.len(),
{
    if controls.len() > 0 {
        lemma_distance(generation, controls.drop_last());
    }
}

/// A session that has been superseded never becomes the current one again, in as many controls as
/// a player can see: a stale session tells nothing.
pub proof fn law_a_stale_session_stays_stale(generation: u64, controls: Seq<Control>)
    requires
        0 < controls.len() < 0x8000_0000_0000_0000,
    ensures
        generation_after_all(generation, controls) != generation,
{
    lemma_distance(generation, controls);
}

/// What is told where the thread of a session could not be started.
pub fn spawn_failure(error: &str) -> (event: PlayerEvent)
    ensures
        event@ == (PlayerEventView::Error {
            station: Seq::empty(),
            detail: "could not start playback thread: "@ + error@,
        }),
{
    PlayerEvent::Error {
        station: String::new(),
        detail: with_error("could not start playback thread: ", error),
    }
}

/// Why a session ended without an error.
#[derive(Clone, Copy, Debug, PartialEq, Eq, Structural)]
pub enum EndReason {
    /// The server closed the connection or the playlist ended.
    StreamEnded,
    /// Another `play` or `stop` took over, and tells of itself.
    Superseded,
}

/// What is told of the end of a session, if it is still the current one.
pub open spec fn end_event(station: Seq<char>, outcome: Result<EndReason, Seq<char>>) -> Option<
    PlayerEventView,
> {
    match outcome {
        Ok(EndReason::StreamEnded) => Some(PlayerEventView::Stopped),
        Ok(EndReason::Superseded) => None,
        Err(detail) => Some(PlayerEventView::Error { station, detail }),
    }
}

/// The outcome of a session, with the error as text.
pub open spec fn outcome_view(outcome: Result<EndReason, String>) -> Result<EndReason, Seq<char>> {
    match outcome {
        Ok(reason) => Ok(reason),
        Err(detail) => Err(detail@),
    }
}

/// What is told of the end of a session, if it is still the current one.
pub fn run_session(station: &Station, outcome: Result<EndReason, String>) -> (event: Option<
    PlayerEvent,
>)
    ensures
        match event {
            Some(told) => end_event(station.name@, outcome_view(outcome)) == Some(told@),
            None => end_event(station.name@, outcome_view(outcome)) is None,
        },
{
    match outcome {
        Ok(EndReason::StreamEnded) => Some(PlayerEvent::Stopped),
        Ok(EndReason::Superseded) => None,
        Err(detail) => Some(PlayerEvent::Error { station: station.name.clone(), detail }),
    }
}

/// A track of a stream.
#[derive(Clone, Copy, Debug)]
pub struct TrackInfo {
    pub id: u32,
    /// The codec of the track is known.
    pub has_codec: bool,
}

/// The first track whose codec is known.
pub open spec fn first_track(tracks: Seq<TrackInfo>) -> Option<u32>
    decreases tracks.len(),
{
    if tracks.len() == 0 {
        None
    } else if tracks[0].has_codec {
        Some(tracks[0].id)
    } else {
        first_track(tracks.skip(1))
    }
}

/// The first track whose codec is known.
pub fn pick_track(tracks: &Vec<TrackInfo>) -> (id: Option<u32>)
    ensures
        id == first_track(tracks@),
{
    assert(tracks@.skip(0) =~= tracks@);
    for position in 0..tracks.len()
        invariant
            first_track(tracks@) == first_track(tracks@.skip(position as int)),
    {
        if tracks[position].has_codec {
            return Some(tracks[position].id);
        }
        assert(tracks@.skip(position as int).skip(1) =~= tracks@.skip(position + 1));
    }
    None
}

/// What came of what a session asked for.
#[derive(Debug)]
pub enum SessionEvent {
    /// The source was opened.
    Source(Result<(), String>),
    /// Whether the queue could be noted: not if the session has been superseded.
    QueueNoted(bool),
    /// The reader was opened, with these tracks.
    Reader(Result<Vec<TrackInfo>, String>),
    /// The decoder was made.
    Decoder(Result<(), String>),
    /// A packet of this track was read.
    Packet(u32),
    /// The stream is at its end.
    PacketEnd,
    /// A new stream begins.
    PacketReset,
    /// No packet could be read.
    PacketFailed(String),
    /// The packet was decoded.
    Decoded,
    /// The packet was malformed.
    Malformed,
    /// The decoder is to be reset.
    DecodeReset,
    /// The packet could not be decoded.
    DecodeFailed(String),
    /// The audio device was opened.
    Output(Result<(), String>),
    /// Whether the sink could be noted: not if the session has been superseded.
    SinkNoted(bool),
    /// The audio device was started.
    OutputStarted(Result<(), String>),
    /// Whether the sink took the samples, and what the device has failed with, if it has.
    Played { taken: bool, failure: Option<String> },
}

/// What a session asks for.
#[derive(Debug)]
pub enum SessionAction {
    /// Find and open the stream of the station.
    OpenSource,
    /// Note the queue of the stream.
    NoteQueue,
    /// Open a reader on the stream.
    OpenReader,
    /// Make a decoder for this track.
    MakeDecoder(u32),
    /// Reset the decoder where that is asked for, and read a packet.
    ReadPacket { reset: bool },
    /// Decode the packet.
    Decode,
    /// Open the audio device.
    OpenOutput,
    /// Note the sink of the audio device.
    NoteSink,
    /// Start the audio device.
    StartOutput,
    /// Convert the samples and give them to the sink. The first time, tell that the station plays.
    Play { announce: bool },
    /// End the session. The queue is closed first where that is asked for.
    End { outcome: Result<EndReason, String>, close_queue: bool },
}

/// What came of what a session asked for, as values.
pub enum SessionEventView {
    Source(Result<(), Seq<char>>),
    QueueNoted(bool),
    Reader(Result<Seq<TrackInfo>, Seq<char>>),
    Decoder(Result<(), Seq<char>>),
    Packet(u32),
    PacketEnd,
    PacketReset,
    PacketFailed(Seq<char>),
    Decoded,
    Malformed,
    DecodeReset,
    DecodeFailed(Seq<char>),
    Output(Result<(), Seq<char>>),
    SinkNoted(bool),
    OutputStarted(Result<(), Seq<char>>),
    Played { taken: bool, failure: Option<Seq<char>> },
}

/// What a session asks for, as values.
pub enum SessionActionView {
    OpenSource,
    NoteQueue,
    OpenReader,
    MakeDecoder(u32),
    ReadPacket { reset: bool },
    Decode,
    OpenOutput,
    NoteSink,
    StartOutput,
    Play { announce: bool },
    End { outcome: Result<EndReason, Seq<char>>, close_queue: bool },
}

/// Something that was done, or why it could not be.
pub open spec fn done_view(done: Result<(), String>) -> Result<(), Seq<char>> {
    match done {
        Ok(nothing) => Ok(nothing),
        Err(error) => Err(error@),
    }
}

impl View for SessionEvent {
    type V = SessionEventView;

    open spec fn view(&self) -> SessionEventView {
        match *self {
            SessionEvent::Source(done) => SessionEventView::Source(done_view(done)),
            SessionEvent::QueueNoted(noted) => SessionEventView::QueueNoted(noted),
            SessionEvent::Reader(Ok(tracks)) => SessionEventView::Reader(Ok(tracks@)),
            SessionEvent::Reader(Err(error)) => SessionEventView::Reader(Err(error@)),
            SessionEvent::Decoder(done) => SessionEventView::Decoder(done_view(done)),
            SessionEvent::Packet(track) => SessionEventView::Packet(track),
            SessionEvent::PacketEnd => SessionEventView::PacketEnd,
            SessionEvent::PacketReset => SessionEventView::PacketReset,
            SessionEvent::PacketFailed(error) => SessionEventView::PacketFailed(error@),
            SessionEvent::Decoded => SessionEventView::Decoded,
            SessionEvent::Malformed => SessionEventView::Malformed,
            SessionEvent::DecodeReset => SessionEventView::DecodeReset,
            SessionEvent::DecodeFailed(error) => SessionEventView::DecodeFailed(error@),
            SessionEvent::Output(done) => SessionEventView::Output(done_view(done)),
            SessionEvent::SinkNoted(noted) => SessionEventView::SinkNoted(noted),
            SessionEvent::OutputStarted(done) => SessionEventView::OutputStarted(done_view(done)),
            SessionEvent::Played { taken, failure } => SessionEventView::Played {
                taken,
                failure: text::optional_text(failure),
            },
        }
    }
}

impl View for SessionAction {
    type V = SessionActionView;

    open spec fn view(&self) -> SessionActionView {
        match *self {
            SessionAction::OpenSource => SessionActionView::OpenSource,
            SessionAction::NoteQueue => SessionActionView::NoteQueue,
            SessionAction::OpenReader => SessionActionView::OpenReader,
            SessionAction::MakeDecoder(track) => SessionActionView::MakeDecoder(track),
            SessionAction::ReadPacket { reset } => SessionActionView::ReadPacket { reset },
            SessionAction::Decode => SessionActionView::Decode,
            SessionAction::OpenOutput => SessionActionView::OpenOutput,
            SessionAction::NoteSink => SessionActionView::NoteSink,
            SessionAction::StartOutput => SessionActionView::StartOutput,
            SessionAction::Play { announce } => SessionActionView::Play { announce },
            SessionAction::End { outcome, close_queue } => SessionActionView::End {
                outcome: outcome_view(outcome),
                close_queue,
            },
        }
    }
}

/// What a session is waiting for.
#[derive(Clone, Copy, Debug, PartialEq, Eq, Structural)]
pub enum SessionPhase {
    Source,
    QueueNote,
    Reader,
    Decoder,
    Packet,
    Decoding,
    Output,
    SinkNote,
    OutputStart,
    Playing,
    Finished,
}

/// What is known of a session.
pub struct SessionView {
    /// What it is waiting for.
    pub phase: SessionPhase,
    /// The track that it plays.
    pub track: u32,
    /// The audio device has been started.
    pub playing: bool,
}

/// A playing session: decides what is done next.
#[derive(Clone, Copy, Debug, PartialEq, Eq, Structural)]
pub struct Session {
    phase: SessionPhase,
    track: u32,
    playing: bool,
}

impl View for Session {
    type V = SessionView;

    closed spec fn view(&self) -> SessionView {
        SessionView { phase: self.phase, track: self.track, playing: self.playing }
    }
}

/// What a session that asks for something waits for.
pub open spec fn phase_behind(action: SessionActionView) -> SessionPhase {
    match action {
        SessionActionView::OpenSource => SessionPhase::Source,
        SessionActionView::NoteQueue => SessionPhase::QueueNote,
        SessionActionView::OpenReader => SessionPhase::Reader,
        SessionActionView::MakeDecoder(_) => SessionPhase::Decoder,
        SessionActionView::ReadPacket { .. } => SessionPhase::Packet,
        SessionActionView::Decode => SessionPhase::Decoding,
        SessionActionView::OpenOutput => SessionPhase::Output,
        SessionActionView::NoteSink => SessionPhase::SinkNote,
        SessionActionView::StartOutput => SessionPhase::OutputStart,
        SessionActionView::Play { .. } => SessionPhase::Playing,
        SessionActionView::End { .. } => SessionPhase::Finished,
    }
}

/// The event is one that a session in this phase waits for.
pub open spec fn concerns(phase: SessionPhase, event: SessionEventView) -> bool {
    match event {
        SessionEventView::Source(_) => phase == SessionPhase::Source,
        SessionEventView::QueueNoted(_) => phase == SessionPhase::QueueNote,
        SessionEventView::Reader(_) => phase == SessionPhase::Reader,
        SessionEventView::Decoder(_) => phase == SessionPhase::Decoder,
        SessionEventView::Packet(_) => phase == SessionPhase::Packet,
        SessionEventView::PacketEnd => phase == SessionPhase::Packet,
        SessionEventView::PacketReset => phase == SessionPhase::Packet,
        SessionEventView::PacketFailed(_) => phase == SessionPhase::Packet,
        SessionEventView::Decoded => phase == SessionPhase::Decoding,
        SessionEventView::Malformed => phase == SessionPhase::Decoding,
        SessionEventView::DecodeReset => phase == SessionPhase::Decoding,
        SessionEventView::DecodeFailed(_) => phase == SessionPhase::Decoding,
        SessionEventView::Output(_) => phase == SessionPhase::Output,
        SessionEventView::SinkNoted(_) => phase == SessionPhase::SinkNote,
        SessionEventView::OutputStarted(_) => phase == SessionPhase::OutputStart,
        SessionEventView::Played { .. } => phase == SessionPhase::Playing,
    }
}

/// The audio device is opened once, and nothing plays before it has been started.
pub open spec fn valid_session(session: SessionView) -> bool {
    match session.phase {
        SessionPhase::Output | SessionPhase::SinkNote | SessionPhase::OutputStart => !session.playing,
        SessionPhase::Playing => session.playing,
        _ => true,
    }
}

/// The session ends with an error.
pub open spec fn session_failed(session: SessionView, detail: Seq<char>) -> (
    SessionView,
    SessionActionView,
) {
    (session, SessionActionView::End { outcome: Err(detail), close_queue: false })
}

/// The session ends without an error.
pub open spec fn session_ended(session: SessionView, reason: EndReason) -> (
    SessionView,
    SessionActionView,
) {
    (session, SessionActionView::End { outcome: Ok(reason), close_queue: false })
}

/// The session goes on to the next packet, unless it has been superseded or stopped.
pub open spec fn next_packet(session: SessionView, reset: bool, current: bool, stopped: bool) -> (
    SessionView,
    SessionActionView,
) {
    if !current || stopped {
        session_ended(session, EndReason::Superseded)
    } else {
        (session, SessionActionView::ReadPacket { reset })
    }
}

/// The stream broke. That is nothing where the session has been superseded, an error where nothing
/// has played yet, and else the end of the stream.
pub open spec fn stream_broke(
    session: SessionView,
    detail: Seq<char>,
    current: bool,
    stopped: bool,
) -> (SessionView, SessionActionView) {
    if !current || stopped {
        session_ended(session, EndReason::Superseded)
    } else if !session.playing {
        session_failed(session, detail)
    } else {
        session_ended(session, EndReason::StreamEnded)
    }
}

/// What a session does about an event. `current` says whether it is the current one by then, and
/// `stopped` whether it has been told to stop.
pub open spec fn session_step(
    session: SessionView,
    event: SessionEventView,
    current: bool,
    stopped: bool,
) -> (SessionView, SessionActionView) {
    let (decided, action) = session_decision(session, event, current, stopped);
    (SessionView { phase: phase_behind(action), ..decided }, action)
}

/// What a session decides about an event.
pub open spec fn session_decision(
    session: SessionView,
    event: SessionEventView,
    current: bool,
    stopped: bool,
) -> (SessionView, SessionActionView) {
    match event {
        SessionEventView::Source(Err(error)) => session_failed(session, error),
        SessionEventView::Source(Ok(_)) => (session, SessionActionView::NoteQueue),
        SessionEventView::QueueNoted(noted) => if noted {
            (session, SessionActionView::OpenReader)
        } else {
            (
                session,
                SessionActionView::End { outcome: Ok(EndReason::Superseded), close_queue: true },
            )
        },
        SessionEventView::Reader(Err(error)) => session_failed(session, error),
        SessionEventView::Reader(Ok(tracks)) => match first_track(tracks) {
            None => session_failed(session, "no audio track in stream"@),
            Some(track) => (
                SessionView { track, ..session },
                SessionActionView::MakeDecoder(track),
            ),
        },
        SessionEventView::Decoder(Err(error)) => session_failed(
            session,
            "no decoder for this stream: "@ + error,
        ),
        SessionEventView::Decoder(Ok(_)) => next_packet(session, false, current, stopped),
        SessionEventView::Packet(track) => if track == session.track {
            (session, SessionActionView::Decode)
        } else {
            next_packet(session, false, current, stopped)
        },
        SessionEventView::PacketEnd => session_ended(session, EndReason::StreamEnded),
        SessionEventView::PacketReset | SessionEventView::DecodeReset => next_packet(
            session,
            true,
            current,
            stopped,
        ),
        SessionEventView::PacketFailed(error) => stream_broke(
            session,
            "stream error: "@ + error,
            current,
            stopped,
        ),
        SessionEventView::Decoded => if session.playing {
            (session, SessionActionView::Play { announce: false })
        } else {
            (session, SessionActionView::OpenOutput)
        },
        SessionEventView::Malformed => next_packet(session, false, current, stopped),
        SessionEventView::DecodeFailed(error) => stream_broke(
            session,
            "decode failed: "@ + error,
            current,
            stopped,
        ),
        SessionEventView::Output(Err(error)) => session_failed(session, error),
        SessionEventView::Output(Ok(_)) => (session, SessionActionView::NoteSink),
        SessionEventView::SinkNoted(noted) => if noted {
            (session, SessionActionView::StartOutput)
        } else {
            session_ended(session, EndReason::Superseded)
        },
        SessionEventView::OutputStarted(Err(error)) => session_failed(
            session,
            "could not start audio output: "@ + error,
        ),
        SessionEventView::OutputStarted(Ok(_)) => (
            SessionView { playing: true, ..session },
            SessionActionView::Play { announce: true },
        ),
        SessionEventView::Played { taken, failure } => if !taken {
            session_ended(session, EndReason::Superseded)
        } else {
            match failure {
                Some(error) => session_failed(session, "audio output failed: "@ + error),
                None => next_packet(session, false, current, stopped),
            }
        },
    }
}

impl Session {
    /// Begins a session, unless it has been superseded already.
    pub fn setup_and_play(current: bool) -> (begun: (Self, SessionAction))
        ensures
            begun.0@ == (SessionView {
                phase: phase_behind(begun.1@),
                track: 0,
                playing: false,
            }),
            begun.1@ == (if current {
                SessionActionView::OpenSource
            } else {
                SessionActionView::End { outcome: Ok(EndReason::Superseded), close_queue: false }
            }),
    {
        if current {
            (
                Session { phase: SessionPhase::Source, track: 0, playing: false },
                SessionAction::OpenSource,
            )
        } else {
            (
                Session { phase: SessionPhase::Finished, track: 0, playing: false },
                ended(EndReason::Superseded),
            )
        }
    }

    /// Goes on to the next packet.
    fn go_on(&self, reset: bool, current: bool, stopped: bool) -> (action: SessionAction)
        ensures
            (self@, action@) == next_packet(self@, reset, current, stopped),
    {
        if !current || stopped {
            ended(EndReason::Superseded)
        } else {
            SessionAction::ReadPacket { reset }
        }
    }

    /// Decides what a broken stream is.
    fn broke(&self, prefix: &str, error: &str, current: bool, stopped: bool) -> (action:
        SessionAction)
        ensures
            (self@, action@) == stream_broke(self@, prefix@ + error@, current, stopped),
    {
        if !current || stopped {
            ended(EndReason::Superseded)
        } else if !self.playing {
            failed(with_error(prefix, error))
        } else {
            ended(EndReason::StreamEnded)
        }
    }

    /// Takes what came of the last wish and gives the next.
    pub fn step(&mut self, event: SessionEvent, current: bool, stopped: bool) -> (action:
        SessionAction)
        requires
            valid_session(old(self)@),
            concerns(old(self)@.phase, event@),
        ensures
            valid_session(final(self)@),
            (final(self)@, action@) == session_step(old(self)@, event@, current, stopped),
    {
        let action: SessionAction = self.decide(event, current, stopped);
        self.phase =
        match &action {
            SessionAction::OpenSource => SessionPhase::Source,
            SessionAction::NoteQueue => SessionPhase::QueueNote,
            SessionAction::OpenReader => SessionPhase::Reader,
            SessionAction::MakeDecoder(_) => SessionPhase::Decoder,
            SessionAction::ReadPacket { reset: _ } => SessionPhase::Packet,
            SessionAction::Decode => SessionPhase::Decoding,
            SessionAction::OpenOutput => SessionPhase::Output,
            SessionAction::NoteSink => SessionPhase::SinkNote,
            SessionAction::StartOutput => SessionPhase::OutputStart,
            SessionAction::Play { announce: _ } => SessionPhase::Playing,
            SessionAction::End { outcome: _, close_queue: _ } => SessionPhase::Finished,
        };
        action
    }

    /// Decides about an event.
    fn decide(&mut self, event: SessionEvent, current: bool, stopped: bool) -> (action:
        SessionAction)
        ensures
            (final(self)@, action@) == session_decision(old(self)@, event@, current, stopped),
    {
        match event {
            SessionEvent::Source(Err(error)) => failed(error),
            SessionEvent::Source(Ok(_)) => SessionAction::NoteQueue,
            SessionEvent::QueueNoted(noted) => if noted {
                SessionAction::OpenReader
            } else {
                SessionAction::End { outcome: Ok(EndReason::Superseded), close_queue: true }
            },
            SessionEvent::Reader(Err(error)) => failed(error),
            SessionEvent::Reader(Ok(tracks)) => match pick_track(&tracks) {
                None => failed("no audio track in stream".to_string()),
                Some(track) => {
                    self.track = track;
                    SessionAction::MakeDecoder(track)
                },
            },
            SessionEvent::Decoder(Err(error)) => failed(
                with_error("no decoder for this stream: ", error.as_str()),
            ),
            SessionEvent::Decoder(Ok(_)) => self.go_on(false, current, stopped),
            SessionEvent::Packet(track) => if track == self.track {
                SessionAction::Decode
            } else {
                self.go_on(false, current, stopped)
            },
            SessionEvent::PacketEnd => ended(EndReason::StreamEnded),
            SessionEvent::PacketReset => self.go_on(true, current, stopped),
            SessionEvent::DecodeReset => self.go_on(true, current, stopped),
            SessionEvent::PacketFailed(error) => self.broke(
                "stream error: ",
                error.as_str(),
                current,
                stopped,
            ),
            SessionEvent::Decoded => if self.playing {
                SessionAction::Play { announce: false }
            } else {
                SessionAction::OpenOutput
            },
            SessionEvent::Malformed => self.go_on(false, current, stopped),
            SessionEvent::DecodeFailed(error) => self.broke(
                "decode failed: ",
                error.as_str(),
                current,
                stopped,
            ),
            SessionEvent::Output(Err(error)) => failed(error),
            SessionEvent::Output(Ok(_)) => SessionAction::NoteSink,
            SessionEvent::SinkNoted(noted) => if noted {
                SessionAction::StartOutput
            } else {
                ended(EndReason::Superseded)
            },
            SessionEvent::OutputStarted(Err(error)) => failed(
                with_error("could not start audio output: ", error.as_str()),
            ),
            SessionEvent::OutputStarted(Ok(_)) => {
                self.playing = true;
                SessionAction::Play { announce: true }
            },
            SessionEvent::Played { taken, failure } => if !taken {
                ended(EndReason::Superseded)
            } else {
                match failure {
                    Some(error) => failed(with_error("audio output failed: ", error.as_str())),
                    None => self.go_on(false, current, stopped),
                }
            },
        }
    }
}

/// The session ends with an error.
fn failed(detail: String) -> (action: SessionAction)
    ensures
        action@ == (SessionActionView::End { outcome: Err(detail@), close_queue: false }),
{
    SessionAction::End { outcome: Err(detail), close_queue: false }
}

/// The session ends without an error.
fn ended(reason: EndReason) -> (action: SessionAction)
    ensures
        action@ == (SessionActionView::End { outcome: Ok(reason), close_queue: false }),
{
    SessionAction::End { outcome: Ok(reason), close_queue: false }
}

/// A session that has been superseded or stopped reads no more packets, and does not tell of a
/// broken stream.
pub proof fn law_a_superseded_session_reads_no_more(
    session: SessionView,
    event: SessionEventView,
    current: bool,
    stopped: bool,
)
    requires
        !current || stopped,
        concerns(session.phase, event),
    ensures
        !(session_step(session, event, current, stopped).1 is ReadPacket),
        event is PacketFailed || event is DecodeFailed ==> session_step(
            session,
            event,
            current,
            stopped,
        ).1 == session_ended(session, EndReason::Superseded).1,
{
}

/// A station is told to be playing when the audio device has been started, at most once in a
/// session, and the device is opened at most once.
pub proof fn law_playing_is_told_once(
    session: SessionView,
    event: SessionEventView,
    current: bool,
    stopped: bool,
)
    requires
        valid_session(session),
        concerns(session.phase, event),
    ensures
        ({
            let (after, action) = session_step(session, event, current, stopped);
            &&& valid_session(after)
            &&& action == (SessionActionView::Play { announce: true }) ==> !session.playing
                && after.playing
            &&& action is OpenOutput ==> !session.playing
            &&& session.playing ==> after.playing
            &&& !session.playing && after.playing ==> action == (SessionActionView::Play {
                announce: true,
            })
        }),
{
}

/// Once a station plays, a broken stream is the end of the stream and no error.
pub proof fn law_a_broken_stream_ends_quietly_once_it_has_played(
    session: SessionView,
    event: SessionEventView,
)
    requires
        session.playing,
        event is PacketFailed || event is DecodeFailed,
    ensures
        session_step(session, event, true, false).1 == session_ended(
            session,
            EndReason::StreamEnded,
        ).1,
{
}

/// A malformed packet ends nothing: a stream that is joined in the middle of a frame gives a few
/// of them.
pub proof fn law_malformed_packets_are_skipped(session: SessionView)
    ensures
        session_step(session, SessionEventView::Malformed, true, false) == (
            SessionView { phase: SessionPhase::Packet, ..session },
            (SessionActionView::ReadPacket { reset: false }),
        ),
{
}

/// What is said where no configuration of the audio device can be had.
pub open spec fn no_config_text(error: Seq<char>) -> Seq<char> {
    "no usable audio output device: "@ + error
        + " (on a desktop, check that PulseAudio/PipeWire is running)"@
}

/// Picks the configuration of an audio device: its default one, or else the first that it
/// supports. A device may be nominated that then refuses to describe itself.
pub fn pick_config<C>(default: Result<C, String>, supported: Option<C>) -> (config: Result<C, String>)
    ensures
        match config {
            Ok(picked) => default == Ok::<C, String>(picked) || (default is Err && supported == Some(
                picked,
            )),
            Err(message) => default matches Err(error) && supported is None && message@
                == no_config_text(error@),
        },
{
    match default {
        Ok(picked) => Ok(picked),
        Err(error) => match supported {
            Some(picked) => Ok(picked),
            None => {
                let mut message: String = with_error(
                    "no usable audio output device: ",
                    error.as_str(),
                );
                message.append(" (on a desktop, check that PulseAudio/PipeWire is running)");
                Err(message)
            },
        },
    }
}

/// The type of the samples that an audio device takes.
#[derive(Debug)]
pub enum SampleKind {
    F32,
    I16,
    U16,
    I32,
    /// Another type, of this name.
    Other(String),
}

impl SampleKind {
    /// Why samples of this type cannot be played, if they cannot.
    pub fn unsupported(&self) -> (message: Option<String>)
        ensures
            match message {
                Some(text) => *self matches SampleKind::Other(name) && text@
                    == "unsupported audio sample format: "@ + name@,
                None => !(*self is Other),
            },
    {
        match self {
            SampleKind::Other(name) => Some(
                with_error("unsupported audio sample format: ", name.as_str()),
            ),
            _ => None,
        }
    }
}

/// What an audio device has failed with: the first error counts, for a device that has gone away
/// fails with every buffer.
pub struct DeviceFault {
    first: Option<String>,
}

impl View for DeviceFault {
    type V = Option<Seq<char>>;

    closed spec fn view(&self) -> Option<Seq<char>> {
        text::optional_text(self.first)
    }
}

impl DeviceFault {
    /// A device that has not failed.
    pub fn new() -> (fault: Self)
        ensures
            fault@ is None,
    {
        DeviceFault { first: None }
    }

    /// Notes an error and says whether it is the first.
    pub fn note(&mut self, error: String) -> (first: bool)
        ensures
            first == old(self)@ is None,
            final(self)@ == (if first {
                Some(error@)
            } else {
                old(self)@
            }),
    {
        if self.first.is_none() {
            self.first = Some(error);
            true
        } else {
            false
        }
    }

    /// The error that the device has failed with.
    pub fn failure(&self) -> (error: Option<String>)
        ensures
            text::optional_text(error) == self@,
    {
        match &self.first {
            Some(error) => Some(error.clone()),
            None => None,
        }
    }
}

/// A URL is that of an HLS playlist by its extension, in any case of its letters; the query behind
/// it does not count.
pub proof fn law_an_hls_url_is_known_by_its_extension(path: Seq<char>, query: Seq<char>)
    requires
        forall|i: int| 0 <= i < path.len() ==> #[trigger] path[i] != '?',
    ensures
        names_hls(path) <==> text::finishes_with(text::ascii_lower(path), ".m3u8"@),
        names_hls(path + seq!['?'] + query) <==> names_hls(path),
{
    text::law_a_text_is_parted_at_the_first(path, '?', query);
}

/// The first line that holds more than white space counts, without the white space around it; there
/// is none where no line holds more.
pub proof fn law_the_first_filled_line_counts(
    blank: Seq<Seq<char>>,
    line: Seq<char>,
    rest: Seq<Seq<char>>,
)
    requires
        forall|i: int| 0 <= i < blank.len() ==> text::trimmed(#[trigger] blank[i]).len() == 0,
        text::trimmed(line).len() > 0,
    ensures
        first_filled(blank + seq![line] + rest) == text::trimmed(line),
        first_filled(blank).len() == 0,
    decreases blank.len(),
{
    let all = blank + seq![line] + rest;
    if blank.len() > 0 {
        let fewer = blank.skip(1);
        assert forall|i: int| 0 <= i < fewer.len() implies text::trimmed(#[trigger] fewer[i]).len()
            == 0 by {
            assert(fewer[i] == blank[i + 1]);
        }
        law_the_first_filled_line_counts(fewer, line, rest);
        assert(all[0] == blank[0]);
        assert(all.skip(1) =~= fewer + seq![line] + rest);
    } else {
        assert(all[0] == line);
    }
}

/// A byte with a letter of ASCII in lower case.
pub open spec fn folded(byte: u8) -> u8 {
    if 65 <= byte <= 90 {
        (byte + 32) as u8
    } else {
        byte
    }
}

proof fn lemma_bytes_begin(head: Seq<u8>, pattern: Seq<char>, codes: Seq<u8>)
    requires
        pattern.len() == codes.len(),
        forall|i: int| 0 <= i < codes.len() ==> #[trigger] pattern[i] as int == codes[i],
    ensures
        bytes_begin_with(head, pattern) <==> head.len() >= codes.len() && head.take(
            codes.len() as int,
        ) == codes,
        bytes_begin_with_any_case(head, pattern) <==> head.len() >= codes.len() && forall|i: int|
            0 <= i < codes.len() ==> folded(#[trigger] head[i]) == codes[i],
{
    let count = codes.len() as int;
    if head.len() >= count {
        let front = head.take(count);
        if bytes_begin_with(head, pattern) {
            assert forall|i: int| 0 <= i < count implies front[i] == codes[i] by {
                assert(head[i] as char == pattern[i]);
                assert(pattern[i] as int == codes[i]);
            }
            assert(front =~= codes);
        }
        if front == codes {
            assert forall|i: int| 0 <= i < count implies #[trigger] head[i] as char == pattern[i] by {
                assert(front[i] == head[i]);
                assert(pattern[i] as int == codes[i]);
            }
        }
        assert forall|i: int| 0 <= i < count implies (text::lower_char(#[trigger] head[i] as char)
            == pattern[i]) == (folded(head[i]) == codes[i]) by {
            text::law_letters_change_their_case(head[i] as char);
            assert(pattern[i] as int == codes[i]);
        }
    }
}

/// A body begins as a playlist does if its first bytes are those of `#EXTM3U`, `#EXT-X`, `http://` or
/// `https://`, or those of `[playlist]` in any case of its letters, and not otherwise.
pub proof fn law_a_playlist_is_known_by_its_first_bytes(head: Seq<u8>)
    ensures
        begins_as_playlist(head) <==> {
            ||| head.len() >= 7 && head.take(7) == seq![35u8, 69, 88, 84, 77, 51, 85]
            ||| head.len() >= 6 && head.take(6) == seq![35u8, 69, 88, 84, 45, 88]
            ||| head.len() >= 7 && head.take(7) == seq![104u8, 116, 116, 112, 58, 47, 47]
            ||| head.len() >= 8 && head.take(8) == seq![104u8, 116, 116, 112, 115, 58, 47, 47]
            ||| head.len() >= 10 && forall|i: int|
                0 <= i < 10 ==> folded(#[trigger] head[i]) == seq![
                    91u8,
                    112,
                    108,
                    97,
                    121,
                    108,
                    105,
                    115,
                    116,
                    93,
                ][i]
        },
{
    reveal_strlit("#EXTM3U");
    reveal_strlit("#EXT-X");
    reveal_strlit("http://");
    reveal_strlit("https://");
    reveal_strlit("[playlist]");
    lemma_bytes_begin(head, "#EXTM3U"@, seq![35u8, 69, 88, 84, 77, 51, 85]);
    lemma_bytes_begin(head, "#EXT-X"@, seq![35u8, 69, 88, 84, 45, 88]);
    lemma_bytes_begin(head, "http://"@, seq![104u8, 116, 116, 112, 58, 47, 47]);
    lemma_bytes_begin(head, "https://"@, seq![104u8, 116, 116, 112, 115, 58, 47, 47]);
    lemma_bytes_begin(
        head,
        "[playlist]"@,
        seq![91u8, 112, 108, 97, 121, 108, 105, 115, 116, 93],
    );
}

/// A body is a playlist by how it begins or by its MIME type, which is one of six.
pub proof fn law_a_playlist_is_known_by_its_mime_type(head: Seq<u8>, content_type: Seq<char>)
    ensures
        is_playlist(head, None) <==> begins_as_playlist(head),
        is_playlist(head, Some(content_type)) <==> begins_as_playlist(head) || {
            let mime = crate::format::mime_of(content_type);
            ||| mime == "application/vnd.apple.mpegurl"@
            ||| mime == "application/x-mpegurl"@
            ||| mime == "audio/x-mpegurl"@
            ||| mime == "audio/mpegurl"@
            ||| mime == "audio/x-scpls"@
            ||| mime == "audio/scpls"@
        },
{
}

/// A line of a playlist points at the value of its `File` entry, in any case of the key's letters and
/// without the white space around it; a comment points at nothing, and any other line at itself.
pub proof fn law_a_line_points_at_its_url(key: Seq<char>, value: Seq<char>, line: Seq<char>)
    requires
        forall|i: int| 0 <= i < key.len() ==> #[trigger] key[i] != '=',
        forall|i: int| 0 <= i < line.len() ==> #[trigger] line[i] != '=',
    ensures
        text::begins_with(text::ascii_lower(text::trimmed_start(key)), "file"@) ==> pointed_at(
            key + seq!['='] + value,
        ) == text::trimmed(value),
        !text::begins_with(text::ascii_lower(text::trimmed_start(key)), "file"@) && !(key.len() > 0
            && key[0] == '#') ==> pointed_at(key + seq!['='] + value) == key + seq!['='] + value,
        !text::begins_with(text::ascii_lower(text::trimmed_start(key)), "file"@) && key.len() > 0
            && key[0] == '#' ==> pointed_at(key + seq!['='] + value).len() == 0,
        line.len() > 0 && line[0] == '#' ==> pointed_at(line).len() == 0,
        line.len() == 0 || line[0] != '#' ==> pointed_at(line) == line,
{
    text::law_a_text_is_parted_at_the_first(key, '=', value);
    text::law_a_text_is_parted_at_the_first(line, '=', value);
    let all = key + seq!['='] + value;
    assert(key.len() > 0 ==> all[0] == key[0]);
    assert(key.len() == 0 ==> all[0] == '=');
}

/// The first line that points at a URL of HTTP counts, and those before it do not matter; without
/// such a line there is none.
pub proof fn law_the_first_line_with_a_url_counts(
    others: Seq<Seq<char>>,
    line: Seq<char>,
    rest: Seq<Seq<char>>,
)
    requires
        forall|i: int|
            0 <= i < others.len() ==> {
                let url = pointed_at(text::trimmed(#[trigger] others[i]));
                !text::begins_with(url, "http://"@) && !text::begins_with(url, "https://"@)
            },
        ({
            let url = pointed_at(text::trimmed(line));
            text::begins_with(url, "http://"@) || text::begins_with(url, "https://"@)
        }),
    ensures
        first_url(others + seq![line] + rest) == Some(pointed_at(text::trimmed(line))),
        first_url(others) is None,
    decreases others.len(),
{
    let all = others + seq![line] + rest;
    if others.len() > 0 {
        let fewer = others.skip(1);
        assert forall|i: int| 0 <= i < fewer.len() implies ({
            let url = pointed_at(text::trimmed(#[trigger] fewer[i]));
            !text::begins_with(url, "http://"@) && !text::begins_with(url, "https://"@)
        }) by {
            assert(fewer[i] == others[i + 1]);
        }
        law_the_first_line_with_a_url_counts(fewer, line, rest);
        assert(all[0] == others[0]);
        assert(all.skip(1) =~= fewer + seq![line] + rest);
    } else {
        assert(all[0] == line);
    }
}

/// A search begins with the resolver where the URL is a resolver link, and else with the URL itself,
/// as an HLS stream or as a progressive one.
pub proof fn law_a_search_begins_with_the_url(url: Seq<char>, codec: Seq<char>)
    ensures
        search_of(url, codec, true) == (
            OpenView { phase: OpenPhase::Resolver, url, codec, hops: 0 },
            OpenActionView::Resolve(url),
        ),
        names_hls(url) ==> search_of(url, codec, false) == (
            OpenView { phase: OpenPhase::Hls, url, codec, hops: 0 },
            OpenActionView::OpenHls(url),
        ),
        !names_hls(url) ==> search_of(url, codec, false) == (
            OpenView { phase: OpenPhase::Stream, url, codec, hops: 0 },
            OpenActionView::OpenStream(url),
        ),
{
}

/// What a resolver answers is a URL on a line of its own, which is opened; without one, and without
/// an answer, the search fails and says why.
pub proof fn law_the_answer_of_a_resolver_is_opened(
    search: OpenView,
    response: Seq<char>,
    error: Seq<char>,
)
    requires
        search.phase == OpenPhase::Resolver,
    ensures
        ({
            let url = first_filled(text::lines_of(response));
            let (after, action) = open_step(search, OpenEventView::Text(Ok(response)));
            &&& url.len() > 0 && names_hls(url) ==> action == OpenActionView::OpenHls(url)
                && after.phase == OpenPhase::Hls
            &&& url.len() > 0 && !names_hls(url) ==> action == OpenActionView::OpenStream(url)
                && after.phase == OpenPhase::Stream
            &&& url.len() == 0 ==> action == OpenActionView::Fail(
                "TuneIn resolver returned an empty stream URL"@,
            )
            &&& after.codec == search.codec
            &&& after.hops == search.hops
        }),
        open_step(search, OpenEventView::Text(Err(error))).1 == OpenActionView::Fail(
            "could not resolve TuneIn stream: "@ + error,
        ),
{
}

/// A stream that is no playlist is the one, to be read in the format that its first bytes, its
/// content type, its URL after redirects and the station list give. A playlist is fetched from where
/// the redirects led, as long as fewer than two have been followed.
pub proof fn law_a_stream_is_played_unless_it_is_a_playlist(
    search: OpenView,
    stream: HeadView,
    error: Seq<char>,
)
    ensures
        ({
            let (after, action) = open_step(search, OpenEventView::Stream(Ok(stream)));
            let playlist = names_hls(stream.final_url) || is_playlist(
                stream.head,
                stream.content_type,
            );
            &&& !playlist ==> action == OpenActionView::Done(
                crate::format::http_format(
                    stream.head,
                    stream.content_type,
                    stream.final_url,
                    search.codec,
                ),
            ) && after.phase == OpenPhase::Finished
            &&& playlist && search.hops < 2 ==> action == OpenActionView::FetchPlaylist(
                stream.final_url,
            ) && after == (OpenView {
                phase: OpenPhase::Playlist,
                url: stream.final_url,
                ..search
            })
            &&& playlist && search.hops >= 2 ==> action == OpenActionView::Fail(
                "playlist redirects went in circles"@,
            ) && after.phase == OpenPhase::Finished
        }),
        open_step(search, OpenEventView::Stream(Err(error))).1 == OpenActionView::Fail(
            "could not open stream: "@ + error,
        ),
{
}

/// A playlist with a tag of HLS is opened as an HLS stream where it was fetched. Any other is
/// followed to the first URL that it points at, which counts as one more; without one the search
/// fails.
pub proof fn law_a_playlist_is_followed(
    search: OpenView,
    playlist: Seq<char>,
    error: Seq<char>,
)
    requires
        search.phase == OpenPhase::Playlist,
    ensures
        ({
            let (after, action) = open_step(search, OpenEventView::Text(Ok(playlist)));
            let hls = text::occurs(playlist, "#EXT-X-"@);
            let found = first_url(text::lines_of(playlist));
            &&& hls ==> action == OpenActionView::OpenHls(search.url) && after.phase
                == OpenPhase::Hls
            &&& !hls ==> (found matches Some(url) ==> after.hops == search.hops + 1 && after.url == url
                && after.codec == search.codec && (names_hls(url) ==> action
                == OpenActionView::OpenHls(url)) && (!names_hls(url) ==> action
                == OpenActionView::OpenStream(url)))
            &&& !hls && found is None ==> action == OpenActionView::Fail(
                "playlist contained no stream URL"@,
            )
        }),
        open_step(search, OpenEventView::Text(Err(error))).1 == OpenActionView::Fail(
            "could not fetch playlist: "@ + error,
        ),
{
    if text::occurs(playlist, "#EXT-X-STREAM-INF"@) {
        reveal_strlit("#EXT-X-STREAM-INF");
        reveal_strlit("#EXT-X-");
        let long = "#EXT-X-STREAM-INF"@;
        let at = choose|at: int| text::occurs_at(playlist, long, at);
        assert(long.take(7) =~= "#EXT-X-"@);
        assert(playlist.skip(at).take(7) =~= playlist.skip(at).take(long.len() as int).take(7));
        assert(text::occurs_at(playlist, "#EXT-X-"@, at));
    }
}

/// An HLS stream that was opened is the one, to be read as its codec says.
pub proof fn law_an_opened_hls_stream_is_played(
    search: OpenView,
    codec: AudioCodec,
    error: Seq<char>,
)
    ensures
        open_step(search, OpenEventView::Hls(Ok(codec))).1 == OpenActionView::Done(
            crate::format::hls_format(codec),
        ),
        open_step(search, OpenEventView::Hls(Err(error))).1 == OpenActionView::Fail(
            "could not open HLS stream: "@ + error,
        ),
        open_step(search, OpenEventView::Hls(Ok(codec))).0.phase == OpenPhase::Finished,
{
}

/// The generations follow each other round their range. A play moves on by two and a stop by one.
pub proof fn law_generations_follow_each_other(generation: u64)
    ensures
        generation < 0xFFFF_FFFF_FFFF_FFFF ==> next_generation(generation) == generation + 1,
        next_generation(0xFFFF_FFFF_FFFF_FFFF) == 0,
        generation_after(generation, Control::Stop) == next_generation(generation),
        generation_after(generation, Control::Play) == next_generation(next_generation(generation)),
{
}

/// To tell an event is to send it and to wake. Where nothing runs nothing is unwound; and a session
/// is unwound by its flag, then its sink, and then its queue, as far as it has them.
pub proof fn law_a_session_is_unwound_in_order<T, Q, S>(
    stop: T,
    queue: Q,
    sink: S,
    event: PlayerEventView,
)
    ensures
        telling::<T, Q, S>(event).len() == 2,
        telling::<T, Q, S>(event)[0] == PlayerStepView::<T, Q, S>::Tell(event),
        telling::<T, Q, S>(event)[1] == PlayerStepView::<T, Q, S>::Wake,
        unwinding_any::<T, Q, S>(None).len() == 0,
        unwinding_any(Some(ActiveSession::<T, Q, S> { stop, queue: Some(queue), sink: Some(sink) })) == seq![
            PlayerStepView::<T, Q, S>::SetStop(stop),
            PlayerStepView::<T, Q, S>::Mute(sink),
            PlayerStepView::<T, Q, S>::Close(queue),
        ],
        unwinding_any(Some(ActiveSession::<T, Q, S> { stop, queue: None, sink: Some(sink) })) == seq![
            PlayerStepView::<T, Q, S>::SetStop(stop),
            PlayerStepView::<T, Q, S>::Mute(sink),
        ],
        unwinding_any(Some(ActiveSession::<T, Q, S> { stop, queue: Some(queue), sink: None })) == seq![
            PlayerStepView::<T, Q, S>::SetStop(stop),
            PlayerStepView::<T, Q, S>::Close(queue),
        ],
        unwinding_any(Some(ActiveSession::<T, Q, S> { stop, queue: None, sink: None })) == seq![
            PlayerStepView::<T, Q, S>::SetStop(stop),
        ],
{
    assert(unwinding_any(Some(ActiveSession::<T, Q, S> { stop, queue: Some(queue), sink: Some(sink) })) =~= seq![
        PlayerStepView::<T, Q, S>::SetStop(stop),
        PlayerStepView::<T, Q, S>::Mute(sink),
        PlayerStepView::<T, Q, S>::Close(queue),
    ]);
}

/// The end of a stream is told as a stop, an error with the station that it is about, and a session
/// that another took over from tells nothing.
pub proof fn law_the_end_of_a_session_is_told(station: Seq<char>, detail: Seq<char>)
    ensures
        end_event(station, Ok(EndReason::StreamEnded)) == Some(PlayerEventView::Stopped),
        end_event(station, Ok(EndReason::Superseded)) is None,
        end_event(station, Err(detail)) == Some(PlayerEventView::Error { station, detail }),
{
}

/// The first track whose codec is known is played, whatever stands before and behind it; without one
/// there is none.
pub proof fn law_the_first_track_with_a_codec_is_played(
    others: Seq<TrackInfo>,
    track: TrackInfo,
    rest: Seq<TrackInfo>,
)
    requires
        forall|i: int| 0 <= i < others.len() ==> !(#[trigger] others[i]).has_codec,
        track.has_codec,
    ensures
        first_track(others + seq![track] + rest) == Some(track.id),
        first_track(others) is None,
    decreases others.len(),
{
    let all = others + seq![track] + rest;
    if others.len() > 0 {
        let fewer = others.skip(1);
        assert forall|i: int| 0 <= i < fewer.len() implies !(#[trigger] fewer[i]).has_codec by {
            assert(fewer[i] == others[i + 1]);
        }
        law_the_first_track_with_a_codec_is_played(fewer, track, rest);
        assert(all[0] == others[0]);
        assert(all.skip(1) =~= fewer + seq![track] + rest);
    } else {
        assert(all[0] == track);
    }
}

/// A session is set up step by step: source, queue, reader, decoder, and then packets. The queue
/// that can no longer be noted is closed.
pub proof fn law_a_session_is_set_up_step_by_step(
    session: SessionView,
    tracks: Seq<TrackInfo>,
    current: bool,
    stopped: bool,
)
    ensures
        session_step(session, SessionEventView::Source(Ok(())), current, stopped) == (
            SessionView { phase: SessionPhase::QueueNote, ..session },
            SessionActionView::NoteQueue,
        ),
        session_step(session, SessionEventView::QueueNoted(true), current, stopped) == (
            SessionView { phase: SessionPhase::Reader, ..session },
            SessionActionView::OpenReader,
        ),
        session_step(session, SessionEventView::QueueNoted(false), current, stopped) == (
            SessionView { phase: SessionPhase::Finished, ..session },
            SessionActionView::End { outcome: Ok(EndReason::Superseded), close_queue: true },
        ),
        first_track(tracks) matches Some(track) ==> session_step(
            session,
            SessionEventView::Reader(Ok(tracks)),
            current,
            stopped,
        ) == (
            SessionView { phase: SessionPhase::Decoder, track, ..session },
            SessionActionView::MakeDecoder(track),
        ),
        first_track(tracks) is None ==> session_step(
            session,
            SessionEventView::Reader(Ok(tracks)),
            current,
            stopped,
        ).1 == (SessionActionView::End {
            outcome: Err("no audio track in stream"@),
            close_queue: false,
        }),
        session_step(session, SessionEventView::Decoder(Ok(())), true, false) == (
            SessionView { phase: SessionPhase::Packet, ..session },
            (SessionActionView::ReadPacket { reset: false }),
        ),
{
}

/// What cannot be set up ends the session with an error that says why.
pub proof fn law_what_cannot_be_set_up_is_told(
    session: SessionView,
    error: Seq<char>,
    current: bool,
    stopped: bool,
)
    ensures
        session_step(session, SessionEventView::Source(Err(error)), current, stopped).1 == (
        SessionActionView::End { outcome: Err(error), close_queue: false }),
        session_step(session, SessionEventView::Reader(Err(error)), current, stopped).1 == (
        SessionActionView::End { outcome: Err(error), close_queue: false }),
        session_step(session, SessionEventView::Decoder(Err(error)), current, stopped).1 == (
        SessionActionView::End {
            outcome: Err("no decoder for this stream: "@ + error),
            close_queue: false,
        }),
        session_step(session, SessionEventView::Output(Err(error)), current, stopped).1 == (
        SessionActionView::End { outcome: Err(error), close_queue: false }),
        session_step(session, SessionEventView::OutputStarted(Err(error)), current, stopped).1 == (
        SessionActionView::End {
            outcome: Err("could not start audio output: "@ + error),
            close_queue: false,
        }),
        session_step(
            session,
            SessionEventView::Played { taken: true, failure: Some(error) },
            current,
            stopped,
        ).1 == (SessionActionView::End {
            outcome: Err("audio output failed: "@ + error),
            close_queue: false,
        }),
{
}

/// Packets of the track that plays are decoded, and others passed over. With the first that is
/// decoded the audio device is opened, its sink noted and the device started; then the samples are
/// played, and after them comes the next packet. A reset is passed on to the decoder.
pub proof fn law_packets_are_read_decoded_and_played(session: SessionView, track: u32)
    ensures
        track == session.track ==> session_step(session, SessionEventView::Packet(track), true, false)
            == (SessionView { phase: SessionPhase::Decoding, ..session }, SessionActionView::Decode),
        track != session.track ==> session_step(session, SessionEventView::Packet(track), true, false)
            == (
            SessionView { phase: SessionPhase::Packet, ..session },
            (SessionActionView::ReadPacket { reset: false }),
        ),
        session.playing ==> session_step(session, SessionEventView::Decoded, true, false) == (
            SessionView { phase: SessionPhase::Playing, ..session },
            (SessionActionView::Play { announce: false }),
        ),
        !session.playing ==> session_step(session, SessionEventView::Decoded, true, false) == (
            SessionView { phase: SessionPhase::Output, ..session },
            SessionActionView::OpenOutput,
        ),
        session_step(session, SessionEventView::Output(Ok(())), true, false) == (
            SessionView { phase: SessionPhase::SinkNote, ..session },
            SessionActionView::NoteSink,
        ),
        session_step(session, SessionEventView::SinkNoted(true), true, false) == (
            SessionView { phase: SessionPhase::OutputStart, ..session },
            SessionActionView::StartOutput,
        ),
        session_step(session, SessionEventView::OutputStarted(Ok(())), true, false) == (
            SessionView { phase: SessionPhase::Playing, playing: true, ..session },
            (SessionActionView::Play { announce: true }),
        ),
        session_step(
            session,
            SessionEventView::Played { taken: true, failure: None },
            true,
            false,
        ) == (
            SessionView { phase: SessionPhase::Packet, ..session },
            (SessionActionView::ReadPacket { reset: false }),
        ),
        session_step(session, SessionEventView::PacketReset, true, false) == (
            SessionView { phase: SessionPhase::Packet, ..session },
            (SessionActionView::ReadPacket { reset: true }),
        ),
        session_step(session, SessionEventView::DecodeReset, true, false) == (
            SessionView { phase: SessionPhase::Packet, ..session },
            (SessionActionView::ReadPacket { reset: true }),
        ),
{
}

/// A session ends with the stream, without an error; and it ends as superseded when its sink can no
/// longer be noted or takes no more samples.
pub proof fn law_a_session_ends_with_its_stream_or_its_sink(
    session: SessionView,
    failure: Option<Seq<char>>,
    error: Seq<char>,
    current: bool,
    stopped: bool,
)
    ensures
        session_step(session, SessionEventView::PacketEnd, current, stopped).1 == (
        SessionActionView::End { outcome: Ok(EndReason::StreamEnded), close_queue: false }),
        session_step(session, SessionEventView::SinkNoted(false), current, stopped).1 == (
        SessionActionView::End { outcome: Ok(EndReason::Superseded), close_queue: false }),
        session_step(
            session,
            SessionEventView::Played { taken: false, failure },
            current,
            stopped,
        ).1 == (SessionActionView::End {
            outcome: Ok(EndReason::Superseded),
            close_queue: false,
        }),
        !session.playing ==> session_step(session, SessionEventView::PacketFailed(error), true, false).1
            == (SessionActionView::End {
            outcome: Err("stream error: "@ + error),
            close_queue: false,
        }),
        !session.playing ==> session_step(session, SessionEventView::DecodeFailed(error), true, false).1
            == (SessionActionView::End {
            outcome: Err("decode failed: "@ + error),
            close_queue: false,
        }),
        session.playing ==> session_step(session, SessionEventView::PacketFailed(error), true, false).1
            == (SessionActionView::End { outcome: Ok(EndReason::StreamEnded), close_queue: false }),
        session.playing ==> session_step(session, SessionEventView::DecodeFailed(error), true, false).1
            == (SessionActionView::End { outcome: Ok(EndReason::StreamEnded), close_queue: false }),
        !current || stopped ==> session_step(
            session,
            SessionEventView::Malformed,
            current,
            stopped,
        ).1 == (SessionActionView::End {
            outcome: Ok(EndReason::Superseded),
            close_queue: false,
        }),
{
}

/// Where no configuration can be had, what the device said is told, with a hint.
pub proof fn law_a_device_without_a_configuration_is_told(error: Seq<char>)
    ensures
        no_config_text(error) == "no usable audio output device: "@ + error
            + " (on a desktop, check that PulseAudio/PipeWire is running)"@,
{
}

/// The first sixteen bytes of a body are enough to tell whether it is a playlist, and what format it
/// shows: what follows them makes no difference.
pub proof fn law_the_first_bytes_are_enough(head: Seq<u8>, more: Seq<u8>)
    requires
        head.len() == HEAD_PEEK_BYTES,
    ensures
        HEAD_PEEK_BYTES == 16,
        HEAD_PEEK_SECONDS == 15,
        begins_as_playlist(head + more) == begins_as_playlist(head),
        crate::format::head_format(head + more) == crate::format::head_format(head),
{
    let all = head + more;
    law_a_playlist_is_known_by_its_first_bytes(head);
    law_a_playlist_is_known_by_its_first_bytes(all);
    assert(all.take(6) =~= head.take(6));
    assert(all.take(7) =~= head.take(7));
    assert(all.take(8) =~= head.take(8));
    assert(forall|i: int| 0 <= i < 10 ==> #[trigger] all[i] == head[i]);
    assert(forall|i: int| 0 <= i < 10 ==> all[i] == #[trigger] head[i]);
}

/// A search takes the answer to what it asks for, whatever that is, and no other one.
pub proof fn law_a_search_takes_the_answer_to_its_wish(
    search: OpenView,
    event: OpenEventView,
    text: Result<Seq<char>, Seq<char>>,
    codec: Result<AudioCodec, Seq<char>>,
    stream: Result<HeadView, Seq<char>>,
    url: Seq<char>,
    listed: Seq<char>,
    resolve: bool,
)
    requires
        valid_search(search),
        answers(search.phase, event),
    ensures
        ({
            let (after, action) = open_step(search, event);
            &&& action is FetchPlaylist ==> answers(after.phase, OpenEventView::Text(text))
            &&& action is OpenHls <==> answers(after.phase, OpenEventView::Hls(codec))
            &&& action is OpenStream <==> answers(after.phase, OpenEventView::Stream(stream))
        }),
        ({
            let (begun, action) = search_of(url, listed, resolve);
            &&& action is Resolve <==> answers(begun.phase, OpenEventView::Text(text))
            &&& action is OpenHls <==> answers(begun.phase, OpenEventView::Hls(codec))
            &&& action is OpenStream <==> answers(begun.phase, OpenEventView::Stream(stream))
        }),
{
}

/// A session takes the answer to what it asks for, whatever that is, and no other one.
pub proof fn law_a_session_takes_the_answer_to_its_wish(
    session: SessionView,
    event: SessionEventView,
    current: bool,
    stopped: bool,
    done: Result<(), Seq<char>>,
    tracks: Result<Seq<TrackInfo>, Seq<char>>,
    yes: bool,
    track: u32,
    error: Seq<char>,
    failure: Option<Seq<char>>,
)
    ensures
        ({
            let (after, action) = session_step(session, event, current, stopped);
            let phase = after.phase;
            &&& action is OpenSource <==> concerns(phase, SessionEventView::Source(done))
            &&& action is NoteQueue <==> concerns(phase, SessionEventView::QueueNoted(yes))
            &&& action is OpenReader <==> concerns(phase, SessionEventView::Reader(tracks))
            &&& action is MakeDecoder <==> concerns(phase, SessionEventView::Decoder(done))
            &&& action is ReadPacket <==> concerns(phase, SessionEventView::Packet(track))
            &&& action is ReadPacket <==> concerns(phase, SessionEventView::PacketEnd)
            &&& action is ReadPacket <==> concerns(phase, SessionEventView::PacketReset)
            &&& action is ReadPacket <==> concerns(phase, SessionEventView::PacketFailed(error))
            &&& action is Decode <==> concerns(phase, SessionEventView::Decoded)
            &&& action is Decode <==> concerns(phase, SessionEventView::Malformed)
            &&& action is Decode <==> concerns(phase, SessionEventView::DecodeReset)
            &&& action is Decode <==> concerns(phase, SessionEventView::DecodeFailed(error))
            &&& action is OpenOutput <==> concerns(phase, SessionEventView::Output(done))
            &&& action is NoteSink <==> concerns(phase, SessionEventView::SinkNoted(yes))
            &&& action is StartOutput <==> concerns(phase, SessionEventView::OutputStarted(done))
            &&& action is Play <==> concerns(
                phase,
                SessionEventView::Played { taken: yes, failure },
            )
        }),
        phase_behind(SessionActionView::OpenSource) == SessionPhase::Source,
        concerns(SessionPhase::Source, SessionEventView::Source(done)),
{
}

} // verus!
