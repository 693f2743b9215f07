//! A small HLS playlist parser: enough to follow a master playlist to one media playlist,
//! and to read a live media playlist's list of segments. There are no byte ranges, no
//! encryption and no discontinuities.
//!
//! Durations are kept as the decimal numerals that stand in the playlist. A numeral that is
//! no number stands for zero.

use vstd::prelude::*;
use vstd::slice::slice_subrange;

use crate::text;

verus! {

/// One entry of a master playlist.
#[derive(Clone, Debug)]
pub struct Variant {
    pub uri: String,
    pub bandwidth: i64,
}

/// One entry of a media playlist.
#[derive(Clone, Debug)]
pub struct Segment {
    pub uri: String,
    /// The numeral of the duration in seconds.
    pub duration: String,
}

/// A media playlist.
#[derive(Clone, Debug)]
pub struct MediaPlaylist {
    pub segments: Vec<Segment>,
    pub media_sequence: i64,
    /// The numeral of the target duration in seconds.
    pub target_duration: String,
    pub is_end_list: bool,
}

/// The directory of a URL: all up to the last slash before the query, or all before the query
/// where there is no slash.
pub open spec fn directory_of(url: Seq<char>) -> Seq<char> {
    let path = text::before_char(url, '?');
    if text::end_of_last_char(path, '/') > 0 {
        path.take(text::end_of_last_char(path, '/'))
    } else {
        path
    }
}

/// What follows the scheme of a URL.
pub open spec fn after_scheme(url: Seq<char>, scheme_end: int) -> Seq<char> {
    url.skip(scheme_end + 3)
}

/// Host and path of a URL: what stands between its scheme and its query.
pub open spec fn host_and_path(url: Seq<char>, scheme_end: int) -> Seq<char> {
    text::before_char(after_scheme(url, scheme_end), '?')
}

/// The URL has a path. A slash in its query begins none.
pub open spec fn has_path(url: Seq<char>, scheme_end: int) -> bool {
    text::has_char(host_and_path(url, scheme_end), '/')
}

/// Scheme and host of a URL.
pub open spec fn origin_of(url: Seq<char>, scheme_end: int) -> Seq<char> {
    url.take(scheme_end + 3 + text::index_of_char(host_and_path(url, scheme_end), '/'))
}

/// A URI against the URL of the playlist that it stands in. One with a scheme stays as it is,
/// and so does every one where the base has none. `//host/path` takes the scheme of the base,
/// `/path` its origin, and any other its directory. The query of the base counts for nothing.
pub open spec fn resolved(base: Seq<char>, uri: Seq<char>) -> Seq<char> {
    if text::occurs(uri, "://"@) {
        uri
    } else {
        match text::first_occurrence(base, "://"@) {
            None => uri,
            Some(scheme_end) => if text::begins_with(uri, "//"@) {
                base.take(scheme_end) + "://"@ + uri.skip(2)
            } else if uri.len() > 0 && uri[0] == '/' {
                origin_of(base, scheme_end) + uri
            } else if !has_path(base, scheme_end) {
                origin_of(base, scheme_end) + "/"@ + uri
            } else {
                directory_of(base) + uri
            },
        }
    }
}

/// The URI resolves against the base: it is not the directory of a base that has nothing
/// before its query that is asked for.
pub open spec fn resolvable(base: Seq<char>, uri: Seq<char>) -> bool {
    text::occurs(uri, "://"@) || (match text::first_occurrence(base, "://"@) {
        None => true,
        Some(scheme_end) => {
            ||| uri.len() > 0 && uri[0] == '/'
            ||| !has_path(base, scheme_end)
            ||| base[0] != '?'
        },
    })
}

/// A line that gives a URI: not empty, and no tag or comment.
pub open spec fn is_uri_line(line: Seq<char>) -> bool {
    line.len() > 0 && line[0] != '#'
}

/// The lines of a playlist, without trailing white space.
pub open spec fn playlist_lines(text: Seq<char>) -> Seq<Seq<char>> {
    text::lines_of(text).map_values(|line: Seq<char>| text::trimmed_end(line))
}

/// How many leading lines give no URI.
pub open spec fn lines_before_uri(lines: Seq<Seq<char>>) -> nat
    decreases lines.len(),
{
    if lines.len() == 0 || is_uri_line(lines[0]) {
        0
    } else {
        1 + lines_before_uri(lines.skip(1))
    }
}

/// The variants of a master playlist, each with the line that describes it and the next line
/// that gives a URI.
pub open spec fn variant_lines(lines: Seq<Seq<char>>) -> Seq<(Seq<char>, Seq<char>)>
    decreases lines.len(),
{
    if lines.len() == 0 {
        Seq::empty()
    } else if !text::begins_with(lines[0], "#EXT-X-STREAM-INF:"@) {
        variant_lines(lines.skip(1))
    } else {
        let rest = lines.skip(1);
        let next = lines_before_uri(rest) as int;
        if next >= rest.len() {
            Seq::empty()
        } else {
            seq![(lines[0], rest[next])] + variant_lines(rest.skip(next + 1))
        }
    }
}

/// How many digits a text begins with.
pub open spec fn digit_count(text: Seq<char>) -> nat
    decreases text.len(),
{
    if text.len() > 0 && '0' <= text[0] <= '9' {
        1 + digit_count(text.skip(1))
    } else {
        0
    }
}

/// How many signs a text begins with: one or none.
pub open spec fn sign_count(text: Seq<char>) -> int {
    if text.len() > 0 && (text[0] == '-' || text[0] == '+') {
        1
    } else {
        0
    }
}

/// The length of the integer that a text begins with: a sign, where there is one, and digits.
pub open spec fn integer_len(text: Seq<char>) -> int {
    sign_count(text) + digit_count(text.skip(sign_count(text)))
}

/// The length of the decimal number that a text begins with: an integer, and a point with digits
/// behind it, where there is one.
pub open spec fn number_len(text: Seq<char>) -> int {
    let whole = integer_len(text);
    if 0 <= whole < text.len() && text[whole] == '.' {
        whole + 1 + digit_count(text.skip(whole + 1))
    } else {
        whole
    }
}

/// The integer that a text begins with, as it is written. What follows it is ignored.
pub open spec fn integer_prefix(text: Seq<char>) -> Seq<char> {
    text.take(integer_len(text))
}

/// The decimal number that a text begins with, as it is written. What follows it is ignored.
pub open spec fn number_prefix(text: Seq<char>) -> Seq<char> {
    text.take(number_len(text))
}

/// The number that a sequence of decimal digits stands for.
pub open spec fn digits_value(digits: Seq<char>) -> int
    decreases digits.len(),
{
    if digits.len() == 0 {
        0
    } else {
        digits_value(digits.drop_last()) * 10 + (digits.last() as int - 48)
    }
}

/// There is a digit, and there is nothing else.
pub open spec fn is_digits(text: Seq<char>) -> bool {
    text.len() > 0 && forall|i: int| 0 <= i < text.len() ==> '0' <= #[trigger] text[i] <= '9'
}

/// An integer with an optional sign, as far as it fits into 64 bits.
pub open spec fn integer_value(text: Seq<char>) -> Option<int> {
    let signed = text.len() > 0 && (text[0] == '-' || text[0] == '+');
    let digits = if signed { text.skip(1) } else { text };
    let value = if signed && text[0] == '-' { -digits_value(digits) } else { digits_value(digits) };
    if is_digits(digits) && i64::MIN <= value <= i64::MAX { Some(value) } else { None }
}

/// The integer that a text begins with, behind white space; 0 where it begins with none.
pub open spec fn leading_integer(text: Seq<char>) -> int {
    match integer_value(integer_prefix(text::trimmed_start(text))) {
        Some(value) => value,
        None => 0,
    }
}

/// The numeral that a text begins with, behind white space.
pub open spec fn leading_numeral(text: Seq<char>) -> Seq<char> {
    number_prefix(text::trimmed_start(text))
}

/// The integer attribute `key` of a tag: the first attribute, or else a later one.
pub open spec fn integer_attribute(line: Seq<char>, key: Seq<char>) -> int {
    let first = ":"@ + key + "="@;
    let later = ","@ + key + "="@;
    match text::first_occurrence(line, first) {
        Some(at) => leading_integer(line.skip(at + first.len())),
        None => match text::first_occurrence(line, later) {
            Some(at) => leading_integer(line.skip(at + later.len())),
            None => 0,
        },
    }
}

/// URI and bandwidth of a variant.
pub open spec fn variant_of(base: Seq<char>, lines: (Seq<char>, Seq<char>)) -> (Seq<char>, int) {
    (resolved(base, lines.1), integer_attribute(lines.0, "BANDWIDTH"@))
}

/// URIs and bandwidths of the variants of a master playlist.
pub open spec fn variants_of(text: Seq<char>, base: Seq<char>) -> Seq<(Seq<char>, int)> {
    variant_lines(playlist_lines(text)).map_values(|lines: (Seq<char>, Seq<char>)| variant_of(base, lines))
}

/// Every URI of a master playlist that is read resolves.
pub open spec fn master_resolvable(text: Seq<char>, base: Seq<char>) -> bool {
    forall|i: int|
        0 <= i < variant_lines(playlist_lines(text)).len() ==> resolvable(
            base,
            (#[trigger] variant_lines(playlist_lines(text))[i]).1,
        )
}

/// What some variants say.
pub open spec fn variant_views(variants: Seq<Variant>) -> Seq<(Seq<char>, int)> {
    variants.map_values(|variant: Variant| (variant.uri@, variant.bandwidth as int))
}

/// What has been read of a media playlist.
pub struct MediaView {
    /// URI and numeral of the duration of each segment.
    pub segments: Seq<(Seq<char>, Seq<char>)>,
    pub media_sequence: int,
    pub target_duration: Seq<char>,
    pub is_end_list: bool,
    /// The numeral of the duration of the segment that comes next.
    pub next_duration: Seq<char>,
}

/// One more line of a media playlist.
pub open spec fn media_line(seen: MediaView, line: Seq<char>, base: Seq<char>) -> MediaView {
    if text::begins_with(line, "#EXT-X-MEDIA-SEQUENCE:"@) {
        MediaView {
            media_sequence: leading_integer(line.skip("#EXT-X-MEDIA-SEQUENCE:"@.len() as int)),
            ..seen
        }
    } else if text::begins_with(line, "#EXT-X-TARGETDURATION:"@) {
        MediaView {
            target_duration: leading_numeral(line.skip("#EXT-X-TARGETDURATION:"@.len() as int)),
            ..seen
        }
    } else if text::begins_with(line, "#EXT-X-ENDLIST"@) {
        MediaView { is_end_list: true, ..seen }
    } else if text::begins_with(line, "#EXTINF:"@) {
        MediaView {
            next_duration: leading_numeral(line.skip("#EXTINF:"@.len() as int)),
            ..seen
        }
    } else if is_uri_line(line) {
        MediaView {
            segments: seen.segments.push((resolved(base, line), seen.next_duration)),
            next_duration: "0"@,
            ..seen
        }
    } else {
        seen
    }
}

/// What some lines of a media playlist say.
pub open spec fn media_lines(lines: Seq<Seq<char>>, base: Seq<char>) -> MediaView
    decreases lines.len(),
{
    if lines.len() == 0 {
        MediaView {
            segments: Seq::empty(),
            media_sequence: 0,
            target_duration: "6"@,
            is_end_list: false,
            next_duration: "0"@,
        }
    } else {
        media_line(media_lines(lines.drop_last(), base), lines.last(), base)
    }
}

/// What a media playlist says.
pub open spec fn media_of(text: Seq<char>, base: Seq<char>) -> MediaView {
    media_lines(playlist_lines(text), base)
}

/// Every URI of a media playlist resolves.
pub open spec fn media_resolvable(text: Seq<char>, base: Seq<char>) -> bool {
    forall|i: int|
        0 <= i < playlist_lines(text).len() && is_uri_line(#[trigger] playlist_lines(text)[i])
            ==> resolvable(base, playlist_lines(text)[i])
}

/// The playlist says its target duration.
pub open spec fn gives_target(text: Seq<char>) -> bool {
    exists|i: int|
        0 <= i < playlist_lines(text).len() && text::begins_with(
            #[trigger] playlist_lines(text)[i],
            "#EXT-X-TARGETDURATION:"@,
        )
}

/// What some segments say.
pub open spec fn segment_views(segments: Seq<Segment>) -> Seq<(Seq<char>, Seq<char>)> {
    segments.map_values(|segment: Segment| (segment.uri@, segment.duration@))
}

impl MediaPlaylist {
    /// The playlist says what `view` says.
    pub open spec fn says(self, view: MediaView) -> bool {
        &&& segment_views(self.segments@) == view.segments
        &&& self.media_sequence == view.media_sequence
        &&& self.target_duration@ == view.target_duration
        &&& self.is_end_list == view.is_end_list
    }
}

impl Default for Variant {
    fn default() -> (variant: Variant)
        ensures
            variant.uri@.len() == 0,
            variant.bandwidth == 0,
    {
        Variant { uri: String::new(), bandwidth: 0 }
    }
}

impl Default for Segment {
    fn default() -> (segment: Segment)
        ensures
            segment.uri@.len() == 0,
            segment.duration@ == "0"@,
    {
        Segment { uri: String::new(), duration: "0".to_string() }
    }
}

impl Default for MediaPlaylist {
    fn default() -> (playlist: MediaPlaylist)
        ensures
            playlist.segments@.len() == 0,
            playlist.media_sequence == 0,
            playlist.target_duration@ == "6"@,
            !playlist.is_end_list,
    {
        MediaPlaylist {
            segments: Vec::new(),
            media_sequence: 0,
            target_duration: "6".to_string(),
            is_end_list: false,
        }
    }
}

/// Resolves a possibly relative URI against a base URL.
pub fn resolve_url(base_url: &str, uri: &str) -> (url: String)
    requires
        resolvable(base_url@, uri@),
    ensures
        url@ == resolved(base_url@, uri@),
{
    let base: Vec<char> = text::chars_of(base_url);
    let uri_chars: Vec<char> = text::chars_of(uri);
    let url: Vec<char> = resolve_chars(base.as_slice(), uri_chars.as_slice());
    text::string_of(url.as_slice())
}

/// A copy of some characters followed by some others.
fn concat(front: &[char], back: &[char]) -> (out: Vec<char>)
    ensures
        out@ == front@ + back@,
{
    let mut out: Vec<char> = Vec::new();
    text::append_chars(&mut out, front);
    text::append_chars(&mut out, back);
    assert(out@ =~= front@ + back@);
    out
}

fn resolve_chars(base: &[char], uri: &[char]) -> (url: Vec<char>)
    requires
        resolvable(base@, uri@),
    ensures
        url@ == resolved(base@, uri@),
{
    proof {
        reveal_strlit("://");
        reveal_strlit("//");
        reveal_strlit("/");
    }
    let nothing: &[char] = slice_subrange(uri, 0, 0);
    let mark: Vec<char> = text::chars_of("://");
    if text::contains(uri, mark.as_slice()) {
        assert(uri@ + nothing@ =~= uri@);
        return concat(uri, nothing);
    }
    let scheme_end: usize = match text::find(base, mark.as_slice()) {
        Some(index) => index,
        None => {
            assert(uri@ + nothing@ =~= uri@);
            return concat(uri, nothing);
        },
    };
    let slashes: Vec<char> = text::chars_of("//");
    if text::starts_with(uri, slashes.as_slice()) {
        assert(base@.subrange(0, scheme_end as int) =~= base@.take(scheme_end as int));
        let mut url: Vec<char> = concat(slice_subrange(base, 0, scheme_end), mark.as_slice());
        assert(uri@.subrange(2, uri@.len() as int) =~= uri@.skip(2));
        text::append_chars(&mut url, slice_subrange(uri, 2, uri.len()));
        return url;
    }
    assert(mark@.len() == 3);
    let host: usize = scheme_end + 3;
    let after: &[char] = slice_subrange(base, host, base.len());
    assert(after@ =~= after_scheme(base@, scheme_end as int));
    let part: &[char] = text::up_to_char(after, '?');
    proof {
        text::lemma_index_of_char(after@, '?');
    }
    let slash: usize = text::find_char(part, '/');
    let origin: &[char] = slice_subrange(base, 0, host + slash);
    assert(origin@ =~= origin_of(base@, scheme_end as int));
    if uri.len() > 0 && uri[0] == '/' {
        return concat(origin, uri);
    }
    if slash >= part.len() {
        let one: Vec<char> = text::chars_of("/");
        let mut url: Vec<char> = concat(origin, one.as_slice());
        text::append_chars(&mut url, uri);
        return url;
    }
    let path: &[char] = text::up_to_char(base, '?');
    let end: usize = text::find_last_char(path, '/');
    if end > 0 {
        let directory: &[char] = slice_subrange(path, 0, end);
        assert(directory@ =~= directory_of(base@));
        concat(directory, uri)
    } else {
        concat(path, uri)
    }
}

/// True if the text is a master playlist.
pub fn is_master_playlist(text: &str) -> (master: bool)
    ensures
        master == text::occurs(text@, "#EXT-X-STREAM-INF"@),
{
    let tag: Vec<char> = text::chars_of("#EXT-X-STREAM-INF");
    text::contains(text::chars_of(text).as_slice(), tag.as_slice())
}

/// The lines of a playlist, without trailing white space.
fn lines(text: &str) -> (lines: Vec<Vec<char>>)
    ensures
        text::char_texts(lines@) == playlist_lines(text@),
{
    let raw: Vec<Vec<char>> = text::split_lines(text::chars_of(text).as_slice());
    let mut lines: Vec<Vec<char>> = Vec::with_capacity(raw.len());
    let ghost texts = text::lines_of(text@);
    for position in 0..raw.len()
        invariant
            texts == text::char_texts(raw@),
            lines@.len() == position,
            forall|i: int| 0 <= i < position ==> #[trigger] lines@[i]@ == text::trimmed_end(texts[i]),
    {
        let line: &[char] = text::trim_end(raw[position].as_slice());
        let mut copy: Vec<char> = Vec::with_capacity(line.len());
        text::append_chars(&mut copy, line);
        assert(copy@ =~= line@);
        assert(texts[position as int] == raw@[position as int]@);
        lines.push(copy);
    }
    assert(text::char_texts(lines@) =~= playlist_lines(text@));
    lines
}

/// The number so far never gets smaller with another digit.
proof fn lemma_digits_value_grows(digits: Seq<char>, count: int)
    requires
        forall|i: int| 0 <= i < digits.len() ==> '0' <= #[trigger] digits[i] <= '9',
        0 <= count <= digits.len(),
    ensures
        0 <= digits_value(digits.take(count)) <= digits_value(digits),
    decreases digits.len(),
{
    if count < digits.len() {
        let shorter = digits.drop_last();
        assert forall|i: int| 0 <= i < shorter.len() implies '0' <= #[trigger] shorter[i] <= '9' by {
            assert(shorter[i] == digits[i]);
        }
        lemma_digits_value_grows(shorter, count);
        assert(shorter.take(count) =~= digits.take(count));
    } else {
        assert(digits.take(count) =~= digits);
        if digits.len() > 0 {
            let shorter = digits.drop_last();
            assert forall|i: int| 0 <= i < shorter.len() implies '0' <= #[trigger] shorter[i] <= '9' by {
                assert(shorter[i] == digits[i]);
            }
            lemma_digits_value_grows(shorter, shorter.len() as int);
            assert(shorter.take(shorter.len() as int) =~= shorter);
        }
    }
}

/// The number that digits stand for; `None` where there is none, something else among them,
/// or the number is over `limit`.
fn parse_digits(digits: &[char], limit: u64) -> (value: Option<u64>)
    requires
        limit <= 0x8000_0000_0000_0000,
    ensures
        match value {
            Some(number) => is_digits(digits@) && digits_value(digits@) == number && number <= limit,
            None => !is_digits(digits@) || digits_value(digits@) > limit,
        },
{
    if digits.len() == 0 {
        return None;
    }
    let mut number: u64 = 0;
    let mut position: usize = 0;
    while position < digits.len()
        invariant
            position <= digits@.len(),
            limit <= 0x8000_0000_0000_0000,
            number <= limit,
            number == digits_value(digits@.take(position as int)),
            forall|i: int| 0 <= i < position ==> '0' <= #[trigger] digits@[i] <= '9',
        decreases digits@.len() - position,
    {
        let c: char = digits[position];
        if !('0' <= c && c <= '9') {
            return None;
        }
        let digit: u64 = (c as u64) - 48;
        assert(digits@.take(position + 1).drop_last() =~= digits@.take(position as int));
        if limit < digit || number > (limit - digit) / 10 {
            proof {
                if is_digits(digits@) {
                    lemma_digits_value_grows(digits@, position + 1);
                }
            }
            return None;
        }
        number = number * 10 + digit;
        position += 1;
    }
    assert(digits@.take(position as int) =~= digits@);
    Some(number)
}

/// Where the digits that begin at `from` end.
fn end_of_digits(text: &[char], from: usize) -> (end: usize)
    requires
        from <= text@.len(),
    ensures
        end == from + digit_count(text@.skip(from as int)),
        from <= end <= text@.len(),
{
    let mut end: usize = from;
    while end < text.len() && '0' <= text[end] && text[end] <= '9'
        invariant
            from <= end <= text@.len(),
            from + digit_count(text@.skip(from as int)) == end + digit_count(
                text@.skip(end as int),
            ),
        decreases text@.len() - end,
    {
        assert(text@.skip(end as int).skip(1) =~= text@.skip(end + 1));
        end += 1;
    }
    end
}

/// Where the integer that a text begins with ends.
fn end_of_integer(text: &[char]) -> (end: usize)
    ensures
        end == integer_len(text@),
        end <= text@.len(),
{
    let signed: bool = text.len() > 0 && (text[0] == '-' || text[0] == '+');
    end_of_digits(text, if signed { 1 } else { 0 })
}

/// The integer that a text begins with; 0 where it begins with none that fits.
pub fn parse_leading_i64(text: &[char]) -> (value: i64)
    ensures
        value == leading_integer(text@),
{
    let trimmed: &[char] = text::trim_start(text);
    let end: usize = end_of_integer(trimmed);
    let number: &[char] = slice_subrange(trimmed, 0, end);
    assert(number@ =~= integer_prefix(trimmed@));
    let signed: bool = number.len() > 0 && (number[0] == '-' || number[0] == '+');
    let digits: &[char] = if signed { slice_subrange(number, 1, number.len()) } else { number };
    assert(signed ==> digits@ =~= number@.skip(1));
    if signed && number[0] == '-' {
        match parse_digits(digits, 0x8000_0000_0000_0000) {
            Some(value) => if value == 0x8000_0000_0000_0000 {
                i64::MIN
            } else {
                -(value as i64)
            },
            None => 0,
        }
    } else {
        match parse_digits(digits, 0x7FFF_FFFF_FFFF_FFFF) {
            Some(value) => value as i64,
            None => 0,
        }
    }
}

/// The numeral that a text begins with.
pub fn parse_leading_numeral(text: &[char]) -> (numeral: String)
    ensures
        numeral@ == leading_numeral(text@),
{
    let trimmed: &[char] = text::trim_start(text);
    let whole: usize = end_of_integer(trimmed);
    let end: usize = if whole < trimmed.len() && trimmed[whole] == '.' {
        end_of_digits(trimmed, whole + 1)
    } else {
        whole
    };
    assert(trimmed@.subrange(0, end as int) =~= number_prefix(trimmed@));
    text::string_of(slice_subrange(trimmed, 0, end))
}

/// Reads an integer attribute of a tag; 0 where it is not there.
pub fn extract_int_attribute(line: &[char], key: &str) -> (value: i64)
    ensures
        value == integer_attribute(line@, key@),
{
    let name: Vec<char> = text::chars_of(key);
    let equals: Vec<char> = text::chars_of("=");
    let mut after_colon: Vec<char> = concat(text::chars_of(":").as_slice(), name.as_slice());
    text::append_chars(&mut after_colon, equals.as_slice());
    let mut after_comma: Vec<char> = concat(text::chars_of(",").as_slice(), name.as_slice());
    text::append_chars(&mut after_comma, equals.as_slice());
    let start: usize = match text::find(line, after_colon.as_slice()) {
        Some(index) => index + after_colon.len(),
        None => match text::find(line, after_comma.as_slice()) {
            Some(index) => index + after_comma.len(),
            None => {
                return 0;
            },
        },
    };
    assert(line@.subrange(start as int, line@.len() as int) =~= line@.skip(start as int));
    parse_leading_i64(slice_subrange(line, start, line.len()))
}

/// The URI resolves against the base.
fn resolves(base: &[char], uri: &[char]) -> (yes: bool)
    ensures
        yes == resolvable(base@, uri@),
{
    proof {
        reveal_strlit("://");
    }
    let mark: Vec<char> = text::chars_of("://");
    if text::contains(uri, mark.as_slice()) {
        return true;
    }
    let scheme_end: usize = match text::find(base, mark.as_slice()) {
        Some(index) => index,
        None => {
            return true;
        },
    };
    if uri.len() > 0 && uri[0] == '/' {
        return true;
    }
    let after: &[char] = slice_subrange(base, scheme_end + 3, base.len());
    assert(after@ =~= after_scheme(base@, scheme_end as int));
    let part: &[char] = text::up_to_char(after, '?');
    text::find_char(part, '/') >= part.len() || base[0] != '?'
}

/// Where the variants of a master playlist stand: for each the line that describes it, and the
/// line that gives its URI.
fn variant_positions(lines: &Vec<Vec<char>>) -> (positions: Vec<(usize, usize)>)
    ensures
        positions@.len() == variant_lines(text::char_texts(lines@)).len(),
        forall|i: int|
            0 <= i < positions@.len() ==> {
                let (tag, uri) = #[trigger] positions@[i];
                &&& tag < lines@.len()
                &&& uri < lines@.len()
                &&& variant_lines(text::char_texts(lines@))[i] == (
                    lines@[tag as int]@,
                    lines@[uri as int]@,
                )
            },
{
    let tag: Vec<char> = text::chars_of("#EXT-X-STREAM-INF:");
    let mut positions: Vec<(usize, usize)> = Vec::new();
    let ghost texts = text::char_texts(lines@);
    let ghost pairs = variant_lines(texts);
    let mut index: usize = 0;
    assert(texts.skip(0) =~= texts);
    assert(pairs.skip(0) =~= pairs);
    while index < lines.len()
        invariant
            texts == text::char_texts(lines@),
            pairs == variant_lines(texts),
            tag@ == "#EXT-X-STREAM-INF:"@,
            index <= lines@.len(),
            positions@.len() <= pairs.len(),
            pairs.skip(positions@.len() as int) == variant_lines(texts.skip(index as int)),
            forall|i: int|
                0 <= i < positions@.len() ==> {
                    let (tag, uri) = #[trigger] positions@[i];
                    &&& tag < lines@.len()
                    &&& uri < lines@.len()
                    &&& pairs[i] == (lines@[tag as int]@, lines@[uri as int]@)
                },
        ensures
            positions@.len() == pairs.len(),
        decreases lines@.len() - index,
    {
        let ghost here = texts.skip(index as int);
        assert(here[0] == lines@[index as int]@);
        assert(here.skip(1) =~= texts.skip(index + 1));
        if !text::starts_with(lines[index].as_slice(), tag.as_slice()) {
            index += 1;
            continue;
        }
        let mut next: usize = index + 1;
        let ghost rest = texts.skip(index + 1);
        while next < lines.len() && (lines[next].len() == 0 || lines[next][0] == '#')
            invariant
                texts == text::char_texts(lines@),
                index < next <= lines@.len(),
                rest == texts.skip(index + 1),
                lines_before_uri(rest) == (next - index - 1) + lines_before_uri(
                    texts.skip(next as int),
                ),
            decreases lines@.len() - next,
        {
            assert(texts.skip(next as int)[0] == lines@[next as int]@);
            assert(texts.skip(next as int).skip(1) =~= texts.skip(next + 1));
            next += 1;
        }
        let ghost count = positions@.len() as int;
        if next >= lines.len() {
            assert(pairs.skip(count).len() == 0);
            break;
        }
        proof {
            assert(texts.skip(next as int)[0] == lines@[next as int]@);
            assert(lines_before_uri(rest) == next - index - 1);
            assert(rest[next - index - 1] == lines@[next as int]@);
            assert(rest.skip(next - index) =~= texts.skip(next + 1));
            assert(pairs.skip(count) == seq![(lines@[index as int]@, lines@[next as int]@)]
                + variant_lines(texts.skip(next + 1)));
            assert(pairs[count] == pairs.skip(count)[0]);
            assert(pairs[count] == (lines@[index as int]@, lines@[next as int]@));
            assert(pairs.skip(count + 1) =~= pairs.skip(count).skip(1));
            assert(pairs.skip(count).skip(1) =~= variant_lines(texts.skip(next + 1)));
        }
        positions.push((index, next));
        index = next + 1;
    }
    positions
}

/// Every URI of a master playlist that is read resolves against the playlist's own URL.
pub fn master_resolves(text: &str, base_url: &str) -> (yes: bool)
    ensures
        yes == master_resolvable(text@, base_url@),
{
    let lines: Vec<Vec<char>> = lines(text);
    let base: Vec<char> = text::chars_of(base_url);
    let positions: Vec<(usize, usize)> = variant_positions(&lines);
    let ghost pairs = variant_lines(playlist_lines(text@));
    for count in 0..positions.len()
        invariant
            base@ == base_url@,
            pairs == variant_lines(playlist_lines(text@)),
            positions@.len() == pairs.len(),
            forall|i: int|
                0 <= i < positions@.len() ==> {
                    let (_, uri) = #[trigger] positions@[i];
                    uri < lines@.len() && pairs[i].1 == lines@[uri as int]@
                },
            forall|i: int| 0 <= i < count ==> resolvable(base_url@, (#[trigger] pairs[i]).1),
    {
        let (_, uri): (usize, usize) = positions[count];
        assert(pairs[count as int].1 == lines@[uri as int]@);
        if !resolves(base.as_slice(), lines[uri].as_slice()) {
            return false;
        }
    }
    true
}

/// Reads a master playlist. `base_url` is the playlist's own URL.
pub fn parse_master_playlist(text: &str, base_url: &str) -> (variants: Vec<Variant>)
    requires
        master_resolvable(text@, base_url@),
    ensures
        variant_views(variants@) == variants_of(text@, base_url@),
{
    let lines: Vec<Vec<char>> = lines(text);
    let base: Vec<char> = text::chars_of(base_url);
    let positions: Vec<(usize, usize)> = variant_positions(&lines);
    let mut variants: Vec<Variant> = Vec::new();
    let ghost pairs = variant_lines(playlist_lines(text@));
    for count in 0..positions.len()
        invariant
            base@ == base_url@,
            pairs == variant_lines(playlist_lines(text@)),
            master_resolvable(text@, base_url@),
            positions@.len() == pairs.len(),
            forall|i: int|
                0 <= i < positions@.len() ==> {
                    let (tag, uri) = #[trigger] positions@[i];
                    &&& tag < lines@.len()
                    &&& uri < lines@.len()
                    &&& pairs[i] == (lines@[tag as int]@, lines@[uri as int]@)
                },
            variants@.len() == count,
            forall|i: int|
                0 <= i < variants@.len() ==> (#[trigger] variants@[i].uri@, variants@[i].bandwidth as int)
                    == variant_of(base_url@, pairs[i]),
    {
        let (tag, uri): (usize, usize) = positions[count];
        assert(pairs[count as int] == (lines@[tag as int]@, lines@[uri as int]@));
        let bandwidth: i64 = extract_int_attribute(lines[tag].as_slice(), "BANDWIDTH");
        let url: Vec<char> = resolve_chars(base.as_slice(), lines[uri].as_slice());
        variants.push(Variant { uri: text::string_of(url.as_slice()), bandwidth });
    }
    assert(variant_views(variants@) =~= variants_of(text@, base_url@));
    variants
}

/// Every URI of a media playlist resolves against the playlist's own URL.
pub fn media_resolves(text: &str, base_url: &str) -> (yes: bool)
    ensures
        yes == media_resolvable(text@, base_url@),
{
    let lines: Vec<Vec<char>> = lines(text);
    let base: Vec<char> = text::chars_of(base_url);
    let ghost texts = playlist_lines(text@);
    for position in 0..lines.len()
        invariant
            texts == text::char_texts(lines@),
            texts == playlist_lines(text@),
            base@ == base_url@,
            forall|i: int|
                0 <= i < position && is_uri_line(#[trigger] texts[i]) ==> resolvable(
                    base_url@,
                    texts[i],
                ),
    {
        let line: &[char] = lines[position].as_slice();
        assert(texts[position as int] == line@);
        if line.len() > 0 && line[0] != '#' && !resolves(base.as_slice(), line) {
            return false;
        }
    }
    true
}

/// Reads a media playlist. `base_url` is the playlist's own URL.
pub fn parse_media_playlist(text: &str, base_url: &str) -> (playlist: MediaPlaylist)
    requires
        media_resolvable(text@, base_url@),
    ensures
        playlist.says(media_of(text@, base_url@)),
{
    let lines: Vec<Vec<char>> = lines(text);
    let base: Vec<char> = text::chars_of(base_url);
    let sequence_tag: Vec<char> = text::chars_of("#EXT-X-MEDIA-SEQUENCE:");
    let target_tag: Vec<char> = text::chars_of("#EXT-X-TARGETDURATION:");
    let end_tag: Vec<char> = text::chars_of("#EXT-X-ENDLIST");
    let duration_tag: Vec<char> = text::chars_of("#EXTINF:");
    let ghost texts = playlist_lines(text@);
    let mut playlist: MediaPlaylist = MediaPlaylist::default();
    let mut next_duration: String = "0".to_string();
    assert(texts.take(0) =~= Seq::empty());
    assert(segment_views(playlist.segments@) =~= Seq::empty());
    for position in 0..lines.len()
        invariant
            texts == text::char_texts(lines@),
            texts == playlist_lines(text@),
            base@ == base_url@,
            sequence_tag@ == "#EXT-X-MEDIA-SEQUENCE:"@,
            target_tag@ == "#EXT-X-TARGETDURATION:"@,
            end_tag@ == "#EXT-X-ENDLIST"@,
            duration_tag@ == "#EXTINF:"@,
            media_resolvable(text@, base_url@),
            playlist.says(media_lines(texts.take(position as int), base_url@)),
            next_duration@ == media_lines(texts.take(position as int), base_url@).next_duration,
    {
        let line: &[char] = lines[position].as_slice();
        assert(texts[position as int] == line@);
        assert(texts.take(position + 1).drop_last() =~= texts.take(position as int));
        if text::starts_with(line, sequence_tag.as_slice()) {
            let rest: &[char] = slice_subrange(line, sequence_tag.len(), line.len());
            assert(rest@ =~= line@.skip("#EXT-X-MEDIA-SEQUENCE:"@.len() as int));
            playlist.media_sequence = parse_leading_i64(rest);
        } else if text::starts_with(line, target_tag.as_slice()) {
            let rest: &[char] = slice_subrange(line, target_tag.len(), line.len());
            assert(rest@ =~= line@.skip("#EXT-X-TARGETDURATION:"@.len() as int));
            playlist.target_duration = parse_leading_numeral(rest);
        } else if text::starts_with(line, end_tag.as_slice()) {
            playlist.is_end_list = true;
        } else if text::starts_with(line, duration_tag.as_slice()) {
            let rest: &[char] = slice_subrange(line, duration_tag.len(), line.len());
            assert(rest@ =~= line@.skip("#EXTINF:"@.len() as int));
            next_duration = parse_leading_numeral(rest);
        } else if line.len() > 0 && line[0] != '#' {
            let uri: Vec<char> = resolve_chars(base.as_slice(), line);
            let ghost before = playlist.segments@;
            let segment: Segment = Segment {
                uri: text::string_of(uri.as_slice()),
                duration: next_duration,
            };
            playlist.segments.push(segment);
            assert(segment_views(playlist.segments@) =~= segment_views(before).push(
                (segment.uri@, segment.duration@),
            ));
            next_duration = "0".to_string();
        }
    }
    assert(texts.take(texts.len() as int) =~= texts);
    playlist
}

/// The playlist says its target duration, and does not leave it to the default.
pub fn gives_target_duration(text: &str) -> (gives: bool)
    ensures
        gives == gives_target(text@),
{
    let lines: Vec<Vec<char>> = lines(text);
    let tag: Vec<char> = text::chars_of("#EXT-X-TARGETDURATION:");
    let ghost texts = playlist_lines(text@);
    for position in 0..lines.len()
        invariant
            texts == text::char_texts(lines@),
            texts == playlist_lines(text@),
            tag@ == "#EXT-X-TARGETDURATION:"@,
            forall|i: int| 0 <= i < position ==> !text::begins_with(#[trigger] texts[i], tag@),
    {
        assert(texts[position as int] == lines@[position as int]@);
        if text::starts_with(lines[position].as_slice(), tag.as_slice()) {
            return true;
        }
    }
    false
}

/// Every URI resolves against a base that has something before its query.
pub proof fn law_every_uri_resolves_against_a_path(base: Seq<char>, uri: Seq<char>)
    requires
        base.len() > 0 ==> base[0] != '?',
    ensures
        resolvable(base, uri),
{
    reveal_strlit("://");
    text::lemma_first_occurrence(base, "://"@);
}

/// A query behind the URL of a playlist is not mistaken for a part of its path: URIs resolve
/// as they do without it.
pub proof fn law_query_is_no_path(base: Seq<char>, query: Seq<char>, uri: Seq<char>)
    requires
        text::first_occurrence(base, "://"@) is Some,
        !text::has_char(base, '?'),
    ensures
        resolved(base + "?"@ + query, uri) == resolved(base, uri),
{
    reveal_strlit("?");
    reveal_strlit("://");
    let tail = "?"@ + query;
    let full = base + "?"@ + query;
    assert(full =~= base + tail);
    let scheme_end = text::first_occurrence(base, "://"@).unwrap();
    text::lemma_first_occurrence(base, "://"@);
    text::lemma_first_occurrence_with_more(base, tail, "://"@);
    let after = after_scheme(base, scheme_end);
    assert(after_scheme(full, scheme_end) =~= after + tail);
    assert(text::index_of_char(tail, '?') == 0);
    text::lemma_index_of_char(base, '?');
    text::lemma_index_of_char_behind(base, tail, '?');
    text::lemma_index_of_char(after, '?');
    if text::has_char(after, '?') {
        assert(base[scheme_end + 3 + text::index_of_char(after, '?')] == '?');
    }
    text::lemma_index_of_char_behind(after, tail, '?');
    assert(host_and_path(full, scheme_end) =~= after);
    assert(host_and_path(base, scheme_end) =~= after);
    text::lemma_index_of_char(after, '/');
    assert(origin_of(full, scheme_end) =~= origin_of(base, scheme_end));
    assert(text::before_char(full, '?') =~= base);
    assert(text::before_char(base, '?') =~= base);
}

/// A slash in the query of a base is not taken for its path: a base without a path gives a URI the
/// origin alone, whatever its query holds.
pub proof fn law_a_slash_in_the_query_is_no_path(base: Seq<char>, query: Seq<char>, uri: Seq<char>)
    requires
        text::first_occurrence(base, "://"@) matches Some(scheme_end) && !has_path(base, scheme_end),
        !text::has_char(base, '?'),
        !text::occurs(uri, "://"@),
        uri.len() > 0 ==> uri[0] != '/',
    ensures
        resolved(base + "?"@ + query, uri) == base + "/"@ + uri,
{
    reveal_strlit("//");
    law_query_is_no_path(base, query, uri);
    let scheme_end = text::first_occurrence(base, "://"@).unwrap();
    reveal_strlit("://");
    text::lemma_first_occurrence(base, "://"@);
    let after = after_scheme(base, scheme_end);
    text::lemma_index_of_char(base, '?');
    text::lemma_index_of_char(after, '?');
    if text::has_char(after, '?') {
        assert(base[scheme_end + 3 + text::index_of_char(after, '?')] == '?');
    }
    assert(host_and_path(base, scheme_end) =~= after);
    text::lemma_index_of_char(after, '/');
    assert(origin_of(base, scheme_end) =~= base);
    if text::begins_with(uri, "//"@) {
        assert(uri.take(2)[0] == '/');
    }
}

/// A URI that was resolved against a URL with a scheme has one: resolving it again, against
/// whatever base, changes nothing.
pub proof fn law_resolving_twice_is_resolving_once(
    base: Seq<char>,
    uri: Seq<char>,
    other: Seq<char>,
)
    requires
        text::first_occurrence(base, "://"@) matches Some(scheme_end) && !text::has_char(
            base.take(scheme_end),
            '?',
        ),
    ensures
        text::occurs(resolved(base, uri), "://"@),
        resolvable(other, resolved(base, uri)),
        resolved(other, resolved(base, uri)) == resolved(base, uri),
{
    reveal_strlit("://");
    reveal_strlit("/");
    let mark = "://"@;
    let scheme_end = text::first_occurrence(base, mark).unwrap();
    text::lemma_first_occurrence(base, mark);
    assert(base.skip(scheme_end).take(3) == mark);
    assert(base[scheme_end] == ':') by {
        assert(base.skip(scheme_end).take(3)[0] == mark[0]);
    }
    assert(base[scheme_end + 1] == '/') by {
        assert(base.skip(scheme_end).take(3)[1] == mark[1]);
    }
    assert(base[scheme_end + 2] == '/') by {
        assert(base.skip(scheme_end).take(3)[2] == mark[2]);
    }
    if !text::occurs(uri, mark) {
        let url = resolved(base, uri);
        let after = after_scheme(base, scheme_end);
        text::lemma_index_of_char(after, '?');
        text::lemma_index_of_char(host_and_path(base, scheme_end), '/');
        text::lemma_index_of_char(base, '?');
        text::lemma_index_of_char(base.take(scheme_end), '?');
        let path = text::before_char(base, '?');
        text::lemma_end_of_last_char(path, '/');
        assert(text::index_of_char(base, '?') >= scheme_end + 3) by {
            let at = text::index_of_char(base, '?');
            if at < scheme_end {
                assert(base.take(scheme_end)[at] == '?');
            }
        }
        assert(path[scheme_end + 2] == '/');
        assert(url.len() >= scheme_end + 3);
        assert(url.take(scheme_end + 3) =~= base.take(scheme_end + 3));
        assert(url.skip(scheme_end).take(3) =~= mark) by {
            assert(url[scheme_end] == url.take(scheme_end + 3)[scheme_end]);
            assert(url[scheme_end + 1] == url.take(scheme_end + 3)[scheme_end + 1]);
            assert(url[scheme_end + 2] == url.take(scheme_end + 3)[scheme_end + 2]);
        }
        assert(text::occurs_at(url, mark, scheme_end));
    }
}

/// The lines of a media playlist that give URIs.
pub open spec fn uri_lines(lines: Seq<Seq<char>>) -> Seq<Seq<char>>
    decreases lines.len(),
{
    if lines.len() == 0 {
        Seq::empty()
    } else if is_uri_line(lines.last()) {
        uri_lines(lines.drop_last()).push(lines.last())
    } else {
        uri_lines(lines.drop_last())
    }
}

/// The segments of a media playlist are its URI lines, in order, each resolved.
pub proof fn law_segments_are_the_uri_lines(text: Seq<char>, base: Seq<char>)
    ensures
        media_of(text, base).segments.map_values(|segment: (Seq<char>, Seq<char>)| segment.0)
            == uri_lines(playlist_lines(text)).map_values(|line: Seq<char>| resolved(base, line)),
{
    lemma_segments_are_uri_lines(playlist_lines(text), base);
}

proof fn lemma_segments_are_uri_lines(lines: Seq<Seq<char>>, base: Seq<char>)
    ensures
        media_lines(lines, base).segments.map_values(|segment: (Seq<char>, Seq<char>)| segment.0)
            =~= uri_lines(lines).map_values(|line: Seq<char>| resolved(base, line)),
    decreases lines.len(),
{
    if lines.len() > 0 {
        lemma_segments_are_uri_lines(lines.drop_last(), base);
        lemma_tags_are_no_uris(lines.last());
        let before = media_lines(lines.drop_last(), base).segments;
        let after = media_lines(lines, base).segments;
        if is_uri_line(lines.last()) {
            assert(after.map_values(|segment: (Seq<char>, Seq<char>)| segment.0) =~= before.map_values(
                |segment: (Seq<char>, Seq<char>)| segment.0,
            ).push(resolved(base, lines.last())));
        }
    }
}

proof fn lemma_tags_are_no_uris(line: Seq<char>)
    ensures
        text::begins_with(line, "#EXT-X-MEDIA-SEQUENCE:"@) ==> !is_uri_line(line),
        text::begins_with(line, "#EXT-X-TARGETDURATION:"@) ==> !is_uri_line(line),
        text::begins_with(line, "#EXT-X-ENDLIST"@) ==> !is_uri_line(line),
        text::begins_with(line, "#EXTINF:"@) ==> !is_uri_line(line),
{
    reveal_strlit("#EXT-X-MEDIA-SEQUENCE:");
    reveal_strlit("#EXT-X-TARGETDURATION:");
    reveal_strlit("#EXT-X-ENDLIST");
    reveal_strlit("#EXTINF:");
    if text::begins_with(line, "#EXT-X-MEDIA-SEQUENCE:"@) {
        assert(line.take("#EXT-X-MEDIA-SEQUENCE:"@.len() as int)[0] == line[0]);
    }
    if text::begins_with(line, "#EXT-X-TARGETDURATION:"@) {
        assert(line.take("#EXT-X-TARGETDURATION:"@.len() as int)[0] == line[0]);
    }
    if text::begins_with(line, "#EXT-X-ENDLIST"@) {
        assert(line.take("#EXT-X-ENDLIST"@.len() as int)[0] == line[0]);
    }
    if text::begins_with(line, "#EXTINF:"@) {
        assert(line.take("#EXTINF:"@.len() as int)[0] == line[0]);
    }
}

/// A media playlist has ended exactly if one of its lines says so.
pub proof fn law_end_list_is_a_line(text: Seq<char>, base: Seq<char>)
    ensures
        media_of(text, base).is_end_list <==> exists|i: int|
            0 <= i < playlist_lines(text).len() && text::begins_with(
                #[trigger] playlist_lines(text)[i],
                "#EXT-X-ENDLIST"@,
            ),
{
    lemma_end_list(playlist_lines(text), base);
}

proof fn lemma_end_list(lines: Seq<Seq<char>>, base: Seq<char>)
    ensures
        media_lines(lines, base).is_end_list <==> exists|i: int|
            0 <= i < lines.len() && text::begins_with(#[trigger] lines[i], "#EXT-X-ENDLIST"@),
    decreases lines.len(),
{
    if lines.len() > 0 {
        let shorter = lines.drop_last();
        let last = lines.last();
        lemma_end_list(shorter, base);
        reveal_strlit("#EXT-X-MEDIA-SEQUENCE:");
        reveal_strlit("#EXT-X-TARGETDURATION:");
        reveal_strlit("#EXT-X-ENDLIST");
        if text::begins_with(last, "#EXT-X-ENDLIST"@) {
            assert(last.take("#EXT-X-ENDLIST"@.len() as int)[7] == last[7]);
            if text::begins_with(last, "#EXT-X-MEDIA-SEQUENCE:"@) {
                assert(last.take("#EXT-X-MEDIA-SEQUENCE:"@.len() as int)[7] == last[7]);
            }
            if text::begins_with(last, "#EXT-X-TARGETDURATION:"@) {
                assert(last.take("#EXT-X-TARGETDURATION:"@.len() as int)[7] == last[7]);
            }
            assert(lines[lines.len() - 1] == last);
        }
        if shorter.len() > 0 {
            assert(forall|i: int| 0 <= i < shorter.len() ==> shorter[i] == lines[i]);
        }
        if exists|i: int|
            0 <= i < lines.len() && text::begins_with(#[trigger] lines[i], "#EXT-X-ENDLIST"@) {
            let i = choose|i: int|
                0 <= i < lines.len() && text::begins_with(#[trigger] lines[i], "#EXT-X-ENDLIST"@);
            if i < shorter.len() {
                assert(shorter[i] == lines[i]);
            }
        }
    }
}

/// What follows a leading integer does not matter: as much of a number as there is is read, and the
/// rest is ignored.
pub proof fn law_what_follows_a_number_is_ignored(number: Seq<char>, rest: Seq<char>)
    requires
        integer_value(number) is Some,
        rest.len() > 0 ==> !('0' <= rest[0] <= '9'),
    ensures
        leading_integer(number + rest) == integer_value(number).unwrap(),
{
    let all = number + rest;
    assert(number.len() > 0 && all[0] == number[0]);
    assert(!text::is_white(number[0])) by {
        if sign_count(number) == 0 {
            assert('0' <= number[0] <= '9');
        }
    }
    assert(text::trimmed_start(all) == all);
    let sign = sign_count(all);
    assert(sign == sign_count(number));
    let digits = number.skip(sign);
    assert(digits =~= if sign == 1 { number.skip(1) } else { number });
    assert(all.skip(sign) =~= digits + rest);
    lemma_digits_end(digits, rest);
    assert(integer_prefix(all) =~= number);
}

/// Digits end where something else follows.
proof fn lemma_digits_end(digits: Seq<char>, rest: Seq<char>)
    requires
        forall|i: int| 0 <= i < digits.len() ==> '0' <= #[trigger] digits[i] <= '9',
        rest.len() > 0 ==> !('0' <= rest[0] <= '9'),
    ensures
        digit_count(digits + rest) == digits.len(),
    decreases digits.len(),
{
    if digits.len() == 0 {
        assert(digits + rest =~= rest);
    } else {
        assert(digits[0] == (digits + rest)[0]);
        assert((digits + rest).skip(1) =~= digits.skip(1) + rest);
        lemma_digits_end(digits.skip(1), rest);
    }
}

/// The mark between scheme and host stands behind a scheme without a colon.
proof fn lemma_scheme(scheme: Seq<char>, rest: Seq<char>)
    requires
        forall|i: int| 0 <= i < scheme.len() ==> #[trigger] scheme[i] != ':',
    ensures
        text::first_occurrence(scheme + "://"@ + rest, "://"@) == Some(scheme.len() as int),
{
    reveal_strlit("://");
    let mark = "://"@;
    let url = scheme + mark + rest;
    let at = scheme.len() as int;
    assert(url.skip(at).take(3) =~= mark);
    assert(text::occurs_at(url, mark, at));
    text::lemma_first_occurrence(url, mark);
    let found = text::first_occurrence(url, mark).unwrap();
    if found < at {
        assert(url.skip(found).take(3)[0] == mark[0]);
        assert(url[found] == scheme[found]);
    }
    if at < found {
        assert(!text::occurs_at(url, mark, at));
    }
}

/// The parts of the URL of a playlist: a scheme without a colon, a host, a directory that begins and
/// ends with a slash or is not there, a file without a slash, and a query or none.
pub open spec fn are_parts(
    scheme: Seq<char>,
    host: Seq<char>,
    directory: Seq<char>,
    file: Seq<char>,
    query: Seq<char>,
) -> bool {
    &&& forall|i: int| 0 <= i < scheme.len() ==> #[trigger] scheme[i] != ':' && scheme[i] != '?'
    &&& forall|i: int| 0 <= i < host.len() ==> #[trigger] host[i] != '/' && host[i] != '?'
    &&& forall|i: int| 0 <= i < directory.len() ==> #[trigger] directory[i] != '?'
    &&& forall|i: int| 0 <= i < file.len() ==> #[trigger] file[i] != '/' && file[i] != '?'
    &&& directory.len() > 0 ==> directory[0] == '/' && directory[directory.len() - 1] == '/'
    &&& directory.len() == 0 ==> file.len() == 0
    &&& query.len() > 0 ==> query[0] == '?'
}

/// A URI without a scheme of its own is put behind the directory of the playlist, behind its host
/// where it begins with a slash, and behind its scheme where it begins with two. Neither the file
/// nor the query of the playlist has a part in it.
pub proof fn law_a_relative_uri_is_put_behind_the_playlist(
    scheme: Seq<char>,
    host: Seq<char>,
    directory: Seq<char>,
    file: Seq<char>,
    query: Seq<char>,
    uri: Seq<char>,
)
    requires
        are_parts(scheme, host, directory, file, query),
        !text::occurs(uri, "://"@),
    ensures
        ({
            let base = scheme + "://"@ + (host + directory + file + query);
            &&& uri.len() == 0 || uri[0] != '/' ==> resolved(base, uri) == scheme + "://"@ + host + (
            if directory.len() > 0 {
                directory
            } else {
                seq!['/']
            }) + uri
            &&& uri.len() > 0 && uri[0] == '/' && !(uri.len() > 1 && uri[1] == '/') ==> resolved(
                base,
                uri,
            ) == scheme + "://"@ + host + uri
            &&& uri.len() > 1 && uri[0] == '/' && uri[1] == '/' ==> resolved(base, uri) == scheme
                + "://"@ + uri.skip(2)
        }),
{
    reveal_strlit("://");
    reveal_strlit("//");
    reveal_strlit("/");
    let mark = "://"@;
    let tail = host + directory + file + query;
    let base = scheme + mark + tail;
    let at = scheme.len() as int;
    lemma_scheme(scheme, tail);
    assert(after_scheme(base, at) =~= tail);
    let place = host + directory + file;
    assert(forall|i: int| 0 <= i < place.len() ==> #[trigger] place[i] != '?');
    assert(tail =~= place + query);
    lemma_before_query(place, query);
    assert(host_and_path(base, at) == place);
    assert(place =~= host + (directory + file));
    text::lemma_index_of_char(host, '/');
    text::lemma_index_of_char_behind(host, directory + file, '/');
    text::lemma_index_of_char(place, '/');
    let origin = scheme + mark + host;
    if directory.len() > 0 {
        assert((directory + file)[0] == '/');
        assert(text::index_of_char(place, '/') == host.len());
    } else {
        assert(directory + file =~= Seq::<char>::empty());
        assert(text::index_of_char(place, '/') == host.len());
    }
    assert(origin_of(base, at) =~= origin);
    let front = scheme + mark + place;
    assert(base =~= front + query);
    assert(forall|i: int| 0 <= i < front.len() ==> #[trigger] front[i] != '?');
    lemma_before_query(front, query);
    assert(text::before_char(base, '?') == front);
    text::lemma_end_of_last_char(front, '/');
    let end = (scheme + mark + host + directory).len() as int;
    if directory.len() > 0 {
        assert(front[end - 1] == directory[directory.len() - 1]);
        let found = text::end_of_last_char(front, '/');
        if found > end {
            assert(front[found - 1] == file[found - 1 - end]);
        }
        assert(found == end);
        assert(front.take(end) =~= scheme + mark + host + directory);
        assert(directory_of(base) == scheme + mark + host + directory);
    }
    if uri.len() > 1 && uri[0] == '/' && uri[1] == '/' {
        assert(uri.take(2) =~= "//"@);
        assert(base.take(at) =~= scheme);
    } else if text::begins_with(uri, "//"@) {
        assert(uri.take(2)[0] == '/' && uri.take(2)[1] == '/');
    }
    assert("/"@ =~= seq!['/']);
}

proof fn lemma_before_query(front: Seq<char>, query: Seq<char>)
    requires
        forall|i: int| 0 <= i < front.len() ==> #[trigger] front[i] != '?',
        query.len() > 0 ==> query[0] == '?',
    ensures
        text::before_char(front + query, '?') == front,
{
    if query.len() > 0 {
        text::law_a_text_is_parted_at_the_first(front, '?', query.skip(1));
        assert(front + seq!['?'] + query.skip(1) =~= front + query);
    } else {
        text::law_a_text_is_parted_at_the_first(front, '?', Seq::empty());
        assert(front + query =~= front);
    }
}

/// A URI with a scheme stays as it is, and so does every URI where the playlist's own URL has none.
pub proof fn law_a_whole_url_stays_as_it_is(base: Seq<char>, uri: Seq<char>)
    requires
        text::occurs(uri, "://"@) || !text::occurs(base, "://"@),
    ensures
        resolved(base, uri) == uri,
{
    text::lemma_first_occurrence(base, "://"@);
}

/// The digits of a decimal number stand for it.
proof fn lemma_decimal(number: nat)
    ensures
        is_digits(text::decimal_of(number)),
        digits_value(text::decimal_of(number)) == number,
    decreases number,
{
    let digits = text::decimal_of(number);
    if number < 10 {
        assert(digits.drop_last() =~= Seq::empty());
        assert(digits_value(digits.drop_last()) == 0);
    } else {
        let front = text::decimal_of(number / 10);
        lemma_decimal(number / 10);
        assert(digits.drop_last() =~= front);
        assert forall|i: int| 0 <= i < digits.len() implies '0' <= #[trigger] digits[i] <= '9' by {
            if i < front.len() {
                assert(digits[i] == front[i]);
            }
        }
    }
}

/// An integer is read back as it was written: behind white space, with a sign or without, and
/// whatever follows it that is no digit. One that does not fit into 64 bits is read as 0.
pub proof fn law_a_written_integer_is_read_back(white: Seq<char>, number: nat, rest: Seq<char>)
    requires
        forall|i: int| 0 <= i < white.len() ==> text::is_white(#[trigger] white[i]),
        rest.len() > 0 ==> !('0' <= rest[0] <= '9'),
    ensures
        leading_integer(white + text::decimal_of(number) + rest) == (if number
            <= 9_223_372_036_854_775_807 {
            number as int
        } else {
            0
        }),
        leading_integer(white + (seq!['+'] + text::decimal_of(number)) + rest) == (if number
            <= 9_223_372_036_854_775_807 {
            number as int
        } else {
            0
        }),
        leading_integer(white + (seq!['-'] + text::decimal_of(number)) + rest) == (if number
            <= 9_223_372_036_854_775_808 {
            -(number as int)
        } else {
            0
        }),
{
    let digits = text::decimal_of(number);
    lemma_decimal(number);
    lemma_read_integer(white, Seq::empty(), digits, rest);
    lemma_read_integer(white, seq!['+'], digits, rest);
    lemma_read_integer(white, seq!['-'], digits, rest);
    assert(Seq::<char>::empty() + digits =~= digits);
    assert('0' <= digits[0] <= '9');
    assert((seq!['+'] + digits).skip(1) =~= digits);
    assert((seq!['-'] + digits).skip(1) =~= digits);
}

/// What is read of an integer is its sign and its digits.
proof fn lemma_read_integer(
    white: Seq<char>,
    sign: Seq<char>,
    digits: Seq<char>,
    rest: Seq<char>,
)
    requires
        forall|i: int| 0 <= i < white.len() ==> text::is_white(#[trigger] white[i]),
        sign.len() == 0 || (sign.len() == 1 && (sign[0] == '-' || sign[0] == '+')),
        is_digits(digits),
        rest.len() > 0 ==> !('0' <= rest[0] <= '9'),
    ensures
        text::trimmed_start(white + (sign + digits) + rest) == (sign + digits) + rest,
        integer_len((sign + digits) + rest) == sign.len() + digits.len(),
        integer_prefix((sign + digits) + rest) == sign + digits,
{
    let number = sign + digits;
    let all = number + rest;
    assert(white + number + rest =~= white + all);
    text::lemma_trimmed_start(white, all);
    assert(!text::is_white(all[0])) by {
        if sign.len() == 0 {
            assert(all[0] == digits[0]);
        } else {
            assert(all[0] == sign[0]);
        }
    }
    assert(text::trimmed_start(all) == all);
    if sign.len() == 0 {
        assert(all[0] == digits[0]);
        assert('0' <= digits[0] <= '9');
    }
    assert(sign_count(all) == sign.len());
    assert(all.skip(sign.len() as int) =~= digits + rest);
    lemma_digits_end(digits, rest);
    assert(all.take(number.len() as int) =~= number);
}

/// A text that begins with no digit, behind white space and a sign, is read as 0.
pub proof fn law_no_integer_is_read_as_zero(white: Seq<char>, sign: Seq<char>, rest: Seq<char>)
    requires
        forall|i: int| 0 <= i < white.len() ==> text::is_white(#[trigger] white[i]),
        sign.len() == 0 || (sign.len() == 1 && (sign[0] == '-' || sign[0] == '+')),
        rest.len() > 0 ==> !('0' <= rest[0] <= '9') && !text::is_white(rest[0]) && rest[0] != '-'
            && rest[0] != '+',
    ensures
        leading_integer(white + sign + rest) == 0,
{
    let all = sign + rest;
    assert(white + sign + rest =~= white + all);
    text::lemma_trimmed_start(white, all);
    assert(text::trimmed_start(all) == all);
    let found = integer_prefix(all);
    assert(all.skip(sign.len() as int) =~= rest);
    assert(sign_count(all) == sign.len());
    assert(digit_count(rest) == 0);
    assert(found =~= sign);
    if sign.len() > 0 {
        assert(found.skip(1).len() == 0);
    }
}

/// A decimal number is read as it is written: its sign, its digits, and a point with the digits
/// behind it. White space before it and what follows it are left out.
pub proof fn law_a_written_numeral_is_read_as_it_stands(
    white: Seq<char>,
    sign: Seq<char>,
    digits: Seq<char>,
    fraction: Seq<char>,
    rest: Seq<char>,
)
    requires
        forall|i: int| 0 <= i < white.len() ==> text::is_white(#[trigger] white[i]),
        sign.len() == 0 || (sign.len() == 1 && (sign[0] == '-' || sign[0] == '+')),
        digits.len() > 0,
        forall|i: int| 0 <= i < digits.len() ==> '0' <= #[trigger] digits[i] <= '9',
        forall|i: int| 0 <= i < fraction.len() ==> '0' <= #[trigger] fraction[i] <= '9',
        rest.len() > 0 ==> !('0' <= rest[0] <= '9'),
    ensures
        leading_numeral(white + (sign + digits) + (seq!['.'] + fraction + rest)) == sign + digits
            + seq!['.'] + fraction,
        rest.len() == 0 || rest[0] != '.' ==> leading_numeral(white + (sign + digits) + rest) == sign
            + digits,
{
    let number = sign + digits;
    let point = seq!['.'] + fraction + rest;
    lemma_read_integer(white, sign, digits, point);
    lemma_read_integer(white, sign, digits, rest);
    let all = number + point;
    let whole = number.len() as int;
    assert(all[whole] == '.');
    assert(all.skip(whole + 1) =~= fraction + rest);
    lemma_digits_end(fraction, rest);
    assert(all.take(whole + 1 + fraction.len()) =~= number + seq!['.'] + fraction);
    let plain = number + rest;
    if whole < plain.len() {
        assert(plain[whole] == rest[0]);
    }
    assert(plain.take(whole) =~= number);
}

/// An attribute is the integer behind its key, where the key stands behind the colon of the tag or,
/// if it does not, behind a comma; whatever follows the integer that is no digit. Without its key
/// it is 0.
pub proof fn law_an_attribute_is_the_integer_behind_its_key(
    front: Seq<char>,
    key: Seq<char>,
    number: nat,
    rest: Seq<char>,
)
    requires
        number <= 9_223_372_036_854_775_807,
        rest.len() > 0 ==> !('0' <= rest[0] <= '9'),
    ensures
        ({
            let first = ":"@ + key + "="@;
            let line = front + first + text::decimal_of(number) + rest;
            text::first_occurrence(line, first) == Some(front.len() as int) ==> integer_attribute(
                line,
                key,
            ) == number
        }),
        ({
            let later = ","@ + key + "="@;
            let line = front + later + text::decimal_of(number) + rest;
            !text::occurs(line, ":"@ + key + "="@) && text::first_occurrence(line, later) == Some(
                front.len() as int,
            ) ==> integer_attribute(line, key) == number
        }),
        !text::occurs(front, ":"@ + key + "="@) && !text::occurs(front, ","@ + key + "="@)
            ==> integer_attribute(front, key) == 0,
{
    let digits = text::decimal_of(number);
    let first = ":"@ + key + "="@;
    let later = ","@ + key + "="@;
    let nothing = Seq::<char>::empty();
    law_a_written_integer_is_read_back(nothing, number, rest);
    assert(nothing + digits + rest =~= digits + rest);
    let one = front + first + digits + rest;
    assert(one.skip((front.len() + first.len()) as int) =~= digits + rest);
    let other = front + later + digits + rest;
    assert(other.skip((front.len() + later.len()) as int) =~= digits + rest);
    text::lemma_first_occurrence(other, first);
    text::lemma_first_occurrence(front, first);
    text::lemma_first_occurrence(front, later);
}

/// The lines of a playlist are those of its text, each without the white space at its end.
pub proof fn law_playlist_lines_are_trimmed_at_their_end(text: Seq<char>)
    ensures
        playlist_lines(text).len() == text::lines_of(text).len(),
        forall|i: int|
            0 <= i < playlist_lines(text).len() ==> #[trigger] playlist_lines(text)[i]
                == text::trimmed_end(text::lines_of(text)[i]),
{
}

/// A line can be a URI if it is not empty and no comment.
pub proof fn law_comments_and_empty_lines_are_no_uris(line: Seq<char>)
    ensures
        is_uri_line(line) <==> line.len() > 0 && line[0] as int != 35,
{
}

/// A variant of a master playlist is a line that describes it and the next line that is no comment
/// and not empty, and the other variants are those of the lines behind that one. A description
/// without such a line, and lines that describe nothing, give none.
pub proof fn law_a_variant_is_a_description_and_the_next_uri(
    attributes: Seq<char>,
    between: Seq<Seq<char>>,
    uri: Seq<char>,
    rest: Seq<Seq<char>>,
    other: Seq<char>,
)
    requires
        forall|i: int|
            0 <= i < between.len() ==> (#[trigger] between[i]).len() == 0 || between[i][0] == '#',
        uri.len() > 0 && uri[0] != '#',
        !text::begins_with(other, "#EXT-X-STREAM-INF:"@),
    ensures
        ({
            let tag = "#EXT-X-STREAM-INF:"@ + attributes;
            &&& variant_lines(seq![tag] + between + seq![uri] + rest) == seq![(tag, uri)]
                + variant_lines(rest)
            &&& variant_lines(seq![tag] + between) == Seq::<(Seq<char>, Seq<char>)>::empty()
        }),
        variant_lines(seq![other] + rest) == variant_lines(rest),
        variant_lines(Seq::empty()) == Seq::<(Seq<char>, Seq<char>)>::empty(),
{
    let mark = "#EXT-X-STREAM-INF:"@;
    let tag = mark + attributes;
    assert(tag.take(mark.len() as int) =~= mark);
    let all = seq![tag] + between + seq![uri] + rest;
    assert(all.skip(1) =~= between + (seq![uri] + rest));
    lemma_lines_before_uri(between, seq![uri] + rest);
    assert((seq![uri] + rest)[0] == uri);
    assert(lines_before_uri(seq![uri] + rest) == 0);
    let count = between.len() as int;
    assert(all.skip(1)[count] == uri);
    assert(all.skip(1).skip(count + 1) =~= rest);
    let alone = seq![tag] + between;
    let nothing = Seq::<Seq<char>>::empty();
    assert(alone.skip(1) =~= between + nothing);
    lemma_lines_before_uri(between, nothing);
    assert((seq![other] + rest).skip(1) =~= rest);
}

proof fn lemma_lines_before_uri(between: Seq<Seq<char>>, rest: Seq<Seq<char>>)
    requires
        forall|i: int|
            0 <= i < between.len() ==> (#[trigger] between[i]).len() == 0 || between[i][0] == '#',
    ensures
        lines_before_uri(between + rest) == between.len() + lines_before_uri(rest),
    decreases between.len(),
{
    if between.len() == 0 {
        assert(between + rest =~= rest);
    } else {
        assert((between + rest)[0] == between[0]);
        assert((between + rest).skip(1) =~= between.skip(1) + rest);
        lemma_lines_before_uri(between.skip(1), rest);
    }
}

/// The variants of a master playlist: each with its URI, resolved, and the bandwidth that its
/// description gives.
pub proof fn law_variants_have_their_uri_and_their_bandwidth(text: Seq<char>, base: Seq<char>)
    ensures
        variants_of(text, base).len() == variant_lines(playlist_lines(text)).len(),
        forall|i: int|
            0 <= i < variants_of(text, base).len() ==> {
                let (tag, uri) = variant_lines(playlist_lines(text))[i];
                (#[trigger] variants_of(text, base)[i]) == (
                    resolved(base, uri),
                    integer_attribute(tag, "BANDWIDTH"@),
                )
            },
{
}

/// What a further line adds to what a media playlist has said: a tag sets what it is about and
/// nothing else, a URI adds a segment with the duration that was said since the last one, and any
/// other line adds nothing.
pub proof fn law_each_line_of_a_media_playlist_says_one_thing(
    lines: Seq<Seq<char>>,
    base: Seq<char>,
    rest: Seq<char>,
    uri: Seq<char>,
    other: Seq<char>,
)
    requires
        uri.len() > 0 && uri[0] != '#',
        other.len() == 0 || other[0] == '#',
        !text::begins_with(other, "#EXT-X-MEDIA-SEQUENCE:"@),
        !text::begins_with(other, "#EXT-X-TARGETDURATION:"@),
        !text::begins_with(other, "#EXT-X-ENDLIST"@),
        !text::begins_with(other, "#EXTINF:"@),
    ensures
        ({
            let said = media_lines(lines, base);
            &&& media_lines(lines.push("#EXT-X-MEDIA-SEQUENCE:"@ + rest), base) == (MediaView {
                media_sequence: leading_integer(rest),
                ..said
            })
            &&& media_lines(lines.push("#EXT-X-TARGETDURATION:"@ + rest), base) == (MediaView {
                target_duration: leading_numeral(rest),
                ..said
            })
            &&& media_lines(lines.push("#EXT-X-ENDLIST"@ + rest), base) == (MediaView {
                is_end_list: true,
                ..said
            })
            &&& media_lines(lines.push("#EXTINF:"@ + rest), base) == (MediaView {
                next_duration: leading_numeral(rest),
                ..said
            })
            &&& media_lines(lines.push(uri), base) == (MediaView {
                segments: said.segments.push((resolved(base, uri), said.next_duration)),
                next_duration: "0"@,
                ..said
            })
            &&& media_lines(lines.push(other), base) == said
        }),
        media_lines(Seq::empty(), base) == (MediaView {
            segments: Seq::empty(),
            media_sequence: 0,
            target_duration: "6"@,
            is_end_list: false,
            next_duration: "0"@,
        }),
{
    let a = "#EXT-X-MEDIA-SEQUENCE:"@ + rest;
    let b = "#EXT-X-TARGETDURATION:"@ + rest;
    let c = "#EXT-X-ENDLIST"@ + rest;
    let d = "#EXTINF:"@ + rest;
    lemma_after_tag("#EXT-X-MEDIA-SEQUENCE:"@, rest);
    lemma_after_tag("#EXT-X-TARGETDURATION:"@, rest);
    lemma_after_tag("#EXT-X-ENDLIST"@, rest);
    lemma_after_tag("#EXTINF:"@, rest);
    reveal_strlit("#EXT-X-MEDIA-SEQUENCE:");
    reveal_strlit("#EXT-X-TARGETDURATION:");
    reveal_strlit("#EXT-X-ENDLIST");
    reveal_strlit("#EXTINF:");
    assert(lines.push(a).drop_last() =~= lines);
    assert(lines.push(b).drop_last() =~= lines);
    assert(lines.push(c).drop_last() =~= lines);
    assert(lines.push(d).drop_last() =~= lines);
    assert(lines.push(uri).drop_last() =~= lines);
    assert(lines.push(other).drop_last() =~= lines);
    lemma_tags_differ(b, 7, 'T');
    lemma_tags_differ(c, 7, 'E');
    assert(!text::begins_with(d, "#EXT-X-MEDIA-SEQUENCE:"@)) by {
        if text::begins_with(d, "#EXT-X-MEDIA-SEQUENCE:"@) {
            assert(d.take("#EXT-X-MEDIA-SEQUENCE:"@.len() as int)[4] == d[4]);
        }
    }
    assert(!text::begins_with(d, "#EXT-X-TARGETDURATION:"@)) by {
        if text::begins_with(d, "#EXT-X-TARGETDURATION:"@) {
            assert(d.take("#EXT-X-TARGETDURATION:"@.len() as int)[4] == d[4]);
        }
    }
    assert(!text::begins_with(d, "#EXT-X-ENDLIST"@)) by {
        if text::begins_with(d, "#EXT-X-ENDLIST"@) {
            assert(d.take("#EXT-X-ENDLIST"@.len() as int)[4] == d[4]);
        }
    }
    lemma_tags_are_no_uris(uri);
    assert(is_uri_line(uri));
    assert(!is_uri_line(other));
}

proof fn lemma_after_tag(tag: Seq<char>, rest: Seq<char>)
    ensures
        text::begins_with(tag + rest, tag),
        (tag + rest).skip(tag.len() as int) == rest,
{
    assert((tag + rest).take(tag.len() as int) =~= tag);
    assert((tag + rest).skip(tag.len() as int) =~= rest);
}

/// A line with another character at a position is none of the tags with theirs there.
proof fn lemma_tags_differ(line: Seq<char>, at: int, c: char)
    requires
        at == 7,
        line.len() > at,
        line[at] == c,
    ensures
        c != 'M' ==> !text::begins_with(line, "#EXT-X-MEDIA-SEQUENCE:"@),
        c != 'T' ==> !text::begins_with(line, "#EXT-X-TARGETDURATION:"@),
        c != 'E' ==> !text::begins_with(line, "#EXT-X-ENDLIST"@),
{
    reveal_strlit("#EXT-X-MEDIA-SEQUENCE:");
    reveal_strlit("#EXT-X-TARGETDURATION:");
    reveal_strlit("#EXT-X-ENDLIST");
    if text::begins_with(line, "#EXT-X-MEDIA-SEQUENCE:"@) {
        assert(line.take("#EXT-X-MEDIA-SEQUENCE:"@.len() as int)[at] == line[at]);
    }
    if text::begins_with(line, "#EXT-X-TARGETDURATION:"@) {
        assert(line.take("#EXT-X-TARGETDURATION:"@.len() as int)[at] == line[at]);
    }
    if text::begins_with(line, "#EXT-X-ENDLIST"@) {
        assert(line.take("#EXT-X-ENDLIST"@.len() as int)[at] == line[at]);
    }
}

/// What a media playlist says is what its lines say, and it gives a target duration if and only if
/// one of them does.
pub proof fn law_a_media_playlist_says_what_its_lines_say(
    text: Seq<char>,
    base: Seq<char>,
    at: int,
    rest: Seq<char>,
)
    ensures
        media_of(text, base) == media_lines(playlist_lines(text), base),
        0 <= at < playlist_lines(text).len() && playlist_lines(text)[at]
            == "#EXT-X-TARGETDURATION:"@ + rest ==> gives_target(text),
        (forall|i: int|
            0 <= i < playlist_lines(text).len() ==> !text::begins_with(
                #[trigger] playlist_lines(text)[i],
                "#EXT-X-TARGETDURATION:"@,
            )) ==> !gives_target(text),
{
    lemma_after_tag("#EXT-X-TARGETDURATION:"@, rest);
    if 0 <= at < playlist_lines(text).len() && playlist_lines(text)[at]
        == "#EXT-X-TARGETDURATION:"@ + rest {
        assert(text::begins_with(playlist_lines(text)[at], "#EXT-X-TARGETDURATION:"@));
    }
}

/// The directory of a URL ends with its last slash before the query; without a slash it is all that
/// stands before the query.
pub proof fn law_a_directory_ends_with_the_last_slash(
    directory: Seq<char>,
    file: Seq<char>,
    query: Seq<char>,
)
    requires
        forall|i: int| 0 <= i < directory.len() ==> #[trigger] directory[i] != '?',
        forall|i: int| 0 <= i < file.len() ==> #[trigger] file[i] != '/' && file[i] != '?',
        directory.len() > 0 ==> directory[directory.len() - 1] == '/',
        query.len() > 0 ==> query[0] == '?',
    ensures
        directory_of(directory + file + query) == (if directory.len() > 0 {
            directory
        } else {
            file
        }),
{
    let front = directory + file;
    assert(forall|i: int| 0 <= i < front.len() ==> #[trigger] front[i] != '?');
    assert(directory + file + query =~= front + query);
    lemma_before_query(front, query);
    text::lemma_end_of_last_char(front, '/');
    let end = text::end_of_last_char(front, '/');
    if directory.len() > 0 {
        assert(front[directory.len() - 1] == '/');
        if end > directory.len() {
            assert(front[end - 1] == file[end - 1 - directory.len()]);
        }
        assert(front.take(end) =~= directory);
    } else {
        assert(front =~= file);
        if end > 0 {
            assert(front[end - 1] == file[end - 1]);
        }
    }
}

/// Where a URL has its directory before its query and a scheme anywhere, a relative URI is put behind
/// that directory.
pub proof fn law_a_relative_uri_is_put_behind_the_directory(base: Seq<char>, uri: Seq<char>)
    requires
        !text::occurs(uri, "://"@),
        uri.len() == 0 || uri[0] != '/',
        text::first_occurrence(base, "://"@) matches Some(at) && has_path(base, at),
    ensures
        resolved(base, uri) == directory_of(base) + uri,
{
    reveal_strlit("//");
    if text::begins_with(uri, "//"@) {
        assert(uri.take(2)[0] == '/');
    }
}

/// Variants, segments and playlists say what their fields hold, each its own and in order.
pub proof fn law_playlists_say_what_they_hold(
    variants: Seq<Variant>,
    segments: Seq<Segment>,
    playlist: MediaPlaylist,
    said: MediaView,
)
    ensures
        variant_views(variants).len() == variants.len(),
        forall|i: int|
            0 <= i < variants.len() ==> #[trigger] variant_views(variants)[i] == (
                variants[i].uri@,
                variants[i].bandwidth as int,
            ),
        segment_views(segments).len() == segments.len(),
        forall|i: int|
            0 <= i < segments.len() ==> #[trigger] segment_views(segments)[i] == (
                segments[i].uri@,
                segments[i].duration@,
            ),
        playlist.says(said) ==> playlist.segments@.len() == said.segments.len()
            && playlist.media_sequence == said.media_sequence && playlist.target_duration@
            == said.target_duration && playlist.is_end_list == said.is_end_list,
        playlist.says(said) ==> segment_views(playlist.segments@) == said.segments,
{
    if playlist.says(said) {
        assert(segment_views(playlist.segments@).len() == playlist.segments@.len());
    }
}

/// A playlist can be read if each of its URIs resolves, and not otherwise: in a master playlist those
/// of its variants, in a media playlist those of its lines.
pub proof fn law_a_playlist_can_be_read_if_its_uris_resolve(text: Seq<char>, base: Seq<char>, at: int)
    ensures
        master_resolvable(text, base) && 0 <= at < variant_lines(playlist_lines(text)).len()
            ==> resolvable(base, variant_lines(playlist_lines(text))[at].1),
        (forall|i: int|
            0 <= i < variant_lines(playlist_lines(text)).len() ==> resolvable(
                base,
                (#[trigger] variant_lines(playlist_lines(text))[i]).1,
            )) ==> master_resolvable(text, base),
        media_resolvable(text, base) && 0 <= at < playlist_lines(text).len() && is_uri_line(
            playlist_lines(text)[at],
        ) ==> resolvable(base, playlist_lines(text)[at]),
        (forall|i: int|
            0 <= i < playlist_lines(text).len() && is_uri_line(#[trigger] playlist_lines(text)[i])
                ==> resolvable(base, playlist_lines(text)[i])) ==> media_resolvable(text, base),
{
}

/// A URI that is a whole URL, one that begins with a slash, and any URI against a base that does
/// not begin with its query, resolve. A relative URI does not resolve against a base that begins
/// with its query and has a path.
pub proof fn law_only_a_base_without_a_directory_refuses(base: Seq<char>, uri: Seq<char>)
    ensures
        resolvable(base, "/"@ + uri),
        text::occurs(uri, "://"@) ==> resolvable(base, uri),
        base.len() > 0 && base[0] != '?' ==> resolvable(base, uri),
        !text::occurs(base, "://"@) ==> resolvable(base, uri),
        ({
            &&& base.len() > 0 && base[0] == '?'
            &&& text::first_occurrence(base, "://"@) matches Some(scheme_end) && has_path(
                base,
                scheme_end,
            )
            &&& !text::occurs(uri, "://"@)
            &&& !(uri.len() > 0 && uri[0] == '/')
        }) ==> !resolvable(base, uri),
{
    reveal_strlit("/");
    assert(("/"@ + uri)[0] == '/');
    text::lemma_first_occurrence(base, "://"@);
}

} // verus!
