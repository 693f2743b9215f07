//! The playlist parser.

use rworldradio::m3u8::{
    extract_int_attribute, gives_target_duration, is_master_playlist, master_resolves,
    media_resolves, parse_leading_i64, parse_leading_numeral, parse_master_playlist, parse_media_playlist, resolve_url, MediaPlaylist,
    Segment, Variant,
};

// Real playlists captured from BBC Radio 1's live HLS feed.
const MASTER_URL: &str = "http://as-hls-ww-live.akamaized.net/pool_01505109/live/ww/\
bbc_radio_one/bbc_radio_one.isml/bbc_radio_one.m3u8";

const MASTER_PLAYLIST: &str = "#EXTM3U\n\
#EXT-X-VERSION:3\n\
## Created with Unified Streaming Platform  (version=1.13.5-30103)\n\
\n\
# variants\n\
#EXT-X-STREAM-INF:BANDWIDTH=56000,AVERAGE-BANDWIDTH=51000,CODECS=\"mp4a.40.5\"\n\
bbc_radio_one-audio=48000.m3u8\n\
#EXT-X-STREAM-INF:BANDWIDTH=112000,AVERAGE-BANDWIDTH=102000,CODECS=\"mp4a.40.5\"\n\
bbc_radio_one-audio=96000.m3u8\n\
#EXT-X-STREAM-INF:BANDWIDTH=150000,AVERAGE-BANDWIDTH=136000,CODECS=\"mp4a.40.2\"\n\
bbc_radio_one-audio=128000.m3u8\n\
#EXT-X-STREAM-INF:BANDWIDTH=374000,AVERAGE-BANDWIDTH=340000,CODECS=\"mp4a.40.2\"\n\
bbc_radio_one-audio=320000.m3u8\n";

const MEDIA_URL: &str = "http://as-hls-ww-live.akamaized.net/pool_01505109/live/ww/\
bbc_radio_one/bbc_radio_one.isml/bbc_radio_one-audio=320000.m3u8";

const MEDIA_PLAYLIST: &str = "#EXTM3U\n\
#EXT-X-VERSION:3\n\
#EXT-X-MEDIA-SEQUENCE:278793294\n\
#EXT-X-INDEPENDENT-SEGMENTS\n\
#EXT-X-TARGETDURATION:6\n\
#USP-X-TIMESTAMP-MAP:MPEGTS=4700405152,LOCAL=2026-07-17T08:31:15.200000Z\n\
#EXT-X-PROGRAM-DATE-TIME:2026-07-17T08:31:15.200000Z\n\
#EXTINF:6.4, no desc\n\
bbc_radio_one-audio=320000-278793294.ts\n\
#EXTINF:6.4, no desc\n\
bbc_radio_one-audio=320000-278793295.ts\n\
#EXTINF:6.4, no desc\n\
bbc_radio_one-audio=320000-278793296.ts\n";

#[test]
fn distinguishes_master_from_media() {
    assert!(is_master_playlist(MASTER_PLAYLIST));
    assert!(!is_master_playlist(MEDIA_PLAYLIST));
}

#[test]
fn parses_master_variants_with_relative_uris() {
    let variants = parse_master_playlist(MASTER_PLAYLIST, MASTER_URL);
    assert_eq!(variants.len(), 4);
    assert_eq!(variants[3].bandwidth, 374000);
    assert_eq!(
        variants[3].uri,
        "http://as-hls-ww-live.akamaized.net/pool_01505109/live/ww/\
bbc_radio_one/bbc_radio_one.isml/bbc_radio_one-audio=320000.m3u8"
    );
}

#[test]
fn parses_live_media_playlist() {
    let playlist = parse_media_playlist(MEDIA_PLAYLIST, MEDIA_URL);
    assert_eq!(playlist.segments.len(), 3);
    assert_eq!(playlist.media_sequence, 278793294);
    assert_eq!(playlist.target_duration.parse::<f64>().unwrap(), 6.0);
    assert!(!playlist.is_end_list);
    assert_eq!(playlist.segments[0].duration.parse::<f64>().unwrap(), 6.4);
    assert_eq!(
        playlist.segments[0].uri,
        "http://as-hls-ww-live.akamaized.net/pool_01505109/live/ww/\
bbc_radio_one/bbc_radio_one.isml/bbc_radio_one-audio=320000-278793294.ts"
    );
}

#[test]
fn resolves_the_three_uri_shapes() {
    let base = "https://host.example/a/b/playlist.m3u8";
    assert_eq!(
        resolve_url(base, "https://other.example/x.ts"),
        "https://other.example/x.ts"
    );
    assert_eq!(resolve_url(base, "/root.ts"), "https://host.example/root.ts");
    // Protocol-relative: keep the scheme, replace the host.
    assert_eq!(
        resolve_url("http://ls.qingting.fm/live/4025.m3u8", "//cdn.example/a/b.aac"),
        "http://cdn.example/a/b.aac"
    );
    assert_eq!(
        resolve_url(base, "//cdn.example/a/b.aac"),
        "https://cdn.example/a/b.aac"
    );
    assert_eq!(
        resolve_url(base, "seg.ts"),
        "https://host.example/a/b/seg.ts"
    );
    assert_eq!(
        resolve_url("https://host.example", "seg.ts"),
        "https://host.example/seg.ts"
    );
    // A query string on the playlist URL must not be mistaken for a path.
    assert_eq!(
        resolve_url("https://host.example/a/list.m3u8?t=1/2", "seg.ts"),
        "https://host.example/a/seg.ts"
    );
}

#[test]
fn endlist_is_detected() {
    let playlist = parse_media_playlist(
        "#EXTM3U\n#EXTINF:4.0,\na.ts\n#EXT-X-ENDLIST\n",
        "https://host.example/v/list.m3u8",
    );
    assert!(playlist.is_end_list);
    assert_eq!(playlist.segments.len(), 1);
}

#[test]
fn a_base_without_a_scheme_leaves_uris_alone() {
    assert_eq!(resolve_url("playlist.m3u8", "seg.ts"), "seg.ts");
    assert_eq!(resolve_url("", "/seg.ts"), "/seg.ts");
}

#[test]
fn resolving_again_changes_nothing() {
    let base = "https://host.example/a/list.m3u8?t=1/2";
    let url = resolve_url(base, "b/seg.ts");
    assert_eq!(url, "https://host.example/a/b/seg.ts");
    assert_eq!(resolve_url(base, &url), url);
    assert_eq!(resolve_url("http://other/x/y", &url), url);
    assert_eq!(resolve_url("no base", &url), url);
}

#[test]
fn only_a_base_that_is_all_query_is_unusable() {
    let media = "#EXTM3U\na.ts\n";
    assert!(media_resolves(media, "https://host.example/a?b"));
    assert!(media_resolves(media, ""));
    assert!(!media_resolves(media, "?x=http://host/a"));
    // Its directory is asked for only by a relative URI, and only where there is a path.
    assert!(media_resolves("/a.ts\nhttp://h/b.ts\n//h/c.ts\n", "?x=http://host/a"));
    assert!(media_resolves(media, "?x=http://host"));
    let playlist = parse_media_playlist("/a.ts\n", "?x=http://host/a");
    assert_eq!(playlist.segments[0].uri, "?x=http://host/a.ts");

    let master = "low.m3u8\n#EXT-X-STREAM-INF:BANDWIDTH=1\n\n/high.m3u8\n";
    assert!(master_resolves(master, "?x=http://host/a"));
    let variants = parse_master_playlist(master, "?x=http://host/a");
    assert_eq!(variants[0].uri, "?x=http://host/high.m3u8");
    assert!(!master_resolves("#EXT-X-STREAM-INF:BANDWIDTH=1\nlow.m3u8\n", "?x=http://host/a"));
    assert!(master_resolves("#EXT-X-STREAM-INF:BANDWIDTH=1\nlow.m3u8\n", "http://host/a"));
}

fn chars(text: &str) -> Vec<char> {
    text.chars().collect()
}

#[test]
fn leading_integers_are_read_up_to_the_first_other_character() {
    assert_eq!(parse_leading_i64(&chars("278793294\r")), 278793294);
    assert_eq!(parse_leading_i64(&chars("-12abc")), -12);
    assert_eq!(parse_leading_i64(&chars("abc")), 0);
    assert_eq!(parse_leading_i64(&chars("")), 0);
    assert_eq!(parse_leading_i64(&chars("9223372036854775807")), i64::MAX);
    assert_eq!(parse_leading_i64(&chars("9223372036854775808")), 0);
    assert_eq!(parse_leading_i64(&chars("-9223372036854775808")), i64::MIN);
}

#[test]
fn leading_numerals_are_read_up_to_the_first_other_character() {
    assert_eq!(parse_leading_numeral(&chars("6.4, no desc")), "6.4");
    assert_eq!(parse_leading_numeral(&chars("12")), "12");
    assert_eq!(parse_leading_numeral(&chars("x")), "");
}

#[test]
fn an_attribute_is_read_by_its_key() {
    let line = chars("#EXT-X-STREAM-INF:BANDWIDTH=56000,CODECS=\"mp4a.40.5\"");
    assert_eq!(extract_int_attribute(&line, "BANDWIDTH"), 56000);
    assert_eq!(extract_int_attribute(&line, "FRAMES"), 0);
}

#[test]
fn a_playlist_without_tags_has_the_default_target_duration() {
    let playlist = parse_media_playlist("a.ts\r\n\r\n# comment\r\nb.ts", "http://h/p/l.m3u8");
    assert_eq!(playlist.target_duration, "6");
    assert_eq!(playlist.segments.len(), 2);
    assert_eq!(playlist.segments[0].uri, "http://h/p/a.ts");
    assert_eq!(playlist.segments[1].uri, "http://h/p/b.ts");
    assert_eq!(MediaPlaylist::default().target_duration, "6");
    assert!(MediaPlaylist::default().segments.is_empty());
}

#[test]
fn a_variant_without_a_uri_is_dropped() {
    let text = "#EXT-X-STREAM-INF:BANDWIDTH=1\n# comment\na.m3u8\n#EXT-X-STREAM-INF:BANDWIDTH=2\n";
    let variants = parse_master_playlist(text, "http://h/l.m3u8");
    assert_eq!(variants.len(), 1);
    assert_eq!(variants[0].uri, "http://h/a.m3u8");
    assert_eq!(variants[0].bandwidth, 1);
}

#[test]
fn a_slash_in_the_query_is_no_path() {
    let base = "https://host.example?token=a/b";
    assert_eq!(resolve_url(base, "seg.ts"), "https://host.example/seg.ts");
    assert_eq!(resolve_url(base, "/root.ts"), "https://host.example/root.ts");
    assert_eq!(resolve_url(base, "//cdn.example/x"), "https://cdn.example/x");
    assert_eq!(resolve_url("https://host.example?x=1", "seg.ts"), "https://host.example/seg.ts");
    assert_eq!(
        resolve_url("https://host.example/a/l.m3u8?u=http://x/y", "/root.ts"),
        "https://host.example/root.ts"
    );
    assert_eq!(
        resolve_url("https://host.example/a/l.m3u8?u=http://x/y", "seg.ts"),
        "https://host.example/a/seg.ts"
    );
}

#[test]
fn a_target_duration_is_told_from_its_default() {
    assert!(gives_target_duration(MEDIA_PLAYLIST));
    assert!(!gives_target_duration("#EXTM3U\n#EXTINF:4.0,\na.ts\n"));
    assert!(!gives_target_duration(" #EXT-X-TARGETDURATION:6\n"));
}

#[test]
fn default_entries_are_empty() {
    assert_eq!(Variant::default().uri, "");
    assert_eq!(Variant::default().bandwidth, 0);
    assert_eq!(Segment::default().uri, "");
    assert_eq!(Segment::default().duration.parse::<f64>().unwrap(), 0.0);
}

#[test]
fn what_follows_a_leading_number_is_ignored() {
    assert_eq!(parse_leading_i64(&chars(" 12-34")), 12);
    assert_eq!(parse_leading_i64(&chars("+7+")), 7);
    assert_eq!(parse_leading_i64(&chars("+-5")), 0);
    assert_eq!(parse_leading_i64(&chars("-")), 0);
    assert_eq!(parse_leading_numeral(&chars("6.4.2")), "6.4");
    assert_eq!(parse_leading_numeral(&chars("6.4-1")), "6.4");
    assert_eq!(parse_leading_numeral(&chars("-.5,")), "-.5");
    assert_eq!(parse_leading_numeral(&chars("6.")), "6.");
}
