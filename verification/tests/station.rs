//! What is shown of a station.

use rworldradio::station::Station;

#[test]
fn labels_hold_what_is_known() {
    let mut station = Station::default();
    assert_eq!(station.codec_bitrate_label(), "");
    station.codec = "MP3".into();
    assert_eq!(station.codec_bitrate_label(), "MP3");
    station.bitrate = 128;
    assert_eq!(station.codec_bitrate_label(), "MP3 128kbps");
    station.codec = String::new();
    assert_eq!(station.codec_bitrate_label(), "128kbps");
    station.bitrate = -5;
    assert_eq!(station.codec_bitrate_label(), "");
}

#[test]
fn details_list_everything_that_is_known() {
    let mut station = Station {
        name: "Radio Ä".into(),
        url: "http://a/".into(),
        country: "Germany".into(),
        codec: "AAC".into(),
        bitrate: 64,
        language: "german".into(),
        ..Station::default()
    };
    assert_eq!(station.details(), "Radio Ä\nAAC 64kbps - german\nGermany\nhttp://a/");
    station.has_location = true;
    station.lat = "52.500".into();
    station.lon = "13.400".into();
    assert_eq!(
        station.details(),
        "Radio Ä\nAAC 64kbps - german\nGermany (52.500, 13.400)\nhttp://a/"
    );
    let bare = Station { name: "n".into(), url: "u".into(), language: "l".into(), ..Station::default() };
    assert_eq!(bare.details(), "n\nl\nu");
    let nothing = Station { name: "n".into(), url: "u".into(), ..Station::default() };
    assert_eq!(nothing.details(), "n\nu");
}

#[test]
fn a_clone_says_the_same() {
    let station = Station {
        name: "n".into(),
        lat: "1.000".into(),
        has_location: true,
        bitrate: 3,
        ..Station::default()
    };
    let copy = station.clone();
    assert_eq!(format!("{copy:?}"), format!("{station:?}"));
}
