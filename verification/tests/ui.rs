//! What the window shows.

use rworldradio::player::PlayerEvent;
use rworldradio::station::Station;
use rworldradio::station_cache::{CountryTable, LoadResult};
use rworldradio::ui::{visible, PlaybackState, RadioModel};

fn station(name: &str) -> Station {
    Station {
        name: name.into(),
        url: "u".into(),
        codec: "MP3".into(),
        bitrate: 64,
        ..Station::default()
    }
}

fn loaded() -> LoadResult {
    let mut by_country = CountryTable::new();
    by_country.insert("Japan".into(), vec![station("NHK"), station("ÄRADIO")]);
    by_country.insert("Chad".into(), vec![station("One")]);
    LoadResult { by_country, warning: Some("1 country file skipped: x".into()), data_dir: "/d".into() }
}

fn model() -> RadioModel {
    let mut model = RadioModel::new();
    model.poll_load(Ok(loaded()));
    model
}

#[test]
fn nothing_is_listed_before_the_load() {
    let model = RadioModel::new();
    assert_eq!(model.status, "Loading stations...");
    assert_eq!(model.now_playing, "Stopped");
    assert_eq!(model.selected_country_name(), None);
    assert!(model.stations_of_selected_country().is_empty());
    assert!(model.visible_countries().is_empty());
}

#[test]
fn the_load_selects_the_first_country() {
    let model = model();
    assert_eq!(model.status, "2 countries, 3 stations");
    assert_eq!(model.status_detail, "Loaded from /d\n1 country file skipped: x");
    assert_eq!(model.selected_country_name(), Some("Chad"));
    assert_eq!(model.stations_of_selected_country().len(), 1);
    assert!(!model.can_play());
}

#[test]
fn a_failed_load_is_told() {
    let mut model = RadioModel::new();
    model.poll_load(Err("why".into()));
    assert_eq!(model.status, "Failed to load stations");
    assert_eq!(model.status_detail, "why");
}

#[test]
fn a_load_without_a_warning_has_a_short_detail() {
    let mut model = RadioModel::new();
    model.poll_load(Ok(LoadResult { warning: None, ..loaded() }));
    assert_eq!(model.status_detail, "Loaded from /d");
}

#[test]
fn filters_ignore_the_case_of_letters() {
    let mut model = model();
    model.country_filter = "PAN".into();
    assert_eq!(model.visible_countries(), vec![1]);
    model.country_filter = String::new();
    assert_eq!(model.visible_countries(), vec![0, 1]);
    model.click_country(1);
    model.station_filter = "ä".into();
    assert_eq!(model.visible_stations(), vec![1]);
    model.station_filter = "x".into();
    assert!(model.visible_stations().is_empty());
}

#[test]
fn filters_show_what_holds_them() {
    let names = vec!["alpha".to_string(), "beta".to_string(), "gamma".to_string()];
    assert_eq!(visible(&names, "a"), vec![0, 1, 2]);
    assert_eq!(visible(&names, "ma"), vec![2]);
    assert_eq!(visible(&names, ""), vec![0, 1, 2]);
    assert!(visible(&names, "A").is_empty());
}

#[test]
fn another_country_is_shown_from_its_beginning() {
    let mut model = model();
    model.station_filter = "o".into();
    model.click_station(0);
    // The same country again changes nothing.
    model.click_country(0);
    assert_eq!(model.selected_station, Some(0));
    assert_eq!(model.station_filter, "o");
    model.click_country(1);
    assert_eq!(model.selected_country_name(), Some("Japan"));
    assert_eq!(model.selected_station, None);
    assert_eq!(model.station_filter, "");
}

#[test]
fn the_selected_station_is_played() {
    let mut model = model();
    assert!(model.play_selected().is_none());
    model.click_station(5);
    assert!(model.play_selected().is_none());
    model.click_station(0);
    assert!(model.can_play());
    assert_eq!(model.play_selected().unwrap().name, "One");
    assert_eq!(model.current_station.as_ref().unwrap().name, "One");
    // The format is shown once it plays.
    assert_eq!(model.format_label(), None);
    model.poll_events(PlayerEvent::Playing { station: "One".into() });
    assert_eq!(model.format_label().as_deref(), Some("MP3 64kbps"));
    let bare = model.play(Station::default());
    assert_eq!(bare.name, "");
    assert_eq!(model.format_label(), None);
}

#[test]
fn the_player_is_told_of() {
    let mut model = model();
    model.poll_events(PlayerEvent::Connecting { station: "S".into() });
    assert_eq!(model.now_playing, "Connecting: S");
    assert!(model.wants_repaint());
    assert!(!model.can_stop());
    model.poll_events(PlayerEvent::Playing { station: "S".into() });
    assert_eq!(model.now_playing, "Now Playing: S");
    assert!(model.wants_repaint());
    assert!(model.can_stop());
    model.poll_events(PlayerEvent::Error { station: "S".into(), detail: "d".into() });
    assert_eq!(model.now_playing, "Error (S): d");
    assert!(model.has_failed());
    assert!(!model.wants_repaint());
    model.poll_events(PlayerEvent::Stopped);
    assert_eq!(model.now_playing, "Stopped");
    assert_eq!(model.playback, PlaybackState::Idle);
}
