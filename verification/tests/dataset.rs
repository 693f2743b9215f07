//! The station list and its records.

use rworldradio::dataset::{
    as_bool, as_numeral, as_string, country_record, country_records, parse_country_index,
    parse_country_stations, read_country_index, read_country_stations, station_record,
    station_records, CountryEntry, CountryFields, StationFields, StationRecord,
};
use rworldradio::json::Field;
use rworldradio::station::Station;

fn number(numeral: Option<&str>) -> Option<f64> {
    numeral.and_then(|text| text.parse::<f64>().ok())
}

fn station_of(record: StationRecord) -> Station {
    let bitrate = number(record.bitrate.as_deref()).unwrap_or(0.0) as i32;
    let location = match (number(record.lat.as_deref()), number(record.lon.as_deref())) {
        (Some(lat), Some(lon)) => Some((format!("{lat:.3}"), format!("{lon:.3}"))),
        _ => None,
    };
    record.station(bitrate, location)
}

#[test]
fn parses_country_index_and_skips_incomplete_entries() {
    let json = r#"[
        {"name": "Germany", "file": "germany.json", "count": 3},
        {"name": "", "file": "broken.json", "count": 1},
        {"file": "nameless.json"},
        {"name": "Japan", "file": "japan.json", "count": "42"}
    ]"#;
    let entries: Vec<_> = parse_country_index(json)
        .unwrap()
        .into_iter()
        .map(|record| {
            let count = number(record.count.as_deref()).unwrap_or(0.0) as i32;
            record.entry(count)
        })
        .collect();
    assert_eq!(entries.len(), 2);
    assert_eq!(entries[0].name, "Germany");
    assert_eq!(entries[0].count, 3);
    // count arriving as a string is still accepted
    assert_eq!(entries[1].count, 42);
}

#[test]
fn parses_stations_with_null_location_and_resolve_flag() {
    let json = r#"[
        {"name": "A", "url": "http://a/", "codec": "MP3", "bitrate": 128,
         "needsResolve": false, "lat": null, "lon": null, "language": "german"},
        {"name": "B", "url": "http://b/", "codec": "AAC", "bitrate": 0,
         "needsResolve": true, "lat": 52.5, "lon": 13.4, "language": ""},
        {"name": "no url", "url": "", "codec": "MP3"}
    ]"#;
    let stations: Vec<Station> = parse_country_stations(json, "Germany")
        .unwrap()
        .into_iter()
        .map(station_of)
        .collect();
    assert_eq!(stations.len(), 2);

    assert_eq!(stations[0].country, "Germany");
    assert!(!stations[0].has_location);
    assert!(!stations[0].needs_tunein_resolve);
    assert_eq!(stations[0].codec_bitrate_label(), "MP3 128kbps");

    assert!(stations[1].has_location);
    assert!(stations[1].needs_tunein_resolve);
    assert_eq!(stations[1].codec_bitrate_label(), "AAC");
    assert_eq!(stations[1].lat, "52.500");
    assert_eq!(stations[1].lon, "13.400");
}

#[test]
fn unknown_codec_is_not_shown() {
    let station = Station {
        codec: "UNKNOWN".into(),
        bitrate: 96,
        ..Station::default()
    };
    assert_eq!(station.codec_bitrate_label(), "96kbps");
}

#[test]
fn playback_url_prefers_resolved() {
    let mut station = Station {
        url: "http://raw/".into(),
        ..Station::default()
    };
    assert_eq!(station.playback_url(), "http://raw/");
    station.url_resolved = "http://resolved/".into();
    assert_eq!(station.playback_url(), "http://resolved/");
}

#[test]
fn a_document_that_is_no_array_holds_nothing() {
    assert!(parse_country_index("{\"name\": \"Germany\"}").unwrap().is_empty());
    assert!(parse_country_stations("null", "Germany").unwrap().is_empty());
}

#[test]
fn a_broken_document_is_told_in_the_words_of_the_parser() {
    let expected = serde_json::from_str::<serde_json::Value>("[1,").unwrap_err().to_string();
    assert_eq!(parse_country_index("[1,").unwrap_err(), expected);
    assert_eq!(parse_country_stations("[1,", "x").unwrap_err(), expected);
}

#[test]
fn items_that_are_no_objects_are_skipped() {
    let json = r#"[1, "x", [], null, {"name": 7, "file": "f", "count": true}]"#;
    let records = parse_country_index(json).unwrap();
    assert_eq!(records.len(), 1);
    // A number counts as a text, and a truth value as no number.
    assert_eq!(records[0].name, "7");
    assert_eq!(records[0].count, None);
}

#[test]
fn numbers_keep_their_value_as_numerals() {
    let json = r#"[{"name": "n", "url": "u", "bitrate": -3, "lat": 1.5e2, "lon": 18446744073709551615}]"#;
    let records = parse_country_stations(json, "x").unwrap();
    assert_eq!(number(records[0].bitrate.as_deref()), Some(-3.0));
    assert_eq!(number(records[0].lat.as_deref()), Some(150.0));
    assert_eq!(number(records[0].lon.as_deref()), Some(18446744073709551615.0));
}

#[test]
fn fields_are_read_with_tolerance() {
    assert_eq!(as_string(&Field::Text("a".into())), "a");
    assert_eq!(as_string(&Field::Number("1.5".into())), "1.5");
    assert_eq!(as_string(&Field::Bool(true)), "");
    assert_eq!(as_string(&Field::Missing), "");
    assert_eq!(as_numeral(&Field::Text("  12 ".into())), Some("12".into()));
    assert_eq!(as_numeral(&Field::Number("12".into())), Some("12".into()));
    assert_eq!(as_numeral(&Field::Other), None);
    assert!(as_bool(&Field::Bool(true)));
    assert!(!as_bool(&Field::Bool(false)));
    assert!(!as_bool(&Field::Text("true".into())));
}

#[test]
fn a_record_needs_its_name() {
    let text = |s: &str| Field::Text(s.into());
    let country = |name: Field, file: Field, count: Field| CountryFields { name, file, count };
    assert!(country_record(&country(text(""), text("f"), Field::Missing)).is_none());
    assert!(country_record(&country(text("n"), Field::Other, Field::Missing)).is_none());
    let record = country_record(&country(text("n"), text("f"), text("3"))).unwrap();
    assert_eq!((record.name.as_str(), record.file.as_str()), ("n", "f"));
    assert_eq!(record.count.as_deref(), Some("3"));

    let mut fields = StationFields {
        name: text("n"),
        url: text("u"),
        url_resolved: Field::Missing,
        codec: text("MP3"),
        bitrate: Field::Number("64".into()),
        language: Field::Other,
        needs_resolve: Field::Bool(true),
        lat: Field::Missing,
        lon: Field::Missing,
    };
    let record = station_record(&fields, "Japan").unwrap();
    assert_eq!(record.country, "Japan");
    assert_eq!(record.language, "");
    assert!(record.needs_tunein_resolve);
    fields.url = Field::Missing;
    assert!(station_record(&fields, "Japan").is_none());
}

#[test]
fn a_default_entry_is_empty() {
    let entry = CountryEntry::default();
    assert_eq!((entry.name.as_str(), entry.file.as_str(), entry.count), ("", "", 0));
}

#[test]
fn the_records_of_a_list_come_in_its_order() {
    let country = |name: &str| {
        Some(CountryFields {
            name: Field::Text(name.into()),
            file: Field::Text("f".into()),
            count: Field::Missing,
        })
    };
    let records = country_records(&vec![country("B"), None, country(""), country("A")]);
    let names: Vec<&str> = records.iter().map(|record| record.name.as_str()).collect();
    assert_eq!(names, ["B", "A"]);

    let station = |name: &str| {
        Some(StationFields {
            name: Field::Text(name.into()),
            url: Field::Text("u".into()),
            url_resolved: Field::Missing,
            codec: Field::Missing,
            bitrate: Field::Missing,
            language: Field::Missing,
            needs_resolve: Field::Missing,
            lat: Field::Missing,
            lon: Field::Missing,
        })
    };
    let records = station_records(&vec![None, station("B"), station(""), station("A")], "Japan");
    let names: Vec<&str> = records.iter().map(|record| record.name.as_str()).collect();
    assert_eq!(names, ["B", "A"]);
    assert!(records.iter().all(|record| record.country == "Japan"));
}

#[test]
fn a_parsed_document_is_read() {
    let parse = |json: &str| serde_json::from_str::<serde_json::Value>(json).unwrap();
    let records = read_country_index(parse(r#"[{"name": "A", "file": "f"}, 1]"#));
    assert_eq!(records.len(), 1);
    assert_eq!(records[0].file, "f");
    assert!(read_country_index(parse("{}")).is_empty());
    let records = read_country_stations(parse(r#"[[], {"name": "A", "url": "u"}]"#), "Japan");
    assert_eq!(records.len(), 1);
    assert_eq!((records[0].url.as_str(), records[0].country.as_str()), ("u", "Japan"));
    assert!(read_country_stations(parse("null"), "Japan").is_empty());
}
