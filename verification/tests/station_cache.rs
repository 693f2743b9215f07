//! The load of the station list.

use rworldradio::dataset::CountryEntry;
use rworldradio::station::Station;
use rworldradio::station_cache::{
    candidate_data_dirs, choose_data_dir, describe_problems, exe_relative_candidates, load_from,
    open_index, open_list, relative_candidates, xdg_data_home, Candidate, CountryTable, DataHome,
};

fn entry(name: &str, count: i32) -> CountryEntry {
    CountryEntry { name: name.into(), file: format!("{name}.json"), count }
}

fn stations(count: usize) -> Vec<Station> {
    (0..count)
        .map(|i| Station { name: format!("s{i}"), url: "u".into(), ..Station::default() })
        .collect()
}

#[test]
fn the_working_directory_comes_last() {
    assert_eq!(relative_candidates(), vec!["../data", "data"]);
    let candidates = candidate_data_dirs(9, xdg_data_home(None, Some("/home/me".into())));
    assert_eq!(candidates.len(), 9);
    assert!(matches!(candidates[0], Candidate::AboveExecutable(0)));
    assert!(matches!(candidates[3], Candidate::AboveExecutable(3)));
    assert!(matches!(
        &candidates[4],
        Candidate::InDataHome(DataHome::LocalShareOf(home)) if home == "/home/me"
    ));
    assert!(matches!(
        &candidates[5],
        Candidate::Path(path) if path == "/usr/local/share/rworldradio/data"
    ));
    assert!(matches!(&candidates[6], Candidate::Path(path) if path == "/usr/share/rworldradio/data"));
    assert!(matches!(&candidates[7], Candidate::Path(path) if path == "../data"));
    assert!(matches!(&candidates[8], Candidate::Path(path) if path == "data"));
    assert_eq!(candidate_data_dirs(0, None).len(), 4);
}

#[test]
fn a_shallow_executable_has_fewer_places_around_it() {
    assert_eq!(exe_relative_candidates(0).len(), 0);
    assert_eq!(exe_relative_candidates(2).len(), 2);
    assert_eq!(exe_relative_candidates(4).len(), 4);
    assert_eq!(exe_relative_candidates(5).len(), 4);
}

#[test]
fn the_named_data_home_is_preferred_unless_it_is_empty() {
    let named = xdg_data_home(Some("/x".into()), Some("/home/me".into()));
    assert!(matches!(named, Some(DataHome::Directory(path)) if path == "/x"));
    let empty = xdg_data_home(Some(String::new()), Some("/home/me".into()));
    assert!(matches!(empty, Some(DataHome::LocalShareOf(path)) if path == "/home/me"));
    assert!(xdg_data_home(Some(String::new()), None).is_none());
    assert!(xdg_data_home(None, None).is_none());
}

#[test]
fn the_first_directory_with_an_index_is_chosen() {
    let candidates = vec!["/a".to_string(), "/b".to_string(), "/c".to_string()];
    assert_eq!(choose_data_dir(&candidates, &vec![false, true, true]), Ok(1));
    assert_eq!(
        choose_data_dir(&candidates, &vec![false, false, false]),
        Err("data/countries.json not found. Looked in: /a, /b, /c".to_string())
    );
}

#[test]
fn an_index_that_cannot_be_used_is_told() {
    assert_eq!(open_index(Err("/a: gone".into())).unwrap_err(), "/a: gone");
    assert_eq!(
        open_index(Ok("[]".into())).unwrap_err(),
        "countries.json parsed but is empty"
    );
    let broken = open_index(Ok("[".into())).unwrap_err();
    assert!(broken.starts_with("countries.json parse error: EOF"));
    let index = open_index(Ok(r#"[{"name": "A", "file": "a.json"}]"#.into())).unwrap();
    assert_eq!(index.len(), 1);
}

#[test]
fn a_list_that_cannot_be_parsed_is_told_with_its_file() {
    let broken = open_list(&entry("A", 0), "{").unwrap_err();
    assert!(broken.starts_with("A.json: EOF"));
    let list = open_list(&entry("A", 0), r#"[{"name": "n", "url": "u"}]"#).unwrap();
    assert_eq!(list[0].country, "A");
}

#[test]
fn a_bad_file_costs_only_its_country() {
    let entries = vec![entry("Japan", 1), entry("Aland", 2), entry("Chad", 0), entry("Empty", 0)];
    let loaded = vec![
        Ok(stations(1)),
        Err("/d/countries/Aland.json: gone".to_string()),
        Ok(stations(3)),
        Ok(stations(0)),
    ];
    let result = load_from("/d".into(), entries, loaded).ok().unwrap();
    assert_eq!(result.by_country.len(), 2);
    // The countries come in the order of their names.
    assert_eq!(result.by_country.name(0), "Chad");
    assert_eq!(result.by_country.name(1), "Japan");
    assert_eq!(result.by_country.stations(0).len(), 3);
    assert_eq!(result.by_country.station_count(), 4);
    assert!(result.by_country.get("Aland").is_none());
    assert_eq!(result.by_country.get("Japan").unwrap().len(), 1);
    assert_eq!(result.data_dir, "/d");
    assert_eq!(
        result.warning.as_deref(),
        Some("1 country file skipped: /d/countries/Aland.json: gone")
    );
}

#[test]
fn a_disagreement_with_the_index_is_told_and_kept() {
    let result = load_from("/d".into(), vec![entry("Japan", 5)], vec![Ok(stations(2))]);
    let result = result.ok().unwrap();
    assert_eq!(result.by_country.get("Japan").unwrap().len(), 2);
    assert_eq!(
        result.warning.as_deref(),
        Some("Japan.json lists 2 stations but countries.json says 5")
    );
}

#[test]
fn a_load_without_problems_does_not_warn() {
    let result = load_from("/d".into(), vec![entry("Japan", 2)], vec![Ok(stations(2))]);
    assert_eq!(result.ok().unwrap().warning, None);
}

#[test]
fn a_load_without_stations_fails() {
    let failed = load_from("/d".into(), vec![entry("A", 0)], vec![Ok(stations(0))]).err().unwrap();
    assert_eq!(failed, "no country files could be read from /d");
    let failed = load_from("/d".into(), vec![entry("A", 0)], vec![Err("why".into())]).err().unwrap();
    assert_eq!(failed, "no country files could be read from /d - why");
}

#[test]
fn problems_are_counted() {
    assert_eq!(describe_problems(0, 1, "p"), "p");
    assert_eq!(
        describe_problems(0, 3, "p"),
        "3 country files disagree with the index, first: p"
    );
    assert_eq!(describe_problems(1, 0, "p"), "1 country file skipped: p");
    assert_eq!(describe_problems(12, 0, "p"), "12 country files skipped, first: p");
    assert_eq!(
        describe_problems(1, 1, "p"),
        "1 country files skipped, 1 disagree with the index, first: p"
    );
}

#[test]
fn a_later_list_replaces_an_earlier_one_of_the_same_country() {
    let mut table = CountryTable::new();
    table.insert("B".into(), stations(1));
    table.insert("Ä".into(), stations(2));
    table.insert("A".into(), stations(3));
    table.insert("B".into(), stations(4));
    let names: Vec<&str> = (0..table.len()).map(|i| table.name(i)).collect();
    assert_eq!(names, vec!["A", "B", "Ä"]);
    assert_eq!(table.get("B").unwrap().len(), 4);
    assert_eq!(table.station_count(), 9);
}

#[test]
fn countries_are_ordered_as_strings_are() {
    let words = ["b", "", "a", "ab", "Z", "é", "z", "\u{10000}", "\u{FFFF}", "aa"];
    let mut table = CountryTable::new();
    for word in words {
        table.insert(word.to_string(), stations(1));
    }
    let mut expected: Vec<&str> = words.to_vec();
    expected.sort();
    let names: Vec<&str> = (0..table.len()).map(|i| table.name(i)).collect();
    assert_eq!(names, expected);
}

#[test]
fn the_last_file_of_a_name_that_gives_stations_counts() {
    let entries = vec![entry("A", 0), entry("A", 0), entry("B", 0), entry("A", 0), entry("A", 0)];
    let loaded = vec![
        Ok(stations(1)),
        Ok(stations(2)),
        Ok(stations(5)),
        Ok(stations(0)),
        Err("gone".to_string()),
    ];
    let result = load_from("/d".into(), entries, loaded).ok().unwrap();
    let names: Vec<&str> =
        result.by_country.get("A").unwrap().iter().map(|station| station.name.as_str()).collect();
    assert_eq!(names, ["s0", "s1"]);
    assert_eq!(result.by_country.get("B").unwrap().len(), 5);
}
