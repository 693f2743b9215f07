//! Parses the station list: an index of countries, and one flat array of station records for each
//! country.
//!
//! The fields are read with tolerance. The list occasionally holds a number as a text, and the
//! other way round, and a location is frequently `null`; a field that wobbles must not make a
//! whole country fail. A number is kept as its numeral here, and its value is supplied by the
//! caller where an entry or a station is made of a record.

use vstd::prelude::*;

use crate::json;
use crate::json::{Field, FieldView, JsonTree};
use crate::station::Station;
use crate::text;

verus! {

/// The text in a field. A number counts as a text.
pub open spec fn text_in(field: FieldView) -> Seq<char> {
    match field {
        FieldView::Text(value) => value,
        FieldView::Number(value) => value,
        _ => Seq::empty(),
    }
}

/// The numeral in a field. A text counts as a numeral, without the white space around it.
pub open spec fn numeral_in(field: FieldView) -> Option<Seq<char>> {
    match field {
        FieldView::Number(value) => Some(value),
        FieldView::Text(value) => Some(text::trimmed(value)),
        _ => None,
    }
}

/// The text in a field.
pub fn as_string(field: &Field) -> (value: String)
    ensures
        value@ == text_in(field@),
{
    match field {
        Field::Text(value) => value.clone(),
        Field::Number(value) => value.clone(),
        _ => String::new(),
    }
}

/// The numeral in a field.
pub fn as_numeral(field: &Field) -> (numeral: Option<String>)
    ensures
        text::optional_text(numeral) == numeral_in(field@),
{
    match field {
        Field::Number(value) => Some(value.clone()),
        Field::Text(value) => {
            let chars: Vec<char> = text::chars_of(value.as_str());
            Some(text::string_of(text::trim(chars.as_slice())))
        },
        _ => None,
    }
}

/// The field is the truth value `true`.
pub fn as_bool(field: &Field) -> (yes: bool)
    ensures
        yes == (field@ == FieldView::Bool(true)),
{
    match field {
        Field::Bool(yes) => *yes,
        _ => false,
    }
}

/// An entry of the index.
#[derive(Clone, Debug)]
pub struct CountryEntry {
    pub name: String,
    pub file: String,
    pub count: i32,
}

impl Default for CountryEntry {
    fn default() -> (entry: CountryEntry)
        ensures
            entry.name@.len() == 0,
            entry.file@.len() == 0,
            entry.count == 0,
    {
        CountryEntry { name: String::new(), file: String::new(), count: 0 }
    }
}

/// An entry of the index as it stands in the list, with the numeral of its count.
#[derive(Debug)]
pub struct CountryRecord {
    pub name: String,
    pub file: String,
    pub count: Option<String>,
}

/// An entry of the index, as texts.
pub struct CountryView {
    pub name: Seq<char>,
    pub file: Seq<char>,
    pub count: Option<Seq<char>>,
}

impl View for CountryRecord {
    type V = CountryView;

    open spec fn view(&self) -> CountryView {
        CountryView { name: self.name@, file: self.file@, count: text::optional_text(self.count) }
    }
}

impl CountryRecord {
    /// The entry, with the value of its count.
    pub fn entry(self, count: i32) -> (entry: CountryEntry)
        ensures
            entry.name@ == self@.name,
            entry.file@ == self@.file,
            entry.count == count,
    {
        CountryEntry { name: self.name, file: self.file, count }
    }
}

/// The fields of an entry of the index.
#[derive(Debug)]
pub struct CountryFields {
    pub name: Field,
    pub file: Field,
    pub count: Field,
}

impl CountryFields {
    /// The entry that the fields make, unless the name or the file is missing.
    pub open spec fn makes(&self) -> Option<CountryView> {
        country_of(self.name@, self.file@, self.count@)
    }
}

/// The entry that some fields make, unless the name or the file is missing.
pub open spec fn country_of(name: FieldView, file: FieldView, count: FieldView) -> Option<
    CountryView,
> {
    if text_in(name).len() == 0 || text_in(file).len() == 0 {
        None
    } else {
        Some(CountryView { name: text_in(name), file: text_in(file), count: numeral_in(count) })
    }
}

/// The entry in an item of the index.
pub open spec fn country_in(item: JsonTree) -> Option<CountryView> {
    if item is Object {
        country_of(
            json::field_under(item, "name"@),
            json::field_under(item, "file"@),
            json::field_under(item, "count"@),
        )
    } else {
        None
    }
}

/// The entries in the items of the index, in order.
pub open spec fn countries_in(items: Seq<JsonTree>) -> Seq<CountryView>
    decreases items.len(),
{
    if items.len() == 0 {
        Seq::empty()
    } else {
        let earlier = countries_in(items.drop_last());
        match country_in(items.last()) {
            Some(country) => earlier.push(country),
            None => earlier,
        }
    }
}

/// The entries that some items make, in order. An item without fields is no record.
pub open spec fn countries_made(items: Seq<Option<CountryFields>>) -> Seq<CountryView>
    decreases items.len(),
{
    if items.len() == 0 {
        Seq::empty()
    } else {
        let earlier = countries_made(items.drop_last());
        match items.last() {
            Some(fields) => match fields.makes() {
                Some(country) => earlier.push(country),
                None => earlier,
            },
            None => earlier,
        }
    }
}

/// The entries of an index. A document that is no array holds none.
pub open spec fn countries_of(document: JsonTree) -> Seq<CountryView> {
    match document {
        JsonTree::Array(items) => countries_in(items),
        _ => Seq::empty(),
    }
}

/// What an index holds.
pub open spec fn country_index(document: Result<JsonTree, Seq<char>>) -> Result<
    Seq<CountryView>,
    Seq<char>,
> {
    match document {
        Ok(tree) => Ok(countries_of(tree)),
        Err(message) => Err(message),
    }
}

/// Records, as texts.
pub open spec fn country_views(records: Seq<CountryRecord>) -> Seq<CountryView> {
    Seq::new(records.len(), |i: int| records[i]@)
}

/// The record that some fields make.
pub fn country_record(fields: &CountryFields) -> (record: Option<CountryRecord>)
    ensures
        match record {
            Some(made) => fields.makes() == Some(made@),
            None => fields.makes() is None,
        },
{
    let record = CountryRecord {
        name: as_string(&fields.name),
        file: as_string(&fields.file),
        count: as_numeral(&fields.count),
    };
    if text::is_empty(record.name.as_str()) || text::is_empty(record.file.as_str()) {
        None
    } else {
        Some(record)
    }
}

/// The records that some items make, in order. An item without fields is no record.
pub fn country_records(items: &Vec<Option<CountryFields>>) -> (records: Vec<CountryRecord>)
    ensures
        country_views(records@) == countries_made(items@),
{
    let mut records: Vec<CountryRecord> = Vec::new();
    for position in 0..items.len()
        invariant
            country_views(records@) =~= countries_made(items@.take(position as int)),
    {
        let ghost before = records@;
        assert(items@.take(position + 1).drop_last() =~= items@.take(position as int));
        if let Some(fields) = &items[position] {
            if let Some(record) = country_record(fields) {
                records.push(record);
                assert(country_views(records@) =~= country_views(before).push(record@));
            }
        }
    }
    assert(items@.take(items@.len() as int) =~= items@);
    records
}

/// The fields in an item of the index, if it is an object.
fn country_fields_in(item: &serde_json::Value) -> (fields: Option<CountryFields>)
    ensures
        country_in(json::json_tree(*item)) == (match fields {
            Some(found) => found.makes(),
            None => None,
        }),
{
    if !item.is_object() {
        return None;
    }
    Some(
        CountryFields {
            name: json::field(item, "name"),
            file: json::field(item, "file"),
            count: json::field(item, "count"),
        },
    )
}

/// Reads a parsed index of countries.
pub fn read_country_index(root: serde_json::Value) -> (records: Vec<CountryRecord>)
    ensures
        country_views(records@) == countries_of(json::json_tree(root)),
{
    let array = match json::array_items(root) {
        Some(items) => items,
        None => {
            let none: Vec<CountryRecord> = Vec::new();
            assert(country_views(none@) =~= Seq::empty());
            return none;
        },
    };
    let mut items: Vec<Option<CountryFields>> = Vec::new();
    let ghost trees = json::json_trees(array@);
    for position in 0..array.len()
        invariant
            trees == json::json_trees(array@),
            items@.len() == position,
            countries_made(items@) == countries_in(trees.take(position as int)),
    {
        let ghost before = items@;
        items.push(country_fields_in(&array[position]));
        proof {
            assert(items@.drop_last() =~= before);
            assert(trees.take(position + 1).drop_last() =~= trees.take(position as int));
            assert(trees.take(position + 1).last() == json::json_tree(array@[position as int]));
        }
    }
    assert(trees.take(trees.len() as int) =~= trees);
    country_records(&items)
}

/// Parses the index of countries.
pub fn parse_country_index(json: &str) -> (index: Result<Vec<CountryRecord>, String>)
    ensures
        match index {
            Ok(records) => country_index(json::json_document(json@)) == Ok::<
                Seq<CountryView>,
                Seq<char>,
            >(country_views(records@)),
            Err(message) => country_index(json::json_document(json@)) == Err::<
                Seq<CountryView>,
                Seq<char>,
            >(message@),
        },
{
    match json::parse_value(json) {
        Ok(root) => Ok(read_country_index(root)),
        Err(message) => Err(message),
    }
}

/// The fields of a station record.
#[derive(Debug)]
pub struct StationFields {
    pub name: Field,
    pub url: Field,
    pub url_resolved: Field,
    pub codec: Field,
    pub bitrate: Field,
    pub language: Field,
    pub needs_resolve: Field,
    pub lat: Field,
    pub lon: Field,
}

/// A station as it stands in the list, with the numerals of its numbers.
#[derive(Debug)]
pub struct StationRecord {
    pub name: String,
    pub url: String,
    pub url_resolved: String,
    pub country: String,
    pub codec: String,
    pub bitrate: Option<String>,
    pub language: String,
    pub needs_tunein_resolve: bool,
    pub lat: Option<String>,
    pub lon: Option<String>,
}

/// A station record, as texts.
pub struct StationView {
    pub name: Seq<char>,
    pub url: Seq<char>,
    pub url_resolved: Seq<char>,
    pub country: Seq<char>,
    pub codec: Seq<char>,
    pub bitrate: Option<Seq<char>>,
    pub language: Seq<char>,
    pub needs_tunein_resolve: bool,
    pub lat: Option<Seq<char>>,
    pub lon: Option<Seq<char>>,
}

impl View for StationRecord {
    type V = StationView;

    open spec fn view(&self) -> StationView {
        StationView {
            name: self.name@,
            url: self.url@,
            url_resolved: self.url_resolved@,
            country: self.country@,
            codec: self.codec@,
            bitrate: text::optional_text(self.bitrate),
            language: self.language@,
            needs_tunein_resolve: self.needs_tunein_resolve,
            lat: text::optional_text(self.lat),
            lon: text::optional_text(self.lon),
        }
    }
}

impl StationRecord {
    /// The station, with the value of its bitrate and its latitude and longitude, with three
    /// decimals each, where both are numbers.
    pub fn station(self, bitrate: i32, location: Option<(String, String)>) -> (station: Station)
        ensures
            station.name@ == self@.name,
            station.url@ == self@.url,
            station.url_resolved@ == self@.url_resolved,
            station.country@ == self@.country,
            station.codec@ == self@.codec,
            station.bitrate == bitrate,
            station.language@ == self@.language,
            station.needs_tunein_resolve == self@.needs_tunein_resolve,
            station.has_location == location is Some,
            match location {
                Some((lat, lon)) => station.lat@ == lat@ && station.lon@ == lon@,
                None => station.lat@.len() == 0 && station.lon@.len() == 0,
            },
    {
        let mut station = Station {
            name: self.name,
            url: self.url,
            url_resolved: self.url_resolved,
            country: self.country,
            codec: self.codec,
            bitrate,
            language: self.language,
            lat: String::new(),
            lon: String::new(),
            has_location: false,
            needs_tunein_resolve: self.needs_tunein_resolve,
        };
        if let Some((lat, lon)) = location {
            station.lat = lat;
            station.lon = lon;
            station.has_location = true;
        }
        station
    }
}

/// The fields of an item of the list of a country.
pub open spec fn station_with(
    country: Seq<char>,
    name: FieldView,
    url: FieldView,
    url_resolved: FieldView,
    codec: FieldView,
    bitrate: FieldView,
    language: FieldView,
    needs_resolve: FieldView,
    lat: FieldView,
    lon: FieldView,
) -> Option<StationView> {
    if text_in(name).len() == 0 || text_in(url).len() == 0 {
        None
    } else {
        Some(
            StationView {
                name: text_in(name),
                url: text_in(url),
                url_resolved: text_in(url_resolved),
                country,
                codec: text_in(codec),
                bitrate: numeral_in(bitrate),
                language: text_in(language),
                needs_tunein_resolve: needs_resolve == FieldView::Bool(true),
                lat: numeral_in(lat),
                lon: numeral_in(lon),
            },
        )
    }
}

impl StationFields {
    /// The station that the fields make, unless the name or the URL is missing.
    pub open spec fn makes(&self, country: Seq<char>) -> Option<StationView> {
        station_with(
            country,
            self.name@,
            self.url@,
            self.url_resolved@,
            self.codec@,
            self.bitrate@,
            self.language@,
            self.needs_resolve@,
            self.lat@,
            self.lon@,
        )
    }
}

/// The station in an item of the list of a country.
pub open spec fn station_in(item: JsonTree, country: Seq<char>) -> Option<StationView> {
    if item is Object {
        station_with(
            country,
            json::field_under(item, "name"@),
            json::field_under(item, "url"@),
            json::field_under(item, "url_resolved"@),
            json::field_under(item, "codec"@),
            json::field_under(item, "bitrate"@),
            json::field_under(item, "language"@),
            json::field_under(item, "needsResolve"@),
            json::field_under(item, "lat"@),
            json::field_under(item, "lon"@),
        )
    } else {
        None
    }
}

/// The stations in the items of the list of a country, in order.
pub open spec fn stations_in(items: Seq<JsonTree>, country: Seq<char>) -> Seq<StationView>
    decreases items.len(),
{
    if items.len() == 0 {
        Seq::empty()
    } else {
        let earlier = stations_in(items.drop_last(), country);
        match station_in(items.last(), country) {
            Some(station) => earlier.push(station),
            None => earlier,
        }
    }
}

/// The stations that some items make, in order. An item without fields is no record.
pub open spec fn stations_made(
    items: Seq<Option<StationFields>>,
    country: Seq<char>,
) -> Seq<StationView>
    decreases items.len(),
{
    if items.len() == 0 {
        Seq::empty()
    } else {
        let earlier = stations_made(items.drop_last(), country);
        match items.last() {
            Some(fields) => match fields.makes(country) {
                Some(station) => earlier.push(station),
                None => earlier,
            },
            None => earlier,
        }
    }
}

/// The stations of the list of a country. A document that is no array holds none.
pub open spec fn stations_of(document: JsonTree, country: Seq<char>) -> Seq<StationView> {
    match document {
        JsonTree::Array(items) => stations_in(items, country),
        _ => Seq::empty(),
    }
}

/// What the list of a country holds.
pub open spec fn station_list(
    document: Result<JsonTree, Seq<char>>,
    country: Seq<char>,
) -> Result<Seq<StationView>, Seq<char>> {
    match document {
        Ok(tree) => Ok(stations_of(tree, country)),
        Err(message) => Err(message),
    }
}

/// Records, as texts.
pub open spec fn station_views(records: Seq<StationRecord>) -> Seq<StationView> {
    Seq::new(records.len(), |i: int| records[i]@)
}

/// The record that some fields make.
pub fn station_record(fields: &StationFields, country_name: &str) -> (record: Option<StationRecord>)
    ensures
        match record {
            Some(made) => fields.makes(country_name@) == Some(made@),
            None => fields.makes(country_name@) is None,
        },
{
    let record = StationRecord {
        name: as_string(&fields.name),
        url: as_string(&fields.url),
        url_resolved: as_string(&fields.url_resolved),
        country: country_name.to_string(),
        codec: as_string(&fields.codec),
        bitrate: as_numeral(&fields.bitrate),
        language: as_string(&fields.language),
        needs_tunein_resolve: as_bool(&fields.needs_resolve),
        lat: as_numeral(&fields.lat),
        lon: as_numeral(&fields.lon),
    };
    if text::is_empty(record.name.as_str()) || text::is_empty(record.url.as_str()) {
        None
    } else {
        Some(record)
    }
}

/// The records that some items make, in order. An item without fields is no record.
pub fn station_records(items: &Vec<Option<StationFields>>, country_name: &str) -> (records: Vec<
    StationRecord,
>)
    ensures
        station_views(records@) == stations_made(items@, country_name@),
{
    let mut records: Vec<StationRecord> = Vec::new();
    for position in 0..items.len()
        invariant
            station_views(records@) =~= stations_made(
                items@.take(position as int),
                country_name@,
            ),
    {
        let ghost before = records@;
        assert(items@.take(position + 1).drop_last() =~= items@.take(position as int));
        if let Some(fields) = &items[position] {
            if let Some(record) = station_record(fields, country_name) {
                records.push(record);
                assert(station_views(records@) =~= station_views(before).push(record@));
            }
        }
    }
    assert(items@.take(items@.len() as int) =~= items@);
    records
}

/// The fields in an item of the list of a country, if it is an object.
fn station_fields_in(item: &serde_json::Value) -> (fields: Option<StationFields>)
    ensures
        forall|country: Seq<char>| #[trigger]
            station_in(json::json_tree(*item), country) == (match fields {
                Some(found) => found.makes(country),
                None => None,
            }),
{
    if !item.is_object() {
        return None;
    }
    Some(
        StationFields {
            name: json::field(item, "name"),
            url: json::field(item, "url"),
            url_resolved: json::field(item, "url_resolved"),
            codec: json::field(item, "codec"),
            bitrate: json::field(item, "bitrate"),
            language: json::field(item, "language"),
            needs_resolve: json::field(item, "needsResolve"),
            lat: json::field(item, "lat"),
            lon: json::field(item, "lon"),
        },
    )
}

/// Reads the parsed list of a country, a flat array of station records.
pub fn read_country_stations(root: serde_json::Value, country_name: &str) -> (records: Vec<
    StationRecord,
>)
    ensures
        station_views(records@) == stations_of(json::json_tree(root), country_name@),
{
    let array = match json::array_items(root) {
        Some(items) => items,
        None => {
            let none: Vec<StationRecord> = Vec::new();
            assert(station_views(none@) =~= Seq::empty());
            return none;
        },
    };
    let mut items: Vec<Option<StationFields>> = Vec::new();
    let ghost trees = json::json_trees(array@);
    for position in 0..array.len()
        invariant
            trees == json::json_trees(array@),
            items@.len() == position,
            stations_made(items@, country_name@) == stations_in(
                trees.take(position as int),
                country_name@,
            ),
    {
        let ghost before = items@;
        items.push(station_fields_in(&array[position]));
        proof {
            assert(items@.drop_last() =~= before);
            assert(trees.take(position + 1).drop_last() =~= trees.take(position as int));
            assert(trees.take(position + 1).last() == json::json_tree(array@[position as int]));
        }
    }
    assert(trees.take(trees.len() as int) =~= trees);
    station_records(&items, country_name)
}

/// Parses the list of a country.
pub fn parse_country_stations(json: &str, country_name: &str) -> (list: Result<
    Vec<StationRecord>,
    String,
>)
    ensures
        match list {
            Ok(records) => station_list(json::json_document(json@), country_name@) == Ok::<
                Seq<StationView>,
                Seq<char>,
            >(station_views(records@)),
            Err(message) => station_list(json::json_document(json@), country_name@) == Err::<
                Seq<StationView>,
                Seq<char>,
            >(message@),
        },
{
    match json::parse_value(json) {
        Ok(root) => Ok(read_country_stations(root, country_name)),
        Err(message) => Err(message),
    }
}

/// Every entry of the index has a name and a file.
pub proof fn law_incomplete_countries_are_skipped(items: Seq<JsonTree>)
    ensures
        countries_in(items).len() <= items.len(),
        forall|i: int|
            0 <= i < countries_in(items).len() ==> (#[trigger] countries_in(items)[i]).name.len() > 0
                && countries_in(items)[i].file.len() > 0,
    decreases items.len(),
{
    if items.len() > 0 {
        law_incomplete_countries_are_skipped(items.drop_last());
    }
}

/// Every station of the list of a country has a name and a URL, and is of that country.
pub proof fn law_incomplete_stations_are_skipped(items: Seq<JsonTree>, country: Seq<char>)
    ensures
        stations_in(items, country).len() <= items.len(),
        forall|i: int|
            0 <= i < stations_in(items, country).len() ==> (#[trigger] stations_in(
                items,
                country,
            )[i]).name.len() > 0 && stations_in(items, country)[i].url.len() > 0 && stations_in(
                items,
                country,
            )[i].country == country,
    decreases items.len(),
{
    if items.len() > 0 {
        law_incomplete_stations_are_skipped(items.drop_last(), country);
    }
}

/// An item that makes no station changes nothing for the others: the rest of the list is what it
/// would be without that item.
pub proof fn law_a_bad_item_spoils_no_other(
    before: Seq<JsonTree>,
    bad: JsonTree,
    after: Seq<JsonTree>,
    country: Seq<char>,
)
    requires
        station_in(bad, country) is None,
    ensures
        stations_in(before + seq![bad] + after, country) == stations_in(before + after, country),
    decreases after.len(),
{
    if after.len() == 0 {
        assert((before + seq![bad] + after).drop_last() =~= before);
        assert(before + after =~= before);
    } else {
        law_a_bad_item_spoils_no_other(before, bad, after.drop_last(), country);
        assert((before + seq![bad] + after).drop_last() =~= before + seq![bad] + after.drop_last());
        assert((before + after).drop_last() =~= before + after.drop_last());
    }
}

/// The same, of the index.
pub proof fn law_a_bad_entry_spoils_no_other(
    before: Seq<JsonTree>,
    bad: JsonTree,
    after: Seq<JsonTree>,
)
    requires
        country_in(bad) is None,
    ensures
        countries_in(before + seq![bad] + after) == countries_in(before + after),
    decreases after.len(),
{
    if after.len() == 0 {
        assert((before + seq![bad] + after).drop_last() =~= before);
        assert(before + after =~= before);
    } else {
        law_a_bad_entry_spoils_no_other(before, bad, after.drop_last());
        assert((before + seq![bad] + after).drop_last() =~= before + seq![bad] + after.drop_last());
        assert((before + after).drop_last() =~= before + after.drop_last());
    }
}

/// A number that arrives as a text, and a text that arrives as a number, are read all the same.
pub proof fn law_numbers_may_come_as_texts(value: Seq<char>)
    requires
        text::trimmed(value) == value,
    ensures
        numeral_in(FieldView::Text(value)) == numeral_in(FieldView::Number(value)),
        text_in(FieldView::Number(value)) == text_in(FieldView::Text(value)),
{
}

/// What stands under a key as a text or as a number, as a text; nothing where neither does.
pub open spec fn text_under(members: Map<Seq<char>, JsonTree>, key: Seq<char>) -> Seq<char> {
    if members.contains_key(key) {
        match members[key] {
            JsonTree::Text(value) => value,
            JsonTree::Number(value) => value,
            _ => Seq::empty(),
        }
    } else {
        Seq::empty()
    }
}

/// What stands under a key as a number or as a text without the white space around it.
pub open spec fn numeral_under(members: Map<Seq<char>, JsonTree>, key: Seq<char>) -> Option<
    Seq<char>,
> {
    if members.contains_key(key) {
        match members[key] {
            JsonTree::Number(value) => Some(value),
            JsonTree::Text(value) => Some(text::trimmed(value)),
            _ => None,
        }
    } else {
        None
    }
}

/// An object with a name and a URL is a station of the country of its list, and each field of the
/// station is what stands under its own key. Without one of the two, and of anything else, there is
/// no station.
pub proof fn law_a_station_is_what_stands_under_its_keys(
    members: Map<Seq<char>, JsonTree>,
    country: Seq<char>,
    other: JsonTree,
)
    ensures
        text_under(members, "name"@).len() > 0 && text_under(members, "url"@).len() > 0
            ==> (station_in(JsonTree::Object(members), country) matches Some(station) && {
            &&& station.name == text_under(members, "name"@)
            &&& station.url == text_under(members, "url"@)
            &&& station.url_resolved == text_under(members, "url_resolved"@)
            &&& station.country == country
            &&& station.codec == text_under(members, "codec"@)
            &&& station.bitrate == numeral_under(members, "bitrate"@)
            &&& station.language == text_under(members, "language"@)
            &&& station.needs_tunein_resolve == (members.contains_key("needsResolve"@)
                && members["needsResolve"@] == JsonTree::Bool(true))
            &&& station.lat == numeral_under(members, "lat"@)
            &&& station.lon == numeral_under(members, "lon"@)
        }),
        text_under(members, "name"@).len() == 0 || text_under(members, "url"@).len() == 0
            ==> station_in(JsonTree::Object(members), country) is None,
        !(other is Object) ==> station_in(other, country) is None,
{
}

/// An object with a name and a file is an entry of the index, and each field of the entry is what
/// stands under its own key. Without one of the two, and of anything else, there is no entry.
pub proof fn law_an_entry_is_what_stands_under_its_keys(
    members: Map<Seq<char>, JsonTree>,
    other: JsonTree,
)
    ensures
        text_under(members, "name"@).len() > 0 && text_under(members, "file"@).len() > 0
            ==> (country_in(JsonTree::Object(members)) matches Some(entry) && {
            &&& entry.name == text_under(members, "name"@)
            &&& entry.file == text_under(members, "file"@)
            &&& entry.count == numeral_under(members, "count"@)
        }),
        text_under(members, "name"@).len() == 0 || text_under(members, "file"@).len() == 0
            ==> country_in(JsonTree::Object(members)) is None,
        !(other is Object) ==> country_in(other) is None,
{
}

/// A field is read as a text and as a numeral with tolerance: a number counts as a text, and a text
/// as a numeral once the white space around it is gone. Anything else is neither.
pub proof fn law_fields_are_read_with_tolerance(
    value: Seq<char>,
    before: Seq<char>,
    after: Seq<char>,
    yes: bool,
)
    requires
        forall|i: int| 0 <= i < before.len() ==> text::is_white(#[trigger] before[i]),
        forall|i: int| 0 <= i < after.len() ==> text::is_white(#[trigger] after[i]),
        value.len() > 0 ==> !text::is_white(value[0]) && !text::is_white(value[value.len() - 1]),
    ensures
        text_in(FieldView::Text(value)) == value,
        text_in(FieldView::Number(value)) == value,
        numeral_in(FieldView::Number(value)) == Some(value),
        numeral_in(FieldView::Text(before + value + after)) == Some(value),
        text_in(FieldView::Missing).len() == 0,
        text_in(FieldView::Bool(yes)).len() == 0,
        text_in(FieldView::Other).len() == 0,
        numeral_in(FieldView::Missing) is None,
        numeral_in(FieldView::Bool(yes)) is None,
        numeral_in(FieldView::Other) is None,
{
    text::law_trimming_takes_the_white_space_off(before, value, after);
}

/// A list gives what its items give, one after the other: one more item adds what it makes, and
/// nothing where it makes nothing.
pub proof fn law_one_more_item_adds_what_it_makes(
    items: Seq<JsonTree>,
    item: JsonTree,
    country: Seq<char>,
)
    ensures
        stations_in(Seq::empty(), country) == Seq::<StationView>::empty(),
        countries_in(Seq::empty()) == Seq::<CountryView>::empty(),
        stations_in(items.push(item), country) == (match station_in(item, country) {
            Some(station) => stations_in(items, country).push(station),
            None => stations_in(items, country),
        }),
        countries_in(items.push(item)) == (match country_in(item) {
            Some(entry) => countries_in(items).push(entry),
            None => countries_in(items),
        }),
        stations_of(JsonTree::Array(items), country) == stations_in(items, country),
        countries_of(JsonTree::Array(items)) == countries_in(items),
        !(item is Array) ==> stations_of(item, country).len() == 0 && countries_of(item).len() == 0,
{
    assert(items.push(item).drop_last() =~= items);
}

/// A document that cannot be parsed is told in the words of the parser, and any other gives its list.
pub proof fn law_a_document_gives_its_list(tree: JsonTree, message: Seq<char>, country: Seq<char>)
    ensures
        country_index(Ok(tree)) == Ok::<Seq<CountryView>, Seq<char>>(countries_of(tree)),
        country_index(Err(message)) == Err::<Seq<CountryView>, Seq<char>>(message),
        station_list(Ok(tree), country) == Ok::<Seq<StationView>, Seq<char>>(
            stations_of(tree, country),
        ),
        station_list(Err(message), country) == Err::<Seq<StationView>, Seq<char>>(message),
{
}

/// Fields make a station with what each holds, unless its name or its URL is missing.
pub proof fn law_fields_make_a_station(fields: StationFields, country: Seq<char>)
    ensures
        text_in(fields.name@).len() > 0 && text_in(fields.url@).len() > 0 ==> (fields.makes(
            country,
        ) matches Some(station) && {
            &&& station.name == text_in(fields.name@)
            &&& station.url == text_in(fields.url@)
            &&& station.url_resolved == text_in(fields.url_resolved@)
            &&& station.country == country
            &&& station.codec == text_in(fields.codec@)
            &&& station.bitrate == numeral_in(fields.bitrate@)
            &&& station.language == text_in(fields.language@)
            &&& station.needs_tunein_resolve == (fields.needs_resolve@ == FieldView::Bool(true))
            &&& station.lat == numeral_in(fields.lat@)
            &&& station.lon == numeral_in(fields.lon@)
        }),
        text_in(fields.name@).len() == 0 || text_in(fields.url@).len() == 0 ==> fields.makes(
            country,
        ) is None,
{
}

/// Fields make an entry with what each holds, unless its name or its file is missing.
pub proof fn law_fields_make_an_entry(fields: CountryFields)
    ensures
        text_in(fields.name@).len() > 0 && text_in(fields.file@).len() > 0
            ==> (fields.makes() matches Some(entry) && {
            &&& entry.name == text_in(fields.name@)
            &&& entry.file == text_in(fields.file@)
            &&& entry.count == numeral_in(fields.count@)
        }),
        text_in(fields.name@).len() == 0 || text_in(fields.file@).len() == 0
            ==> fields.makes() is None,
{
}

/// One more item adds the record that its fields make, and nothing where it has none or they make
/// none.
pub proof fn law_one_more_record_is_added(
    stations: Seq<Option<StationFields>>,
    station: Option<StationFields>,
    entries: Seq<Option<CountryFields>>,
    entry: Option<CountryFields>,
    country: Seq<char>,
)
    ensures
        stations_made(Seq::empty(), country) == Seq::<StationView>::empty(),
        countries_made(Seq::empty()) == Seq::<CountryView>::empty(),
        stations_made(stations.push(station), country) == (match station {
            Some(fields) => match fields.makes(country) {
                Some(made) => stations_made(stations, country).push(made),
                None => stations_made(stations, country),
            },
            None => stations_made(stations, country),
        }),
        countries_made(entries.push(entry)) == (match entry {
            Some(fields) => match fields.makes() {
                Some(made) => countries_made(entries).push(made),
                None => countries_made(entries),
            },
            None => countries_made(entries),
        }),
{
    assert(stations.push(station).drop_last() =~= stations);
    assert(entries.push(entry).drop_last() =~= entries);
}

/// A record says what its fields hold, each its own, and a list of records says what each says.
pub proof fn law_records_say_what_they_hold(
    station: StationRecord,
    entry: CountryRecord,
    stations: Seq<StationRecord>,
    entries: Seq<CountryRecord>,
)
    ensures
        station@.name == station.name@,
        station@.url == station.url@,
        station@.url_resolved == station.url_resolved@,
        station@.country == station.country@,
        station@.codec == station.codec@,
        station@.language == station.language@,
        station@.needs_tunein_resolve == station.needs_tunein_resolve,
        station@.bitrate == text::optional_text(station.bitrate),
        station@.lat == text::optional_text(station.lat),
        station@.lon == text::optional_text(station.lon),
        entry@.name == entry.name@,
        entry@.file == entry.file@,
        entry@.count == text::optional_text(entry.count),
        station_views(stations).len() == stations.len(),
        country_views(entries).len() == entries.len(),
        forall|i: int|
            0 <= i < stations.len() ==> #[trigger] station_views(stations)[i] == stations[i]@,
        forall|i: int| 0 <= i < entries.len() ==> #[trigger] country_views(entries)[i] == entries[i]@,
{
}

} // verus!
