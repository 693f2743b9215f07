//! Loads the station list that ships alongside the program: an index of countries, and a file for
//! each country. No network access, nothing to refresh.
//!
//! The files are read by the caller. What it reads goes through a [`Loader`], one country after
//! the other, which keeps what could be loaded and remembers what went wrong.

use vstd::prelude::*;

use crate::dataset;
use crate::dataset::{CountryEntry, CountryRecord, CountryView, StationRecord, StationView};
use crate::json;
use crate::station::Station;
use crate::text;
use crate::text::TextOrder;

verus! {

/// How many directories are searched from that of the executable upwards.
pub const EXECUTABLE_LEVELS: usize = 4;

/// Where the data of the user lives.
#[derive(Debug)]
pub enum DataHome {
    /// This directory.
    Directory(String),
    /// `.local/share` in this home directory.
    LocalShareOf(String),
}

/// A place where the data may be.
#[derive(Debug)]
pub enum Candidate {
    /// `data` in the directory that many levels above that of the executable.
    AboveExecutable(usize),
    /// `rworldradio/data` in the data directory of the user.
    InDataHome(DataHome),
    /// A path as it is.
    Path(String),
}

/// Where the data of the user lives, as texts.
pub enum DataHomeView {
    Directory(Seq<char>),
    LocalShareOf(Seq<char>),
}

/// A place where the data may be, as texts.
pub enum CandidateView {
    AboveExecutable(int),
    InDataHome(DataHomeView),
    Path(Seq<char>),
}

impl View for DataHome {
    type V = DataHomeView;

    open spec fn view(&self) -> DataHomeView {
        match *self {
            DataHome::Directory(path) => DataHomeView::Directory(path@),
            DataHome::LocalShareOf(path) => DataHomeView::LocalShareOf(path@),
        }
    }
}

impl View for Candidate {
    type V = CandidateView;

    open spec fn view(&self) -> CandidateView {
        match *self {
            Candidate::AboveExecutable(levels) => CandidateView::AboveExecutable(levels as int),
            Candidate::InDataHome(home) => CandidateView::InDataHome(home@),
            Candidate::Path(path) => CandidateView::Path(path@),
        }
    }
}

/// Candidates, as texts.
pub open spec fn candidate_views(candidates: Seq<Candidate>) -> Seq<CandidateView> {
    Seq::new(candidates.len(), |i: int| candidates[i]@)
}

/// The places around the executable: its directory and up to three above it. `levels` is how many
/// directories there are from that of the executable up to the root, itself counted.
pub open spec fn places_around_executable(levels: nat) -> Seq<CandidateView> {
    Seq::new(
        if levels <= EXECUTABLE_LEVELS { levels } else { EXECUTABLE_LEVELS as nat },
        |i: int| CandidateView::AboveExecutable(i),
    )
}

/// Where the data of the user lives: the directory named for it, unless that is empty, or else a
/// place in the home directory.
pub open spec fn data_home_of(named: Option<Seq<char>>, home: Option<Seq<char>>) -> Option<
    DataHomeView,
> {
    match named {
        Some(path) if path.len() > 0 => Some(DataHomeView::Directory(path)),
        _ => match home {
            Some(path) => Some(DataHomeView::LocalShareOf(path)),
            None => None,
        },
    }
}

/// The place of the user, where it is known.
pub open spec fn places_of_user(home: Option<DataHomeView>) -> Seq<CandidateView> {
    match home {
        Some(place) => seq![CandidateView::InDataHome(place)],
        None => Seq::empty(),
    }
}

/// Where the data of the user lives, as texts, where it is known.
pub open spec fn home_view(home: Option<DataHome>) -> Option<DataHomeView> {
    match home {
        Some(place) => Some(place@),
        None => None,
    }
}

/// The places where the data may be, the first to be tried first: next to the executable, then
/// the two places where it can be installed, then the working directory.
pub open spec fn search_order(levels: nat, home: Option<DataHomeView>) -> Seq<CandidateView> {
    places_around_executable(levels) + places_of_user(home) + seq![
        CandidateView::Path("/usr/local/share/rworldradio/data"@),
        CandidateView::Path("/usr/share/rworldradio/data"@),
        CandidateView::Path("../data"@),
        CandidateView::Path("data"@),
    ]
}

/// The places around the executable.
pub fn exe_relative_candidates(levels: usize) -> (candidates: Vec<Candidate>)
    ensures
        candidate_views(candidates@) == places_around_executable(levels as nat),
{
    let mut candidates: Vec<Candidate> = Vec::new();
    let count: usize = if levels <= EXECUTABLE_LEVELS { levels } else { EXECUTABLE_LEVELS };
    for level in 0..count
        invariant
            candidates@.len() == level,
            forall|i: int|
                0 <= i < level ==> (#[trigger] candidates@[i])@ == CandidateView::AboveExecutable(
                    i,
                ),
    {
        candidates.push(Candidate::AboveExecutable(level));
    }
    assert(candidate_views(candidates@) =~= places_around_executable(levels as nat));
    candidates
}

/// The last resorts, relative to the working directory.
pub fn relative_candidates() -> (paths: Vec<String>)
    ensures
        text::string_texts(paths@) == seq!["../data"@, "data"@],
{
    let mut paths: Vec<String> = Vec::new();
    paths.push("../data".to_string());
    paths.push("data".to_string());
    assert(text::string_texts(paths@) =~= seq!["../data"@, "data"@]);
    paths
}

/// Where the data of the user lives. `named` and `home` are what the environment says.
pub fn xdg_data_home(named: Option<String>, home: Option<String>) -> (place: Option<DataHome>)
    ensures
        match place {
            Some(found) => data_home_of(
                text::optional_text(named),
                text::optional_text(home),
            ) == Some(found@),
            None => data_home_of(text::optional_text(named), text::optional_text(home)) is None,
        },
{
    if let Some(path) = named {
        if !text::is_empty(path.as_str()) {
            return Some(DataHome::Directory(path));
        }
    }
    match home {
        Some(path) => Some(DataHome::LocalShareOf(path)),
        None => None,
    }
}

/// The places where the data may be.
pub fn candidate_data_dirs(levels: usize, home: Option<DataHome>) -> (candidates: Vec<Candidate>)
    ensures
        candidate_views(candidates@) == search_order(levels as nat, home_view(home)),
{
    let mut candidates: Vec<Candidate> = exe_relative_candidates(levels);
    let ghost around = candidates@;
    let ghost of_user = places_of_user(home_view(home));
    if let Some(place) = home {
        candidates.push(Candidate::InDataHome(place));
    }
    assert(candidate_views(candidates@) =~= candidate_views(around) + of_user);
    candidates.push(Candidate::Path("/usr/local/share/rworldradio/data".to_string()));
    candidates.push(Candidate::Path("/usr/share/rworldradio/data".to_string()));
    let ghost installed = candidates@;
    assert(candidate_views(candidates@) =~= candidate_views(around) + of_user + seq![
        CandidateView::Path("/usr/local/share/rworldradio/data"@),
        CandidateView::Path("/usr/share/rworldradio/data"@),
    ]);
    let mut relative: Vec<String> = relative_candidates();
    assert(text::string_texts(relative@).len() == 2);
    assert(relative@[0]@ == text::string_texts(relative@)[0]);
    assert(relative@[1]@ == text::string_texts(relative@)[1]);
    let last: Option<String> = relative.pop();
    let first: Option<String> = relative.pop();
    if let Some(path) = first {
        candidates.push(Candidate::Path(path));
    }
    if let Some(path) = last {
        candidates.push(Candidate::Path(path));
    }
    assert(candidate_views(candidates@) =~= candidate_views(installed) + seq![
        CandidateView::Path("../data"@),
        CandidateView::Path("data"@),
    ]);
    candidates
}

/// The position of the first of some flags that is set.
pub open spec fn first_set(flags: Seq<bool>) -> Option<int>
    decreases flags.len(),
{
    if flags.len() == 0 {
        None
    } else if flags[0] {
        Some(0)
    } else {
        match first_set(flags.skip(1)) {
            Some(position) => Some(position + 1),
            None => None,
        }
    }
}

/// What is said where no candidate holds an index.
pub open spec fn not_found_text(candidates: Seq<Seq<char>>) -> Seq<char> {
    "data/countries.json not found. Looked in: "@ + text::joined(candidates, ", "@)
}

/// Picks the first of `candidates` that holds an index. `holds_index` says for each whether it
/// does.
pub fn choose_data_dir(candidates: &Vec<String>, holds_index: &Vec<bool>) -> (chosen: Result<
    usize,
    String,
>)
    requires
        candidates@.len() == holds_index@.len(),
    ensures
        match chosen {
            Ok(position) => first_set(holds_index@) == Some(position as int) && position
                < candidates@.len() && holds_index@[position as int],
            Err(message) => first_set(holds_index@) is None && message@ == not_found_text(
                text::string_texts(candidates@),
            ),
        },
{
    assert(holds_index@.skip(0) =~= holds_index@);
    for position in 0..holds_index.len()
        invariant
            candidates@.len() == holds_index@.len(),
            first_set(holds_index@) == (match first_set(holds_index@.skip(position as int)) {
                Some(found) => Some(found + position),
                None => None,
            }),
    {
        if holds_index[position] {
            return Ok(position);
        }
        assert(holds_index@.skip(position as int).skip(1) =~= holds_index@.skip(position + 1));
    }
    let mut message: String = "data/countries.json not found. Looked in: ".to_string();
    message.append(text::join(candidates, ", ").as_str());
    Err(message)
}

/// What is chosen holds an index, and no candidate before it does; nothing is chosen only where
/// none does.
pub proof fn law_the_first_directory_with_an_index_is_chosen(flags: Seq<bool>)
    ensures
        match first_set(flags) {
            Some(position) => 0 <= position < flags.len() && flags[position] && forall|i: int|
                0 <= i < position ==> !#[trigger] flags[i],
            None => forall|i: int| 0 <= i < flags.len() ==> !#[trigger] flags[i],
        },
    decreases flags.len(),
{
    if flags.len() > 0 && !flags[0] {
        let rest = flags.skip(1);
        law_the_first_directory_with_an_index_is_chosen(rest);
        match first_set(rest) {
            Some(position) => {
                assert forall|i: int| 0 <= i < position + 1 implies !#[trigger] flags[i] by {
                    if i > 0 {
                        assert(rest[i - 1] == flags[i]);
                    }
                }
            },
            None => {
                assert forall|i: int| 0 <= i < flags.len() implies !#[trigger] flags[i] by {
                    if i > 0 {
                        assert(rest[i - 1] == flags[i]);
                    }
                }
            },
        }
    }
}

/// What an index is good for: its records, or what is wrong with it.
pub open spec fn usable_index(index: Result<Seq<CountryView>, Seq<char>>) -> Result<
    Seq<CountryView>,
    Seq<char>,
> {
    match index {
        Err(message) => Err("countries.json parse error: "@ + message),
        Ok(records) => if records.len() == 0 {
            Err("countries.json parsed but is empty"@)
        } else {
            Ok(records)
        },
    }
}

/// What an index is good for.
pub fn check_index(index: Result<Vec<CountryRecord>, String>) -> (checked: Result<
    Vec<CountryRecord>,
    String,
>)
    ensures
        ({
            let said: Result<Seq<CountryView>, Seq<char>> = match index {
                Ok(records) => Ok(dataset::country_views(records@)),
                Err(message) => Err(message@),
            };
            match checked {
                Ok(records) => usable_index(said) == Ok::<Seq<CountryView>, Seq<char>>(
                    dataset::country_views(records@),
                ),
                Err(message) => usable_index(said) == Err::<Seq<CountryView>, Seq<char>>(message@),
            }
        }),
{
    match index {
        Err(message) => {
            let mut problem: String = "countries.json parse error: ".to_string();
            problem.append(message.as_str());
            Err(problem)
        },
        Ok(records) => if records.len() == 0 {
            Err("countries.json parsed but is empty".to_string())
        } else {
            Ok(records)
        },
    }
}

/// Reads the index of countries out of what its file held, or hands on why the file could not be
/// read.
pub fn open_index(file: Result<String, String>) -> (index: Result<Vec<CountryRecord>, String>)
    ensures
        ({
            let said: Result<Seq<CountryView>, Seq<char>> = match file {
                Ok(json) => usable_index(
                    dataset::country_index(json::json_document(json@)),
                ),
                Err(problem) => Err(problem@),
            };
            match index {
                Ok(records) => said == Ok::<Seq<CountryView>, Seq<char>>(
                    dataset::country_views(records@),
                ),
                Err(message) => said == Err::<Seq<CountryView>, Seq<char>>(message@),
            }
        }),
{
    match file {
        Ok(json) => check_index(dataset::parse_country_index(json.as_str())),
        Err(problem) => Err(problem),
    }
}

/// What the file of a country is good for: its stations, or what is wrong with it, with the name
/// of the file before it.
pub open spec fn usable_list(
    file: Seq<char>,
    list: Result<Seq<StationView>, Seq<char>>,
) -> Result<Seq<StationView>, Seq<char>> {
    match list {
        Ok(stations) => Ok(stations),
        Err(message) => Err(file + ": "@ + message),
    }
}

/// What the file of a country is good for.
pub fn check_list(file: &str, list: Result<Vec<StationRecord>, String>) -> (checked: Result<
    Vec<StationRecord>,
    String,
>)
    ensures
        ({
            let said: Result<Seq<StationView>, Seq<char>> = match list {
                Ok(records) => Ok(dataset::station_views(records@)),
                Err(message) => Err(message@),
            };
            match checked {
                Ok(records) => usable_list(file@, said) == Ok::<Seq<StationView>, Seq<char>>(
                    dataset::station_views(records@),
                ),
                Err(message) => usable_list(file@, said) == Err::<Seq<StationView>, Seq<char>>(
                    message@,
                ),
            }
        }),
{
    match list {
        Ok(records) => Ok(records),
        Err(message) => {
            let mut problem: String = file.to_string();
            problem.append(": ");
            problem.append(message.as_str());
            Err(problem)
        },
    }
}

/// Reads the stations of a country out of what its file held.
pub fn open_list(entry: &CountryEntry, json: &str) -> (list: Result<Vec<StationRecord>, String>)
    ensures
        ({
            let said = usable_list(
                entry.file@,
                dataset::station_list(json::json_document(json@), entry.name@),
            );
            match list {
                Ok(records) => said == Ok::<Seq<StationView>, Seq<char>>(
                    dataset::station_views(records@),
                ),
                Err(message) => said == Err::<Seq<StationView>, Seq<char>>(message@),
            }
        }),
{
    check_list(
        entry.file.as_str(),
        dataset::parse_country_stations(json, entry.name.as_str()),
    )
}

/// A country and its stations.
pub struct CountryRow {
    pub name: String,
    pub stations: Vec<Station>,
}

/// The rows are in the order of their names, and no name occurs twice.
pub open spec fn in_order(rows: Seq<CountryRow>) -> bool {
    forall|i: int, j: int|
        0 <= i < j < rows.len() ==> text::precedes(
            #[trigger] rows[i].name@,
            #[trigger] rows[j].name@,
        )
}

/// A row has the name.
pub open spec fn has_row(rows: Seq<CountryRow>, name: Seq<char>) -> bool {
    exists|i: int| 0 <= i < rows.len() && #[trigger] rows[i].name@ == name
}

/// Where the row with the name stands.
pub open spec fn row_index(rows: Seq<CountryRow>, name: Seq<char>) -> int {
    choose|i: int| 0 <= i < rows.len() && #[trigger] rows[i].name@ == name
}

/// What the rows say of each name.
pub open spec fn rows_map(rows: Seq<CountryRow>) -> Map<Seq<char>, Seq<Station>> {
    Map::new(|name: Seq<char>| has_row(rows, name), |name: Seq<char>| rows[row_index(rows, name)].stations@)
}

/// How many stations the countries with some names have together.
pub open spec fn total_of(table: Map<Seq<char>, Seq<Station>>, names: Seq<Seq<char>>) -> nat
    decreases names.len(),
{
    if names.len() == 0 {
        0
    } else {
        total_of(table, names.drop_last()) + table[names.last()].len()
    }
}

/// The stations of each country, in the order of the countries' names.
pub struct CountryTable {
    rows: Vec<CountryRow>,
}

impl View for CountryTable {
    type V = Map<Seq<char>, Seq<Station>>;

    closed spec fn view(&self) -> Map<Seq<char>, Seq<Station>> {
        rows_map(self.rows@)
    }
}

/// Of a name that a row has, the map says what the row holds.
proof fn lemma_row_is_in_map(rows: Seq<CountryRow>, at: int)
    requires
        in_order(rows),
        0 <= at < rows.len(),
    ensures
        rows_map(rows).contains_key(rows[at].name@),
        rows_map(rows)[rows[at].name@] == rows[at].stations@,
{
    let name = rows[at].name@;
    assert(has_row(rows, name));
    let found = row_index(rows, name);
    if found < at {
        text::lemma_precedes_is_total(rows[found].name@, rows[at].name@);
    } else if at < found {
        text::lemma_precedes_is_total(rows[at].name@, rows[found].name@);
    }
}

impl CountryTable {
    /// The names come in their order, each once.
    pub closed spec fn wf(&self) -> bool {
        in_order(self.rows@)
    }

    /// The names of the countries, in their order.
    pub closed spec fn names(&self) -> Seq<Seq<char>> {
        Seq::new(self.rows@.len(), |i: int| self.rows@[i].name@)
    }

    /// A table without countries.
    pub fn new() -> (table: Self)
        ensures
            table.wf(),
            table@ == Map::<Seq<char>, Seq<Station>>::empty(),
    {
        let table = CountryTable { rows: Vec::new() };
        assert(table@ =~= Map::<Seq<char>, Seq<Station>>::empty());
        table
    }

    /// How many countries there are.
    pub fn len(&self) -> (len: usize)
        ensures
            len == self.names().len(),
    {
        self.rows.len()
    }

    /// The name of a country.
    pub fn name(&self, at: usize) -> (name: &str)
        requires
            at < self.names().len(),
        ensures
            name@ == self.names()[at as int],
    {
        self.rows[at].name.as_str()
    }

    /// The stations of a country, by its position.
    pub fn stations(&self, at: usize) -> (stations: &Vec<Station>)
        requires
            self.wf(),
            at < self.names().len(),
        ensures
            self@.contains_key(self.names()[at as int]),
            stations@ == self@[self.names()[at as int]],
    {
        proof {
            lemma_row_is_in_map(self.rows@, at as int);
        }
        &self.rows[at].stations
    }

    /// How many stations there are in all countries together.
    pub fn station_count(&self) -> (count: u128)
        requires
            self.wf(),
        ensures
            count == total_of(self@, self.names()),
    {
        let mut count: u128 = 0;
        let ghost names = self.names();
        for position in 0..self.rows.len()
            invariant
                self.wf(),
                names == self.names(),
                count == total_of(self@, names.take(position as int)),
                count <= position * 0xFFFF_FFFF_FFFF_FFFF,
        {
            proof {
                assert(names.take(position + 1).drop_last() =~= names.take(position as int));
                lemma_row_is_in_map(self.rows@, position as int);
                assert(position * 0xFFFF_FFFF_FFFF_FFFF + 0xFFFF_FFFF_FFFF_FFFF == (position + 1)
                    * 0xFFFF_FFFF_FFFF_FFFF) by (nonlinear_arith);
            }
            count = count + self.rows[position].stations.len() as u128;
        }
        assert(names.take(names.len() as int) =~= names);
        count
    }

    /// The stations of a country, by its name.
    pub fn get(&self, name: &str) -> (stations: Option<&Vec<Station>>)
        requires
            self.wf(),
        ensures
            match stations {
                Some(found) => self@.contains_key(name@) && self@[name@] == found@,
                None => !self@.contains_key(name@),
            },
    {
        let wanted: Vec<char> = text::chars_of(name);
        for position in 0..self.rows.len()
            invariant
                self.wf(),
                wanted@ == name@,
                forall|i: int| 0 <= i < position ==> (#[trigger] self.rows@[i]).name@ != name@,
        {
            let chars: Vec<char> = text::chars_of(self.rows[position].name.as_str());
            if text::same_chars(chars.as_slice(), wanted.as_slice()) {
                proof {
                    lemma_row_is_in_map(self.rows@, position as int);
                }
                return Some(&self.rows[position].stations);
            }
        }
        None
    }

    /// Puts the stations of a country into the table, in place of those that it had.
    pub fn insert(&mut self, name: String, stations: Vec<Station>)
        requires
            old(self).wf(),
        ensures
            final(self).wf(),
            final(self)@ == old(self)@.insert(name@, stations@),
    {
        let ghost before = self.rows@;
        let wanted: Vec<char> = text::chars_of(name.as_str());
        let mut position: usize = 0;
        let mut found: bool = false;
        while position < self.rows.len()
            invariant_except_break
                !found,
            invariant
                self.rows@ == before,
                in_order(before),
                wanted@ == name@,
                position <= before.len(),
                forall|i: int|
                    0 <= i < position ==> text::precedes((#[trigger] before[i]).name@, name@),
            ensures
                position <= before.len(),
                found ==> position < before.len() && before[position as int].name@ == name@,
                !found && position < before.len() ==> text::precedes(
                    name@,
                    before[position as int].name@,
                ),
            decreases before.len() - position,
        {
            let chars: Vec<char> = text::chars_of(self.rows[position].name.as_str());
            match text::order(chars.as_slice(), wanted.as_slice()) {
                TextOrder::Before => {
                    position += 1;
                },
                TextOrder::Same => {
                    found = true;
                    break;
                },
                TextOrder::After => {
                    break;
                },
            }
        }
        let row = CountryRow { name, stations };
        if found {
            self.rows.set(position, row);
            proof {
                lemma_replaced(before, position as int, row);
            }
        } else {
            self.rows.insert(position, row);
            proof {
                lemma_inserted(before, position as int, row);
            }
        }
    }
}

/// A row in place of one of the same name keeps the order and changes what is said of that name.
proof fn lemma_replaced(rows: Seq<CountryRow>, at: int, row: CountryRow)
    requires
        in_order(rows),
        0 <= at < rows.len(),
        rows[at].name@ == row.name@,
    ensures
        in_order(rows.update(at, row)),
        rows_map(rows.update(at, row)) == rows_map(rows).insert(row.name@, row.stations@),
{
    let new = rows.update(at, row);
    assert forall|i: int, j: int| 0 <= i < j < new.len() implies text::precedes(
        #[trigger] new[i].name@,
        #[trigger] new[j].name@,
    ) by {
        assert(text::precedes(rows[i].name@, rows[j].name@));
    }
    assert forall|name: Seq<char>| has_row(new, name) == (has_row(rows, name) || name == row.name@) by {
        if has_row(new, name) {
            let i = choose|i: int| 0 <= i < new.len() && #[trigger] new[i].name@ == name;
            assert(rows[i].name@ == name);
        }
        if has_row(rows, name) {
            let i = choose|i: int| 0 <= i < rows.len() && #[trigger] rows[i].name@ == name;
            assert(new[i].name@ == name);
        }
        if name == row.name@ {
            assert(new[at].name@ == name);
        }
    }
    assert forall|name: Seq<char>| has_row(new, name) implies new[row_index(new, name)].stations@
        == rows_map(rows).insert(row.name@, row.stations@)[name] by {
        let i = choose|i: int| 0 <= i < new.len() && #[trigger] new[i].name@ == name;
        lemma_row_is_in_map(new, i);
        if i != at {
            lemma_row_is_in_map(rows, i);
            lemma_row_is_in_map(new, at);
            if name == row.name@ {
                text::lemma_precedes_is_total(new[at].name@, new[i].name@);
                if i < at {
                    assert(text::precedes(new[i].name@, new[at].name@));
                } else {
                    assert(text::precedes(new[at].name@, new[i].name@));
                }
            }
        }
    }
    assert(rows_map(new) =~= rows_map(rows).insert(row.name@, row.stations@));
}

/// A row in its place keeps the order and adds what it says.
proof fn lemma_inserted(rows: Seq<CountryRow>, at: int, row: CountryRow)
    requires
        in_order(rows),
        0 <= at <= rows.len(),
        forall|i: int| 0 <= i < at ==> text::precedes((#[trigger] rows[i]).name@, row.name@),
        at < rows.len() ==> text::precedes(row.name@, rows[at].name@),
    ensures
        in_order(rows.insert(at, row)),
        rows_map(rows.insert(at, row)) == rows_map(rows).insert(row.name@, row.stations@),
{
    let new = rows.insert(at, row);
    assert forall|i: int| at <= i < rows.len() implies text::precedes(
        row.name@,
        (#[trigger] rows[i]).name@,
    ) by {
        if i > at {
            assert(text::precedes(rows[at].name@, rows[i].name@));
            text::lemma_precedes_is_transitive(row.name@, rows[at].name@, rows[i].name@);
        }
    }
    assert forall|i: int, j: int| 0 <= i < j < new.len() implies text::precedes(
        #[trigger] new[i].name@,
        #[trigger] new[j].name@,
    ) by {
        let from = if i < at { i } else { i - 1 };
        let to = if j < at { j } else { j - 1 };
        if i == at {
            assert(new[j] == rows[to]);
        } else if j == at {
            assert(new[i] == rows[from]);
        } else {
            assert(new[i] == rows[from] && new[j] == rows[to]);
            assert(text::precedes(rows[from].name@, rows[to].name@));
        }
    }
    assert forall|name: Seq<char>| has_row(new, name) == (has_row(rows, name) || name == row.name@) by {
        if has_row(new, name) {
            let i = choose|i: int| 0 <= i < new.len() && #[trigger] new[i].name@ == name;
            if i < at {
                assert(rows[i].name@ == name);
            } else if i > at {
                assert(rows[i - 1].name@ == name);
            }
        }
        if has_row(rows, name) {
            let i = choose|i: int| 0 <= i < rows.len() && #[trigger] rows[i].name@ == name;
            assert(new[if i < at { i } else { i + 1 }].name@ == name);
        }
        if name == row.name@ {
            assert(new[at].name@ == name);
        }
    }
    assert forall|name: Seq<char>| has_row(new, name) implies new[row_index(new, name)].stations@
        == rows_map(rows).insert(row.name@, row.stations@)[name] by {
        let i = choose|i: int| 0 <= i < new.len() && #[trigger] new[i].name@ == name;
        lemma_row_is_in_map(new, i);
        if i != at {
            let from = if i < at { i } else { i - 1 };
            assert(new[i] == rows[from]);
            lemma_row_is_in_map(rows, from);
            text::lemma_precedes_is_total(new[at].name@, new[i].name@);
            text::lemma_precedes_is_total(new[i].name@, new[at].name@);
            if i < at {
                assert(text::precedes(new[i].name@, new[at].name@));
            } else {
                assert(text::precedes(new[at].name@, new[i].name@));
            }
        }
    }
    assert(rows_map(new) =~= rows_map(rows).insert(row.name@, row.stations@));
}

/// The countries of a table come in the order of their names, each once, and are those of which
/// the table says something.
pub proof fn law_countries_come_in_order(table: CountryTable)
    requires
        table.wf(),
    ensures
        forall|i: int, j: int|
            0 <= i < j < table.names().len() ==> text::precedes(
                #[trigger] table.names()[i],
                #[trigger] table.names()[j],
            ),
        forall|name: Seq<char>|
            table.names().contains(name) == #[trigger] table@.contains_key(name),
{
    let rows = table.rows@;
    assert forall|i: int, j: int| 0 <= i < j < table.names().len() implies text::precedes(
        #[trigger] table.names()[i],
        #[trigger] table.names()[j],
    ) by {
        assert(text::precedes(rows[i].name@, rows[j].name@));
    }
    assert forall|name: Seq<char>|
        table.names().contains(name) == #[trigger] table@.contains_key(name) by {
        if has_row(rows, name) {
            let i = choose|i: int| 0 <= i < rows.len() && #[trigger] rows[i].name@ == name;
            assert(table.names()[i] == name);
        }
        if table.names().contains(name) {
            let i = table.names().index_of(name);
            assert(rows[i].name@ == name);
        }
    }
}

/// A country without stations is in no table of a load.
pub open spec fn no_country_is_empty(table: Map<Seq<char>, Seq<Station>>) -> bool {
    forall|name: Seq<char>| #[trigger] table.contains_key(name) ==> table[name].len() > 0
}

/// The state of a load.
pub struct LoadView {
    pub by_country: Map<Seq<char>, Seq<Station>>,
    /// How many files could not be read or parsed.
    pub skipped: nat,
    /// How many files hold another number of stations than the index says.
    pub mismatched: nat,
    pub first_problem: Option<Seq<char>>,
}

/// A load that has read nothing yet.
pub open spec fn empty_load() -> LoadView {
    LoadView { by_country: Map::empty(), skipped: 0, mismatched: 0, first_problem: None }
}

/// The first problem, or else another.
pub open spec fn or_problem(first: Option<Seq<char>>, other: Seq<char>) -> Option<Seq<char>> {
    match first {
        Some(problem) => Some(problem),
        None => Some(other),
    }
}

/// What is said of a file that holds another number of stations than the index says.
pub open spec fn mismatch_text(file: Seq<char>, found: nat, count: nat) -> Seq<char> {
    file + " lists "@ + text::decimal_of(found) + " stations but countries.json says "@
        + text::decimal_of(count)
}

/// The load after the file of one more country. A file that could not be read or parsed is
/// skipped, and one that disagrees with the index is kept all the same: it is what can be played.
pub open spec fn after_country(
    load: LoadView,
    name: Seq<char>,
    file: Seq<char>,
    count: int,
    loaded: Result<Seq<Station>, Seq<char>>,
) -> LoadView {
    match loaded {
        Err(problem) => LoadView {
            skipped: load.skipped + 1,
            first_problem: or_problem(load.first_problem, problem),
            ..load
        },
        Ok(stations) => {
            let disagrees = count > 0 && count != stations.len();
            LoadView {
                by_country: if stations.len() > 0 {
                    load.by_country.insert(name, stations)
                } else {
                    load.by_country
                },
                skipped: load.skipped,
                mismatched: if disagrees { load.mismatched + 1 } else { load.mismatched },
                first_problem: if disagrees {
                    or_problem(
                        load.first_problem,
                        mismatch_text(file, stations.len(), count as nat),
                    )
                } else {
                    load.first_problem
                },
            }
        },
    }
}

/// What is said of a load in which nothing could be read.
pub open spec fn failure_text(data_dir: Seq<char>, first_problem: Option<Seq<char>>) -> Seq<char> {
    "no country files could be read from "@ + data_dir + (match first_problem {
        Some(problem) => " - "@ + problem,
        None => Seq::empty(),
    })
}

/// What is said of the problems of a load that went through.
pub open spec fn warning_text(skipped: nat, mismatched: nat, problem: Seq<char>) -> Seq<char> {
    if skipped == 0 && mismatched == 1 {
        problem
    } else if skipped == 0 {
        text::decimal_of(mismatched) + " country files disagree with the index, first: "@ + problem
    } else if skipped == 1 && mismatched == 0 {
        "1 country file skipped: "@ + problem
    } else if mismatched == 0 {
        text::decimal_of(skipped) + " country files skipped, first: "@ + problem
    } else {
        text::decimal_of(skipped) + " country files skipped, "@ + text::decimal_of(mismatched)
            + " disagree with the index, first: "@ + problem
    }
}

/// The warning that goes with a load.
pub open spec fn warning_of(load: LoadView) -> Option<Seq<char>> {
    match load.first_problem {
        Some(problem) => Some(warning_text(load.skipped, load.mismatched, problem)),
        None => None,
    }
}

/// What a load gives.
pub struct LoadResult {
    pub by_country: CountryTable,
    /// What went wrong on the way without failing the load.
    pub warning: Option<String>,
    pub data_dir: String,
}

/// Stations that were loaded, or why they were not.
pub open spec fn loaded_view(loaded: Result<Vec<Station>, String>) -> Result<
    Seq<Station>,
    Seq<char>,
> {
    match loaded {
        Ok(stations) => Ok(stations@),
        Err(problem) => Err(problem@),
    }
}

/// A load under way: the countries are taken in the order of the index.
pub struct Loader {
    data_dir: String,
    entries: Vec<CountryEntry>,
    next: usize,
    by_country: CountryTable,
    skipped: usize,
    mismatched: usize,
    first_problem: Option<String>,
}

impl View for Loader {
    type V = LoadView;

    closed spec fn view(&self) -> LoadView {
        LoadView {
            by_country: self.by_country@,
            skipped: self.skipped as nat,
            mismatched: self.mismatched as nat,
            first_problem: text::optional_text(self.first_problem),
        }
    }
}

impl Loader {
    /// The table is in order, and each country has made one problem at most.
    pub closed spec fn wf(&self) -> bool {
        &&& self.by_country.wf()
        &&& self.next <= self.entries@.len()
        &&& self.skipped + self.mismatched <= self.next
    }

    /// The entries of the index.
    pub closed spec fn entries(&self) -> Seq<CountryEntry> {
        self.entries@
    }

    /// How many countries have been taken.
    pub closed spec fn taken(&self) -> nat {
        self.next as nat
    }

    /// The directory that is loaded from.
    pub closed spec fn directory(&self) -> Seq<char> {
        self.data_dir@
    }

    /// Begins a load of the countries of an index.
    pub fn new(data_dir: String, entries: Vec<CountryEntry>) -> (loader: Self)
        ensures
            loader.wf(),
            loader@ == empty_load(),
            loader.entries() == entries@,
            loader.taken() == 0,
            loader.directory() == data_dir@,
    {
        Loader {
            data_dir,
            entries,
            next: 0,
            by_country: CountryTable::new(),
            skipped: 0,
            mismatched: 0,
            first_problem: None,
        }
    }

    /// The country whose file is to be read next, until all have been taken.
    pub fn current(&self) -> (entry: Option<&CountryEntry>)
        requires
            self.wf(),
        ensures
            match entry {
                Some(found) => self.taken() < self.entries().len() && *found
                    == self.entries()[self.taken() as int],
                None => self.taken() == self.entries().len(),
            },
    {
        if self.next < self.entries.len() {
            Some(&self.entries[self.next])
        } else {
            None
        }
    }

    /// Remembers a problem, if it is the first.
    fn note_problem(&mut self, problem: String)
        ensures
            *final(self) == (Loader { first_problem: final(self).first_problem, ..*old(self) }),
            text::optional_text(final(self).first_problem) == or_problem(
                text::optional_text(old(self).first_problem),
                problem@,
            ),
    {
        if self.first_problem.is_none() {
            self.first_problem = Some(problem);
        }
    }

    /// Takes what the file of the current country gave.
    pub fn take(&mut self, loaded: Result<Vec<Station>, String>)
        requires
            old(self).wf(),
            old(self).taken() < old(self).entries().len(),
        ensures
            final(self).wf(),
            final(self).entries() == old(self).entries(),
            final(self).directory() == old(self).directory(),
            final(self).taken() == old(self).taken() + 1,
            ({
                let entry = old(self).entries()[old(self).taken() as int];
                final(self)@ == after_country(
                    old(self)@,
                    entry.name@,
                    entry.file@,
                    entry.count as int,
                    loaded_view(loaded),
                )
            }),
    {
        let at: usize = self.next;
        assert(at < self.entries.len());
        self.next = at + 1;
        match loaded {
            Err(problem) => {
                self.skipped = self.skipped + 1;
                self.note_problem(problem);
            },
            Ok(stations) => {
                let count: i32 = self.entries[at].count;
                if count > 0 && count as u64 != stations.len() as u64 {
                    self.mismatched = self.mismatched + 1;
                    let mut problem: String = self.entries[at].file.clone();
                    problem.append(" lists ");
                    problem.append(text::decimal(stations.len() as u128).as_str());
                    problem.append(" stations but countries.json says ");
                    problem.append(text::decimal(count as u128).as_str());
                    self.note_problem(problem);
                }
                if stations.len() > 0 {
                    self.by_country.insert(self.entries[at].name.clone(), stations);
                }
            },
        }
    }

    /// Ends the load. It fails only where no country at all has a station.
    pub fn finish(self) -> (result: Result<LoadResult, String>)
        requires
            self.wf(),
        ensures
            match result {
                Ok(load) => {
                    &&& self@.by_country.dom() != Set::<Seq<char>>::empty()
                    &&& load.by_country.wf()
                    &&& load.by_country@ == self@.by_country
                    &&& text::optional_text(load.warning) == warning_of(self@)
                    &&& load.data_dir@ == self.directory()
                },
                Err(message) => {
                    &&& self@.by_country.dom() == Set::<Seq<char>>::empty()
                    &&& message@ == failure_text(self.directory(), self@.first_problem)
                },
            },
    {
        proof {
            law_countries_come_in_order(self.by_country);
        }
        if self.by_country.len() == 0 {
            let mut message: String = "no country files could be read from ".to_string();
            message.append(self.data_dir.as_str());
            if let Some(problem) = &self.first_problem {
                message.append(" - ");
                message.append(problem.as_str());
            }
            proof {
                assert forall|name: Seq<char>| !self@.by_country.dom().contains(name) by {
                    assert(self.by_country@.contains_key(name) == self.by_country.names().contains(
                        name,
                    ));
                }
                assert(self@.by_country.dom() =~= Set::<Seq<char>>::empty());
                assert(message@ =~= failure_text(self.directory(), self@.first_problem));
            }
            return Err(message);
        }
        proof {
            let name = self.by_country.names()[0];
            assert(self.by_country.names().contains(name));
            assert(self.by_country@.contains_key(name));
        }
        let warning: Option<String> = match &self.first_problem {
            Some(problem) => Some(
                describe_problems(self.skipped, self.mismatched, problem.as_str()),
            ),
            None => None,
        };
        Ok(LoadResult { by_country: self.by_country, warning, data_dir: self.data_dir })
    }
}

/// What is said of the problems of a load that went through.
pub fn describe_problems(skipped: usize, mismatched: usize, problem: &str) -> (warning: String)
    ensures
        warning@ == warning_text(skipped as nat, mismatched as nat, problem@),
{
    let mut warning: String = String::new();
    if skipped == 0 && mismatched == 1 {
    } else if skipped == 0 {
        warning.append(text::decimal(mismatched as u128).as_str());
        warning.append(" country files disagree with the index, first: ");
    } else if skipped == 1 && mismatched == 0 {
        warning.append("1 country file skipped: ");
    } else if mismatched == 0 {
        warning.append(text::decimal(skipped as u128).as_str());
        warning.append(" country files skipped, first: ");
    } else {
        warning.append(text::decimal(skipped as u128).as_str());
        warning.append(" country files skipped, ");
        warning.append(text::decimal(mismatched as u128).as_str());
        warning.append(" disagree with the index, first: ");
    }
    warning.append(problem);
    assert(warning@ =~= warning_text(skipped as nat, mismatched as nat, problem@));
    warning
}

/// The load after the files of some countries, in order.
pub open spec fn after_countries(
    entries: Seq<CountryEntry>,
    loaded: Seq<Result<Seq<Station>, Seq<char>>>,
) -> LoadView
    decreases loaded.len(),
{
    if loaded.len() == 0 {
        empty_load()
    } else {
        let entry = entries[loaded.len() - 1];
        after_country(
            after_countries(entries, loaded.drop_last()),
            entry.name@,
            entry.file@,
            entry.count as int,
            loaded.last(),
        )
    }
}

/// What each file gave.
pub open spec fn loaded_views(loaded: Seq<Result<Vec<Station>, String>>) -> Seq<
    Result<Seq<Station>, Seq<char>>,
> {
    Seq::new(loaded.len(), |i: int| loaded_view(loaded[i]))
}

/// Makes the station list out of the entries of the index and what the file of each gave.
pub fn load_from(
    data_dir: String,
    entries: Vec<CountryEntry>,
    loaded: Vec<Result<Vec<Station>, String>>,
) -> (result: Result<LoadResult, String>)
    requires
        loaded@.len() == entries@.len(),
    ensures
        ({
            let load = after_countries(entries@, loaded_views(loaded@));
            match result {
                Ok(list) => {
                    &&& load.by_country.dom() != Set::<Seq<char>>::empty()
                    &&& list.by_country.wf()
                    &&& list.by_country@ == load.by_country
                    &&& text::optional_text(list.warning) == warning_of(load)
                    &&& list.data_dir@ == data_dir@
                },
                Err(message) => {
                    &&& load.by_country.dom() == Set::<Seq<char>>::empty()
                    &&& message@ == failure_text(data_dir@, load.first_problem)
                },
            }
        }),
{
    let ghost views = loaded_views(loaded@);
    let mut rest: Vec<Result<Vec<Station>, String>> = loaded;
    let mut loader = Loader::new(data_dir, entries);
    assert(views.take(0) =~= Seq::empty());
    while rest.len() > 0
        invariant
            loader.wf(),
            loader.entries() == entries@,
            loader.directory() == data_dir@,
            views.len() == entries@.len(),
            loader.taken() + rest@.len() == views.len(),
            loaded_views(rest@) =~= views.skip(loader.taken() as int),
            loader@ == after_countries(entries@, views.take(loader.taken() as int)),
        decreases rest@.len(),
    {
        let ghost before = rest@;
        let ghost taken = loader.taken() as int;
        proof {
            assert(views[taken] == loaded_views(before)[0]);
            assert(views.take(taken + 1).drop_last() =~= views.take(taken));
        }
        let next: Result<Vec<Station>, String> = rest.remove(0);
        loader.take(next);
        assert(loaded_views(rest@) =~= loaded_views(before).skip(1));
    }
    assert(views.take(views.len() as int) =~= views);
    loader.finish()
}

/// A bad file costs no other country anything: a country has stations after a load if and only if
/// some file of that name gave some, whatever became of the other files, and no country is there
/// without stations.
pub proof fn law_a_bad_file_costs_only_its_country(
    entries: Seq<CountryEntry>,
    loaded: Seq<Result<Seq<Station>, Seq<char>>>,
    name: Seq<char>,
)
    requires
        loaded.len() <= entries.len(),
    ensures
        after_countries(entries, loaded).by_country.contains_key(name) <==> exists|i: int|
            0 <= i < loaded.len() && (#[trigger] entries[i]).name@ == name && gives_stations(
                loaded[i],
            ),
        no_country_is_empty(after_countries(entries, loaded).by_country),
    decreases loaded.len(),
{
    if loaded.len() > 0 {
        let last = loaded.len() - 1;
        let earlier = loaded.drop_last();
        law_a_bad_file_costs_only_its_country(entries, earlier, name);
        if after_countries(entries, earlier).by_country.contains_key(name) {
            let i = choose|i: int|
                0 <= i < earlier.len() && (#[trigger] entries[i]).name@ == name && gives_stations(
                    earlier[i],
                );
            assert(gives_stations(loaded[i]));
        }
        if exists|i: int|
            0 <= i < loaded.len() && (#[trigger] entries[i]).name@ == name && gives_stations(
                loaded[i],
            ) {
            let i = choose|i: int|
                0 <= i < loaded.len() && (#[trigger] entries[i]).name@ == name && gives_stations(
                    loaded[i],
                );
            if i < last {
                assert(gives_stations(earlier[i]));
            }
        }
        if entries[last].name@ == name && gives_stations(loaded[last]) {
            assert(0 <= last < loaded.len());
        }
    }
}

/// Under a name stand the stations of the last file of that name that gave some, all of them and
/// in order, whatever became of the other files.
pub proof fn law_the_last_file_of_a_name_counts(
    entries: Seq<CountryEntry>,
    loaded: Seq<Result<Seq<Station>, Seq<char>>>,
    at: int,
)
    requires
        0 <= at < loaded.len() <= entries.len(),
        gives_stations(loaded[at]),
        forall|i: int|
            at < i < loaded.len() && (#[trigger] entries[i]).name@ == entries[at].name@
                ==> !gives_stations(loaded[i]),
    ensures
        after_countries(entries, loaded).by_country.contains_key(entries[at].name@),
        Ok::<Seq<Station>, Seq<char>>(
            after_countries(entries, loaded).by_country[entries[at].name@],
        ) == loaded[at],
    decreases loaded.len(),
{
    let last = loaded.len() - 1;
    if at < last {
        let earlier = loaded.drop_last();
        assert forall|i: int|
            at < i < earlier.len() && (#[trigger] entries[i]).name@
                == entries[at].name@ implies !gives_stations(earlier[i]) by {
            assert(earlier[i] == loaded[i]);
        }
        law_the_last_file_of_a_name_counts(entries, earlier, at);
        assert(entries[last].name@ == entries[at].name@ ==> !gives_stations(loaded[last]));
    }
}

/// The file of a country gave stations.
pub open spec fn gives_stations(loaded: Result<Seq<Station>, Seq<char>>) -> bool {
    match loaded {
        Ok(stations) => stations.len() > 0,
        Err(_) => false,
    }
}

/// The file of a country made a problem: it could not be loaded, or it disagrees with the index.
pub open spec fn makes_problem(entry: CountryEntry, loaded: Result<Seq<Station>, Seq<char>>) -> bool {
    match loaded {
        Ok(stations) => entry.count > 0 && entry.count != stations.len(),
        Err(_) => true,
    }
}

/// A load warns if and only if some file made a problem, and each file makes one at most.
pub proof fn law_every_problem_is_counted(
    entries: Seq<CountryEntry>,
    loaded: Seq<Result<Seq<Station>, Seq<char>>>,
)
    requires
        loaded.len() <= entries.len(),
    ensures
        warning_of(after_countries(entries, loaded)) is Some <==> exists|i: int|
            0 <= i < loaded.len() && makes_problem(#[trigger] entries[i], loaded[i]),
        warning_of(after_countries(entries, loaded)) is Some <==> after_countries(
            entries,
            loaded,
        ).skipped + after_countries(entries, loaded).mismatched > 0,
        after_countries(entries, loaded).skipped + after_countries(entries, loaded).mismatched
            <= loaded.len(),
    decreases loaded.len(),
{
    if loaded.len() > 0 {
        let last = loaded.len() - 1;
        let earlier = loaded.drop_last();
        law_every_problem_is_counted(entries, earlier);
        if exists|i: int|
            0 <= i < earlier.len() && makes_problem(#[trigger] entries[i], earlier[i]) {
            let i = choose|i: int|
                0 <= i < earlier.len() && makes_problem(#[trigger] entries[i], earlier[i]);
            assert(makes_problem(entries[i], loaded[i]));
        }
        if exists|i: int|
            0 <= i < loaded.len() && makes_problem(#[trigger] entries[i], loaded[i]) {
            let i = choose|i: int|
                0 <= i < loaded.len() && makes_problem(#[trigger] entries[i], loaded[i]);
            if i < last {
                assert(makes_problem(entries[i], earlier[i]));
            }
        }
        if makes_problem(entries[last], loaded[last]) {
            assert(0 <= last < loaded.len());
        }
    }
}

/// The places are tried in this order: up to four around the executable, the nearest first, then
/// that of the user, where it is known, then the two where a package puts the data, and then those
/// relative to the working directory.
pub proof fn law_places_are_tried_from_near_to_far(levels: nat, home: Option<DataHomeView>)
    ensures
        ({
            let order = search_order(levels, home);
            let near = if levels < 4 { levels as int } else { 4 };
            let own = if home is Some { 1int } else { 0 };
            &&& order.len() == near + own + 4
            &&& forall|i: int|
                0 <= i < near ==> #[trigger] order[i] == CandidateView::AboveExecutable(i)
            &&& home matches Some(place) ==> order[near] == CandidateView::InDataHome(place)
            &&& order[near + own] == CandidateView::Path("/usr/local/share/rworldradio/data"@)
            &&& order[near + own + 1] == CandidateView::Path("/usr/share/rworldradio/data"@)
            &&& order[near + own + 2] == CandidateView::Path("../data"@)
            &&& order[near + own + 3] == CandidateView::Path("data"@)
        }),
        places_around_executable(levels).len() == (if levels < 4 { levels as int } else { 4 }),
        forall|i: int|
            0 <= i < levels && i < 4 ==> #[trigger] places_around_executable(levels)[i]
                == CandidateView::AboveExecutable(i),
{
}

/// The directory that is named for the data of the user counts, unless it is empty; else it is a
/// place in the home directory, where that is known.
pub proof fn law_the_named_directory_counts_unless_it_is_empty(
    named: Seq<char>,
    home: Seq<char>,
)
    requires
        named.len() > 0,
    ensures
        data_home_of(Some(named), Some(home)) == Some(DataHomeView::Directory(named)),
        data_home_of(Some(named), None) == Some(DataHomeView::Directory(named)),
        data_home_of(Some(Seq::empty()), Some(home)) == Some(DataHomeView::LocalShareOf(home)),
        data_home_of(None, Some(home)) == Some(DataHomeView::LocalShareOf(home)),
        data_home_of(Some(Seq::empty()), None) is None,
        data_home_of(None, None) is None,
{
}

/// Where no place holds an index, all places that were looked in are told, in order.
pub proof fn law_all_places_are_told(places: Seq<Seq<char>>, place: Seq<char>)
    ensures
        not_found_text(seq![place]) == "data/countries.json not found. Looked in: "@ + place,
        places.len() > 0 ==> not_found_text(places.push(place)) == not_found_text(places) + ", "@
            + place,
{
    assert(places.push(place).drop_last() =~= places);
    if places.len() > 0 {
        let all = text::joined(places, ", "@);
        let start = "data/countries.json not found. Looked in: "@;
        assert(start + (all + ", "@ + place) =~= start + all + ", "@ + place);
    }
}

/// An index is of use if it could be parsed and is not empty, and then it is what was parsed. A list
/// is of use if it could be parsed; what is wrong with one is told with its file.
pub proof fn law_what_an_index_and_a_list_are_good_for(
    records: Seq<CountryView>,
    stations: Seq<StationView>,
    message: Seq<char>,
    file: Seq<char>,
)
    ensures
        records.len() > 0 ==> usable_index(Ok(records)) == Ok::<Seq<CountryView>, Seq<char>>(records),
        records.len() == 0 ==> usable_index(Ok(records)) == Err::<Seq<CountryView>, Seq<char>>(
            "countries.json parsed but is empty"@,
        ),
        usable_index(Err(message)) == Err::<Seq<CountryView>, Seq<char>>(
            "countries.json parse error: "@ + message,
        ),
        usable_list(file, Ok(stations)) == Ok::<Seq<StationView>, Seq<char>>(stations),
        usable_list(file, Err(message)) == Err::<Seq<StationView>, Seq<char>>(
            file + ": "@ + message,
        ),
{
}

/// What the file of one more country adds. One that could not be read is counted and costs nothing
/// else. One with stations puts them under the name of its country and leaves all other countries
/// as they are; one without stations puts nothing there. Where the index says another number, that
/// is counted. The first thing that went wrong is kept.
pub proof fn law_one_more_country_adds_its_own_stations(
    load: LoadView,
    name: Seq<char>,
    file: Seq<char>,
    count: int,
    stations: Seq<Station>,
    problem: Seq<char>,
    other: Seq<char>,
)
    requires
        other != name,
    ensures
        ({
            let after = after_country(load, name, file, count, Ok(stations));
            let differs = count > 0 && count != stations.len();
            &&& stations.len() > 0 ==> after.by_country.contains_key(name) && after.by_country[name]
                == stations
            &&& stations.len() == 0 ==> after.by_country == load.by_country
            &&& after.by_country.contains_key(other) == load.by_country.contains_key(other)
            &&& load.by_country.contains_key(other) ==> after.by_country[other]
                == load.by_country[other]
            &&& after.skipped == load.skipped
            &&& differs ==> after.mismatched == load.mismatched + 1
            &&& !differs ==> after.mismatched == load.mismatched && after.first_problem
                == load.first_problem
            &&& load.first_problem is Some ==> after.first_problem == load.first_problem
            &&& differs && load.first_problem is None ==> after.first_problem == Some(
                file + " lists "@ + text::decimal_of(stations.len())
                    + " stations but countries.json says "@ + text::decimal_of(count as nat),
            )
        }),
        ({
            let after = after_country(load, name, file, count, Err(problem));
            &&& after.by_country == load.by_country
            &&& after.skipped == load.skipped + 1
            &&& after.mismatched == load.mismatched
            &&& after.first_problem == (match load.first_problem {
                Some(first) => Some(first),
                None => Some(problem),
            })
        }),
        empty_load().by_country == Map::<Seq<char>, Seq<Station>>::empty(),
        empty_load().skipped == 0,
        empty_load().mismatched == 0,
        empty_load().first_problem is None,
{
}

/// A load takes one country after the other, each with what its own file gave.
pub proof fn law_countries_are_taken_one_after_the_other(
    entries: Seq<CountryEntry>,
    loaded: Seq<Result<Seq<Station>, Seq<char>>>,
    next: Result<Seq<Station>, Seq<char>>,
)
    requires
        loaded.len() < entries.len(),
    ensures
        after_countries(entries, loaded.push(next)) == after_country(
            after_countries(entries, loaded),
            entries[loaded.len() as int].name@,
            entries[loaded.len() as int].file@,
            entries[loaded.len() as int].count as int,
            next,
        ),
        after_countries(entries, Seq::empty()) == empty_load(),
{
    assert(loaded.push(next).drop_last() =~= loaded);
}

/// The problems of a load are told with their numbers and the first of them; one alone is told as it
/// is. A load without problems does not warn.
pub proof fn law_problems_are_told_with_their_numbers(
    skipped: nat,
    mismatched: nat,
    problem: Seq<char>,
    load: LoadView,
    data_dir: Seq<char>,
)
    ensures
        warning_text(0, 1, problem) == problem,
        mismatched > 1 ==> warning_text(0, mismatched, problem) == text::decimal_of(mismatched)
            + " country files disagree with the index, first: "@ + problem,
        warning_text(1, 0, problem) == "1 country file skipped: "@ + problem,
        skipped > 1 ==> warning_text(skipped, 0, problem) == text::decimal_of(skipped)
            + " country files skipped, first: "@ + problem,
        skipped > 0 && mismatched > 0 ==> warning_text(skipped, mismatched, problem)
            == text::decimal_of(skipped) + " country files skipped, "@ + text::decimal_of(mismatched)
            + " disagree with the index, first: "@ + problem,
        load.first_problem is None ==> warning_of(load) is None,
        load.first_problem == Some(problem) ==> warning_of(load) == Some(
            warning_text(load.skipped, load.mismatched, problem),
        ),
        failure_text(data_dir, None) == "no country files could be read from "@ + data_dir,
        failure_text(data_dir, Some(problem)) == "no country files could be read from "@ + data_dir
            + " - "@ + problem,
{
    let start = "no country files could be read from "@ + data_dir;
    assert(start + Seq::<char>::empty() =~= start);
    assert(start + (" - "@ + problem) =~= start + " - "@ + problem);
}

/// The number of stations of some countries is the sum of the numbers of each.
pub proof fn law_stations_are_counted_country_by_country(
    table: Map<Seq<char>, Seq<Station>>,
    names: Seq<Seq<char>>,
    name: Seq<char>,
)
    ensures
        total_of(table, Seq::empty()) == 0,
        total_of(table, names.push(name)) == total_of(table, names) + table[name].len(),
{
    assert(names.push(name).drop_last() =~= names);
}

/// Places and loads are what their values hold, each its own and in order.
pub proof fn law_places_and_loads_are_what_they_hold(
    home: DataHome,
    candidates: Seq<Candidate>,
    stations: Vec<Station>,
    problem: String,
    loaded: Seq<Result<Vec<Station>, String>>,
)
    ensures
        home_view(Some(home)) == Some(home@),
        home_view(None) is None,
        candidate_views(candidates).len() == candidates.len(),
        forall|i: int|
            0 <= i < candidates.len() ==> #[trigger] candidate_views(candidates)[i] == candidates[i]@,
        loaded_view(Ok(stations)) == Ok::<Seq<Station>, Seq<char>>(stations@),
        loaded_view(Err(problem)) == Err::<Seq<Station>, Seq<char>>(problem@),
        loaded_views(loaded).len() == loaded.len(),
        forall|i: int|
            0 <= i < loaded.len() ==> #[trigger] loaded_views(loaded)[i] == loaded_view(loaded[i]),
{
}

} // verus!
