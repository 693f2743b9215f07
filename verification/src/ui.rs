//! What the window shows: the list of countries, the list of stations, and the status row.
//!
//! Each list has a filter. The drawing is done by the caller, which reports clicks and what it
//! hears of the load and of the player.

use vstd::prelude::*;

use crate::player::{PlayerEvent, PlayerEventView};
use crate::station;
use crate::station::Station;
use crate::station_cache;
use crate::station_cache::{CountryTable, LoadResult};
use crate::text;

verus! {

/// How many milliseconds pass between two looks at the level while something plays.
pub const LEVEL_POLL_MILLISECONDS: u64 = 100;

/// What `str::to_lowercase` makes of a text.
pub uninterp spec fn lowercase_of(text: Seq<char>) -> Seq<char>;

/// `str::to_lowercase`: the text in lower case by the Unicode tables, a function of the text alone.
/// What that is for each text is left unsaid.
pub assume_specification[ str::to_lowercase ](s: &str) -> (lower: std::string::String)
    ensures
        lower@ == lowercase_of(s@),
;

/// What the player is doing.
#[derive(Clone, Copy, Debug, PartialEq, Eq, Structural)]
pub enum PlaybackState {
    Idle,
    Connecting,
    Playing,
    Failed,
}

/// A name is shown under a filter. Both are in lower case.
pub open spec fn shown(name: Seq<char>, needle: Seq<char>) -> bool {
    needle.len() == 0 || text::occurs(name, needle)
}

/// The positions of the names that are shown under a filter.
pub open spec fn visible_in(names: Seq<Seq<char>>, needle: Seq<char>) -> Seq<int>
    decreases names.len(),
{
    if names.len() == 0 {
        Seq::empty()
    } else {
        let earlier = visible_in(names.drop_last(), needle);
        if shown(names.last(), needle) {
            earlier.push(names.len() - 1)
        } else {
            earlier
        }
    }
}

/// Positions, as numbers.
pub open spec fn positions(indices: Seq<usize>) -> Seq<int> {
    Seq::new(indices.len(), |i: int| indices[i] as int)
}

/// Texts in lower case.
pub open spec fn lowered(texts: Seq<Seq<char>>) -> Seq<Seq<char>> {
    Seq::new(texts.len(), |i: int| lowercase_of(texts[i]))
}

/// The names of some stations.
pub open spec fn station_names(stations: Seq<Station>) -> Seq<Seq<char>> {
    Seq::new(stations.len(), |i: int| stations[i].name@)
}

/// The positions of the names that are shown under a filter. Both are in lower case.
pub fn visible(names: &Vec<String>, needle: &str) -> (indices: Vec<usize>)
    ensures
        positions(indices@) == visible_in(text::string_texts(names@), needle@),
{
    let mut indices: Vec<usize> = Vec::new();
    let needle_chars: Vec<char> = text::chars_of(needle);
    let ghost texts = text::string_texts(names@);
    for position in 0..names.len()
        invariant
            texts == text::string_texts(names@),
            needle_chars@ == needle@,
            positions(indices@) =~= visible_in(texts.take(position as int), needle@),
    {
        proof {
            assert(texts.take(position + 1).drop_last() =~= texts.take(position as int));
            assert(texts.take(position + 1).last() == names@[position as int]@);
        }
        let ghost before = indices@;
        let name: Vec<char> = text::chars_of(names[position].as_str());
        if needle_chars.len() == 0 || text::contains(name.as_slice(), needle_chars.as_slice()) {
            indices.push(position);
            assert(positions(indices@) =~= positions(before).push(position as int));
        }
    }
    assert(texts.take(texts.len() as int) =~= texts);
    indices
}

/// What the window shows.
pub struct RadioModel {
    pub stations: CountryTable,
    pub selected_country: Option<usize>,
    pub selected_station: Option<usize>,
    pub country_filter: String,
    pub station_filter: String,
    pub status: String,
    /// The longer form of the status.
    pub status_detail: String,
    pub playback: PlaybackState,
    pub now_playing: String,
    /// The station that was asked for last. The stream itself gives no friendly name of its
    /// format, but the list does.
    pub current_station: Option<Station>,
}

/// What is said of the player.
pub open spec fn now_playing_text(event: PlayerEventView) -> Seq<char> {
    match event {
        PlayerEventView::Connecting { station } => "Connecting: "@ + station,
        PlayerEventView::Playing { station } => "Now Playing: "@ + station,
        PlayerEventView::Stopped => "Stopped"@,
        PlayerEventView::Error { station, detail } => "Error ("@ + station + "): "@ + detail,
    }
}

/// What the player is doing after an event.
pub open spec fn playback_after(event: PlayerEventView) -> PlaybackState {
    match event {
        PlayerEventView::Connecting { .. } => PlaybackState::Connecting,
        PlayerEventView::Playing { .. } => PlaybackState::Playing,
        PlayerEventView::Stopped => PlaybackState::Idle,
        PlayerEventView::Error { .. } => PlaybackState::Failed,
    }
}

/// What is said of a list that was loaded.
pub open spec fn loaded_text(countries: nat, stations: nat) -> Seq<char> {
    text::decimal_of(countries) + " countries, "@ + text::decimal_of(stations) + " stations"@
}

/// The longer form of it.
pub open spec fn loaded_detail(data_dir: Seq<char>, warning: Option<Seq<char>>) -> Seq<char> {
    match warning {
        Some(text) => "Loaded from "@ + data_dir + "\n"@ + text,
        None => "Loaded from "@ + data_dir,
    }
}

impl RadioModel {
    /// The table is in order, and the selected country is one of it.
    pub open spec fn wf(&self) -> bool {
        &&& self.stations.wf()
        &&& self.selected_country matches Some(index) ==> index < self.stations.names().len()
    }

    /// The stations of the selected country.
    pub open spec fn listed(&self) -> Seq<Station> {
        match self.selected_country {
            Some(index) => self.stations@[self.stations.names()[index as int]],
            None => Seq::empty(),
        }
    }

    /// Both have the same stations listed and selected.
    pub open spec fn lists_the_same(&self, other: RadioModel) -> bool {
        &&& self.stations == other.stations
        &&& self.selected_country == other.selected_country
        &&& self.selected_station == other.selected_station
        &&& self.country_filter == other.country_filter
        &&& self.station_filter == other.station_filter
    }

    /// Both say the same of the load.
    pub open spec fn reports_the_same(&self, other: RadioModel) -> bool {
        self.status == other.status && self.status_detail == other.status_detail
    }

    /// Both say the same of the player.
    pub open spec fn plays_the_same(&self, other: RadioModel) -> bool {
        self.playback == other.playback && self.now_playing == other.now_playing
    }

    /// The window before anything has been loaded.
    pub fn new() -> (model: Self)
        ensures
            model.wf(),
            model.stations@ == Map::<Seq<char>, Seq<Station>>::empty(),
            model.selected_country is None,
            model.selected_station is None,
            model.country_filter@.len() == 0,
            model.station_filter@.len() == 0,
            model.status@ == "Loading stations..."@,
            model.status_detail@.len() == 0,
            model.playback == PlaybackState::Idle,
            model.now_playing@ == "Stopped"@,
            model.current_station is None,
    {
        RadioModel {
            stations: CountryTable::new(),
            selected_country: None,
            selected_station: None,
            country_filter: String::new(),
            station_filter: String::new(),
            status: "Loading stations...".to_string(),
            status_detail: String::new(),
            playback: PlaybackState::Idle,
            now_playing: "Stopped".to_string(),
            current_station: None,
        }
    }

    /// Takes what the load has given.
    pub fn poll_load(&mut self, result: Result<LoadResult, String>)
        requires
            old(self).wf(),
            result matches Ok(loaded) ==> loaded.by_country.wf(),
        ensures
            final(self).wf(),
            final(self).plays_the_same(*old(self)),
            final(self).current_station == old(self).current_station,
            final(self).country_filter == old(self).country_filter,
            final(self).station_filter == old(self).station_filter,
            match result {
                Ok(loaded) => {
                    &&& final(self).stations == loaded.by_country
                    &&& final(self).selected_country == (if loaded.by_country.names().len() == 0 {
                        None
                    } else {
                        Some(0usize)
                    })
                    &&& final(self).selected_station is None
                    &&& final(self).status@ == loaded_text(
                        loaded.by_country.names().len(),
                        station_cache::total_of(loaded.by_country@, loaded.by_country.names()),
                    )
                    &&& final(self).status_detail@ == loaded_detail(
                        loaded.data_dir@,
                        text::optional_text(loaded.warning),
                    )
                },
                Err(error) => {
                    &&& final(self).lists_the_same(*old(self))
                    &&& final(self).status@ == "Failed to load stations"@
                    &&& final(self).status_detail@ == error@
                },
            },
    {
        match result {
            Ok(loaded) => {
                let count: usize = loaded.by_country.len();
                let mut status: String = text::decimal(count as u128);
                status.append(" countries, ");
                status.append(text::decimal(loaded.by_country.station_count()).as_str());
                status.append(" stations");
                self.status = status;
                let mut detail: String = "Loaded from ".to_string();
                detail.append(loaded.data_dir.as_str());
                if let Some(warning) = &loaded.warning {
                    detail.append("\n");
                    detail.append(warning.as_str());
                }
                self.status_detail = detail;
                self.stations = loaded.by_country;
                self.selected_country = if count == 0 { None } else { Some(0) };
                self.selected_station = None;
            },
            Err(error) => {
                self.status = "Failed to load stations".to_string();
                self.status_detail = error;
            },
        }
    }

    /// Takes what the player tells.
    pub fn poll_events(&mut self, event: PlayerEvent)
        requires
            old(self).wf(),
        ensures
            final(self).wf(),
            final(self).lists_the_same(*old(self)),
            final(self).reports_the_same(*old(self)),
            final(self).current_station == old(self).current_station,
            final(self).playback == playback_after(event@),
            final(self).now_playing@ == now_playing_text(event@),
    {
        let mut line: String = String::new();
        match event {
            PlayerEvent::Connecting { station } => {
                self.playback = PlaybackState::Connecting;
                line.append("Connecting: ");
                line.append(station.as_str());
            },
            PlayerEvent::Playing { station } => {
                self.playback = PlaybackState::Playing;
                line.append("Now Playing: ");
                line.append(station.as_str());
            },
            PlayerEvent::Stopped => {
                self.playback = PlaybackState::Idle;
                line.append("Stopped");
            },
            PlayerEvent::Error { station, detail } => {
                self.playback = PlaybackState::Failed;
                line.append("Error (");
                line.append(station.as_str());
                line.append("): ");
                line.append(detail.as_str());
            },
        }
        assert(line@ =~= now_playing_text(event@));
        self.now_playing = line;
    }

    /// The name of the selected country.
    pub fn selected_country_name(&self) -> (name: Option<&str>)
        requires
            self.wf(),
        ensures
            match name {
                Some(found) => self.selected_country matches Some(index) && found@
                    == self.stations.names()[index as int],
                None => self.selected_country is None,
            },
    {
        match self.selected_country {
            Some(index) => Some(self.stations.name(index)),
            None => None,
        }
    }

    /// The stations of the selected country.
    pub fn stations_of_selected_country(&self) -> (stations: &[Station])
        requires
            self.wf(),
        ensures
            stations@ == self.listed(),
    {
        match self.selected_country {
            Some(index) => self.stations.stations(index).as_slice(),
            None => &[],
        }
    }

    /// The countries that are shown, by their positions.
    pub fn visible_countries(&self) -> (indices: Vec<usize>)
        ensures
            positions(indices@) == visible_in(
                lowered(self.stations.names()),
                lowercase_of(self.country_filter@),
            ),
    {
        let mut names: Vec<String> = Vec::new();
        let count: usize = self.stations.len();
        for position in 0..count
            invariant
                count == self.stations.names().len(),
                text::string_texts(names@) =~= lowered(self.stations.names()).take(position as int),
        {
            let ghost before = names@;
            names.push(self.stations.name(position).to_lowercase());
            assert(text::string_texts(names@) =~= text::string_texts(before).push(
                lowercase_of(self.stations.names()[position as int]),
            ));
        }
        assert(text::string_texts(names@) =~= lowered(self.stations.names()));
        visible(&names, self.country_filter.as_str().to_lowercase().as_str())
    }

    /// The stations of the selected country that are shown, by their positions.
    pub fn visible_stations(&self) -> (indices: Vec<usize>)
        requires
            self.wf(),
        ensures
            positions(indices@) == visible_in(
                lowered(station_names(self.listed())),
                lowercase_of(self.station_filter@),
            ),
    {
        let stations: &[Station] = self.stations_of_selected_country();
        let mut names: Vec<String> = Vec::new();
        for position in 0..stations.len()
            invariant
                text::string_texts(names@) =~= lowered(station_names(stations@)).take(
                    position as int,
                ),
        {
            let ghost before = names@;
            names.push(stations[position].name.as_str().to_lowercase());
            assert(text::string_texts(names@) =~= text::string_texts(before).push(
                lowercase_of(stations@[position as int].name@),
            ));
        }
        assert(text::string_texts(names@) =~= lowered(station_names(stations@)));
        visible(&names, self.station_filter.as_str().to_lowercase().as_str())
    }

    /// Takes a click on a country. Another country is shown from its beginning, without a filter.
    pub fn click_country(&mut self, index: usize)
        requires
            old(self).wf(),
            index < old(self).stations.names().len(),
        ensures
            final(self).wf(),
            final(self).reports_the_same(*old(self)),
            final(self).plays_the_same(*old(self)),
            final(self).current_station == old(self).current_station,
            old(self).selected_country == Some(index) ==> final(self).lists_the_same(*old(self)),
            old(self).selected_country != Some(index) ==> {
                &&& final(self).stations == old(self).stations
                &&& final(self).country_filter == old(self).country_filter
                &&& final(self).selected_country == Some(index)
                &&& final(self).selected_station is None
                &&& final(self).station_filter@.len() == 0
            },
    {
        let selected: bool = match self.selected_country {
            Some(chosen) => chosen == index,
            None => false,
        };
        if !selected {
            self.selected_country = Some(index);
            self.selected_station = None;
            self.station_filter = String::new();
        }
    }

    /// Takes a click on a station.
    pub fn click_station(&mut self, index: usize)
        requires
            old(self).wf(),
        ensures
            final(self).wf(),
            *final(self) == (RadioModel { selected_station: Some(index), ..*old(self) }),
    {
        self.selected_station = Some(index);
    }

    /// Notes the station that is asked for, and hands it on to the player.
    pub fn play(&mut self, station: Station) -> (asked: Station)
        requires
            old(self).wf(),
        ensures
            final(self).wf(),
            final(self).lists_the_same(*old(self)),
            final(self).reports_the_same(*old(self)),
            final(self).plays_the_same(*old(self)),
            asked == station,
            final(self).current_station matches Some(current) && current.says_the_same(station),
    {
        self.current_station = Some(station.clone());
        station
    }

    /// Asks for the selected station, where there is one.
    pub fn play_selected(&mut self) -> (asked: Option<Station>)
        requires
            old(self).wf(),
        ensures
            final(self).wf(),
            final(self).lists_the_same(*old(self)),
            final(self).reports_the_same(*old(self)),
            final(self).plays_the_same(*old(self)),
            match old(self).selected_station {
                Some(index) if index < old(self).listed().len() => {
                    &&& asked matches Some(station) && station.says_the_same(
                        old(self).listed()[index as int],
                    )
                    &&& final(self).current_station matches Some(current) && current.says_the_same(
                        old(self).listed()[index as int],
                    )
                },
                _ => asked is None && final(self).current_station == old(self).current_station,
            },
    {
        let index: usize = match self.selected_station {
            Some(index) => index,
            None => {
                return None;
            },
        };
        let stations: &[Station] = self.stations_of_selected_country();
        if index >= stations.len() {
            return None;
        }
        let station: Station = stations[index].clone();
        Some(self.play(station))
    }

    /// The button that stops is there: only while something plays.
    pub fn can_stop(&self) -> (yes: bool)
        ensures
            yes == (self.playback == PlaybackState::Playing),
    {
        self.playback == PlaybackState::Playing
    }

    /// The button that plays can be used: only while a station is selected.
    pub fn can_play(&self) -> (yes: bool)
        ensures
            yes == self.selected_station is Some,
    {
        self.selected_station.is_some()
    }

    /// The player has failed, and what is said of it is an error.
    pub fn has_failed(&self) -> (yes: bool)
        ensures
            yes == (self.playback == PlaybackState::Failed),
    {
        self.playback == PlaybackState::Failed
    }

    /// The format of what plays, as far as the list knows it.
    pub fn format_label(&self) -> (label: Option<String>)
        ensures
            match label {
                Some(text) => {
                    &&& self.playback == PlaybackState::Playing
                    &&& self.current_station matches Some(current) && text@ == station::label_of(
                        current.codec@,
                        current.bitrate as int,
                    )
                    &&& text@.len() > 0
                },
                None => self.playback != PlaybackState::Playing || (match self.current_station {
                    Some(current) => station::label_of(current.codec@, current.bitrate as int).len()
                        == 0,
                    None => true,
                }),
            },
    {
        if !self.can_stop() {
            return None;
        }
        match &self.current_station {
            Some(current) => {
                let label: String = current.codec_bitrate_label();
                if text::is_empty(label.as_str()) {
                    None
                } else {
                    Some(label)
                }
            },
            None => None,
        }
    }

    /// The window is to be drawn again without input: only the level changes by itself.
    pub fn wants_repaint(&self) -> (yes: bool)
        ensures
            yes == (self.playback == PlaybackState::Playing || self.playback
                == PlaybackState::Connecting),
    {
        self.playback == PlaybackState::Playing || self.playback == PlaybackState::Connecting
    }
}

/// A filter shows exactly the names that hold it, in their order.
pub proof fn law_a_filter_shows_what_holds_it(names: Seq<Seq<char>>, needle: Seq<char>)
    ensures
        visible_in(names, needle).len() <= names.len(),
        forall|position: int|
            #[trigger] visible_in(names, needle).contains(position) <==> 0 <= position
                < names.len() && shown(names[position], needle),
        forall|i: int, j: int|
            0 <= i < j < visible_in(names, needle).len() ==> #[trigger] visible_in(names, needle)[i]
                < #[trigger] visible_in(names, needle)[j],
    decreases names.len(),
{
    if names.len() > 0 {
        let earlier = names.drop_last();
        let last = names.len() - 1;
        law_a_filter_shows_what_holds_it(earlier, needle);
        let before = visible_in(earlier, needle);
        let all = visible_in(names, needle);
        assert forall|position: int|
            #[trigger] all.contains(position) <==> 0 <= position < names.len() && shown(
                names[position],
                needle,
            ) by {
            if before.contains(position) {
                let i = before.index_of(position);
                assert(all[i] == position);
                assert(earlier[position] == names[position]);
            }
            if all.contains(position) {
                let i = all.index_of(position);
                if i < before.len() {
                    assert(before[i] == position);
                    assert(before.contains(position));
                    assert(earlier[position] == names[position]);
                }
            }
            if 0 <= position < last && shown(names[position], needle) {
                assert(earlier[position] == names[position]);
                assert(before.contains(position));
            }
            if position == last && shown(names[last], needle) {
                assert(all[before.len() as int] == last);
            }
        }
        assert forall|i: int, j: int| 0 <= i < j < all.len() implies #[trigger] all[i]
            < #[trigger] all[j] by {
            assert(all[i] == before[i]);
            assert(before.contains(before[i]));
            if j < before.len() {
                assert(all[j] == before[j]);
            }
        }
    }
}

/// Without a filter everything is shown.
pub proof fn law_an_empty_filter_shows_all(names: Seq<Seq<char>>)
    ensures
        visible_in(names, Seq::empty()) == Seq::new(names.len(), |i: int| i),
    decreases names.len(),
{
    if names.len() > 0 {
        law_an_empty_filter_shows_all(names.drop_last());
        assert(visible_in(names, Seq::empty()) =~= Seq::new(names.len(), |i: int| i));
    } else {
        assert(visible_in(names, Seq::empty()) =~= Seq::new(names.len(), |i: int| i));
    }
}

/// A name is shown if the filter is empty or stands somewhere in it.
pub proof fn law_a_name_is_shown_if_it_holds_the_filter(
    before: Seq<char>,
    needle: Seq<char>,
    after: Seq<char>,
    name: Seq<char>,
)
    ensures
        shown(before + needle + after, needle),
        shown(name, Seq::empty()),
        needle.len() > 0 && shown(name, needle) ==> exists|front: Seq<char>, back: Seq<char>|
            name == #[trigger] ((front + needle) + back),
{
    text::law_patterns_are_found_where_they_stand(before, needle, after, name);
}

/// What is said of the player, and what it is doing by then: the station that it is connecting to or
/// playing is named, and an error with what went wrong.
pub proof fn law_the_player_is_reported(station: Seq<char>, detail: Seq<char>)
    ensures
        now_playing_text(PlayerEventView::Connecting { station }) == "Connecting: "@ + station,
        now_playing_text(PlayerEventView::Playing { station }) == "Now Playing: "@ + station,
        now_playing_text(PlayerEventView::Stopped) == "Stopped"@,
        now_playing_text(PlayerEventView::Error { station, detail }) == "Error ("@ + station + "): "@
            + detail,
        playback_after(PlayerEventView::Connecting { station }) == PlaybackState::Connecting,
        playback_after(PlayerEventView::Playing { station }) == PlaybackState::Playing,
        playback_after(PlayerEventView::Stopped) == PlaybackState::Idle,
        playback_after(PlayerEventView::Error { station, detail }) == PlaybackState::Failed,
{
}

/// What is said of a list: how many countries and how many stations it has, where it was read, and
/// what went wrong on the way.
pub proof fn law_the_load_is_reported(
    countries: nat,
    stations: nat,
    data_dir: Seq<char>,
    warning: Seq<char>,
)
    ensures
        loaded_text(countries, stations) == text::decimal_of(countries) + " countries, "@
            + text::decimal_of(stations) + " stations"@,
        loaded_detail(data_dir, None) == "Loaded from "@ + data_dir,
        loaded_detail(data_dir, Some(warning)) == "Loaded from "@ + data_dir + "\n"@ + warning,
{
}

/// The stations that are listed are those of the selected country, and none where none is selected.
pub proof fn law_the_stations_of_the_selected_country_are_listed(model: RadioModel, index: usize)
    ensures
        model.selected_country is None ==> model.listed().len() == 0,
        model.selected_country == Some(index) ==> model.listed()
            == model.stations@[model.stations.names()[index as int]],
{
}

/// The filter looks at the names of the stations, each in lower case, in their order.
pub proof fn law_the_filter_looks_at_the_names(stations: Seq<Station>, texts: Seq<Seq<char>>)
    ensures
        station_names(stations).len() == stations.len(),
        forall|i: int|
            0 <= i < stations.len() ==> #[trigger] station_names(stations)[i] == stations[i].name@,
        lowered(texts).len() == texts.len(),
        forall|i: int| 0 <= i < texts.len() ==> #[trigger] lowered(texts)[i] == lowercase_of(texts[i]),
{
}

/// What two models have in common: the lists with their selections and filters, what is said of the
/// load, and what is said of the player.
pub proof fn law_models_are_compared_in_full(one: RadioModel, other: RadioModel)
    ensures
        one.lists_the_same(other) <==> one.stations == other.stations && one.selected_country
            == other.selected_country && one.selected_station == other.selected_station
            && one.country_filter == other.country_filter && one.station_filter
            == other.station_filter,
        one.reports_the_same(other) <==> one.status == other.status && one.status_detail
            == other.status_detail,
        one.plays_the_same(other) <==> one.playback == other.playback && one.now_playing
            == other.now_playing,
{
}

/// Positions are the numbers that they are, in order.
pub proof fn law_positions_are_numbers(indices: Seq<usize>)
    ensures
        LEVEL_POLL_MILLISECONDS == 100,
        positions(indices).len() == indices.len(),
        forall|i: int| 0 <= i < indices.len() ==> #[trigger] positions(indices)[i] == indices[i] as int,
{
}

} // verus!
