//! One station of the list.

use vstd::prelude::*;

use crate::text;

verus! {

/// One station record.
#[derive(Debug)]
pub struct Station {
    pub name: String,
    pub url: String,
    pub url_resolved: String,
    pub country: String,
    pub codec: String,
    pub bitrate: i32,
    pub language: String,
    /// The latitude with three decimals, where there is a location.
    pub lat: String,
    /// The longitude with three decimals, where there is a location.
    pub lon: String,
    pub has_location: bool,
    /// True for stations sourced from TuneIn: `playback_url` is then a resolver link, whose tiny
    /// text response holds the URL of the stream, rather than a playable stream.
    pub needs_tunein_resolve: bool,
}

/// What is shown of a codec and a bitrate. A codec that the list could not determine is the text
/// "UNKNOWN" there, and is not shown.
pub open spec fn label_of(codec: Seq<char>, bitrate: int) -> Seq<char> {
    let shown = if codec == "UNKNOWN"@ { Seq::empty() } else { codec };
    if bitrate <= 0 {
        shown
    } else if shown.len() == 0 {
        text::decimal_of(bitrate as nat) + "kbps"@
    } else {
        shown + seq![' '] + text::decimal_of(bitrate as nat) + "kbps"@
    }
}

/// Two parts of a line, with a dash between them where both are there.
pub open spec fn dashed(first: Seq<char>, second: Seq<char>) -> Seq<char> {
    if second.len() == 0 {
        first
    } else if first.len() == 0 {
        second
    } else {
        first + " - "@ + second
    }
}

impl Station {
    /// The same is known of both stations.
    pub open spec fn says_the_same(&self, other: Station) -> bool {
        &&& self.name@ == other.name@
        &&& self.url@ == other.url@
        &&& self.url_resolved@ == other.url_resolved@
        &&& self.country@ == other.country@
        &&& self.codec@ == other.codec@
        &&& self.bitrate == other.bitrate
        &&& self.language@ == other.language@
        &&& self.lat@ == other.lat@
        &&& self.lon@ == other.lon@
        &&& self.has_location == other.has_location
        &&& self.needs_tunein_resolve == other.needs_tunein_resolve
    }

    /// The pre-resolved URL of the stream, or else the raw one.
    pub open spec fn stream_url(&self) -> Seq<char> {
        if self.url_resolved@.len() == 0 {
            self.url@
        } else {
            self.url_resolved@
        }
    }

    /// The codec, the bitrate and the language, as far as they are known.
    pub open spec fn technical_line(&self) -> Seq<char> {
        dashed(label_of(self.codec@, self.bitrate as int), self.language@)
    }

    /// The country and, where it is known, the location.
    pub open spec fn place_line(&self) -> Seq<char> {
        if self.has_location {
            self.country@ + " ("@ + self.lat@ + ", "@ + self.lon@ + ")"@
        } else {
            self.country@
        }
    }

    /// The lines of the details. The name and the URL always stand there, the others only where
    /// something is known.
    pub open spec fn detail_lines(&self) -> Seq<Seq<char>> {
        let technical = if self.technical_line().len() > 0 {
            seq![self.technical_line()]
        } else {
            Seq::empty()
        };
        let place = if self.has_location || self.country@.len() > 0 {
            seq![self.place_line()]
        } else {
            Seq::empty()
        };
        seq![self.name@] + technical + place + seq![self.stream_url()]
    }

    /// Prefers the pre-resolved stream URL and falls back to the raw one.
    pub fn playback_url(&self) -> (url: &str)
        ensures
            url@ == self.stream_url(),
    {
        if text::is_empty(self.url_resolved.as_str()) {
            self.url.as_str()
        } else {
            self.url_resolved.as_str()
        }
    }

    /// For example "MP3 128kbps", "AAC", "128kbps", or nothing if neither is known.
    pub fn codec_bitrate_label(&self) -> (label: String)
        ensures
            label@ == label_of(self.codec@, self.bitrate as int),
    {
        let codec: Vec<char> = text::chars_of(self.codec.as_str());
        let mut label: String = if text::is_text(codec.as_slice(), "UNKNOWN") {
            String::new()
        } else {
            self.codec.clone()
        };
        if self.bitrate > 0 {
            if !text::is_empty(label.as_str()) {
                label.push(' ');
            }
            label.append(text::decimal(self.bitrate as u128).as_str());
            label.append("kbps");
        }
        proof {
            let shown = if self.codec@ == "UNKNOWN"@ { Seq::empty() } else { self.codec@ };
            let number = text::decimal_of(self.bitrate as nat);
            assert(self.bitrate > 0 && shown.len() == 0 ==> label@ =~= number + "kbps"@);
            assert(self.bitrate > 0 && shown.len() > 0 ==> label@ =~= shown + seq![' '] + number
                + "kbps"@);
        }
        label
    }

    /// Everything the list knows about a station.
    pub fn details(&self) -> (details: String)
        ensures
            details@ == text::joined(self.detail_lines(), "\n"@),
    {
        let mut lines: Vec<String> = Vec::new();
        lines.push(self.name.clone());
        let ghost first = seq![self.name@];
        assert(text::string_texts(lines@) =~= first);

        let mut second: String = self.codec_bitrate_label();
        if !text::is_empty(self.language.as_str()) {
            if !text::is_empty(second.as_str()) {
                second.append(" - ");
            }
            second.append(self.language.as_str());
        }
        assert(second@ =~= self.technical_line());
        if !text::is_empty(second.as_str()) {
            lines.push(second);
        }
        let ghost technical = if self.technical_line().len() > 0 {
            seq![self.technical_line()]
        } else {
            Seq::empty()
        };
        assert(text::string_texts(lines@) =~= first + technical);

        if self.has_location {
            let mut place: String = self.country.clone();
            place.append(" (");
            place.append(self.lat.as_str());
            place.append(", ");
            place.append(self.lon.as_str());
            place.append(")");
            assert(place@ =~= self.place_line());
            lines.push(place);
        } else if !text::is_empty(self.country.as_str()) {
            lines.push(self.country.clone());
        }
        let ghost place = if self.has_location || self.country@.len() > 0 {
            seq![self.place_line()]
        } else {
            Seq::empty()
        };
        assert(text::string_texts(lines@) =~= first + technical + place);

        lines.push(self.playback_url().to_string());
        assert(text::string_texts(lines@) =~= self.detail_lines());
        text::join(&lines, "\n")
    }
}

impl Clone for Station {
    /// A station of which the same is known.
    fn clone(&self) -> (station: Self)
        ensures
            station.says_the_same(*self),
    {
        Station {
            name: self.name.clone(),
            url: self.url.clone(),
            url_resolved: self.url_resolved.clone(),
            country: self.country.clone(),
            codec: self.codec.clone(),
            bitrate: self.bitrate,
            language: self.language.clone(),
            lat: self.lat.clone(),
            lon: self.lon.clone(),
            has_location: self.has_location,
            needs_tunein_resolve: self.needs_tunein_resolve,
        }
    }
}

impl Default for Station {
    /// A station of which nothing is known.
    fn default() -> (station: Self)
        ensures
            station.name@.len() == 0,
            station.url@.len() == 0,
            station.url_resolved@.len() == 0,
            station.country@.len() == 0,
            station.codec@.len() == 0,
            station.bitrate == 0,
            station.language@.len() == 0,
            station.lat@.len() == 0,
            station.lon@.len() == 0,
            !station.has_location,
            !station.needs_tunein_resolve,
    {
        Station {
            name: String::new(),
            url: String::new(),
            url_resolved: String::new(),
            country: String::new(),
            codec: String::new(),
            bitrate: 0,
            language: String::new(),
            lat: String::new(),
            lon: String::new(),
            has_location: false,
            needs_tunein_resolve: false,
        }
    }
}

/// A label says "UNKNOWN" of no codec: one that is not known is shown as no codec at all.
pub proof fn law_unknown_codec_is_not_shown(bitrate: int)
    ensures
        label_of("UNKNOWN"@, bitrate) == label_of(Seq::empty(), bitrate),
{
}

/// The details begin with the name and end with the URL that is played.
pub proof fn law_details_begin_with_the_name_and_end_with_the_url(station: Station)
    ensures
        2 <= station.detail_lines().len() <= 4,
        station.detail_lines().first() == station.name@,
        station.detail_lines().last() == station.stream_url(),
{
}

/// The URL that is played is the pre-resolved one where there is one, and else the raw one.
pub proof fn law_the_pre_resolved_url_is_played(station: Station)
    ensures
        station.url_resolved@.len() > 0 ==> station.stream_url() == station.url_resolved@,
        station.url_resolved@.len() == 0 ==> station.stream_url() == station.url@,
{
}

/// A label is the codec, a space, and the bitrate with its unit. What is not known is left out with
/// the space: a codec that is empty or "UNKNOWN", and a bitrate that is not positive.
pub proof fn law_a_label_shows_what_is_known(codec: Seq<char>, bitrate: int)
    ensures
        codec.len() > 0 && codec != "UNKNOWN"@ && bitrate > 0 ==> label_of(codec, bitrate) == codec
            + " "@ + text::decimal_of(bitrate as nat) + "kbps"@,
        codec.len() > 0 && codec != "UNKNOWN"@ && bitrate <= 0 ==> label_of(codec, bitrate) == codec,
        (codec.len() == 0 || codec == "UNKNOWN"@) && bitrate > 0 ==> label_of(codec, bitrate)
            == text::decimal_of(bitrate as nat) + "kbps"@,
        (codec.len() == 0 || codec == "UNKNOWN"@) && bitrate <= 0 ==> label_of(codec, bitrate).len()
            == 0,
{
    reveal_strlit(" ");
    assert(" "@ =~= seq![' ']);
}

/// The details are the name, then what is known of the technique and the language, then what is
/// known of the place, and then the URL that is played. A line of which nothing is known is left
/// out.
pub proof fn law_details_show_what_is_known(station: Station)
    ensures
        ({
            let label = label_of(station.codec@, station.bitrate as int);
            let language = station.language@;
            let technical = if label.len() > 0 && language.len() > 0 {
                seq![label + " - "@ + language]
            } else if label.len() > 0 {
                seq![label]
            } else if language.len() > 0 {
                seq![language]
            } else {
                Seq::empty()
            };
            let place = if station.has_location {
                seq![station.country@ + " ("@ + station.lat@ + ", "@ + station.lon@ + ")"@]
            } else if station.country@.len() > 0 {
                seq![station.country@]
            } else {
                Seq::empty()
            };
            let url = if station.url_resolved@.len() > 0 {
                station.url_resolved@
            } else {
                station.url@
            };
            station.detail_lines() == seq![station.name@] + technical + place + seq![url]
        }),
{
    reveal_strlit(" - ");
}

/// Two stations of which the same is known agree in every field.
pub proof fn law_the_same_is_known_in_every_field(one: Station, other: Station)
    ensures
        one.says_the_same(other) <==> one.name@ == other.name@ && one.url@ == other.url@
            && one.url_resolved@ == other.url_resolved@ && one.country@ == other.country@
            && one.codec@ == other.codec@ && one.bitrate == other.bitrate && one.language@
            == other.language@ && one.lat@ == other.lat@ && one.lon@ == other.lon@
            && one.has_location == other.has_location && one.needs_tunein_resolve
            == other.needs_tunein_resolve,
{
}

} // verus!
