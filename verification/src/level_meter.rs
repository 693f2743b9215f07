//! A bar of LED segments that shows a peak level: green, then yellow, then red.

use vstd::prelude::*;

verus! {

/// How many segments the bar has.
pub const SEGMENT_COUNT: usize = 10;

/// How a segment of the bar looks.
#[derive(Clone, Copy, Debug, PartialEq, Eq, Structural)]
pub enum SegmentTone {
    Unlit,
    Green,
    Yellow,
    Red,
}

/// How a segment looks while the first `lit` are lit: the top two are red, the next two down are
/// yellow, and all others are green.
pub open spec fn tone_of(segment: int, lit: int) -> SegmentTone {
    if segment >= lit {
        SegmentTone::Unlit
    } else if segment >= SEGMENT_COUNT - 2 {
        SegmentTone::Red
    } else if segment >= SEGMENT_COUNT - 4 {
        SegmentTone::Yellow
    } else {
        SegmentTone::Green
    }
}

/// The colour of a segment, in red, green and blue; an unlit one has that of its surroundings.
pub open spec fn color_of(tone: SegmentTone) -> Option<(u8, u8, u8)> {
    match tone {
        SegmentTone::Unlit => None,
        SegmentTone::Green => Some((55, 190, 75)),
        SegmentTone::Yellow => Some((235, 195, 30)),
        SegmentTone::Red => Some((220, 40, 50)),
    }
}

/// How the segments of the bar look, from the lowest to the highest.
pub fn level_meter(lit: usize) -> (tones: Vec<SegmentTone>)
    ensures
        tones@.len() == SEGMENT_COUNT,
        forall|i: int| 0 <= i < SEGMENT_COUNT ==> #[trigger] tones@[i] == tone_of(i, lit as int),
{
    let mut tones: Vec<SegmentTone> = Vec::new();
    for segment in 0..SEGMENT_COUNT
        invariant
            tones@.len() == segment,
            forall|i: int| 0 <= i < segment ==> #[trigger] tones@[i] == tone_of(i, lit as int),
    {
        let tone: SegmentTone = if segment >= lit {
            SegmentTone::Unlit
        } else if segment >= SEGMENT_COUNT - 2 {
            SegmentTone::Red
        } else if segment >= SEGMENT_COUNT - 4 {
            SegmentTone::Yellow
        } else {
            SegmentTone::Green
        };
        tones.push(tone);
    }
    tones
}

impl SegmentTone {
    /// The colour of a segment.
    pub fn color(&self) -> (color: Option<(u8, u8, u8)>)
        ensures
            color == color_of(*self),
    {
        match self {
            SegmentTone::Unlit => None,
            SegmentTone::Green => Some((55, 190, 75)),
            SegmentTone::Yellow => Some((235, 195, 30)),
            SegmentTone::Red => Some((220, 40, 50)),
        }
    }
}

/// A higher level lights all that a lower one does, in the same colours.
pub proof fn law_a_higher_level_lights_more(segment: int, lit: int, more: int)
    requires
        lit <= more,
        !(tone_of(segment, lit) is Unlit),
    ensures
        tone_of(segment, more) == tone_of(segment, lit),
{
}

/// Of the ten segments as many are lit as the level says, from below: the lowest six in green, the
/// next two in yellow and the top two in red.
pub proof fn law_the_bar_is_green_yellow_and_red(segment: int, lit: int)
    requires
        0 <= segment < 10,
    ensures
        SEGMENT_COUNT == 10,
        segment >= lit ==> tone_of(segment, lit) == SegmentTone::Unlit,
        segment < lit && segment < 6 ==> tone_of(segment, lit) == SegmentTone::Green,
        segment < lit && 6 <= segment < 8 ==> tone_of(segment, lit) == SegmentTone::Yellow,
        segment < lit && 8 <= segment ==> tone_of(segment, lit) == SegmentTone::Red,
{
}

/// A lit segment has a colour of its own, in which its name prevails: red has most red, green most
/// green, and yellow much of both. An unlit one has none.
pub proof fn law_lit_segments_have_their_colours()
    ensures
        color_of(SegmentTone::Unlit) is None,
        color_of(SegmentTone::Green) == Some((55u8, 190u8, 75u8)),
        color_of(SegmentTone::Yellow) == Some((235u8, 195u8, 30u8)),
        color_of(SegmentTone::Red) == Some((220u8, 40u8, 50u8)),
{
}

} // verus!
