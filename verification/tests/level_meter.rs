//! The bar of LED segments.

use rworldradio::level_meter::{level_meter, SegmentTone, SEGMENT_COUNT};

#[test]
fn the_bar_goes_from_green_to_red() {
    let (unlit, green) = (SegmentTone::Unlit, SegmentTone::Green);
    let (yellow, red) = (SegmentTone::Yellow, SegmentTone::Red);
    assert_eq!(
        level_meter(SEGMENT_COUNT),
        vec![green, green, green, green, green, green, yellow, yellow, red, red]
    );
    assert_eq!(
        level_meter(7),
        vec![green, green, green, green, green, green, yellow, unlit, unlit, unlit]
    );
    assert_eq!(level_meter(0), vec![unlit; 10]);
}

#[test]
fn lit_segments_have_colours() {
    assert_eq!(SegmentTone::Unlit.color(), None);
    assert_eq!(SegmentTone::Green.color(), Some((55, 190, 75)));
    assert_eq!(SegmentTone::Yellow.color(), Some((235, 195, 30)));
    assert_eq!(SegmentTone::Red.color(), Some((220, 40, 50)));
}
