//! The pick of fallback fonts.

use rworldradio::fonts::{FontAction, FontOutcome, FontPicker};

/// Runs the picker over some outcomes and gives what it has taken, and how many it has tried.
fn pick(outcomes: &[FontOutcome]) -> (Vec<usize>, usize) {
    let mut picker = FontPicker::new(outcomes.len());
    let mut tried = 0;
    loop {
        match picker.next() {
            FontAction::Try(position, name) => {
                assert_eq!(position, tried);
                assert_eq!(name, format!("fallback-{}", picker.taken().len()));
                picker.tried(outcomes[position]);
                tried += 1;
            }
            FontAction::Install => {
                assert!(!picker.taken().is_empty());
                return (picker.taken(), tried);
            }
            FontAction::Leave => {
                assert!(picker.taken().is_empty());
                return (vec![], tried);
            }
        }
    }
}

#[test]
fn missing_candidates_are_skipped_without_error() {
    assert_eq!(pick(&[FontOutcome::Missing, FontOutcome::Missing]), (vec![], 2));
}

#[test]
fn garbage_font_data_is_rejected_rather_than_panicking() {
    assert_eq!(pick(&[FontOutcome::Unusable]), (vec![], 1));
}

#[test]
fn usable_fonts_are_taken_in_their_order() {
    assert_eq!(pick(&[]), (vec![], 0));
    assert_eq!(pick(&[FontOutcome::Missing, FontOutcome::Usable, FontOutcome::Unusable, FontOutcome::Usable]), (vec![1, 3], 4));
}

#[test]
fn four_fonts_are_enough() {
    assert_eq!(
        pick(&[FontOutcome::Usable, FontOutcome::Usable, FontOutcome::Unusable, FontOutcome::Usable, FontOutcome::Usable, FontOutcome::Usable, FontOutcome::Usable]),
        (vec![0, 1, 3, 4], 5)
    );
}

#[test]
fn fonts_are_left_alone_where_none_was_taken() {
    let mut picker = FontPicker::new(1);
    picker.tried(FontOutcome::Unusable);
    assert!(matches!(picker.next(), FontAction::Leave));
    assert!(matches!(FontPicker::new(0).next(), FontAction::Leave));
    let mut picker = FontPicker::new(1);
    picker.tried(FontOutcome::Usable);
    assert!(matches!(picker.next(), FontAction::Install));
}
