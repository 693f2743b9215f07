//! Operations on texts, next to those of the standard library.

use rworldradio::text::{
    chars_of, contains, decimal, ends_with, find, is_empty, is_white_space, join, order,
    split_lines, starts_with, string_of, to_ascii_lower, to_ascii_upper, trim, trim_end,
    trim_start, TextOrder,
};

fn chars(text: &str) -> Vec<char> {
    text.chars().collect()
}

const SAMPLES: [&str; 12] = [
    "",
    " ",
    "a",
    "\r\n",
    " a b \t",
    "\u{3000}x\u{2028}",
    "line\r\nline\n\nlast",
    "a\rb\r\n",
    "äÖ ß\u{85}",
    "\n",
    "no end",
    "x\r\r\n",
];

#[test]
fn white_space_is_that_of_unicode() {
    for code in 0..=0x10FFFFu32 {
        if let Some(c) = char::from_u32(code) {
            assert_eq!(is_white_space(c), c.is_whitespace(), "U+{code:04X}");
        }
    }
}

#[test]
fn texts_are_trimmed_as_strings_are() {
    for sample in SAMPLES {
        assert_eq!(string_of(trim(&chars(sample))), sample.trim());
        assert_eq!(string_of(trim_start(&chars(sample))), sample.trim_start());
        assert_eq!(string_of(trim_end(&chars(sample))), sample.trim_end());
    }
}

#[test]
fn lines_are_those_of_strings() {
    for sample in SAMPLES {
        let lines: Vec<String> =
            split_lines(&chars(sample)).iter().map(|line| string_of(line)).collect();
        let expected: Vec<&str> = sample.lines().collect();
        assert_eq!(lines, expected);
    }
}

#[test]
fn cases_are_changed_in_ascii_alone() {
    for sample in ["aZ@[`{", "ÄäßMiXed"] {
        assert_eq!(string_of(&to_ascii_lower(&chars(sample))), sample.to_ascii_lowercase());
        assert_eq!(string_of(&to_ascii_upper(&chars(sample))), sample.to_ascii_uppercase());
    }
}

#[test]
fn parts_are_found_where_strings_find_them() {
    for text in ["", "abcabc", "aab"] {
        for pattern in ["", "a", "ab", "bc", "cab", "abcabcd"] {
            let (t, p) = (chars(text), chars(pattern));
            assert_eq!(find(&t, &p), text.find(pattern));
            assert_eq!(contains(&t, &p), text.contains(pattern));
            assert_eq!(starts_with(&t, &p), text.starts_with(pattern));
            assert_eq!(ends_with(&t, &p), text.ends_with(pattern));
        }
    }
}

#[test]
fn numbers_are_written_in_decimal() {
    for number in [0u128, 9, 10, 4095, u64::MAX as u128, u128::MAX] {
        assert_eq!(decimal(number), number.to_string());
    }
}

#[test]
fn texts_are_joined() {
    let parts = vec!["a".to_string(), String::new(), "b".to_string()];
    assert_eq!(join(&parts, ", "), "a, , b");
    assert_eq!(join(&vec![], ", "), "");
    assert!(is_empty(""));
    assert!(!is_empty("ä"));
}

#[test]
fn texts_are_ordered_as_strings_are() {
    let words = ["", "a", "b", "ab", "aé", "é", "\u{FFFF}", "\u{10000}"];
    for a in words {
        for b in words {
            let expected = if a < b {
                TextOrder::Before
            } else if a == b {
                TextOrder::Same
            } else {
                TextOrder::After
            };
            assert_eq!(order(&chars_of(a), &chars_of(b)), expected);
        }
    }
}
