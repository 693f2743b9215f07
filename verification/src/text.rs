//! Text as a sequence of characters: searching, trimming, splitting into lines, letter case
//! and decimal numbers.

use vstd::prelude::*;
use vstd::slice::slice_subrange;

verus! {

/// `String::push`: the character is appended to the text.
pub assume_specification[ std::string::String::push ](string: &mut std::string::String, c: char)
    ensures
        final(string)@ == old(string)@.push(c),
;

/// The characters with the Unicode property White_Space.
pub open spec fn is_white(c: char) -> bool {
    ||| '\u{9}' <= c <= '\u{D}'
    ||| c == ' '
    ||| c == '\u{85}'
    ||| c == '\u{A0}'
    ||| c == '\u{1680}'
    ||| '\u{2000}' <= c <= '\u{200A}'
    ||| c == '\u{2028}'
    ||| c == '\u{2029}'
    ||| c == '\u{202F}'
    ||| c == '\u{205F}'
    ||| c == '\u{3000}'
}

/// The text without leading white space.
pub open spec fn trimmed_start(text: Seq<char>) -> Seq<char>
    decreases text.len(),
{
    if text.len() > 0 && is_white(text[0]) {
        trimmed_start(text.skip(1))
    } else {
        text
    }
}

/// The text without trailing white space.
pub open spec fn trimmed_end(text: Seq<char>) -> Seq<char>
    decreases text.len(),
{
    if text.len() > 0 && is_white(text.last()) {
        trimmed_end(text.drop_last())
    } else {
        text
    }
}

/// The text without white space at either end.
pub open spec fn trimmed(text: Seq<char>) -> Seq<char> {
    trimmed_end(trimmed_start(text))
}

/// The position of the first `c`, or the length of the text where there is none.
pub open spec fn index_of_char(text: Seq<char>, c: char) -> int
    decreases text.len(),
{
    if text.len() == 0 || text[0] == c {
        0
    } else {
        1 + index_of_char(text.skip(1), c)
    }
}

/// The position of the first `c` is a position in the text, and no earlier one holds a `c`.
pub proof fn lemma_index_of_char(text: Seq<char>, c: char)
    ensures
        0 <= index_of_char(text, c) <= text.len(),
        index_of_char(text, c) < text.len() ==> text[index_of_char(text, c)] == c,
        forall|i: int| 0 <= i < index_of_char(text, c) ==> text[i] != c,
    decreases text.len(),
{
    if text.len() > 0 && text[0] != c {
        lemma_index_of_char(text.skip(1), c);
        assert forall|i: int| 0 <= i < index_of_char(text, c) implies text[i] != c by {
            if i > 0 {
                assert(text[i] == text.skip(1)[i - 1]);
            }
        }
    }
}

/// What stands before the first `c`; all of the text where there is none.
pub open spec fn before_char(text: Seq<char>, c: char) -> Seq<char> {
    text.take(index_of_char(text, c))
}

/// What stands behind the first `c`.
pub open spec fn after_char(text: Seq<char>, c: char) -> Seq<char> {
    text.skip(index_of_char(text, c) + 1)
}

/// The text holds a `c`.
pub open spec fn has_char(text: Seq<char>, c: char) -> bool {
    index_of_char(text, c) < text.len()
}

/// The length of the text up to and with the last `c`; 0 where there is none.
pub open spec fn end_of_last_char(text: Seq<char>, c: char) -> int
    decreases text.len(),
{
    if text.len() == 0 || text.last() == c {
        text.len() as int
    } else {
        end_of_last_char(text.drop_last(), c)
    }
}

/// The text begins with `pattern`.
pub open spec fn begins_with(text: Seq<char>, pattern: Seq<char>) -> bool {
    pattern.len() <= text.len() && text.take(pattern.len() as int) == pattern
}

/// The text ends with `pattern`.
pub open spec fn finishes_with(text: Seq<char>, pattern: Seq<char>) -> bool {
    pattern.len() <= text.len() && text.skip(text.len() - pattern.len()) == pattern
}

/// `pattern` stands in the text at `at`.
pub open spec fn occurs_at(text: Seq<char>, pattern: Seq<char>, at: int) -> bool {
    0 <= at <= text.len() && begins_with(text.skip(at), pattern)
}

/// `pattern` stands somewhere in the text.
pub open spec fn occurs(text: Seq<char>, pattern: Seq<char>) -> bool {
    exists|at: int| occurs_at(text, pattern, at)
}

/// Where `pattern` stands first in the text.
pub open spec fn first_occurrence(text: Seq<char>, pattern: Seq<char>) -> Option<int>
    decreases text.len(),
{
    if begins_with(text, pattern) {
        Some(0)
    } else if text.len() == 0 {
        None
    } else {
        match first_occurrence(text.skip(1), pattern) {
            Some(at) => Some(at + 1),
            None => None,
        }
    }
}

/// A letter of ASCII in lower case, any other character as it is.
pub open spec fn lower_char(c: char) -> char {
    if 'A' <= c <= 'Z' { (c as u32 + 32) as char } else { c }
}

/// The text with the letters of ASCII in lower case.
pub open spec fn ascii_lower(text: Seq<char>) -> Seq<char> {
    text.map_values(|c: char| lower_char(c))
}

/// A letter of ASCII in upper case, any other character as it is.
pub open spec fn upper_char(c: char) -> char {
    if 'a' <= c <= 'z' { (c as u32 - 32) as char } else { c }
}

/// The text with the letters of ASCII in upper case.
pub open spec fn ascii_upper(text: Seq<char>) -> Seq<char> {
    text.map_values(|c: char| upper_char(c))
}

/// A line without the carriage return before its line feed.
pub open spec fn without_return(line: Seq<char>) -> Seq<char> {
    if line.len() > 0 && line.last() == '\r' { line.drop_last() } else { line }
}

/// The lines of a text. Each ends with a line feed or with a carriage return and a line feed;
/// behind the last line feed there is a line only if there is text.
pub open spec fn lines_of(text: Seq<char>) -> Seq<Seq<char>>
    decreases text.len(),
{
    if text.len() == 0 {
        Seq::empty()
    } else if has_char(text, '\n') {
        proof {
            lemma_index_of_char(text, '\n');
        }
        seq![without_return(before_char(text, '\n'))] + lines_of(after_char(text, '\n'))
    } else {
        seq![text]
    }
}

/// A decimal digit.
pub open spec fn digit_char(digit: nat) -> char {
    (48 + digit) as char
}

/// A number in decimal.
pub open spec fn decimal_of(number: nat) -> Seq<char>
    decreases number,
{
    if number < 10 {
        seq![digit_char(number)]
    } else {
        decimal_of(number / 10).push(digit_char(number % 10))
    }
}

/// Texts joined with a separator between each two.
pub open spec fn joined(parts: Seq<Seq<char>>, separator: Seq<char>) -> Seq<char>
    decreases parts.len(),
{
    if parts.len() == 0 {
        Seq::empty()
    } else if parts.len() == 1 {
        parts[0]
    } else {
        joined(parts.drop_last(), separator) + separator + parts.last()
    }
}

/// The texts that some vectors of characters hold.
pub open spec fn char_texts(lines: Seq<Vec<char>>) -> Seq<Seq<char>> {
    lines.map_values(|line: Vec<char>| line@)
}

/// The text that an optional string holds.
pub open spec fn optional_text(string: Option<String>) -> Option<Seq<char>> {
    match string {
        Some(value) => Some(value@),
        None => None,
    }
}

/// The texts that some strings hold.
pub open spec fn string_texts(strings: Seq<String>) -> Seq<Seq<char>> {
    strings.map_values(|string: String| string@)
}

/// The order of texts: by the first character in which they differ, and a text before each of its
/// continuations.
pub open spec fn precedes(a: Seq<char>, b: Seq<char>) -> bool
    decreases a.len(),
{
    if b.len() == 0 {
        false
    } else if a.len() == 0 {
        true
    } else if a[0] == b[0] {
        precedes(a.skip(1), b.skip(1))
    } else {
        a[0] < b[0]
    }
}

/// How one text stands to another.
#[derive(Clone, Copy, Debug, PartialEq, Eq, Structural)]
pub enum TextOrder {
    Before,
    Same,
    After,
}

/// The characters of a text.
pub fn chars_of(text: &str) -> (chars: Vec<char>)
    ensures
        chars@ == text@,
{
    let mut chars: Vec<char> = Vec::new();
    for c in iter: text.chars()
        invariant
            iter.seq() == text@,
            chars@ == text@.take(iter.index()),
    {
        chars.push(c);
        assert(chars@ =~= text@.take(iter.index() + 1));
    }
    assert(text@.take(text@.len() as int) =~= text@);
    chars
}

/// Some characters as a string.
pub fn string_of(chars: &[char]) -> (text: String)
    ensures
        text@ == chars@,
{
    let mut text: String = String::new();
    assert(chars@.take(0) =~= Seq::empty());
    for position in 0..chars.len()
        invariant
            text@ == chars@.take(position as int),
    {
        text.push(chars[position]);
        assert(text@ =~= chars@.take(position + 1));
    }
    assert(chars@.take(chars@.len() as int) =~= chars@);
    text
}

/// Appends characters to a vector.
pub fn append_chars(out: &mut Vec<char>, more: &[char])
    ensures
        final(out)@ == old(out)@ + more@,
{
    out.extend_from_slice(more);
    assert(out@ =~= old(out)@ + more@);
}

/// The two texts are the same.
pub fn same_chars(a: &[char], b: &[char]) -> (same: bool)
    ensures
        same == (a@ == b@),
{
    if a.len() != b.len() {
        return false;
    }
    for position in 0..a.len()
        invariant
            a@.len() == b@.len(),
            a@.take(position as int) == b@.take(position as int),
    {
        if a[position] != b[position] {
            return false;
        }
        assert(a@.take(position + 1) =~= a@.take(position as int).push(a@[position as int]));
        assert(b@.take(position + 1) =~= b@.take(position as int).push(b@[position as int]));
    }
    assert(a@.take(a@.len() as int) =~= a@);
    assert(b@.take(b@.len() as int) =~= b@);
    true
}

/// The character is white space.
pub fn is_white_space(c: char) -> (white: bool)
    ensures
        white == is_white(c),
{
    ('\u{9}' <= c && c <= '\u{D}') || c == ' ' || c == '\u{85}' || c == '\u{A0}' || c == '\u{1680}'
        || ('\u{2000}' <= c && c <= '\u{200A}') || c == '\u{2028}' || c == '\u{2029}'
        || c == '\u{202F}' || c == '\u{205F}' || c == '\u{3000}'
}

/// The text without leading white space.
pub fn trim_start(text: &[char]) -> (rest: &[char])
    ensures
        rest@ == trimmed_start(text@),
{
    let mut start: usize = 0;
    assert(text@.skip(0) =~= text@);
    while start < text.len() && is_white_space(text[start])
        invariant
            start <= text@.len(),
            trimmed_start(text@) == trimmed_start(text@.skip(start as int)),
        decreases text@.len() - start,
    {
        assert(text@.skip(start as int).skip(1) =~= text@.skip(start + 1));
        start += 1;
    }
    assert(text@.subrange(start as int, text@.len() as int) =~= text@.skip(start as int));
    slice_subrange(text, start, text.len())
}

/// The text without trailing white space.
pub fn trim_end(text: &[char]) -> (rest: &[char])
    ensures
        rest@ == trimmed_end(text@),
{
    let mut end: usize = text.len();
    assert(text@.take(end as int) =~= text@);
    while end > 0 && is_white_space(text[end - 1])
        invariant
            end <= text@.len(),
            trimmed_end(text@) == trimmed_end(text@.take(end as int)),
        decreases end,
    {
        assert(text@.take(end as int).drop_last() =~= text@.take(end - 1));
        end -= 1;
    }
    assert(text@.subrange(0, end as int) =~= text@.take(end as int));
    slice_subrange(text, 0, end)
}

/// The text without white space at either end.
pub fn trim(text: &[char]) -> (rest: &[char])
    ensures
        rest@ == trimmed(text@),
{
    trim_end(trim_start(text))
}

/// The position of the first `c`, or the length of the text.
pub fn find_char(text: &[char], c: char) -> (position: usize)
    ensures
        position == index_of_char(text@, c),
        position <= text@.len(),
        position < text@.len() ==> text@[position as int] == c,
{
    let mut position: usize = 0;
    assert(text@.skip(0) =~= text@);
    while position < text.len() && text[position] != c
        invariant
            position <= text@.len(),
            index_of_char(text@, c) == position + index_of_char(text@.skip(position as int), c),
        decreases text@.len() - position,
    {
        assert(text@.skip(position as int).skip(1) =~= text@.skip(position + 1));
        position += 1;
    }
    position
}

/// What stands before the first `c`; all of the text where there is none.
pub fn up_to_char(text: &[char], c: char) -> (part: &[char])
    ensures
        part@ == before_char(text@, c),
{
    let end: usize = find_char(text, c);
    assert(text@.subrange(0, end as int) =~= text@.take(end as int));
    slice_subrange(text, 0, end)
}

/// The length of the text up to and with the last `c`; 0 where there is none.
pub fn find_last_char(text: &[char], c: char) -> (end: usize)
    ensures
        end == end_of_last_char(text@, c),
        end <= text@.len(),
{
    let mut end: usize = text.len();
    assert(text@.take(end as int) =~= text@);
    while end > 0 && text[end - 1] != c
        invariant
            end <= text@.len(),
            end_of_last_char(text@, c) == end_of_last_char(text@.take(end as int), c),
        decreases end,
    {
        assert(text@.take(end as int).drop_last() =~= text@.take(end - 1));
        end -= 1;
    }
    end
}

/// The text begins with `pattern`.
pub fn starts_with(text: &[char], pattern: &[char]) -> (yes: bool)
    ensures
        yes == begins_with(text@, pattern@),
{
    if text.len() < pattern.len() {
        return false;
    }
    let front: &[char] = slice_subrange(text, 0, pattern.len());
    assert(front@ =~= text@.take(pattern@.len() as int));
    same_chars(front, pattern)
}

/// The text ends with `pattern`.
pub fn ends_with(text: &[char], pattern: &[char]) -> (yes: bool)
    ensures
        yes == finishes_with(text@, pattern@),
{
    if text.len() < pattern.len() {
        return false;
    }
    let back: &[char] = slice_subrange(text, text.len() - pattern.len(), text.len());
    assert(back@ =~= text@.skip(text@.len() - pattern@.len()));
    same_chars(back, pattern)
}

/// Where a pattern stands first is where it stands at all.
pub proof fn lemma_first_occurrence(text: Seq<char>, pattern: Seq<char>)
    ensures
        first_occurrence(text, pattern) is Some <==> occurs(text, pattern),
        first_occurrence(text, pattern) matches Some(at) ==> {
            &&& occurs_at(text, pattern, at)
            &&& at + pattern.len() <= text.len()
            &&& forall|earlier: int| 0 <= earlier < at ==> !occurs_at(text, pattern, earlier)
        },
    decreases text.len(),
{
    assert(text.skip(0) =~= text);
    if begins_with(text, pattern) {
        assert(occurs_at(text, pattern, 0));
    } else if text.len() == 0 {
        if occurs(text, pattern) {
            let at = choose|at: int| occurs_at(text, pattern, at);
            assert(text.skip(at) =~= text);
        }
    } else {
        let rest = text.skip(1);
        lemma_first_occurrence(rest, pattern);
        if let Some(at) = first_occurrence(rest, pattern) {
            assert(rest.skip(at) =~= text.skip(at + 1));
            assert(occurs_at(text, pattern, at + 1));
            assert forall|earlier: int| 0 <= earlier < at + 1 implies !occurs_at(
                text,
                pattern,
                earlier,
            ) by {
                if earlier > 0 {
                    assert(rest.skip(earlier - 1) =~= text.skip(earlier));
                    assert(!occurs_at(rest, pattern, earlier - 1));
                }
            }
        }
        if occurs(text, pattern) {
            let at = choose|at: int| occurs_at(text, pattern, at);
            assert(at != 0);
            assert(rest.skip(at - 1) =~= text.skip(at));
            assert(occurs_at(rest, pattern, at - 1));
        }
    }
}

/// Where `pattern` stands first in the text.
pub fn find(text: &[char], pattern: &[char]) -> (position: Option<usize>)
    ensures
        match position {
            Some(at) => first_occurrence(text@, pattern@) == Some(at as int) && at + pattern@.len()
                <= text@.len() <= usize::MAX,
            None => first_occurrence(text@, pattern@) is None,
        },
{
    proof {
        lemma_first_occurrence(text@, pattern@);
    }
    let mut position: usize = 0;
    assert(text@.skip(0) =~= text@);
    while position < text.len()
        invariant
            position <= text@.len(),
            first_occurrence(text@, pattern@) == (match first_occurrence(
                text@.skip(position as int),
                pattern@,
            ) {
                Some(at) => Some(position + at),
                None => None,
            }),
            first_occurrence(text@, pattern@) matches Some(at) ==> at + pattern@.len() <= text@.len(),
        decreases text@.len() - position,
    {
        let rest: &[char] = slice_subrange(text, position, text.len());
        assert(rest@ =~= text@.skip(position as int));
        if starts_with(rest, pattern) {
            return Some(position);
        }
        assert(rest@.skip(1) =~= text@.skip(position + 1));
        position += 1;
    }
    if pattern.len() == 0 {
        assert(text@.skip(position as int).take(0) =~= pattern@);
        return Some(position);
    }
    None
}

/// `pattern` stands somewhere in the text.
pub fn contains(text: &[char], pattern: &[char]) -> (yes: bool)
    ensures
        yes == occurs(text@, pattern@),
{
    proof {
        lemma_first_occurrence(text@, pattern@);
    }
    find(text, pattern).is_some()
}

/// The text with the letters of ASCII in lower case.
pub fn to_ascii_lower(text: &[char]) -> (lower: Vec<char>)
    ensures
        lower@ == ascii_lower(text@),
{
    let mut lower: Vec<char> = Vec::with_capacity(text.len());
    for position in 0..text.len()
        invariant
            lower@ =~= ascii_lower(text@.take(position as int)),
    {
        let c: char = text[position];
        let l: char = if 'A' <= c && c <= 'Z' { ((c as u8) + 32u8) as char } else { c };
        lower.push(l);
        assert(text@.take(position + 1) =~= text@.take(position as int).push(c));
    }
    assert(text@.take(text@.len() as int) =~= text@);
    lower
}

/// The text with the letters of ASCII in upper case.
pub fn to_ascii_upper(text: &[char]) -> (upper: Vec<char>)
    ensures
        upper@ == ascii_upper(text@),
{
    let mut upper: Vec<char> = Vec::with_capacity(text.len());
    for position in 0..text.len()
        invariant
            upper@ =~= ascii_upper(text@.take(position as int)),
    {
        let c: char = text[position];
        let u: char = if 'a' <= c && c <= 'z' { ((c as u8) - 32u8) as char } else { c };
        upper.push(u);
        assert(text@.take(position + 1) =~= text@.take(position as int).push(c));
    }
    assert(text@.take(text@.len() as int) =~= text@);
    upper
}

/// The text has no characters.
pub fn is_empty(text: &str) -> (empty: bool)
    ensures
        empty == (text@.len() == 0),
{
    text.unicode_len() == 0
}

/// The characters are those of a literal.
pub fn is_text(chars: &[char], literal: &str) -> (same: bool)
    ensures
        same == (chars@ == literal@),
{
    same_chars(chars, chars_of(literal).as_slice())
}

/// The characters end with those of a literal.
pub fn ends_with_text(chars: &[char], literal: &str) -> (yes: bool)
    ensures
        yes == finishes_with(chars@, literal@),
{
    ends_with(chars, chars_of(literal).as_slice())
}

/// The characters begin with those of a literal.
pub fn starts_with_text(chars: &[char], literal: &str) -> (yes: bool)
    ensures
        yes == begins_with(chars@, literal@),
{
    starts_with(chars, chars_of(literal).as_slice())
}

/// The lines of a text.
pub fn split_lines(text: &[char]) -> (lines: Vec<Vec<char>>)
    ensures
        char_texts(lines@) == lines_of(text@),
{
    let mut lines: Vec<Vec<char>> = Vec::new();
    let mut start: usize = 0;
    assert(text@.skip(0) =~= text@);
    assert(char_texts(lines@) + lines_of(text@) =~= lines_of(text@));
    while start < text.len()
        invariant
            start <= text@.len(),
            lines_of(text@) == char_texts(lines@) + lines_of(text@.skip(start as int)),
        decreases text@.len() - start,
    {
        let rest: &[char] = slice_subrange(text, start, text.len());
        assert(rest@ =~= text@.skip(start as int));
        let feed: usize = find_char(rest, '\n');
        let ghost before = lines@;
        let mut end: usize = feed;
        if feed < rest.len() && feed > 0 && rest[feed - 1] == '\r' {
            end = feed - 1;
        }
        let mut line: Vec<char> = Vec::with_capacity(end);
        append_chars(&mut line, slice_subrange(rest, 0, end));
        lines.push(line);
        assert(char_texts(lines@) =~= char_texts(before).push(line@));
        if feed < rest.len() {
            assert(line@ =~= without_return(before_char(rest@, '\n')));
            assert(after_char(rest@, '\n') =~= text@.skip(start + feed + 1));
            assert(char_texts(before) + (seq![line@] + lines_of(text@.skip(start + feed + 1)))
                =~= char_texts(lines@) + lines_of(text@.skip(start + feed + 1)));
            start = start + feed + 1;
        } else {
            assert(line@ =~= rest@);
            assert(lines_of(text@.skip(text@.len() as int)) =~= Seq::empty());
            assert(char_texts(before) + seq![line@] =~= char_texts(lines@) + Seq::empty());
            start = text.len();
        }
    }
    assert(char_texts(lines@) + Seq::empty() =~= char_texts(lines@));
    lines
}

/// A number in decimal.
pub fn decimal(number: u128) -> (text: String)
    ensures
        text@ == decimal_of(number as nat),
    decreases number,
{
    let digit: char = ((48 + number % 10) as u8) as char;
    let mut text: String = if number < 10 { String::new() } else { decimal(number / 10) };
    text.push(digit);
    assert(text@ =~= decimal_of(number as nat));
    text
}

/// Texts joined with a separator between each two.
pub fn join(parts: &Vec<String>, separator: &str) -> (text: String)
    ensures
        text@ == joined(string_texts(parts@), separator@),
{
    let mut text: String = String::new();
    let ghost texts = string_texts(parts@);
    assert(texts.take(0) =~= Seq::empty());
    for position in 0..parts.len()
        invariant
            texts == string_texts(parts@),
            text@ == joined(texts.take(position as int), separator@),
    {
        let ghost before = texts.take(position as int);
        let ghost after = texts.take(position + 1);
        assert(after.drop_last() =~= before);
        if position > 0 {
            text.append(separator);
        } else {
            assert(Seq::<char>::empty() + after[0] =~= after[0]);
        }
        text.append(parts[position].as_str());
    }
    assert(texts.take(texts.len() as int) =~= texts);
    text
}

/// Behind a text without the character, it stands where it stands in what follows.
pub proof fn lemma_index_of_char_behind(text: Seq<char>, more: Seq<char>, c: char)
    requires
        !has_char(text, c),
    ensures
        index_of_char(text + more, c) == text.len() + index_of_char(more, c),
    decreases text.len(),
{
    lemma_index_of_char(text, c);
    if text.len() == 0 {
        assert(text + more =~= more);
    } else {
        assert((text + more).skip(1) =~= text.skip(1) + more);
        lemma_index_of_char_behind(text.skip(1), more, c);
    }
}

/// Where a pattern stands first does not change with text behind it.
pub proof fn lemma_first_occurrence_with_more(text: Seq<char>, more: Seq<char>, pattern: Seq<char>)
    requires
        first_occurrence(text, pattern) is Some,
    ensures
        first_occurrence(text + more, pattern) == first_occurrence(text, pattern),
    decreases text.len(),
{
    lemma_first_occurrence(text, pattern);
    if begins_with(text, pattern) {
        assert((text + more).take(pattern.len() as int) =~= text.take(pattern.len() as int));
    } else {
        let at = first_occurrence(text, pattern).unwrap();
        assert(at + pattern.len() <= text.len());
        assert((text + more).take(pattern.len() as int) =~= text.take(pattern.len() as int));
        assert((text + more).skip(1) =~= text.skip(1) + more);
        lemma_first_occurrence_with_more(text.skip(1), more, pattern);
    }
}

/// The last place of a character is behind every place that holds it.
pub proof fn lemma_end_of_last_char(text: Seq<char>, c: char)
    ensures
        0 <= end_of_last_char(text, c) <= text.len(),
        forall|i: int| 0 <= i < text.len() && text[i] == c ==> i < end_of_last_char(text, c),
        end_of_last_char(text, c) > 0 ==> text[end_of_last_char(text, c) - 1] == c,
    decreases text.len(),
{
    if text.len() > 0 && text.last() != c {
        let shorter = text.drop_last();
        lemma_end_of_last_char(shorter, c);
        assert forall|i: int| 0 <= i < text.len() && text[i] == c implies i < end_of_last_char(
            text,
            c,
        ) by {
            assert(shorter[i] == text[i]);
        }
    }
}

/// Of two texts one comes first, or they are the same.
pub proof fn lemma_precedes_is_total(a: Seq<char>, b: Seq<char>)
    ensures
        precedes(a, b) ==> !precedes(b, a) && a != b,
        !precedes(a, b) && a != b ==> precedes(b, a),
    decreases a.len(),
{
    if a.len() > 0 && b.len() > 0 && a[0] == b[0] {
        lemma_precedes_is_total(a.skip(1), b.skip(1));
        assert(a =~= seq![a[0]] + a.skip(1));
        assert(b =~= seq![b[0]] + b.skip(1));
    } else if a.len() == 0 && b.len() == 0 {
        assert(a =~= b);
    }
}

/// What comes before the earlier of two texts comes before the later.
pub proof fn lemma_precedes_is_transitive(a: Seq<char>, b: Seq<char>, c: Seq<char>)
    requires
        precedes(a, b),
        precedes(b, c),
    ensures
        precedes(a, c),
    decreases a.len(),
{
    if a.len() > 0 && a[0] == b[0] && b[0] == c[0] {
        lemma_precedes_is_transitive(a.skip(1), b.skip(1), c.skip(1));
    }
}

/// Two texts in their order.
pub fn order(a: &[char], b: &[char]) -> (order: TextOrder)
    ensures
        order == (if precedes(a@, b@) {
            TextOrder::Before
        } else if a@ == b@ {
            TextOrder::Same
        } else {
            TextOrder::After
        }),
        order == TextOrder::After ==> precedes(b@, a@),
{
    let mut position: usize = 0;
    proof {
        lemma_precedes_is_total(a@, b@);
        assert(a@.skip(0) =~= a@);
        assert(b@.skip(0) =~= b@);
    }
    while position < a.len() && position < b.len() && a[position] == b[position]
        invariant
            position <= a@.len(),
            position <= b@.len(),
            a@.take(position as int) =~= b@.take(position as int),
            precedes(a@, b@) == precedes(a@.skip(position as int), b@.skip(position as int)),
        decreases a@.len() - position,
    {
        proof {
            assert(a@.skip(position as int).skip(1) =~= a@.skip(position + 1));
            assert(b@.skip(position as int).skip(1) =~= b@.skip(position + 1));
        }
        position += 1;
    }
    if position < b.len() && (position == a.len() || a[position] < b[position]) {
        TextOrder::Before
    } else if position == a.len() && position == b.len() {
        assert(a@ =~= a@.take(position as int));
        assert(b@ =~= b@.take(position as int));
        TextOrder::Same
    } else {
        proof {
            if a@ == b@ {
                assert(position < a@.len() && position < b@.len());
            }
        }
        TextOrder::After
    }
}

/// White space are these characters and no others: the five controls from tab to carriage return,
/// the space, the next-line control, the space that does not break, the Ogham space, the eleven
/// spaces of the general punctuation, the two separators, and the narrow, the mathematical and the
/// ideographic space.
pub proof fn law_white_space_is_that_of_unicode(c: char)
    ensures
        is_white(c) <==> {
            let code = c as int;
            ||| 9 <= code < 14
            ||| code == 32
            ||| code == 133
            ||| code == 160
            ||| code == 5760
            ||| 8192 <= code < 8203
            ||| code == 8232
            ||| code == 8233
            ||| code == 8239
            ||| code == 8287
            ||| code == 12288
        },
{
}

/// Trimming takes the white space off the ends, all of it, and nothing else.
pub proof fn law_trimming_takes_the_white_space_off(
    before: Seq<char>,
    core: Seq<char>,
    after: Seq<char>,
)
    requires
        forall|i: int| 0 <= i < before.len() ==> is_white(#[trigger] before[i]),
        forall|i: int| 0 <= i < after.len() ==> is_white(#[trigger] after[i]),
        core.len() > 0 ==> !is_white(core[0]) && !is_white(core[core.len() - 1]),
    ensures
        trimmed(before + core + after) == core,
        core.len() > 0 ==> trimmed_start(before + core + after) == core + after,
        core.len() > 0 ==> trimmed_end(before + core + after) == before + core,
        trimmed_start(before) == Seq::<char>::empty(),
        trimmed_end(before) == Seq::<char>::empty(),
{
    let all = before + core + after;
    let nothing = Seq::<char>::empty();
    assert(all =~= before + (core + after));
    lemma_trimmed_start(before, core + after);
    lemma_trimmed_start(before, nothing);
    lemma_trimmed_end(nothing, before);
    assert(before + nothing =~= before);
    assert(nothing + before =~= before);
    if core.len() > 0 {
        assert(trimmed_start(core + after) == core + after);
        lemma_trimmed_end(core, after);
        lemma_trimmed_end(before + core, after);
        assert((before + core).last() == core[core.len() - 1]);
        assert(trimmed_end(core) == core);
    } else {
        assert(core + after =~= after);
        lemma_trimmed_start(after, nothing);
        assert(after + nothing =~= after);
        assert(core =~= nothing);
    }
}

/// White space at the front is trimmed.
pub proof fn lemma_trimmed_start(before: Seq<char>, rest: Seq<char>)
    requires
        forall|i: int| 0 <= i < before.len() ==> is_white(#[trigger] before[i]),
    ensures
        trimmed_start(before + rest) == trimmed_start(rest),
    decreases before.len(),
{
    if before.len() == 0 {
        assert(before + rest =~= rest);
    } else {
        assert((before + rest).skip(1) =~= before.skip(1) + rest);
        lemma_trimmed_start(before.skip(1), rest);
    }
}

/// White space at the end is trimmed.
pub proof fn lemma_trimmed_end(rest: Seq<char>, after: Seq<char>)
    requires
        forall|i: int| 0 <= i < after.len() ==> is_white(#[trigger] after[i]),
    ensures
        trimmed_end(rest + after) == trimmed_end(rest),
    decreases after.len(),
{
    if after.len() == 0 {
        assert(rest + after =~= rest);
    } else {
        assert((rest + after).drop_last() =~= rest + after.drop_last());
        lemma_trimmed_end(rest, after.drop_last());
    }
}

/// A text is parted at the first of a character: what stands before it has none, and what stands
/// behind it may have more. A text without the character stands before it as a whole.
pub proof fn law_a_text_is_parted_at_the_first(before: Seq<char>, c: char, after: Seq<char>)
    requires
        forall|i: int| 0 <= i < before.len() ==> #[trigger] before[i] != c,
    ensures
        before_char(before + seq![c] + after, c) == before,
        after_char(before + seq![c] + after, c) == after,
        has_char(before + seq![c] + after, c),
        before_char(before, c) == before,
        !has_char(before, c),
{
    let text = before + seq![c] + after;
    lemma_index_of_char(before, c);
    assert(!has_char(before, c));
    assert(text =~= before + (seq![c] + after));
    lemma_index_of_char_behind(before, seq![c] + after, c);
    assert((seq![c] + after)[0] == c);
    assert(text.take(before.len() as int) =~= before);
    assert(text.skip(before.len() as int + 1) =~= after);
    assert(before.take(before.len() as int) =~= before);
}

/// A text begins with its front, ends with its back and holds its middle; and what begins with,
/// ends with or holds a pattern is made of it in that way.
pub proof fn law_patterns_are_found_where_they_stand(
    before: Seq<char>,
    pattern: Seq<char>,
    after: Seq<char>,
    text: Seq<char>,
)
    ensures
        begins_with(pattern + after, pattern),
        finishes_with(before + pattern, pattern),
        occurs(before + pattern + after, pattern),
        begins_with(text, pattern) ==> exists|rest: Seq<char>| text == pattern + rest,
        finishes_with(text, pattern) ==> exists|rest: Seq<char>| text == rest + pattern,
        occurs(text, pattern) ==> exists|front: Seq<char>, back: Seq<char>|
            text == #[trigger] ((front + pattern) + back),
{
    let count = pattern.len() as int;
    assert((pattern + after).take(count) =~= pattern);
    assert((before + pattern).skip((before + pattern).len() - count) =~= pattern);
    let all = before + pattern + after;
    assert(all.skip(before.len() as int).take(count) =~= pattern);
    assert(occurs_at(all, pattern, before.len() as int));
    if begins_with(text, pattern) {
        assert(text =~= pattern + text.skip(count));
    }
    if finishes_with(text, pattern) {
        assert(text =~= text.take(text.len() - count) + pattern);
    }
    if occurs(text, pattern) {
        let at = choose|at: int| occurs_at(text, pattern, at);
        let front = text.take(at);
        let back = text.skip(at + count);
        assert(text.skip(at).take(count) == pattern);
        assert(text =~= (front + pattern) + back) by {
            assert forall|i: int| at <= i < at + count implies text[i] == pattern[i - at] by {
                assert(text.skip(at).take(count)[i - at] == text[i]);
            }
        }
    }
}

/// The letters from A to Z and those from a to z change into each other, and every other character
/// stays what it is.
pub proof fn law_letters_change_their_case(c: char)
    ensures
        65 <= c as int <= 90 ==> lower_char(c) as int == c as int + 32 && upper_char(c) == c,
        97 <= c as int <= 122 ==> upper_char(c) as int == c as int - 32 && lower_char(c) == c,
        !(65 <= c as int <= 90) && !(97 <= c as int <= 122) ==> lower_char(c) == c && upper_char(c)
            == c,
{
}

/// The case of a text changes character by character.
pub proof fn law_case_changes_character_by_character(text: Seq<char>)
    ensures
        ascii_lower(text).len() == text.len(),
        ascii_upper(text).len() == text.len(),
        forall|i: int| 0 <= i < text.len() ==> #[trigger] ascii_lower(text)[i] == lower_char(text[i]),
        forall|i: int| 0 <= i < text.len() ==> #[trigger] ascii_upper(text)[i] == upper_char(text[i]),
{
}

/// A line ends with a line feed, or with a carriage return and a line feed, neither of which is
/// part of it; the other lines are those of what follows. The last line needs no end, and behind
/// the last end there is no line.
pub proof fn law_lines_end_with_line_feeds(line: Seq<char>, rest: Seq<char>)
    requires
        forall|i: int| 0 <= i < line.len() ==> #[trigger] line[i] != '\n',
    ensures
        line.len() == 0 || line.last() != '\r' ==> lines_of(line + seq!['\n'] + rest) == seq![line]
            + lines_of(rest),
        lines_of(line + seq!['\r', '\n'] + rest) == seq![line] + lines_of(rest),
        line.len() > 0 ==> lines_of(line) == seq![line],
        lines_of(Seq::empty()) == Seq::<Seq<char>>::empty(),
{
    law_a_text_is_parted_at_the_first(line, '\n', rest);
    let ended = line.push('\r');
    assert forall|i: int| 0 <= i < ended.len() implies #[trigger] ended[i] != '\n' by {
        if i < line.len() {
            assert(ended[i] == line[i]);
        }
    }
    law_a_text_is_parted_at_the_first(ended, '\n', rest);
    assert(line + seq!['\r', '\n'] + rest =~= ended + seq!['\n'] + rest);
    assert(ended.drop_last() =~= line);
}

/// Decimal numbers are written with the digits from 0 to 9, the last digit last, and without
/// leading zeros.
pub proof fn law_decimals_are_written_digit_by_digit(number: nat, digit: nat)
    requires
        digit < 10,
    ensures
        decimal_of(digit).len() == 1,
        decimal_of(digit)[0] as int == 48 + digit,
        number > 0 ==> decimal_of(number * 10 + digit) == decimal_of(number) + decimal_of(digit),
{
    if number > 0 {
        let all = number * 10 + digit;
        assert(all / 10 == number && all % 10 == digit);
        assert(decimal_of(all) =~= decimal_of(number) + decimal_of(digit));
    }
}

/// Joined texts stand one behind the other with the separator between each two.
pub proof fn law_a_separator_stands_between_each_two(
    first: Seq<char>,
    parts: Seq<Seq<char>>,
    last: Seq<char>,
    separator: Seq<char>,
)
    ensures
        joined(Seq::empty(), separator) == Seq::<char>::empty(),
        joined(seq![first], separator) == first,
        joined((seq![first] + parts).push(last), separator) == joined(seq![first] + parts, separator)
            + separator + last,
{
    assert((seq![first] + parts).push(last).drop_last() =~= seq![first] + parts);
}

/// The first character in which two texts differ decides which comes first; and a text comes before
/// those that go on where it ends.
pub proof fn law_the_first_difference_decides_the_order(
    same: Seq<char>,
    a: char,
    rest_a: Seq<char>,
    b: char,
    rest_b: Seq<char>,
)
    requires
        a != b,
    ensures
        precedes(same + seq![a] + rest_a, same + seq![b] + rest_b) <==> (a as int) < (b as int),
        precedes(same, same + seq![a] + rest_a),
        !precedes(same + seq![a] + rest_a, same),
        !precedes(same, same),
    decreases same.len(),
{
    let left = same + seq![a] + rest_a;
    let right = same + seq![b] + rest_b;
    if same.len() > 0 {
        let tail = same.skip(1);
        law_the_first_difference_decides_the_order(tail, a, rest_a, b, rest_b);
        assert(left.skip(1) =~= tail + seq![a] + rest_a);
        assert(right.skip(1) =~= tail + seq![b] + rest_b);
    }
}

/// Texts are what their strings and vectors hold, each its own and in order.
pub proof fn law_texts_are_what_their_strings_hold(
    string: String,
    strings: Seq<String>,
    lines: Seq<Vec<char>>,
)
    ensures
        optional_text(Some(string)) == Some(string@),
        optional_text(None) is None,
        string_texts(strings).len() == strings.len(),
        char_texts(lines).len() == lines.len(),
        forall|i: int| 0 <= i < strings.len() ==> #[trigger] string_texts(strings)[i] == strings[i]@,
        forall|i: int| 0 <= i < lines.len() ==> #[trigger] char_texts(lines)[i] == lines[i]@,
{
}

} // verus!
