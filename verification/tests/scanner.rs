use boki::lex::scanner::{
    chars_of, char_width, text_from_bytes, CompareResult, StringScanner,
};
use boki::lex::whitespace::CharClass;

#[test]
fn scanner_covers_the_whole_text() {
    let s = StringScanner::from("h\u{e9}llo");
    assert_eq!(s.as_str(), "h\u{e9}llo");
    assert_eq!(s.input_len(), 6);
    assert_eq!(s.location(), 0);
    assert_eq!(s.eof_idx(), 6);
    assert!(!s.is_empty());
    let empty = StringScanner::from("");
    assert!(empty.is_empty());
    assert_eq!(empty.eof_idx(), 0);
    assert_eq!(empty.as_str(), "");
}

#[test]
fn split_gives_what_was_consumed_and_what_remains() {
    let s = StringScanner::from("a\u{20ac}bc");
    let (consumed, remainder) = s.take_split(4);
    assert_eq!(consumed.as_str(), "a\u{20ac}");
    assert_eq!(consumed.location(), 0);
    assert_eq!(consumed.input_len(), 4);
    assert_eq!(remainder.as_str(), "bc");
    assert_eq!(remainder.location(), 4);
    assert_eq!(remainder.eof_idx(), 6);
    // the scanner that was split is as it was
    assert_eq!(s.as_str(), "a\u{20ac}bc");
    let (consumed, remainder) = s.take_split(0);
    assert!(consumed.is_empty());
    assert_eq!(remainder.as_str(), "a\u{20ac}bc");
    let (consumed, remainder) = s.take_split(6);
    assert_eq!(consumed.as_str(), "a\u{20ac}bc");
    assert!(remainder.is_empty());
    assert_eq!(remainder.location(), 6);
}

#[test]
fn split_counts_bytes() {
    let s = StringScanner::from("\u{e9}a");
    assert_eq!(s.input_len(), 3);
    let (consumed, remainder) = s.take_split(2);
    assert_eq!(consumed.as_str(), "\u{e9}");
    assert_eq!(remainder.as_str(), "a");
    assert_eq!(remainder.location(), 2);
    assert_eq!(consumed.location(), 0);
    let later = StringScanner::from("x\u{e9}a").take_from(1);
    let (consumed, remainder) = later.take_split(2);
    assert_eq!(consumed.as_str(), "\u{e9}");
    assert_eq!(remainder.as_str(), "a");
    assert_eq!(remainder.location(), later.location() + 2);
}

#[test]
fn a_cut_inside_a_character_leaves_no_text() {
    let s = StringScanner::from("\u{e9}a");
    let (consumed, remainder) = s.take_split(1);
    assert_eq!(consumed.input_len(), 1);
    assert_eq!(remainder.input_len(), 2);
    assert_eq!(remainder.location(), 1);
    assert_eq!(consumed.to_text(), None);
    assert_eq!(remainder.to_text(), None);
    assert_eq!(consumed.byte_at(0), Some(0xc3));
    assert_eq!(remainder.byte_at(0), Some(0xa9));
    assert_eq!(s.to_text(), Some(String::from("\u{e9}a")));
    assert_eq!(text_from_bytes(&[0x61, 0xc3, 0xa9]), Some(String::from("a\u{e9}")));
    assert_eq!(text_from_bytes(&[0x61, 0xc3]), None);
    assert_eq!(text_from_bytes(&[]), Some(String::new()));
}

#[test]
fn bytes_are_appended() {
    let s = StringScanner::from("abcdef").take_from(2).take(3);
    let mut out: Vec<u8> = vec![1, 2];
    s.append_to(&mut out);
    assert_eq!(out, vec![1, 2, b'c', b'd', b'e']);
    StringScanner::from("").append_to(&mut out);
    assert_eq!(out, vec![1, 2, b'c', b'd', b'e']);
}

#[test]
fn derived_scanners_are_views() {
    let s = StringScanner::from("abcdef");
    let middle = s.take_from(1).take(4);
    assert_eq!(middle.as_str(), "bcde");
    assert_eq!(middle.location(), 1);
    assert_eq!(middle.eof_idx(), 6);
    let inner = middle.take_from(2);
    assert_eq!(inner.as_str(), "de");
    assert_eq!(inner.location(), 3);
    assert_eq!(inner.byte_at(0), Some(b'd'));
    assert_eq!(inner.byte_at(1), Some(b'e'));
    // the view ends where it ends, whatever the buffer holds behind it
    assert_eq!(inner.byte_at(2), None);
    let copy = inner.clone();
    assert_eq!(copy.as_str(), "de");
    assert_eq!(copy.location(), 3);
}

#[test]
fn compare_tells_match_incomplete_and_mismatch() {
    let s = StringScanner::from("set x");
    assert_eq!(s.compare("set"), CompareResult::Match);
    assert_eq!(s.compare(""), CompareResult::Match);
    assert_eq!(s.compare("set x"), CompareResult::Match);
    assert_eq!(s.compare("set xy"), CompareResult::Incomplete);
    assert_eq!(s.compare("sat"), CompareResult::Mismatch);
    assert_eq!(s.compare("Set"), CompareResult::Mismatch);
    assert_eq!(s.compare("sat xyz and more"), CompareResult::Mismatch);
    assert_eq!(s.take_from(4).compare("x"), CompareResult::Match);
}

#[test]
fn compare_no_case_ignores_case() {
    let s = StringScanner::from("SeT \u{c9}x");
    assert_eq!(s.compare_no_case("set"), CompareResult::Match);
    assert_eq!(s.compare_no_case("SET \u{e9}"), CompareResult::Match);
    assert_eq!(s.compare_no_case("set \u{e9}xy"), CompareResult::Incomplete);
    assert_eq!(s.compare_no_case("sat"), CompareResult::Mismatch);
    assert_eq!(s.compare("set"), CompareResult::Mismatch);
}

#[test]
fn find_substring_finds_the_first_place() {
    let s = StringScanner::from("ab\n  ---\n  ---");
    assert_eq!(s.find_substring("\n  ---"), Some(2));
    assert_eq!(s.find_substring("---"), Some(5));
    assert_eq!(s.find_substring(""), Some(0));
    assert_eq!(s.find_substring("x"), None);
    assert_eq!(s.find_substring("ab\n  ---\n  ---"), Some(0));
    assert_eq!(s.find_substring("ab\n  ---\n  ---!"), None);
    assert_eq!(s.take_from(3).find_substring("\n  ---"), Some(5));
    assert_eq!(s.take(7).find_substring("---"), None);
    assert_eq!(StringScanner::from("").find_substring(""), Some(0));
    assert_eq!(StringScanner::from("aab").find_substring("ab"), Some(1));
}

#[test]
fn position_finds_the_first_character_that_fits() {
    let s = StringScanner::from("ab;cd;");
    assert_eq!(s.position(|c| c == ';'), Some(2));
    assert_eq!(s.position(|c| c == 'a'), Some(0));
    assert_eq!(s.position(|c| c == 'x'), None);
    assert_eq!(s.take_from(3).position(|c| c == ';'), Some(2));
    // the place is counted in bytes
    let wide = StringScanner::from("\u{e9}\u{20ac};");
    assert_eq!(wide.position(|c| c == ';'), Some(5));
    assert_eq!(wide.position(|c| c == '\u{20ac}'), Some(2));
    assert_eq!(wide.find_substring(";"), Some(5));
    assert_eq!(wide.find_substring("\u{20ac}"), Some(2));
    assert_eq!(wide.compare("\u{e9}"), CompareResult::Match);
    assert_eq!(wide.slice_index(6), Ok(6));
    assert_eq!(wide.slice_index(7), Err(1));
}

#[test]
fn iterators_walk_the_view() {
    let s = StringScanner::from("x\u{e9}yz").take_from(1).take(3);
    let mut elements = s.iter_elements();
    assert_eq!(elements.next(), Some('\u{e9}'));
    assert_eq!(elements.next(), Some('y'));
    assert_eq!(elements.next(), None);
    assert_eq!(elements.next(), None);
    let mut indices = s.iter_indices();
    assert_eq!(indices.next(), Some((0, '\u{e9}')));
    assert_eq!(indices.next(), Some((1, 'y')));
    assert_eq!(indices.next(), None);
}

#[test]
fn slice_index_says_how_much_is_missing() {
    let s = StringScanner::from("abc");
    assert_eq!(s.slice_index(0), Ok(0));
    assert_eq!(s.slice_index(3), Ok(3));
    assert_eq!(s.slice_index(5), Err(2));
}

#[test]
fn characters_and_their_widths() {
    assert_eq!(chars_of("a\u{e9}\u{20ac}\u{1f600}"), vec!['a', '\u{e9}', '\u{20ac}', '\u{1f600}']);
    assert_eq!(char_width('a'), 1);
    assert_eq!(char_width('\u{7f}'), 1);
    assert_eq!(char_width('\u{80}'), 2);
    assert_eq!(char_width('\u{7ff}'), 2);
    assert_eq!(char_width('\u{800}'), 3);
    assert_eq!(char_width('\u{ffff}'), 3);
    assert_eq!(char_width('\u{10000}'), 4);
    assert_eq!(char_width('\u{10ffff}'), 4);
    for c in ['a', '\u{e9}', '\u{20ac}', '\u{1f600}'] {
        assert_eq!(char_width(c), c.len_utf8());
    }
}

#[test]
fn byte_classes() {
    assert!(CharClass::Space.contains(b' '));
    assert!(!CharClass::Space.contains(b'\t'));
    assert!(CharClass::Blank.contains(b'\t'));
    assert!(!CharClass::Blank.contains(b'\n'));
    assert!(CharClass::LineEnd.contains(b'\r'));
    assert!(CharClass::Letter.contains(b'_'));
    assert!(CharClass::Letter.contains(b'a'));
    assert!(CharClass::Letter.contains(b'z'));
    assert!(CharClass::Letter.contains(b'A'));
    assert!(CharClass::Letter.contains(b'Z'));
    assert!(!CharClass::Letter.contains(b'0'));
    assert!(!CharClass::Letter.contains(b'['));
    assert!(!CharClass::Letter.contains(b'`'));
    assert!(!CharClass::Letter.contains(b'{'));
    assert!(!CharClass::Letter.contains(b'@'));
    assert!(CharClass::LetterOrDigit.contains(b'9'));
    assert!(!CharClass::LetterOrDigit.contains(0xc3));
    assert!(CharClass::Digit.contains(b'0'));
    assert!(!CharClass::Digit.contains(b'/'));
    assert!(!CharClass::Digit.contains(b':'));
    assert!(!CharClass::Digit.contains(0xd9));
}
