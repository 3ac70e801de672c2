use sitrep::text::chars_of;
use sitrep::text::contains_chars;
use sitrep::text::has_char;
use sitrep::text::has_prefix;
use sitrep::text::is_space_char;
use sitrep::text::join_chars;
use sitrep::text::occurs_at_index;
use sitrep::text::parse_numeral;
use sitrep::text::replace_chars;
use sitrep::text::same_chars;
use sitrep::text::same_text;
use sitrep::text::slice_of;
use sitrep::text::string_of;
use sitrep::text::trim_chars;
use sitrep::text::write_decimal;

fn cs(s: &str) -> Vec<char> {
    chars_of(s)
}

fn replaced(s: &str, from: &str, to: &str) -> String {
    string_of(&replace_chars(&cs(s), &cs(from), &cs(to)))
}

#[test]
fn chars_and_string_round_trip() {
    assert_eq!(chars_of("a\u{a7}b"), vec!['a', '\u{a7}', 'b']);
    assert_eq!(string_of(&vec!['H', 'u', 'b', 'e', 'i']), "Hubei");
    assert_eq!(string_of(&chars_of("")), "");
}

#[test]
fn white_space_is_what_std_takes_for_it() {
    let mut n: u32 = 0;
    while n <= 0x3100 {
        if let Some(c) = char::from_u32(n) {
            assert_eq!(is_space_char(c), c.is_whitespace(), "code point {:x}", n);
        }
        n += 1;
    }
}

#[test]
fn trim_matches_std_trim() {
    for s in ["", " ", "  a  ", "a", "\t a b \n", "\u{a0}x\u{3000}", " ( 5 ) ", "  \r\n"] {
        assert_eq!(string_of(&trim_chars(&cs(s))), s.trim());
    }
}

#[test]
fn slice_takes_the_half_open_range() {
    assert_eq!(string_of(&slice_of(&cs("abcdef"), 1, 4)), "bcd");
    assert_eq!(string_of(&slice_of(&cs("abcdef"), 2, 2)), "");
}

#[test]
fn occurrence_and_containment() {
    assert!(occurs_at_index(&cs("Region A"), &cs("Region"), 0));
    assert!(!occurs_at_index(&cs("Region A"), &cs("Region"), 1));
    assert!(occurs_at_index(&cs("abc"), &cs(""), 3));
    assert!(!occurs_at_index(&cs("abc"), &cs(""), 4));
    assert!(contains_chars(&cs("Western Pacific Region"), &cs("Region")));
    assert!(contains_chars(&cs("a - b"), &cs(" - ")));
    assert!(!contains_chars(&cs("a-b"), &cs(" - ")));
    assert!(contains_chars(&cs(""), &cs("")));
    assert!(!contains_chars(&cs("ab"), &cs("abc")));
    assert!(has_char(&cs("50 (100)"), '('));
    assert!(!has_char(&cs("50"), '('));
}

#[test]
fn text_equality_and_prefix() {
    assert!(same_chars(&cs("China"), &cs("China")));
    assert!(!same_chars(&cs("China"), &cs("china")));
    assert!(!same_chars(&cs("China"), &cs("Chin")));
    assert!(same_text("a", "a"));
    assert!(!same_text("a", "A"));
    assert!(has_prefix("/docs/x", "/docs/"));
    assert!(!has_prefix("/doc", "/docs/"));
    assert!(has_prefix("abc", ""));
}

#[test]
fn replace_matches_std_replace() {
    let cases = [
        ("Total", "Total", "China"),
        ("Grand Total of Totals", "Total", "China"),
        ("Uni ted Kingdom", "Uni ted", "United"),
        ("aaaa", "aa", "b"),
        ("aaa", "aa", "b"),
        ("South - East", "South - ", ""),
        ("abc", "x", "y"),
        ("", "x", "y"),
        ("abab", "ab", "abab"),
    ];
    for (s, from, to) in cases {
        assert_eq!(replaced(s, from, to), s.replace(from, to));
    }
}

#[test]
fn replace_with_empty_pattern_changes_nothing() {
    assert_eq!(replaced("abc", "", "x"), "abc");
}

#[test]
fn join_puts_one_space_between_parts() {
    assert_eq!(string_of(&join_chars(&vec![cs("Republic"), cs("of"), cs("Korea")])), "Republic of Korea");
    assert_eq!(string_of(&join_chars(&vec![cs("Japan")])), "Japan");
    assert_eq!(string_of(&join_chars(&vec![])), "");
    assert_eq!(string_of(&join_chars(&vec![cs(""), cs("x")])), " x");
}

#[test]
fn numeral_parsing_exact_values() {
    assert_eq!(parse_numeral(&cs("0")), Some(0));
    assert_eq!(parse_numeral(&cs("1400")), Some(1400));
    assert_eq!(parse_numeral(&cs("4294967295")), Some(4294967295));
    assert_eq!(parse_numeral(&cs("4294967296")), None);
    assert_eq!(parse_numeral(&cs("")), None);
    assert_eq!(parse_numeral(&cs("12a")), None);
    assert_eq!(parse_numeral(&cs(" 12")), None);
    assert_eq!(parse_numeral(&cs("-1")), None);
}

#[test]
fn decimal_writing_exact_values() {
    assert_eq!(string_of(&write_decimal(0)), "0");
    assert_eq!(string_of(&write_decimal(7)), "7");
    assert_eq!(string_of(&write_decimal(10)), "10");
    assert_eq!(string_of(&write_decimal(6)), "6");
    assert_eq!(string_of(&write_decimal(12345)), "12345");
}
