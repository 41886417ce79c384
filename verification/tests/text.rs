use aco::decimal::parse_usize;
use aco::text::{chars_of, contains_chars, has_prefix, is_white_char, split_fields, trim_chars};

fn chars(s: &str) -> Vec<char> {
    s.chars().collect()
}

#[test]
fn white_space_matches_std() {
    for c in ['\t', '\n', '\r', ' ', '\u{0B}', '\u{0C}', '\u{85}', '\u{A0}', '\u{2003}', '\u{3000}', 'a', '0', ':', '#', '\u{200B}'] {
        assert_eq!(is_white_char(c), c.is_whitespace(), "{:?}", c);
    }
}

#[test]
fn chars_of_keeps_every_character() {
    assert_eq!(chars_of("ab\u{e9} c"), vec!['a', 'b', '\u{e9}', ' ', 'c']);
    assert_eq!(chars_of(""), Vec::<char>::new());
}

#[test]
fn split_fields_on_white_space() {
    assert_eq!(split_fields(&chars("  1 22\t333  "), false), vec!["1", "22", "333"]);
    assert_eq!(split_fields(&chars("   "), false), Vec::<String>::new());
    assert_eq!(split_fields(&chars("a:b c"), false), vec!["a:b", "c"]);
}

#[test]
fn split_fields_on_colon_too() {
    assert_eq!(split_fields(&chars("DIMENSION: 29"), true), vec!["DIMENSION", "29"]);
    assert_eq!(split_fields(&chars("DIMENSION :29:"), true), vec!["DIMENSION", "29"]);
    assert_eq!(split_fields(&chars("::"), true), Vec::<String>::new());
}

#[test]
fn split_fields_agrees_with_split_whitespace() {
    for s in ["", " x ", "1 2\t3\r\n", "\u{A0}a\u{2000}b ", "EOF", "  12  -3.5e2 "] {
        let expected: Vec<&str> = s.split_whitespace().collect();
        assert_eq!(split_fields(&chars(s), false), expected);
    }
}

#[test]
fn trim_removes_white_space_at_both_ends() {
    assert_eq!(trim_chars(&chars("  EOF \r")), chars("EOF"));
    assert_eq!(trim_chars(&chars(" \t ")), Vec::<char>::new());
    assert_eq!(trim_chars(&chars("a b")), chars("a b"));
}

#[test]
fn prefix_and_containment() {
    assert!(has_prefix(&chars("DIMENSION: 5"), &chars("DIMENSION")));
    assert!(!has_prefix(&chars(" DIMENSION: 5"), &chars("DIMENSION")));
    assert!(!has_prefix(&chars("DIM"), &chars("DIMENSION")));
    assert!(contains_chars(&chars("xx EDGE_WEIGHT_SECTION"), &chars("EDGE_WEIGHT_SECTION")));
    assert!(!contains_chars(&chars("EDGE_WEIGHT"), &chars("EDGE_WEIGHT_SECTION")));
    assert!(contains_chars(&chars("abc"), &chars("")));
}

#[test]
fn parse_usize_as_std_does() {
    for s in ["0", "29", "+7", "007", "", "+", "-1", "1.0", " 5", "18446744073709551615", "18446744073709551616", "99999999999999999999x", "++1"] {
        assert_eq!(parse_usize(&chars(s)), s.parse::<usize>().ok(), "{:?}", s);
    }
    assert_eq!(parse_usize(&chars("42")), Some(42));
    assert_eq!(parse_usize(&chars("4a")), None);
}

#[test]
fn fields_are_non_empty_and_hold_no_separator() {
    for s in ["a: b ::c\t d", "  ", "x", ":x:", "1 2 3 "] {
        for colon in [false, true] {
            for f in split_fields(&chars(s), colon) {
                assert!(!f.is_empty());
                assert!(f.chars().all(|c| !c.is_whitespace() && !(colon && c == ':')));
            }
        }
    }
}
