use silo::numbers::{is_float_text, parse_bytes, parse_u64};
use silo::words::{split_lines, split_words};

fn chars(s: &str) -> Vec<char> {
    s.chars().collect()
}

fn texts(v: Vec<Vec<char>>) -> Vec<String> {
    v.into_iter().map(|w| w.into_iter().collect()).collect()
}

#[test]
fn unsigned_integers_parse_like_std() {
    for s in ["0", "42", "+7", "007", "18446744073709551615", "18446744073709551616", "", "+", "-1", "1 ", "1_000", "abc"] {
        assert_eq!(parse_u64(&chars(s)), s.parse::<u64>().ok(), "{s:?}");
    }
}

#[test]
fn byte_counts_drop_thousands_separators() {
    assert_eq!(parse_bytes(&chars("7,423,077,535")), Some(7_423_077_535));
    assert_eq!(parse_bytes(&chars(",,1,")), Some(1));
    assert_eq!(parse_bytes(&chars(",")), None);
    assert_eq!(parse_bytes(&chars("1.5")), None);
}

#[test]
fn float_syntax_matches_std() {
    for s in [
        "0", "12", "12.", ".5", "1.25", "+3", "-3", "1e5", "1E-5", "2.5e+10", "inf", "-Infinity", "NaN", "nan",
        ".", "", "e5", "1e", "1e+", "1.2.3", "--1", "+-1", "1 ", "0x10", "infinit", "1_0", "١",
    ] {
        assert_eq!(is_float_text(&chars(s)), s.parse::<f64>().is_ok(), "{s:?}");
    }
}

#[test]
fn words_split_on_unicode_whitespace() {
    for s in ["", "  a  b ", "one", "a\tb\nc\u{3000}d", "\u{a0}x\u{2009}y "] {
        let expected: Vec<String> = s.split_whitespace().map(|w| w.to_string()).collect();
        assert_eq!(texts(split_words(&chars(s))), expected, "{s:?}");
    }
}

#[test]
fn lines_split_like_std() {
    for s in ["", "a", "a\n", "a\nb", "a\r\nb\r\n", "\n\nx", "a\rb", "x\r"] {
        let expected: Vec<String> = s.lines().map(|l| l.to_string()).collect();
        assert_eq!(texts(split_lines(&chars(s))), expected, "{s:?}");
    }
}
