use sysgraph::fields::{colon_value, eq_value};
use sysgraph::text::{
    chars_of, decimal_string, lines, parse_u32, parse_u64_str, replace_all, trim_str, words,
};

fn cv(s: &str) -> Vec<char> {
    s.chars().collect()
}

fn strs(v: Vec<Vec<char>>) -> Vec<String> {
    v.into_iter().map(|l| l.into_iter().collect()).collect()
}

#[test]
fn trim_removes_unicode_whitespace() {
    assert_eq!(trim_str("  a b \n"), "a b");
    assert_eq!(trim_str("\u{3000}x\u{a0}"), "x");
    assert_eq!(trim_str(" \t "), "");
}

#[test]
fn parse_u64_follows_from_str() {
    assert_eq!(parse_u64_str("+42"), Some(42));
    assert_eq!(parse_u64_str("0042"), Some(42));
    assert_eq!(parse_u64_str(""), None);
    assert_eq!(parse_u64_str("+"), None);
    assert_eq!(parse_u64_str("-1"), None);
    assert_eq!(parse_u64_str(" 1"), None);
    assert_eq!(parse_u64_str("18446744073709551615"), Some(u64::MAX));
    assert_eq!(parse_u64_str("18446744073709551616"), None);
    for s in ["7", "+0", "99999999999", "12a", "١"] {
        assert_eq!(parse_u64_str(s), s.parse::<u64>().ok());
    }
}

#[test]
fn parse_u32_bound() {
    assert_eq!(parse_u32(&cv("4294967295")), Some(u32::MAX));
    assert_eq!(parse_u32(&cv("4294967296")), None);
}

#[test]
fn decimal_roundtrip_values() {
    assert_eq!(decimal_string(0), "0");
    assert_eq!(decimal_string(1234), "1234");
    assert_eq!(decimal_string(u64::MAX), u64::MAX.to_string());
    for n in [0u64, 9, 10, 4096, u64::MAX] {
        assert_eq!(parse_u64_str(&decimal_string(n)), Some(n));
    }
}

#[test]
fn lines_match_str_lines() {
    for s in ["a\nb\r\nc", "a\n", "", "\n\n", "x\r", "one\r\n\r\ntwo\n"] {
        let ours = strs(lines(&cv(s)));
        let theirs: Vec<String> = s.lines().map(String::from).collect();
        assert_eq!(ours, theirs, "{s:?}");
    }
}

#[test]
fn words_match_split_whitespace() {
    for s in ["cpu  1 2\t3\n", "", "   ", "a\u{2003}b"] {
        let ours = strs(words(&cv(s)));
        let theirs: Vec<String> = s.split_whitespace().map(String::from).collect();
        assert_eq!(ours, theirs, "{s:?}");
    }
}

#[test]
fn replace_matches_str_replace() {
    for (s, p, r) in [("a  b   c", "  ", " "), ("aaa", "aa", "b"), ("Core i7", "Core", ""), ("x", "yz", "q")] {
        let got: String = replace_all(&cv(s), &cv(p), &cv(r)).into_iter().collect();
        assert_eq!(got, s.replace(p, r));
    }
}

#[test]
fn chars_of_keeps_order() {
    assert_eq!(chars_of("aé"), vec!['a', 'é']);
}

#[test]
fn colon_value_last_wins_and_trims() {
    assert_eq!(colon_value("a: 1\nb:2\na:  3 \n", "a"), Some("3".to_string()));
    assert_eq!(colon_value("a: 1\nb:2\n", "b"), Some("2".to_string()));
    assert_eq!(colon_value("a: 1\n a: 2\n", "c"), None);
    assert_eq!(colon_value("x: y: z", "x"), Some("y: z".to_string()));
}

#[test]
fn eq_value_first_wins() {
    assert_eq!(eq_value("X=1\nY=2=3\nY=4", "Y"), Some("2=3".to_string()));
    assert_eq!(eq_value("X=1", "Z"), None);
    assert_eq!(eq_value("X = 1", "X"), None);
}

#[test]
fn trim_twice_is_trim_once() {
    for s in ["  a  ", "\u{85}b\u{85}", "", "c"] {
        assert_eq!(trim_str(&trim_str(s)), trim_str(s));
    }
}
