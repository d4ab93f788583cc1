use gstshm2::text::{chars_of, find_text, has_prefix, join, parse_decimal, push_decimal};
use gstshm2::text::{replace_text, rsplit_once, split_once, split_words, string_of, strip_prefix};

fn c(s: &str) -> Vec<char> {
    chars_of(s)
}

#[test]
fn texts_survive_as_characters() {
    let s = "a\u{20ac}\u{1f600}";
    assert_eq!(string_of(&c(s)), s);
    assert_eq!(c(s).len(), 3);
}

#[test]
fn prefixes_are_stripped() {
    assert!(has_prefix(&c("tcp://x"), "tcp://"));
    assert!(!has_prefix(&c("tcp:/"), "tcp://"));
    assert_eq!(strip_prefix(&c("tcp://x"), "tcp://").unwrap(), c("x"));
    assert!(strip_prefix(&c("x"), "xx").is_none());
}

#[test]
fn texts_are_found_and_replaced() {
    assert_eq!(find_text(&c("ab#{c"), "#{"), Some(2));
    assert_eq!(find_text(&c("abc"), "#{"), None);
    assert_eq!(replace_text(&c("a\\!b\\!"), "\\!", "!"), c("a!b!"));
    assert_eq!(replace_text(&c("aaa"), "aa", "b"), c("ba"));
}

#[test]
fn texts_are_split() {
    assert_eq!(split_once(&c("a:b:c"), ':').unwrap(), (c("a"), c("b:c")));
    assert_eq!(rsplit_once(&c("a:b:c"), ':').unwrap(), (c("a:b"), c("c")));
    assert!(split_once(&c("abc"), ':').is_none());
    assert!(rsplit_once(&c(""), ':').is_none());
    for s in ["  a b\t\nc  ", "", " ", "\u{a0}x\u{3000}y\u{85}", "one"] {
        let want: Vec<Vec<char>> = s.split_whitespace().map(c).collect();
        assert_eq!(split_words(&c(s)), want);
    }
    assert_eq!(join(&vec![c("a"), c("b")], ", "), c("a, b"));
    assert_eq!(join(&vec![], ", "), c(""));
}

#[test]
fn numbers_are_read_and_written() {
    for s in ["0", "007", "+5", "18446744073709551615", "18446744073709551616", "", "+", "-1", "1x"] {
        assert_eq!(parse_decimal(&c(s), u64::MAX), s.parse::<u64>().ok());
        assert_eq!(parse_decimal(&c(s), 65535), s.parse::<u16>().ok().map(u64::from));
    }
    for n in [0, 7, 10, 65535, 1_000_000, u64::MAX] {
        let mut out = c("n=");
        push_decimal(&mut out, n);
        assert_eq!(string_of(&out), format!("n={n}"));
        assert_eq!(parse_decimal(&out[2..], u64::MAX), Some(n));
    }
}
