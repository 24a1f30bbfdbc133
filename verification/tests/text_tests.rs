use meshnet::order::{lex_le_exec, sort_lex};
use meshnet::text::{decimal_chars, parse_u16_chars, trim_chars};

fn chars(s: &str) -> Vec<char> {
    s.chars().collect()
}

#[test]
fn decimal_digits() {
    assert_eq!(decimal_chars(0), chars("0"));
    assert_eq!(decimal_chars(7878), chars("7878"));
    assert_eq!(decimal_chars(u64::MAX), chars("18446744073709551615"));
}

#[test]
fn parse_u16_matches_std() {
    for s in ["0", "65535", "65536", "+1", "+", "-1", "", " 1", "1 ", "00012", "99999999999999999999", "12a"] {
        assert_eq!(parse_u16_chars(&chars(s)), s.parse::<u16>().ok(), "input {:?}", s);
    }
}

#[test]
fn trim_matches_std() {
    for s in ["  a b  ", "\t\n x \u{85}", "\u{200b}y", "", "   ", "\u{1680}z\u{205f}"] {
        assert_eq!(trim_chars(&chars(s)), chars(s.trim()), "input {:?}", s);
    }
}

#[test]
fn lexicographic_order_matches_std() {
    let words = ["b", "a", "ab", "", "é", "z", "B"];
    for x in words {
        for y in words {
            assert_eq!(lex_le_exec(&chars(x), &chars(y)), x <= y);
        }
    }
    let mut expected: Vec<&str> = words.to_vec();
    expected.sort();
    let sorted = sort_lex(words.iter().map(|w| chars(w)).collect());
    let got: Vec<String> = sorted.iter().map(|v| v.iter().collect()).collect();
    assert_eq!(got, expected);
}
