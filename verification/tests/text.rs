use network_route_visualizer::text::{
    chars_of, find_char, parse_digits_from, parse_unsigned, same_text, slice_of, split,
    starts_with, string_of, tokens, trim, whitespace,
};

fn chars(text: &str) -> Vec<char> {
    text.chars().collect()
}

fn strings(pieces: Vec<Vec<char>>) -> Vec<String> {
    pieces.into_iter().map(|piece| piece.into_iter().collect()).collect()
}

#[test]
fn strings_and_characters_convert_both_ways() {
    assert_eq!(chars_of("héllo"), vec!['h', 'é', 'l', 'l', 'o']);
    assert!(chars_of("").is_empty());
    assert_eq!(string_of(&chars("wörld")), "wörld");
    assert_eq!(string_of(&Vec::new()), "");
    assert_eq!(slice_of(&chars("abcdef"), 2, 4), chars("cd"));
    assert!(slice_of(&chars("abcdef"), 3, 3).is_empty());
    assert!(same_text(&chars("abc"), &chars("abc")));
    assert!(!same_text(&chars("abc"), &chars("abd")));
    assert!(!same_text(&chars("abc"), &chars("ab")));
}

#[test]
fn white_space_is_what_unicode_says() {
    for c in [' ', '\t', '\n', '\r', '\u{b}', '\u{c}', '\u{85}', '\u{a0}', '\u{1680}', '\u{2000}', '\u{200a}', '\u{2028}', '\u{2029}', '\u{202f}', '\u{205f}', '\u{3000}'] {
        assert!(whitespace(c), "{:?}", c);
        assert!(c.is_whitespace());
    }
    for c in ['a', '0', '\u{0}', '\u{8}', '\u{e}', '\u{200b}', '\u{feff}', '_'] {
        assert!(!whitespace(c), "{:?}", c);
        assert!(!c.is_whitespace());
    }
}

#[test]
fn white_space_agrees_with_std_on_every_character() {
    let mut code = 0u32;
    while code <= 0x10FFFF {
        if let Some(c) = char::from_u32(code) {
            assert_eq!(whitespace(c), c.is_whitespace(), "U+{:04X}", code);
        }
        code += 1;
    }
}

#[test]
fn trim_drops_white_space_at_both_ends() {
    assert_eq!(trim(&chars("  a b \t\n")), chars("a b"));
    assert_eq!(trim(&chars("a")), chars("a"));
    assert_eq!(trim(&chars("   ")), chars(""));
    assert_eq!(trim(&chars("")), chars(""));
    assert_eq!(trim(&chars("\u{a0}x\u{3000}")), chars("x"));
}

#[test]
fn split_keeps_empty_pieces() {
    assert_eq!(strings(split(&chars("a,b,c"), ',')), vec!["a", "b", "c"]);
    assert_eq!(strings(split(&chars(""), ',')), vec![""]);
    assert_eq!(strings(split(&chars(","), ',')), vec!["", ""]);
    assert_eq!(strings(split(&chars("a,,b,"), ',')), vec!["a", "", "b", ""]);
    assert_eq!(strings(split(&chars("abc"), ',')), vec!["abc"]);
    assert_eq!(strings(split(&chars("l1\nl2\n"), '\n')), vec!["l1", "l2", ""]);
}

#[test]
fn tokens_are_runs_without_white_space() {
    assert_eq!(strings(tokens(&chars("  a  bb\tccc\n"))), vec!["a", "bb", "ccc"]);
    assert_eq!(strings(tokens(&chars("one"))), vec!["one"]);
    assert!(tokens(&chars("")).is_empty());
    assert!(tokens(&chars(" \t\r\n")).is_empty());
}

#[test]
fn searching_finds_first_and_last() {
    assert_eq!(find_char(&chars("a:b:c"), ':'), 1);
    assert_eq!(find_char(&chars("abc"), ':'), 3);
    assert_eq!(find_char(&chars(""), ':'), 0);
    assert!(starts_with(&chars("peer: x"), &chars("peer:")));
    assert!(starts_with(&chars("peer:"), &chars("")));
    assert!(!starts_with(&chars("pee"), &chars("peer:")));
    assert!(!starts_with(&chars("Peer: x"), &chars("peer:")));
}

#[test]
fn unsigned_numbers_may_have_a_plus_sign() {
    assert_eq!(parse_unsigned(&chars("0"), 255), Some(0));
    assert_eq!(parse_unsigned(&chars("255"), 255), Some(255));
    assert_eq!(parse_unsigned(&chars("256"), 255), None);
    assert_eq!(parse_unsigned(&chars("+7"), 255), Some(7));
    assert_eq!(parse_unsigned(&chars("007"), 255), Some(7));
    assert_eq!(parse_unsigned(&chars("+"), 255), None);
    assert_eq!(parse_unsigned(&chars(""), 255), None);
    assert_eq!(parse_unsigned(&chars("-1"), 255), None);
    assert_eq!(parse_unsigned(&chars("++1"), 255), None);
    assert_eq!(parse_unsigned(&chars("1 "), 255), None);
    assert_eq!(parse_unsigned(&chars("١"), 255), None);
    assert_eq!(
        parse_unsigned(&chars("18446744073709551615"), u64::MAX),
        Some(18446744073709551615)
    );
    assert_eq!(parse_unsigned(&chars("18446744073709551616"), u64::MAX), None);
    assert_eq!(parse_unsigned(&chars("99999999999999999999999999"), u64::MAX), None);
}

#[test]
fn digit_runs_have_no_sign() {
    assert_eq!(parse_digits_from(&chars("x12"), 1, 100), Some(12));
    assert_eq!(parse_digits_from(&chars("x12"), 3, 100), None);
    assert_eq!(parse_digits_from(&chars("+12"), 0, 100), None);
    assert_eq!(parse_digits_from(&chars("101"), 0, 100), None);
    assert_eq!(parse_digits_from(&chars("100"), 0, 100), Some(100));
}
