use network_route_visualizer::text::{
    chars_of, contains, float_text, parse_unsigned, split, starts_with, string_of, tokens, trim,
};

fn every_text(alphabet: &[char], max_len: usize, check: &mut dyn FnMut(&str)) {
    let mut indices: Vec<usize> = Vec::new();
    loop {
        let text: String = indices.iter().map(|&i| alphabet[i]).collect();
        check(&text);
        let mut place = indices.len();
        loop {
            if place == 0 {
                if indices.len() == max_len {
                    return;
                }
                indices = vec![0; indices.len() + 1];
                break;
            }
            place -= 1;
            if indices[place] + 1 < alphabet.len() {
                indices[place] += 1;
                break;
            }
            indices[place] = 0;
        }
    }
}

fn strings(pieces: Vec<Vec<char>>) -> Vec<String> {
    pieces.iter().map(string_of).collect()
}

#[test]
fn every_short_text_is_a_float_exactly_when_it_parses_as_one() {
    let alphabet = ['0', '7', '.', 'e', 'E', '+', '-', 'i', 'n', 'f', 'a', 'N', 't', 'y'];
    let mut count = 0u32;
    every_text(&alphabet, 5, &mut |text| {
        assert_eq!(float_text(&chars_of(text)), text.parse::<f64>().is_ok(), "{:?}", text);
        count += 1;
    });
    assert!(count > 500_000);
    for text in ["infinity", "INFINITY", "+Infinity", "-infinitY", "infinitx", "1.25e-10", "00.00E+00", "1234567.", ".1234567"] {
        assert_eq!(float_text(&chars_of(text)), text.parse::<f64>().is_ok(), "{:?}", text);
    }
}

#[test]
fn every_short_text_is_a_number_exactly_when_it_parses_as_one() {
    let alphabet = ['0', '1', '2', '5', '6', '9', '+', '-', ' ', 'a'];
    every_text(&alphabet, 5, &mut |text| {
        let chars = chars_of(text);
        assert_eq!(parse_unsigned(&chars, 255), text.parse::<u8>().ok().map(u64::from), "{:?}", text);
        assert_eq!(
            parse_unsigned(&chars, 65535),
            text.parse::<u16>().ok().map(u64::from),
            "{:?}",
            text
        );
    });
    for text in ["4294967295", "4294967296", "+4294967295", "04294967295", "65535", "65536", "000000000000000000000065535"] {
        let chars = chars_of(text);
        assert_eq!(parse_unsigned(&chars, 0xFFFF_FFFF), text.parse::<u32>().ok().map(u64::from));
        assert_eq!(parse_unsigned(&chars, 0xFFFF), text.parse::<u16>().ok().map(u64::from));
        assert_eq!(parse_unsigned(&chars, u64::MAX), text.parse::<u64>().ok());
    }
}

#[test]
fn scanning_agrees_with_the_standard_library() {
    let alphabet = ['a', 'b', ' ', '\t', '\n', '\r', ',', '\u{a0}', '\u{2003}'];
    every_text(&alphabet, 6, &mut |text| {
        let chars = chars_of(text);
        assert_eq!(string_of(&chars), text);
        assert_eq!(string_of(&trim(&chars)), text.trim(), "{:?}", text);
        let words: Vec<String> = text.split_whitespace().map(String::from).collect();
        assert_eq!(strings(tokens(&chars)), words, "{:?}", text);
        let pieces: Vec<String> = text.split(',').map(String::from).collect();
        assert_eq!(strings(split(&chars, ',')), pieces, "{:?}", text);
        let by_line: Vec<String> = text.split('\n').map(String::from).collect();
        assert_eq!(strings(split(&chars, '\n')), by_line, "{:?}", text);
    });
}

#[test]
fn lines_hold_the_same_words_as_the_standard_library_finds() {
    let alphabet = ['a', ' ', '\n', '\r'];
    every_text(&alphabet, 8, &mut |text| {
        let by_std: Vec<Vec<String>> = text
            .lines()
            .map(|line| line.split_whitespace().map(String::from).collect::<Vec<String>>())
            .filter(|words| !words.is_empty())
            .collect();
        let by_split: Vec<Vec<String>> = split(&chars_of(text), '\n')
            .iter()
            .map(|line| strings(tokens(line)))
            .filter(|words| !words.is_empty())
            .collect();
        assert_eq!(by_split, by_std, "{:?}", text);
    });
}

#[test]
fn searching_agrees_with_the_standard_library() {
    let alphabet = ['a', 'b', 'c'];
    every_text(&alphabet, 6, &mut |text| {
        let chars = chars_of(text);
        for pattern in ["", "a", "ab", "abc", "ba", "aa", "cab", "abab"] {
            let wanted = chars_of(pattern);
            assert_eq!(contains(&chars, &wanted), text.contains(pattern), "{:?} in {:?}", pattern, text);
            assert_eq!(
                starts_with(&chars, &wanted),
                text.starts_with(pattern),
                "{:?} at {:?}",
                pattern,
                text
            );
        }
    });
}
