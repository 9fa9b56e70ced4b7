use lib::text::{decimal_chars, is_whitespace, str_chars, trim_chars, utf8_len_chars, words_of};

#[test]
fn whitespace_matches_std_for_every_char() {
    for u in 0u32..=0x10FFFF {
        if let Some(c) = char::from_u32(u) {
            assert_eq!(is_whitespace(c), c.is_whitespace(), "U+{:04X}", u);
        }
    }
}

#[test]
fn byte_lengths_match_std() {
    for s in ["", "abc", "é", "\u{f0142}", "日本語", "a\u{10FFFF}b"] {
        assert_eq!(utf8_len_chars(&str_chars(s)), s.len() as u128, "{:?}", s);
    }
}

#[test]
fn trimming_and_words_match_std() {
    for s in ["  a b  ", "\u{3000}x\u{a0}", "", "   ", "a\tb\nc", "\u{85}q\u{2028}"] {
        let t: String = trim_chars(&str_chars(s)).iter().collect();
        assert_eq!(t, s.trim());
        let ws: Vec<String> = words_of(&str_chars(s)).iter().map(|w| w.iter().collect()).collect();
        let expected: Vec<&str> = s.split_whitespace().collect();
        assert_eq!(ws, expected);
    }
}

#[test]
fn decimals_match_std() {
    for n in [0usize, 5, 10, 123, 9999, usize::MAX] {
        let d: String = decimal_chars(n).iter().collect();
        assert_eq!(d, n.to_string());
    }
}
