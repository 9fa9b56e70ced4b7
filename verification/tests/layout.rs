use lib::{grid_lines, help_lines, wrap_words};

fn chars(v: &[Vec<char>]) -> Vec<String> {
    v.iter().map(|l| l.iter().collect()).collect()
}

#[test]
fn wraps_descriptions() {
    assert_eq!(
        chars(&wrap_words("Launch interactive fzf menu with live preview", 25)),
        vec!["Launch interactive fzf", "menu with live preview"]
    );
    assert_eq!(chars(&wrap_words("", 25)), vec![""]);
    assert_eq!(chars(&wrap_words("abcdef", 3)), vec!["abcdef"]);
}

#[test]
fn wrapping_counts_separators_its_own_way() {
    // "a" counts 1; "bb" joins (1 + 2 + 1 <= 5) but the count only becomes 3,
    // so "c" still fits (3 + 1 + 1 <= 5) and the line is 6 bytes long.
    assert_eq!(chars(&wrap_words("a bb c d", 5)), vec!["a bb c", "d"]);
}

#[test]
fn wrapping_keeps_every_word() {
    let desc = "Pick & permanently save a random theme with a fairly long description";
    for w in [0usize, 1, 5, 10, 25, 80] {
        let lines = chars(&wrap_words(desc, w));
        let rejoined: Vec<&str> = lines.iter().flat_map(|l| l.split_whitespace()).collect();
        let expected: Vec<&str> = desc.split_whitespace().collect();
        assert_eq!(rejoined, expected, "width {}", w);
    }
}

#[test]
fn help_page_for_a_wide_terminal() {
    let lines = help_lines(80);
    assert_eq!(lines.len(), 7 + 8 + 5);
    assert_eq!(lines[0], "\x1b[4;33m \u{f03d8} termux-theme v0.1.2 \x1b[24m  Dynamic Termux Color Switcher");
    assert_eq!(
        lines[7],
        format!("  \x1b[1;32m(no arguments)\x1b[0m{}  Launch interactive fzf menu with live preview", " ".repeat(8))
    );
    assert_eq!(
        lines[14],
        format!("  \x1b[1;32m-v, --version\x1b[0m{}  Display version information", " ".repeat(9))
    );
    assert_eq!(lines[15], "");
    assert_eq!(lines[16], "\x1b[1;36mEXAMPLES\x1b[0m");
}

#[test]
fn help_page_for_a_narrow_terminal() {
    let lines = help_lines(20);
    // The description column falls back to 25 bytes.
    assert_eq!(
        lines[7],
        format!("  \x1b[1;32m(no arguments)\x1b[0m{}  Launch interactive fzf", " ".repeat(8))
    );
    assert_eq!(lines[8], format!("  {}  menu with live preview", " ".repeat(22)));
}

#[test]
fn listing_in_two_columns() {
    let themes = vec!["ab".to_string(), "cde".to_string(), "f".to_string()];
    let active = "cde".to_string();
    let lines = grid_lines(&themes, Some(&active), 40);
    assert_eq!(lines.len(), 3);
    assert_eq!(lines[0], "\x1b[1;33m\u{f03d8}\x1b[0m \x1b[1mAvailable themes in ~/.termux/themes/:\x1b[0m");
    let first = " \x1b[38;5;75m\u{f0142}\x1b[0m  1. ab";
    let second = " \x1b[38;5;75m\u{f0142}\x1b[0m \x1b[1;32m 2. cde\x1b[0m \x1b[32m\u{f005}\x1b[0m";
    // column width 20; "ab" counts 6 + 6 = 12 columns, so 8 spaces of padding.
    assert_eq!(lines[1], format!("{}{}{}", first, " ".repeat(8), second));
    assert_eq!(lines[2], " \x1b[38;5;75m\u{f0142}\x1b[0m  3. f");
}

#[test]
fn listing_in_one_column() {
    let themes = vec!["solarized".to_string(), "x".to_string()];
    let lines = grid_lines(&themes, None, 30);
    assert_eq!(
        lines,
        vec![
            "\x1b[1;33m\u{f03d8}\x1b[0m \x1b[1mAvailable themes in ~/.termux/themes/:\x1b[0m".to_string(),
            " \x1b[38;5;75m\u{f0142}\x1b[0m  1. solarized".to_string(),
            " \x1b[38;5;75m\u{f0142}\x1b[0m  2. x".to_string(),
        ]
    );
}

#[test]
fn empty_listing_has_only_the_heading() {
    assert_eq!(grid_lines(&Vec::new(), None, 80).len(), 1);
}

#[test]
fn listing_numbers_select_the_theme() {
    let themes: Vec<String> = (0..12).map(|i| format!("t{}", i)).collect();
    let lines = grid_lines(&themes, None, 10);
    for (k, line) in lines[1..].iter().enumerate() {
        let shown = line.rsplit(". ").nth(1).unwrap().split(' ').last().unwrap();
        assert_eq!(shown.trim().parse::<usize>().unwrap(), k + 1);
        assert_eq!(lib::resolve_theme(shown.trim(), &themes), Some(themes[k].clone()));
    }
}
