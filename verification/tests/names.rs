use lib::{clean_theme_name, menu_input, resolve_theme};

fn std_clean(raw: &str) -> String {
    let mut s = raw.trim();
    if let Some(pos) = s.find(". ") {
        s = &s[pos + 2..];
    }
    if let Some(pos) = s.find(' ') {
        s = &s[..pos];
    }
    s.trim_end_matches(".properties").to_string()
}

fn names(v: &[&str]) -> Vec<String> {
    v.iter().map(|s| s.to_string()).collect()
}

#[test]
fn cleans_menu_lines_and_file_names() {
    assert_eq!(clean_theme_name("  3. ubuntu \x1b[32m\u{f005}\x1b[0m"), "ubuntu");
    assert_eq!(clean_theme_name("12. dracula"), "dracula");
    assert_eq!(clean_theme_name("dracula.properties"), "dracula");
    assert_eq!(clean_theme_name("a.properties.properties"), "a");
    assert_eq!(clean_theme_name("foo bar"), "foo");
    assert_eq!(clean_theme_name(""), "");
    assert_eq!(clean_theme_name("1. 2. x"), "2.");
}

#[test]
fn cleaning_agrees_with_std() {
    let samples = [
        "  \t5. nord.properties  ",
        "x. y. z",
        "a\u{2003}b c",
        ".properties",
        "\u{a0}\u{a0}",
        "one.two",
        "7.",
        "name\t",
    ];
    for s in samples {
        assert_eq!(clean_theme_name(s), std_clean(s), "raw {:?}", s);
    }
}

#[test]
fn menu_text_numbers_and_marks_themes() {
    let themes = names(&["dracula", "nord", "ubuntu"]);
    let active = "nord".to_string();
    assert_eq!(
        menu_input(&themes, Some(&active)),
        "1. dracula\n2. nord \x1b[32m\u{f005}\x1b[0m\n3. ubuntu\n"
    );
    assert_eq!(menu_input(&themes, None), "1. dracula\n2. nord\n3. ubuntu\n");
    assert_eq!(menu_input(&Vec::new(), None), "");
}

#[test]
fn every_menu_line_names_its_theme() {
    let themes = names(&["dracula", "nord", "solarized-dark", "x.y"]);
    let active = "nord".to_string();
    let text = menu_input(&themes, Some(&active));
    for (line, theme) in text.lines().zip(themes.iter()) {
        assert_eq!(&clean_theme_name(line), theme);
    }
}

#[test]
fn resolves_by_name_and_number() {
    let themes = names(&["dracula", "nord", "ubuntu"]);
    assert_eq!(resolve_theme("nord", &themes), Some("nord".to_string()));
    assert_eq!(resolve_theme("3", &themes), Some("ubuntu".to_string()));
    assert_eq!(resolve_theme("+1", &themes), Some("dracula".to_string()));
    assert_eq!(resolve_theme("2. nord", &themes), Some("nord".to_string()));
    assert_eq!(resolve_theme("ubuntu.properties", &themes), Some("ubuntu".to_string()));
    assert_eq!(resolve_theme("4", &themes), None);
    assert_eq!(resolve_theme("0", &themes), None);
    assert_eq!(resolve_theme("gruvbox", &themes), None);
}

#[test]
fn a_number_wins_over_a_theme_of_that_name() {
    let themes = names(&["2", "a", "b"]);
    assert_eq!(resolve_theme("2", &themes), Some("a".to_string()));
    assert_eq!(resolve_theme("5", &themes), None);
}
