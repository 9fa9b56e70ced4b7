use lib::{get_terminal_width, parse_command, parse_stty_columns, parse_tput_columns, parse_usize, Command};

fn args(v: &[&str]) -> Vec<String> {
    v.iter().map(|s| s.to_string()).collect()
}

#[test]
fn parses_commands() {
    assert!(matches!(parse_command(&args(&["tt"])), Command::Interactive));
    assert!(matches!(parse_command(&args(&["tt", "--help"])), Command::Help));
    assert!(matches!(parse_command(&args(&["tt", "help"])), Command::Help));
    assert!(matches!(parse_command(&args(&["tt", "-v"])), Command::Version));
    assert!(matches!(parse_command(&args(&["tt", "current"])), Command::Current));
    assert!(matches!(parse_command(&args(&["tt", "list"])), Command::List));
    assert!(matches!(parse_command(&args(&["tt", "random"])), Command::Random));
    assert!(matches!(parse_command(&args(&["tt", "save-as"])), Command::SaveAsMissing));
    match parse_command(&args(&["tt", "save-as", "mine"])) {
        Command::SaveAs(n) => assert_eq!(n, "mine"),
        _ => panic!("expected save-as"),
    }
    match parse_command(&args(&["tt", "preview", "3. nord"])) {
        Command::Preview(n) => assert_eq!(n, "3. nord"),
        _ => panic!("expected preview"),
    }
    match parse_command(&args(&["tt", "preview"])) {
        Command::Select(n) => assert_eq!(n, "preview"),
        _ => panic!("expected a theme selection"),
    }
    match parse_command(&args(&["tt", "5", "extra"])) {
        Command::Select(n) => assert_eq!(n, "5"),
        _ => panic!("expected a theme selection"),
    }
}

#[test]
fn parses_numbers_like_std() {
    let samples = ["0", "42", "+7", "-1", "", "+", "007", " 5", "5 ", "18446744073709551615", "18446744073709551616", "99999999999999999999", "1_000", "٣"];
    for s in samples {
        assert_eq!(parse_usize(s), s.parse::<usize>().ok(), "input {:?}", s);
    }
}

#[test]
fn reads_terminal_sizes() {
    assert_eq!(parse_stty_columns("24 80\n"), Some(80));
    assert_eq!(parse_stty_columns("  24   132  "), Some(132));
    assert_eq!(parse_stty_columns("80\n"), None);
    assert_eq!(parse_stty_columns("1 2 3"), None);
    assert_eq!(parse_stty_columns("24 x"), None);
    assert_eq!(parse_tput_columns(" 100\n"), Some(100));
    assert_eq!(parse_tput_columns("abc"), None);
}

#[test]
fn chooses_the_first_known_width() {
    assert_eq!(get_terminal_width(Some(50), Some(60), Some(70)), 50);
    assert_eq!(get_terminal_width(None, Some(60), Some(70)), 60);
    assert_eq!(get_terminal_width(None, None, Some(70)), 70);
    assert_eq!(get_terminal_width(None, None, None), 80);
}

#[test]
fn reading_a_written_number_gives_it_back() {
    for n in [0usize, 1, 9, 10, 99, 100, 12345, usize::MAX] {
        assert_eq!(parse_usize(&n.to_string()), Some(n));
    }
}
