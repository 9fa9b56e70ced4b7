use lib::compile_osc_from_content;

fn std_osc(content: &str) -> String {
    let mut osc = String::new();
    for line in content.lines() {
        let line = line.trim();
        if line.is_empty() || line.starts_with('#') || line.starts_with('!') {
            continue;
        }
        let parts: Vec<&str> = line.splitn(2, ['=', ':']).collect();
        if parts.len() != 2 {
            continue;
        }
        let (key, val) = (parts[0].trim(), parts[1].trim());
        match key {
            "background" => osc.push_str(&format!("\x1b]11;{}\x1b\\", val)),
            "foreground" => osc.push_str(&format!("\x1b]10;{}\x1b\\", val)),
            "cursor" => osc.push_str(&format!("\x1b]12;{}\x1b\\", val)),
            _ => {
                if let Some(n) = key.strip_prefix("color") {
                    if n.chars().all(|c| c.is_ascii_digit()) {
                        osc.push_str(&format!("\x1b]4;{};{}\x1b\\", n, val));
                    }
                }
            }
        }
    }
    osc
}

#[test]
fn compiles_a_theme_file() {
    let content = "# Dracula\nbackground=#282a36\nforeground = #f8f8f2\ncursor: #f8f8f2\ncolor0=#000000\ncolor15 = #ffffff\n";
    let expected = "\x1b]11;#282a36\x1b\\\x1b]10;#f8f8f2\x1b\\\x1b]12;#f8f8f2\x1b\\\x1b]4;0;#000000\x1b\\\x1b]4;15;#ffffff\x1b\\";
    assert_eq!(compile_osc_from_content(content), expected);
}

#[test]
fn skips_comments_blank_and_unknown_lines() {
    let content = "! comment\n   \n  # color1=#111111\nnot a pair\ncolorX=#123456\ncolor=#abcdef\nbold=yes\n";
    // `color` with no digits still names palette entry "" (an empty number).
    assert_eq!(compile_osc_from_content(content), "\x1b]4;;#abcdef\x1b\\");
}

#[test]
fn handles_crlf_and_missing_final_newline() {
    let content = "background=#000000\r\nforeground=#ffffff";
    assert_eq!(
        compile_osc_from_content(content),
        "\x1b]11;#000000\x1b\\\x1b]10;#ffffff\x1b\\"
    );
}

#[test]
fn splits_at_first_separator() {
    assert_eq!(
        compile_osc_from_content("background : rgb:00/00/00"),
        "\x1b]11;rgb:00/00/00\x1b\\"
    );
    assert_eq!(compile_osc_from_content("color7=a=b"), "\x1b]4;7;a=b\x1b\\");
}

#[test]
fn empty_content_gives_nothing() {
    assert_eq!(compile_osc_from_content(""), "");
    assert_eq!(compile_osc_from_content("\n\n"), "");
}

#[test]
fn agrees_with_std_line_handling() {
    let samples = [
        "background=#1\n\ncolor3 =x\r\n\tcursor=\u{a0}y\u{a0}\n",
        "foreground:z\rcolor2=w",
        "  color10 = q  \n!x=y\n#z=w\ncolor1 0=bad\n",
        "\u{2003}background\u{2003}=\u{3000}v\u{3000}",
    ];
    for s in samples {
        assert_eq!(compile_osc_from_content(s), std_osc(s), "content {:?}", s);
    }
}

#[test]
fn lines_compose() {
    let a = "background=#000000\ncolor1=#ff0000";
    let b = "foreground=#ffffff";
    let joined = format!("{}\n{}", a, b);
    assert_eq!(
        compile_osc_from_content(&joined),
        format!("{}{}", compile_osc_from_content(a), compile_osc_from_content(b))
    );
}
