//! The command line: which command the arguments ask for, and the terminal
//! width found from the environment and from `stty` or `tput` output.
use vstd::prelude::*;
use crate::names::string_views;
use crate::text::{
    eq_lit, parse_usize_chars, parse_usize_spec, str_chars, trim, trim_chars, views, words, words_of,
};

verus! {

/// What the command line asks for.
pub enum Command {
    /// `preview NAME`: apply the colors of a theme without saving them.
    Preview(String),
    /// `-h`, `--help` or `help`: show the help page.
    Help,
    /// `-v` or `--version`: show the version.
    Version,
    /// `current`: name the active theme.
    Current,
    /// `save-as NAME`: store the current colors as a new theme.
    SaveAs(String),
    /// `save-as` without a name.
    SaveAsMissing,
    /// `random`: apply and save a random theme.
    Random,
    /// `list`: list the themes.
    List,
    /// Any other argument: preview a theme named by name or number, then save or restore it.
    Select(String),
    /// No argument: choose a theme in the interactive menu.
    Interactive,
}

/// Whether `c` is the command that the arguments `args` (program name first) ask for.
pub open spec fn command_of(c: Command, args: Seq<Seq<char>>) -> bool {
    if args.len() >= 3 && args[1] == "preview"@ {
        c matches Command::Preview(t) && t@ == args[2]
    } else if args.len() >= 2 {
        let sub = args[1];
        if sub == "-h"@ || sub == "--help"@ || sub == "help"@ {
            c is Help
        } else if sub == "-v"@ || sub == "--version"@ {
            c is Version
        } else if sub == "current"@ {
            c is Current
        } else if sub == "save-as"@ {
            if args.len() >= 3 {
                c matches Command::SaveAs(t) && t@ == args[2]
            } else {
                c is SaveAsMissing
            }
        } else if sub == "random"@ {
            c is Random
        } else if sub == "list"@ {
            c is List
        } else {
            c matches Command::Select(t) && t@ == sub
        }
    } else {
        c is Interactive
    }
}

/// Whether `s` spells `lit`.
fn is_word(s: &String, lit: &str) -> (b: bool)
    ensures
        b == (s@ == lit@),
{
    let v = str_chars(s.as_str());
    eq_lit(&v, lit)
}

/// Whether `s` is one of the words that name a command.
pub open spec fn is_command_word(s: Seq<char>) -> bool {
    ||| s == "-h"@
    ||| s == "--help"@
    ||| s == "help"@
    ||| s == "-v"@
    ||| s == "--version"@
    ||| s == "current"@
    ||| s == "list"@
    ||| s == "random"@
    ||| s == "save-as"@
}

/// Each command word selects its command: `-h`, `--help` and `help` the
/// help page, `-v` and `--version` the version, `current`, `list`,
/// `random` and `save-as` their commands (`save-as` with the name that
/// follows it, if any), `preview` with a name previews it, and no argument
/// opens the interactive menu. Any other first argument selects a theme
/// by that name or number.
pub proof fn law_command_words(c: Command, args: Seq<Seq<char>>)
    requires
        command_of(c, args),
    ensures
        args.len() >= 2 && (args[1] == "-h"@ || args[1] == "--help"@ || args[1] == "help"@)
            ==> c is Help,
        args.len() >= 2 && (args[1] == "-v"@ || args[1] == "--version"@) ==> c is Version,
        args.len() >= 2 && args[1] == "current"@ ==> c is Current,
        args.len() >= 2 && args[1] == "list"@ ==> c is List,
        args.len() >= 2 && args[1] == "random"@ ==> c is Random,
        args.len() == 2 && args[1] == "save-as"@ ==> c is SaveAsMissing,
        args.len() >= 3 && args[1] == "save-as"@ ==> (c matches Command::SaveAs(t) && t@
            == args[2]),
        args.len() >= 3 && args[1] == "preview"@ ==> (c matches Command::Preview(t) && t@
            == args[2]),
        args.len() < 2 ==> c is Interactive,
        args.len() >= 2 && !is_command_word(args[1]) && !(args.len() >= 3 && args[1]
            == "preview"@) ==> (c matches Command::Select(t) && t@ == args[1]),
{
    reveal_strlit("preview");
    reveal_strlit("-h");
    reveal_strlit("--help");
    reveal_strlit("help");
    reveal_strlit("-v");
    reveal_strlit("--version");
    reveal_strlit("current");
    reveal_strlit("list");
    reveal_strlit("random");
    reveal_strlit("save-as");
    assert("preview"@.len() == 7 && "preview"@[0] == 'p' && "preview"@[1] == 'r');
    assert("-h"@.len() == 2 && "-h"@[0] == '-' && "-h"@[1] == 'h');
    assert("--help"@.len() == 6 && "--help"@[0] == '-' && "--help"@[1] == '-');
    assert("help"@.len() == 4 && "help"@[0] == 'h' && "help"@[1] == 'e');
    assert("-v"@.len() == 2 && "-v"@[0] == '-' && "-v"@[1] == 'v');
    assert("--version"@.len() == 9 && "--version"@[0] == '-' && "--version"@[1] == '-');
    assert("current"@.len() == 7 && "current"@[0] == 'c' && "current"@[1] == 'u');
    assert("list"@.len() == 4 && "list"@[0] == 'l' && "list"@[1] == 'i');
    assert("random"@.len() == 6 && "random"@[0] == 'r' && "random"@[1] == 'a');
    assert("save-as"@.len() == 7 && "save-as"@[0] == 's' && "save-as"@[1] == 'a');
}

/// The command that the arguments ask for (the program name comes first).
pub fn parse_command(args: &Vec<String>) -> (c: Command)
    ensures
        command_of(c, string_views(args@)),
        args.len() >= 2 && (args@[1]@ == "-h"@ || args@[1]@ == "--help"@ || args@[1]@ == "help"@)
            ==> c is Help,
        args.len() >= 2 && (args@[1]@ == "-v"@ || args@[1]@ == "--version"@) ==> c is Version,
        args.len() >= 2 && args@[1]@ == "current"@ ==> c is Current,
        args.len() >= 2 && args@[1]@ == "list"@ ==> c is List,
        args.len() >= 2 && args@[1]@ == "random"@ ==> c is Random,
        args.len() == 2 && args@[1]@ == "save-as"@ ==> c is SaveAsMissing,
        args.len() >= 3 && args@[1]@ == "save-as"@ ==> (c matches Command::SaveAs(t) && t@
            == args@[2]@),
        args.len() >= 3 && args@[1]@ == "preview"@ ==> (c matches Command::Preview(t) && t@
            == args@[2]@),
        args.len() < 2 ==> c is Interactive,
        args.len() >= 2 && !is_command_word(args@[1]@) && !(args.len() >= 3 && args@[1]@
            == "preview"@) ==> (c matches Command::Select(t) && t@ == args@[1]@),
{
    let ghost a = string_views(args@);
    let c = if args.len() >= 3 && is_word(&args[1], "preview") {
        assert(a[1] == args@[1]@ && a[2] == args@[2]@);
        Command::Preview(args[2].clone())
    } else if args.len() < 2 {
        Command::Interactive
    } else {
        let sub = &args[1];
        assert(a[1] == sub@);
        if is_word(sub, "-h") || is_word(sub, "--help") || is_word(sub, "help") {
            Command::Help
        } else if is_word(sub, "-v") || is_word(sub, "--version") {
            Command::Version
        } else if is_word(sub, "current") {
            Command::Current
        } else if is_word(sub, "save-as") {
            if args.len() >= 3 {
                assert(a[2] == args@[2]@);
                Command::SaveAs(args[2].clone())
            } else {
                Command::SaveAsMissing
            }
        } else if is_word(sub, "random") {
            Command::Random
        } else if is_word(sub, "list") {
            Command::List
        } else {
            Command::Select(sub.clone())
        }
    };
    proof {
        law_command_words(c, a);
        if args.len() >= 2 {
            assert(a[1] == args@[1]@);
        }
        if args.len() >= 3 {
            assert(a[2] == args@[2]@);
        }
    }
    c
}

/// The column count in the output of `stty size` (`rows cols`), if it has
/// exactly two words and the second is a number.
pub open spec fn stty_columns(out: Seq<char>) -> Option<usize> {
    let ws = words(trim(out));
    if ws.len() == 2 {
        parse_usize_spec(ws[1])
    } else {
        None
    }
}

/// The column count in the output of `stty size`.
pub fn parse_stty_columns(out: &str) -> (r: Option<usize>)
    ensures
        r == stty_columns(out@),
{
    let v = str_chars(out);
    let t = trim_chars(&v);
    let ws = words_of(&t);
    if ws.len() == 2 {
        assert(views(ws@)[1] == ws@[1]@);
        parse_usize_chars(&ws[1])
    } else {
        None
    }
}

/// The column count in the output of `tput cols`, if it is a number once trimmed.
pub fn parse_tput_columns(out: &str) -> (r: Option<usize>)
    ensures
        r == parse_usize_spec(trim(out@)),
{
    let v = str_chars(out);
    let t = trim_chars(&v);
    parse_usize_chars(&t)
}

/// The terminal width: the first of `COLUMNS`, `stty size` and `tput cols`
/// that gave a number, else 80.
pub fn get_terminal_width(
    columns: Option<usize>,
    stty: Option<usize>,
    tput: Option<usize>,
) -> (w: usize)
    ensures
        w == match (columns, stty, tput) {
            (Some(c), _, _) => c,
            (None, Some(s), _) => s,
            (None, None, Some(t)) => t,
            (None, None, None) => 80,
        },
{
    match columns {
        Some(c) => c,
        None => match stty {
            Some(s) => s,
            None => match tput {
                Some(t) => t,
                None => 80,
            },
        },
    }
}

} // verus!
