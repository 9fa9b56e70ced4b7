//! Screen layout: the help page, whose option descriptions wrap to the
//! terminal width, and the theme listing, laid out in one or two columns.
use vstd::prelude::*;
use crate::names::{is_active, law_resolve_by_number, opt_ref_view, resolve_spec, string_views};
use crate::text::{
    chars_eq, decimal, decimal_chars, join_words, join_words_chars, lemma_decimal_digits, push_chars,
    push_str, str_chars, string_of, sub_chars, utf8_len, utf8_len_chars, views, words, words_of,
};

verus! {

/// The words of a sequence of word groups, in order.
pub open spec fn concat_groups(g: Seq<Seq<Seq<char>>>) -> Seq<Seq<char>>
    decreases g.len(),
{
    if g.len() == 0 {
        seq![]
    } else {
        concat_groups(g.drop_last()) + g.last()
    }
}

/// One step of filling description lines: the finished groups, the words of
/// the line being filled and its counted length, after the word `w`. The
/// word joins the current line when the counted length, plus one for a
/// separating space when the line is not empty, plus the word's byte length
/// stays within `w2`; the counted length then grows by the word's length,
/// plus one only when it already exceeded that length. Otherwise a
/// non-empty current line is finished and the word starts the next one.
pub open spec fn wrap_step(
    st: (Seq<Seq<Seq<char>>>, Seq<Seq<char>>, int),
    w: Seq<char>,
    w2: int,
) -> (Seq<Seq<Seq<char>>>, Seq<Seq<char>>, int) {
    let (groups, cur, cur_len) = st;
    let wl = utf8_len(w) as int;
    let sep = if cur_len > 0 {
        1int
    } else {
        0int
    };
    if cur_len + wl + sep <= w2 {
        (
            groups,
            cur.push(w),
            cur_len + wl + if cur_len > wl {
                1int
            } else {
                0int
            },
        )
    } else {
        (
            if cur.len() > 0 {
                groups.push(cur)
            } else {
                groups
            },
            seq![w],
            wl,
        )
    }
}

/// The state after filling lines with all of `ws`.
pub open spec fn wrap_fold(ws: Seq<Seq<char>>, w2: int) -> (
    Seq<Seq<Seq<char>>>,
    Seq<Seq<char>>,
    int,
)
    decreases ws.len(),
{
    if ws.len() == 0 {
        (seq![], seq![], 0)
    } else {
        wrap_step(wrap_fold(ws.drop_last(), w2), ws.last(), w2)
    }
}

/// The word groups of the lines that `ws` fill for width `w2`.
pub open spec fn wrap_groups(ws: Seq<Seq<char>>, w2: int) -> Seq<Seq<Seq<char>>> {
    let st = wrap_fold(ws, w2);
    if st.1.len() > 0 {
        st.0.push(st.1)
    } else {
        st.0
    }
}

/// The lines a description fills for width `w2`: each line's words joined
/// by spaces, or one empty line when the description has no words.
pub open spec fn wrap_lines(desc: Seq<char>, w2: int) -> Seq<Seq<char>> {
    let g = wrap_groups(words(desc), w2);
    if g.len() == 0 {
        seq![seq![]]
    } else {
        g.map_values(|x: Seq<Seq<char>>| join_words(x))
    }
}

proof fn lemma_wrap_fold_keeps_words(ws: Seq<Seq<char>>, w2: int)
    ensures
        concat_groups(wrap_fold(ws, w2).0) + wrap_fold(ws, w2).1 == ws,
    decreases ws.len(),
{
    if ws.len() > 0 {
        let prev = wrap_fold(ws.drop_last(), w2);
        lemma_wrap_fold_keeps_words(ws.drop_last(), w2);
        assert(ws == ws.drop_last().push(ws.last()));
        let st = wrap_fold(ws, w2);
        if st.0 == prev.0 {
            if st.1 == prev.1.push(ws.last()) {
                assert(concat_groups(st.0) + st.1 == (concat_groups(prev.0) + prev.1).push(ws.last()));
            } else {
                assert(prev.1.len() == 0);
                assert(concat_groups(st.0) + st.1 == (concat_groups(prev.0) + prev.1).push(ws.last()));
            }
        } else {
            assert(st.0 == prev.0.push(prev.1));
            assert(st.0.drop_last() == prev.0);
            assert(concat_groups(st.0) == concat_groups(prev.0) + prev.1);
            assert(concat_groups(st.0) + st.1 == (concat_groups(prev.0) + prev.1).push(ws.last()));
        }
    } else {
        assert(concat_groups(Seq::<Seq<Seq<char>>>::empty()) == Seq::<Seq<char>>::empty());
    }
}

/// Wrapping a description neither drops, adds nor reorders words: the
/// lines, taken in order, hold exactly the description's words.
pub proof fn law_wrap_keeps_words(ws: Seq<Seq<char>>, w2: int)
    ensures
        concat_groups(wrap_groups(ws, w2)) == ws,
{
    lemma_wrap_fold_keeps_words(ws, w2);
    let st = wrap_fold(ws, w2);
    if st.1.len() > 0 {
        assert(st.0.push(st.1).drop_last() == st.0);
    } else {
        assert(st.1 == Seq::<Seq<char>>::empty());
        assert(concat_groups(st.0) + st.1 == concat_groups(st.0));
    }
}

/// A copy of the characters of `v`.
fn copy_chars(v: &Vec<char>) -> (r: Vec<char>)
    ensures
        r@ == v@,
{
    let r = sub_chars(v, 0, v.len());
    assert(v@.subrange(0, v.len() as int) == v@);
    r
}

/// The lines of the description `desc` filled to the width `w2`, the way
/// the help page wraps option descriptions.
pub fn wrap_words(desc: &str, w2: usize) -> (lines: Vec<Vec<char>>)
    ensures
        views(lines@) == wrap_lines(desc@, w2 as int),
{
    let v = str_chars(desc);
    let ws = words_of(&v);
    let ghost all = views(ws@);
    let mut done: Vec<Vec<char>> = Vec::new();
    let mut cur: Vec<Vec<char>> = Vec::new();
    let mut cur_len: u128 = 0;
    let mut i: usize = 0;
    while i < ws.len()
        invariant
            i <= ws.len(),
            all == views(ws@),
            all == words(desc@),
            ({
                let st = wrap_fold(all.take(i as int), w2 as int);
                &&& views(done@) == st.0.map_values(|x: Seq<Seq<char>>| join_words(x))
                &&& views(cur@) == st.1
                &&& cur_len == st.2
            }),
            cur_len <= 4 * usize::MAX,
        decreases ws.len() - i,
    {
        let ghost prev = wrap_fold(all.take(i as int), w2 as int);
        assert(all.take(i + 1).drop_last() == all.take(i as int));
        assert(all.take(i + 1).last() == ws@[i as int]@);
        let wl = utf8_len_chars(&ws[i]);
        let sep: u128 = if cur_len > 0 { 1 } else { 0 };
        if cur_len + wl + sep <= w2 as u128 {
            let extra: u128 = if cur_len > wl { 1 } else { 0 };
            let ghost before = cur@;
            cur.push(copy_chars(&ws[i]));
            assert(views(cur@) =~= views(before).push(ws@[i as int]@));
            cur_len = cur_len + wl + extra;
        } else {
            if cur.len() > 0 {
                let line = join_words_chars(&cur);
                let ghost before = done@;
                done.push(line);
                assert(views(done@) =~= views(before).push(line@));
                assert(prev.0.push(prev.1).map_values(|x: Seq<Seq<char>>| join_words(x))
                    =~= prev.0.map_values(|x: Seq<Seq<char>>| join_words(x)).push(
                    join_words(prev.1),
                ));
            }
            let mut fresh: Vec<Vec<char>> = Vec::new();
            fresh.push(copy_chars(&ws[i]));
            assert(views(fresh@) =~= seq![ws@[i as int]@]);
            cur = fresh;
            cur_len = wl;
        }
        i = i + 1;
    }
    assert(all.take(ws.len() as int) == all);
    let ghost st = wrap_fold(all, w2 as int);
    if cur.len() > 0 {
        let line = join_words_chars(&cur);
        let ghost before = done@;
        done.push(line);
        assert(views(done@) =~= views(before).push(line@));
        assert(st.0.push(st.1).map_values(|x: Seq<Seq<char>>| join_words(x)) =~= st.0.map_values(
            |x: Seq<Seq<char>>| join_words(x),
        ).push(join_words(st.1)));
    }
    if done.len() == 0 {
        done.push(Vec::new());
        assert(views(done@) =~= seq![Seq::<char>::empty()]);
    }
    done
}

/// `n` spaces (none when `n` is not positive).
pub open spec fn spaces(n: int) -> Seq<char> {
    Seq::new(
        if n > 0 {
            n as nat
        } else {
            0
        },
        |i: int| ' ',
    )
}

/// Appends `n` spaces to `out`.
fn push_spaces(out: &mut Vec<char>, n: usize)
    ensures
        final(out)@ == old(out)@ + spaces(n as int),
{
    let mut k: usize = 0;
    while k < n
        invariant
            k <= n,
            out@ == old(out)@ + spaces(k as int),
        decreases n - k,
    {
        out.push(' ');
        assert(old(out)@ + spaces(k + 1) =~= (old(out)@ + spaces(k as int)).push(' '));
        k = k + 1;
    }
}

/// The width of the description column of the help page for a terminal
/// `width` columns wide.
pub open spec fn description_width(width: int) -> int {
    if width > 28 {
        width - 28
    } else {
        25
    }
}

/// The help page rows of one option: the option, in bold green and padded
/// to 22 columns, beside the first line of its wrapped description, and
/// 22 blank columns beside each further line.
pub open spec fn option_rows(cmd: Seq<char>, desc: Seq<char>, w2: int) -> Seq<Seq<char>> {
    let lines = wrap_lines(desc, w2);
    Seq::new(
        lines.len(),
        |i: int|
            "  "@ + if i == 0 {
                "\u{1b}[1;32m"@ + cmd + "\u{1b}[0m"@ + spaces(22 - utf8_len(cmd))
            } else {
                spaces(22)
            } + "  "@ + lines[i],
    )
}

/// The help page for a terminal `width` columns wide, one entry per printed line.
pub open spec fn help_text(width: int) -> Seq<Seq<char>> {
    let w2 = description_width(width);
    seq![
        "\u{1b}[4;33m \u{f03d8} termux-theme v0.1.2 \u{1b}[24m  Dynamic Termux Color Switcher"@,
        "\u{1b}[90mAuthor: Termux Tyro (@Remo773)\u{1b}[0m\n"@,
        "\u{1b}[1;36mNAME\u{1b}[0m"@,
        "    termux-theme - preview & apply Termux color palettes dynamically\n"@,
        "\u{1b}[1;36mSYNOPSIS\u{1b}[0m"@,
        "    \u{1b}[1;32mtermux-theme\u{1b}[0m [\u{1b}[1;32mCOMMAND\u{1b}[0m | \u{1b}[4;33mTHEME_NAME\u{1b}[24m | \u{1b}[4;33mINDEX\u{1b}[24m]\n"@,
        "\u{1b}[1;36mCOMMANDS & OPTIONS\u{1b}[0m"@,
    ] + option_rows("(no arguments)"@, "Launch interactive fzf menu with live preview"@, w2)
        + option_rows("<name | number>"@, "Preview & apply theme by name or index"@, w2)
        + option_rows("list"@, "List available themes in responsive table format"@, w2)
        + option_rows("current"@, "Display current active theme"@, w2) + option_rows(
        "random"@,
        "Pick & permanently save a random theme"@,
        w2,
    ) + option_rows("save-as <name>"@, "Save current colors as a new theme file"@, w2)
        + option_rows("-h, --help"@, "Display this man-style help message"@, w2) + option_rows(
        "-v, --version"@,
        "Display version information"@,
        w2,
    ) + seq![
        ""@,
        "\u{1b}[1;36mEXAMPLES\u{1b}[0m"@,
        "  \u{1b}[38;5;75m\u{f0142}\u{1b}[0m termux-theme 5"@,
        "  \u{1b}[38;5;75m\u{f0142}\u{1b}[0m termux-theme ubuntu"@,
        "  \u{1b}[38;5;75m\u{f0142}\u{1b}[0m termux-theme save-as dark-custom"@,
    ]
}

/// On the help page every option's description is wrapped to the columns
/// left of a `width`-column terminal after the two-column indent, the
/// 22-column option field and the two-column gap, less two for the right
/// margin: `width - 28` columns; on a terminal of 28 columns or fewer, to
/// 25 columns. The options section holds exactly those rows, in order.
pub proof fn law_help_description_column(width: int)
    ensures
        ({
            let page = help_text(width);
            let w = if width > 28 {
                width - 28
            } else {
                25
            };
            &&& page.len() >= 12
            &&& page.subrange(7, page.len() - 5) == option_rows(
                "(no arguments)"@,
                "Launch interactive fzf menu with live preview"@,
                w,
            ) + option_rows("<name | number>"@, "Preview & apply theme by name or index"@, w)
                + option_rows("list"@, "List available themes in responsive table format"@, w)
                + option_rows("current"@, "Display current active theme"@, w) + option_rows(
                "random"@,
                "Pick & permanently save a random theme"@,
                w,
            ) + option_rows("save-as <name>"@, "Save current colors as a new theme file"@, w)
                + option_rows("-h, --help"@, "Display this man-style help message"@, w)
                + option_rows("-v, --version"@, "Display version information"@, w)
        }),
{
    let page = help_text(width);
    let w = description_width(width);
    let head = seq![
        "\u{1b}[4;33m \u{f03d8} termux-theme v0.1.2 \u{1b}[24m  Dynamic Termux Color Switcher"@,
        "\u{1b}[90mAuthor: Termux Tyro (@Remo773)\u{1b}[0m\n"@,
        "\u{1b}[1;36mNAME\u{1b}[0m"@,
        "    termux-theme - preview & apply Termux color palettes dynamically\n"@,
        "\u{1b}[1;36mSYNOPSIS\u{1b}[0m"@,
        "    \u{1b}[1;32mtermux-theme\u{1b}[0m [\u{1b}[1;32mCOMMAND\u{1b}[0m | \u{1b}[4;33mTHEME_NAME\u{1b}[24m | \u{1b}[4;33mINDEX\u{1b}[24m]\n"@,
        "\u{1b}[1;36mCOMMANDS & OPTIONS\u{1b}[0m"@,
    ];
    let tail = seq![
        ""@,
        "\u{1b}[1;36mEXAMPLES\u{1b}[0m"@,
        "  \u{1b}[38;5;75m\u{f0142}\u{1b}[0m termux-theme 5"@,
        "  \u{1b}[38;5;75m\u{f0142}\u{1b}[0m termux-theme ubuntu"@,
        "  \u{1b}[38;5;75m\u{f0142}\u{1b}[0m termux-theme save-as dark-custom"@,
    ];
    let mid = option_rows("(no arguments)"@, "Launch interactive fzf menu with live preview"@, w)
        + option_rows("<name | number>"@, "Preview & apply theme by name or index"@, w)
        + option_rows("list"@, "List available themes in responsive table format"@, w)
        + option_rows("current"@, "Display current active theme"@, w) + option_rows(
        "random"@,
        "Pick & permanently save a random theme"@,
        w,
    ) + option_rows("save-as <name>"@, "Save current colors as a new theme file"@, w)
        + option_rows("-h, --help"@, "Display this man-style help message"@, w)
        + option_rows("-v, --version"@, "Display version information"@, w);
    assert(page =~= head + mid + tail);
    assert(page.subrange(7, page.len() - 5) =~= mid);
}

/// Appends the string `line` to `out`.
fn push_line(out: &mut Vec<String>, line: &str)
    ensures
        string_views(final(out)@) == string_views(old(out)@).push(line@),
{
    let s = line.to_owned();
    out.push(s);
    assert(string_views(out@) =~= string_views(old(out)@).push(line@));
}

/// Appends the help page rows of the option `cmd` described by `desc`.
fn push_option_rows(out: &mut Vec<String>, cmd: &str, desc: &str, w2: usize)
    ensures
        string_views(final(out)@) == string_views(old(out)@) + option_rows(cmd@, desc@, w2 as int),
{
    let lines = wrap_words(desc, w2);
    let ghost rows = option_rows(cmd@, desc@, w2 as int);
    let cv = str_chars(cmd);
    let cmd_len = utf8_len_chars(&cv);
    let mut idx: usize = 0;
    while idx < lines.len()
        invariant
            idx <= lines.len(),
            views(lines@) == wrap_lines(desc@, w2 as int),
            rows == option_rows(cmd@, desc@, w2 as int),
            cv@ == cmd@,
            cmd_len == utf8_len(cmd@),
            string_views(out@) == string_views(old(out)@) + rows.take(idx as int),
        decreases lines.len() - idx,
    {
        let mut row: Vec<char> = Vec::new();
        push_str(&mut row, "  ");
        if idx == 0 {
            push_str(&mut row, "\u{1b}[1;32m");
            push_chars(&mut row, &cv);
            push_str(&mut row, "\u{1b}[0m");
            let pad: usize = if cmd_len < 22 { (22 - cmd_len) as usize } else { 0 };
            push_spaces(&mut row, pad);
            assert(spaces(pad as int) == spaces(22 - utf8_len(cmd@)));
        } else {
            push_spaces(&mut row, 22);
        }
        push_str(&mut row, "  ");
        push_chars(&mut row, &lines[idx]);
        assert(views(lines@)[idx as int] == lines@[idx as int]@);
        assert(row@ =~= rows[idx as int]);
        let ghost before = out@;
        out.push(string_of(&row));
        assert(string_views(out@) =~= string_views(before).push(row@));
        assert(rows.take(idx + 1) =~= rows.take(idx as int).push(rows[idx as int]));
        idx = idx + 1;
    }
    assert(rows.take(lines.len() as int) == rows);
}

/// The lines of the help page for a terminal `width` columns wide: the
/// program's name, synopsis, each option with its description wrapped to
/// the remaining width, and examples.
pub fn help_lines(width: usize) -> (lines: Vec<String>)
    ensures
        string_views(lines@) == help_text(width as int),
{
    let w2: usize = if width > 28 { width - 28 } else { 25 };
    let mut out: Vec<String> = Vec::new();
    push_line(&mut out, "\u{1b}[4;33m \u{f03d8} termux-theme v0.1.2 \u{1b}[24m  Dynamic Termux Color Switcher");
    push_line(&mut out, "\u{1b}[90mAuthor: Termux Tyro (@Remo773)\u{1b}[0m\n");
    push_line(&mut out, "\u{1b}[1;36mNAME\u{1b}[0m");
    push_line(&mut out, "    termux-theme - preview & apply Termux color palettes dynamically\n");
    push_line(&mut out, "\u{1b}[1;36mSYNOPSIS\u{1b}[0m");
    push_line(
        &mut out,
        "    \u{1b}[1;32mtermux-theme\u{1b}[0m [\u{1b}[1;32mCOMMAND\u{1b}[0m | \u{1b}[4;33mTHEME_NAME\u{1b}[24m | \u{1b}[4;33mINDEX\u{1b}[24m]\n",
    );
    push_line(&mut out, "\u{1b}[1;36mCOMMANDS & OPTIONS\u{1b}[0m");
    let ghost head = string_views(out@);
    push_option_rows(&mut out, "(no arguments)", "Launch interactive fzf menu with live preview", w2);
    push_option_rows(&mut out, "<name | number>", "Preview & apply theme by name or index", w2);
    push_option_rows(&mut out, "list", "List available themes in responsive table format", w2);
    push_option_rows(&mut out, "current", "Display current active theme", w2);
    push_option_rows(&mut out, "random", "Pick & permanently save a random theme", w2);
    push_option_rows(&mut out, "save-as <name>", "Save current colors as a new theme file", w2);
    push_option_rows(&mut out, "-h, --help", "Display this man-style help message", w2);
    push_option_rows(&mut out, "-v, --version", "Display version information", w2);
    push_line(&mut out, "");
    push_line(&mut out, "\u{1b}[1;36mEXAMPLES\u{1b}[0m");
    push_line(&mut out, "  \u{1b}[38;5;75m\u{f0142}\u{1b}[0m termux-theme 5");
    push_line(&mut out, "  \u{1b}[38;5;75m\u{f0142}\u{1b}[0m termux-theme ubuntu");
    push_line(&mut out, "  \u{1b}[38;5;75m\u{f0142}\u{1b}[0m termux-theme save-as dark-custom");
    assert(string_views(out@) =~= help_text(width as int));
    out
}

/// The heading of the theme listing.
pub open spec fn grid_header() -> Seq<char> {
    "\u{1b}[1;33m\u{f03d8}\u{1b}[0m \u{1b}[1mAvailable themes in ~/.termux/themes/:\u{1b}[0m"@
}

/// The largest byte length of a theme name (0 for no themes).
pub open spec fn max_name_len(themes: Seq<Seq<char>>) -> nat
    decreases themes.len(),
{
    if themes.len() == 0 {
        0
    } else {
        let m = max_name_len(themes.drop_last());
        let l = utf8_len(themes.last());
        if l > m {
            l
        } else {
            m
        }
    }
}

/// The number of columns of the listing: two when the terminal can hold
/// two cells of the longest name plus eight, else one.
pub open spec fn grid_columns(themes: Seq<Seq<char>>, width: int) -> int {
    if width >= (max_name_len(themes) + 8) * 2 {
        2
    } else {
        1
    }
}

/// The first position at or after `i` of `t` in `themes`, if any.
pub open spec fn position_from(themes: Seq<Seq<char>>, t: Seq<char>, i: int) -> Option<int>
    decreases themes.len() - i,
{
    if i < 0 || i >= themes.len() {
        None
    } else if themes[i] == t {
        Some(i)
    } else {
        position_from(themes, t, i + 1)
    }
}

/// The number shown for `t`: one more than its first position in the list.
pub open spec fn list_number(themes: Seq<Seq<char>>, t: Seq<char>) -> nat {
    match position_from(themes, t, 0) {
        Some(p) => (p + 1) as nat,
        None => 1,
    }
}

/// `n` right-aligned in a field of two characters (`{:>2}`).
pub open spec fn number_field(n: nat) -> Seq<char> {
    if decimal(n).len() < 2 {
        seq![' '] + decimal(n)
    } else {
        decimal(n)
    }
}

/// The numbered name of the theme at `k`: `NN. name`.
pub open spec fn grid_entry(themes: Seq<Seq<char>>, k: int) -> Seq<char> {
    number_field(list_number(themes, themes[k])) + ". "@ + themes[k]
}

/// The listing item of the theme at `k`, highlighted and marked when active.
pub open spec fn grid_item(themes: Seq<Seq<char>>, k: int, active: bool) -> Seq<char> {
    if active {
        " \u{1b}[38;5;75m\u{f0142}\u{1b}[0m \u{1b}[1;32m"@ + grid_entry(themes, k)
            + "\u{1b}[0m \u{1b}[32m\u{f005}\u{1b}[0m"@
    } else {
        " \u{1b}[38;5;75m\u{f0142}\u{1b}[0m "@ + grid_entry(themes, k)
    }
}

/// The columns the item of the theme at `k` is counted to take.
pub open spec fn grid_visible(themes: Seq<Seq<char>>, k: int, active: bool) -> int {
    6 + utf8_len(grid_entry(themes, k)) + if active {
        2int
    } else {
        0int
    }
}

/// The item at `k` in a row that ends before `end`, padded to the column
/// width `colw` unless it is the last of its row or does not fit.
pub open spec fn grid_cell(
    themes: Seq<Seq<char>>,
    active: Option<Seq<char>>,
    colw: int,
    k: int,
    end: int,
) -> Seq<char> {
    let act = active == Some(themes[k]);
    let vis = grid_visible(themes, k, act);
    grid_item(themes, k, act) + spaces(
        if k + 1 < end && colw > vis {
            colw - vis
        } else {
            0
        },
    )
}

/// The cells from `k` up to the row end `end`.
pub open spec fn grid_cells(
    themes: Seq<Seq<char>>,
    active: Option<Seq<char>>,
    colw: int,
    k: int,
    end: int,
) -> Seq<char>
    decreases end - k,
{
    if k >= end {
        seq![]
    } else {
        grid_cell(themes, active, colw, k, end) + grid_cells(themes, active, colw, k + 1, end)
    }
}

/// The rows from the one starting at `start`, `nc` themes per row.
pub open spec fn grid_rows(
    themes: Seq<Seq<char>>,
    active: Option<Seq<char>>,
    nc: int,
    colw: int,
    start: int,
) -> Seq<Seq<char>>
    decreases themes.len() - start,
{
    if start < 0 || start >= themes.len() || nc <= 0 {
        seq![]
    } else {
        let end = if start + nc < themes.len() {
            start + nc
        } else {
            themes.len() as int
        };
        seq![grid_cells(themes, active, colw, start, end)] + grid_rows(
            themes,
            active,
            nc,
            colw,
            end,
        )
    }
}

/// The theme listing for a terminal `width` columns wide: the heading,
/// then the themes in order, numbered, in rows of as many themes as there
/// are columns, with the active theme highlighted.
pub open spec fn grid_text(themes: Seq<Seq<char>>, active: Option<Seq<char>>, width: int) -> Seq<
    Seq<char>,
> {
    if themes.len() == 0 {
        seq![grid_header()]
    } else {
        let nc = grid_columns(themes, width);
        seq![grid_header()] + grid_rows(themes, active, nc, width / nc, 0)
    }
}

/// The listing text of the theme at `k`, appended to `row`, with the
/// number of columns it is counted to take.
fn push_grid_item(
    row: &mut Vec<char>,
    tv: &Vec<Vec<char>>,
    k: usize,
    act: bool,
) -> (vis: u128)
    requires
        k < tv.len(),
    ensures
        final(row)@ == old(row)@ + grid_item(views(tv@), k as int, act),
        vis == grid_visible(views(tv@), k as int, act),
{
    let ghost all = views(tv@);
    let mut p: usize = 0;
    while p < tv.len() && !chars_eq(&tv[p], &tv[k])
        invariant
            p <= tv.len(),
            k < tv.len(),
            all == views(tv@),
            position_from(all, all[k as int], 0) == position_from(all, all[k as int], p as int),
        decreases tv.len() - p,
    {
        p = p + 1;
    }
    assert(p < tv.len()) by {
        if p >= tv.len() {
            lemma_position_found(all, k as int, 0);
        }
    }
    let num = decimal_chars(p + 1);
    let mut entry: Vec<char> = Vec::new();
    if num.len() < 2 {
        entry.push(' ');
    }
    push_chars(&mut entry, &num);
    push_str(&mut entry, ". ");
    push_chars(&mut entry, &tv[k]);
    assert(entry@ =~= grid_entry(all, k as int));
    if act {
        push_str(row, " \u{1b}[38;5;75m\u{f0142}\u{1b}[0m \u{1b}[1;32m");
        push_chars(row, &entry);
        push_str(row, "\u{1b}[0m \u{1b}[32m\u{f005}\u{1b}[0m");
    } else {
        push_str(row, " \u{1b}[38;5;75m\u{f0142}\u{1b}[0m ");
        push_chars(row, &entry);
    }
    assert(row@ =~= old(row)@ + grid_item(all, k as int, act));
    let el = utf8_len_chars(&entry);
    6 + el + if act { 2 } else { 0 }
}

proof fn lemma_position_found(s: Seq<Seq<char>>, k: int, i: int)
    requires
        0 <= i <= k < s.len(),
    ensures
        position_from(s, s[k], i) matches Some(p) && i <= p <= k,
    decreases k - i,
{
    if s[i] != s[k] {
        lemma_position_found(s, k, i + 1);
    }
}

/// The lines of the theme listing for a terminal `width` columns wide,
/// with `active` highlighted.
pub fn grid_lines(themes: &Vec<String>, active: Option<&String>, width: usize) -> (lines: Vec<
    String,
>)
    ensures
        string_views(lines@) == grid_text(string_views(themes@), opt_ref_view(active), width as int),
{
    let ghost all = string_views(themes@);
    let ghost act_v = opt_ref_view(active);
    let mut out: Vec<String> = Vec::new();
    push_line(
        &mut out,
        "\u{1b}[1;33m\u{f03d8}\u{1b}[0m \u{1b}[1mAvailable themes in ~/.termux/themes/:\u{1b}[0m",
    );
    let n = themes.len();
    if n == 0 {
        return out;
    }
    let mut tv: Vec<Vec<char>> = Vec::new();
    let mut m: u128 = 0;
    let mut i: usize = 0;
    while i < n
        invariant
            i <= n == themes.len(),
            all == string_views(themes@),
            views(tv@) == all.take(i as int),
            m == max_name_len(all.take(i as int)),
            m <= 4 * usize::MAX,
        decreases n - i,
    {
        let t = str_chars(themes[i].as_str());
        let l = utf8_len_chars(&t);
        assert(all.take(i + 1).drop_last() == all.take(i as int));
        if l > m {
            m = l;
        }
        let ghost before = tv@;
        tv.push(t);
        assert(views(tv@) =~= all.take(i + 1));
        i = i + 1;
    }
    assert(all.take(n as int) == all);
    let nc: usize = if (width as u128) >= (m + 8) * 2 { 2 } else { 1 };
    let colw = width / nc;
    let mut start: usize = 0;
    assert(string_views(out@) == seq![grid_header()]);
    while start < n
        invariant
            start <= n == themes.len() == tv.len(),
            all == string_views(themes@),
            views(tv@) == all,
            act_v == opt_ref_view(active),
            nc == grid_columns(all, width as int),
            colw == width / nc,
            1 <= nc <= 2,
            grid_text(all, act_v, width as int) == string_views(out@) + grid_rows(
                all,
                act_v,
                nc as int,
                colw as int,
                start as int,
            ),
        decreases n - start,
    {
        let end = if n - start > nc { start + nc } else { n };
        let mut row: Vec<char> = Vec::new();
        let mut k = start;
        while k < end
            invariant
                start <= k <= end <= n == themes.len() == tv.len(),
                all == string_views(themes@),
                views(tv@) == all,
                act_v == opt_ref_view(active),
                grid_cells(all, act_v, colw as int, start as int, end as int) == row@
                    + grid_cells(all, act_v, colw as int, k as int, end as int),
            decreases end - k,
        {
            let act = is_active(&themes[k], active);
            let ghost before = row@;
            let vis = push_grid_item(&mut row, &tv, k, act);
            assert(all[k as int] == themes@[k as int]@);
            let pad: usize = if k + 1 < end && (colw as u128) > vis {
                (colw as u128 - vis) as usize
            } else {
                0
            };
            push_spaces(&mut row, pad);
            assert(row@ =~= before + grid_cell(all, act_v, colw as int, k as int, end as int));
            k = k + 1;
        }
        let ghost before = out@;
        out.push(string_of(&row));
        assert(string_views(out@) =~= string_views(before).push(row@));
        assert(grid_rows(all, act_v, nc as int, colw as int, start as int) == seq![row@]
            + grid_rows(all, act_v, nc as int, colw as int, end as int));
        start = end;
    }
    assert(grid_rows(all, act_v, nc as int, colw as int, n as int) == Seq::<Seq<char>>::empty());
    out
}

proof fn lemma_position_distinct(s: Seq<Seq<char>>, k: int, i: int)
    requires
        0 <= i <= k < s.len(),
        forall|a: int, b: int| 0 <= a < b < s.len() ==> s[a] != s[b],
    ensures
        position_from(s, s[k], i) == Some(k),
    decreases k - i,
{
    if i < k {
        assert(s[i] != s[k]);
        lemma_position_distinct(s, k, i + 1);
    }
}

/// In a list of distinct themes, the number the listing shows beside a
/// theme is the one that selects it on the command line.
pub proof fn law_listed_number_selects_theme(themes: Seq<Seq<char>>, k: int)
    requires
        0 <= k < themes.len() <= usize::MAX,
        forall|a: int, b: int| 0 <= a < b < themes.len() ==> themes[a] != themes[b],
    ensures
        list_number(themes, themes[k]) == k + 1,
        resolve_spec(decimal(list_number(themes, themes[k])), themes) == Some(
            themes[k],
        ),
{
    lemma_position_distinct(themes, k, 0);
    law_resolve_by_number((k + 1) as usize, themes);
}

proof fn lemma_max_name_len(themes: Seq<Seq<char>>)
    ensures
        forall|k: int| 0 <= k < themes.len() ==> utf8_len(#[trigger] themes[k]) <= max_name_len(themes),
        themes.len() > 0 ==> exists|k: int| 0 <= k < themes.len() && utf8_len(#[trigger] themes[k]) == max_name_len(themes),
    decreases themes.len(),
{
    if themes.len() > 0 {
        let init = themes.drop_last();
        lemma_max_name_len(init);
        assert forall|k: int| 0 <= k < themes.len() implies utf8_len(#[trigger] themes[k]) <= max_name_len(themes) by {
            if k < init.len() {
                assert(themes[k] == init[k]);
            }
        }
        if utf8_len(themes.last()) >= max_name_len(init) {
            assert(utf8_len(themes[themes.len() - 1]) == max_name_len(themes));
        } else {
            let j = choose|j: int| 0 <= j < init.len() && utf8_len(#[trigger] init[j]) == max_name_len(init);
            assert(themes[j] == init[j]);
        }
    }
}

proof fn lemma_grid_rows_len(
    themes: Seq<Seq<char>>,
    active: Option<Seq<char>>,
    nc: int,
    colw: int,
    start: int,
)
    requires
        0 <= start <= themes.len(),
        nc == 1 || nc == 2,
    ensures
        grid_rows(themes, active, nc, colw, start).len() == if nc == 1 {
            themes.len() - start
        } else {
            (themes.len() - start + 1) / 2
        },
    decreases themes.len() - start,
{
    if start < themes.len() {
        let end = if start + nc < themes.len() {
            start + nc
        } else {
            themes.len() as int
        };
        lemma_grid_rows_len(themes, active, nc, colw, end);
    }
}

/// The listing puts two themes on a row exactly when the terminal can
/// hold two cells of every listed name plus eight columns; otherwise one
/// theme per row. Either way the heading comes first.
pub proof fn law_grid_columns_fit(themes: Seq<Seq<char>>, active: Option<Seq<char>>, width: int)
    requires
        width >= 0,
    ensures
        themes.len() == 0 ==> grid_text(themes, active, width).len() == 1,
        themes.len() > 0 ==> grid_text(themes, active, width).len() == 1 + if forall|k: int|
            0 <= k < themes.len() ==> width >= 2 * (utf8_len(#[trigger] themes[k]) + 8) {
            (themes.len() + 1) / 2
        } else {
            themes.len()
        },
        themes.len() > 0 ==> grid_text(themes, active, width)[0] == grid_header(),
{
    if themes.len() > 0 {
        lemma_max_name_len(themes);
        let nc = grid_columns(themes, width);
        lemma_grid_rows_len(themes, active, nc, width / nc, 0);
        let fits = forall|k: int|
            0 <= k < themes.len() ==> width >= 2 * (utf8_len(#[trigger] themes[k]) + 8);
        if fits {
            let j = choose|j: int| 0 <= j < themes.len() && utf8_len(#[trigger] themes[j]) == max_name_len(themes);
            assert(width >= 2 * (utf8_len(themes[j]) + 8));
            assert(nc == 2);
        } else {
            let j = choose|j: int| !(0 <= j < themes.len() ==> width >= 2 * (utf8_len(#[trigger] themes[j]) + 8));
            assert(utf8_len(themes[j]) <= max_name_len(themes));
            assert(nc == 1);
        }
    }
}

proof fn lemma_single_column_row(
    themes: Seq<Seq<char>>,
    active: Option<Seq<char>>,
    colw: int,
    start: int,
    r: int,
)
    requires
        0 <= start,
        0 <= r < themes.len() - start,
    ensures
        grid_rows(themes, active, 1, colw, start)[r] == grid_cells(
            themes,
            active,
            colw,
            start + r,
            start + r + 1,
        ),
    decreases r,
{
    let rows = grid_rows(themes, active, 1, colw, start);
    let rest = grid_rows(themes, active, 1, colw, start + 1);
    assert(rows == seq![grid_cells(themes, active, colw, start, start + 1)] + rest);
    if r > 0 {
        lemma_single_column_row(themes, active, colw, start + 1, r - 1);
        lemma_grid_rows_len(themes, active, 1, colw, start + 1);
        assert(rows[r] == rest[r - 1]);
    }
}

proof fn lemma_decimal_short(n: nat)
    ensures
        decimal(n).len() < 2 <==> n < 10,
{
    if n >= 10 {
        lemma_decimal_digits(n / 10);
    }
}

/// On a terminal too narrow for two columns, each theme of a list of
/// distinct themes has a row of its own, in order after the heading: the
/// arrow, its position counted from 1 right-aligned in two columns, `. `
/// and the name; the active theme's row is bold green and marked.
pub proof fn law_single_column_rows(
    themes: Seq<Seq<char>>,
    active: Option<Seq<char>>,
    width: int,
    k: int,
)
    requires
        width >= 0,
        0 <= k < themes.len(),
        forall|a: int, b: int| 0 <= a < b < themes.len() ==> themes[a] != themes[b],
        exists|j: int| 0 <= j < themes.len() && width < 2 * (utf8_len(#[trigger] themes[j]) + 8),
    ensures
        ({
            let n = decimal((k + 1) as nat);
            let num = if k + 1 < 10 {
                seq![' '] + n
            } else {
                n
            };
            grid_text(themes, active, width)[k + 1] == if active == Some(themes[k]) {
                " \u{1b}[38;5;75m\u{f0142}\u{1b}[0m \u{1b}[1;32m"@ + num + ". "@ + themes[k]
                    + "\u{1b}[0m \u{1b}[32m\u{f005}\u{1b}[0m"@
            } else {
                " \u{1b}[38;5;75m\u{f0142}\u{1b}[0m "@ + num + ". "@ + themes[k]
            }
        }),
{
    law_grid_columns_fit(themes, active, width);
    lemma_max_name_len(themes);
    let j = choose|j: int| 0 <= j < themes.len() && width < 2 * (utf8_len(#[trigger] themes[j]) + 8);
    assert(utf8_len(themes[j]) <= max_name_len(themes));
    assert(grid_columns(themes, width) == 1);
    let rows = grid_rows(themes, active, 1, width, 0);
    assert(grid_text(themes, active, width) == seq![grid_header()] + rows);
    lemma_grid_rows_len(themes, active, 1, width, 0);
    assert(grid_text(themes, active, width)[k + 1] == rows[k]);
    lemma_single_column_row(themes, active, width, 0, k);
    lemma_position_distinct(themes, k, 0);
    lemma_decimal_short((k + 1) as nat);
    let cell = grid_cell(themes, active, width, k, k + 1);
    assert(grid_cells(themes, active, width, k + 1, k + 1) == Seq::<char>::empty());
    assert(spaces(0) == Seq::<char>::empty());
    assert(rows[k] == cell);
}

} // verus!
