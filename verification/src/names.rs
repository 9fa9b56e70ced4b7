//! Theme names: cleaning what a user or the menu hands in, the numbered
//! menu lines, and resolving a name or a menu number to a theme.
use vstd::prelude::*;
use crate::text::{
    decimal, decimal_chars, ends_with, eq_lit, find_char, find_char_from, find_char_in, is_digit,
    is_ws, law_parse_decimal, lemma_decimal_digits, lemma_find_char_absent, lemma_find_char_shift,
    lemma_lines_of_join, lemma_trim_unchanged, lines_of, parse_usize_chars, parse_usize_spec,
    push_chars, push_str, str_chars, string_of, strip_suffixes, strip_suffixes_chars, sub_chars,
    trim, trim_chars, trim_start,
};

verus! {

/// The character views of a sequence of strings.
pub open spec fn string_views(v: Seq<String>) -> Seq<Seq<char>> {
    v.map_values(|t: String| t@)
}

/// The first index at or after `i` where `s` holds `. `.
pub open spec fn find_dot_space_from(s: Seq<char>, i: int) -> Option<int>
    decreases s.len() - i,
{
    if i < 0 || i + 1 >= s.len() {
        None
    } else if s[i] == '.' && s[i + 1] == ' ' {
        Some(i)
    } else {
        find_dot_space_from(s, i + 1)
    }
}

/// `s` after its first `. `, or all of `s` when it has none (drops a menu number).
pub open spec fn after_list_number(s: Seq<char>) -> Seq<char> {
    match find_dot_space_from(s, 0) {
        Some(p) => s.skip(p + 2),
        None => s,
    }
}

/// `s` up to its first space, or all of `s` when it has none.
pub open spec fn before_space(s: Seq<char>) -> Seq<char> {
    match find_char(s, ' ') {
        Some(p) => s.take(p),
        None => s,
    }
}

/// The theme name in `raw`: trimmed, without a leading `N. ` menu number,
/// cut at the first space, and without any trailing `.properties`.
pub open spec fn clean_name(raw: Seq<char>) -> Seq<char> {
    strip_suffixes(before_space(after_list_number(trim(raw))), ".properties"@)
}

/// The first index of `. ` in `v`, if any.
fn find_dot_space(v: &Vec<char>) -> (r: Option<usize>)
    ensures
        r matches Some(i) ==> i + 1 < v.len() && find_dot_space_from(v@, 0) == Some(i as int),
        r is None ==> find_dot_space_from(v@, 0) is None,
{
    let mut i: usize = 0;
    while i < v.len() && i + 1 < v.len()
        invariant
            i <= v.len(),
            find_dot_space_from(v@, 0) == find_dot_space_from(v@, i as int),
        decreases v.len() - i,
    {
        if v[i] == '.' && v[i + 1] == ' ' {
            return Some(i);
        }
        i = i + 1;
    }
    None
}

/// The theme name in `raw`: surrounding whitespace, a leading `N. ` menu
/// number, everything from the first space on, and trailing `.properties`
/// suffixes are removed.
pub fn clean_theme_name(raw: &str) -> (name: String)
    ensures
        name@ == clean_name(raw@),
{
    let v = str_chars(raw);
    let t = trim_chars(&v);
    let a = match find_dot_space(&t) {
        Some(p) => {
            assert(t@.subrange(p + 2, t@.len() as int) == t@.skip(p + 2));
            sub_chars(&t, p + 2, t.len())
        },
        None => t,
    };
    let b = match find_char_in(&a, ' ') {
        Some(p) => {
            assert(a@.subrange(0, p as int) == a@.take(p as int));
            sub_chars(&a, 0, p)
        },
        None => a,
    };
    let c = strip_suffixes_chars(&b, ".properties");
    string_of(&c)
}

/// The view of an optional string.
pub open spec fn opt_view(o: Option<String>) -> Option<Seq<char>> {
    match o {
        Some(t) => Some(t@),
        None => None,
    }
}

/// The view of an optional string reference.
pub open spec fn opt_ref_view(o: Option<&String>) -> Option<Seq<char>> {
    match o {
        Some(t) => Some(t@),
        None => None,
    }
}

/// The mark that follows the active theme in the menu and in listings.
pub open spec fn active_mark() -> Seq<char> {
    " \u{1b}[32m\u{f005}\u{1b}[0m"@
}

/// The menu line for theme `t` numbered `num`: `num. t`, followed by the
/// active mark when `t` is the active theme.
pub open spec fn menu_line(num: nat, t: Seq<char>, active: bool) -> Seq<char> {
    decimal(num) + ". "@ + t + if active {
        active_mark()
    } else {
        seq![]
    }
}

/// The text handed to the interactive menu: one line per theme, numbered
/// from 1, each ended by a line break.
pub open spec fn menu_text(themes: Seq<Seq<char>>, active: Option<Seq<char>>) -> Seq<char>
    decreases themes.len(),
{
    if themes.len() == 0 {
        seq![]
    } else {
        menu_text(themes.drop_last(), active) + menu_line(
            themes.len(),
            themes.last(),
            active == Some(themes.last()),
        ) + "\n"@
    }
}

/// Whether `t` names the active theme.
pub(crate) fn is_active(t: &String, active: Option<&String>) -> (b: bool)
    ensures
        b == (opt_ref_view(active) == Some(t@)),
{
    match active {
        Some(a) => {
            let av = str_chars(a.as_str());
            eq_lit(&av, t.as_str())
        },
        None => false,
    }
}

/// The text for the interactive theme menu: `N. name` for each theme, with
/// the active theme marked.
pub fn menu_input(themes: &Vec<String>, active: Option<&String>) -> (text: String)
    ensures
        text@ == menu_text(string_views(themes@), opt_ref_view(active)),
{
    let ghost all = string_views(themes@);
    let mut out: Vec<char> = Vec::new();
    let mut i: usize = 0;
    while i < themes.len()
        invariant
            i <= themes.len(),
            all == string_views(themes@),
            out@ == menu_text(all.take(i as int), opt_ref_view(active)),
        decreases themes.len() - i,
    {
        let ghost before = out@;
        let num = decimal_chars(i + 1);
        push_chars(&mut out, &num);
        push_str(&mut out, ". ");
        push_str(&mut out, themes[i].as_str());
        let act = is_active(&themes[i], active);
        if act {
            push_str(&mut out, " \u{1b}[32m\u{f005}\u{1b}[0m");
        }
        push_str(&mut out, "\n");
        assert(all.take(i + 1).drop_last() == all.take(i as int));
        assert(all.take(i + 1).last() == themes@[i as int]@);
        assert(out@ =~= before + menu_line((i + 1) as nat, themes@[i as int]@, act) + "\n"@);
        i = i + 1;
    }
    assert(all.take(themes.len() as int) == all);
    string_of(&out)
}

/// `c`, or the theme at position `c` (counted from 1) when `c` reads as such a position.
pub open spec fn pick_theme(c: Seq<char>, themes: Seq<Seq<char>>) -> Seq<char> {
    match parse_usize_spec(c) {
        Some(n) => if 1 <= n <= themes.len() {
            themes[n - 1]
        } else {
            c
        },
        None => c,
    }
}

/// The theme that `sub` selects: its cleaned name, or, when that reads as a
/// number from 1 to the number of themes, the theme at that position; none
/// when the result is not one of `themes`.
pub open spec fn resolve_spec(sub: Seq<char>, themes: Seq<Seq<char>>) -> Option<Seq<char>> {
    let pick = pick_theme(clean_name(sub), themes);
    if themes.contains(pick) {
        Some(pick)
    } else {
        None
    }
}

/// The theme that a command-line argument names, by name or by its number
/// in the list, or `None` when it names no available theme.
pub fn resolve_theme(sub: &str, themes: &Vec<String>) -> (r: Option<String>)
    ensures
        opt_view(r) == resolve_spec(sub@, string_views(themes@)),
{
    let ghost all = string_views(themes@);
    let cleaned = clean_theme_name(sub);
    let cv = str_chars(cleaned.as_str());
    let pick = match parse_usize_chars(&cv) {
        Some(n) => if 1 <= n && n <= themes.len() {
            themes[n - 1].clone()
        } else {
            cleaned
        },
        None => cleaned,
    };
    assert(pick@ == pick_theme(clean_name(sub@), all));
    let pv = str_chars(pick.as_str());
    let mut i: usize = 0;
    while i < themes.len()
        invariant
            i <= themes.len(),
            all == string_views(themes@),
            pv@ == pick@,
            pick@ == pick_theme(clean_name(sub@), all),
            forall|j: int| 0 <= j < i ==> all[j] != pv@,
        decreases themes.len() - i,
    {
        if eq_lit(&pv, themes[i].as_str()) {
            assert(all[i as int] == pv@);
            assert(all.contains(pv@));
            assert(resolve_spec(sub@, all) == Some(pick@));
            return Some(pick);
        }
        i = i + 1;
    }
    assert(!all.contains(pv@));
    None
}

proof fn lemma_no_dot_space_before(s: Seq<char>, i: int, j: int)
    requires
        0 <= i <= j,
        forall|k: int| i <= k < j ==> s[k] != '.',
    ensures
        find_dot_space_from(s, i) == find_dot_space_from(s, j),
    decreases j - i,
{
    if i < j {
        lemma_no_dot_space_before(s, i + 1, j);
    }
}

/// A theme name that the menu can carry and hand back unchanged: not
/// empty, without spaces, not ending in whitespace or in `.properties`.
pub open spec fn menu_safe_name(t: Seq<char>) -> bool {
    &&& t.len() > 0
    &&& !t.contains(' ')
    &&& !is_ws(t.last())
    &&& !ends_with(t, ".properties"@)
}

/// Selecting a line of the interactive menu names the theme of that line:
/// cleaning the line gives back the theme name, marked active or not.
pub proof fn law_menu_line_names_theme(num: nat, t: Seq<char>, active: bool)
    requires
        menu_safe_name(t),
    ensures
        clean_name(menu_line(num, t, active)) == t,
{
    reveal_strlit(". ");
    reveal_strlit(" \u{1b}[32m\u{f005}\u{1b}[0m");
    let d = decimal(num);
    let m = if active {
        active_mark()
    } else {
        seq![]
    };
    let line = menu_line(num, t, active);
    lemma_decimal_digits(num);
    assert(line == d + ". "@ + (t + m));
    assert(line[0] == d[0]);
    assert(is_digit(d[0]));
    if active {
        assert(line.last() == 'm');
    } else {
        assert(line.last() == t.last());
    }
    lemma_trim_unchanged(line);
    assert forall|k: int| 0 <= k < d.len() implies line[k] != '.' by {
        assert(line[k] == d[k]);
        assert(is_digit(d[k]));
    }
    lemma_no_dot_space_before(line, 0, d.len() as int);
    assert(line[d.len() as int] == '.');
    assert(line[d.len() + 1int] == ' ');
    assert(after_list_number(trim(line)) == t + m);
    lemma_find_char_absent(t, ' ', 0);
    lemma_find_char_shift(t, m, ' ', 0);
    if active {
        assert(m[0] == ' ');
        assert(find_char_from(m, ' ', 0) == Some(0int));
        assert((t + m).take(t.len() as int) == t);
    } else {
        assert(t + m == t);
    }
    assert(before_space(t + m) == t);
}

/// A name counts as itself once cleaned when it has no surrounding
/// whitespace and can pass through the menu.
pub proof fn lemma_plain_name_clean(t: Seq<char>)
    requires
        menu_safe_name(t),
        !is_ws(t[0]),
    ensures
        clean_name(t) == t,
{
    lemma_trim_unchanged(t);
    lemma_find_char_absent(t, ' ', 0);
    lemma_no_dot_space_free(t, 0);
}

proof fn lemma_no_dot_space_free(s: Seq<char>, i: int)
    requires
        0 <= i,
        !s.contains(' '),
    ensures
        find_dot_space_from(s, i) is None,
    decreases s.len() - i,
{
    if i + 1 < s.len() {
        assert(s[i + 1] != ' ');
        lemma_no_dot_space_free(s, i + 1);
    }
}

/// A number from 1 to the number of themes selects the theme at that
/// position in the list.
pub proof fn law_resolve_by_number(k: usize, themes: Seq<Seq<char>>)
    requires
        1 <= k <= themes.len(),
    ensures
        resolve_spec(decimal(k as nat), themes) == Some(themes[k - 1]),
{
    reveal_strlit(".properties");
    let d = decimal(k as nat);
    lemma_decimal_digits(k as nat);
    law_parse_decimal(k);
    assert(is_digit(d[0]));
    assert(is_digit(d.last()));
    assert forall|i: int| 0 <= i < d.len() implies d[i] != ' ' by {
        assert(is_digit(d[i]));
    }
    assert(!ends_with(d, ".properties"@)) by {
        if ends_with(d, ".properties"@) {
            assert(d.subrange(d.len() - 11, d.len() as int)[10] == d.last());
        }
    }
    lemma_plain_name_clean(d);
    assert(themes.contains(themes[k - 1]));
}

/// A listed theme selects itself by its name, unless the name reads as a
/// position in the list.
pub proof fn law_resolve_by_name(t: Seq<char>, themes: Seq<Seq<char>>)
    requires
        menu_safe_name(t),
        !is_ws(t[0]),
        themes.contains(t),
        !(parse_usize_spec(t) matches Some(n) && 1 <= n <= themes.len()),
    ensures
        resolve_spec(t, themes) == Some(t),
{
    lemma_plain_name_clean(t);
}

/// Whatever an argument selects is one of the available themes.
pub proof fn law_resolve_only_listed(sub: Seq<char>, themes: Seq<Seq<char>>)
    ensures
        resolve_spec(sub, themes) matches Some(x) ==> themes.contains(x),
{
}

proof fn lemma_menu_line_one_line(num: nat, t: Seq<char>, active: bool)
    requires
        !t.contains('\n'),
    ensures
        !menu_line(num, t, active).contains('\n'),
{
    reveal_strlit(". ");
    reveal_strlit(" \u{1b}[32m\u{f005}\u{1b}[0m");
    let d = decimal(num);
    let m = if active {
        active_mark()
    } else {
        seq![]
    };
    let line = menu_line(num, t, active);
    lemma_decimal_digits(num);
    assert(line == d + ". "@ + t + m);
    assert forall|k: int| 0 <= k < line.len() implies line[k] != '\n' by {
        if k < d.len() {
            assert(line[k] == d[k]);
            assert(is_digit(d[k]));
        } else if k >= d.len() + 2 + t.len() {
            assert(line[k] == m[k - d.len() - 2 - t.len()]);
        } else if k >= d.len() + 2 {
            assert(line[k] == t[k - d.len() - 2]);
        }
    }
}

proof fn lemma_menu_text_lines(themes: Seq<Seq<char>>, active: Option<Seq<char>>, rest: Seq<char>)
    requires
        forall|k: int| 0 <= k < themes.len() ==> !(#[trigger] themes[k]).contains('\n'),
    ensures
        lines_of(menu_text(themes, active) + rest) == Seq::new(
            themes.len(),
            |k: int| menu_line((k + 1) as nat, themes[k], active == Some(themes[k])),
        ) + lines_of(rest),
    decreases themes.len(),
{
    reveal_strlit("\n");
    if themes.len() == 0 {
        assert(menu_text(themes, active) + rest == rest);
    } else {
        let init = themes.drop_last();
        let n = themes.len() as int;
        let line = menu_line(n as nat, themes.last(), active == Some(themes.last()));
        assert forall|k: int| 0 <= k < init.len() implies !(#[trigger] init[k]).contains('\n') by {
            assert(init[k] == themes[k]);
        }
        assert(menu_text(themes, active) + rest == menu_text(init, active) + (line + seq!['\n']
            + rest));
        lemma_menu_text_lines(init, active, line + seq!['\n'] + rest);
        lemma_lines_of_join(line, rest);
        assert(!themes[n - 1].contains('\n'));
        lemma_menu_line_one_line(n as nat, themes.last(), active == Some(themes.last()));
        lemma_find_char_absent(line, '\n', 0);
        assert(lines_of(line) == seq![line]);
        assert(Seq::new(
            themes.len(),
            |k: int| menu_line((k + 1) as nat, themes[k], active == Some(themes[k])),
        ) =~= Seq::new(
            init.len(),
            |k: int| menu_line((k + 1) as nat, init[k], active == Some(init[k])),
        ).push(line));
    }
}

/// The interactive menu has one line per theme, in order, and then an
/// empty end: line `k` (counted from 1) is the decimal notation of `k`,
/// `. `, the theme's name and the active mark when it is the active
/// theme. The number before the line's first `. ` reads back as `k` and
/// selects that line's theme on the command line.
pub proof fn law_menu_numbers(themes: Seq<Seq<char>>, active: Option<Seq<char>>)
    requires
        themes.len() <= usize::MAX,
        forall|k: int| 0 <= k < themes.len() ==> !(#[trigger] themes[k]).contains('\n'),
    ensures
        lines_of(menu_text(themes, active)).len() == themes.len() + 1,
        lines_of(menu_text(themes, active)).last() == Seq::<char>::empty(),
        forall|k: int|
            0 <= k < themes.len() ==> {
                let line = #[trigger] lines_of(menu_text(themes, active))[k];
                &&& line == decimal((k + 1) as nat) + ". "@ + themes[k] + if active == Some(
                    themes[k],
                ) {
                    " \u{1b}[32m\u{f005}\u{1b}[0m"@
                } else {
                    seq![]
                }
                &&& find_dot_space_from(line, 0) == Some(decimal((k + 1) as nat).len() as int)
                &&& parse_usize_spec(line.take(decimal((k + 1) as nat).len() as int)) == Some(
                    (k + 1) as usize,
                )
                &&& resolve_spec(line.take(decimal((k + 1) as nat).len() as int), themes) == Some(
                    themes[k],
                )
            },
{
    reveal_strlit(". ");
    let text = menu_text(themes, active);
    lemma_menu_text_lines(themes, active, seq![]);
    assert(text + Seq::<char>::empty() == text);
    lemma_find_char_absent(Seq::<char>::empty(), '\n', 0);
    let ls = lines_of(text);
    assert forall|k: int| 0 <= k < themes.len() implies {
        let line = #[trigger] ls[k];
        &&& line == decimal((k + 1) as nat) + ". "@ + themes[k] + if active == Some(themes[k]) {
            " \u{1b}[32m\u{f005}\u{1b}[0m"@
        } else {
            seq![]
        }
        &&& find_dot_space_from(line, 0) == Some(decimal((k + 1) as nat).len() as int)
        &&& parse_usize_spec(line.take(decimal((k + 1) as nat).len() as int)) == Some(
            (k + 1) as usize,
        )
        &&& resolve_spec(line.take(decimal((k + 1) as nat).len() as int), themes) == Some(
            themes[k],
        )
    } by {
        let line = ls[k];
        let d = decimal((k + 1) as nat);
        lemma_decimal_digits((k + 1) as nat);
        assert(line == menu_line((k + 1) as nat, themes[k], active == Some(themes[k])));
        assert forall|i: int| 0 <= i < d.len() implies line[i] != '.' by {
            assert(line[i] == d[i]);
            assert(is_digit(d[i]));
        }
        lemma_no_dot_space_before(line, 0, d.len() as int);
        assert(line[d.len() as int] == '.');
        assert(line[d.len() + 1int] == ' ');
        assert(line.take(d.len() as int) == d);
        law_parse_decimal((k + 1) as usize);
        law_resolve_by_number((k + 1) as usize, themes);
    }
}

} // verus!
