//! Turning a `.properties` color theme into the OSC escape sequences that
//! recolor a running terminal.
use vstd::prelude::*;
use crate::text::{
    all_digits, all_digits_chars, eq_lit, find_char, find_char_from, is_digit, is_ws,
    lemma_find_char_absent, lemma_find_char_bounds, lemma_find_char_shift, lemma_trim_unchanged,
    push_chars, push_str, str_chars, string_of, strip_prefix_lit, sub_chars, trim, trim_chars,
};

verus! {

/// The first index at or after `i` holding a key/value separator (`=` or `:`).
pub open spec fn find_separator_from(s: Seq<char>, i: int) -> Option<int>
    decreases s.len() - i,
{
    if i < 0 || i >= s.len() {
        None
    } else if s[i] == '=' || s[i] == ':' {
        Some(i)
    } else {
        find_separator_from(s, i + 1)
    }
}

/// The escape sequence that sets the color slot named by `key` to `val`,
/// or nothing when `key` names no slot: `background` is OSC 11,
/// `foreground` OSC 10, `cursor` OSC 12, and `color<digits>` sets palette
/// entry `<digits>` with OSC 4.
pub open spec fn entry_osc(key: Seq<char>, val: Seq<char>) -> Seq<char> {
    if key == "background"@ {
        "\u{1b}]11;"@ + val + "\u{1b}\\"@
    } else if key == "foreground"@ {
        "\u{1b}]10;"@ + val + "\u{1b}\\"@
    } else if key == "cursor"@ {
        "\u{1b}]12;"@ + val + "\u{1b}\\"@
    } else if "color"@.len() <= key.len() && key.take("color"@.len() as int) == "color"@
        && all_digits(key.skip("color"@.len() as int)) {
        "\u{1b}]4;"@ + key.skip("color"@.len() as int) + ";"@ + val + "\u{1b}\\"@
    } else {
        seq![]
    }
}

/// The escape sequence for one line of a theme file. Blank lines, lines
/// whose first non-blank character is `#` or `!`, and lines without `=` or
/// `:` give nothing; otherwise the text before the first `=` or `:` is the
/// key and the text after it the value, both trimmed.
pub open spec fn line_osc(line: Seq<char>) -> Seq<char> {
    let t = trim(line);
    if t.len() == 0 || t[0] == '#' || t[0] == '!' {
        seq![]
    } else {
        match find_separator_from(t, 0) {
            None => seq![],
            Some(k) => entry_osc(trim(t.take(k)), trim(t.skip(k + 1))),
        }
    }
}

/// The escape sequences for a whole theme file: the sequences of its
/// lines, in order, where lines end at each `\n`.
pub open spec fn osc_text(content: Seq<char>) -> Seq<char>
    decreases content.len(),
{
    match find_char(content, '\n') {
        None => line_osc(content),
        Some(k) => {
            proof {
                lemma_find_char_bounds(content, '\n', 0);
            }
            line_osc(content.take(k)) + osc_text(content.skip(k + 1))
        },
    }
}

/// A theme file made of two parts joined at a line break compiles to the
/// sequences of the first part followed by those of the second: each line
/// is compiled on its own.
pub proof fn law_osc_lines_compose(a: Seq<char>, b: Seq<char>)
    ensures
        osc_text(a + seq!['\n'] + b) == osc_text(a) + osc_text(b),
    decreases a.len(),
{
    let s = a + seq!['\n'] + b;
    lemma_find_char_shift(a, seq!['\n'] + b, '\n', 0);
    assert(s == a + (seq!['\n'] + b));
    assert(find_char_from(seq!['\n'] + b, '\n', 0) == Some(0int));
    lemma_find_char_bounds(a, '\n', 0);
    match find_char(a, '\n') {
        None => {
            assert(s.take(a.len() as int) == a);
            assert(s.skip(a.len() + 1int) == b);
        },
        Some(k) => {
            assert(s.take(k) == a.take(k));
            assert(s.skip(k + 1) == a.skip(k + 1) + seq!['\n'] + b);
            law_osc_lines_compose(a.skip(k + 1), b);
            assert(osc_text(s) == line_osc(a.take(k)) + (osc_text(a.skip(k + 1)) + osc_text(b)));
        },
    }
}

proof fn lemma_no_separator_before(s: Seq<char>, i: int, j: int)
    requires
        0 <= i <= j,
        forall|k: int| i <= k < j ==> s[k] != '=' && s[k] != ':',
    ensures
        find_separator_from(s, i) == find_separator_from(s, j),
    decreases j - i,
{
    if i < j {
        lemma_no_separator_before(s, i + 1, j);
    }
}

/// A value as a theme file line carries it after trimming: on one line,
/// neither starting nor ending with whitespace.
pub open spec fn plain_value(v: Seq<char>) -> bool {
    &&& !v.contains('\n')
    &&& v.len() > 0 ==> !is_ws(v[0]) && !is_ws(v.last())
}

/// A line `key=v` or `key:v`, with a key that holds no separator and
/// needs no trimming, compiles to the sequence for that entry.
proof fn lemma_entry_line(key: Seq<char>, sep: char, v: Seq<char>)
    requires
        sep == '=' || sep == ':',
        key.len() > 0,
        !key.contains('='),
        !key.contains(':'),
        !key.contains('\n'),
        !is_ws(key[0]),
        !is_ws(key.last()),
        key[0] != '#',
        key[0] != '!',
        plain_value(v),
    ensures
        osc_text(key + seq![sep] + v) == entry_osc(key, v),
{
    let line = key + seq![sep] + v;
    let n = key.len() as int;
    assert(line[0] == key[0]);
    if v.len() > 0 {
        assert(line.last() == v.last());
    } else {
        assert(line.last() == sep);
    }
    lemma_trim_unchanged(line);
    assert forall|k: int| 0 <= k < n implies line[k] != '=' && line[k] != ':' by {
        assert(line[k] == key[k]);
    }
    lemma_no_separator_before(line, 0, n);
    assert(line[n] == sep);
    assert(find_separator_from(line, 0) == Some(n));
    assert(line.take(n) == key);
    assert(line.skip(n + 1) == v);
    lemma_trim_unchanged(key);
    if v.len() > 0 {
        lemma_trim_unchanged(v);
    }
    assert(!line.contains('\n')) by {
        if line.contains('\n') {
            let k = choose|k: int| 0 <= k < line.len() && line[k] == '\n';
            if k < n {
                assert(key[k] == '\n');
            } else if k > n {
                assert(v[k - n - 1] == '\n');
            }
        }
    }
    lemma_find_char_absent(line, '\n', 0);
}

/// A palette line `color<d>=v` sets palette slot `d`, the key's own
/// digits unchanged, to `v` with OSC 4.
pub proof fn law_palette_entry(d: Seq<char>, v: Seq<char>)
    requires
        all_digits(d),
        plain_value(v),
    ensures
        osc_text("color"@ + d + "="@ + v) == "\u{1b}]4;"@ + d + ";"@ + v + "\u{1b}\\"@,
{
    reveal_strlit("color");
    reveal_strlit("background");
    reveal_strlit("foreground");
    reveal_strlit("cursor");
    let key = "color"@ + d;
    assert forall|k: int| 0 <= k < key.len() implies key[k] != '=' && key[k] != ':' && key[k]
        != '\n' by {
        if k >= 5 {
            assert(key[k] == d[k - 5]);
            assert(is_digit(d[k - 5]));
        }
    }
    if d.len() > 0 {
        assert(key.last() == d.last());
        assert(is_digit(d[d.len() - 1]));
    }
    reveal_strlit("=");
    assert("="@ == seq!['=']);
    lemma_entry_line(key, '=', v);
    assert(key[0] != "background"@[0]);
    assert(key[0] != "foreground"@[0]);
    assert(key.len() != 6 || key[1] != "cursor"@[1]);
    assert(key.take(5) == "color"@);
    assert(key.skip(5) == d);
}

/// The `background`, `foreground` and `cursor` lines set their slots
/// with OSC 11, 10 and 12.
pub proof fn law_special_entries(v: Seq<char>)
    requires
        plain_value(v),
    ensures
        osc_text("background"@ + "="@ + v) == "\u{1b}]11;"@ + v + "\u{1b}\\"@,
        osc_text("foreground"@ + "="@ + v) == "\u{1b}]10;"@ + v + "\u{1b}\\"@,
        osc_text("cursor"@ + "="@ + v) == "\u{1b}]12;"@ + v + "\u{1b}\\"@,
{
    reveal_strlit("background");
    reveal_strlit("foreground");
    reveal_strlit("cursor");
    reveal_strlit("=");
    assert("="@ == seq!['=']);
    lemma_entry_line("background"@, '=', v);
    lemma_entry_line("foreground"@, '=', v);
    lemma_entry_line("cursor"@, '=', v);
}

/// `:` separates a key from its value just as `=` does.
pub proof fn law_colon_separator(key: Seq<char>, v: Seq<char>)
    requires
        key.len() > 0,
        !key.contains('='),
        !key.contains(':'),
        !key.contains('\n'),
        !is_ws(key[0]),
        !is_ws(key.last()),
        key[0] != '#',
        key[0] != '!',
        plain_value(v),
    ensures
        osc_text(key + ":"@ + v) == osc_text(key + "="@ + v),
{
    reveal_strlit("=");
    reveal_strlit(":");
    assert("="@ == seq!['=']);
    assert(":"@ == seq![':']);
    lemma_entry_line(key, '=', v);
    lemma_entry_line(key, ':', v);
}

/// Comment lines, those whose first non-blank character is `#` or `!`,
/// and blank lines set nothing.
pub proof fn law_comments_set_nothing(line: Seq<char>)
    requires
        !line.contains('\n'),
        trim(line).len() == 0 || trim(line)[0] == '#' || trim(line)[0] == '!',
    ensures
        osc_text(line) == Seq::<char>::empty(),
{
    lemma_find_char_absent(line, '\n', 0);
}

/// The first index of `=` or `:` in `v`, if any.
fn find_separator(v: &Vec<char>) -> (r: Option<usize>)
    ensures
        r matches Some(i) ==> i < v.len() && find_separator_from(v@, 0) == Some(i as int),
        r is None ==> find_separator_from(v@, 0) is None,
{
    let mut i: usize = 0;
    while i < v.len()
        invariant
            i <= v.len(),
            find_separator_from(v@, 0) == find_separator_from(v@, i as int),
        decreases v.len() - i,
    {
        if v[i] == '=' || v[i] == ':' {
            return Some(i);
        }
        i = i + 1;
    }
    None
}

/// Appends `prefix`, `val` and the string terminator to `out`.
fn push_osc(out: &mut Vec<char>, prefix: &str, val: &Vec<char>)
    ensures
        final(out)@ == old(out)@ + (prefix@ + val@ + "\u{1b}\\"@),
{
    push_str(out, prefix);
    push_chars(out, val);
    push_str(out, "\u{1b}\\");
    assert(out@ =~= old(out)@ + (prefix@ + val@ + "\u{1b}\\"@));
}

/// Appends the escape sequence for the theme entry `key = val` to `out`.
fn push_entry_osc(out: &mut Vec<char>, key: &Vec<char>, val: &Vec<char>)
    ensures
        final(out)@ == old(out)@ + entry_osc(key@, val@),
{
    if eq_lit(key, "background") {
        push_osc(out, "\u{1b}]11;", val);
    } else if eq_lit(key, "foreground") {
        push_osc(out, "\u{1b}]10;", val);
    } else if eq_lit(key, "cursor") {
        push_osc(out, "\u{1b}]12;", val);
    } else {
        match strip_prefix_lit(key, "color") {
            Some(num) => {
                if all_digits_chars(&num) {
                    push_str(out, "\u{1b}]4;");
                    push_chars(out, &num);
                    push_str(out, ";");
                    push_chars(out, val);
                    push_str(out, "\u{1b}\\");
                    assert(out@ =~= old(out)@ + entry_osc(key@, val@));
                } else {
                    assert(out@ =~= old(out)@ + entry_osc(key@, val@));
                }
            },
            None => {
                assert(out@ =~= old(out)@ + entry_osc(key@, val@));
            },
        }
    }
}

/// Appends the escape sequence for one theme file line to `out`.
fn push_line_osc(out: &mut Vec<char>, line: &Vec<char>)
    ensures
        final(out)@ == old(out)@ + line_osc(line@),
{
    let t = trim_chars(line);
    if t.len() == 0 || t[0] == '#' || t[0] == '!' {
        assert(out@ =~= old(out)@ + line_osc(line@));
        return;
    }
    match find_separator(&t) {
        None => {
            assert(out@ =~= old(out)@ + line_osc(line@));
        },
        Some(k) => {
            let key = trim_chars(&sub_chars(&t, 0, k));
            let val = trim_chars(&sub_chars(&t, k + 1, t.len()));
            assert(t@.subrange(0, k as int) == t@.take(k as int));
            assert(t@.subrange(k + 1, t@.len() as int) == t@.skip(k + 1));
            push_entry_osc(out, &key, &val);
        },
    }
}

/// The OSC escape sequences that apply the colors of a theme file: one
/// sequence per `background`, `foreground`, `cursor` or `color<N>` entry,
/// in the order of the file's lines.
pub fn compile_osc_from_content(content: &str) -> (osc: String)
    ensures
        osc@ == osc_text(content@),
{
    let v = str_chars(content);
    let n = v.len();
    let mut out: Vec<char> = Vec::new();
    let mut i: usize = 0;
    assert(v@.skip(0) == v@);
    loop
        invariant
            i <= n == v.len(),
            v@ == content@,
            osc_text(content@) == out@ + osc_text(v@.skip(i as int)),
        decreases n - i,
    {
        let ghost s = v@.skip(i as int);
        let mut j = i;
        while j < n && v[j] != '\n'
            invariant
                i <= j <= n == v.len(),
                s == v@.skip(i as int),
                find_char(s, '\n') == find_char_from(s, '\n', j - i),
            decreases n - j,
        {
            assert(s[j - i] == v@[j as int]);
            j = j + 1;
        }
        let line = sub_chars(&v, i, j);
        let ghost before = out@;
        push_line_osc(&mut out, &line);
        if j == n {
            assert(find_char_from(s, '\n', j - i) is None);
            assert(line@ == s);
            assert(out@ =~= before + osc_text(s));
            return string_of(&out);
        }
        assert(s[j - i] == v@[j as int]);
        assert(find_char(s, '\n') == Some(j - i));
        assert(line@ == s.take(j - i));
        assert(s.skip(j - i + 1) == v@.skip(j + 1));
        assert(osc_text(s) == line_osc(line@) + osc_text(v@.skip(j + 1)));
        assert(out@ + osc_text(v@.skip(j + 1)) =~= before + osc_text(s));
        i = j + 1;
    }
}

} // verus!
