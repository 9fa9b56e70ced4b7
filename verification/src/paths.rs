//! Where the theme files live: the Termux configuration directory, the
//! themes directory, the active colors file, its backup, and the per-theme
//! `.properties` and compiled `.osc` files.
use vstd::prelude::*;
use crate::text::{push_chars, push_str, str_chars, string_of};

verus! {

/// `base` extended by the path component `comp` (`Path::join` on Unix):
/// an absolute `comp` replaces `base`; otherwise a `/` separates the two
/// unless `base` is empty or already ends with one.
pub open spec fn path_join(base: Seq<char>, comp: Seq<char>) -> Seq<char> {
    if comp.len() > 0 && comp[0] == '/' {
        comp
    } else if base.len() == 0 || base.last() == '/' {
        base + comp
    } else {
        base + seq!['/'] + comp
    }
}

/// The home directory used when none is known.
pub open spec fn default_home() -> Seq<char> {
    "/data/data/com.termux/files/home"@
}

/// The view of an optional string slice.
pub open spec fn opt_str_view(o: Option<&str>) -> Option<Seq<char>> {
    match o {
        Some(s) => Some(s@),
        None => None,
    }
}

/// The Termux configuration directory for the home directory `home`.
pub open spec fn termux_dir(home: Option<Seq<char>>) -> Seq<char> {
    path_join(
        match home {
            Some(h) => h,
            None => default_home(),
        },
        ".termux"@,
    )
}

/// Joins two path strings the way `Path::join` does on Unix.
pub fn join_path(base: &str, comp: &str) -> (p: String)
    ensures
        p@ == path_join(base@, comp@),
{
    let b = str_chars(base);
    let c = str_chars(comp);
    let mut out: Vec<char> = Vec::new();
    if c.len() > 0 && c[0] == '/' {
        push_chars(&mut out, &c);
    } else {
        push_chars(&mut out, &b);
        if !(b.len() == 0 || b[b.len() - 1] == '/') {
            out.push('/');
        }
        push_chars(&mut out, &c);
    }
    assert(out@ =~= path_join(base@, comp@));
    string_of(&out)
}

/// Joins a path with a file name made of `stem` and `ext`.
fn join_file(dir: &str, stem: &str, ext: &str) -> (p: String)
    ensures
        p@ == path_join(dir@, stem@ + ext@),
{
    let mut name: Vec<char> = Vec::new();
    push_str(&mut name, stem);
    push_str(&mut name, ext);
    let name_s = string_of(&name);
    join_path(dir, name_s.as_str())
}

/// The Termux configuration directory: `.termux` under `home`, or under
/// the default Termux home when `home` is unknown.
pub fn get_termux_dir(home: Option<&str>) -> (dir: String)
    ensures
        dir@ == termux_dir(opt_str_view(home)),
{
    match home {
        Some(h) => join_path(h, ".termux"),
        None => join_path("/data/data/com.termux/files/home", ".termux"),
    }
}

/// The directory that holds the theme files.
pub fn get_themes_dir(home: Option<&str>) -> (dir: String)
    ensures
        dir@ == path_join(termux_dir(opt_str_view(home)), "themes"@),
{
    let t = get_termux_dir(home);
    join_path(t.as_str(), "themes")
}

/// The colors file that Termux reads.
pub fn get_color_file(home: Option<&str>) -> (file: String)
    ensures
        file@ == path_join(termux_dir(opt_str_view(home)), "colors.properties"@),
{
    let t = get_termux_dir(home);
    join_path(t.as_str(), "colors.properties")
}

/// The backup made of the colors file before it is overwritten (the colors
/// file with its extension replaced by `properties.bak`).
pub fn get_backup_file(home: Option<&str>) -> (file: String)
    ensures
        file@ == path_join(termux_dir(opt_str_view(home)), "colors.properties.bak"@),
{
    let t = get_termux_dir(home);
    join_path(t.as_str(), "colors.properties.bak")
}

/// The `.properties` file of the theme `name` in `themes_dir`.
pub fn theme_file(themes_dir: &str, name: &str) -> (file: String)
    ensures
        file@ == path_join(themes_dir@, name@ + ".properties"@),
{
    join_file(themes_dir, name, ".properties")
}

/// The compiled `.osc` file of the theme `name` in `themes_dir`.
pub fn osc_file(themes_dir: &str, name: &str) -> (file: String)
    ensures
        file@ == path_join(themes_dir@, name@ + ".osc"@),
{
    join_file(themes_dir, name, ".osc")
}

/// Whether the compiled `.osc` file must be rebuilt: unless both
/// modification times are known and the `.properties` file is not newer.
pub fn needs_compile(prop_modified: Option<i128>, osc_modified: Option<i128>) -> (b: bool)
    ensures
        b == match (prop_modified, osc_modified) {
            (Some(p), Some(o)) => p > o,
            _ => true,
        },
{
    match (prop_modified, osc_modified) {
        (Some(p), Some(o)) => p > o,
        _ => true,
    }
}

/// The backup of the colors file sits beside it, named with `.bak` added.
pub proof fn law_backup_beside_colors(home: Option<Seq<char>>)
    ensures
        path_join(termux_dir(home), "colors.properties.bak"@) == path_join(
            termux_dir(home),
            "colors.properties"@,
        ) + ".bak"@,
{
    reveal_strlit("colors.properties.bak");
    reveal_strlit("colors.properties");
    reveal_strlit(".bak");
    assert("colors.properties.bak"@ == "colors.properties"@ + ".bak"@);
    let b = termux_dir(home);
    if b.len() == 0 || b.last() == '/' {
        assert(b + ("colors.properties"@ + ".bak"@) == (b + "colors.properties"@) + ".bak"@);
    } else {
        assert(b + seq!['/'] + ("colors.properties"@ + ".bak"@) == (b + seq!['/']
            + "colors.properties"@) + ".bak"@);
    }
}

} // verus!
