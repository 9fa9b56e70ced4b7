//! The list of available themes: which files are themes, their sorted
//! names, and which theme the active colors file matches.
use vstd::prelude::*;
use crate::names::{opt_view, string_views};
use crate::text::{eq_lit, str_chars, string_of, strip_suffixes, strip_suffixes_chars, sub_chars, views};

verus! {

broadcast use vstd::seq_lib::group_to_multiset_ensures;

/// The last index where `s` holds `c`, if any.
pub open spec fn rfind_char(s: Seq<char>, c: char) -> Option<int>
    decreases s.len(),
{
    if s.len() == 0 {
        None
    } else if s.last() == c {
        Some(s.len() - 1)
    } else {
        rfind_char(s.drop_last(), c)
    }
}

/// The theme name of a file called `name`: its stem, when its extension is
/// `properties` (`Path::extension` and `Path::file_stem`: the extension
/// follows the last `.`, which must not be the first character).
pub open spec fn properties_stem(name: Seq<char>) -> Option<Seq<char>> {
    match rfind_char(name, '.') {
        Some(p) => if p > 0 && name.skip(p + 1) == "properties"@ {
            Some(name.take(p))
        } else {
            None
        },
        None => None,
    }
}

/// The theme names among the file names `names`, in their order.
pub open spec fn theme_stems(names: Seq<Seq<char>>) -> Seq<Seq<char>>
    decreases names.len(),
{
    if names.len() == 0 {
        seq![]
    } else {
        theme_stems(names.drop_last()) + match properties_stem(names.last()) {
            Some(s) => seq![s],
            None => seq![],
        }
    }
}

/// Whether `a` comes no later than `b` in the order of `String`'s `Ord`
/// (lexicographic by character code).
pub open spec fn lex_le(a: Seq<char>, b: Seq<char>) -> bool
    decreases a.len(),
{
    if a.len() == 0 {
        true
    } else if b.len() == 0 {
        false
    } else if a[0] != b[0] {
        (a[0] as int) < (b[0] as int)
    } else {
        lex_le(a.drop_first(), b.drop_first())
    }
}

/// Whether `s` is in ascending order.
pub open spec fn sorted(s: Seq<Seq<char>>) -> bool {
    forall|i: int, j: int| 0 <= i < j < s.len() ==> lex_le(#[trigger] s[i], #[trigger] s[j])
}

/// Any two strings are ordered one way or the other.
pub proof fn lemma_lex_total(a: Seq<char>, b: Seq<char>)
    ensures
        lex_le(a, b) || lex_le(b, a),
    decreases a.len(),
{
    if a.len() > 0 && b.len() > 0 {
        if a[0] == b[0] {
            lemma_lex_total(a.drop_first(), b.drop_first());
        } else {
            assert((a[0] as int) != (b[0] as int));
        }
    }
}

/// The order is transitive.
pub proof fn lemma_lex_trans(a: Seq<char>, b: Seq<char>, c: Seq<char>)
    requires
        lex_le(a, b),
        lex_le(b, c),
    ensures
        lex_le(a, c),
    decreases a.len(),
{
    if a.len() > 0 && b.len() > 0 && c.len() > 0 && a[0] == b[0] && b[0] == c[0] {
        lemma_lex_trans(a.drop_first(), b.drop_first(), c.drop_first());
    }
}

/// The last index of `.` in `v`, if any.
fn rfind_dot(v: &Vec<char>) -> (r: Option<usize>)
    ensures
        r matches Some(p) ==> p < v.len() && rfind_char(v@, '.') == Some(p as int),
        r is None ==> rfind_char(v@, '.') is None,
{
    let mut i = v.len();
    assert(v@.take(i as int) == v@);
    while i > 0
        invariant
            i <= v.len(),
            rfind_char(v@, '.') == rfind_char(v@.take(i as int), '.'),
        decreases i,
    {
        if v[i - 1] == '.' {
            return Some(i - 1);
        }
        assert(v@.take(i as int).drop_last() == v@.take(i - 1));
        i = i - 1;
    }
    None
}

/// The theme named by the file `file_name`: the file's stem when its
/// extension is `properties`, otherwise `None`.
pub fn theme_stem(file_name: &str) -> (r: Option<String>)
    ensures
        opt_view(r) == properties_stem(file_name@),
{
    let v = str_chars(file_name);
    match rfind_dot(&v) {
        Some(p) => {
            if p > 0 {
                let ext = sub_chars(&v, p + 1, v.len());
                assert(ext@ == v@.skip(p + 1));
                if eq_lit(&ext, "properties") {
                    assert(v@.subrange(0, p as int) == v@.take(p as int));
                    return Some(string_of(&sub_chars(&v, 0, p)));
                }
            }
            None
        },
        None => None,
    }
}

/// Whether `a` comes no later than `b`.
fn lex_le_chars(a: &Vec<char>, b: &Vec<char>) -> (r: bool)
    ensures
        r == lex_le(a@, b@),
{
    let mut i: usize = 0;
    assert(a@.skip(0) == a@);
    assert(b@.skip(0) == b@);
    loop
        invariant
            i <= a.len(),
            i <= b.len(),
            lex_le(a@, b@) == lex_le(a@.skip(i as int), b@.skip(i as int)),
        decreases a.len() - i,
    {
        if i == a.len() {
            return true;
        }
        if i == b.len() {
            return false;
        }
        assert(a@.skip(i as int)[0] == a@[i as int]);
        assert(b@.skip(i as int)[0] == b@[i as int]);
        if a[i] != b[i] {
            return a[i] < b[i];
        }
        assert(a@.skip(i as int).drop_first() == a@.skip(i + 1));
        assert(b@.skip(i as int).drop_first() == b@.skip(i + 1));
        i = i + 1;
    }
}

/// Inserts `x` into the ascending `out`, after the entries that are not greater.
fn insert_sorted(out: &mut Vec<Vec<char>>, x: Vec<char>)
    requires
        sorted(views(old(out)@)),
    ensures
        sorted(views(final(out)@)),
        views(final(out)@).to_multiset() == views(old(out)@).to_multiset().insert(x@),
{
    let ghost old_views = views(out@);
    let mut pos: usize = 0;
    while pos < out.len() && lex_le_chars(&out[pos], &x)
        invariant
            pos <= out.len(),
            out@ == old(out)@,
            old_views == views(out@),
            sorted(old_views),
            forall|k: int| 0 <= k < pos ==> lex_le(#[trigger] old_views[k], x@),
        decreases out.len() - pos,
    {
        pos = pos + 1;
    }
    proof {
        if pos < out.len() {
            lemma_lex_total(old_views[pos as int], x@);
        }
    }
    let ghost xv = x@;
    out.insert(pos, x);
    let ghost new_views = views(out@);
    assert(new_views =~= old_views.insert(pos as int, xv));
    assert forall|i: int, j: int| 0 <= i < j < new_views.len() implies lex_le(
        #[trigger] new_views[i],
        #[trigger] new_views[j],
    ) by {
        if j < pos {
            assert(lex_le(old_views[i], old_views[j]));
        } else if j == pos {
            assert(lex_le(old_views[i], xv));
        } else if i == pos {
            assert(lex_le(xv, old_views[pos as int]));
            if j - 1 > pos {
                assert(lex_le(old_views[pos as int], old_views[j - 1]));
                lemma_lex_trans(xv, old_views[pos as int], old_views[j - 1]);
            }
        } else if i < pos {
            assert(lex_le(old_views[i], xv));
            assert(lex_le(xv, old_views[pos as int]));
            lemma_lex_trans(old_views[i], xv, old_views[pos as int]);
            if j - 1 > pos {
                assert(lex_le(old_views[pos as int], old_views[j - 1]));
                lemma_lex_trans(old_views[i], old_views[pos as int], old_views[j - 1]);
            }
        } else {
            assert(lex_le(old_views[i - 1], old_views[j - 1]));
        }
    }
}

/// The available themes among the files called `names`: the stems of the
/// `.properties` files, in ascending order.
pub fn collect_themes(names: &Vec<String>) -> (themes: Vec<String>)
    ensures
        sorted(string_views(themes@)),
        string_views(themes@).to_multiset() == theme_stems(string_views(names@)).to_multiset(),
{
    let ghost all = string_views(names@);
    let mut out: Vec<Vec<char>> = Vec::new();
    let mut i: usize = 0;
    assert(views(out@) =~= Seq::<Seq<char>>::empty());
    while i < names.len()
        invariant
            i <= names.len(),
            all == string_views(names@),
            sorted(views(out@)),
            views(out@).to_multiset() == theme_stems(all.take(i as int)).to_multiset(),
        decreases names.len() - i,
    {
        assert(all.take(i + 1).drop_last() == all.take(i as int));
        assert(all.take(i + 1).last() == names@[i as int]@);
        match theme_stem(names[i].as_str()) {
            Some(stem) => {
                let sv = str_chars(stem.as_str());
                insert_sorted(&mut out, sv);
                assert(theme_stems(all.take(i + 1)) == theme_stems(all.take(i as int)).push(
                    sv@,
                ));
            },
            None => {
                assert(theme_stems(all.take(i + 1)) =~= theme_stems(all.take(i as int)));
            },
        }
        i = i + 1;
    }
    assert(all.take(names.len() as int) == all);
    let mut res: Vec<String> = Vec::new();
    let mut k: usize = 0;
    while k < out.len()
        invariant
            k <= out.len(),
            string_views(res@) == views(out@).take(k as int),
        decreases out.len() - k,
    {
        let ghost before = res@;
        assert(string_views(before).len() == before.len());
        assert(views(out@).take(k as int).len() == k);
        let s = string_of(&out[k]);
        res.push(s);
        assert(res@ == before.push(s));
        assert(views(out@)[k as int] == out@[k as int]@);
        assert(string_views(res@).len() == k + 1);
        assert forall|j: int| 0 <= j < k + 1 implies #[trigger] string_views(res@)[j] == views(out@).take(k + 1)[j] by {
            if j < k {
                assert(string_views(before)[j] == views(out@).take(k as int)[j]);
            }
        }
        assert(string_views(res@) =~= views(out@).take(k + 1));
        k = k + 1;
    }
    assert(views(out@).take(out.len() as int) == views(out@));
    res
}

/// The name under which `save-as` stores the current colors: the argument
/// without any trailing `.properties`.
pub fn save_as_name(arg: &str) -> (name: String)
    ensures
        name@ == strip_suffixes(arg@, ".properties"@),
{
    let v = str_chars(arg);
    string_of(&strip_suffixes_chars(&v, ".properties"))
}

/// Whether the theme content `c` is present and equal to `current`.
pub open spec fn same_content(c: Option<Vec<u8>>, current: Seq<u8>) -> bool {
    c matches Some(bytes) && bytes@ == current
}

/// Whether two byte vectors are equal.
fn bytes_eq(a: &Vec<u8>, b: &Vec<u8>) -> (r: bool)
    ensures
        r == (a@ == b@),
{
    if a.len() != b.len() {
        return false;
    }
    let mut i: usize = 0;
    while i < a.len()
        invariant
            i <= a.len() == b.len(),
            forall|j: int| 0 <= j < i ==> a@[j] == b@[j],
        decreases a.len() - i,
    {
        if a[i] != b[i] {
            return false;
        }
        i = i + 1;
    }
    assert(a@ =~= b@);
    true
}

/// The active theme: the first theme whose file content equals the content
/// of the colors file. `current` is the colors file's content (`None` when
/// it cannot be read) and `contents[i]` that of the `i`-th theme's file
/// (`None` when it cannot be read, as for an index past its end).
pub fn get_current_active_theme(
    themes: &Vec<String>,
    current: Option<&Vec<u8>>,
    contents: &Vec<Option<Vec<u8>>>,
) -> (r: Option<String>)
    ensures
        current is None ==> r is None,
        current matches Some(cur) ==> {
            &&& r is None ==> forall|i: int|
                0 <= i < themes.len() && i < contents.len() ==> !same_content(
                    #[trigger] contents@[i],
                    cur@,
                )
            &&& r matches Some(t) ==> exists|i: int|
                {
                    &&& 0 <= i < themes.len()
                    &&& i < contents.len()
                    &&& same_content(contents@[i], cur@)
                    &&& t@ == themes@[i]@
                    &&& forall|j: int| 0 <= j < i ==> !same_content(#[trigger] contents@[j], cur@)
                }
        },
{
    match current {
        None => None,
        Some(cur) => {
            let mut i: usize = 0;
            while i < themes.len() && i < contents.len()
                invariant
                    i <= themes.len(),
                    current == Some(cur),
                    forall|j: int| 0 <= j < i ==> !same_content(#[trigger] contents@[j], cur@),
                decreases themes.len() - i,
            {
                match &contents[i] {
                    Some(bytes) => {
                        if bytes_eq(bytes, cur) {
                            let t = themes[i].clone();
                            assert(same_content(contents@[i as int], cur@));
                            return Some(t);
                        }
                    },
                    None => {},
                }
                i = i + 1;
            }
            None
        },
    }
}

/// The theme picked by `random`: the clock's sub-second nanoseconds modulo
/// the number of themes.
pub fn random_index(nanos: u32, count: usize) -> (i: usize)
    requires
        count > 0,
    ensures
        i == nanos as nat % count as nat,
        i < count,
{
    (nanos as usize) % count
}

proof fn lemma_rfind_after(a: Seq<char>, b: Seq<char>, c: char)
    requires
        !b.contains(c),
    ensures
        rfind_char(a + b, c) == match rfind_char(a, c) {
            Some(p) => Some(p),
            None => None::<int>,
        },
    decreases b.len(),
{
    if b.len() == 0 {
        assert(a + b == a);
    } else {
        assert((a + b).drop_last() == a + b.drop_last());
        assert(b.last() != c);
        assert(!b.drop_last().contains(c)) by {
            if b.drop_last().contains(c) {
                let i = choose|i: int| 0 <= i < b.drop_last().len() && b.drop_last()[i] == c;
                assert(b[i] == c);
            }
        }
        lemma_rfind_after(a, b.drop_last(), c);
    }
}

/// A theme stored under a non-empty name `name` (in `name.properties`) is
/// listed under that same name.
pub proof fn law_stored_theme_is_listed(name: Seq<char>)
    requires
        name.len() > 0,
    ensures
        properties_stem(name + ".properties"@) == Some(name),
{
    reveal_strlit(".properties");
    reveal_strlit("properties");
    let ext = "properties"@;
    assert(".properties"@ == seq!['.'] + ext);
    assert(!ext.contains('.')) by {
        if ext.contains('.') {
            let i = choose|i: int| 0 <= i < ext.len() && ext[i] == '.';
            assert(ext[i] != '.');
        }
    }
    let s = name + ".properties"@;
    assert(s == (name + seq!['.']) + ext);
    lemma_rfind_after(name + seq!['.'], ext, '.');
    assert(rfind_char(name + seq!['.'], '.') == Some(name.len() as int));
    assert(s.skip(name.len() + 1int) == ext);
    assert(s.take(name.len() as int) == name);
}

proof fn lemma_rfind_found(s: Seq<char>, c: char)
    ensures
        rfind_char(s, c) matches Some(p) ==> 0 <= p < s.len() && s[p] == c,
    decreases s.len(),
{
    if s.len() > 0 && s.last() != c {
        lemma_rfind_found(s.drop_last(), c);
    }
}

/// A file name is determined by its theme name: it is the name followed by `.properties`.
proof fn lemma_stem_determines_name(name: Seq<char>)
    ensures
        properties_stem(name) matches Some(t) ==> name == t + ".properties"@,
{
    reveal_strlit(".properties");
    reveal_strlit("properties");
    lemma_rfind_found(name, '.');
    if let Some(t) = properties_stem(name) {
        let p = rfind_char(name, '.')->0;
        assert(".properties"@ == seq!['.'] + "properties"@);
        assert(name =~= name.take(p) + seq!['.'] + name.skip(p + 1));
    }
}

proof fn lemma_stems_come_from_names(ns: Seq<Seq<char>>, t: Seq<char>)
    requires
        theme_stems(ns).contains(t),
    ensures
        exists|i: int| 0 <= i < ns.len() && properties_stem(#[trigger] ns[i]) == Some(t),
    decreases ns.len(),
{
    let prev = theme_stems(ns.drop_last());
    let k = choose|k: int| 0 <= k < theme_stems(ns).len() && theme_stems(ns)[k] == t;
    if k < prev.len() {
        assert(prev[k] == t);
        lemma_stems_come_from_names(ns.drop_last(), t);
        let i = choose|i: int| 0 <= i < ns.drop_last().len() && properties_stem(
            #[trigger] ns.drop_last()[i],
        ) == Some(t);
        assert(ns[i] == ns.drop_last()[i]);
    } else {
        assert(properties_stem(ns[ns.len() - 1]) == Some(t));
    }
}

proof fn lemma_distinct_names_distinct_stems(ns: Seq<Seq<char>>)
    requires
        ns.no_duplicates(),
    ensures
        theme_stems(ns).no_duplicates(),
    decreases ns.len(),
{
    if ns.len() > 0 {
        let init = ns.drop_last();
        assert(init.no_duplicates());
        lemma_distinct_names_distinct_stems(init);
        let prev = theme_stems(init);
        if let Some(t) = properties_stem(ns.last()) {
            if prev.contains(t) {
                lemma_stems_come_from_names(init, t);
                let i = choose|i: int| 0 <= i < init.len() && properties_stem(#[trigger] init[i]) == Some(t);
                lemma_stem_determines_name(init[i]);
                lemma_stem_determines_name(ns.last());
                assert(ns[i] == ns[ns.len() - 1]);
            }
            let all = theme_stems(ns);
            assert(all == prev.push(t));
            assert forall|a: int, b: int| 0 <= a < all.len() && 0 <= b < all.len() && a != b
                implies all[a] != all[b] by {
                if a < prev.len() && b < prev.len() {
                    assert(prev[a] != prev[b]);
                } else if a < prev.len() {
                    assert(prev.contains(prev[a]));
                } else if b < prev.len() {
                    assert(prev.contains(prev[b]));
                }
            }
        } else {
            assert(theme_stems(ns) == prev);
        }
    }
}

/// Distinct file names give distinct themes: a list collected from a
/// directory never shows one theme twice.
pub proof fn law_distinct_files_distinct_themes(names: Seq<Seq<char>>, themes: Seq<Seq<char>>)
    requires
        names.no_duplicates(),
        themes.to_multiset() == theme_stems(names).to_multiset(),
    ensures
        themes.no_duplicates(),
{
    lemma_distinct_names_distinct_stems(names);
    theme_stems(names).lemma_multiset_has_no_duplicates();
    themes.lemma_multiset_has_no_duplicates_conv();
}

} // verus!
