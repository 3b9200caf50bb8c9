//! Steam library manifests: `libraryfolders.vdf` and `appmanifest_*.acf`,
//! and the list of installed games built from them.
use vstd::prelude::*;

use crate::number::{parse_u32, parse_u32_spec};
use crate::text::{
    chars_of, lex_less, lex_lt, collapse_backslashes, collapse_backslashes_chars, copy_range, find_char,
    ascii_lower, first_index, has_char, has_char_exec, is_ascii, lowercase, lowercase_chars, split, split_chars,
    starts_with, starts_with_chars, string_of, trim, trim_chars, trim_quotes, trim_quotes_chars,
    views, to_lowercase,
};

verus! {

/// An installed game that uses the Steam API.
#[derive(Debug)]
pub struct SteamGame {
    pub app_id: u32,
    pub name: String,
    pub install_dir: String,
    pub has_x86: bool,
    pub has_x64: bool,
    pub cream_api_applied: bool,
}

/// What an app manifest (`.acf`) says of a game.
#[derive(Debug)]
pub struct AcfManifest {
    pub app_id: u32,
    pub name: String,
    pub install_dir: String,
}

/// Which Steam API files a directory holds: `steam_api.dll`,
/// `steam_api64.dll`, and one of the `*_o.dll` originals that CreamAPI keeps.
#[derive(Debug, Clone, Copy, PartialEq, Eq, Structural)]
pub struct DllProbe {
    pub has_x86: bool,
    pub has_x64: bool,
    pub applied: bool,
}

/// How many directory levels below a game's install directory are searched
/// for the Steam API files.
pub const MAX_SEARCH_DEPTH: u32 = 4;

/// A copy of a game record.
pub fn copy_game(g: &SteamGame) -> (r: SteamGame)
    ensures
        r == *g,
{
    SteamGame {
        app_id: g.app_id,
        name: g.name.clone(),
        install_dir: g.install_dir.clone(),
        has_x86: g.has_x86,
        has_x64: g.has_x64,
        cream_api_applied: g.cream_api_applied,
    }
}

// ---------------------------------------------------------------------------
// VDF values and library folders

/// The value of a VDF line such as `"key"  "value"`: the fourth piece between
/// double quotes, with each doubled backslash made single.
pub open spec fn vdf_value(line: Seq<char>) -> Option<Seq<char>> {
    let parts = split(line, '"');
    if parts.len() >= 4 {
        Some(collapse_backslashes(parts[3]))
    } else {
        None
    }
}

/// Extracts the value of a VDF line like `"key" "value"`.
pub fn extract_vdf_value(line: &str) -> (r: Option<String>)
    ensures
        r matches Some(v) ==> vdf_value(line@) == Some(v@),
        r is None ==> vdf_value(line@) is None,
{
    let cs = chars_of(line);
    extract_vdf_value_chars(&cs).map(|v: Vec<char>| -> (s: String)
        ensures
            s@ == v@,
        { string_of(&v) })
}

fn extract_vdf_value_chars(line: &[char]) -> (r: Option<Vec<char>>)
    ensures
        r matches Some(v) ==> vdf_value(line@) == Some(v@),
        r is None ==> vdf_value(line@) is None,
{
    let parts = split_chars(line, '"');
    if parts.len() >= 4 {
        assert(views(parts@)[3] == parts@[3]@);
        Some(collapse_backslashes_chars(&parts[3]))
    } else {
        None
    }
}

/// The key that marks a library's path in `libraryfolders.vdf`.
pub open spec fn path_key() -> Seq<char> {
    seq!['"', 'p', 'a', 't', 'h', '"']
}

/// The library paths named in the lines of `libraryfolders.vdf`, in order:
/// the value of each line that, trimmed, begins with `"path"`.
pub open spec fn vdf_paths(lines: Seq<Seq<char>>) -> Seq<Seq<char>>
    decreases lines.len(),
{
    if lines.len() == 0 {
        Seq::empty()
    } else {
        let rest = vdf_paths(lines.drop_last());
        let t = trim(lines.last());
        if starts_with(t, path_key()) && vdf_value(t) is Some {
            rest.push(vdf_value(t)->0)
        } else {
            rest
        }
    }
}

/// The library paths that `libraryfolders.vdf` names, in the order they
/// appear. Lines are cut at `\n`; a `\r` before it is removed by the trim.
pub fn library_paths(content: &str) -> (paths: Vec<String>)
    ensures
        paths@.map_values(|p: String| p@) == vdf_paths(split(content@, '\n')),
{
    let cs = chars_of(content);
    let lines = split_chars(&cs, '\n');
    let ghost ls = split(content@, '\n');
    let key = vec!['"', 'p', 'a', 't', 'h', '"'];
    assert(key@ =~= path_key());
    let mut paths: Vec<String> = Vec::new();
    let mut i: usize = 0;
    while i < lines.len()
        invariant
            i <= lines@.len(),
            views(lines@) == ls,
            key@ == path_key(),
            paths@.map_values(|p: String| p@) == vdf_paths(ls.take(i as int)),
        decreases lines@.len() - i,
    {
        assert(ls.take(i + 1).drop_last() == ls.take(i as int));
        assert(ls.take(i + 1).last() == lines@[i as int]@);
        let t = trim_chars(&lines[i]);
        if starts_with_chars(&t, &key) {
            match extract_vdf_value_chars(&t) {
                Some(v) => {
                    let ghost before = paths@;
                    paths.push(string_of(&v));
                    assert(paths@.map_values(|p: String| p@) =~= before.map_values(
                        |p: String| p@,
                    ).push(v@));
                },
                None => {},
            }
        }
        i = i + 1;
    }
    assert(ls.take(lines@.len() as int) == ls);
    paths
}


/// A candidate library directory, by the components of its path, and
/// whether it exists.
pub open spec fn candidate_views(cands: Seq<(Vec<String>, bool)>) -> Seq<(Seq<Seq<char>>, bool)> {
    cands.map_values(|c: (Vec<String>, bool)| (str_views(c.0@), c.1))
}

/// The places of the library directories to scan among the candidates,
/// taken in order (the main `steamapps` directory first, then each library
/// that `libraryfolders.vdf` names): each one that exists, unless one with
/// the same path was taken before.
pub open spec fn chosen_folders(cands: Seq<(Seq<Seq<char>>, bool)>) -> Seq<int>
    decreases cands.len(),
{
    if cands.len() == 0 {
        Seq::empty()
    } else {
        let prev = chosen_folders(cands.drop_last());
        let i = cands.len() - 1;
        if cands[i].1 && !(exists|j: int|
            0 <= j < prev.len() && cands[#[trigger] prev[j]].0 == cands[i].0) {
            prev.push(i)
        } else {
            prev
        }
    }
}

proof fn lemma_chosen_in_range(cands: Seq<(Seq<Seq<char>>, bool)>)
    ensures
        forall|j: int|
            0 <= j < chosen_folders(cands).len() ==> 0 <= #[trigger] chosen_folders(cands)[j]
                < cands.len(),
    decreases cands.len(),
{
    if cands.len() > 0 {
        let prev = chosen_folders(cands.drop_last());
        lemma_chosen_in_range(cands.drop_last());
        assert forall|j: int|
            0 <= j < chosen_folders(cands).len() implies 0 <= #[trigger] chosen_folders(cands)[j]
                < cands.len() by {
            if j < prev.len() {
                assert(chosen_folders(cands)[j] == prev[j]);
            }
        }
    }
}

/// Which library directories are picked: the picked places increase, and a
/// candidate is picked exactly where it exists and its whole path differs
/// from the path of every candidate picked before it.
pub proof fn lemma_chosen_folders(cands: Seq<(Seq<Seq<char>>, bool)>)
    ensures
        forall|m: int, n: int|
            0 <= m < n < chosen_folders(cands).len() ==> #[trigger] chosen_folders(cands)[m]
                < #[trigger] chosen_folders(cands)[n],
        forall|i: int|
            0 <= i < cands.len() ==> (#[trigger] chosen_folders(cands).contains(i) <==> cands[i].1
                && forall|m: int|
                0 <= m < chosen_folders(cands).len() && chosen_folders(cands)[m] < i
                    ==> cands[#[trigger] chosen_folders(cands)[m]].0 != cands[i].0),
    decreases cands.len(),
{
    let r = chosen_folders(cands);
    if cands.len() > 0 {
        let d = cands.drop_last();
        let prev = chosen_folders(d);
        let n = cands.len() - 1;
        lemma_chosen_folders(d);
        lemma_chosen_in_range(d);
        assert forall|j: int| 0 <= j < prev.len() implies d[prev[j]] == cands[prev[j]] by {}
        assert(r == prev || r == prev.push(n));
        assert forall|m: int| 0 <= m < r.len() implies (#[trigger] r[m]) < cands.len() && (m
            < prev.len() ==> r[m] == prev[m]) by {}
        assert forall|m: int, k: int| 0 <= m < k < r.len() implies #[trigger] r[m] < #[trigger] r[k] by {
            if k >= prev.len() {
                assert(r[k] == n);
                assert(prev[m] < d.len());
            }
        }
        assert forall|i: int| 0 <= i < cands.len() implies (#[trigger] r.contains(i) <==> cands[i].1
            && forall|m: int|
            0 <= m < r.len() && r[m] < i ==> cands[#[trigger] r[m]].0 != cands[i].0) by {
            if i < n {
                assert(d[i] == cands[i]);
                if r.contains(i) {
                    let m = choose|m: int| 0 <= m < r.len() && r[m] == i;
                    assert(m < prev.len());
                    assert(prev.contains(i));
                }
                if prev.contains(i) {
                    let m = choose|m: int| 0 <= m < prev.len() && prev[m] == i;
                    assert(r[m] == i);
                }
                assert forall|m: int| 0 <= m < r.len() && r[m] < i implies m < prev.len() by {}
                if !(forall|m: int|
                    0 <= m < prev.len() && prev[m] < i ==> d[#[trigger] prev[m]].0 != d[i].0) {
                    let m = choose|m: int| !(0 <= m < prev.len() && prev[m] < i ==> d[#[trigger] prev[m]].0 != d[i].0);
                    assert(r[m] == prev[m]);
                }
            } else {
                assert(i == n);
                assert(!prev.contains(n)) by {
                    if prev.contains(n) {
                        let m = choose|m: int| 0 <= m < prev.len() && prev[m] == n;
                        assert(prev[m] < d.len());
                    }
                }
                if (exists|j: int| 0 <= j < prev.len() && cands[#[trigger] prev[j]].0 == cands[n].0) {
                    let j = choose|j: int| 0 <= j < prev.len() && cands[#[trigger] prev[j]].0 == cands[n].0;
                    assert(r[j] == prev[j] && r[j] < n);
                }
                let added = cands[n].1 && !(exists|j: int|
                    0 <= j < prev.len() && cands[#[trigger] prev[j]].0 == cands[n].0);
                if added {
                    assert(r == prev.push(n));
                    assert(r[r.len() - 1] == n);
                    assert(r.contains(n));
                    assert forall|m: int| 0 <= m < r.len() && r[m] < n implies cands[#[trigger] r[m]].0
                        != cands[n].0 by {
                        assert(m < prev.len());
                    }
                } else {
                    assert(r == prev);
                }
                if cands[n].1 && forall|m: int|
                    0 <= m < r.len() && r[m] < n ==> cands[#[trigger] r[m]].0 != cands[n].0 {
                    if r == prev {
                        assert(!(exists|j: int| 0 <= j < prev.len() && cands[#[trigger] prev[j]].0 == cands[n].0)) by {
                            if (exists|j: int| 0 <= j < prev.len() && cands[#[trigger] prev[j]].0 == cands[n].0) {
                                let j = choose|j: int| 0 <= j < prev.len() && cands[#[trigger] prev[j]].0 == cands[n].0;
                                assert(prev[j] < d.len());
                                assert(r[j] < n);
                            }
                        }
                    }
                    assert(r[r.len() - 1] == n);
                }
            }
        }
    }
}

fn strings_eq(a: &Vec<String>, b: &Vec<String>) -> (r: bool)
    ensures
        r == (str_views(a@) == str_views(b@)),
{
    if a.len() != b.len() {
        assert(str_views(a@).len() != str_views(b@).len());
        return false;
    }
    let mut i: usize = 0;
    while i < a.len()
        invariant
            i <= a@.len(),
            a@.len() == b@.len(),
            forall|k: int| 0 <= k < i ==> (#[trigger] a@[k])@ == b@[k]@,
        decreases a@.len() - i,
    {
        let x = chars_of(a[i].as_str());
        let y = chars_of(b[i].as_str());
        if !crate::text::chars_eq(x.as_slice(), y.as_slice()) {
            assert(str_views(a@)[i as int] != str_views(b@)[i as int]);
            return false;
        }
        i = i + 1;
    }
    assert(str_views(a@) =~= str_views(b@));
    true
}

/// Picks the library directories to scan from the candidates, in order
/// (the main `steamapps` directory first, then each library that
/// `libraryfolders.vdf` names, each path given by its components, with
/// whether it exists): each one that exists, unless a candidate with the
/// same path was picked before. Gives the places of the picked candidates.
pub fn choose_library_folders(cands: &Vec<(Vec<String>, bool)>) -> (r: Vec<usize>)
    ensures
        r@.map_values(|j: usize| j as int) == chosen_folders(candidate_views(cands@)),
{
    let ghost cv = candidate_views(cands@);
    let mut chosen: Vec<usize> = Vec::new();
    let mut i: usize = 0;
    while i < cands.len()
        invariant
            i <= cands@.len(),
            cv == candidate_views(cands@),
            chosen@.map_values(|j: usize| j as int) == chosen_folders(cv.take(i as int)),
        decreases cands@.len() - i,
    {
        let ghost prev = chosen_folders(cv.take(i as int));
        proof {
            lemma_chosen_in_range(cv.take(i as int));
            assert(cv.take(i + 1).drop_last() == cv.take(i as int));
        }
        if cands[i].1 {
            let mut seen = false;
            let mut m: usize = 0;
            while m < chosen.len()
                invariant
                    i < cands@.len(),
                    m <= chosen@.len(),
                    cv == candidate_views(cands@),
                    chosen@.map_values(|j: usize| j as int) == prev,
                    forall|j: int| 0 <= j < prev.len() ==> 0 <= #[trigger] prev[j] < i,
                    seen == (exists|j: int|
                        0 <= j < m && cv[#[trigger] prev[j]].0 == cv[i as int].0),
                decreases chosen@.len() - m,
            {
                let c = chosen[m];
                assert(prev[m as int] == c);
                let same = strings_eq(&cands[c].0, &cands[i].0);
                proof {
                    assert(cv[c as int].0 == str_views(cands@[c as int].0@));
                    if same {
                        assert(cv[prev[m as int]].0 == cv[i as int].0);
                    }
                    if seen {
                        let j = choose|j: int| 0 <= j < m && cv[#[trigger] prev[j]].0 == cv[i as int].0;
                        assert(0 <= j < m + 1 && cv[prev[j]].0 == cv[i as int].0);
                    }
                }
                seen = seen || same;
                m = m + 1;
            }
            proof {
                assert forall|j: int| 0 <= j < prev.len() implies cv.take(i + 1)[#[trigger] prev[j]]
                    == cv[prev[j]] by {}
                assert((exists|j: int| 0 <= j < prev.len() && cv.take(i + 1)[#[trigger] prev[j]].0
                    == cv.take(i + 1)[i as int].0) == seen) by {
                    if seen {
                        let j = choose|j: int| 0 <= j < prev.len() && cv[#[trigger] prev[j]].0
                            == cv[i as int].0;
                        assert(cv.take(i + 1)[prev[j]].0 == cv.take(i + 1)[i as int].0);
                    }
                }
            }
            if !seen {
                chosen.push(i);
                assert(chosen@.map_values(|j: usize| j as int) =~= prev.push(i as int));
            }
        }
        i = i + 1;
    }
    assert(cv.take(cands@.len() as int) == cv);
    chosen
}


// ---------------------------------------------------------------------------
// App manifests

pub open spec fn key_appid() -> Seq<char> {
    seq!['a', 'p', 'p', 'i', 'd']
}

pub open spec fn key_name() -> Seq<char> {
    seq!['n', 'a', 'm', 'e']
}

pub open spec fn key_installdir() -> Seq<char> {
    seq!['i', 'n', 's', 't', 'a', 'l', 'l', 'd', 'i', 'r']
}

/// The key, as written, and value that one manifest line holds, if any.
/// A line with a tab is cut at its first tab, and each side is trimmed and
/// stripped of quotes; a line without a tab but with quotes gives the second
/// and fourth pieces between quotes.
pub open spec fn acf_raw_entry(line: Seq<char>) -> Option<(Seq<char>, Seq<char>)> {
    let t = trim(line);
    if has_char(t, '\t') {
        let i = first_index(t, '\t');
        Some((trim_quotes(trim(t.take(i))), trim_quotes(trim(t.skip(i + 1)))))
    } else if has_char(t, '"') {
        let segs = split(t, '"');
        if segs.len() >= 4 {
            Some((segs[1], segs[3]))
        } else {
            None
        }
    } else {
        None
    }
}

/// The key, lower-cased, and value that one manifest line holds, if any.
pub open spec fn acf_entry(line: Seq<char>) -> Option<(Seq<char>, Seq<char>)> {
    match acf_raw_entry(line) {
        Some(e) => Some((lowercase(e.0), e.1)),
        None => None,
    }
}

/// The entries (lower-cased key, value) that the manifest lines give, in
/// order.
pub open spec fn acf_entries_of(lines: Seq<Seq<char>>) -> Seq<(Seq<char>, Seq<char>)>
    decreases lines.len(),
{
    if lines.len() == 0 {
        Seq::empty()
    } else {
        let rest = acf_entries_of(lines.drop_last());
        match acf_entry(lines.last()) {
            Some(e) => rest.push(e),
            None => rest,
        }
    }
}

/// The value of the last entry with key `key`, if any.
pub open spec fn last_value(entries: Seq<(Seq<char>, Seq<char>)>, key: Seq<char>) -> Option<
    Seq<char>,
>
    decreases entries.len(),
{
    if entries.len() == 0 {
        None
    } else if entries.last().0 == key {
        Some(entries.last().1)
    } else {
        last_value(entries.drop_last(), key)
    }
}

/// The app id, name and install directory that manifest entries give, where
/// they give all three, the app id parses as a `u32` and the name is not
/// empty. Where a key occurs more than once, its last value counts.
pub open spec fn manifest_of(entries: Seq<(Seq<char>, Seq<char>)>) -> Option<
    (u32, Seq<char>, Seq<char>),
> {
    match (
        last_value(entries, key_appid()),
        last_value(entries, key_name()),
        last_value(entries, key_installdir()),
    ) {
        (Some(id), Some(name), Some(dir)) => match parse_u32_spec(id) {
            Some(n) => if name.len() > 0 {
                Some((n, name, dir))
            } else {
                None
            },
            None => None,
        },
        _ => None,
    }
}

/// The app id, name and install directory that a manifest gives. Lines are
/// cut at `\n`; a `\r` before it is removed by the trim.
pub open spec fn acf_manifest(content: Seq<char>) -> Option<(u32, Seq<char>, Seq<char>)> {
    manifest_of(acf_entries_of(split(content, '\n')))
}

/// Whether two manifest lines hold the same entry, up to the letter case of
/// the key: their keys lower-case (with `str::to_lowercase`) to the same
/// text and their values are equal, or neither holds an entry.
pub open spec fn same_entry_up_to_key_case(a: Seq<char>, b: Seq<char>) -> bool {
    match (acf_raw_entry(a), acf_raw_entry(b)) {
        (None, None) => true,
        (Some(ea), Some(eb)) => ea.1 == eb.1 && lowercase(ea.0) == lowercase(eb.0),
        _ => false,
    }
}

/// Keys written in ASCII that differ only in letter case (`AppID` and
/// `appid`) lower-case to the same text.
pub proof fn lemma_ascii_keys_up_to_case(a: Seq<char>, b: Seq<char>)
    requires
        is_ascii(a),
        is_ascii(b),
        ascii_lower(a) == ascii_lower(b),
    ensures
        lowercase(a) == lowercase(b),
{
}

proof fn lemma_entries_up_to_key_case(la: Seq<Seq<char>>, lb: Seq<Seq<char>>)
    requires
        la.len() == lb.len(),
        forall|i: int| 0 <= i < la.len() ==> same_entry_up_to_key_case(#[trigger] la[i], lb[i]),
    ensures
        acf_entries_of(la) == acf_entries_of(lb),
    decreases la.len(),
{
    if la.len() > 0 {
        lemma_entries_up_to_key_case(la.drop_last(), lb.drop_last());
        assert(same_entry_up_to_key_case(la[la.len() - 1], lb[lb.len() - 1]));
        assert(acf_entry(la.last()) == acf_entry(lb.last()));
    }
}

/// Manifest keys are matched whatever their letter case: two manifests
/// whose lines hold the same entries, up to keys that lower-case alike
/// (`AppID` for `appid`, `NAME` for `name`), give the same app id, name and
/// install directory, or both none.
pub proof fn lemma_key_case_does_not_matter(a: Seq<char>, b: Seq<char>)
    requires
        split(a, '\n').len() == split(b, '\n').len(),
        forall|i: int|
            0 <= i < split(a, '\n').len() ==> same_entry_up_to_key_case(
                #[trigger] split(a, '\n')[i],
                split(b, '\n')[i],
            ),
    ensures
        acf_manifest(a) == acf_manifest(b),
{
    lemma_entries_up_to_key_case(split(a, '\n'), split(b, '\n'));
}

/// The text with each `\n` written as `\r\n`, as Windows ends lines.
pub open spec fn with_crlf(s: Seq<char>) -> Seq<char>
    decreases s.len(),
{
    if s.len() == 0 {
        s
    } else if s.last() == '\n' {
        with_crlf(s.drop_last()) + seq!['\r', '\n']
    } else {
        with_crlf(s.drop_last()).push(s.last())
    }
}

proof fn lemma_split_with_crlf(s: Seq<char>)
    ensures
        split(with_crlf(s), '\n').len() == split(s, '\n').len(),
        forall|i: int|
            0 <= i < split(s, '\n').len() - 1 ==> #[trigger] split(with_crlf(s), '\n')[i] == split(
                s,
                '\n',
            )[i].push('\r'),
        split(with_crlf(s), '\n').last() == split(s, '\n').last(),
    decreases s.len(),
{
    crate::text::lemma_split_nonempty(s, '\n');
    if s.len() > 0 {
        let d = s.drop_last();
        let rest = with_crlf(d);
        lemma_split_with_crlf(d);
        crate::text::lemma_split_nonempty(d, '\n');
        crate::text::lemma_split_nonempty(rest, '\n');
        let sr = split(rest, '\n');
        let sd = split(d, '\n');
        if s.last() == '\n' {
            let t = rest + seq!['\r', '\n'];
            assert(t.drop_last() =~= rest.push('\r'));
            assert(t.last() == '\n');
            assert(rest.push('\r').drop_last() =~= rest);
            assert(rest.push('\r').last() == '\r');
            let sp = split(rest.push('\r'), '\n');
            assert(sp == sr.update(sr.len() - 1, sr.last().push('\r')));
            assert(split(t, '\n') == sp.push(Seq::<char>::empty()));
            assert forall|i: int| 0 <= i < split(s, '\n').len() - 1 implies #[trigger] split(
                with_crlf(s),
                '\n',
            )[i] == split(s, '\n')[i].push('\r') by {
                assert(split(s, '\n')[i] == sd[i]);
            }
        } else {
            assert(with_crlf(s).drop_last() =~= rest);
            assert(with_crlf(s).last() == s.last());
        }
    }
}

/// Line ends do not matter: a manifest written with `\r\n` line ends gives
/// the same app id, name and install directory as the same text with `\n`.
pub proof fn lemma_crlf_does_not_matter(s: Seq<char>)
    ensures
        acf_manifest(with_crlf(s)) == acf_manifest(s),
{
    lemma_split_with_crlf(s);
    let la = split(with_crlf(s), '\n');
    let lb = split(s, '\n');
    crate::text::lemma_split_nonempty(s, '\n');
    assert forall|i: int| 0 <= i < la.len() implies same_entry_up_to_key_case(#[trigger] la[i], lb[i]) by {
        if i < lb.len() - 1 {
            crate::text::lemma_trim_drops_line_ends(lb[i], '\r');
            assert(acf_raw_entry(la[i]) == acf_raw_entry(lb[i]));
        } else {
            assert(la[i] == lb[i]);
        }
    }
    lemma_entries_up_to_key_case(la, lb);
}

pub open spec fn opt_view(o: Option<Vec<char>>) -> Option<Seq<char>> {
    match o {
        Some(v) => Some(v@),
        None => None,
    }
}

pub open spec fn entry_views(es: Seq<(String, String)>) -> Seq<(Seq<char>, Seq<char>)> {
    es.map_values(|e: (String, String)| (e.0@, e.1@))
}

fn acf_line_entry(line: &[char]) -> (r: Option<(Vec<char>, Vec<char>)>)
    ensures
        r matches Some(e) ==> acf_entry(line@) == Some((e.0@, e.1@)),
        r is None ==> acf_entry(line@) is None,
{
    let t = trim_chars(line);
    let tl = t.len();
    match find_char(&t, '\t') {
        Some(i) => {
            assert(crate::text::first_at(t@, '\t', i as int));
            assert(i < t@.len());
            assert(t@.take(i as int) == t@.subrange(0, i as int));
            assert(t@.skip(i + 1) == t@.subrange(i + 1, t@.len() as int));
            let left = trim_chars(&copy_range(&t, 0, i));
            let right = trim_chars(&copy_range(&t, i + 1, tl));
            let key = lowercase_chars(&trim_quotes_chars(&left));
            let value = trim_quotes_chars(&right);
            Some((key, value))
        },
        None => {
            if has_char_exec(&t, '"') {
                let segs = split_chars(&t, '"');
                if segs.len() >= 4 {
                    assert(views(segs@)[1] == segs@[1]@);
                    assert(views(segs@)[3] == segs@[3]@);
                    let key = lowercase_chars(&segs[1]);
                    let value = copy_range(&segs[3], 0, segs[3].len());
                    assert(segs@[3]@.subrange(0, segs@[3]@.len() as int) == segs@[3]@);
                    Some((key, value))
                } else {
                    None
                }
            } else {
                None
            }
        },
    }
}

/// The entries of an app manifest (`.acf`), in order: for each line that
/// holds one, its key lower-cased with `str::to_lowercase`, and its value.
pub fn acf_entries(content: &str) -> (r: Vec<(String, String)>)
    ensures
        entry_views(r@) == acf_entries_of(split(content@, '\n')),
{
    let cs = chars_of(content);
    let lines = split_chars(&cs, '\n');
    let ghost ls = split(content@, '\n');
    let mut out: Vec<(String, String)> = Vec::new();
    let mut i: usize = 0;
    while i < lines.len()
        invariant
            i <= lines@.len(),
            views(lines@) == ls,
            entry_views(out@) == acf_entries_of(ls.take(i as int)),
        decreases lines@.len() - i,
    {
        assert(ls.take(i + 1).drop_last() == ls.take(i as int));
        assert(ls.take(i + 1).last() == lines@[i as int]@);
        match acf_line_entry(&lines[i]) {
            Some((k, v)) => {
                let ghost before = out@;
                let e = (string_of(&k), string_of(&v));
                out.push(e);
                assert(entry_views(out@) =~= entry_views(before).push((k@, v@)));
            },
            None => {},
        }
        i = i + 1;
    }
    assert(ls.take(lines@.len() as int) == ls);
    out
}

/// The app id, name and install directory that manifest entries (keys
/// already lower-cased) give; see `manifest_of`.
pub fn manifest_from_entries(entries: &[(String, String)]) -> (r: Option<AcfManifest>)
    ensures
        r matches Some(m) ==> manifest_of(entry_views(entries@)) == Some(
            (m.app_id, m.name@, m.install_dir@),
        ),
        r is None ==> manifest_of(entry_views(entries@)) is None,
{
    let ghost es = entry_views(entries@);
    let k_appid = vec!['a', 'p', 'p', 'i', 'd'];
    let k_name = vec!['n', 'a', 'm', 'e'];
    let k_dir = vec!['i', 'n', 's', 't', 'a', 'l', 'l', 'd', 'i', 'r'];
    assert(k_appid@ =~= key_appid());
    assert(k_name@ =~= key_name());
    assert(k_dir@ =~= key_installdir());
    let mut appid: Option<Vec<char>> = None;
    let mut name: Option<Vec<char>> = None;
    let mut dir: Option<Vec<char>> = None;
    let mut i: usize = 0;
    while i < entries.len()
        invariant
            i <= entries@.len(),
            es == entry_views(entries@),
            k_appid@ == key_appid(),
            k_name@ == key_name(),
            k_dir@ == key_installdir(),
            opt_view(appid) == last_value(es.take(i as int), key_appid()),
            opt_view(name) == last_value(es.take(i as int), key_name()),
            opt_view(dir) == last_value(es.take(i as int), key_installdir()),
        decreases entries@.len() - i,
    {
        assert(es.take(i + 1).drop_last() == es.take(i as int));
        assert(es.take(i + 1).last() == es[i as int]);
        let k = chars_of(entries[i].0.as_str());
        let v = chars_of(entries[i].1.as_str());
        if chars_eq_vec(&k, &k_appid) {
            appid = Some(v);
        } else if chars_eq_vec(&k, &k_name) {
            name = Some(v);
        } else if chars_eq_vec(&k, &k_dir) {
            dir = Some(v);
        }
        i = i + 1;
    }
    assert(es.take(entries@.len() as int) == es);
    match (appid, name, dir) {
        (Some(id), Some(n), Some(d)) => match parse_u32(&id) {
            Some(app_id) => {
                if n.len() > 0 {
                    Some(AcfManifest { app_id, name: string_of(&n), install_dir: string_of(&d) })
                } else {
                    None
                }
            },
            None => None,
        },
        _ => None,
    }
}

/// Reads the app id, name and install directory from the text of an app
/// manifest (`.acf`). Keys are compared lower-cased; where a key occurs more
/// than once, its last value counts.
pub fn parse_acf(content: &str) -> (r: Option<AcfManifest>)
    ensures
        r matches Some(m) ==> acf_manifest(content@) == Some((m.app_id, m.name@, m.install_dir@)),
        r is None ==> acf_manifest(content@) is None,
{
    let entries = acf_entries(content);
    manifest_from_entries(entries.as_slice())
}

fn chars_eq_vec(a: &Vec<char>, b: &Vec<char>) -> (r: bool)
    ensures
        r == (a@ == b@),
{
    crate::text::chars_eq(a.as_slice(), b.as_slice())
}


// ---------------------------------------------------------------------------
// Games from manifests

impl DllProbe {
    /// A directory without any of the Steam API files.
    pub fn nothing() -> (r: DllProbe)
        ensures
            !r.has_x86 && !r.has_x64 && !r.applied,
    {
        DllProbe { has_x86: false, has_x64: false, applied: false }
    }

    pub open spec fn has_api(self) -> bool {
        self.has_x86 || self.has_x64
    }
}

/// Whether the subdirectories of a game's install directory must be searched
/// for the Steam API files: the install directory itself holds neither.
pub fn needs_subdir_scan(root: &DllProbe) -> (r: bool)
    ensures
        r == !root.has_api(),
{
    !root.has_x86 && !root.has_x64
}

/// A directory below a game's install directory: the Steam API files it
/// holds, and its own subdirectories in directory order.
#[derive(Debug)]
pub struct DirTree {
    pub probe: DllProbe,
    pub subdirs: Vec<DirTree>,
}

/// The result of searching `dirs[i..]` and what lies below them, `depth`
/// levels down from the install directory: nothing at `MAX_SEARCH_DEPTH` or
/// beyond; otherwise each directory in turn is looked at, then searched one
/// level deeper, and the first that holds a Steam API file is the result.
pub open spec fn scan_from(dirs: Seq<DirTree>, i: int, depth: int) -> DllProbe
    decreases dirs, dirs.len() - i,
{
    if depth >= MAX_SEARCH_DEPTH || i < 0 || i >= dirs.len() {
        DllProbe { has_x86: false, has_x64: false, applied: false }
    } else if dirs[i].probe.has_api() {
        dirs[i].probe
    } else {
        let below = scan_from(dirs[i].subdirs@, 0, depth + 1);
        if below.has_api() {
            below
        } else {
            scan_from(dirs, i + 1, depth)
        }
    }
}

/// Whether some directory among `dirs[i..]` and below them, fewer than
/// `MAX_SEARCH_DEPTH` levels below the install directory, holds a Steam
/// API file, where `dirs` lie `depth` levels below it.
pub open spec fn api_within(dirs: Seq<DirTree>, i: int, depth: int) -> bool
    decreases dirs, dirs.len() - i,
{
    if depth >= MAX_SEARCH_DEPTH || i < 0 || i >= dirs.len() {
        false
    } else {
        dirs[i].probe.has_api() || api_within(dirs[i].subdirs@, 0, depth + 1) || api_within(
            dirs,
            i + 1,
            depth,
        )
    }
}

/// Whether some directory among `dirs[i..]` and below them, within the
/// same reach, has exactly the probe `p`.
pub open spec fn probe_within(dirs: Seq<DirTree>, i: int, depth: int, p: DllProbe) -> bool
    decreases dirs, dirs.len() - i,
{
    if depth >= MAX_SEARCH_DEPTH || i < 0 || i >= dirs.len() {
        false
    } else {
        dirs[i].probe == p || probe_within(dirs[i].subdirs@, 0, depth + 1, p) || probe_within(
            dirs,
            i + 1,
            depth,
            p,
        )
    }
}

/// What the search below a game's install directory finds:
/// - it finds a Steam API file exactly where one lies within reach, at
///   any place and depth short of `MAX_SEARCH_DEPTH`;
/// - what it finds is the probe of a directory within reach, and where it
///   finds nothing, the result holds nothing;
/// - a directory that holds a Steam API file wins over everything after
///   it, and one that does not is searched below before its later siblings.
pub proof fn lemma_scan_finds_what_is_within_reach(dirs: Seq<DirTree>, i: int, depth: int)
    requires
        0 <= i,
    ensures
        scan_from(dirs, i, depth).has_api() <==> api_within(dirs, i, depth),
        scan_from(dirs, i, depth).has_api() ==> probe_within(dirs, i, depth, scan_from(dirs, i, depth)),
        !scan_from(dirs, i, depth).has_api() ==> !scan_from(dirs, i, depth).has_x86
            && !scan_from(dirs, i, depth).has_x64 && !scan_from(dirs, i, depth).applied,
        depth < MAX_SEARCH_DEPTH && i < dirs.len() && dirs[i].probe.has_api() ==> scan_from(
            dirs,
            i,
            depth,
        ) == dirs[i].probe,
        depth < MAX_SEARCH_DEPTH && i < dirs.len() && !dirs[i].probe.has_api() && api_within(
            dirs[i].subdirs@,
            0,
            depth + 1,
        ) ==> probe_within(dirs[i].subdirs@, 0, depth + 1, scan_from(dirs, i, depth)),
        depth < MAX_SEARCH_DEPTH && i < dirs.len() && !dirs[i].probe.has_api() && !api_within(
            dirs[i].subdirs@,
            0,
            depth + 1,
        ) ==> scan_from(dirs, i, depth) == scan_from(dirs, i + 1, depth),
    decreases dirs, dirs.len() - i,
{
    if depth < MAX_SEARCH_DEPTH && i < dirs.len() {
        if !dirs[i].probe.has_api() {
            lemma_scan_finds_what_is_within_reach(dirs[i].subdirs@, 0, depth + 1);
            lemma_scan_finds_what_is_within_reach(dirs, i + 1, depth);
        }
    }
}

/// The search misses nothing within reach: where a directory `dirs[k]`
/// (`k` at or after `i`), short of `MAX_SEARCH_DEPTH`, holds a Steam API
/// file, or the search below it finds one, the search from `i` finds one.
pub proof fn lemma_scan_complete(dirs: Seq<DirTree>, i: int, k: int, depth: int)
    requires
        0 <= i <= k < dirs.len(),
        depth < MAX_SEARCH_DEPTH,
        dirs[k].probe.has_api() || scan_from(dirs[k].subdirs@, 0, depth + 1).has_api(),
    ensures
        scan_from(dirs, i, depth).has_api(),
    decreases k - i,
{
    if i < k && !dirs[i].probe.has_api() && !scan_from(dirs[i].subdirs@, 0, depth + 1).has_api() {
        lemma_scan_complete(dirs, i + 1, k, depth);
    }
}

/// Searches the subdirectories `dirs` of a directory that lies `depth`
/// levels below a game's install directory for the Steam API files, depth
/// first and in directory order, down to `MAX_SEARCH_DEPTH` levels below
/// the install directory. The first directory that holds one gives the
/// result; where none does, nothing is found.
pub fn scan_subdirs_for_steam_api(dirs: &Vec<DirTree>, depth: u32) -> (r: DllProbe)
    ensures
        r == scan_from(dirs@, 0, depth as int),
{
    scan_dirs_from(dirs, 0, depth)
}

fn scan_dirs_from(dirs: &Vec<DirTree>, i: usize, depth: u32) -> (r: DllProbe)
    requires
        i <= dirs@.len(),
    ensures
        r == scan_from(dirs@, i as int, depth as int),
    decreases dirs@, dirs@.len() - i,
{
    if depth >= MAX_SEARCH_DEPTH || i >= dirs.len() {
        return DllProbe::nothing();
    }
    let d = &dirs[i];
    if d.probe.has_x86 || d.probe.has_x64 {
        return d.probe;
    }
    let below = scan_dirs_from(&d.subdirs, 0, depth + 1);
    if below.has_x86 || below.has_x64 {
        below
    } else {
        scan_dirs_from(dirs, i + 1, depth)
    }
}

/// The game that a manifest describes, given whether its install directory
/// exists, the Steam API files found in that directory (`root`) and, where it
/// holds neither DLL, the result of the search below it (`nested`). A game
/// whose directory is missing, or whose directories hold neither DLL, is
/// left out.
pub fn steam_game(
    manifest: AcfManifest,
    install_dir: String,
    dir_exists: bool,
    root: DllProbe,
    nested: DllProbe,
) -> (r: Option<SteamGame>)
    ensures
        !dir_exists ==> r is None,
        dir_exists && root.has_api() ==> r == Some(
            SteamGame {
                app_id: manifest.app_id,
                name: manifest.name,
                install_dir: install_dir,
                has_x86: root.has_x86,
                has_x64: root.has_x64,
                cream_api_applied: root.applied,
            },
        ),
        dir_exists && !root.has_api() && nested.has_api() ==> r == Some(
            SteamGame {
                app_id: manifest.app_id,
                name: manifest.name,
                install_dir: install_dir,
                has_x86: nested.has_x86,
                has_x64: nested.has_x64,
                cream_api_applied: nested.applied,
            },
        ),
        !root.has_api() && !nested.has_api() ==> r is None,
{
    if !dir_exists {
        return None;
    }
    let found = if root.has_x86 || root.has_x64 {
        root
    } else {
        nested
    };
    if !found.has_x86 && !found.has_x64 {
        return None;
    }
    Some(
        SteamGame {
            app_id: manifest.app_id,
            name: manifest.name,
            install_dir: install_dir,
            has_x86: found.has_x86,
            has_x64: found.has_x64,
            cream_api_applied: found.applied,
        },
    )
}

// ---------------------------------------------------------------------------
// Ordering games

/// The key by which games are ordered: the lower-cased name.
pub open spec fn name_key(g: SteamGame) -> Seq<char> {
    lowercase(g.name@)
}

/// `(ka, sa)` comes before `(kb, sb)`: by key in `lex_lt`, then by the
/// second component.
pub open spec fn key_before(ka: Seq<char>, sa: int, kb: Seq<char>, sb: int) -> bool {
    lex_lt(ka, kb) || (ka == kb && sa < sb)
}

/// Each pair comes before every later pair.
pub open spec fn sorted_by_key(ks: Seq<Seq<char>>, ss: Seq<int>) -> bool {
    forall|i: int, j: int|
        #![trigger ks[i], ks[j]]
        0 <= i < j < ks.len() ==> key_before(ks[i], ss[i], ks[j], ss[j])
}

proof fn lemma_key_before_total(a: Seq<char>, sa: int, b: Seq<char>, sb: int)
    ensures
        key_before(a, sa, b, sb) || key_before(b, sb, a, sa) || (a == b && sa == sb),
{
    crate::text::lemma_lex_total(a, b);
}

proof fn lemma_key_before_transitive(
    a: Seq<char>,
    sa: int,
    b: Seq<char>,
    sb: int,
    c: Seq<char>,
    sc: int,
)
    requires
        key_before(a, sa, b, sb),
        key_before(b, sb, c, sc),
    ensures
        key_before(a, sa, c, sc),
{
    if lex_lt(a, b) && lex_lt(b, c) {
        crate::text::lemma_lex_transitive(a, b, c);
    }
}

/// Inserting a pair after every pair that comes before it, and before every
/// pair that it comes before, keeps the order.
proof fn lemma_insert_keeps_sorted(
    ks: Seq<Seq<char>>,
    ss: Seq<int>,
    k: Seq<char>,
    s: int,
    pos: int,
)
    requires
        ks.len() == ss.len(),
        0 <= pos <= ks.len(),
        sorted_by_key(ks, ss),
        forall|m: int| pos <= m < ks.len() ==> key_before(k, s, #[trigger] ks[m], ss[m]),
        pos > 0 ==> !key_before(k, s, ks[pos - 1], ss[pos - 1]),
        forall|m: int| 0 <= m < ss.len() ==> #[trigger] ss[m] != s,
    ensures
        sorted_by_key(ks.insert(pos, k), ss.insert(pos, s)),
{
    let ks2 = ks.insert(pos, k);
    let ss2 = ss.insert(pos, s);
    if pos > 0 {
        lemma_key_before_total(k, s, ks[pos - 1], ss[pos - 1]);
        assert(ss[pos - 1] != s);
    }
    assert forall|i: int, j: int|
        #![trigger ks2[i], ks2[j]]
        0 <= i < j < ks2.len() implies key_before(ks2[i], ss2[i], ks2[j], ss2[j]) by {
        if j < pos {
            assert(ks2[i] == ks[i] && ks2[j] == ks[j]);
        } else if i > pos {
            assert(ks2[i] == ks[i - 1] && ks2[j] == ks[j - 1]);
        } else if i < pos && j > pos {
            assert(ks2[i] == ks[i] && ks2[j] == ks[j - 1]);
        } else if i == pos {
            assert(ks2[j] == ks[j - 1]);
        } else {
            assert(j == pos && i < pos);
            assert(ks2[i] == ks[i]);
            if i < pos - 1 {
                assert(key_before(ks[i], ss[i], ks[pos - 1], ss[pos - 1]));
                lemma_key_before_transitive(ks[i], ss[i], ks[pos - 1], ss[pos - 1], k, s);
            }
        }
    }
}

pub open spec fn str_views(v: Seq<String>) -> Seq<Seq<char>> {
    v.map_values(|s: String| s@)
}

/// The keys `keys` picks for the places `places`.
pub open spec fn keys_at(keys: Seq<Seq<char>>, places: Seq<int>) -> Seq<Seq<char>> {
    places.map_values(|j: int| keys[j])
}

/// `from` is a permutation of the places of `input` that arranges it as
/// `out`: `out[i]` is `input[from[i]]`, and every place occurs once.
pub open spec fn arranged_from(input: Seq<SteamGame>, out: Seq<SteamGame>, from: Seq<int>) -> bool {
    &&& from.len() == input.len()
    &&& out.len() == input.len()
    &&& forall|i: int| 0 <= i < from.len() ==> 0 <= #[trigger] from[i] < input.len()
    &&& forall|i: int| 0 <= i < from.len() ==> out[i] == input[#[trigger] from[i]]
    &&& forall|i: int, j: int| 0 <= i < j < from.len() ==> #[trigger] from[i] != #[trigger] from[j]
    &&& forall|m: int| 0 <= m < input.len() ==> #[trigger] placed(from, m)
}

/// Some place of `from` holds `m`.
pub open spec fn placed(from: Seq<int>, m: int) -> bool {
    exists|i: int| 0 <= i < from.len() && #[trigger] from[i] == m
}

/// `out` is `input` sorted by `keys` (one key per game of `input`), stably:
/// `p` maps each place of `out` to the place in `input` that it came from.
pub open spec fn stable_by_keys(
    input: Seq<SteamGame>,
    keys: Seq<Seq<char>>,
    out: Seq<SteamGame>,
    p: Seq<int>,
) -> bool {
    &&& arranged_from(input, out, p)
    &&& sorted_by_key(keys_at(keys, p), p)
}

/// The ranks `ranks` picks for the places `places`.
pub open spec fn ranks_at(ranks: Seq<u64>, places: Seq<int>) -> Seq<int> {
    places.map_values(|j: int| ranks[j] as int)
}

/// Insertion sort of `games` by the pairs (`keys[i]`, `ranks[i]`), whose
/// ranks are all different. The ghost result maps each place of the output
/// to the place of the input that it came from.
fn sort_by_key_and_rank(games: &Vec<SteamGame>, keys: &Vec<String>, ranks: &Vec<u64>) -> (res: (
    Vec<SteamGame>,
    Ghost<Seq<int>>,
))
    requires
        keys@.len() == games@.len(),
        ranks@.len() == games@.len(),
        forall|i: int, j: int|
            0 <= i < j < ranks@.len() ==> #[trigger] ranks@[i] != #[trigger] ranks@[j],
    ensures
        arranged_from(games@, res.0@, res.1@),
        sorted_by_key(keys_at(str_views(keys@), res.1@), ranks_at(ranks@, res.1@)),
{
    let ghost kv = str_views(keys@);
    let mut out: Vec<SteamGame> = Vec::new();
    let mut out_keys: Vec<Vec<char>> = Vec::new();
    let mut out_ranks: Vec<u64> = Vec::new();
    let ghost mut from: Seq<int> = Seq::empty();
    let ghost mut to: Seq<int> = Seq::empty();
    let mut idx: usize = 0;
    while idx < games.len()
        invariant
            idx <= games@.len(),
            keys@.len() == games@.len(),
            ranks@.len() == games@.len(),
            forall|i: int, j: int|
                0 <= i < j < ranks@.len() ==> #[trigger] ranks@[i] != #[trigger] ranks@[j],
            kv == str_views(keys@),
            out_keys@.len() == out@.len(),
            out_ranks@.len() == out@.len(),
            out@.len() == idx,
            from.len() == out@.len(),
            to.len() == idx,
            forall|i: int| 0 <= i < out@.len() ==> (#[trigger] out_keys@[i])@ == kv[from[i]],
            forall|i: int| 0 <= i < out@.len() ==> #[trigger] out_ranks@[i] == ranks@[from[i]],
            forall|i: int|
                0 <= i < out@.len() ==> 0 <= #[trigger] from[i] < idx && out@[i] == games@[from[i]],
            forall|m: int| 0 <= m < idx ==> 0 <= #[trigger] to[m] < out@.len() && from[to[m]] == m,
            sorted_by_key(keys_at(kv, from), ranks_at(ranks@, from)),
        decreases games@.len() - idx,
    {
        let g = copy_game(&games[idx]);
        let k = chars_of(keys[idx].as_str());
        let rank = ranks[idx];
        assert(k@ == kv[idx as int]);
        let ghost ks = keys_at(kv, from);
        let ghost ss = ranks_at(ranks@, from);
        let mut pos: usize = out.len();
        while pos > 0 && (lex_less(&k, &out_keys[pos - 1]) || (chars_eq_vec(&k, &out_keys[pos - 1])
            && rank < out_ranks[pos - 1]))
            invariant
                pos <= out@.len(),
                out@.len() == out_keys@.len(),
                out@.len() == out_ranks@.len(),
                ks.len() == out@.len(),
                ss.len() == out@.len(),
                forall|i: int| 0 <= i < out@.len() ==> (#[trigger] out_keys@[i])@ == ks[i],
                forall|i: int| 0 <= i < out@.len() ==> #[trigger] out_ranks@[i] == ss[i],
                forall|m: int|
                    pos <= m < out@.len() ==> key_before(k@, rank as int, #[trigger] ks[m], ss[m]),
            decreases pos,
        {
            pos = pos - 1;
        }
        proof {
            if pos > 0 {
                assert(out_keys@[pos - 1]@ == ks[pos - 1]);
                assert(out_ranks@[pos - 1] == ss[pos - 1]);
            }
            assert forall|m: int| 0 <= m < ss.len() implies #[trigger] ss[m] != rank as int by {
                assert(from[m] < idx);
            }
            lemma_insert_keeps_sorted(ks, ss, k@, rank as int, pos as int);
        }
        let ghost old_out = out@;
        let ghost old_keys = out_keys@;
        let ghost old_ranks = out_ranks@;
        let ghost old_from = from;
        let ghost old_to = to;
        out.insert(pos, g);
        out_keys.insert(pos, k);
        out_ranks.insert(pos, rank);
        proof {
            from = from.insert(pos as int, idx as int);
            to = old_to.map_values(|t: int| if t >= pos { t + 1 } else { t }).push(pos as int);
            assert(keys_at(kv, from) =~= ks.insert(pos as int, k@));
            assert(ranks_at(ranks@, from) =~= ss.insert(pos as int, rank as int));
            assert forall|i: int|
                0 <= i < out@.len() implies 0 <= #[trigger] from[i] < idx + 1 && out@[i]
                    == games@[from[i]] by {
                if i < pos {
                    assert(out@[i] == old_out[i]);
                } else if i > pos {
                    assert(out@[i] == old_out[i - 1]);
                }
            }
            assert forall|m: int|
                0 <= m < idx + 1 implies 0 <= #[trigger] to[m] < out@.len() && from[to[m]] == m by {
                if m < idx {
                    let t = old_to[m];
                    if t >= pos {
                        assert(from[t + 1] == old_from[t]);
                    } else {
                        assert(from[t] == old_from[t]);
                    }
                }
            }
            assert forall|i: int| 0 <= i < out@.len() implies (#[trigger] out_keys@[i])@
                == kv[from[i]] by {
                if i < pos {
                    assert(out_keys@[i] == old_keys[i] && from[i] == old_from[i]);
                } else if i > pos {
                    assert(out_keys@[i] == old_keys[i - 1] && from[i] == old_from[i - 1]);
                }
            }
            assert forall|i: int| 0 <= i < out@.len() implies #[trigger] out_ranks@[i]
                == ranks@[from[i]] by {
                if i < pos {
                    assert(out_ranks@[i] == old_ranks[i] && from[i] == old_from[i]);
                } else if i > pos {
                    assert(out_ranks@[i] == old_ranks[i - 1] && from[i] == old_from[i - 1]);
                }
            }
        }
        idx = idx + 1;
    }
    proof {
        assert forall|i: int, j: int| 0 <= i < j < from.len() implies #[trigger] from[i]
            != #[trigger] from[j] by {
            if from[i] == from[j] {
                assert(keys_at(kv, from)[i] == keys_at(kv, from)[j]);
                assert(ranks_at(ranks@, from)[i] == ranks_at(ranks@, from)[j]);
                crate::text::lemma_lex_irreflexive(keys_at(kv, from)[i]);
            }
        }
        assert forall|m: int| 0 <= m < games@.len() implies #[trigger] placed(from, m) by {
            assert(from[to[m]] == m);
        }
    }
    (out, Ghost(from))
}

/// Sorts games by the given keys (`keys[i]` for `games[i]`), keeping the
/// order of games with equal keys.
pub fn sort_by_keys(games: Vec<SteamGame>, keys: &Vec<String>) -> (r: Vec<SteamGame>)
    requires
        keys@.len() == games@.len(),
    ensures
        exists|p: Seq<int>| stable_by_keys(games@, str_views(keys@), r@, p),
{
    let mut places: Vec<u64> = Vec::new();
    let mut i: usize = 0;
    while i < games.len()
        invariant
            i <= games@.len(),
            places@.len() == i,
            forall|j: int| 0 <= j < i ==> #[trigger] places@[j] == j,
        decreases games@.len() - i,
    {
        places.push(i as u64);
        i = i + 1;
    }
    let (out, Ghost(p)) = sort_by_key_and_rank(&games, keys, &places);
    assert(ranks_at(places@, p) =~= p);
    assert(stable_by_keys(games@, str_views(keys@), out@, p));
    out
}

/// The lower-cased names of games, with `str::to_lowercase`.
pub fn lowercase_names(games: &Vec<SteamGame>) -> (keys: Vec<String>)
    ensures
        keys@.len() == games@.len(),
        str_views(keys@) == name_keys(games@),
{
    let mut keys: Vec<String> = Vec::new();
    let mut i: usize = 0;
    while i < games.len()
        invariant
            i <= games@.len(),
            keys@.len() == i,
            str_views(keys@) == name_keys(games@.take(i as int)),
        decreases games@.len() - i,
    {
        let ghost before = keys@;
        let k = to_lowercase(games[i].name.as_str());
        assert(k@ == name_key(games@[i as int]));
        keys.push(k);
        assert(games@.take(i + 1) == games@.take(i as int).push(games@[i as int]));
        assert(str_views(keys@) =~= str_views(before).push(k@));
        i = i + 1;
        assert(str_views(keys@) =~= name_keys(games@.take(i as int)));
    }
    assert(games@.take(games@.len() as int) == games@);
    keys
}

/// Sorts games by lower-cased name, keeping the order of games whose
/// lower-cased names are equal.
pub fn sort_games_by_name(games: Vec<SteamGame>) -> (r: Vec<SteamGame>)
    ensures
        exists|p: Seq<int>| stable_by_keys(games@, name_keys(games@), r@, p),
{
    let keys = lowercase_names(&games);
    sort_by_keys(games, &keys)
}

/// `all[j]` is the first game in `all` with its app id.
pub open spec fn first_of_its_id(all: Seq<SteamGame>, j: int) -> bool {
    &&& 0 <= j < all.len()
    &&& forall|k: int| 0 <= k < j ==> (#[trigger] all[k]).app_id != all[j].app_id
}

/// `g` is the first game in `all` with its app id.
pub open spec fn first_occurrence(all: Seq<SteamGame>, g: SteamGame) -> bool {
    exists|j: int| first_of_its_id(all, j) && g == all[j]
}

/// Some game in `gs` has app id `id`.
pub open spec fn has_app_id(gs: Seq<SteamGame>, id: u32) -> bool {
    exists|i: int| 0 <= i < gs.len() && gs[i].app_id == id
}

pub open spec fn app_ids(gs: Seq<SteamGame>) -> Seq<int> {
    gs.map_values(|g: SteamGame| g.app_id as int)
}

pub open spec fn name_keys(gs: Seq<SteamGame>) -> Seq<Seq<char>> {
    gs.map_values(|g: SteamGame| name_key(g))
}

/// The first game of each app id, in the order of `all`. `src[m]` is the
/// place in `all` of `kept[m]`; `at[j]` is the place in `kept` of the game
/// with the app id of `all[j]`.
fn first_of_each_id(all: &Vec<SteamGame>) -> (res: (Vec<SteamGame>, Ghost<Seq<int>>, Ghost<Seq<int>>))
    ensures
        res.1@.len() == res.0@.len(),
        res.2@.len() == all@.len(),
        forall|m: int|
            0 <= m < res.0@.len() ==> first_of_its_id(all@, #[trigger] res.1@[m]) && res.0@[m]
                == all@[res.1@[m]],
        forall|j: int|
            0 <= j < all@.len() ==> 0 <= #[trigger] res.2@[j] < res.0@.len() && res.0@[res.2@[j]].app_id
                == all@[j].app_id,
        forall|m1: int, m2: int|
            0 <= m1 < m2 < res.0@.len() ==> (#[trigger] res.0@[m1]).app_id != (
            #[trigger] res.0@[m2]).app_id,
{
    let mut kept: Vec<SteamGame> = Vec::new();
    let ghost mut src: Seq<int> = Seq::empty();
    let ghost mut at: Seq<int> = Seq::empty();
    let mut idx: usize = 0;
    while idx < all.len()
        invariant
            idx <= all@.len(),
            src.len() == kept@.len(),
            at.len() == idx,
            forall|m: int|
                0 <= m < kept@.len() ==> first_of_its_id(all@, #[trigger] src[m]) && kept@[m]
                    == all@[src[m]],
            forall|j: int|
                0 <= j < idx ==> 0 <= #[trigger] at[j] < kept@.len() && kept@[at[j]].app_id
                    == all@[j].app_id,
            forall|m1: int, m2: int|
                0 <= m1 < m2 < kept@.len() ==> (#[trigger] kept@[m1]).app_id != (
                #[trigger] kept@[m2]).app_id,
        decreases all@.len() - idx,
    {
        let id = all[idx].app_id;
        let mut found: Option<usize> = None;
        let mut m: usize = 0;
        while m < kept.len()
            invariant
                m <= kept@.len(),
                id == all@[idx as int].app_id,
                found matches Some(q) ==> q < kept@.len() && kept@[q as int].app_id == id,
                found is None ==> forall|q: int| 0 <= q < m ==> (#[trigger] kept@[q]).app_id != id,
            decreases kept@.len() - m,
        {
            if kept[m].app_id == id {
                found = Some(m);
            }
            m = m + 1;
        }
        match found {
            Some(q) => {
                proof {
                    at = at.push(q as int);
                }
            },
            None => {
                proof {
                    assert forall|k: int| 0 <= k < idx implies (#[trigger] all@[k]).app_id != id by {
                        assert(kept@[at[k]].app_id == all@[k].app_id);
                    }
                    assert(first_of_its_id(all@, idx as int));
                }
                let ghost before = kept@;
                kept.push(copy_game(&all[idx]));
                proof {
                    src = src.push(idx as int);
                    at = at.push(before.len() as int);
                    assert forall|m: int|
                        0 <= m < kept@.len() implies first_of_its_id(all@, #[trigger] src[m])
                            && kept@[m] == all@[src[m]] by {
                        if m < before.len() {
                            assert(kept@[m] == before[m]);
                        }
                    }
                    assert forall|j: int|
                        0 <= j < idx + 1 implies 0 <= #[trigger] at[j] < kept@.len()
                            && kept@[at[j]].app_id == all@[j].app_id by {
                        if j < idx {
                            assert(kept@[at[j]] == before[at[j]]);
                        }
                    }
                }
            },
        }
        idx = idx + 1;
    }
    (kept, Ghost(src), Ghost(at))
}

/// `out` is `input` ordered by `keys` (one key per game of `input`), then
/// by app id: `from` maps each place of `out` to the place in `input` that
/// it came from.
pub open spec fn ordered_by_keys_then_id(
    input: Seq<SteamGame>,
    keys: Seq<Seq<char>>,
    out: Seq<SteamGame>,
    from: Seq<int>,
) -> bool {
    &&& arranged_from(input, out, from)
    &&& sorted_by_key(keys_at(keys, from), app_ids(out))
}

/// No two games share an app id.
pub open spec fn distinct_app_ids(gs: Seq<SteamGame>) -> bool {
    forall|m1: int, m2: int|
        0 <= m1 < m2 < gs.len() ==> (#[trigger] gs[m1]).app_id != (#[trigger] gs[m2]).app_id
}

/// Orders games with distinct app ids by the given keys (`keys[i]` for
/// `games[i]`), then by app id.
pub fn sort_by_keys_then_id(games: &Vec<SteamGame>, keys: &Vec<String>) -> (r: Vec<SteamGame>)
    requires
        keys@.len() == games@.len(),
        distinct_app_ids(games@),
    ensures
        exists|from: Seq<int>| ordered_by_keys_then_id(games@, str_views(keys@), r@, from),
{
    let mut ids: Vec<u64> = Vec::new();
    let mut i: usize = 0;
    while i < games.len()
        invariant
            i <= games@.len(),
            ids@.len() == i,
            forall|j: int| 0 <= j < i ==> #[trigger] ids@[j] == games@[j].app_id,
        decreases games@.len() - i,
    {
        ids.push(games[i].app_id as u64);
        i = i + 1;
    }
    assert forall|a: int, b: int| 0 <= a < b < ids@.len() implies #[trigger] ids@[a]
        != #[trigger] ids@[b] by {
        assert(games@[a].app_id != games@[b].app_id);
    }
    let (out, Ghost(from)) = sort_by_key_and_rank(games, keys, &ids);
    assert(ranks_at(ids@, from) =~= app_ids(out@));
    assert(ordered_by_keys_then_id(games@, str_views(keys@), out@, from));
    out
}

/// The first game of each app id, in the order of `games`.
pub fn first_of_each_app_id(games: &Vec<SteamGame>) -> (r: Vec<SteamGame>)
    ensures
        forall|i: int| 0 <= i < r@.len() ==> first_occurrence(games@, #[trigger] r@[i]),
        forall|j: int| 0 <= j < games@.len() ==> has_app_id(r@, (#[trigger] games@[j]).app_id),
        distinct_app_ids(r@),
{
    let (kept, Ghost(src), Ghost(at)) = first_of_each_id(games);
    proof {
        assert forall|i: int| 0 <= i < kept@.len() implies first_occurrence(
            games@,
            #[trigger] kept@[i],
        ) by {
            assert(first_of_its_id(games@, src[i]) && kept@[i] == games@[src[i]]);
        }
        assert forall|j: int| 0 <= j < games@.len() implies has_app_id(
            kept@,
            (#[trigger] games@[j]).app_id,
        ) by {
            assert(kept@[at[j]].app_id == games@[j].app_id);
        }
    }
    kept
}

/// Builds the list of installed games from the games found in every
/// library: one game per app id (the first found), ordered by lower-cased
/// name, then by app id.
pub fn get_all_games(all_games: Vec<SteamGame>) -> (r: Vec<SteamGame>)
    ensures
        forall|i: int| 0 <= i < r@.len() ==> first_occurrence(all_games@, #[trigger] r@[i]),
        forall|j: int| 0 <= j < all_games@.len() ==> has_app_id(r@, (#[trigger] all_games@[j]).app_id),
        sorted_by_key(name_keys(r@), app_ids(r@)),
        distinct_app_ids(r@),
{
    let kept = first_of_each_app_id(&all_games);
    let keys = lowercase_names(&kept);
    let out = sort_by_keys_then_id(&kept, &keys);
    proof {
        let kv = str_views(keys@);
        let from = choose|from: Seq<int>| ordered_by_keys_then_id(kept@, kv, out@, from);
        assert forall|i: int| 0 <= i < out@.len() implies first_occurrence(
            all_games@,
            #[trigger] out@[i],
        ) by {
            assert(out@[i] == kept@[from[i]]);
        }
        assert forall|j: int| 0 <= j < all_games@.len() implies has_app_id(
            out@,
            (#[trigger] all_games@[j]).app_id,
        ) by {
            let m = choose|m: int| 0 <= m < kept@.len() && kept@[m].app_id == all_games@[j].app_id;
            assert(placed(from, m));
            let i = choose|i: int| 0 <= i < from.len() && #[trigger] from[i] == m;
            assert(out@[i] == kept@[m]);
        }
        assert forall|i: int| 0 <= i < out@.len() implies #[trigger] keys_at(kv, from)[i]
            == name_keys(out@)[i] by {
            assert(out@[i] == kept@[from[i]]);
            assert(kv[from[i]] == name_keys(kept@)[from[i]]);
        }
        assert(keys_at(kv, from) =~= name_keys(out@));
        assert forall|i: int, j: int|
            0 <= i < j < out@.len() implies (#[trigger] out@[i]).app_id != (
            #[trigger] out@[j]).app_id by {
            assert(out@[i] == kept@[from[i]]);
            assert(out@[j] == kept@[from[j]]);
            if from[i] < from[j] {
                assert(kept@[from[i]].app_id != kept@[from[j]].app_id);
            } else {
                assert(kept@[from[j]].app_id != kept@[from[i]].app_id);
            }
        }
    }
    out
}

} // verus!
