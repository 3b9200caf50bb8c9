//! DLC lists from the Steam Store API and the SteamCMD web API: what each
//! response gives, and how the two lists are merged.
use vstd::prelude::*;

use crate::creamapi::text;
use crate::number::{decimal, decimal_string, parse_u32, parse_u32_spec};
use crate::text::{chars_eq, chars_of, split, split_chars, starts_with, starts_with_chars, trim, trim_chars, views};

verus! {

/// A DLC of a game. `from_store` is false for DLCs that only SteamCMD lists.
#[derive(Debug)]
pub struct DlcInfo {
    pub app_id: u32,
    pub name: String,
    pub from_store: bool,
}

/// The `data` of a Store API `appdetails` answer.
#[derive(Debug)]
pub struct StoreAppData {
    pub dlc: Vec<u32>,
    pub app_type: String,
    pub name: Option<String>,
}

/// One app's entry in a Store API `appdetails` answer.
#[derive(Debug)]
pub struct StoreResponse {
    pub success: bool,
    pub data: Option<StoreAppData>,
}

/// The `dlcappid` of a SteamCMD depot, as the JSON holds it.
#[derive(Debug)]
pub enum DepotDlcId {
    /// A string.
    Text(String),
    /// A number that fits in a `u64`.
    Number(u64),
    /// Any other JSON value.
    Other,
}

/// What the DLC search reads of one app in a SteamCMD answer: the
/// comma-separated `extended.listofdlc`, and the `dlcappid` of each depot
/// that has one, in the order the depots were read.
#[derive(Debug)]
pub struct SteamCmdAppData {
    pub listofdlc: Option<String>,
    pub depot_dlc_ids: Vec<DepotDlcId>,
}

/// A SteamCMD `info` answer; `data` maps app ids (as text) to apps.
#[derive(Debug)]
pub struct SteamCmdResponse {
    pub success: bool,
    pub data: Option<Vec<(String, SteamCmdAppData)>>,
}

pub open spec fn dlc_view(d: DlcInfo) -> (u32, Seq<char>, bool) {
    (d.app_id, d.name@, d.from_store)
}

pub open spec fn dlc_views(ds: Seq<DlcInfo>) -> Seq<(u32, Seq<char>, bool)> {
    ds.map_values(|d: DlcInfo| dlc_view(d))
}

/// A copy of a DLC record.
pub fn copy_dlc(d: &DlcInfo) -> (r: DlcInfo)
    ensures
        r == *d,
{
    DlcInfo { app_id: d.app_id, name: d.name.clone(), from_store: d.from_store }
}

/// The name a DLC gets until its real name is known: `DLC <app id>`.
pub open spec fn placeholder_name(id: u32) -> Seq<char> {
    "DLC "@ + decimal(id as nat)
}

/// A DLC id as the store lists it.
pub open spec fn as_store_dlc() -> spec_fn(u32) -> (u32, Seq<char>, bool) {
    |id: u32| (id, placeholder_name(id), true)
}

fn placeholder(id: u32, from_store: bool) -> (d: DlcInfo)
    ensures
        dlc_view(d) == (id, placeholder_name(id), from_store),
{
    let mut name = text("DLC ");
    crate::number::push_decimal(&mut name, id as u64);
    DlcInfo { app_id: id, name, from_store }
}

// ---------------------------------------------------------------------------
// Looking up an app by id in a JSON object
//
// A JSON object is held as the list of its entries. The answers are parsed
// into `HashMap<String, _>`s outside this library, so each key occurs once;
// with `String` keys, vstd's `HashMap` specification gives no lookup result
// that a contract could rest on, while a list and `lookup` below state it
// exactly.

/// `i` is the place of the first entry with key `key`.
pub open spec fn key_at<T>(entries: Seq<(String, T)>, key: Seq<char>, i: int) -> bool {
    &&& 0 <= i < entries.len()
    &&& entries[i].0@ == key
    &&& forall|k: int| 0 <= k < i ==> (#[trigger] entries[k]).0@ != key
}

/// The value of the first entry with key `key`, if any.
pub open spec fn lookup<T>(entries: Seq<(String, T)>, key: Seq<char>) -> Option<T> {
    if exists|i: int| key_at(entries, key, i) {
        Some(entries[choose|i: int| key_at(entries, key, i)].1)
    } else {
        None
    }
}

fn find_key<T>(entries: &Vec<(String, T)>, key: &Vec<char>) -> (r: Option<usize>)
    ensures
        r matches Some(i) ==> key_at(entries@, key@, i as int) && lookup(entries@, key@) == Some(
            entries@[i as int].1,
        ),
        r is None ==> lookup(entries@, key@) is None,
{
    let mut i: usize = 0;
    while i < entries.len()
        invariant
            i <= entries@.len(),
            forall|k: int| 0 <= k < i ==> (#[trigger] entries@[k]).0@ != key@,
        decreases entries@.len() - i,
    {
        let k = chars_of(entries[i].0.as_str());
        if chars_eq(k.as_slice(), key.as_slice()) {
            proof {
                assert(key_at(entries@, key@, i as int));
                let j = choose|j: int| key_at(entries@, key@, j);
                if j < i {
                } else if j > i {
                    assert(entries@[i as int].0@ == key@);
                }
            }
            return Some(i);
        }
        i = i + 1;
    }
    proof {
        if exists|j: int| key_at(entries@, key@, j) {
            let j = choose|j: int| key_at(entries@, key@, j);
            assert(entries@[j].0@ != key@);
        }
    }
    None
}

// ---------------------------------------------------------------------------
// Steam Store API

pub open spec fn type_game() -> Seq<char> {
    seq!['g', 'a', 'm', 'e']
}

pub open spec fn type_demo() -> Seq<char> {
    seq!['d', 'e', 'm', 'o']
}

/// What the Store API answer for `app_id` gives: the DLC ids it lists, in
/// order, each with its placeholder name and marked as from the store; or
/// why it gives none.
pub open spec fn store_dlcs_spec(app_id: u32, entries: Seq<(String, StoreResponse)>) -> Result<
    Seq<(u32, Seq<char>, bool)>,
    Seq<char>,
> {
    match lookup(entries, decimal(app_id as nat)) {
        None => Err("App not found in store response"@),
        Some(r) => if !r.success {
            Err("Store API returned failure"@)
        } else {
            match r.data {
                None => Err("No data in store response"@),
                Some(d) => if d.app_type@ != type_game() && d.app_type@ != type_demo() {
                    Err("App is not a game (type: "@ + d.app_type@ + ")"@)
                } else {
                    Ok(d.dlc@.map_values(as_store_dlc()))
                },
            }
        },
    }
}

/// The DLCs that the Store API answer for `app_id` lists.
pub fn store_dlcs(app_id: u32, entries: &Vec<(String, StoreResponse)>) -> (r: Result<
    Vec<DlcInfo>,
    String,
>)
    ensures
        match (r, store_dlcs_spec(app_id, entries@)) {
            (Ok(v), Ok(s)) => dlc_views(v@) == s,
            (Err(e), Err(s)) => e@ == s,
            _ => false,
        },
{
    let key = chars_of(decimal_string(app_id as u64).as_str());
    let i = match find_key(entries, &key) {
        Some(i) => i,
        None => {
            return Err(text("App not found in store response"));
        },
    };
    let resp = &entries[i].1;
    if !resp.success {
        return Err(text("Store API returned failure"));
    }
    let data = match &resp.data {
        Some(d) => d,
        None => {
            return Err(text("No data in store response"));
        },
    };
    let t = chars_of(data.app_type.as_str());
    let game = vec!['g', 'a', 'm', 'e'];
    let demo = vec!['d', 'e', 'm', 'o'];
    assert(game@ =~= type_game());
    assert(demo@ =~= type_demo());
    if !chars_eq(t.as_slice(), game.as_slice()) && !chars_eq(t.as_slice(), demo.as_slice()) {
        let mut m = text("App is not a game (type: ");
        m.append(data.app_type.as_str());
        m.append(")");
        return Err(m);
    }
    let mut out: Vec<DlcInfo> = Vec::new();
    let mut j: usize = 0;
    while j < data.dlc.len()
        invariant
            j <= data.dlc@.len(),
            dlc_views(out@) == data.dlc@.take(j as int).map_values(as_store_dlc()),
        decreases data.dlc@.len() - j,
    {
        let ghost before = out@;
        let d = placeholder(data.dlc[j], true);
        out.push(d);
        assert(dlc_views(out@) =~= dlc_views(before).push(dlc_view(d)));
        assert(data.dlc@.take(j + 1) == data.dlc@.take(j as int).push(data.dlc@[j as int]));
        j = j + 1;
        assert(dlc_views(out@) =~= data.dlc@.take(j as int).map_values(as_store_dlc()));
    }
    assert(data.dlc@.take(data.dlc@.len() as int) == data.dlc@);
    Ok(out)
}


// ---------------------------------------------------------------------------
// SteamCMD web API

/// A piece of `listofdlc`, trimmed and read as a `u32`.
pub open spec fn listed_id() -> spec_fn(Seq<char>) -> Option<u32> {
    |s: Seq<char>| parse_u32_spec(trim(s))
}

/// The DLC id that a depot's `dlcappid` gives: a string read as a `u32`, or
/// a number cut to its low 32 bits (`as u32`).
pub open spec fn depot_id(d: DepotDlcId) -> Option<u32> {
    match d {
        DepotDlcId::Text(s) => parse_u32_spec(s@),
        DepotDlcId::Number(n) => Some(n as u32),
        DepotDlcId::Other => None,
    }
}

/// The DLC ids an app's entry names, in order, before duplicates are
/// dropped: those of `listofdlc`, then those of the depots.
pub open spec fn candidate_ids(app: SteamCmdAppData) -> Seq<Option<u32>> {
    listed_ids(app) + app.depot_dlc_ids@.map_values(|d: DepotDlcId| depot_id(d))
}

/// The DLC ids that `listofdlc` names, in order.
pub open spec fn listed_ids(app: SteamCmdAppData) -> Seq<Option<u32>> {
    match app.listofdlc {
        Some(l) => split(l@, ',').map_values(listed_id()),
        None => Seq::empty(),
    }
}

/// The ids present in `c`, each once, in the order of first appearance.
pub open spec fn distinct_ids(c: Seq<Option<u32>>) -> Seq<u32>
    decreases c.len(),
{
    if c.len() == 0 {
        Seq::empty()
    } else {
        let r = distinct_ids(c.drop_last());
        match c.last() {
            Some(id) => if r.contains(id) {
                r
            } else {
                r.push(id)
            },
            None => r,
        }
    }
}

/// An id as SteamCMD lists it.
pub open spec fn as_hidden_dlc() -> spec_fn(u32) -> (u32, Seq<char>, bool) {
    |id: u32| (id, placeholder_name(id), false)
}

/// What the SteamCMD answer for `app_id` gives: the DLC ids it names, each
/// once, with placeholder names and not marked as from the store; or why
/// it gives none.
pub open spec fn steamcmd_dlcs_spec(app_id: u32, resp: SteamCmdResponse) -> Result<
    Seq<(u32, Seq<char>, bool)>,
    Seq<char>,
> {
    if !resp.success {
        Err("SteamCMD API returned failure"@)
    } else {
        match resp.data {
            None => Err("No data in SteamCMD response"@),
            Some(entries) => match lookup(entries@, decimal(app_id as nat)) {
                None => Err("App not found in SteamCMD response"@),
                Some(app) => Ok(distinct_ids(candidate_ids(app)).map_values(as_hidden_dlc())),
            },
        }
    }
}

fn contains_u32(v: &Vec<u32>, x: u32) -> (r: bool)
    ensures
        r == v@.contains(x),
{
    let mut i: usize = 0;
    while i < v.len()
        invariant
            i <= v@.len(),
            forall|k: int| 0 <= k < i ==> v@[k] != x,
        decreases v@.len() - i,
    {
        if v[i] == x {
            return true;
        }
        i = i + 1;
    }
    false
}

fn add_candidate(ids: &mut Vec<u32>, c: Option<u32>, Ghost(seen): Ghost<Seq<Option<u32>>>)
    requires
        old(ids)@ == distinct_ids(seen),
    ensures
        final(ids)@ == distinct_ids(seen.push(c)),
{
    assert(seen.push(c).drop_last() == seen);
    match c {
        Some(id) => {
            if !contains_u32(ids, id) {
                ids.push(id);
            }
        },
        None => {},
    }
}

fn depot_id_exec(d: &DepotDlcId) -> (r: Option<u32>)
    ensures
        r == depot_id(*d),
{
    match d {
        DepotDlcId::Text(s) => parse_u32(chars_of(s.as_str()).as_slice()),
        DepotDlcId::Number(n) => Some(*n as u32),
        DepotDlcId::Other => None,
    }
}

/// The DLCs that the SteamCMD answer for `app_id` names.
pub fn steamcmd_dlcs(app_id: u32, resp: &SteamCmdResponse) -> (r: Result<Vec<DlcInfo>, String>)
    ensures
        match (r, steamcmd_dlcs_spec(app_id, *resp)) {
            (Ok(v), Ok(s)) => dlc_views(v@) == s,
            (Err(e), Err(s)) => e@ == s,
            _ => false,
        },
{
    if !resp.success {
        return Err(text("SteamCMD API returned failure"));
    }
    let entries = match &resp.data {
        Some(e) => e,
        None => {
            return Err(text("No data in SteamCMD response"));
        },
    };
    let key = chars_of(decimal_string(app_id as u64).as_str());
    let app = match find_key(entries, &key) {
        Some(i) => &entries[i].1,
        None => {
            return Err(text("App not found in SteamCMD response"));
        },
    };
    let ghost cands = candidate_ids(*app);
    let mut ids: Vec<u32> = Vec::new();
    let ghost mut seen: Seq<Option<u32>> = Seq::empty();
    let ghost listed: Seq<Option<u32>> = listed_ids(*app);
    assert(ids@ == distinct_ids(seen));
    match &app.listofdlc {
        Some(l) => {
            let pieces = split_chars(chars_of(l.as_str()).as_slice(), ',');
            let mut i: usize = 0;
            while i < pieces.len()
                invariant
                    i <= pieces@.len(),
                    views(pieces@) == split(l@, ','),
                    listed == split(l@, ',').map_values(listed_id()),
                    seen == listed.take(i as int),
                    ids@ == distinct_ids(seen),
                decreases pieces@.len() - i,
            {
                let c = parse_u32(trim_chars(pieces[i].as_slice()).as_slice());
                assert(views(pieces@)[i as int] == pieces@[i as int]@);
                assert(c == listed[i as int]);
                add_candidate(&mut ids, c, Ghost(seen));
                proof {
                    seen = seen.push(c);
                    assert(seen == listed.take(i + 1));
                }
                i = i + 1;
            }
            assert(listed.take(pieces@.len() as int) == listed);
        },
        None => {},
    }
    assert(seen == listed);
    let ghost depots = app.depot_dlc_ids@.map_values(|d: DepotDlcId| depot_id(d));
    let mut j: usize = 0;
    while j < app.depot_dlc_ids.len()
        invariant
            j <= app.depot_dlc_ids@.len(),
            depots == app.depot_dlc_ids@.map_values(|d: DepotDlcId| depot_id(d)),
            seen == listed + depots.take(j as int),
            ids@ == distinct_ids(seen),
        decreases app.depot_dlc_ids@.len() - j,
    {
        let c = depot_id_exec(&app.depot_dlc_ids[j]);
        add_candidate(&mut ids, c, Ghost(seen));
        proof {
            seen = seen.push(c);
            assert(seen =~= listed + depots.take(j + 1));
        }
        j = j + 1;
    }
    assert(depots.take(depots.len() as int) == depots);
    assert(seen == cands);
    let mut out: Vec<DlcInfo> = Vec::new();
    let mut k: usize = 0;
    while k < ids.len()
        invariant
            k <= ids@.len(),
            dlc_views(out@) == ids@.take(k as int).map_values(as_hidden_dlc()),
        decreases ids@.len() - k,
    {
        let ghost before = out@;
        let d = placeholder(ids[k], false);
        out.push(d);
        assert(dlc_views(out@) =~= dlc_views(before).push(dlc_view(d)));
        assert(ids@.take(k + 1) == ids@.take(k as int).push(ids@[k as int]));
        k = k + 1;
        assert(dlc_views(out@) =~= ids@.take(k as int).map_values(as_hidden_dlc()));
    }
    assert(ids@.take(ids@.len() as int) == ids@);
    Ok(out)
}


// ---------------------------------------------------------------------------
// Merging the two lists

/// Some DLC in `s` has app id `id`.
pub open spec fn has_dlc_id(s: Seq<DlcInfo>, id: u32) -> bool {
    exists|k: int| 0 <= k < s.len() && s[k].app_id == id
}

/// `s[j]` is the last DLC in `s` with its app id.
pub open spec fn last_of_its_id(s: Seq<DlcInfo>, j: int) -> bool {
    &&& 0 <= j < s.len()
    &&& forall|k: int| j < k < s.len() ==> (#[trigger] s[k]).app_id != s[j].app_id
}

/// `s[j]` is the first DLC in `s` with its app id.
pub open spec fn first_of_its_id(s: Seq<DlcInfo>, j: int) -> bool {
    &&& 0 <= j < s.len()
    &&& forall|k: int| 0 <= k < j ==> (#[trigger] s[k]).app_id != s[j].app_id
}

/// The entry that the merged list holds for the app id of `d` is `d`: the
/// last store entry with that id where the store lists it, else the first
/// SteamCMD entry with it.
pub open spec fn merged_from(store: Seq<DlcInfo>, cmd: Seq<DlcInfo>, d: DlcInfo) -> bool {
    if has_dlc_id(store, d.app_id) {
        exists|j: int| last_of_its_id(store, j) && store[j] == d
    } else {
        exists|j: int| first_of_its_id(cmd, j) && cmd[j] == d
    }
}

/// App ids strictly increase along `s`.
pub open spec fn ids_increasing(s: Seq<DlcInfo>) -> bool {
    forall|i: int, j: int| 0 <= i < j < s.len() ==> (#[trigger] s[i]).app_id < (#[trigger] s[j]).app_id
}

/// The entries of a fetch that succeeded; none for one that failed.
pub open spec fn fetched(r: Result<Vec<DlcInfo>, String>) -> Seq<DlcInfo> {
    match r {
        Ok(v) => v@,
        Err(_) => Seq::empty(),
    }
}

/// The first place in `out` whose app id is not below `id`, and whether the
/// id is there.
fn find_slot(out: &Vec<DlcInfo>, id: u32) -> (r: (usize, bool))
    requires
        ids_increasing(out@),
    ensures
        r.0 <= out@.len(),
        forall|k: int| 0 <= k < r.0 ==> (#[trigger] out@[k]).app_id < id,
        forall|k: int| r.0 < k < out@.len() ==> (#[trigger] out@[k]).app_id > id,
        r.1 <==> (r.0 < out@.len() && out@[r.0 as int].app_id == id),
        !r.1 ==> r.0 < out@.len() ==> out@[r.0 as int].app_id > id,
        r.1 <==> has_dlc_id(out@, id),
{
    let mut p: usize = 0;
    while p < out.len() && out[p].app_id < id
        invariant
            p <= out@.len(),
            forall|k: int| 0 <= k < p ==> (#[trigger] out@[k]).app_id < id,
        decreases out@.len() - p,
    {
        p = p + 1;
    }
    let found = p < out.len() && out[p].app_id == id;
    proof {
        assert forall|k: int| p < k < out@.len() implies (#[trigger] out@[k]).app_id > id by {
            assert(out@[p as int].app_id < out@[k].app_id);
        }
        if has_dlc_id(out@, id) {
            let k = choose|k: int| 0 <= k < out@.len() && out@[k].app_id == id;
            if k != p {
                assert(out@[k].app_id != id);
            }
        }
        if found {
            assert(out@[p as int].app_id == id);
        }
    }
    (p, found)
}

/// Merges the DLC lists of the Store API and of SteamCMD (each where its
/// fetch succeeded): one entry per app id, the store's where it lists the id
/// (its last entry for it), else SteamCMD's (its first), ordered by app id.
/// Fails where neither list holds any DLC.
///
/// The entries are kept in a `Vec` ordered by app id while they are merged,
/// each placed by `find_slot`. A map keyed by app id would hand its entries
/// out in an unspecified order, to be sorted afterwards; keeping them in
/// order as they arrive gives that same list, and states the order as an
/// invariant of the loop.
pub fn merge_dlc_sources(
    store: Result<Vec<DlcInfo>, String>,
    cmd: Result<Vec<DlcInfo>, String>,
) -> (r: Result<Vec<DlcInfo>, String>)
    ensures
        r is Err <==> fetched(store).len() + fetched(cmd).len() == 0,
        r matches Err(e) ==> e@ == "No DLCs found from any source"@,
        r matches Ok(v) ==> {
            &&& ids_increasing(v@)
            &&& forall|i: int|
                0 <= i < v@.len() ==> merged_from(fetched(store), fetched(cmd), #[trigger] v@[i])
            &&& forall|k: int|
                0 <= k < fetched(store).len() ==> has_dlc_id(
                    v@,
                    (#[trigger] fetched(store)[k]).app_id,
                )
            &&& forall|k: int|
                0 <= k < fetched(cmd).len() ==> has_dlc_id(v@, (#[trigger] fetched(cmd)[k]).app_id)
        },
{
    let empty: Vec<DlcInfo> = Vec::new();
    let s = match store {
        Ok(v) => v,
        Err(_) => empty,
    };
    let empty2: Vec<DlcInfo> = Vec::new();
    let c = match cmd {
        Ok(v) => v,
        Err(_) => empty2,
    };
    let ghost ss = s@;
    let ghost cs = c@;
    assert(ss == fetched(store));
    assert(cs == fetched(cmd));
    let mut out: Vec<DlcInfo> = Vec::new();
    let ghost mut src: Seq<int> = Seq::empty();
    let mut i: usize = 0;
    while i < s.len()
        invariant
            i <= ss.len(),
            s@ == ss,
            ids_increasing(out@),
            src.len() == out@.len(),
            forall|q: int|
                0 <= q < out@.len() ==> 0 <= #[trigger] src[q] < i && last_of_its_id(
                    ss.take(i as int),
                    src[q],
                ) && out@[q] == ss[src[q]],
            forall|k: int| 0 <= k < i ==> has_dlc_id(out@, (#[trigger] ss[k]).app_id),
        decreases ss.len() - i,
    {
        let d = copy_dlc(&s[i]);
        let id = d.app_id;
        let (p, found) = find_slot(&out, id);
        let ghost old_out = out@;
        let ghost old_src = src;
        if found {
            out.set(p, d);
            proof {
                src = src.update(p as int, i as int);
            }
        } else {
            out.insert(p, d);
            proof {
                src = src.insert(p as int, i as int);
            }
        }
        proof {
            let t = ss.take(i + 1);
            assert(t[i as int] == ss[i as int]);
            assert forall|q: int|
                0 <= q < out@.len() implies 0 <= #[trigger] src[q] < i + 1 && last_of_its_id(
                    t,
                    src[q],
                ) && out@[q] == ss[src[q]] by {
                if src[q] != i {
                    let oq = if found || q < p {
                        q
                    } else {
                        q - 1
                    };
                    assert(out@[q] == old_out[oq]);
                    assert(src[q] == old_src[oq]);
                    assert(last_of_its_id(ss.take(i as int), old_src[oq]));
                    assert(old_out[oq].app_id != id);
                    assert forall|k: int| src[q] < k < t.len() implies (#[trigger] t[k]).app_id
                        != t[src[q]].app_id by {
                        if k < i {
                            assert(ss.take(i as int)[k] == t[k]);
                        }
                    }
                }
            }
            assert forall|q1: int, q2: int|
                0 <= q1 < q2 < out@.len() implies (#[trigger] out@[q1]).app_id < (
                #[trigger] out@[q2]).app_id by {
                if found {
                    assert(old_out[q1].app_id < old_out[q2].app_id);
                } else {
                    let o1 = if q1 < p {
                        q1
                    } else {
                        q1 - 1
                    };
                    let o2 = if q2 < p {
                        q2
                    } else {
                        q2 - 1
                    };
                    if q1 != p && q2 != p {
                        assert(old_out[o1].app_id < old_out[o2].app_id);
                    }
                }
            }
            assert forall|k: int| 0 <= k < i + 1 implies has_dlc_id(
                out@,
                (#[trigger] ss[k]).app_id,
            ) by {
                if k == i {
                    assert(out@[p as int].app_id == id);
                } else {
                    let m = choose|m: int|
                        0 <= m < old_out.len() && old_out[m].app_id == ss[k].app_id;
                    if found {
                        assert(out@[m].app_id == ss[k].app_id);
                    } else if m < p {
                        assert(out@[m] == old_out[m]);
                    } else {
                        assert(out@[m + 1] == old_out[m]);
                    }
                }
            }
        }
        i = i + 1;
    }
    assert(ss.take(ss.len() as int) == ss);
    proof {
        assert forall|q: int| 0 <= q < out@.len() implies merged_from(ss, cs, #[trigger] out@[q]) by {
            let j = src[q];
            assert(last_of_its_id(ss, j) && out@[q] == ss[j]);
            assert(has_dlc_id(ss, out@[q].app_id));
        }
    }
    let mut j: usize = 0;
    while j < c.len()
        invariant
            j <= cs.len(),
            c@ == cs,
            ids_increasing(out@),
            forall|q: int| 0 <= q < out@.len() ==> merged_from(ss, cs, #[trigger] out@[q]),
            forall|k: int| 0 <= k < ss.len() ==> has_dlc_id(out@, (#[trigger] ss[k]).app_id),
            forall|k: int| 0 <= k < j ==> has_dlc_id(out@, (#[trigger] cs[k]).app_id),
        decreases cs.len() - j,
    {
        let d = copy_dlc(&c[j]);
        let id = d.app_id;
        let (p, found) = find_slot(&out, id);
        if !found {
            let ghost old_out = out@;
            proof {
                assert(!has_dlc_id(ss, id)) by {
                    if has_dlc_id(ss, id) {
                        let k = choose|k: int| 0 <= k < ss.len() && ss[k].app_id == id;
                        assert(has_dlc_id(old_out, ss[k].app_id));
                    }
                }
                assert forall|k: int| 0 <= k < j implies (#[trigger] cs[k]).app_id != id by {
                    assert(has_dlc_id(old_out, cs[k].app_id));
                }
                assert(first_of_its_id(cs, j as int));
                assert(merged_from(ss, cs, d));
            }
            out.insert(p, d);
            proof {
                assert forall|q: int| 0 <= q < out@.len() implies merged_from(
                    ss,
                    cs,
                    #[trigger] out@[q],
                ) by {
                    if q < p {
                        assert(out@[q] == old_out[q]);
                    } else if q > p {
                        assert(out@[q] == old_out[q - 1]);
                    }
                }
                assert forall|q1: int, q2: int|
                    0 <= q1 < q2 < out@.len() implies (#[trigger] out@[q1]).app_id < (
                    #[trigger] out@[q2]).app_id by {
                    let o1 = if q1 < p {
                        q1
                    } else {
                        q1 - 1
                    };
                    let o2 = if q2 < p {
                        q2
                    } else {
                        q2 - 1
                    };
                    if q1 != p && q2 != p {
                        assert(old_out[o1].app_id < old_out[o2].app_id);
                    }
                }
                assert forall|x: u32| has_dlc_id(old_out, x) implies has_dlc_id(out@, x) by {
                    let m = choose|m: int| 0 <= m < old_out.len() && old_out[m].app_id == x;
                    if m < p {
                        assert(out@[m] == old_out[m]);
                    } else {
                        assert(out@[m + 1] == old_out[m]);
                    }
                }
                assert(out@[p as int].app_id == id);
            }
        }
        j = j + 1;
    }
    proof {
        assert forall|q: int| 0 <= q < out@.len() implies merged_from(ss, cs, #[trigger] out@[q]) by {
        }
    }
    if out.len() == 0 {
        proof {
            if ss.len() > 0 {
                assert(has_dlc_id(out@, ss[0].app_id));
            }
            if cs.len() > 0 {
                assert(has_dlc_id(out@, cs[0].app_id));
            }
        }
        return Err(text("No DLCs found from any source"));
    }
    proof {
        if ss.len() + cs.len() == 0 {
            assert(merged_from(ss, cs, out@[0]));
        }
    }
    Ok(out)
}


// ---------------------------------------------------------------------------
// Names

pub open spec fn placeholder_prefix() -> Seq<char> {
    seq!['D', 'L', 'C', ' ']
}

/// Whether a DLC still carries a placeholder name, and so its name is to be
/// looked up: its name begins with `DLC `.
pub fn needs_name(dlc: &DlcInfo) -> (r: bool)
    ensures
        r == starts_with(dlc.name@, placeholder_prefix()),
{
    let prefix = vec!['D', 'L', 'C', ' '];
    assert(prefix@ =~= placeholder_prefix());
    starts_with_chars(chars_of(dlc.name.as_str()).as_slice(), prefix.as_slice())
}

/// A DLC needs its name looked up exactly where its name begins with the
/// four characters `DLC `, whatever follows; so every placeholder name,
/// `DLC ` followed by an app id in decimal, needs it.
pub proof fn lemma_placeholders_need_names(name: Seq<char>, id: u32)
    ensures
        starts_with(name, placeholder_prefix()) <==> (name.len() >= 4 && name[0] == 'D' && name[1]
            == 'L' && name[2] == 'C' && name[3] == ' '),
        starts_with("DLC "@ + decimal(id as nat), placeholder_prefix()),
        starts_with(placeholder_name(id), placeholder_prefix()),
{
    reveal_strlit("DLC ");
    let pre = placeholder_prefix();
    if name.len() >= 4 && name[0] == 'D' && name[1] == 'L' && name[2] == 'C' && name[3] == ' ' {
        assert(name.take(4) =~= pre);
    }
    let full = "DLC "@ + decimal(id as nat);
    assert(full.take(4) =~= pre);
}

/// The name that a Store API answer gives for `app_id`, if it gives one.
pub open spec fn resolved_name(app_id: u32, entries: Seq<(String, StoreResponse)>) -> Option<
    Seq<char>,
> {
    match lookup(entries, decimal(app_id as nat)) {
        Some(r) => if r.success {
            match r.data {
                Some(d) => match d.name {
                    Some(n) => Some(n@),
                    None => None,
                },
                None => None,
            }
        } else {
            None
        },
        None => None,
    }
}

/// Gives a DLC the name that the Store API answer for its app id holds,
/// where the answer holds one; otherwise leaves it as it is.
pub fn resolve_name(dlc: &mut DlcInfo, entries: &Vec<(String, StoreResponse)>)
    ensures
        final(dlc).app_id == old(dlc).app_id,
        final(dlc).from_store == old(dlc).from_store,
        resolved_name(old(dlc).app_id, entries@) matches Some(n) ==> final(dlc).name@ == n,
        resolved_name(old(dlc).app_id, entries@) is None ==> final(dlc).name == old(dlc).name,
{
    let key = chars_of(decimal_string(dlc.app_id as u64).as_str());
    match find_key(entries, &key) {
        Some(i) => {
            let resp = &entries[i].1;
            if resp.success {
                match &resp.data {
                    Some(d) => match &d.name {
                        Some(n) => {
                            dlc.name = n.clone();
                        },
                        None => {},
                    },
                    None => {},
                }
            }
        },
        None => {},
    }
}

// ---------------------------------------------------------------------------
// Laws

/// SteamCMD's DLC ids come out without duplicates.
pub proof fn lemma_distinct_ids_unique(c: Seq<Option<u32>>)
    ensures
        forall|i: int, j: int|
            0 <= i < j < distinct_ids(c).len() ==> #[trigger] distinct_ids(c)[i]
                != #[trigger] distinct_ids(c)[j],
    decreases c.len(),
{
    if c.len() > 0 {
        let p = c.drop_last();
        lemma_distinct_ids_unique(p);
        let r = distinct_ids(p);
        let d = distinct_ids(c);
        assert forall|i: int, j: int| 0 <= i < j < d.len() implies #[trigger] d[i] != #[trigger] d[j] by {
            if j < r.len() {
                assert(d[i] == r[i] && d[j] == r[j]);
            } else {
                assert(d[i] == r[i]);
                assert(!r.contains(d[j]));
            }
        }
    }
}

/// Every id that SteamCMD's answer names is in the list it gives, and only
/// those ids are.
pub proof fn lemma_distinct_ids_complete(c: Seq<Option<u32>>)
    ensures
        forall|k: int|
            0 <= k < c.len() && (#[trigger] c[k]) is Some ==> distinct_ids(c).contains(c[k]->0),
        forall|i: int|
            0 <= i < distinct_ids(c).len() ==> c.contains(Some(#[trigger] distinct_ids(c)[i])),
    decreases c.len(),
{
    if c.len() > 0 {
        let p = c.drop_last();
        lemma_distinct_ids_complete(p);
        let r = distinct_ids(p);
        assert forall|k: int| 0 <= k < c.len() && (#[trigger] c[k]) is Some implies distinct_ids(
            c,
        ).contains(c[k]->0) by {
            if k < c.len() - 1 {
                assert(p[k] == c[k]);
                let w = choose|w: int| 0 <= w < r.len() && r[w] == c[k]->0;
                assert(distinct_ids(c)[w] == r[w]);
            } else if !r.contains(c[k]->0) {
                assert(distinct_ids(c)[r.len() as int] == c[k]->0);
            }
        }
        assert forall|i: int| 0 <= i < distinct_ids(c).len() implies c.contains(
            Some(#[trigger] distinct_ids(c)[i]),
        ) by {
            if i < r.len() {
                assert(distinct_ids(c)[i] == r[i]);
                let w = choose|w: int| 0 <= w < p.len() && p[w] == Some(r[i]);
                assert(c[w] == p[w]);
            } else {
                assert(c[c.len() - 1] == Some(distinct_ids(c)[i]));
            }
        }
    }
}

/// In the merged list, a DLC is marked as from the store exactly where the
/// store lists its app id, given that the store's entries are so marked
/// and SteamCMD's are not: DLCs only SteamCMD knows are the hidden ones.
pub proof fn lemma_hidden_iff_only_steamcmd(
    store: Seq<DlcInfo>,
    cmd: Seq<DlcInfo>,
    d: DlcInfo,
)
    requires
        forall|k: int| 0 <= k < store.len() ==> (#[trigger] store[k]).from_store,
        forall|k: int| 0 <= k < cmd.len() ==> !(#[trigger] cmd[k]).from_store,
        merged_from(store, cmd, d),
    ensures
        d.from_store <==> has_dlc_id(store, d.app_id),
{
    if has_dlc_id(store, d.app_id) {
        let j = choose|j: int| last_of_its_id(store, j) && store[j] == d;
        assert(store[j].from_store);
    } else {
        let j = choose|j: int| first_of_its_id(cmd, j) && cmd[j] == d;
        assert(!cmd[j].from_store);
    }
}

} // verus!
