//! The application catalog: the three sources joined, one entry per launch
//! target (the first one seen wins), excluded paths dropped, and the rest
//! ordered by lowercased name.
use vstd::prelude::*;
use crate::keywords::{chars_eq, less_than, str_lt};
use crate::models::{AppType, AppView, ApplicationInfo};
use crate::query::app_views;
use crate::scoring::{lower_of, to_lowercase};
use crate::text::{ascii_lower, to_ascii_lower, to_chars};

verus! {

/// The path that identifies what an entry launches: its source path when it
/// has one, else its path.
pub open spec fn effective_path(a: AppView) -> Seq<char> {
    match a.source_path {
        Some(s) => s,
        None => a.path,
    }
}

/// Entries with equal keys launch the same thing the same way.
pub open spec fn app_key(a: AppView) -> (AppType, Seq<char>) {
    (a.app_type, ascii_lower(effective_path(a)))
}

/// Entries that may not both stand in one catalog: same key, or same id.
pub open spec fn clash(a: AppView, b: AppView) -> bool {
    app_key(a) == app_key(b) || a.id == b.id
}

pub open spec fn has_clash(s: Seq<AppView>, x: AppView) -> bool {
    exists|j: int| 0 <= j < s.len() && clash(#[trigger] s[j], x)
}

/// Whether the entry's path is one of the excluded ones, ignoring ASCII case.
pub open spec fn excluded(a: AppView, excl: Seq<Seq<char>>) -> bool {
    exists|j: int| 0 <= j < excl.len() && ascii_lower(#[trigger] excl[j]) == ascii_lower(
        effective_path(a),
    )
}

/// The entries that are not excluded, each key and each id kept at its
/// first entry.
pub open spec fn unique_entries(s: Seq<AppView>, excl: Seq<Seq<char>>) -> Seq<AppView>
    decreases s.len(),
{
    if s.len() == 0 {
        Seq::empty()
    } else {
        let d = unique_entries(s.drop_last(), excl);
        if excluded(s.last(), excl) || has_clash(d, s.last()) {
            d
        } else {
            d.push(s.last())
        }
    }
}

/// The sort key of an entry: its name lowercased.
pub open spec fn name_key(a: AppView) -> Seq<char> {
    lower_of(a.name)
}

/// Index of the first element of `s` whose key comes after `k`.
pub open spec fn first_after(s: Seq<AppView>, k: Seq<char>) -> nat
    decreases s.len(),
{
    if s.len() == 0 {
        0
    } else if str_lt(k, name_key(s[0])) {
        0
    } else {
        1 + first_after(s.drop_first(), k)
    }
}

/// `s` sorted by lowercased name, equal names in their order in `s`.
pub open spec fn sort_by_name(s: Seq<AppView>) -> Seq<AppView>
    decreases s.len(),
{
    if s.len() == 0 {
        Seq::empty()
    } else {
        let d = sort_by_name(s.drop_last());
        let p = first_after(d, name_key(s.last())) as int;
        d.take(p) + seq![s.last()] + d.skip(p)
    }
}

/// The catalog made from the sources' entries, in enumeration order.
pub open spec fn catalog_of(s: Seq<AppView>, excl: Seq<Seq<char>>) -> Seq<AppView> {
    sort_by_name(unique_entries(s, excl))
}

/// No two entries share a key.
pub open spec fn keys_unique(s: Seq<AppView>) -> bool {
    forall|i: int, j: int| 0 <= i < j < s.len() ==> app_key(#[trigger] s[i]) != app_key(#[trigger] s[j])
}

/// No two entries share an id.
pub open spec fn ids_unique(s: Seq<AppView>) -> bool {
    forall|i: int, j: int| 0 <= i < j < s.len() ==> (#[trigger] s[i]).id != (#[trigger] s[j]).id
}

/// No two entries clash.
pub open spec fn entries_distinct(s: Seq<AppView>) -> bool {
    forall|i: int, j: int| 0 <= i < j < s.len() ==> !clash(#[trigger] s[i], #[trigger] s[j])
}

proof fn lemma_first_after_at(s: Seq<AppView>, k: Seq<char>, p: int)
    requires
        0 <= p <= s.len(),
        forall|m: int| 0 <= m < p ==> !str_lt(k, name_key(#[trigger] s[m])),
        p < s.len() ==> str_lt(k, name_key(s[p])),
    ensures
        first_after(s, k) == p,
    decreases p,
{
    if p > 0 {
        assert forall|m: int| 0 <= m < p - 1 implies !str_lt(k, name_key(#[trigger] s.drop_first()[m])) by {
            assert(s.drop_first()[m] == s[m + 1]);
        }
        if p < s.len() {
            assert(s.drop_first()[p - 1] == s[p]);
        }
        lemma_first_after_at(s.drop_first(), k, p - 1);
    }
}

proof fn lemma_first_after_bound(s: Seq<AppView>, k: Seq<char>)
    ensures
        first_after(s, k) <= s.len(),
    decreases s.len(),
{
    if s.len() > 0 {
        lemma_first_after_bound(s.drop_first(), k);
    }
}

/// Sorting by name keeps exactly the entries it is given, as many of them.
pub proof fn lemma_sort_members(s: Seq<AppView>)
    ensures
        sort_by_name(s).len() == s.len(),
        forall|x: AppView| sort_by_name(s).contains(x) <==> s.contains(x),
    decreases s.len(),
{
    if s.len() > 0 {
        let d = sort_by_name(s.drop_last());
        lemma_sort_members(s.drop_last());
        lemma_first_after_bound(d, name_key(s.last()));
        let p = first_after(d, name_key(s.last())) as int;
        let r = d.take(p) + seq![s.last()] + d.skip(p);
        assert forall|x: AppView| r.contains(x) <==> s.contains(x) by {
            if r.contains(x) {
                let i = choose|i: int| 0 <= i < r.len() && r[i] == x;
                if i < p {
                    assert(d[i] == x);
                    assert(d.contains(x));
                    assert(s.drop_last().contains(x));
                    let m = choose|m: int| 0 <= m < s.drop_last().len() && s.drop_last()[m] == x;
                    assert(s[m] == x);
                } else if i == p {
                    assert(s[s.len() - 1] == x);
                } else {
                    assert(d[i - 1] == x);
                    assert(d.contains(x));
                    assert(s.drop_last().contains(x));
                    let m = choose|m: int| 0 <= m < s.drop_last().len() && s.drop_last()[m] == x;
                    assert(s[m] == x);
                }
            }
            if s.contains(x) {
                let i = choose|i: int| 0 <= i < s.len() && s[i] == x;
                if i == s.len() - 1 {
                    assert(r[p] == x);
                } else {
                    assert(s.drop_last()[i] == x);
                    assert(s.drop_last().contains(x));
                    assert(d.contains(x));
                    let m = choose|m: int| 0 <= m < d.len() && d[m] == x;
                    if m < p {
                        assert(r[m] == x);
                    } else {
                        assert(r[m + 1] == x);
                    }
                }
            }
        }
    }
}

/// Sorting by name keeps entries distinct.
pub proof fn lemma_sort_keeps_distinct(s: Seq<AppView>)
    requires
        entries_distinct(s),
    ensures
        entries_distinct(sort_by_name(s)),
    decreases s.len(),
{
    if s.len() > 0 {
        let x = s.last();
        let d = sort_by_name(s.drop_last());
        assert(entries_distinct(s.drop_last())) by {
            assert forall|i: int, j: int| 0 <= i < j < s.drop_last().len() implies !clash(
                #[trigger] s.drop_last()[i],
                #[trigger] s.drop_last()[j],
            ) by {
                assert(s.drop_last()[i] == s[i] && s.drop_last()[j] == s[j]);
            }
        }
        lemma_sort_keeps_distinct(s.drop_last());
        lemma_sort_members(s.drop_last());
        lemma_first_after_bound(d, name_key(x));
        let p = first_after(d, name_key(x)) as int;
        let r = d.take(p) + seq![x] + d.skip(p);
        assert forall|m: int| 0 <= m < d.len() implies !clash(#[trigger] d[m], x) by {
            assert(d.contains(d[m]));
            assert(s.drop_last().contains(d[m]));
            let i = choose|i: int| 0 <= i < s.drop_last().len() && s.drop_last()[i] == d[m];
            assert(s[i] == d[m]);
            assert(s[s.len() - 1] == x);
        }
        assert forall|i: int, j: int| 0 <= i < j < r.len() implies !clash(#[trigger] r[i], #[trigger] r[j]) by {
            let i0 = if i < p { i } else { i - 1 };
            let j0 = if j < p { j } else { j - 1 };
            if i == p {
                assert(r[j] == d[j0]);
            } else if j == p {
                assert(r[i] == d[i0]);
            } else {
                assert(r[i] == d[i0] && r[j] == d[j0]);
            }
        }
    }
}

/// The entries kept by the unique pass have unique keys, and every key of
/// a non-excluded entry is among them.
pub proof fn lemma_unique_entries(s: Seq<AppView>, excl: Seq<Seq<char>>)
    ensures
        entries_distinct(unique_entries(s, excl)),
        forall|x: AppView| #[trigger]
            unique_entries(s, excl).contains(x) ==> s.contains(x) && !excluded(x, excl),
    decreases s.len(),
{
    if s.len() > 0 {
        lemma_unique_entries(s.drop_last(), excl);
        let d = unique_entries(s.drop_last(), excl);
        let x = s.last();
        let r = unique_entries(s, excl);
        if !(excluded(x, excl) || has_clash(d, x)) {
            assert forall|i: int, j: int| 0 <= i < j < r.len() implies app_key(#[trigger] r[i])
                != app_key(#[trigger] r[j]) by {
                if j == d.len() {
                    assert(r[i] == d[i]);
                    assert(r[j] == x);
                } else {
                    assert(r[i] == d[i] && r[j] == d[j]);
                }
            }
        }
        assert forall|y: AppView| #[trigger] r.contains(y) implies s.contains(y) && !excluded(
            y,
            excl,
        ) by {
            let i = choose|i: int| 0 <= i < r.len() && r[i] == y;
            if i < d.len() {
                assert(r[i] == d[i]);
                assert(d.contains(y));
                let m = choose|m: int| 0 <= m < s.drop_last().len() && s.drop_last()[m] == y;
                assert(s[m] == y);
            } else {
                assert(s[s.len() - 1] == y);
            }
        }
    }
}

/// No two entries of a built catalog share a (launch kind, lowercased
/// effective path) key, nor an id.
pub proof fn lemma_catalog_keys_unique(s: Seq<AppView>, excl: Seq<Seq<char>>)
    ensures
        keys_unique(catalog_of(s, excl)),
        ids_unique(catalog_of(s, excl)),
{
    lemma_unique_entries(s, excl);
    lemma_sort_keeps_distinct(unique_entries(s, excl));
    let c = catalog_of(s, excl);
    assert forall|i: int, j: int| 0 <= i < j < c.len() implies app_key(#[trigger] c[i]) != app_key(
        #[trigger] c[j],
    ) && c[i].id != c[j].id by {
        assert(!clash(c[i], c[j]));
    }
}

/// Of entries that share a key (and whose ids are not taken by an earlier
/// entry), the one enumerated first is the one the
/// catalog keeps (when its path is not excluded): a Start-menu shortcut,
/// listed before the registry's entries, wins over a registry entry for the
/// same executable.
pub proof fn lemma_first_entry_wins(s: Seq<AppView>, excl: Seq<Seq<char>>, i: int)
    requires
        0 <= i < s.len(),
        !excluded(s[i], excl),
        forall|m: int| 0 <= m < i ==> !clash(#[trigger] s[m], s[i]),
    ensures
        catalog_of(s, excl).contains(s[i]),
        forall|y: AppView|
            catalog_of(s, excl).contains(y) && app_key(y) == app_key(s[i]) ==> y == s[i],
    decreases s.len(),
{
    lemma_unique_in(s, excl, i);
    lemma_unique_entries(s, excl);
    lemma_sort_members(unique_entries(s, excl));
    let u = unique_entries(s, excl);
    assert forall|y: AppView| catalog_of(s, excl).contains(y) && app_key(y) == app_key(
        s[i],
    ) implies y == s[i] by {
        assert(u.contains(y));
        let a = choose|a: int| 0 <= a < u.len() && u[a] == y;
        let b = choose|b: int| 0 <= b < u.len() && u[b] == s[i];
        if a != b {
            if a < b {
                assert(!clash(u[a], u[b]));
            } else {
                assert(!clash(u[b], u[a]));
            }
        }
    }
}

proof fn lemma_unique_in(s: Seq<AppView>, excl: Seq<Seq<char>>, i: int)
    requires
        0 <= i < s.len(),
        !excluded(s[i], excl),
        forall|m: int| 0 <= m < i ==> !clash(#[trigger] s[m], s[i]),
    ensures
        unique_entries(s, excl).contains(s[i]),
    decreases s.len(),
{
    let d = unique_entries(s.drop_last(), excl);
    if i == s.len() - 1 {
        lemma_unique_entries(s.drop_last(), excl);
        if has_clash(d, s[i]) {
            let j = choose|j: int| 0 <= j < d.len() && clash(#[trigger] d[j], s[i]);
            assert(d.contains(d[j]));
            let m = choose|m: int| 0 <= m < s.drop_last().len() && s.drop_last()[m] == d[j];
            assert(s[m] == d[j]);
        }
        assert(unique_entries(s, excl)[d.len() as int] == s[i]);
    } else {
        assert forall|m: int| 0 <= m < i implies !clash(#[trigger] s.drop_last()[m], s.drop_last()[i]) by {
            assert(s.drop_last()[m] == s[m]);
        }
        lemma_unique_in(s.drop_last(), excl, i);
        assert(s.drop_last()[i] == s[i]);
        let r = unique_entries(s, excl);
        let j = choose|j: int| 0 <= j < d.len() && d[j] == s[i];
        assert(r[j] == s[i]);
    }
}

} // verus!

verus! {

fn effective_path_chars(a: &ApplicationInfo) -> (r: Vec<char>)
    ensures
        r@ == effective_path(a@),
{
    match &a.source_path {
        Some(s) => to_chars(s.as_str()),
        None => to_chars(a.path.as_str()),
    }
}

fn is_excluded(path_lower: &Vec<char>, exclusions: &Vec<Vec<char>>) -> (r: bool)
    ensures
        r == exists|j: int| 0 <= j < exclusions@.len() && (#[trigger] exclusions@[j])@ == path_lower@,
{
    let mut j: usize = 0;
    while j < exclusions.len()
        invariant
            j <= exclusions@.len(),
            forall|m: int| 0 <= m < j ==> (#[trigger] exclusions@[m])@ != path_lower@,
        decreases exclusions@.len() - j,
    {
        if chars_eq(exclusions[j].as_slice(), path_lower.as_slice()) {
            return true;
        }
        j = j + 1;
    }
    false
}

fn key_seen(t: AppType, path_lower: &Vec<char>, keys: &Vec<(AppType, Vec<char>)>) -> (r: bool)
    ensures
        r == exists|j: int| 0 <= j < keys@.len() && (#[trigger] keys@[j]).0 == t && keys@[j].1@ == path_lower@,
{
    let mut j: usize = 0;
    while j < keys.len()
        invariant
            j <= keys@.len(),
            forall|m: int| 0 <= m < j ==> !((#[trigger] keys@[m]).0 == t && keys@[m].1@ == path_lower@),
        decreases keys@.len() - j,
    {
        if keys[j].0 == t && chars_eq(keys[j].1.as_slice(), path_lower.as_slice()) {
            return true;
        }
        j = j + 1;
    }
    false
}

fn id_seen(id: &Vec<char>, ids: &Vec<Vec<char>>) -> (r: bool)
    ensures
        r == exists|j: int| 0 <= j < ids@.len() && (#[trigger] ids@[j])@ == id@,
{
    let mut j: usize = 0;
    while j < ids.len()
        invariant
            j <= ids@.len(),
            forall|m: int| 0 <= m < j ==> (#[trigger] ids@[m])@ != id@,
        decreases ids@.len() - j,
    {
        if chars_eq(ids[j].as_slice(), id.as_slice()) {
            return true;
        }
        j = j + 1;
    }
    false
}

/// Keeps the entries that are not excluded, each key and id at its first
/// entry.
fn keep_unique(apps: Vec<ApplicationInfo>, exclusions: &Vec<String>) -> (r: Vec<ApplicationInfo>)
    ensures
        app_views(r@) == unique_entries(app_views(apps@), crate::keywords::views(exclusions@)),
{
    let ghost ex = crate::keywords::views(exclusions@);
    let mut excl_lower: Vec<Vec<char>> = Vec::new();
    let mut e: usize = 0;
    while e < exclusions.len()
        invariant
            e <= exclusions@.len(),
            ex == crate::keywords::views(exclusions@),
            excl_lower@.len() == e,
            forall|m: int| 0 <= m < e ==> (#[trigger] excl_lower@[m])@ == ascii_lower(ex[m]),
        decreases exclusions@.len() - e,
    {
        excl_lower.push(to_ascii_lower(to_chars(exclusions[e].as_str()).as_slice()));
        e = e + 1;
    }
    let ghost all = app_views(apps@);
    let n = apps.len();
    let mut apps = apps;
    let mut kept: Vec<ApplicationInfo> = Vec::new();
    let mut keys: Vec<(AppType, Vec<char>)> = Vec::new();
    let mut ids: Vec<Vec<char>> = Vec::new();
    let mut k: usize = 0;
    while apps.len() > 0
        invariant
            apps@.len() + k == n,
            n == all.len(),
            forall|i: int| 0 <= i < apps@.len() ==> (#[trigger] apps@[i])@ == all[k + i],
            app_views(kept@) == unique_entries(all.take(k as int), ex),
            keys@.len() == kept@.len(),
            forall|i: int| 0 <= i < keys@.len() ==> ((#[trigger] keys@[i]).0, keys@[i].1@) == app_key(kept@[i]@),
            ids@.len() == kept@.len(),
            forall|i: int| 0 <= i < ids@.len() ==> (#[trigger] ids@[i])@ == kept@[i]@.id,
            excl_lower@.len() == ex.len(),
            forall|m: int| 0 <= m < ex.len() ==> (#[trigger] excl_lower@[m])@ == ascii_lower(ex[m]),
        decreases apps@.len(),
    {
        let a = apps.remove(0);
        let path_lower = to_ascii_lower(effective_path_chars(&a).as_slice());
        let ghost before = app_views(kept@);
        proof {
            assert(all.take(k + 1).drop_last() =~= all.take(k as int));
            assert(all.take(k + 1).last() == a@);
        }
        let idc = to_chars(a.id.as_str());
        let skip_it = is_excluded(&path_lower, &excl_lower) || key_seen(a.app_type, &path_lower, &keys)
            || id_seen(&idc, &ids);
        proof {
            let ex_spec = excluded(a@, ex);
            if ex_spec {
                let j = choose|j: int| 0 <= j < ex.len() && ascii_lower(#[trigger] ex[j]) == ascii_lower(effective_path(a@));
                assert(excl_lower@[j]@ == path_lower@);
            }
            if exists|j: int| 0 <= j < excl_lower@.len() && (#[trigger] excl_lower@[j])@ == path_lower@ {
                let j = choose|j: int| 0 <= j < excl_lower@.len() && (#[trigger] excl_lower@[j])@ == path_lower@;
                assert(ascii_lower(ex[j]) == ascii_lower(effective_path(a@)));
            }
            if has_clash(before, a@) {
                let j = choose|j: int| 0 <= j < before.len() && clash(#[trigger] before[j], a@);
                assert(before[j] == kept@[j]@);
                if app_key(before[j]) == app_key(a@) {
                    assert(keys@[j].0 == a.app_type && keys@[j].1@ == path_lower@);
                } else {
                    assert(ids@[j]@ == idc@);
                }
            }
            if exists|j: int| 0 <= j < ids@.len() && (#[trigger] ids@[j])@ == idc@ {
                let j = choose|j: int| 0 <= j < ids@.len() && (#[trigger] ids@[j])@ == idc@;
                assert(before[j] == kept@[j]@);
                assert(clash(before[j], a@));
            }
            if exists|j: int| 0 <= j < keys@.len() && (#[trigger] keys@[j]).0 == a.app_type && keys@[j].1@ == path_lower@ {
                let j = choose|j: int| 0 <= j < keys@.len() && (#[trigger] keys@[j]).0 == a.app_type && keys@[j].1@ == path_lower@;
                assert(before[j] == kept@[j]@);
                assert(app_key(before[j]) == app_key(a@));
                assert(clash(before[j], a@));
            }
        }
        if !skip_it {
            keys.push((a.app_type, path_lower));
            ids.push(idc);
            kept.push(a);
            proof {
                assert(app_views(kept@) =~= before.push(a@));
                assert forall|i: int| 0 <= i < keys@.len() implies ((#[trigger] keys@[i]).0, keys@[i].1@) == app_key(kept@[i]@) by {
                    if i < keys@.len() - 1 {
                    }
                }
                assert forall|i: int| 0 <= i < ids@.len() implies (#[trigger] ids@[i])@ == kept@[i]@.id by {
                    if i < ids@.len() - 1 {
                    }
                }
            }
        }
        k = k + 1;
    }
    assert(all.take(n as int) =~= all);
    kept
}

/// Orders entries by lowercased name; equal names keep their order.
fn sort_apps_by_name(apps: Vec<ApplicationInfo>) -> (r: Vec<ApplicationInfo>)
    ensures
        app_views(r@) == sort_by_name(app_views(apps@)),
{
    let ghost all = app_views(apps@);
    let n = apps.len();
    let mut apps = apps;
    let mut out: Vec<ApplicationInfo> = Vec::new();
    let mut out_keys: Vec<Vec<char>> = Vec::new();
    let mut k: usize = 0;
    while apps.len() > 0
        invariant
            apps@.len() + k == n,
            n == all.len(),
            forall|i: int| 0 <= i < apps@.len() ==> (#[trigger] apps@[i])@ == all[k + i],
            app_views(out@) == sort_by_name(all.take(k as int)),
            out_keys@.len() == out@.len(),
            forall|i: int| 0 <= i < out@.len() ==> (#[trigger] out_keys@[i])@ == name_key(out@[i]@),
        decreases apps@.len(),
    {
        let a = apps.remove(0);
        let ka = to_chars(to_lowercase(a.name.as_str()).as_str());
        let ghost before = app_views(out@);
        let mut p: usize = 0;
        while p < out.len() && !less_than(ka.as_slice(), out_keys[p].as_slice())
            invariant
                p <= out@.len(),
                out_keys@.len() == out@.len(),
                before == app_views(out@),
                forall|i: int| 0 <= i < out@.len() ==> (#[trigger] out_keys@[i])@ == name_key(out@[i]@),
                forall|m: int| 0 <= m < p ==> !str_lt(ka@, name_key(#[trigger] before[m])),
            decreases out@.len() - p,
        {
            assert(before[p as int] == out@[p as int]@);
            p = p + 1;
        }
        proof {
            if p < out@.len() {
                assert(before[p as int] == out@[p as int]@);
            }
            lemma_first_after_at(before, ka@, p as int);
            assert(all.take(k + 1).drop_last() =~= all.take(k as int));
            assert(all.take(k + 1).last() == a@);
        }
        let ghost ka_v = ka@;
        out.insert(p, a);
        out_keys.insert(p, ka);
        proof {
            assert(app_views(out@) =~= before.take(p as int) + seq![all[k as int]] + before.skip(p as int));
            assert forall|i: int| 0 <= i < out@.len() implies (#[trigger] out_keys@[i])@ == name_key(out@[i]@) by {
                if i < p {
                } else if i == p {
                } else {
                }
            }
        }
        k = k + 1;
    }
    assert(all.take(n as int) =~= all);
    out
}

/// Builds the catalog from the entries of the three sources (Start-menu
/// shortcuts, installed programs, packaged apps, in that order): one entry
/// per (launch kind, lowercased effective path) and per id, the first one
/// seen kept, entries whose path is excluded dropped, the rest sorted by
/// lowercased name.
pub fn build_index(
    start_menu: Vec<ApplicationInfo>,
    installed: Vec<ApplicationInfo>,
    packaged: Vec<ApplicationInfo>,
    exclusions: &Vec<String>,
) -> (r: Vec<ApplicationInfo>)
    ensures
        app_views(r@) == catalog_of(
            app_views(start_menu@) + app_views(installed@) + app_views(packaged@),
            crate::keywords::views(exclusions@),
        ),
        crate::catalog::keys_unique(app_views(r@)),
        crate::catalog::ids_unique(app_views(r@)),
{
    let ghost joined = start_menu@ + installed@ + packaged@;
    let ghost target = app_views(start_menu@) + app_views(installed@) + app_views(packaged@);
    let mut all = start_menu;
    let mut installed = installed;
    let mut packaged = packaged;
    all.append(&mut installed);
    all.append(&mut packaged);
    assert(all@ == joined);
    assert(app_views(all@) =~= target);
    let unique = keep_unique(all, exclusions);
    let r = sort_apps_by_name(unique);
    proof {
        lemma_catalog_keys_unique(target, crate::keywords::views(exclusions@));
    }
    r
}

} // verus!
