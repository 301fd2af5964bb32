//! One query against the catalogs: the matching entries, the URL and
//! web-search rows, their order and cut, and the action behind each row id.
use vstd::prelude::*;
use crate::models::{
    ActionView, AppType, AppView, ApplicationInfo, BookmarkEntry, BookmarkView, PendingAction,
    ResultView, SearchResult,
};
use crate::ranking::{cut_to_limit, rank, rank_results, result_views, shown_count};
use crate::scoring::{
    app_score, bookmark_score, is_url_like, match_application, match_bookmark, url_like,
    QueryMode,
};
use crate::text::{append_chars, decimal, decimal_chars, from_chars, to_chars};

verus! {

/// Percent-encoding of the UTF-8 bytes of a text, all but alphanumerics and
/// `-`, `_`, `.`, `~` escaped.
pub uninterp spec fn url_encoded(s: Seq<char>) -> Seq<char>;

/// Relies on `urlencoding::encode`: the percent-encoded form of `s`.
#[verifier::external_body]
fn url_encode(s: &str) -> (r: String)
    ensures
        r@ == url_encoded(s@),
{
    urlencoding::encode(s).into_owned()
}

pub open spec fn app_views(v: Seq<ApplicationInfo>) -> Seq<AppView> {
    v.map_values(|a: ApplicationInfo| a@)
}

pub open spec fn bookmark_views(v: Seq<BookmarkEntry>) -> Seq<BookmarkView> {
    v.map_values(|b: BookmarkEntry| b@)
}

pub open spec fn action_views(v: Seq<(String, PendingAction)>) -> Seq<(Seq<char>, ActionView)> {
    v.map_values(|p: (String, PendingAction)| (p.0@, p.1@))
}

pub open spec fn url_id() -> Seq<char> {
    seq!['u', 'r', 'l', '-', '0']
}

pub open spec fn url_title_prefix() -> Seq<char> {
    seq!['打', '开', '网', '址', ':', ' ']
}

pub open spec fn word_url() -> Seq<char> {
    seq!['u', 'r', 'l']
}

/// The row that opens the query text as a URL.
pub open spec fn url_result_view(q: Seq<char>) -> ResultView {
    ResultView {
        id: url_id(),
        title: url_title_prefix() + q,
        subtitle: q,
        icon: Seq::empty(),
        score: 200,
        action_id: word_url(),
    }
}

pub open spec fn app_id_prefix() -> Seq<char> {
    seq!['a', 'p', 'p', '-']
}

pub open spec fn app_subtitle(a: AppView) -> Seq<char> {
    match a.description {
        Some(d) if d.len() > 0 => d,
        _ => match a.source_path {
            Some(s) => s,
            None => a.path,
        },
    }
}

pub open spec fn app_action_word(t: AppType) -> Seq<char> {
    match t {
        AppType::Win32 => seq!['a', 'p', 'p'],
        AppType::Uwp => seq!['u', 'w', 'p'],
    }
}

/// The row of a matching application.
pub open spec fn app_result_view(a: AppView, score: i64) -> ResultView {
    ResultView {
        id: app_id_prefix() + a.id,
        title: a.name,
        subtitle: app_subtitle(a),
        icon: a.icon_b64,
        score,
        action_id: app_action_word(a.app_type),
    }
}

pub open spec fn bookmark_id_prefix() -> Seq<char> {
    seq!['b', 'o', 'o', 'k', 'm', 'a', 'r', 'k', '-']
}

pub open spec fn favorites_prefix() -> Seq<char> {
    seq!['收', '藏', '夹', ' ', '·', ' ']
}

pub open spec fn dot_sep() -> Seq<char> {
    seq![' ', '·', ' ']
}

pub open spec fn word_bookmark() -> Seq<char> {
    seq!['b', 'o', 'o', 'k', 'm', 'a', 'r', 'k']
}

pub open spec fn bookmark_subtitle(b: BookmarkView) -> Seq<char> {
    match b.folder_path {
        Some(p) => favorites_prefix() + p + dot_sep() + b.url,
        None => favorites_prefix() + b.url,
    }
}

/// The row of a matching bookmark.
pub open spec fn bookmark_result_view(b: BookmarkView, score: i64) -> ResultView {
    ResultView {
        id: bookmark_id_prefix() + b.id,
        title: b.title,
        subtitle: bookmark_subtitle(b),
        icon: Seq::empty(),
        score,
        action_id: word_bookmark(),
    }
}

pub open spec fn search_id_prefix() -> Seq<char> {
    seq!['s', 'e', 'a', 'r', 'c', 'h', '-']
}

pub open spec fn search_title_prefix() -> Seq<char> {
    seq!['在', ' ', 'G', 'o', 'o', 'g', 'l', 'e', ' ', '上', '搜', '索', ':', ' ']
}

pub open spec fn search_subtitle() -> Seq<char> {
    seq!['G', 'o', 'o', 'g', 'l', 'e', ' ', '搜', '索']
}

pub open spec fn word_search() -> Seq<char> {
    seq!['s', 'e', 'a', 'r', 'c', 'h']
}

pub open spec fn search_url_prefix() -> Seq<char> {
    seq![
        'h', 't', 't', 'p', 's', ':', '/', '/', 'g', 'o', 'o', 'g', 'l', 'e', '.', 'c', 'o',
        'm', '/', 's', 'e', 'a', 'r', 'c', 'h', '?', 'q', '=',
    ]
}

/// The web-search row; `n` is how many rows the query produced before it.
pub open spec fn search_result_view(q: Seq<char>, n: nat) -> ResultView {
    ResultView {
        id: search_id_prefix() + decimal(n),
        title: search_title_prefix() + q,
        subtitle: search_subtitle(),
        icon: Seq::empty(),
        score: i64::MIN,
        action_id: word_search(),
    }
}

pub open spec fn search_action(q: Seq<char>, n: nat) -> (Seq<char>, ActionView) {
    (search_id_prefix() + decimal(n), ActionView::Search(search_url_prefix() + url_encoded(q)))
}

/// Rows of the matching applications, in catalog order.
pub open spec fn app_hits(apps: Seq<AppView>, q: Seq<char>) -> Seq<ResultView>
    decreases apps.len(),
{
    if apps.len() == 0 {
        Seq::empty()
    } else {
        let rest = app_hits(apps.drop_last(), q);
        match app_score(apps.last(), q) {
            Some(s) => rest.push(app_result_view(apps.last(), s)),
            None => rest,
        }
    }
}

/// Actions of the matching applications, in catalog order.
pub open spec fn app_actions(apps: Seq<AppView>, q: Seq<char>) -> Seq<(Seq<char>, ActionView)>
    decreases apps.len(),
{
    if apps.len() == 0 {
        Seq::empty()
    } else {
        let rest = app_actions(apps.drop_last(), q);
        match app_score(apps.last(), q) {
            Some(s) => rest.push(
                (app_id_prefix() + apps.last().id, ActionView::Application(apps.last())),
            ),
            None => rest,
        }
    }
}

/// Rows of the matching bookmarks, in catalog order.
pub open spec fn bookmark_hits(bms: Seq<BookmarkView>, q: Seq<char>) -> Seq<ResultView>
    decreases bms.len(),
{
    if bms.len() == 0 {
        Seq::empty()
    } else {
        let rest = bookmark_hits(bms.drop_last(), q);
        match bookmark_score(bms.last(), q) {
            Some(s) => rest.push(bookmark_result_view(bms.last(), s)),
            None => rest,
        }
    }
}

/// Actions of the matching bookmarks, in catalog order.
pub open spec fn bookmark_actions(bms: Seq<BookmarkView>, q: Seq<char>) -> Seq<
    (Seq<char>, ActionView),
>
    decreases bms.len(),
{
    if bms.len() == 0 {
        Seq::empty()
    } else {
        let rest = bookmark_actions(bms.drop_last(), q);
        match bookmark_score(bms.last(), q) {
            Some(s) => rest.push(
                (bookmark_id_prefix() + bms.last().id, ActionView::Bookmark(bms.last())),
            ),
            None => rest,
        }
    }
}

/// Whether a query in `mode` looks at applications, given the setting.
pub open spec fn apps_searched(mode: QueryMode, include_apps: bool) -> bool {
    mode.spec_allows_applications() && include_apps
}

pub open spec fn bookmarks_searched(mode: QueryMode, include_bookmarks: bool) -> bool {
    mode.spec_allows_bookmarks() && include_bookmarks
}

/// The rows before ranking: the URL row when the text reads as a URL, then
/// matching applications, then matching bookmarks.
pub open spec fn candidates(
    q: Seq<char>,
    mode: QueryMode,
    include_apps: bool,
    include_bookmarks: bool,
    apps: Seq<AppView>,
    bms: Seq<BookmarkView>,
) -> Seq<ResultView> {
    (if url_like(q) {
        seq![url_result_view(q)]
    } else {
        Seq::empty()
    }) + (if apps_searched(mode, include_apps) {
        app_hits(apps, q)
    } else {
        Seq::empty()
    }) + (if bookmarks_searched(mode, include_bookmarks) {
        bookmark_hits(bms, q)
    } else {
        Seq::empty()
    })
}

/// The rows a query returns: candidates ranked, cut to the limit, and the
/// web-search row last when the mode allows it.
pub open spec fn query_results(
    q: Seq<char>,
    mode: QueryMode,
    include_apps: bool,
    include_bookmarks: bool,
    limit: nat,
    apps: Seq<AppView>,
    bms: Seq<BookmarkView>,
) -> Seq<ResultView> {
    let c = candidates(q, mode, include_apps, include_bookmarks, apps, bms);
    let ranked = rank(c);
    let shown = ranked.take(shown_count(ranked.len(), limit) as int);
    if mode.spec_allows_web_search() {
        shown.push(search_result_view(q, c.len()))
    } else {
        shown
    }
}

/// The id-to-action pairs a query records, in the order it records them.
pub open spec fn query_actions(
    q: Seq<char>,
    mode: QueryMode,
    include_apps: bool,
    include_bookmarks: bool,
    apps: Seq<AppView>,
    bms: Seq<BookmarkView>,
) -> Seq<(Seq<char>, ActionView)> {
    let n = candidates(q, mode, include_apps, include_bookmarks, apps, bms).len();
    let base = (if url_like(q) {
        seq![(url_id(), ActionView::Url(q))]
    } else {
        Seq::empty()
    }) + (if apps_searched(mode, include_apps) {
        app_actions(apps, q)
    } else {
        Seq::empty()
    }) + (if bookmarks_searched(mode, include_bookmarks) {
        bookmark_actions(bms, q)
    } else {
        Seq::empty()
    });
    if mode.spec_allows_web_search() {
        base.push(search_action(q, n))
    } else {
        base
    }
}

fn chars_vec(a: &[char]) -> (r: Vec<char>)
    ensures
        r@ == a@,
{
    let r = crate::text::slice_to_vec_range(a, 0, a.len());
    assert(a@.subrange(0, a@.len() as int) == a@);
    r
}

/// `a` followed by `b`, as a `String`.
fn concat(a: &[char], b: &str) -> (r: String)
    ensures
        r@ == a@ + b@,
{
    let mut v = chars_vec(a);
    let bc = to_chars(b);
    append_chars(&mut v, bc.as_slice());
    from_chars(v.as_slice())
}

fn url_result(q: &str) -> (r: (SearchResult, (String, PendingAction)))
    ensures
        r.0@ == url_result_view(q@),
        (r.1.0@, r.1.1@) == (url_id(), ActionView::Url(q@)),
{
    let id = ['u', 'r', 'l', '-', '0'];
    let title = ['打', '开', '网', '址', ':', ' '];
    let word = ['u', 'r', 'l'];
    assert(id@ == url_id());
    assert(title@ == url_title_prefix());
    assert(word@ == word_url());
    let res = SearchResult {
        id: from_chars(&id),
        title: concat(&title, q),
        subtitle: String::from_str(q),
        icon: String::new(),
        score: 200,
        action_id: from_chars(&word),
    };
    (res, (from_chars(&id), PendingAction::Url(String::from_str(q))))
}

fn app_result(app: &ApplicationInfo, score: i64) -> (r: (SearchResult, (String, PendingAction)))
    ensures
        r.0@ == app_result_view(app@, score),
        (r.1.0@, r.1.1@) == (app_id_prefix() + app@.id, ActionView::Application(app@)),
{
    let prefix = ['a', 'p', 'p', '-'];
    assert(prefix@ == app_id_prefix());
    let subtitle = match &app.description {
        Some(d) if d.as_str().unicode_len() > 0 => d.clone(),
        _ => match &app.source_path {
            Some(s) => s.clone(),
            None => app.path.clone(),
        },
    };
    let word = match app.app_type {
        AppType::Win32 => {
            let w = ['a', 'p', 'p'];
            assert(w@ == app_action_word(AppType::Win32));
            from_chars(&w)
        },
        AppType::Uwp => {
            let w = ['u', 'w', 'p'];
            assert(w@ == app_action_word(AppType::Uwp));
            from_chars(&w)
        },
    };
    let res = SearchResult {
        id: concat(&prefix, app.id.as_str()),
        title: app.name.clone(),
        subtitle,
        icon: app.icon_b64.clone(),
        score,
        action_id: word,
    };
    (res, (concat(&prefix, app.id.as_str()), PendingAction::Application(app.duplicate())))
}

fn bookmark_result(b: &BookmarkEntry, score: i64) -> (r: (SearchResult, (String, PendingAction)))
    ensures
        r.0@ == bookmark_result_view(b@, score),
        (r.1.0@, r.1.1@) == (bookmark_id_prefix() + b@.id, ActionView::Bookmark(b@)),
{
    let prefix = ['b', 'o', 'o', 'k', 'm', 'a', 'r', 'k', '-'];
    let fav = ['收', '藏', '夹', ' ', '·', ' '];
    let sep = [' ', '·', ' '];
    let word = ['b', 'o', 'o', 'k', 'm', 'a', 'r', 'k'];
    assert(prefix@ == bookmark_id_prefix());
    assert(fav@ == favorites_prefix());
    assert(sep@ == dot_sep());
    assert(word@ == word_bookmark());
    let mut sub = chars_vec(&fav);
    match &b.folder_path {
        Some(p) => {
            let pc = to_chars(p.as_str());
            append_chars(&mut sub, pc.as_slice());
            append_chars(&mut sub, &sep);
        },
        None => {},
    }
    let uc = to_chars(b.url.as_str());
    append_chars(&mut sub, uc.as_slice());
    proof {
        if b.folder_path is Some {
            assert(sub@ =~= bookmark_subtitle(b@));
        } else {
            assert(sub@ =~= bookmark_subtitle(b@));
        }
    }
    let res = SearchResult {
        id: concat(&prefix, b.id.as_str()),
        title: b.title.clone(),
        subtitle: from_chars(sub.as_slice()),
        icon: String::new(),
        score,
        action_id: from_chars(&word),
    };
    (res, (concat(&prefix, b.id.as_str()), PendingAction::Bookmark(b.duplicate())))
}

fn search_result(q: &str, n: usize) -> (r: (SearchResult, (String, PendingAction)))
    ensures
        r.0@ == search_result_view(q@, n as nat),
        (r.1.0@, r.1.1@) == search_action(q@, n as nat),
{
    let prefix = ['s', 'e', 'a', 'r', 'c', 'h', '-'];
    let title = ['在', ' ', 'G', 'o', 'o', 'g', 'l', 'e', ' ', '上', '搜', '索', ':', ' '];
    let sub = ['G', 'o', 'o', 'g', 'l', 'e', ' ', '搜', '索'];
    let word = ['s', 'e', 'a', 'r', 'c', 'h'];
    let url = [
        'h', 't', 't', 'p', 's', ':', '/', '/', 'g', 'o', 'o', 'g', 'l', 'e', '.', 'c', 'o',
        'm', '/', 's', 'e', 'a', 'r', 'c', 'h', '?', 'q', '=',
    ];
    assert(prefix@ == search_id_prefix());
    assert(title@ == search_title_prefix());
    assert(sub@ == search_subtitle());
    assert(word@ == word_search());
    assert(url@ == search_url_prefix());
    let mut id = chars_vec(&prefix);
    let digits = decimal_chars(n);
    append_chars(&mut id, digits.as_slice());
    let encoded = url_encode(q);
    let res = SearchResult {
        id: from_chars(id.as_slice()),
        title: concat(&title, q),
        subtitle: from_chars(&sub),
        icon: String::new(),
        score: i64::MIN,
        action_id: from_chars(&word),
    };
    (res, (from_chars(id.as_slice()), PendingAction::Search(concat(&url, encoded.as_str()))))
}

/// Answers query text `query` (already trimmed) in `mode` against the two
/// catalogs: the rows to show, and the id-to-action pairs recorded for them.
pub fn run_query(
    query: &str,
    mode: QueryMode,
    include_apps: bool,
    include_bookmarks: bool,
    limit: usize,
    apps: &Vec<ApplicationInfo>,
    bookmarks: &Vec<BookmarkEntry>,
) -> (r: (Vec<SearchResult>, Vec<(String, PendingAction)>))
    ensures
        result_views(r.0@) == query_results(
            query@,
            mode,
            include_apps,
            include_bookmarks,
            limit as nat,
            app_views(apps@),
            bookmark_views(bookmarks@),
        ),
        action_views(r.1@) == query_actions(
            query@,
            mode,
            include_apps,
            include_bookmarks,
            app_views(apps@),
            bookmark_views(bookmarks@),
        ),
{
    let ghost q = query@;
    let ghost av = app_views(apps@);
    let ghost bv = bookmark_views(bookmarks@);
    let mut results: Vec<SearchResult> = Vec::new();
    let mut actions: Vec<(String, PendingAction)> = Vec::new();
    if is_url_like(query) {
        let (res, act) = url_result(query);
        results.push(res);
        actions.push(act);
        assert(result_views(results@) =~= seq![url_result_view(q)]);
        assert(action_views(actions@) =~= seq![(url_id(), ActionView::Url(q))]);
    } else {
        assert(result_views(results@) =~= Seq::<ResultView>::empty());
        assert(action_views(actions@) =~= Seq::<(Seq<char>, ActionView)>::empty());
    }
    let ghost r0 = result_views(results@);
    let ghost a0 = action_views(actions@);
    if mode.allows_applications() && include_apps {
        let mut k: usize = 0;
        while k < apps.len()
            invariant
                k <= apps@.len(),
                av == app_views(apps@),
                q == query@,
                result_views(results@) == r0 + app_hits(av.take(k as int), q),
                action_views(actions@) == a0 + app_actions(av.take(k as int), q),
            decreases apps@.len() - k,
        {
            proof {
                assert(av.take(k + 1).drop_last() =~= av.take(k as int));
                assert(av.take(k + 1).last() == apps@[k as int]@);
            }
            match match_application(&apps[k], query) {
                Some(score) => {
                    let (res, act) = app_result(&apps[k], score);
                    let ghost rv = result_views(results@);
                    let ghost acv = action_views(actions@);
                    results.push(res);
                    actions.push(act);
                    proof {
                        assert(result_views(results@) =~= rv.push(res@));
                        assert(action_views(actions@) =~= acv.push((act.0@, act.1@)));
                        let t = av.take(k + 1);
                        assert(app_hits(t, q) == app_hits(t.drop_last(), q).push(app_result_view(t.last(), score)));
                        assert(result_views(results@) =~= r0 + app_hits(t, q));
                        assert(action_views(actions@) =~= a0 + app_actions(t, q));
                    }
                },
                None => {},
            }
            k = k + 1;
        }
        assert(av.take(apps@.len() as int) =~= av);
    } else {
        assert(result_views(results@) =~= r0 + Seq::<ResultView>::empty());
        assert(action_views(actions@) =~= a0 + Seq::<(Seq<char>, ActionView)>::empty());
    }
    let ghost r1 = result_views(results@);
    let ghost a1 = action_views(actions@);
    if mode.allows_bookmarks() && include_bookmarks {
        let mut k: usize = 0;
        while k < bookmarks.len()
            invariant
                k <= bookmarks@.len(),
                bv == bookmark_views(bookmarks@),
                q == query@,
                result_views(results@) == r1 + bookmark_hits(bv.take(k as int), q),
                action_views(actions@) == a1 + bookmark_actions(bv.take(k as int), q),
            decreases bookmarks@.len() - k,
        {
            proof {
                assert(bv.take(k + 1).drop_last() =~= bv.take(k as int));
                assert(bv.take(k + 1).last() == bookmarks@[k as int]@);
            }
            match match_bookmark(&bookmarks[k], query) {
                Some(score) => {
                    let (res, act) = bookmark_result(&bookmarks[k], score);
                    let ghost rv = result_views(results@);
                    let ghost acv = action_views(actions@);
                    results.push(res);
                    actions.push(act);
                    proof {
                        assert(result_views(results@) =~= rv.push(res@));
                        assert(action_views(actions@) =~= acv.push((act.0@, act.1@)));
                        let t = bv.take(k + 1);
                        assert(bookmark_hits(t, q) == bookmark_hits(t.drop_last(), q).push(bookmark_result_view(t.last(), score)));
                        assert(result_views(results@) =~= r1 + bookmark_hits(t, q));
                        assert(action_views(actions@) =~= a1 + bookmark_actions(t, q));
                    }
                },
                None => {},
            }
            k = k + 1;
        }
        assert(bv.take(bookmarks@.len() as int) =~= bv);
    } else {
        assert(result_views(results@) =~= r1 + Seq::<ResultView>::empty());
        assert(action_views(actions@) =~= a1 + Seq::<(Seq<char>, ActionView)>::empty());
    }
    let counter = results.len();
    assert(result_views(results@) == candidates(
        q,
        mode,
        include_apps,
        include_bookmarks,
        av,
        bv,
    ));
    let mut ranked = rank_results(results);
    proof {
        crate::ranking::lemma_rank_descending(
            candidates(q, mode, include_apps, include_bookmarks, av, bv),
        );
    }
    let ghost before_cut = ranked@;
    cut_to_limit(&mut ranked, limit);
    assert(result_views(ranked@) =~= result_views(before_cut).take(
        shown_count(before_cut.len(), limit as nat) as int,
    ));
    if mode.allows_web_search() {
        let (res, act) = search_result(query, counter);
        let ghost shown = result_views(ranked@);
        ranked.push(res);
        actions.push(act);
        assert(result_views(ranked@) =~= shown.push(res@));
    }
    (ranked, actions)
}

} // verus!

verus! {

proof fn lemma_bookmark_hits_kind(bms: Seq<BookmarkView>, q: Seq<char>)
    ensures
        forall|i: int| 0 <= i < bookmark_hits(bms, q).len() ==> (#[trigger] bookmark_hits(bms, q)[i]).action_id == word_bookmark(),
    decreases bms.len(),
{
    if bms.len() > 0 {
        lemma_bookmark_hits_kind(bms.drop_last(), q);
        let rest = bookmark_hits(bms.drop_last(), q);
        assert forall|i: int| 0 <= i < bookmark_hits(bms, q).len() implies (#[trigger] bookmark_hits(bms, q)[i]).action_id == word_bookmark() by {
            if i < rest.len() {
                assert(bookmark_hits(bms, q)[i] == rest[i]);
            }
        }
    }
}

/// A query in bookmark mode shows no application row, whether or not
/// applications are enabled: every row opens a URL, a bookmark, or the web
/// search.
pub proof fn lemma_bookmark_mode_has_no_apps(
    q: Seq<char>,
    include_apps: bool,
    include_bookmarks: bool,
    limit: nat,
    apps: Seq<AppView>,
    bms: Seq<BookmarkView>,
)
    ensures
        forall|i: int|
            0 <= i < query_results(q, QueryMode::Bookmark, include_apps, include_bookmarks, limit, apps, bms).len()
                ==> {
                let a = (#[trigger] query_results(q, QueryMode::Bookmark, include_apps, include_bookmarks, limit, apps, bms)[i]).action_id;
                &&& a != app_action_word(AppType::Win32)
                &&& a != app_action_word(AppType::Uwp)
                &&& (a == word_url() || a == word_bookmark() || a == word_search())
            },
{
    let mode = QueryMode::Bookmark;
    let c = candidates(q, mode, include_apps, include_bookmarks, apps, bms);
    let ranked = rank(c);
    crate::ranking::lemma_rank_members(c);
    lemma_bookmark_hits_kind(bms, q);
    let res = query_results(q, mode, include_apps, include_bookmarks, limit, apps, bms);
    let shown = ranked.take(shown_count(ranked.len(), limit) as int);
    assert forall|i: int| 0 <= i < res.len() implies {
        let a = (#[trigger] res[i]).action_id;
        &&& a != app_action_word(AppType::Win32)
        &&& a != app_action_word(AppType::Uwp)
        &&& (a == word_url() || a == word_bookmark() || a == word_search())
    } by {
        let a = res[i].action_id;
        if i < shown.len() {
            assert(res[i] == ranked[i]);
            assert(ranked.contains(ranked[i]));
            assert(c.contains(res[i]));
            let j = choose|j: int| 0 <= j < c.len() && c[j] == res[i];
            let u: Seq<ResultView> = if url_like(q) { seq![url_result_view(q)] } else { Seq::empty() };
            let b: Seq<ResultView> = if bookmarks_searched(mode, include_bookmarks) { bookmark_hits(bms, q) } else { Seq::empty() };
            assert(c =~= u + b);
            if j < u.len() {
                assert(a == word_url());
            } else {
                assert(b[j - u.len()] == c[j]);
                assert(a == word_bookmark());
            }
        } else {
            assert(a == word_search());
        }
        assert(app_action_word(AppType::Win32)[0] == 'a');
        assert(app_action_word(AppType::Uwp)[0] == 'u');
        assert(word_url()[1] == 'r');
        assert(app_action_word(AppType::Uwp)[1] == 'w');
    }
}

/// Under a limit of at least two, a query shows at most `limit` rows; when
/// the web-search row is appended, at most `limit - 1` ranked rows precede
/// it.
pub proof fn lemma_result_count(
    q: Seq<char>,
    mode: QueryMode,
    include_apps: bool,
    include_bookmarks: bool,
    limit: nat,
    apps: Seq<AppView>,
    bms: Seq<BookmarkView>,
)
    requires
        limit >= 2,
    ensures
        query_results(q, mode, include_apps, include_bookmarks, limit, apps, bms).len() <= limit,
        mode.spec_allows_web_search() ==> query_results(q, mode, include_apps, include_bookmarks, limit, apps, bms).len() >= 1
            && query_results(q, mode, include_apps, include_bookmarks, limit, apps, bms).len() - 1 <= limit - 1
            && query_results(q, mode, include_apps, include_bookmarks, limit, apps, bms).last().score == i64::MIN,
{
    let c = candidates(q, mode, include_apps, include_bookmarks, apps, bms);
    crate::ranking::lemma_rank_descending(c);
}

/// Text that reads as a URL always records the open-URL action, first and
/// under `url-0`, whatever the mode.
pub proof fn lemma_url_action_recorded(
    q: Seq<char>,
    mode: QueryMode,
    include_apps: bool,
    include_bookmarks: bool,
    apps: Seq<AppView>,
    bms: Seq<BookmarkView>,
)
    requires
        url_like(q),
    ensures
        query_actions(q, mode, include_apps, include_bookmarks, apps, bms)[0] == (url_id(), ActionView::Url(q)),
{
}

} // verus!

verus! {

/// With a limit of at least two, text that reads as a URL shows the
/// open-URL row in every mode, unless `limit - 1` or more catalog rows score
/// above it (200) and push it past the cut.
pub proof fn lemma_url_row_shown(
    q: Seq<char>,
    mode: QueryMode,
    include_apps: bool,
    include_bookmarks: bool,
    limit: nat,
    apps: Seq<AppView>,
    bms: Seq<BookmarkView>,
)
    requires
        url_like(q),
        limit >= 2,
        crate::ranking::count_above(candidates(q, mode, include_apps, include_bookmarks, apps, bms), 200) < limit - 1,
    ensures
        query_results(q, mode, include_apps, include_bookmarks, limit, apps, bms).contains(url_result_view(q)),
{
    let c = candidates(q, mode, include_apps, include_bookmarks, apps, bms);
    assert(c[0] == url_result_view(q));
    crate::ranking::lemma_rank_first_position(c);
    crate::ranking::lemma_rank_descending(c);
    let idx = crate::ranking::count_above(c, 200) as int;
    let ranked = rank(c);
    let shown = ranked.take(shown_count(ranked.len(), limit) as int);
    assert(shown[idx] == url_result_view(q));
    let res = query_results(q, mode, include_apps, include_bookmarks, limit, apps, bms);
    assert(res[idx] == url_result_view(q));
}

} // verus!

verus! {

/// The ranked rows a query shows, before the web-search row.
pub open spec fn ranked_rows(
    q: Seq<char>,
    mode: QueryMode,
    include_apps: bool,
    include_bookmarks: bool,
    limit: nat,
    apps: Seq<AppView>,
    bms: Seq<BookmarkView>,
) -> Seq<ResultView> {
    let ranked = rank(candidates(q, mode, include_apps, include_bookmarks, apps, bms));
    ranked.take(shown_count(ranked.len(), limit) as int)
}

/// The shown rows are in descending score, and rows of equal score keep
/// their order among the candidates (the URL row, then applications and
/// bookmarks in catalog order): for every score, the shown rows with that
/// score are the first candidates with that score, in order.
pub proof fn lemma_ties_keep_catalog_order(
    q: Seq<char>,
    mode: QueryMode,
    include_apps: bool,
    include_bookmarks: bool,
    limit: nat,
    apps: Seq<AppView>,
    bms: Seq<BookmarkView>,
    v: i64,
)
    ensures
        query_results(q, mode, include_apps, include_bookmarks, limit, apps, bms) == if mode.spec_allows_web_search() {
            ranked_rows(q, mode, include_apps, include_bookmarks, limit, apps, bms).push(
                search_result_view(q, candidates(q, mode, include_apps, include_bookmarks, apps, bms).len()),
            )
        } else {
            ranked_rows(q, mode, include_apps, include_bookmarks, limit, apps, bms)
        },
        crate::ranking::descending(ranked_rows(q, mode, include_apps, include_bookmarks, limit, apps, bms)),
        ({
            let shown = crate::ranking::with_score(
                ranked_rows(q, mode, include_apps, include_bookmarks, limit, apps, bms),
                v,
            );
            crate::ranking::with_score(
                candidates(q, mode, include_apps, include_bookmarks, apps, bms),
                v,
            ).take(shown.len() as int) == shown
        }),
{
    let c = candidates(q, mode, include_apps, include_bookmarks, apps, bms);
    let ranked = rank(c);
    crate::ranking::lemma_rank_descending(c);
    crate::ranking::lemma_rank_stable(c, v);
    let n = shown_count(ranked.len(), limit) as int;
    let rr = ranked.take(n);
    let rest = ranked.skip(n);
    assert(ranked =~= rr + rest);
    crate::ranking::lemma_with_score_concat(rr, rest, v);
    let ws = crate::ranking::with_score(rr, v);
    assert(crate::ranking::with_score(c, v).take(ws.len() as int) =~= ws);
    assert forall|i: int, j: int| 0 <= i < j < rr.len() implies (#[trigger] rr[i]).score >= (
    #[trigger] rr[j]).score by {
        assert(rr[i] == ranked[i] && rr[j] == ranked[j]);
    }
}

/// An application and a bookmark that both match, with no URL-like text
/// and room for both: the application's row comes first unless the
/// bookmark scores higher, so equal scores keep applications (merged first)
/// ahead of bookmarks.
pub proof fn lemma_app_and_bookmark_order(
    q: Seq<char>,
    limit: nat,
    a: AppView,
    b: BookmarkView,
    sa: i64,
    sb: i64,
)
    requires
        !url_like(q),
        limit >= 3,
        app_score(a, q) == Some(sa),
        bookmark_score(b, q) == Some(sb),
    ensures
        ranked_rows(q, QueryMode::All, true, true, limit, seq![a], seq![b]) == if sb > sa {
            seq![bookmark_result_view(b, sb), app_result_view(a, sa)]
        } else {
            seq![app_result_view(a, sa), bookmark_result_view(b, sb)]
        },
{
    let ra = app_result_view(a, sa);
    let rb = bookmark_result_view(b, sb);
    assert(seq![a].drop_last() =~= Seq::<AppView>::empty());
    assert(seq![b].drop_last() =~= Seq::<BookmarkView>::empty());
    assert(seq![a].last() == a);
    assert(seq![b].last() == b);
    assert(app_hits(Seq::<AppView>::empty(), q) =~= Seq::<ResultView>::empty());
    assert(bookmark_hits(Seq::<BookmarkView>::empty(), q) =~= Seq::<ResultView>::empty());
    assert(Seq::<ResultView>::empty().push(ra) =~= seq![ra]);
    assert(Seq::<ResultView>::empty().push(rb) =~= seq![rb]);
    assert(app_hits(seq![a], q) =~= seq![ra]);
    assert(bookmark_hits(seq![b], q) =~= seq![rb]);
    let c = candidates(q, QueryMode::All, true, true, seq![a], seq![b]);
    assert(c =~= seq![ra, rb]);
    assert(c.drop_last() =~= seq![ra]);
    assert(seq![ra].drop_last() =~= Seq::<ResultView>::empty());
    assert(rank(Seq::<ResultView>::empty()) =~= Seq::<ResultView>::empty());
    assert(seq![ra].last() == ra);
    assert(crate::ranking::first_lower(Seq::<ResultView>::empty(), sa) == 0);
    assert(Seq::<ResultView>::empty().take(0) + seq![ra] + Seq::<ResultView>::empty().skip(0) =~= seq![ra]);
    assert(rank(seq![ra]) =~= seq![ra]);
    assert(seq![ra].drop_first() =~= Seq::<ResultView>::empty());
    let r = rank(c);
    if sb > sa {
        assert(crate::ranking::first_lower(seq![ra], sb) == 0);
        assert(r =~= seq![rb, ra]);
    } else {
        assert(crate::ranking::first_lower(Seq::<ResultView>::empty(), sb) == 0);
        assert(crate::ranking::first_lower(seq![ra], sb) == 1);
        assert(r =~= seq![ra, rb]);
    }
    assert(r.take(2) =~= r);
}

} // verus!
