//! Process state: the two catalogs and the cache that maps the ids of the
//! last query's rows to their actions.
use vstd::prelude::*;
use crate::models::{ActionView, ApplicationInfo, BookmarkEntry, PendingAction, SearchResult};
use crate::query::{action_views, app_views, bookmark_views, query_actions, query_results, run_query};
use crate::ranking::result_views;
use crate::scoring::{mode_of, QueryMode};
use crate::settings::{result_limit, MAX_RESULT_LIMIT, MIN_RESULT_LIMIT};
use crate::models::opt_view;
use crate::text::{blank, from_chars, is_blank, to_chars, trim_chars, trim_seq};

verus! {

/// The map a list of id-action pairs gives when inserted in order: a later
/// pair replaces an earlier one with the same id.
pub open spec fn map_of(pairs: Seq<(Seq<char>, ActionView)>) -> Map<Seq<char>, ActionView>
    decreases pairs.len(),
{
    if pairs.len() == 0 {
        Map::empty()
    } else {
        map_of(pairs.drop_last()).insert(pairs.last().0, pairs.last().1)
    }
}

/// Whether some pair carries `id`.
pub open spec fn has_id(pairs: Seq<(Seq<char>, ActionView)>, id: Seq<char>) -> bool {
    exists|j: int| 0 <= j < pairs.len() && (#[trigger] pairs[j]).0 == id
}

/// The actions behind the rows of the last query, by row id.
pub struct PendingCache {
    entries: Vec<(String, PendingAction)>,
}

impl View for PendingCache {
    type V = Map<Seq<char>, ActionView>;

    closed spec fn view(&self) -> Map<Seq<char>, ActionView> {
        map_of(action_views(self.entries@))
    }
}

proof fn lemma_map_of_tail(pairs: Seq<(Seq<char>, ActionView)>, k: int, id: Seq<char>)
    requires
        0 <= k <= pairs.len(),
        forall|j: int| k <= j < pairs.len() ==> (#[trigger] pairs[j]).0 != id,
    ensures
        map_of(pairs).contains_key(id) == map_of(pairs.take(k)).contains_key(id),
        map_of(pairs).contains_key(id) ==> map_of(pairs)[id] == map_of(pairs.take(k))[id],
    decreases pairs.len() - k,
{
    if k < pairs.len() {
        let d = pairs.drop_last();
        assert forall|j: int| k <= j < d.len() implies (#[trigger] d[j]).0 != id by {
            assert(d[j] == pairs[j]);
        }
        lemma_map_of_tail(d, k, id);
        assert(d.take(k) =~= pairs.take(k));
    } else {
        assert(pairs.take(k) =~= pairs);
    }
}

/// The ids a pair list maps are exactly the ids it carries.
pub proof fn lemma_map_of_keys(pairs: Seq<(Seq<char>, ActionView)>, id: Seq<char>)
    ensures
        map_of(pairs).contains_key(id) <==> has_id(pairs, id),
    decreases pairs.len(),
{
    if pairs.len() > 0 {
        let d = pairs.drop_last();
        lemma_map_of_keys(d, id);
        if has_id(d, id) {
            let j = choose|j: int| 0 <= j < d.len() && (#[trigger] d[j]).0 == id;
            assert(pairs[j] == d[j]);
        }
        if has_id(pairs, id) && pairs.last().0 != id {
            let j = choose|j: int| 0 <= j < pairs.len() && (#[trigger] pairs[j]).0 == id;
            assert(j < d.len());
            assert(d[j] == pairs[j]);
        }
        if pairs.last().0 == id {
            assert(pairs[pairs.len() - 1].0 == id);
        }
    }
}

/// Once a query has replaced the pending actions with its own pairs, an id
/// that the query did not record (one shown by an earlier query, say) maps
/// to nothing, whatever the cache held before.
pub proof fn lemma_stale_id_expires(pairs: Seq<(Seq<char>, ActionView)>, id: Seq<char>)
    requires
        forall|j: int| 0 <= j < pairs.len() ==> (#[trigger] pairs[j]).0 != id,
    ensures
        !map_of(pairs).contains_key(id),
{
    lemma_map_of_keys(pairs, id);
}

impl PendingCache {
    /// An empty cache.
    pub fn new() -> (r: PendingCache)
        ensures
            r@ == Map::<Seq<char>, ActionView>::empty(),
    {
        let r = PendingCache { entries: Vec::new() };
        assert(action_views(r.entries@) =~= Seq::<(Seq<char>, ActionView)>::empty());
        r
    }

    /// Clears the cache and fills it with `pairs`, in order.
    pub fn replace(&mut self, pairs: Vec<(String, PendingAction)>)
        ensures
            final(self)@ == map_of(action_views(pairs@)),
    {
        self.entries = pairs;
    }

    /// The action recorded under `id`, if any.
    pub fn get(&self, id: &str) -> (r: Option<PendingAction>)
        ensures
            r is Some <==> self@.contains_key(id@),
            r is Some ==> r.unwrap()@ == self@[id@],
    {
        let ghost pv = action_views(self.entries@);
        let want = to_chars(id);
        let mut k: usize = self.entries.len();
        while k > 0
            invariant
                k <= self.entries@.len(),
                pv == action_views(self.entries@),
                want@ == id@,
                forall|j: int| k <= j < pv.len() ==> (#[trigger] pv[j]).0 != id@,
            decreases k,
        {
            let key = to_chars(self.entries[k - 1].0.as_str());
            if crate::keywords::chars_eq(key.as_slice(), want.as_slice()) {
                proof {
                    assert(pv[k - 1].0 == id@);
                    lemma_map_of_tail(pv, k as int, id@);
                    let t = pv.take(k as int);
                    assert(t.drop_last() =~= pv.take(k - 1));
                    assert(t.last() == pv[k - 1]);
                }
                return Some(self.entries[k - 1].1.duplicate());
            }
            k = k - 1;
        }
        proof {
            lemma_map_of_tail(pv, 0, id@);
            assert(pv.take(0) =~= Seq::<(Seq<char>, ActionView)>::empty());
        }
        None
    }
}

/// What the query engine reads of the configuration.
#[derive(Debug, Clone, Copy)]
pub struct SearchSettings {
    pub enable_app_results: bool,
    pub enable_bookmark_results: bool,
    pub max_results: u32,
}

/// The state shared by the launcher's commands.
pub struct AppState {
    pub app_index: Vec<ApplicationInfo>,
    pub bookmark_index: Vec<BookmarkEntry>,
    pub registered_hotkey: Option<String>,
    pub pending_actions: PendingCache,
    pub hotkey_capture_suspended: bool,
    pub saved_ime: Option<isize>,
}

impl AppState {
    /// Empty catalogs and cache, no hotkey, no saved input method.
    pub fn new() -> (r: AppState)
        ensures
            r.app_index@.len() == 0,
            r.bookmark_index@.len() == 0,
            r.registered_hotkey is None,
            r.pending_actions@ == Map::<Seq<char>, ActionView>::empty(),
            !r.hotkey_capture_suspended,
            r.saved_ime is None,
    {
        AppState {
            app_index: Vec::new(),
            bookmark_index: Vec::new(),
            registered_hotkey: None,
            pending_actions: PendingCache::new(),
            hotkey_capture_suspended: false,
            saved_ime: None,
        }
    }
}

/// Rows a query shows for `query` in the mode that `mode` names.
pub open spec fn submitted_results(
    query: Seq<char>,
    mode: Option<Seq<char>>,
    settings: SearchSettings,
    apps: Seq<ApplicationInfo>,
    bms: Seq<BookmarkEntry>,
) -> Seq<crate::models::ResultView> {
    query_results(
        trim_seq(query),
        mode_of(mode),
        settings.enable_app_results,
        settings.enable_bookmark_results,
        result_limit(settings.max_results) as nat,
        app_views(apps),
        bookmark_views(bms),
    )
}

/// Pending actions a query leaves for `query` in the mode that `mode` names.
pub open spec fn submitted_actions(
    query: Seq<char>,
    mode: Option<Seq<char>>,
    settings: SearchSettings,
    apps: Seq<ApplicationInfo>,
    bms: Seq<BookmarkEntry>,
) -> Map<Seq<char>, ActionView> {
    map_of(
        query_actions(
            trim_seq(query),
            mode_of(mode),
            settings.enable_app_results,
            settings.enable_bookmark_results,
            app_views(apps),
            bookmark_views(bms),
        ),
    )
}

/// Answers a query. Blank text gives no rows and leaves the state as it
/// was; otherwise the trimmed text is matched against both catalogs and the
/// pending actions are replaced by this query's.
pub fn submit_query(
    query: String,
    mode: Option<String>,
    settings: SearchSettings,
    state: &mut AppState,
) -> (r: Vec<SearchResult>)
    ensures
        final(state).app_index@ == old(state).app_index@,
        final(state).bookmark_index@ == old(state).bookmark_index@,
        blank(query@) ==> r@.len() == 0 && final(state).pending_actions@ == old(
            state,
        ).pending_actions@,
        !blank(query@) ==> result_views(r@) == submitted_results(
            query@,
            opt_view(mode),
            settings,
            old(state).app_index@,
            old(state).bookmark_index@,
        ),
        !blank(query@) ==> final(state).pending_actions@ == submitted_actions(
            query@,
            opt_view(mode),
            settings,
            old(state).app_index@,
            old(state).bookmark_index@,
        ),
{
    let trimmed = trim_chars(to_chars(query.as_str()).as_slice());
    proof {
        crate::text::lemma_trim_blank(query@);
    }
    if is_blank(trimmed.as_slice()) {
        return Vec::new();
    }
    let query_mode = QueryMode::from_option(mode);
    let max = settings.max_results;
    let limit: u32 = if max < MIN_RESULT_LIMIT {
        MIN_RESULT_LIMIT
    } else if max > MAX_RESULT_LIMIT {
        MAX_RESULT_LIMIT
    } else {
        max
    };
    let text = from_chars(trimmed.as_slice());
    let (results, pending) = run_query(
        text.as_str(),
        query_mode,
        settings.enable_app_results,
        settings.enable_bookmark_results,
        limit as usize,
        &state.app_index,
        &state.bookmark_index,
    );
    state.pending_actions.replace(pending);
    results
}

/// The message for an id that no longer maps to an action.
pub open spec fn expired_message() -> Seq<char> {
    seq!['结', '果', '已', '失', '效', '，', '请', '重', '新', '搜', '索']
}

/// The action behind row `id` of the last query, or the "expired" error
/// when the last query recorded no such id.
pub fn resolve_action(state: &AppState, id: &str) -> (r: Result<PendingAction, String>)
    ensures
        r is Ok <==> state.pending_actions@.contains_key(id@),
        r is Ok ==> r.unwrap()@ == state.pending_actions@[id@],
        r is Err ==> r->Err_0@ == expired_message(),
{
    match state.pending_actions.get(id) {
        Some(a) => Ok(a),
        None => {
            let m = ['结', '果', '已', '失', '效', '，', '请', '重', '新', '搜', '索'];
            assert(m@ == expired_message());
            Err(from_chars(&m))
        },
    }
}

} // verus!
