//! Query modes, URL detection and the scores of catalog entries against a
//! query.
use vstd::prelude::*;
use crate::keywords::views;
use crate::models::{opt_view, ApplicationInfo, AppView, BookmarkEntry, BookmarkView};
use crate::text::{blank, contains_char, has_prefix, is_blank, is_whitespace, is_ws, starts_with, to_chars, trim_chars, trim_seq};
use crate::bookmarks::{http_prefix, https_prefix};

verus! {

/// What `str::to_lowercase` gives for a text.
pub uninterp spec fn lower_of(s: Seq<char>) -> Seq<char>;

/// Relies on `str::to_lowercase`: the Unicode lowercase mapping of `s`; the
/// result depends on the characters alone, and an empty text stays empty.
#[verifier::external_body]
pub(crate) fn to_lowercase(s: &str) -> (r: String)
    ensures
        r@ == lower_of(s@),
        s@.len() == 0 ==> r@.len() == 0,
{
    s.to_lowercase()
}

/// The score `SkimMatcherV2` with its default settings, but ignoring case,
/// gives `choice` for `pattern`, or `None` when it does not match.
pub uninterp spec fn skim_score(choice: Seq<char>, pattern: Seq<char>) -> Option<i64>;

/// Relies on `fuzzy_matcher::skim::SkimMatcherV2::default().ignore_case()`
/// and its `FuzzyMatcher::fuzzy_match`: the case-insensitive score of
/// `choice` against `pattern`.
#[verifier::external_body]
fn fuzzy_match(choice: &str, pattern: &str) -> (r: Option<i64>)
    ensures
        r == skim_score(choice@, pattern@),
{
    fuzzy_matcher::FuzzyMatcher::fuzzy_match(
        &fuzzy_matcher::skim::SkimMatcherV2::default().ignore_case(),
        choice,
        pattern,
    )
}

/// Which kinds of results a query asks for.
#[derive(Debug, Clone, Copy, PartialEq, Eq, Structural)]
pub enum QueryMode {
    All,
    Bookmark,
    Application,
    Search,
}

/// The mode a (trimmed, lowercased) mode word selects.
pub open spec fn mode_of_word(w: Seq<char>) -> QueryMode {
    if w == seq!['b', 'o', 'o', 'k', 'm', 'a', 'r', 'k'] || w == seq![
        'b',
        'o',
        'o',
        'k',
        'm',
        'a',
        'r',
        'k',
        's',
    ] || w == seq!['b'] {
        QueryMode::Bookmark
    } else if w == seq!['a', 'p', 'p'] || w == seq!['a', 'p', 'p', 's'] || w == seq![
        'a',
        'p',
        'p',
        'l',
        'i',
        'c',
        'a',
        't',
        'i',
        'o',
        'n',
    ] || w == seq!['r'] {
        QueryMode::Application
    } else if w == seq!['s', 'e', 'a', 'r', 'c', 'h'] || w == seq!['s'] {
        QueryMode::Search
    } else {
        QueryMode::All
    }
}

/// The mode of an optional hint: its trimmed, lowercased text picks one,
/// anything else (or no hint) is `All`.
pub open spec fn mode_of(hint: Option<Seq<char>>) -> QueryMode {
    match hint {
        Some(h) => mode_of_word(lower_of(trim_seq(h))),
        None => QueryMode::All,
    }
}


impl QueryMode {
    /// The mode a free-text hint selects; `All` when none or unknown.
    pub fn from_option(mode: Option<String>) -> (r: QueryMode)
        ensures
            r == mode_of(opt_view(mode)),
    {
        match mode {
            None => QueryMode::All,
            Some(m) => {
                let t = crate::text::from_chars(trim_chars(to_chars(m.as_str()).as_slice()).as_slice());
                let low = to_lowercase(t.as_str());
                let w = to_chars(low.as_str());
                let bookmark = ['b', 'o', 'o', 'k', 'm', 'a', 'r', 'k'];
                let bookmarks = ['b', 'o', 'o', 'k', 'm', 'a', 'r', 'k', 's'];
                let b = ['b'];
                let app = ['a', 'p', 'p'];
                let apps = ['a', 'p', 'p', 's'];
                let application = ['a', 'p', 'p', 'l', 'i', 'c', 'a', 't', 'i', 'o', 'n'];
                let r = ['r'];
                let search = ['s', 'e', 'a', 'r', 'c', 'h'];
                let s = ['s'];
                assert(bookmark@ == seq!['b', 'o', 'o', 'k', 'm', 'a', 'r', 'k']);
                assert(bookmarks@ == seq!['b', 'o', 'o', 'k', 'm', 'a', 'r', 'k', 's']);
                assert(b@ == seq!['b']);
                assert(app@ == seq!['a', 'p', 'p']);
                assert(apps@ == seq!['a', 'p', 'p', 's']);
                assert(application@ == seq![
                    'a',
                    'p',
                    'p',
                    'l',
                    'i',
                    'c',
                    'a',
                    't',
                    'i',
                    'o',
                    'n',
                ]);
                assert(r@ == seq!['r']);
                assert(search@ == seq!['s', 'e', 'a', 'r', 'c', 'h']);
                assert(s@ == seq!['s']);
                let w = w.as_slice();
                if crate::keywords::chars_eq(w, &bookmark) || crate::keywords::chars_eq(w, &bookmarks) || crate::keywords::chars_eq(w, &b) {
                    QueryMode::Bookmark
                } else if crate::keywords::chars_eq(w, &app) || crate::keywords::chars_eq(w, &apps) || crate::keywords::chars_eq(w, &application)
                    || crate::keywords::chars_eq(w, &r) {
                    QueryMode::Application
                } else if crate::keywords::chars_eq(w, &search) || crate::keywords::chars_eq(w, &s) {
                    QueryMode::Search
                } else {
                    QueryMode::All
                }
            },
        }
    }

    pub open spec fn spec_allows_bookmarks(&self) -> bool {
        *self == QueryMode::All || *self == QueryMode::Bookmark
    }

    pub open spec fn spec_allows_applications(&self) -> bool {
        *self == QueryMode::All || *self == QueryMode::Application
    }

    pub open spec fn spec_allows_web_search(&self) -> bool {
        *self == QueryMode::All || *self == QueryMode::Search
    }

    #[verifier::when_used_as_spec(spec_allows_bookmarks)]
    /// Whether bookmarks are searched in this mode.
    pub fn allows_bookmarks(&self) -> (r: bool)
        ensures
            r == self.spec_allows_bookmarks(),
    {
        matches!(self, QueryMode::All | QueryMode::Bookmark)
    }

    #[verifier::when_used_as_spec(spec_allows_applications)]
    /// Whether applications are searched in this mode.
    pub fn allows_applications(&self) -> (r: bool)
        ensures
            r == self.spec_allows_applications(),
    {
        matches!(self, QueryMode::All | QueryMode::Application)
    }

    #[verifier::when_used_as_spec(spec_allows_web_search)]
    /// Whether the web-search row is offered in this mode.
    pub fn allows_web_search(&self) -> (r: bool)
        ensures
            r == self.spec_allows_web_search(),
    {
        matches!(self, QueryMode::All | QueryMode::Search)
    }
}

/// One whitespace-free token: not blank, and no whitespace once trimmed.
pub open spec fn single_token(s: Seq<char>) -> bool {
    !blank(s) && forall|i: int| 0 <= i < trim_seq(s).len() ==> !is_ws(#[trigger] trim_seq(s)[i])
}

/// Input that reads as a URL: an explicit web scheme, or a single token with
/// a dot in it.
pub open spec fn url_like(s: Seq<char>) -> bool {
    has_prefix(s, http_prefix()) || has_prefix(s, https_prefix()) || (s.contains('.')
        && single_token(s))
}

/// Whether query text reads as a URL.
pub fn is_url_like(input: &str) -> (r: bool)
    ensures
        r == url_like(input@),
{
    let s = to_chars(input);
    let http = ['h', 't', 't', 'p', ':', '/', '/'];
    let https = ['h', 't', 't', 'p', 's', ':', '/', '/'];
    assert(http@ == http_prefix());
    assert(https@ == https_prefix());
    if starts_with(s.as_slice(), &http) || starts_with(s.as_slice(), &https) {
        return true;
    }
    if !contains_char(s.as_slice(), '.') {
        return false;
    }
    if is_blank(s.as_slice()) {
        return false;
    }
    let t = trim_chars(s.as_slice());
    let mut k: usize = 0;
    while k < t.len()
        invariant
            k <= t@.len(),
            t@ == trim_seq(s@),
            s@ == input@,
            !has_prefix(input@, http_prefix()),
            !has_prefix(input@, https_prefix()),
            input@.contains('.'),
            !blank(input@),
            forall|i: int| 0 <= i < k ==> !is_ws(#[trigger] t@[i]),
        decreases t@.len() - k,
    {
        if is_whitespace(t[k]) {
            assert(is_ws(trim_seq(s@)[k as int]));
            return false;
        }
        k = k + 1;
    }
    true
}

/// `s - p`, held at the smallest `i64` instead of going below it.
pub open spec fn penalized(s: i64, p: i64) -> i64 {
    if s - p < i64::MIN {
        i64::MIN
    } else {
        (s - p) as i64
    }
}

fn penalize(s: i64, p: i64) -> (r: i64)
    requires
        0 <= p,
    ensures
        r == penalized(s, p),
{
    if s < i64::MIN + p {
        i64::MIN
    } else {
        s - p
    }
}

/// The better of a best-so-far and a new score; a tie keeps the old one.
pub open spec fn better(best: Option<i64>, s: i64) -> Option<i64> {
    match best {
        None => Some(s),
        Some(c) => if s > c {
            Some(s)
        } else {
            best
        },
    }
}

/// `best` after one more field: an empty field is passed over, a field that
/// matches counts with its penalty.
pub open spec fn consider(best: Option<i64>, field: Seq<char>, q: Seq<char>, pen: i64) -> Option<
    i64,
> {
    if field.len() == 0 {
        best
    } else {
        match skim_score(field, q) {
            Some(s) => better(best, penalized(s, pen)),
            None => best,
        }
    }
}

/// `best` after each keyword in turn.
pub open spec fn over_keywords(
    best: Option<i64>,
    kws: Seq<Seq<char>>,
    q: Seq<char>,
    pen: i64,
) -> Option<i64>
    decreases kws.len(),
{
    if kws.len() == 0 {
        best
    } else {
        consider(over_keywords(best, kws.drop_last(), q, pen), kws.last(), q, pen)
    }
}

/// Score of an application: its name as it matches, each keyword less 5.
pub open spec fn app_score(a: AppView, q: Seq<char>) -> Option<i64> {
    over_keywords(skim_score(a.name, q), a.keywords, q, 5)
}

/// Score of a bookmark: its title as it matches, its folder path less 5, its
/// URL and each keyword less 8.
pub open spec fn bookmark_score(b: BookmarkView, q: Seq<char>) -> Option<i64> {
    let t = skim_score(b.title, q);
    let f = match b.folder_path {
        Some(p) => match skim_score(p, q) {
            Some(s) => better(t, penalized(s, 5)),
            None => t,
        },
        None => t,
    };
    let u = match skim_score(b.url, q) {
        Some(s) => better(f, penalized(s, 8)),
        None => f,
    };
    over_keywords(u, b.keywords, q, 8)
}

fn keep_better(best: Option<i64>, s: i64) -> (r: Option<i64>)
    ensures
        r == better(best, s),
{
    match best {
        None => Some(s),
        Some(c) => if s > c {
            Some(s)
        } else {
            best
        },
    }
}

fn best_over_keywords(best: Option<i64>, kws: &Vec<String>, q: &str, pen: i64) -> (r: Option<i64>)
    requires
        0 <= pen,
    ensures
        r == over_keywords(best, views(kws@), q@, pen),
{
    let mut cur = best;
    let mut k: usize = 0;
    while k < kws.len()
        invariant
            0 <= pen,
            k <= kws@.len(),
            cur == over_keywords(best, views(kws@.subrange(0, k as int)), q@, pen),
        decreases kws@.len() - k,
    {
        proof {
            let pre = views(kws@.subrange(0, k as int));
            let post = views(kws@.subrange(0, k + 1));
            assert(post.drop_last() =~= pre);
            assert(post.last() == kws@[k as int]@);
        }
        let kw = &kws[k];
        if kw.as_str().unicode_len() != 0 {
            match fuzzy_match(kw.as_str(), q) {
                Some(s) => {
                    cur = keep_better(cur, penalize(s, pen));
                },
                None => {},
            }
        }
        k = k + 1;
    }
    assert(kws@.subrange(0, kws@.len() as int) == kws@);
    cur
}

/// The score of an application for a query, or `None` when nothing matches.
pub fn match_application(app: &ApplicationInfo, query: &str) -> (r: Option<i64>)
    ensures
        r == app_score(app@, query@),
{
    let best = fuzzy_match(app.name.as_str(), query);
    best_over_keywords(best, &app.keywords, query, 5)
}

/// The score of a bookmark for a query, or `None` when nothing matches.
pub fn match_bookmark(bookmark: &BookmarkEntry, query: &str) -> (r: Option<i64>)
    ensures
        r == bookmark_score(bookmark@, query@),
{
    let mut best = fuzzy_match(bookmark.title.as_str(), query);
    match &bookmark.folder_path {
        Some(path) => match fuzzy_match(path.as_str(), query) {
            Some(s) => {
                best = keep_better(best, penalize(s, 5));
            },
            None => {},
        },
        None => {},
    }
    match fuzzy_match(bookmark.url.as_str(), query) {
        Some(s) => {
            best = keep_better(best, penalize(s, 8));
        },
        None => {},
    }
    best_over_keywords(best, &bookmark.keywords, query, 8)
}

} // verus!
