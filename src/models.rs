//! Catalog entries, search results and the actions that results stand for.
use vstd::prelude::*;
use crate::keywords::views;

verus! {

/// The two launch mechanisms of an application.
#[derive(Debug, Clone, Copy, PartialEq, Eq, Hash, Structural)]
pub enum AppType {
    /// A program started from its path.
    Win32,
    /// A packaged app activated by its identity.
    Uwp,
}

/// One launchable application of the catalog.
#[derive(Debug, Clone)]
pub struct ApplicationInfo {
    pub id: String,
    pub name: String,
    pub path: String,
    pub source_path: Option<String>,
    pub app_type: AppType,
    pub icon_b64: String,
    pub description: Option<String>,
    pub keywords: Vec<String>,
    pub arguments: Option<String>,
    pub working_directory: Option<String>,
}

/// One browser bookmark of the catalog.
#[derive(Debug, Clone)]
pub struct BookmarkEntry {
    pub id: String,
    pub title: String,
    pub url: String,
    pub folder_path: Option<String>,
    pub keywords: Vec<String>,
}

/// One row of a query's answer.
#[derive(Debug, Clone)]
pub struct SearchResult {
    pub id: String,
    pub title: String,
    pub subtitle: String,
    pub icon: String,
    pub score: i64,
    pub action_id: String,
}

/// What choosing a result does.
#[derive(Clone)]
pub enum PendingAction {
    Application(ApplicationInfo),
    Bookmark(BookmarkEntry),
    Url(String),
    Search(String),
}

pub open spec fn opt_view(o: Option<String>) -> Option<Seq<char>> {
    match o {
        Some(s) => Some(s@),
        None => None,
    }
}

pub struct AppView {
    pub id: Seq<char>,
    pub name: Seq<char>,
    pub path: Seq<char>,
    pub source_path: Option<Seq<char>>,
    pub app_type: AppType,
    pub icon_b64: Seq<char>,
    pub description: Option<Seq<char>>,
    pub keywords: Seq<Seq<char>>,
    pub arguments: Option<Seq<char>>,
    pub working_directory: Option<Seq<char>>,
}

pub struct BookmarkView {
    pub id: Seq<char>,
    pub title: Seq<char>,
    pub url: Seq<char>,
    pub folder_path: Option<Seq<char>>,
    pub keywords: Seq<Seq<char>>,
}

pub struct ResultView {
    pub id: Seq<char>,
    pub title: Seq<char>,
    pub subtitle: Seq<char>,
    pub icon: Seq<char>,
    pub score: i64,
    pub action_id: Seq<char>,
}

pub enum ActionView {
    Application(AppView),
    Bookmark(BookmarkView),
    Url(Seq<char>),
    Search(Seq<char>),
}

impl View for ApplicationInfo {
    type V = AppView;

    open spec fn view(&self) -> AppView {
        AppView {
            id: self.id@,
            name: self.name@,
            path: self.path@,
            source_path: opt_view(self.source_path),
            app_type: self.app_type,
            icon_b64: self.icon_b64@,
            description: opt_view(self.description),
            keywords: views(self.keywords@),
            arguments: opt_view(self.arguments),
            working_directory: opt_view(self.working_directory),
        }
    }
}

impl View for BookmarkEntry {
    type V = BookmarkView;

    open spec fn view(&self) -> BookmarkView {
        BookmarkView {
            id: self.id@,
            title: self.title@,
            url: self.url@,
            folder_path: opt_view(self.folder_path),
            keywords: views(self.keywords@),
        }
    }
}

impl View for SearchResult {
    type V = ResultView;

    open spec fn view(&self) -> ResultView {
        ResultView {
            id: self.id@,
            title: self.title@,
            subtitle: self.subtitle@,
            icon: self.icon@,
            score: self.score,
            action_id: self.action_id@,
        }
    }
}

impl View for PendingAction {
    type V = ActionView;

    open spec fn view(&self) -> ActionView {
        match self {
            PendingAction::Application(a) => ActionView::Application(a@),
            PendingAction::Bookmark(b) => ActionView::Bookmark(b@),
            PendingAction::Url(u) => ActionView::Url(u@),
            PendingAction::Search(u) => ActionView::Search(u@),
        }
    }
}

/// A copy of an optional text.
pub fn copy_opt(o: &Option<String>) -> (r: Option<String>)
    ensures
        opt_view(r) == opt_view(*o),
{
    match o {
        Some(s) => Some(s.clone()),
        None => None,
    }
}

/// A copy of a list of texts.
pub fn copy_strings(v: &Vec<String>) -> (r: Vec<String>)
    ensures
        views(r@) == views(v@),
{
    let mut r: Vec<String> = Vec::new();
    let mut k: usize = 0;
    while k < v.len()
        invariant
            k <= v@.len(),
            r@.len() == k,
            forall|i: int| 0 <= i < k ==> (#[trigger] r@[i])@ == v@[i]@,
        decreases v@.len() - k,
    {
        r.push(v[k].clone());
        k = k + 1;
    }
    assert(views(r@) =~= views(v@));
    r
}

impl ApplicationInfo {
    /// A copy with the same contents.
    pub fn duplicate(&self) -> (r: ApplicationInfo)
        ensures
            r@ == self@,
    {
        ApplicationInfo {
            id: self.id.clone(),
            name: self.name.clone(),
            path: self.path.clone(),
            source_path: copy_opt(&self.source_path),
            app_type: self.app_type,
            icon_b64: self.icon_b64.clone(),
            description: copy_opt(&self.description),
            keywords: copy_strings(&self.keywords),
            arguments: copy_opt(&self.arguments),
            working_directory: copy_opt(&self.working_directory),
        }
    }
}

impl BookmarkEntry {
    /// A copy with the same contents.
    pub fn duplicate(&self) -> (r: BookmarkEntry)
        ensures
            r@ == self@,
    {
        BookmarkEntry {
            id: self.id.clone(),
            title: self.title.clone(),
            url: self.url.clone(),
            folder_path: copy_opt(&self.folder_path),
            keywords: copy_strings(&self.keywords),
        }
    }
}

impl PendingAction {
    /// A copy with the same contents.
    pub fn duplicate(&self) -> (r: PendingAction)
        ensures
            r@ == self@,
    {
        match self {
            PendingAction::Application(a) => PendingAction::Application(a.duplicate()),
            PendingAction::Bookmark(b) => PendingAction::Bookmark(b.duplicate()),
            PendingAction::Url(u) => PendingAction::Url(u.clone()),
            PendingAction::Search(u) => PendingAction::Search(u.clone()),
        }
    }
}

} // verus!
