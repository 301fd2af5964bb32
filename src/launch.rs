//! What carrying out a chosen result asks of the system: which launch to
//! make first, and what to do when a program's own path fails to start.
use vstd::prelude::*;
use crate::models::{opt_view, ActionView, AppType, ApplicationInfo, PendingAction};
use crate::text::{from_chars, occurs, to_chars, trim_chars, trim_seq, contains_seq};

verus! {

/// One request to the system's launch services.
#[derive(Debug)]
pub enum LaunchRequest {
    /// Start the program at `path`, which must exist; elevated on request.
    ExecutePath { path: String, elevated: bool },
    /// Hand `target` to the shell with optional arguments and working
    /// directory; elevated on request.
    Execute {
        target: String,
        arguments: Option<String>,
        working_directory: Option<String>,
        elevated: bool,
    },
    /// Hand a URI to the shell.
    OpenUri(String),
    /// Activate a packaged app by its identity.
    ActivatePackage(String),
    /// Open a web address with the default browser.
    OpenUrl(String),
}

/// What follows a failed or successful start of a program's own path.
#[derive(Debug)]
pub enum LaunchOutcome {
    Launched,
    Failed(String),
    /// Try the program's source path next.
    RetryFromSource(String),
}

/// The first request for a pending action. Elevation only concerns programs
/// started from their path.
pub open spec fn first_request(a: ActionView, run_as_admin: bool, r: LaunchRequest) -> bool {
    match a {
        ActionView::Application(app) => match app.app_type {
            AppType::Win32 => r matches LaunchRequest::ExecutePath { path, elevated } && path@
                == app.path && elevated == run_as_admin,
            AppType::Uwp => r matches LaunchRequest::ActivatePackage(id) && id@ == app.path,
        },
        ActionView::Bookmark(b) => r matches LaunchRequest::OpenUrl(u) && u@ == b.url,
        ActionView::Url(u) => r matches LaunchRequest::OpenUrl(v) && v@ == u,
        ActionView::Search(u) => r matches LaunchRequest::OpenUrl(v) && v@ == u,
    }
}

/// The first launch request for a pending action.
pub fn primary_request(action: &PendingAction, run_as_admin: bool) -> (r: LaunchRequest)
    ensures
        first_request(action@, run_as_admin, r),
{
    match action {
        PendingAction::Application(app) => match app.app_type {
            AppType::Win32 => LaunchRequest::ExecutePath {
                path: app.path.clone(),
                elevated: run_as_admin,
            },
            AppType::Uwp => LaunchRequest::ActivatePackage(app.path.clone()),
        },
        PendingAction::Bookmark(b) => LaunchRequest::OpenUrl(b.url.clone()),
        PendingAction::Url(u) => LaunchRequest::OpenUrl(u.clone()),
        PendingAction::Search(u) => LaunchRequest::OpenUrl(u.clone()),
    }
}

/// After starting a program's own path: done on success; on failure its
/// source path is tried when it has one, else the failure stands.
pub fn launch_win32_app(app: &ApplicationInfo, primary: Result<(), String>) -> (r: LaunchOutcome)
    ensures
        primary is Ok ==> r is Launched,
        primary is Err && app.source_path is Some ==> (r matches LaunchOutcome::RetryFromSource(s)
            && s@ == app.source_path.unwrap()@),
        primary is Err && app.source_path is None ==> (r matches LaunchOutcome::Failed(e) && e@
            == primary->Err_0@),
{
    match primary {
        Ok(()) => LaunchOutcome::Launched,
        Err(e) => match &app.source_path {
            Some(s) => LaunchOutcome::RetryFromSource(s.clone()),
            None => LaunchOutcome::Failed(e),
        },
    }
}

pub open spec fn is_quote(c: char) -> bool {
    c == '"' || c == '\''
}

/// `s` without quotes at either end.
pub open spec fn strip_quotes_seq(s: Seq<char>) -> Seq<char>
    decreases s.len(),
{
    if s.len() > 0 && is_quote(s[0]) {
        strip_quotes_seq(s.drop_first())
    } else if s.len() > 0 && is_quote(s.last()) {
        strip_quotes_seq(s.drop_last())
    } else {
        s
    }
}

/// A source path as launched: trimmed, then without surrounding quotes.
pub open spec fn normalized_source(s: Seq<char>) -> Seq<char> {
    strip_quotes_seq(trim_seq(s))
}

fn strip_quotes(s: &Vec<char>) -> (r: Vec<char>)
    ensures
        r@ == strip_quotes_seq(s@),
    decreases s@.len(),
{
    if s.len() > 0 && (s[0] == '"' || s[0] == '\'') {
        let rest = crate::text::slice_to_vec_range(s.as_slice(), 1, s.len());
        assert(rest@ =~= s@.drop_first());
        strip_quotes(&rest)
    } else if s.len() > 0 && (s[s.len() - 1] == '"' || s[s.len() - 1] == '\'') {
        let rest = crate::text::slice_to_vec_range(s.as_slice(), 0, s.len() - 1);
        assert(rest@ =~= s@.drop_last());
        strip_quotes(&rest)
    } else {
        crate::text::slice_to_vec_range(s.as_slice(), 0, s.len())
    }
}

/// The source path as it is launched.
pub fn normalize_source(source: &str) -> (r: String)
    ensures
        r@ == normalized_source(source@),
{
    let t = trim_chars(to_chars(source).as_slice());
    from_chars(strip_quotes(&t).as_slice())
}

pub open spec fn invalid_source_message() -> Seq<char> {
    seq!['备', '用', '路', '径', '无', '效']
}

pub open spec fn scheme_sep() -> Seq<char> {
    seq![':', '/', '/']
}

/// `Some` of the trimmed text when that is not empty.
pub open spec fn trimmed_arg(o: Option<Seq<char>>) -> Option<Seq<char>> {
    match o {
        Some(s) => if trim_seq(s).len() > 0 {
            Some(trim_seq(s))
        } else {
            None
        },
        None => None,
    }
}

fn trim_arg(o: Option<&str>) -> (r: Option<String>)
    ensures
        opt_view(r) == trimmed_arg(
            match o {
                Some(s) => Some(s@),
                None => None,
            },
        ),
{
    match o {
        Some(s) => {
            let t = trim_chars(to_chars(s).as_slice());
            if t.len() > 0 {
                Some(from_chars(t.as_slice()))
            } else {
                None
            }
        },
        None => None,
    }
}

/// The request that launches a program's source path. `exists` tells
/// whether the normalised source names an existing file or folder. An empty
/// source is refused; a URI that is no existing path goes to the shell as a
/// URI; anything else is started with the saved arguments and working
/// directory.
pub fn launch_from_source(
    source: &str,
    arguments: Option<&str>,
    working_directory: Option<&str>,
    run_as_admin: bool,
    exists: bool,
) -> (r: Result<LaunchRequest, String>)
    ensures
        normalized_source(source@).len() == 0 <==> r is Err,
        r is Err ==> r->Err_0@ == invalid_source_message(),
        r is Ok && occurs(normalized_source(source@), scheme_sep()) && !exists ==> (r->Ok_0 matches LaunchRequest::OpenUri(u) && u@ == normalized_source(source@)),
        r is Ok && !(occurs(normalized_source(source@), scheme_sep()) && !exists)
            ==> (r->Ok_0 matches LaunchRequest::Execute { target, arguments: a, working_directory: w, elevated }
            && target@ == normalized_source(source@)
            && opt_view(a) == trimmed_arg(match arguments { Some(s) => Some(s@), None => None })
            && opt_view(w) == trimmed_arg(match working_directory { Some(s) => Some(s@), None => None })
            && elevated == run_as_admin),
{
    let normalized = normalize_source(source);
    let nc = to_chars(normalized.as_str());
    if nc.len() == 0 {
        let m = ['备', '用', '路', '径', '无', '效'];
        assert(m@ == invalid_source_message());
        return Err(from_chars(&m));
    }
    let sep = [':', '/', '/'];
    assert(sep@ == scheme_sep());
    if contains_seq(nc.as_slice(), &sep) && !exists {
        return Ok(LaunchRequest::OpenUri(normalized));
    }
    Ok(
        LaunchRequest::Execute {
            target: normalized,
            arguments: trim_arg(arguments),
            working_directory: trim_arg(working_directory),
            elevated: run_as_admin,
        },
    )
}

/// The error for a program whose path no longer exists.
pub fn target_missing_message() -> (r: String)
    ensures
        r@ == seq!['目', '标', '程', '序', '不', '存', '在', '或', '已', '被', '移', '动'],
{
    let m = ['目', '标', '程', '序', '不', '存', '在', '或', '已', '被', '移', '动'];
    assert(m@ == seq!['目', '标', '程', '序', '不', '存', '在', '或', '已', '被', '移', '动']);
    from_chars(&m)
}

} // verus!
