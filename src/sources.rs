//! Catalog entries from what the three application sources report: a
//! Start-menu shortcut, an installed program's uninstall record, a packaged
//! app's list entry.
use vstd::prelude::*;
use crate::keywords::{chars_eq, clean_keywords, normalize_keywords, same_keywords, sorted_keywords, views};
use crate::models::{copy_opt, opt_view, AppType, AppView, ApplicationInfo};
use crate::scoring::{lower_of, to_lowercase};
use crate::text::{
    append_chars, ascii_lower, blank, contains_seq, from_chars, is_blank, occurs, to_ascii_lower,
    to_chars, trim_chars, trim_seq,
};

verus! {

/// Standard base64 (with padding) of some bytes.
pub uninterp spec fn base64_of(b: Seq<u8>) -> Seq<char>;

/// Relies on `base64::engine::general_purpose::STANDARD` and `Engine::encode`:
/// the padded standard base64 text of `b`; no bytes give an empty text.
#[verifier::external_body]
pub(crate) fn base64_encode(b: &[u8]) -> (r: String)
    ensures
        r@ == base64_of(b@),
        b@.len() == 0 ==> r@.len() == 0,
{
    base64::Engine::encode(&base64::engine::general_purpose::STANDARD, b)
}

/// What a Start-menu shortcut resolves to, with the file checks done.
#[derive(Debug, Clone)]
pub struct ShortcutRecord {
    /// Path of the shortcut file.
    pub link_path: String,
    /// The shortcut file's name without extension.
    pub file_stem: Option<String>,
    /// The target the shortcut names.
    pub target_path: Option<String>,
    /// That target cleaned up and expanded, when it is an existing file.
    pub resolved_target: Option<String>,
    pub arguments: Option<String>,
    pub working_directory: Option<String>,
    pub description: Option<String>,
    /// The shortcut's icon file, when it exists.
    pub icon_path: Option<String>,
}

/// One uninstall record of an installed program, with the file checks done.
#[derive(Debug, Clone)]
pub struct RegistryRecord {
    /// The uninstall key the record sits under.
    pub parent_path: String,
    /// The record's own key name.
    pub entry_name: String,
    pub system_component: Option<u32>,
    pub no_display: Option<u32>,
    pub display_name: Option<String>,
    /// `DisplayIcon` as an existing executable file.
    pub display_icon: Option<String>,
    /// `ExecutablePath` as an existing executable file.
    pub executable_path: Option<String>,
    /// The largest executable in `InstallLocation`.
    pub install_location_exe: Option<String>,
    /// The largest executable in `InstallSource`.
    pub install_source_exe: Option<String>,
    pub publisher: Option<String>,
    pub display_version: Option<String>,
}

/// One app-list entry of an installed package.
#[derive(Debug, Clone)]
pub struct PackagedAppRecord {
    pub app_user_model_id: String,
    pub display_name: String,
    pub description: Option<String>,
    pub package_name: Option<String>,
    pub package_family_name: Option<String>,
    pub package_full_name: Option<String>,
    /// The logo image's bytes.
    pub logo: Option<Vec<u8>>,
}

pub open spec fn unins() -> Seq<char> {
    seq!['u', 'n', 'i', 'n', 's']
}

pub open spec fn uninstall() -> Seq<char> {
    seq!['u', 'n', 'i', 'n', 's', 't', 'a', 'l', 'l']
}

/// A path or name that reads like an uninstaller's.
pub open spec fn uninstaller(s: Seq<char>) -> bool {
    occurs(ascii_lower(s), unins()) || occurs(ascii_lower(s), uninstall())
}

/// Whether a path or name reads like an uninstaller's.
pub fn looks_like_uninstaller(path: &str) -> (r: bool)
    ensures
        r == uninstaller(path@),
{
    let lower = to_ascii_lower(to_chars(path).as_slice());
    let a = ['u', 'n', 'i', 'n', 's'];
    let b = ['u', 'n', 'i', 'n', 's', 't', 'a', 'l', 'l'];
    assert(a@ == unins());
    assert(b@ == uninstall());
    contains_seq(lower.as_slice(), &a) || contains_seq(lower.as_slice(), &b)
}

pub open spec fn is_sep(c: char) -> bool {
    c == '\\' || c == '/'
}

/// The text after the last path separator.
pub open spec fn last_component(p: Seq<char>) -> Seq<char>
    decreases p.len(),
{
    if p.len() == 0 || is_sep(p.last()) {
        Seq::empty()
    } else {
        last_component(p.drop_last()).push(p.last())
    }
}

/// The file name of a Windows path: its last component, unless that is
/// empty or `..`.
pub open spec fn file_name_of(p: Seq<char>) -> Option<Seq<char>> {
    let c = last_component(p);
    if c.len() == 0 || c == seq!['.', '.'] {
        None
    } else {
        Some(c)
    }
}

proof fn lemma_last_component_at(p: Seq<char>, j: int)
    requires
        0 <= j <= p.len(),
        forall|m: int| j <= m < p.len() ==> !is_sep(#[trigger] p[m]),
        j > 0 ==> is_sep(p[j - 1]),
    ensures
        last_component(p) == p.subrange(j, p.len() as int),
    decreases p.len() - j,
{
    if j < p.len() {
        lemma_last_component_at(p.drop_last(), j);
        assert(p.drop_last().subrange(j, p.len() - 1).push(p.last()) =~= p.subrange(
            j,
            p.len() as int,
        ));
    } else {
        assert(p.subrange(j, p.len() as int) =~= Seq::<char>::empty());
    }
}

/// The file name of a Windows path, if it has one.
pub fn file_name(p: &[char]) -> (r: Option<Vec<char>>)
    ensures
        match r {
            Some(v) => file_name_of(p@) == Some(v@),
            None => file_name_of(p@) is None,
        },
{
    let mut j: usize = p.len();
    while j > 0 && !(p[j - 1] == '\\' || p[j - 1] == '/')
        invariant
            j <= p@.len(),
            forall|m: int| j <= m < p@.len() ==> !is_sep(#[trigger] p@[m]),
        decreases j,
    {
        j = j - 1;
    }
    proof {
        lemma_last_component_at(p@, j as int);
    }
    let c = crate::text::slice_to_vec_range(p, j, p.len());
    let dots = ['.', '.'];
    assert(dots@ == seq!['.', '.']);
    if c.len() == 0 || chars_eq(c.as_slice(), &dots) {
        None
    } else {
        Some(c)
    }
}

/// `Some` of the trimmed text when that is not empty.
pub open spec fn trimmed_nonempty(o: Option<Seq<char>>) -> Option<Seq<char>> {
    match o {
        Some(s) => if trim_seq(s).len() > 0 {
            Some(trim_seq(s))
        } else {
            None
        },
        None => None,
    }
}

/// `o` unless it is blank.
pub open spec fn non_blank(o: Option<Seq<char>>) -> Option<Seq<char>> {
    match o {
        Some(s) => if blank(s) {
            None
        } else {
            Some(s)
        },
        None => None,
    }
}

/// The target a shortcut entry launches as its source path: the resolved
/// target, else the named one, trimmed, when not empty.
pub open spec fn shortcut_target(r: ShortcutRecord) -> Option<Seq<char>> {
    trimmed_nonempty(
        match r.resolved_target {
            Some(t) => Some(t@),
            None => opt_view(r.target_path),
        },
    )
}

pub open spec fn shortcut_name(r: ShortcutRecord) -> Seq<char> {
    trim_seq(r.file_stem.unwrap()@)
}

/// Whether a shortcut gives an entry: it has a name, and neither its name nor
/// its target reads like an uninstaller.
pub open spec fn shortcut_kept(r: ShortcutRecord) -> bool {
    &&& r.file_stem is Some
    &&& shortcut_name(r).len() > 0
    &&& !(shortcut_target(r) is Some && uninstaller(shortcut_target(r).unwrap()))
    &&& !uninstaller(shortcut_name(r))
}

/// Keywords of a shortcut before clean-up: name, target and its file name,
/// description.
pub open spec fn shortcut_keywords(r: ShortcutRecord) -> Seq<Seq<char>> {
    let t = match shortcut_target(r) {
        Some(t) => seq![t] + match file_name_of(t) {
            Some(f) => seq![f],
            None => Seq::empty(),
        },
        None => Seq::empty(),
    };
    let d = match r.description {
        Some(d) => seq![d@],
        None => Seq::empty(),
    };
    seq![shortcut_name(r)] + t + d
}

pub open spec fn startmenu_id_prefix() -> Seq<char> {
    seq!['w', 'i', 'n', '3', '2', ':', 's', 't', 'a', 'r', 't', 'm', 'e', 'n', 'u', ':']
}

/// The file an entry's icon is drawn from: the shortcut's icon file, else its
/// target, else the shortcut itself.
pub open spec fn shortcut_icon_source(r: ShortcutRecord) -> Seq<char> {
    match r.icon_path {
        Some(i) => i@,
        None => match shortcut_target(r) {
            Some(t) => t,
            None => r.link_path@,
        },
    }
}

/// What the entry made from a kept shortcut holds (its icon is left empty,
/// to be drawn from the returned icon source).
pub open spec fn shortcut_entry_matches(a: ApplicationInfo, r: ShortcutRecord) -> bool {
    &&& a.id@ == startmenu_id_prefix() + lower_of(r.link_path@)
    &&& a.name@ == shortcut_name(r)
    &&& a.path@ == r.link_path@
    &&& opt_view(a.source_path) == shortcut_target(r)
    &&& a.app_type == AppType::Win32
    &&& a.icon_b64@.len() == 0
    &&& opt_view(a.description) == non_blank(opt_view(r.description))
    &&& clean_keywords(views(a.keywords@))
    &&& same_keywords(views(a.keywords@), shortcut_keywords(r))
    &&& opt_view(a.arguments) == opt_view(r.arguments)
    &&& opt_view(a.working_directory) == opt_view(r.working_directory)
}

/// The entry a kept shortcut gives (its icon left empty).
pub open spec fn shortcut_view(r: ShortcutRecord) -> AppView {
    AppView {
        id: startmenu_id_prefix() + lower_of(r.link_path@),
        name: shortcut_name(r),
        path: r.link_path@,
        source_path: shortcut_target(r),
        app_type: AppType::Win32,
        icon_b64: Seq::empty(),
        description: non_blank(opt_view(r.description)),
        keywords: sorted_keywords(shortcut_keywords(r)),
        arguments: opt_view(r.arguments),
        working_directory: opt_view(r.working_directory),
    }
}

fn trim_opt(o: &Option<String>) -> (r: Option<String>)
    ensures
        opt_view(r) == trimmed_nonempty(opt_view(*o)),
{
    match o {
        Some(s) => {
            let t = trim_chars(to_chars(s.as_str()).as_slice());
            if t.len() > 0 {
                Some(from_chars(t.as_slice()))
            } else {
                None
            }
        },
        None => None,
    }
}

fn non_blank_opt(o: &Option<String>) -> (r: Option<String>)
    ensures
        opt_view(r) == non_blank(opt_view(*o)),
{
    match o {
        Some(s) => {
            if is_blank(to_chars(s.as_str()).as_slice()) {
                None
            } else {
                Some(s.clone())
            }
        },
        None => None,
    }
}

fn prefixed(prefix: &[char], s: &str) -> (r: Vec<char>)
    ensures
        r@ == prefix@ + s@,
{
    let mut v = crate::text::slice_to_vec_range(prefix, 0, prefix.len());
    assert(prefix@.subrange(0, prefix@.len() as int) == prefix@);
    let sc = to_chars(s);
    append_chars(&mut v, sc.as_slice());
    v
}

/// The entry for a Start-menu shortcut and the file to draw its icon from,
/// or `None` when the shortcut is passed over.
pub fn shortcut_to_application(rec: &ShortcutRecord) -> (r: Option<(ApplicationInfo, String)>)
    ensures
        r is Some <==> shortcut_kept(*rec),
        r is Some ==> shortcut_entry_matches(r.unwrap().0, *rec),
        r is Some ==> r.unwrap().0@ == shortcut_view(*rec),
        r is Some ==> r.unwrap().1@ == shortcut_icon_source(*rec),
{
    let stem = match &rec.file_stem {
        Some(s) => s,
        None => return None,
    };
    let name = trim_chars(to_chars(stem.as_str()).as_slice());
    if name.len() == 0 {
        return None;
    }
    let name_s = from_chars(name.as_slice());
    let target = match &rec.resolved_target {
        Some(t) => trim_opt(&Some(t.clone())),
        None => trim_opt(&rec.target_path),
    };
    let target_uninstaller = match &target {
        Some(t) => looks_like_uninstaller(t.as_str()),
        None => false,
    };
    if target_uninstaller || looks_like_uninstaller(name_s.as_str()) {
        return None;
    }
    let mut raw: Vec<String> = Vec::new();
    raw.push(name_s.clone());
    match &target {
        Some(t) => {
            raw.push(t.clone());
            match file_name(to_chars(t.as_str()).as_slice()) {
                Some(f) => raw.push(from_chars(f.as_slice())),
                None => {},
            }
        },
        None => {},
    }
    match &rec.description {
        Some(d) => raw.push(d.clone()),
        None => {},
    }
    assert(views(raw@) =~= shortcut_keywords(*rec));
    let keywords = normalize_keywords(&raw);
    let icon_source = match &rec.icon_path {
        Some(i) => i.clone(),
        None => match &target {
            Some(t) => t.clone(),
            None => rec.link_path.clone(),
        },
    };
    let prefix = ['w', 'i', 'n', '3', '2', ':', 's', 't', 'a', 'r', 't', 'm', 'e', 'n', 'u', ':'];
    assert(prefix@ == startmenu_id_prefix());
    let lowered = to_lowercase(rec.link_path.as_str());
    let id = from_chars(prefixed(&prefix, lowered.as_str()).as_slice());
    let app = ApplicationInfo {
        id,
        name: name_s,
        path: rec.link_path.clone(),
        source_path: target,
        app_type: AppType::Win32,
        icon_b64: String::new(),
        description: non_blank_opt(&rec.description),
        keywords,
        arguments: copy_opt(&rec.arguments),
        working_directory: copy_opt(&rec.working_directory),
    };
    Some((app, icon_source))
}

} // verus!

verus! {

pub open spec fn registry_name(r: RegistryRecord) -> Seq<char> {
    trim_seq(r.display_name.unwrap()@)
}

/// The program a record launches: the largest executable of its install
/// folder, else its declared executable, else its display icon when that is
/// not an uninstaller, else the largest executable of its install source.
pub open spec fn registry_path(r: RegistryRecord) -> Option<Seq<char>> {
    if r.install_location_exe is Some {
        Some(r.install_location_exe.unwrap()@)
    } else if r.executable_path is Some {
        Some(r.executable_path.unwrap()@)
    } else if r.display_icon is Some && !uninstaller(r.display_icon.unwrap()@) {
        Some(r.display_icon.unwrap()@)
    } else {
        opt_view(r.install_source_exe)
    }
}

/// Whether a record gives an entry: not a system component, not hidden, a
/// name, and a program to launch.
pub open spec fn registry_kept(r: RegistryRecord) -> bool {
    &&& r.system_component != Some(1u32)
    &&& r.no_display != Some(1u32)
    &&& r.display_name is Some
    &&& registry_name(r).len() > 0
    &&& registry_path(r) is Some
}

/// Keywords of a record before clean-up: name, publisher, version.
pub open spec fn registry_keywords(r: RegistryRecord) -> Seq<Seq<char>> {
    let p = match non_blank(opt_view(r.publisher)) {
        Some(p) => seq![p],
        None => Seq::empty(),
    };
    let v = match non_blank(opt_view(r.display_version)) {
        Some(v) => seq![v],
        None => Seq::empty(),
    };
    seq![registry_name(r)] + p + v
}

pub open spec fn installed_id_text(r: RegistryRecord) -> Seq<char> {
    seq!['w', 'i', 'n', '3', '2', ':', 'i', 'n', 's', 't', 'a', 'l', 'l', 'e', 'd', ':']
        + r.parent_path@ + seq![':'] + r.entry_name@
}

pub open spec fn registry_entry_matches(a: ApplicationInfo, r: RegistryRecord) -> bool {
    &&& a.id@ == lower_of(installed_id_text(r))
    &&& a.name@ == registry_name(r)
    &&& Some(a.path@) == registry_path(r)
    &&& opt_view(a.source_path) == registry_path(r)
    &&& a.app_type == AppType::Win32
    &&& a.icon_b64@.len() == 0
    &&& opt_view(a.description) == non_blank(opt_view(r.publisher))
    &&& clean_keywords(views(a.keywords@))
    &&& same_keywords(views(a.keywords@), registry_keywords(r))
    &&& a.arguments is None
    &&& a.working_directory is None
}

/// The entry a kept record gives (its icon left empty).
pub open spec fn registry_view(r: RegistryRecord) -> AppView {
    AppView {
        id: lower_of(installed_id_text(r)),
        name: registry_name(r),
        path: registry_path(r).unwrap(),
        source_path: registry_path(r),
        app_type: AppType::Win32,
        icon_b64: Seq::empty(),
        description: non_blank(opt_view(r.publisher)),
        keywords: sorted_keywords(registry_keywords(r)),
        arguments: None,
        working_directory: None,
    }
}

/// The file a record's icon is drawn from: its display icon, else the
/// program.
pub open spec fn registry_icon_source(r: RegistryRecord) -> Seq<char> {
    match r.display_icon {
        Some(i) => i@,
        None => registry_path(r).unwrap(),
    }
}

/// The entry for an uninstall record and the file to draw its icon from, or
/// `None` when the record is passed over.
pub fn registry_entry_to_app(rec: &RegistryRecord) -> (r: Option<(ApplicationInfo, String)>)
    ensures
        r is Some <==> registry_kept(*rec),
        r is Some ==> registry_entry_matches(r.unwrap().0, *rec),
        r is Some ==> r.unwrap().0@ == registry_view(*rec),
        r is Some ==> r.unwrap().1@ == registry_icon_source(*rec),
{
    if rec.system_component == Some(1u32) || rec.no_display == Some(1u32) {
        return None;
    }
    let display = match &rec.display_name {
        Some(d) => d,
        None => return None,
    };
    let name = trim_chars(to_chars(display.as_str()).as_slice());
    if name.len() == 0 {
        return None;
    }
    let icon_ok = match &rec.display_icon {
        Some(i) => !looks_like_uninstaller(i.as_str()),
        None => false,
    };
    let path = match &rec.install_location_exe {
        Some(p) => p.clone(),
        None => match &rec.executable_path {
            Some(p) => p.clone(),
            None => if icon_ok {
                match &rec.display_icon {
                    Some(i) => i.clone(),
                    None => return None,
                }
            } else {
                match &rec.install_source_exe {
                    Some(p) => p.clone(),
                    None => return None,
                }
            },
        },
    };
    let name_s = from_chars(name.as_slice());
    let description = non_blank_opt(&rec.publisher);
    let version = non_blank_opt(&rec.display_version);
    let mut raw: Vec<String> = Vec::new();
    raw.push(name_s.clone());
    match &description {
        Some(d) => raw.push(d.clone()),
        None => {},
    }
    match &version {
        Some(v) => raw.push(v.clone()),
        None => {},
    }
    assert(views(raw@) =~= registry_keywords(*rec));
    let keywords = normalize_keywords(&raw);
    let icon_source = match &rec.display_icon {
        Some(i) => i.clone(),
        None => path.clone(),
    };
    let prefix = ['w', 'i', 'n', '3', '2', ':', 'i', 'n', 's', 't', 'a', 'l', 'l', 'e', 'd', ':'];
    let mut text = prefixed(&prefix, rec.parent_path.as_str());
    text.push(':');
    let en = to_chars(rec.entry_name.as_str());
    append_chars(&mut text, en.as_slice());
    assert(text@ =~= installed_id_text(*rec));
    let id = to_lowercase(from_chars(text.as_slice()).as_str());
    let app = ApplicationInfo {
        id,
        name: name_s,
        path: path.clone(),
        source_path: Some(path),
        app_type: AppType::Win32,
        icon_b64: String::new(),
        description,
        keywords,
        arguments: None,
        working_directory: None,
    };
    Some((app, icon_source))
}

/// The entries of the installed programs with their icon sources, in record
/// order: each kept record's entry, unless an earlier one has its id.
pub open spec fn installed_entries(records: Seq<RegistryRecord>) -> Seq<(AppView, Seq<char>)>
    decreases records.len(),
{
    if records.len() == 0 {
        Seq::empty()
    } else {
        let d = installed_entries(records.drop_last());
        let r = records.last();
        if registry_kept(r) && !id_taken(d, registry_view(r).id) {
            d.push((registry_view(r), registry_icon_source(r)))
        } else {
            d
        }
    }
}

pub open spec fn id_taken(d: Seq<(AppView, Seq<char>)>, id: Seq<char>) -> bool {
    exists|j: int| 0 <= j < d.len() && (#[trigger] d[j]).0.id == id
}

pub open spec fn pair_views(v: Seq<(ApplicationInfo, String)>) -> Seq<(AppView, Seq<char>)> {
    v.map_values(|p: (ApplicationInfo, String)| (p.0@, p.1@))
}

/// Entries of the installed programs, in record order, each id kept once
/// (at its first record), with their icon sources.
pub fn collect_installed(records: &Vec<RegistryRecord>) -> (r: Vec<(ApplicationInfo, String)>)
    ensures
        pair_views(r@) == installed_entries(records@),
{
    let mut out: Vec<(ApplicationInfo, String)> = Vec::new();
    let mut k: usize = 0;
    while k < records.len()
        invariant
            k <= records@.len(),
            pair_views(out@) == installed_entries(records@.take(k as int)),
        decreases records@.len() - k,
    {
        proof {
            assert(records@.take(k + 1).drop_last() =~= records@.take(k as int));
            assert(records@.take(k + 1).last() == records@[k as int]);
        }
        let ghost d = pair_views(out@);
        match registry_entry_to_app(&records[k]) {
            Some(pair) => {
                let idc = to_chars(pair.0.id.as_str());
                let mut seen = false;
                let mut j: usize = 0;
                while j < out.len()
                    invariant
                        j <= out@.len(),
                        idc@ == pair.0.id@,
                        d == pair_views(out@),
                        seen == exists|m: int| 0 <= m < j && (#[trigger] d[m]).0.id == idc@,
                    decreases out@.len() - j,
                {
                    let other = to_chars(out[j].0.id.as_str());
                    assert(d[j as int].0.id == out@[j as int].0.id@);
                    if chars_eq(other.as_slice(), idc.as_slice()) {
                        seen = true;
                    }
                    j = j + 1;
                }
                assert(seen == id_taken(d, registry_view(records@[k as int]).id));
                if !seen {
                    out.push(pair);
                    assert(pair_views(out@) =~= d.push((pair.0@, pair.1@)));
                }
            },
            None => {},
        }
        k = k + 1;
    }
    assert(records@.take(records@.len() as int) =~= records@);
    out
}

/// The entry for a packaged app. Its keywords: description, name, app
/// identity, package name, family and full name.
pub open spec fn packaged_keywords(r: PackagedAppRecord) -> Seq<Seq<char>> {
    let d = match r.description {
        Some(d) => seq![d@],
        None => Seq::empty(),
    };
    let opt = |o: Option<String>| match o {
        Some(s) => seq![s@],
        None => Seq::<Seq<char>>::empty(),
    };
    d + seq![r.display_name@, r.app_user_model_id@] + opt(r.package_name) + opt(
        r.package_family_name,
    ) + opt(r.package_full_name)
}

pub open spec fn uwp_id_prefix() -> Seq<char> {
    seq!['u', 'w', 'p', ':']
}

pub open spec fn packaged_entry_matches(a: ApplicationInfo, r: PackagedAppRecord) -> bool {
    &&& a.id@ == uwp_id_prefix() + lower_of(r.app_user_model_id@)
    &&& a.name@ == r.display_name@
    &&& a.path@ == r.app_user_model_id@
    &&& a.source_path is None
    &&& a.app_type == AppType::Uwp
    &&& a.icon_b64@ == match r.logo {
        Some(b) => base64_of(b@),
        None => Seq::empty(),
    }
    &&& opt_view(a.description) == match r.description {
        Some(d) => if d@.len() > 0 {
            Some(d@)
        } else {
            None
        },
        None => None,
    }
    &&& clean_keywords(views(a.keywords@))
    &&& same_keywords(views(a.keywords@), packaged_keywords(r))
    &&& a.arguments is None
    &&& a.working_directory is None
}

/// The entry a packaged app gives.
pub open spec fn packaged_view(r: PackagedAppRecord) -> AppView {
    AppView {
        id: uwp_id_prefix() + lower_of(r.app_user_model_id@),
        name: r.display_name@,
        path: r.app_user_model_id@,
        source_path: None,
        app_type: AppType::Uwp,
        icon_b64: match r.logo {
            Some(b) => base64_of(b@),
            None => Seq::empty(),
        },
        description: match r.description {
            Some(d) => if d@.len() > 0 {
                Some(d@)
            } else {
                None
            },
            None => None,
        },
        keywords: sorted_keywords(packaged_keywords(r)),
        arguments: None,
        working_directory: None,
    }
}

fn push_opt(raw: &mut Vec<String>, o: &Option<String>)
    ensures
        views(final(raw)@) == views(old(raw)@) + match *o {
            Some(s) => seq![s@],
            None => Seq::<Seq<char>>::empty(),
        },
{
    let ghost before = views(raw@);
    match o {
        Some(s) => {
            raw.push(s.clone());
            assert(views(raw@) =~= before + seq![s@]);
        },
        None => {
            assert(views(raw@) =~= before + Seq::<Seq<char>>::empty());
        },
    }
}

/// The catalog entry for a packaged app's list entry.
pub fn packaged_app_to_application(rec: &PackagedAppRecord) -> (r: ApplicationInfo)
    ensures
        packaged_entry_matches(r, *rec),
        r@ == packaged_view(*rec),
{
    let description = match &rec.description {
        Some(d) => if d.as_str().unicode_len() > 0 {
            Some(d.clone())
        } else {
            None
        },
        None => None,
    };
    let mut raw: Vec<String> = Vec::new();
    push_opt(&mut raw, &rec.description);
    raw.push(rec.display_name.clone());
    raw.push(rec.app_user_model_id.clone());
    push_opt(&mut raw, &rec.package_name);
    push_opt(&mut raw, &rec.package_family_name);
    push_opt(&mut raw, &rec.package_full_name);
    assert(views(raw@) =~= packaged_keywords(*rec));
    let keywords = normalize_keywords(&raw);
    let icon = match &rec.logo {
        Some(b) => base64_encode(b.as_slice()),
        None => String::new(),
    };
    let prefix = ['u', 'w', 'p', ':'];
    assert(prefix@ == uwp_id_prefix());
    let lowered = to_lowercase(rec.app_user_model_id.as_str());
    ApplicationInfo {
        id: from_chars(prefixed(&prefix, lowered.as_str()).as_slice()),
        name: rec.display_name.clone(),
        path: rec.app_user_model_id.clone(),
        source_path: None,
        app_type: AppType::Uwp,
        icon_b64: icon,
        description,
        keywords,
        arguments: None,
        working_directory: None,
    }
}

} // verus!

verus! {

/// The four little-endian bytes of an `i32`.
pub open spec fn le_bytes(n: i32) -> Seq<u8> {
    let u = n as u32;
    seq![(u % 256) as u8, ((u / 256) % 256) as u8, ((u / 65536) % 256) as u8, (u / 16777216) as u8]
}

/// The key an icon is cached under: the hex SHA-1 of the lowercased path's
/// UTF-8 bytes followed by the icon index's little-endian bytes.
pub open spec fn icon_key(path: Seq<char>, icon_index: i32) -> Seq<char> {
    crate::text::hex_of(crate::bookmarks::sha1_of(crate::text::utf8_of(lower_of(path)) + le_bytes(icon_index)))
}

/// The key an icon drawn from `path` at `icon_index` is cached under.
pub fn icon_cache_key(path: &str, icon_index: i32) -> (r: String)
    ensures
        r@ == icon_key(path@, icon_index),
{
    let lowered = to_lowercase(path);
    let mut data = crate::text::utf8_bytes(lowered.as_str());
    let u = icon_index as u32;
    let le = [(u % 256) as u8, ((u / 256) % 256) as u8, ((u / 65536) % 256) as u8, (u / 16777216) as u8];
    assert(le@ == le_bytes(icon_index));
    let mut k: usize = 0;
    let ghost d0 = data@;
    while k < 4
        invariant
            k <= 4,
            le@.len() == 4,
            data@ == d0 + le@.take(k as int),
        decreases 4 - k,
    {
        data.push(le[k]);
        k = k + 1;
        assert(data@ =~= d0 + le@.take(k as int));
    }
    assert(le@.take(4) =~= le@);
    let digest = crate::bookmarks::sha1_digest(data.as_slice());
    crate::text::encode(digest.as_slice())
}

/// The part of a registry value that names an executable: trimmed, without
/// surrounding quotes, cut at the first `,` or `;` (an icon index or a
/// second entry), trimmed again; `None` when nothing is left.
pub open spec fn executable_candidate_of(raw: Seq<char>) -> Option<Seq<char>> {
    let t = trim_seq(raw);
    if t.len() == 0 {
        None
    } else {
        let c = trim_seq(before_list_sep(crate::launch::strip_quotes_seq(t)));
        if c.len() == 0 {
            None
        } else {
            Some(c)
        }
    }
}

/// `s` up to its first `,` or `;`.
pub open spec fn before_list_sep(s: Seq<char>) -> Seq<char>
    decreases s.len(),
{
    if s.len() == 0 || s[0] == ',' || s[0] == ';' {
        Seq::empty()
    } else {
        seq![s[0]] + before_list_sep(s.drop_first())
    }
}

proof fn lemma_before_list_sep_at(s: Seq<char>, i: int)
    requires
        0 <= i <= s.len(),
        forall|m: int| 0 <= m < i ==> s[m] != ',' && s[m] != ';',
        i < s.len() ==> s[i] == ',' || s[i] == ';',
    ensures
        before_list_sep(s) == s.subrange(0, i),
    decreases i,
{
    if i > 0 {
        lemma_before_list_sep_at(s.drop_first(), i - 1);
        assert(seq![s[0]] + s.drop_first().subrange(0, i - 1) =~= s.subrange(0, i));
    } else {
        assert(s.subrange(0, 0) =~= Seq::<char>::empty());
    }
}

/// The executable a registry value names, before environment variables are
/// expanded and the file is looked for.
pub fn executable_candidate(raw: &str) -> (r: Option<String>)
    ensures
        opt_view(r) == executable_candidate_of(raw@),
{
    let t = trim_chars(to_chars(raw).as_slice());
    if t.len() == 0 {
        return None;
    }
    let unquoted = crate::launch::normalize_source(from_chars(t.as_slice()).as_str());
    proof {
        crate::text::lemma_trim_idempotent(raw@);
    }
    let u = to_chars(unquoted.as_str());
    let mut i: usize = 0;
    while i < u.len() && u[i] != ',' && u[i] != ';'
        invariant
            i <= u@.len(),
            forall|m: int| 0 <= m < i ==> u@[m] != ',' && u@[m] != ';',
        decreases u@.len() - i,
    {
        i = i + 1;
    }
    proof {
        lemma_before_list_sep_at(u@, i as int);
    }
    let c = trim_chars(crate::text::slice_to_vec_range(u.as_slice(), 0, i).as_slice());
    if c.len() == 0 {
        None
    } else {
        Some(from_chars(c.as_slice()))
    }
}

} // verus!

verus! {

/// The extension of a file name: the text after its last dot, unless the
/// name has no dot or only a leading one.
pub open spec fn extension_of(name: Seq<char>) -> Option<Seq<char>>
    decreases name.len(),
{
    if name.len() == 0 {
        None
    } else if name.last() == '.' {
        if name.len() == 1 {
            None
        } else {
            Some(Seq::empty())
        }
    } else {
        match extension_of(name.drop_last()) {
            Some(e) => Some(e.push(name.last())),
            None => None,
        }
    }
}

/// A path whose file name has the extension `exe`, in any case.
pub open spec fn is_exe_path(p: Seq<char>) -> bool {
    has_extension(p, seq!['e', 'x', 'e'])
}

/// A path whose file name has the (lowercase) extension `ext`, in any case.
pub open spec fn has_extension(p: Seq<char>, ext: Seq<char>) -> bool {
    match file_name_of(p) {
        Some(n) => match extension_of(n) {
            Some(e) => ascii_lower(e) == ext,
            None => false,
        },
        None => false,
    }
}

/// The largest executable among listed files (path and size); of equally
/// large ones, the last listed.
pub open spec fn largest_exe(files: Seq<(Seq<char>, u64)>) -> Option<(Seq<char>, u64)>
    decreases files.len(),
{
    if files.len() == 0 {
        None
    } else {
        let best = largest_exe(files.drop_last());
        let x = files.last();
        if !is_exe_path(x.0) {
            best
        } else {
            match best {
                Some(b) => if x.1 >= b.1 {
                    Some(x)
                } else {
                    best
                },
                None => Some(x),
            }
        }
    }
}

proof fn lemma_extension_at(name: Seq<char>, i: int)
    requires
        0 <= i < name.len(),
        name[i] == '.',
        forall|m: int| i < m < name.len() ==> name[m] != '.',
    ensures
        extension_of(name) == if i == 0 {
            None
        } else {
            Some(name.subrange(i + 1, name.len() as int))
        },
    decreases name.len(),
{
    if i < name.len() - 1 {
        lemma_extension_at(name.drop_last(), i);
        assert(name.drop_last().subrange(i + 1, name.len() - 1).push(name.last()) =~= name.subrange(
            i + 1,
            name.len() as int,
        ));
    } else {
        assert(name.subrange(i + 1, name.len() as int) =~= Seq::<char>::empty());
    }
}

proof fn lemma_no_extension(name: Seq<char>)
    requires
        forall|m: int| 0 <= m < name.len() ==> name[m] != '.',
    ensures
        extension_of(name) is None,
    decreases name.len(),
{
    if name.len() > 0 {
        lemma_no_extension(name.drop_last());
    }
}

/// Whether a path's file name has the (lowercase) extension `ext`, in any
/// case.
pub fn extension_is(path: &str, ext: &[char]) -> (r: bool)
    ensures
        r == has_extension(path@, ext@),
{
    let p = to_chars(path);
    match file_name(p.as_slice()) {
        None => false,
        Some(n) => {
            let mut i: usize = n.len();
            while i > 0 && n[i - 1] != '.'
                invariant
                    i <= n@.len(),
                    forall|m: int| i <= m < n@.len() ==> n@[m] != '.',
                decreases i,
            {
                i = i - 1;
            }
            if i == 0 {
                proof {
                    lemma_no_extension(n@);
                }
                return false;
            }
            proof {
                lemma_extension_at(n@, i - 1);
            }
            if i == 1 {
                return false;
            }
            let e = to_ascii_lower(crate::text::slice_to_vec_range(n.as_slice(), i, n.len()).as_slice());
            chars_eq(e.as_slice(), ext)
        },
    }
}

/// Whether a path names an executable by its extension.
pub fn is_exe(path: &str) -> (r: bool)
    ensures
        r == is_exe_path(path@),
{
    let exe = ['e', 'x', 'e'];
    assert(exe@ == seq!['e', 'x', 'e']);
    extension_is(path, &exe)
}

/// Whether `d` names a leading run of the components of `p` (separators
/// written alike), as `Path::starts_with` has it.
pub open spec fn path_under(p: Seq<char>, d: Seq<char>) -> bool {
    d.len() == 0 || (d.len() <= p.len() && p.take(d.len() as int) == d && (d.len() == p.len()
        || is_sep(p[d.len() as int]) || is_sep(d.last())))
}

fn is_path_under(p: &[char], d: &[char]) -> (r: bool)
    ensures
        r == path_under(p@, d@),
{
    if d.len() == 0 {
        return true;
    }
    if !crate::text::starts_with(p, d) {
        assert(!(d@.len() <= p@.len() && p@.take(d@.len() as int) == d@)) by {
            if d@.len() <= p@.len() && p@.take(d@.len() as int) == d@ {
                assert(p@.subrange(0, d@.len() as int) == p@.take(d@.len() as int));
            }
        }
        return false;
    }
    assert(p@.take(d@.len() as int) == p@.subrange(0, d@.len() as int));
    let last = d[d.len() - 1];
    d.len() == p.len() || p[d.len()] == '\\' || p[d.len()] == '/' || last == '\\' || last == '/'
}

/// A Start-menu file that counts as a program shortcut: extension `lnk`, in
/// any case, and not inside one of the Startup folders.
pub open spec fn start_menu_shortcut(p: Seq<char>, startup: Seq<Seq<char>>) -> bool {
    has_extension(p, seq!['l', 'n', 'k']) && forall|i: int|
        0 <= i < startup.len() ==> !path_under(p, #[trigger] startup[i])
}

/// Whether a file found under a Start-menu root is indexed as a shortcut.
pub fn is_start_menu_shortcut(path: &str, startup_dirs: &Vec<String>) -> (r: bool)
    ensures
        r == start_menu_shortcut(path@, views(startup_dirs@)),
{
    let lnk = ['l', 'n', 'k'];
    assert(lnk@ == seq!['l', 'n', 'k']);
    if !extension_is(path, &lnk) {
        return false;
    }
    let p = to_chars(path);
    let ghost sv = views(startup_dirs@);
    let mut i: usize = 0;
    while i < startup_dirs.len()
        invariant
            i <= startup_dirs@.len(),
            p@ == path@,
            sv == views(startup_dirs@),
            forall|m: int| 0 <= m < i ==> !path_under(path@, #[trigger] sv[m]),
        decreases startup_dirs@.len() - i,
    {
        let d = to_chars(startup_dirs[i].as_str());
        if is_path_under(p.as_slice(), d.as_slice()) {
            assert(sv[i as int] == d@);
            return false;
        }
        i = i + 1;
    }
    true
}

pub open spec fn file_views(v: Seq<(String, u64)>) -> Seq<(Seq<char>, u64)> {
    v.map_values(|f: (String, u64)| (f.0@, f.1))
}

/// The executable an install folder's listing (path and size of each file)
/// points to: the largest one, the last of equally large ones.
pub fn largest_executable(files: &Vec<(String, u64)>) -> (r: Option<String>)
    ensures
        match r {
            Some(p) => largest_exe(file_views(files@)) is Some && p@ == largest_exe(
                file_views(files@),
            ).unwrap().0,
            None => largest_exe(file_views(files@)) is None,
        },
{
    let ghost fv = file_views(files@);
    let mut best: Option<(String, u64)> = None;
    let mut k: usize = 0;
    while k < files.len()
        invariant
            k <= files@.len(),
            fv == file_views(files@),
            match best {
                Some(b) => largest_exe(fv.take(k as int)) == Some((b.0@, b.1)),
                None => largest_exe(fv.take(k as int)) is None,
            },
        decreases files@.len() - k,
    {
        proof {
            assert(fv.take(k + 1).drop_last() =~= fv.take(k as int));
            assert(fv.take(k + 1).last() == (files@[k as int].0@, files@[k as int].1));
        }
        if is_exe(files[k].0.as_str()) {
            let take = match &best {
                Some(b) => files[k].1 >= b.1,
                None => true,
            };
            if take {
                best = Some((files[k].0.clone(), files[k].1));
            }
        }
        k = k + 1;
    }
    assert(fv.take(files@.len() as int) =~= fv);
    match best {
        Some(b) => Some(b.0),
        None => None,
    }
}

/// An install folder as looked for: without trailing separators, `None`
/// when nothing is left.
pub open spec fn install_folder_of(expanded: Seq<char>) -> Option<Seq<char>>
    decreases expanded.len(),
{
    if expanded.len() == 0 {
        None
    } else if is_sep(expanded.last()) {
        install_folder_of(expanded.drop_last())
    } else {
        Some(expanded)
    }
}

/// The folder to look for executables in, once environment variables are
/// expanded.
pub fn install_folder(expanded: &str) -> (r: Option<String>)
    ensures
        opt_view(r) == install_folder_of(expanded@),
{
    let s = to_chars(expanded);
    let mut j: usize = s.len();
    let ghost full = s@;
    assert(full.take(s@.len() as int) =~= full);
    while j > 0 && (s[j - 1] == '/' || s[j - 1] == '\\')
        invariant
            j <= s@.len(),
            s@ == full,
            install_folder_of(full) == install_folder_of(full.take(j as int)),
        decreases j,
    {
        assert(full.take(j as int).drop_last() =~= full.take(j - 1));
        j = j - 1;
    }
    if j == 0 {
        assert(full.take(0) =~= Seq::<char>::empty());
        None
    } else {
        assert(full.take(j as int).last() == s@[j - 1]);
        assert(full.subrange(0, j as int) =~= full.take(j as int));
        Some(from_chars(crate::text::slice_to_vec_range(s.as_slice(), 0, j).as_slice()))
    }
}

} // verus!
