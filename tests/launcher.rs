use egg::bookmarks::{
    collect_entries_from_file, derive_bookmark_id, profile_display_label, root_display_label,
    BookmarkNode,
};
use egg::catalog::build_index;
use egg::keywords::normalize_keywords;
use egg::launch::{launch_from_source, launch_win32_app, LaunchOutcome, LaunchRequest};
use egg::models::{AppType, ApplicationInfo, BookmarkEntry, PendingAction, SearchResult};
use egg::scoring::{is_url_like, match_application, match_bookmark, QueryMode};
use egg::settings::{normalize_max_results, normalize_prefix, normalize_query_delay};
use egg::sources::{
    collect_installed, install_folder, is_exe, is_start_menu_shortcut, largest_executable,
    looks_like_uninstaller, packaged_app_to_application, registry_entry_to_app,
    shortcut_to_application, PackagedAppRecord, RegistryRecord, ShortcutRecord,
};
use egg::state::{resolve_action, submit_query, AppState, SearchSettings};
use egg::text::encode;

fn app(id: &str, name: &str, path: &str, source: Option<&str>, t: AppType) -> ApplicationInfo {
    ApplicationInfo {
        id: id.to_string(),
        name: name.to_string(),
        path: path.to_string(),
        source_path: source.map(|s| s.to_string()),
        app_type: t,
        icon_b64: String::new(),
        description: None,
        keywords: vec![name.to_string()],
        arguments: None,
        working_directory: None,
    }
}

fn bookmark(id: &str, title: &str, url: &str) -> BookmarkEntry {
    BookmarkEntry {
        id: id.to_string(),
        title: title.to_string(),
        url: url.to_string(),
        folder_path: None,
        keywords: vec![title.to_string(), url.to_string()],
    }
}

fn node(kind: &str, name: &str, url: Option<&str>, guid: Option<&str>) -> BookmarkNode {
    BookmarkNode {
        node_type: Some(kind.to_string()),
        name: Some(name.to_string()),
        url: url.map(|u| u.to_string()),
        guid: guid.map(|g| g.to_string()),
        id: None,
        children: None,
    }
}

fn settings(apps: bool, bookmarks: bool, max: u32) -> SearchSettings {
    SearchSettings { enable_app_results: apps, enable_bookmark_results: bookmarks, max_results: max }
}

fn ids(results: &[SearchResult]) -> Vec<String> {
    results.iter().map(|r| r.id.clone()).collect()
}

#[test]
fn keywords_are_cleaned_sorted_and_unique() {
    let raw = vec![
        "b".to_string(),
        "  ".to_string(),
        "a".to_string(),
        "b".to_string(),
        String::new(),
        "B".to_string(),
    ];
    assert_eq!(normalize_keywords(&raw), vec!["B", "a", "b"]);
}

#[test]
fn hex_encoding_of_bytes() {
    assert_eq!(encode(&[0x00, 0xff, 0x1a]), "00ff1a");
    assert_eq!(encode(&[]), "");
}

#[test]
fn labels_of_roots_and_profiles() {
    assert_eq!(root_display_label("bookmark_bar").as_deref(), Some("书签栏"));
    assert_eq!(root_display_label("other").as_deref(), Some("其他书签"));
    assert_eq!(root_display_label("synced").as_deref(), Some("已同步"));
    assert_eq!(root_display_label("mobile"), None);
    assert_eq!(profile_display_label("Default"), "默认");
    assert_eq!(profile_display_label("Profile 1"), "Profile 1");
}

#[test]
fn bookmark_id_prefers_guid_then_id_then_hash() {
    let mut n = node("url", "t", Some("bc"), Some("g1"));
    n.id = Some("7".to_string());
    assert_eq!(derive_bookmark_id("a", &n, "bc"), "a:g1");
    n.guid = None;
    assert_eq!(derive_bookmark_id("a", &n, "bc"), "a:7");
    n.id = None;
    // SHA-1 of "abc".
    assert_eq!(
        derive_bookmark_id("a", &n, "bc"),
        "a:a9993e364706816aba3e25717850c26c9cd0d89d"
    );
}

fn sample_tree() -> Vec<(String, BookmarkNode)> {
    let mut dev = node("folder", " Dev ", None, None);
    dev.children = Some(vec![
        node("url", " Example ", Some(" https://example.com "), Some("g1")),
        node("url", "Files", Some("ftp://files.example.com"), Some("g2")),
        node("url", "   ", Some("https://blank.example.com"), Some("g3")),
        node("url", "Plain", Some("http://plain.example.com"), Some("g4")),
    ]);
    let mut bar = node("folder", "ignored", None, None);
    bar.children = Some(vec![dev]);
    let top = node("url", "Top", Some("https://top.example.com"), Some("g5"));
    let mut other = node("folder", "", None, None);
    other.children = Some(vec![top]);
    vec![("bookmark_bar".to_string(), bar), ("other".to_string(), other)]
}

#[test]
fn bookmark_walk_keeps_web_links_with_breadcrumbs() {
    let label = profile_display_label("Default");
    let mut acc = Vec::new();
    collect_entries_from_file(&sample_tree(), &label, &mut acc);
    let titles: Vec<&str> = acc.iter().map(|e| e.title.as_str()).collect();
    assert_eq!(titles, vec!["Example", "Plain", "Top"]);
    let first = &acc[0];
    assert_eq!(first.id, "默认:g1");
    assert_eq!(first.url, "https://example.com");
    assert_eq!(first.folder_path.as_deref(), Some("默认 / 书签栏 / Dev"));
    assert_eq!(
        first.keywords,
        vec!["Dev", "Example", "https://example.com", "书签栏", "默认", "默认 / 书签栏 / Dev"]
    );
    assert_eq!(acc[2].folder_path.as_deref(), Some("默认 / 其他书签"));
}

#[test]
fn bookmark_entries_have_web_urls() {
    let mut acc = Vec::new();
    collect_entries_from_file(&sample_tree(), "p", &mut acc);
    assert!(!acc.is_empty());
    for e in &acc {
        assert!(e.url.starts_with("http://") || e.url.starts_with("https://"));
    }
}

#[test]
fn entry_keywords_have_no_blank_or_repeated_element() {
    let mut acc = Vec::new();
    collect_entries_from_file(&sample_tree(), "p", &mut acc);
    let rec = ShortcutRecord {
        link_path: "C:\\Menu\\Tool.lnk".to_string(),
        file_stem: Some("Tool".to_string()),
        target_path: Some("C:\\Bin\\Tool.exe".to_string()),
        resolved_target: None,
        arguments: None,
        working_directory: None,
        description: Some("  ".to_string()),
        icon_path: None,
    };
    let (a, _) = shortcut_to_application(&rec).unwrap();
    let mut lists: Vec<Vec<String>> = acc.iter().map(|e| e.keywords.clone()).collect();
    lists.push(a.keywords.clone());
    for kws in lists {
        for (i, k) in kws.iter().enumerate() {
            assert!(!k.trim().is_empty());
            assert!(!kws[i + 1..].contains(k));
        }
    }
}

#[test]
fn mode_hints_select_modes() {
    assert!(QueryMode::from_option(Some(" Bookmarks ".to_string())) == QueryMode::Bookmark);
    assert!(QueryMode::from_option(Some("b".to_string())) == QueryMode::Bookmark);
    assert!(QueryMode::from_option(Some("R".to_string())) == QueryMode::Application);
    assert!(QueryMode::from_option(Some("application".to_string())) == QueryMode::Application);
    assert!(QueryMode::from_option(Some("S".to_string())) == QueryMode::Search);
    assert!(QueryMode::from_option(Some("x".to_string())) == QueryMode::All);
    assert!(QueryMode::from_option(None) == QueryMode::All);
    assert!(QueryMode::Bookmark.allows_bookmarks() && !QueryMode::Bookmark.allows_applications());
    assert!(!QueryMode::Application.allows_web_search());
}

#[test]
fn url_like_inputs() {
    assert!(is_url_like("http://foo.bar"));
    assert!(is_url_like("https://x"));
    assert!(is_url_like("example.com"));
    assert!(!is_url_like("foo bar.com"));
    assert!(!is_url_like("foo"));
}

#[test]
fn fuzzy_scores_prefer_names_over_keywords() {
    let mut a = app("1", "Example Editor", "C:\\e.exe", None, AppType::Win32);
    a.keywords = vec!["Example Editor".to_string()];
    let by_name = match_application(&a, "ee").unwrap();
    a.name = "Zzz".to_string();
    let by_keyword = match_application(&a, "ee").unwrap();
    assert_eq!(by_keyword, by_name - 5);
    assert_eq!(match_application(&a, "qqq"), None);
    let b = bookmark("b", "Docs", "https://docs.example.com");
    assert!(match_bookmark(&b, "docs").is_some());
}

#[test]
fn blank_query_changes_nothing() {
    let mut state = AppState::new();
    state.app_index.push(app("1", "Editor", "C:\\e.exe", None, AppType::Win32));
    let first = submit_query("edit".to_string(), None, settings(true, true, 20), &mut state);
    assert!(!first.is_empty());
    let empty = submit_query("   ".to_string(), None, settings(true, true, 20), &mut state);
    assert!(empty.is_empty());
    assert!(resolve_action(&state, "app-1").is_ok());
}

#[test]
fn example_app_and_bookmark_ranked_by_score() {
    let mut state = AppState::new();
    let a = app("ed", "Example Editor", "C:\\ed.exe", None, AppType::Win32);
    let b = bookmark("docs", "Example Docs", "https://docs.example.org");
    let sa = match_application(&a, "example").unwrap();
    let sb = match_bookmark(&b, "example").unwrap();
    state.app_index.push(a);
    state.bookmark_index.push(b);
    let results = submit_query("example".to_string(), None, settings(true, true, 20), &mut state);
    let expected = if sb > sa {
        vec!["bookmark-docs", "app-ed", "search-2"]
    } else {
        vec!["app-ed", "bookmark-docs", "search-2"]
    };
    assert_eq!(ids(&results), expected);
    assert_eq!(results[2].score, i64::MIN);
}

#[test]
fn equal_scores_keep_catalog_order() {
    let mut state = AppState::new();
    state.app_index.push(app("one", "Alpha", "C:\\a1.exe", None, AppType::Win32));
    state.app_index.push(app("two", "Alpha", "C:\\a2.exe", None, AppType::Win32));
    let results = submit_query("alpha".to_string(), Some("app".to_string()), settings(true, true, 20), &mut state);
    assert_eq!(ids(&results), vec!["app-one", "app-two"]);
}

#[test]
fn url_text_yields_open_url_row_in_every_mode() {
    for mode in ["bookmark", "app", "search", "all"] {
        let mut state = AppState::new();
        let results = submit_query(
            "http://foo.bar".to_string(),
            Some(mode.to_string()),
            settings(true, true, 20),
            &mut state,
        );
        assert_eq!(results[0].id, "url-0");
        assert_eq!(results[0].title, "打开网址: http://foo.bar");
        assert_eq!(results[0].score, 200);
        match resolve_action(&state, "url-0") {
            Ok(PendingAction::Url(u)) => assert_eq!(u, "http://foo.bar"),
            _ => panic!("no url action"),
        }
    }
}

#[test]
fn bookmark_mode_never_returns_applications() {
    let mut state = AppState::new();
    state.app_index.push(app("n", "Notes", "C:\\n.exe", None, AppType::Win32));
    state.bookmark_index.push(bookmark("k", "Notes online", "https://notes.example.com"));
    let results = submit_query("notes".to_string(), Some("bookmark".to_string()), settings(true, true, 20), &mut state);
    assert_eq!(ids(&results), vec!["bookmark-k"]);
    assert!(results.iter().all(|r| r.action_id != "app" && r.action_id != "uwp"));
    assert_eq!(results[0].subtitle, "收藏夹 · https://notes.example.com");
}

#[test]
fn limit_reserves_slot_for_web_search() {
    let mut state = AppState::new();
    for i in 0..70 {
        state.app_index.push(app(&format!("a{i}"), &format!("App {i}"), &format!("C:\\a{i}.exe"), None, AppType::Win32));
    }
    let results = submit_query("app".to_string(), None, settings(true, true, 5), &mut state);
    assert_eq!(results.len(), 10);
    assert_eq!(results[9].id, "search-70");
    assert_eq!(results[9].title, "在 Google 上搜索: app");
    assert_eq!(results[9].subtitle, "Google 搜索");
    let without_search = submit_query("app".to_string(), Some("r".to_string()), settings(true, true, 100), &mut state);
    assert_eq!(without_search.len(), 59);
}

#[test]
fn web_search_url_is_percent_encoded() {
    let mut state = AppState::new();
    let results = submit_query(" a b ".to_string(), None, settings(true, true, 20), &mut state);
    assert_eq!(ids(&results), vec!["search-0"]);
    match resolve_action(&state, "search-0") {
        Ok(PendingAction::Search(u)) => assert_eq!(u, "https://google.com/search?q=a%20b"),
        _ => panic!("no search action"),
    }
}

#[test]
fn ids_of_an_earlier_query_expire() {
    let mut state = AppState::new();
    state.app_index.push(app("x", "Xylophone", "C:\\x.exe", None, AppType::Win32));
    submit_query("xylo".to_string(), None, settings(true, true, 20), &mut state);
    assert!(resolve_action(&state, "app-x").is_ok());
    submit_query("zzzz".to_string(), None, settings(true, true, 20), &mut state);
    match resolve_action(&state, "app-x") {
        Err(e) => assert_eq!(e, "结果已失效，请重新搜索"),
        Ok(_) => panic!("stale id resolved"),
    }
}

#[test]
fn shortcut_wins_over_registry_entry_for_same_program() {
    let shortcut = app("win32:startmenu:c:\\m\\ed.lnk", "Editor", "C:\\M\\Ed.lnk", Some("C:\\Bin\\ED.exe"), AppType::Win32);
    let installed = app("win32:installed:k:ed", "Editor Suite", "c:\\bin\\ed.exe", Some("c:\\bin\\ed.exe"), AppType::Win32);
    let catalog = build_index(vec![shortcut], vec![installed], vec![], &vec![]);
    assert_eq!(catalog.len(), 1);
    assert_eq!(catalog[0].id, "win32:startmenu:c:\\m\\ed.lnk");
}

#[test]
fn catalog_drops_exclusions_and_sorts_by_name() {
    let a = app("1", "zeta", "C:\\z.exe", None, AppType::Win32);
    let b = app("2", "Alpha", "C:\\a.exe", None, AppType::Win32);
    let c = app("3", "Tool", "C:\\Tools\\T.exe", None, AppType::Win32);
    let d = app("4", "beta", "pkg!App", None, AppType::Uwp);
    let same_path_other_kind = app("5", "Beta win", "PKG!APP", None, AppType::Win32);
    let catalog = build_index(vec![a, b], vec![c, same_path_other_kind], vec![d], &vec!["c:\\tools\\t.exe".to_string()]);
    let names: Vec<&str> = catalog.iter().map(|x| x.name.as_str()).collect();
    assert_eq!(names, vec!["Alpha", "beta", "Beta win", "zeta"]);
}

#[test]
fn prefixes_are_normalized() {
    assert_eq!(normalize_prefix("a").as_deref(), Some("A"));
    assert_eq!(normalize_prefix("  b: ").as_deref(), Some("B:"));
    assert_eq!(normalize_prefix("c ").as_deref(), Some("C "));
    assert_eq!(normalize_prefix("1"), None);
    assert_eq!(normalize_prefix("ab"), None);
    assert_eq!(normalize_prefix("c: x"), None);
    assert_eq!(normalize_prefix("   "), None);
}

#[test]
fn limits_and_delays_are_clamped() {
    assert_eq!(normalize_max_results(Some(5), 20), 10);
    assert_eq!(normalize_max_results(None, 100), 60);
    assert_eq!(normalize_max_results(Some(30), 20), 30);
    assert_eq!(normalize_query_delay(Some(10), 100), 50);
    assert_eq!(normalize_query_delay(None, 5000), 2000);
    assert_eq!(normalize_query_delay(Some(300), 100), 300);
}

#[test]
fn shortcut_entries() {
    let rec = ShortcutRecord {
        link_path: "C:\\Menu\\My App.LNK".to_string(),
        file_stem: Some(" My App ".to_string()),
        target_path: Some(" \"C:\\Bin\\App.exe\" ".to_string()),
        resolved_target: Some("C:\\Bin\\App.exe".to_string()),
        arguments: Some("--x".to_string()),
        working_directory: None,
        description: Some("Does things".to_string()),
        icon_path: None,
    };
    let (a, icon) = shortcut_to_application(&rec).unwrap();
    assert_eq!(a.id, "win32:startmenu:c:\\menu\\my app.lnk");
    assert_eq!(a.name, "My App");
    assert_eq!(a.source_path.as_deref(), Some("C:\\Bin\\App.exe"));
    assert_eq!(a.keywords, vec!["App.exe", "C:\\Bin\\App.exe", "Does things", "My App"]);
    assert_eq!(a.arguments.as_deref(), Some("--x"));
    assert_eq!(icon, "C:\\Bin\\App.exe");
    let mut un = rec.clone();
    un.file_stem = Some("Uninstall My App".to_string());
    assert!(shortcut_to_application(&un).is_none());
    let mut un2 = rec.clone();
    un2.resolved_target = Some("C:\\Bin\\unins000.exe".to_string());
    assert!(shortcut_to_application(&un2).is_none());
    assert!(looks_like_uninstaller("C:\\X\\UNINS001.EXE"));
    assert!(!looks_like_uninstaller("C:\\X\\app.exe"));
}

fn registry(entry: &str) -> RegistryRecord {
    RegistryRecord {
        parent_path: "SOFTWARE\\Uninstall".to_string(),
        entry_name: entry.to_string(),
        system_component: None,
        no_display: None,
        display_name: Some(" Big Tool ".to_string()),
        display_icon: Some("C:\\BT\\uninst.exe".to_string()),
        executable_path: None,
        install_location_exe: None,
        install_source_exe: Some("D:\\setup.exe".to_string()),
        publisher: Some("ACME".to_string()),
        display_version: Some("1.0".to_string()),
    }
}

#[test]
fn registry_entries() {
    let (a, icon) = registry_entry_to_app(&registry("BigTool")).unwrap();
    assert_eq!(a.id, "win32:installed:software\\uninstall:bigtool");
    assert_eq!(a.name, "Big Tool");
    assert_eq!(a.path, "D:\\setup.exe");
    assert_eq!(a.source_path.as_deref(), Some("D:\\setup.exe"));
    assert_eq!(a.description.as_deref(), Some("ACME"));
    assert_eq!(a.keywords, vec!["1.0", "ACME", "Big Tool"]);
    assert_eq!(icon, "C:\\BT\\uninst.exe");
    let mut hidden = registry("x");
    hidden.system_component = Some(1);
    assert!(registry_entry_to_app(&hidden).is_none());
    let mut nothing = registry("x");
    nothing.install_source_exe = None;
    assert!(registry_entry_to_app(&nothing).is_none());
    let mut exe = registry("x");
    exe.executable_path = Some("C:\\BT\\bt.exe".to_string());
    assert_eq!(registry_entry_to_app(&exe).unwrap().0.path, "C:\\BT\\bt.exe");
}

#[test]
fn installed_entries_keep_one_per_id() {
    let found = collect_installed(&vec![registry("A"), registry("a"), registry("B")]);
    let ids: Vec<&str> = found.iter().map(|p| p.0.id.as_str()).collect();
    assert_eq!(ids, vec!["win32:installed:software\\uninstall:a", "win32:installed:software\\uninstall:b"]);
}

#[test]
fn packaged_entries() {
    let rec = PackagedAppRecord {
        app_user_model_id: "Pkg_1!App".to_string(),
        display_name: "Calc".to_string(),
        description: Some(String::new()),
        package_name: Some("Pkg".to_string()),
        package_family_name: None,
        package_full_name: None,
        logo: Some(vec![1, 2, 3]),
    };
    let a = packaged_app_to_application(&rec);
    assert_eq!(a.id, "uwp:pkg_1!app");
    assert_eq!(a.path, "Pkg_1!App");
    assert!(a.app_type == AppType::Uwp);
    assert_eq!(a.icon_b64, "AQID");
    assert_eq!(a.description, None);
    assert_eq!(a.keywords, vec!["Calc", "Pkg", "Pkg_1!App"]);
}

#[test]
fn fallback_launch_from_source() {
    match launch_from_source(" \"C:\\Bin\\a.exe\" ", Some(" -v "), Some("  "), true, true) {
        Ok(LaunchRequest::Execute { target, arguments, working_directory, elevated }) => {
            assert_eq!(target, "C:\\Bin\\a.exe");
            assert_eq!(arguments.as_deref(), Some("-v"));
            assert_eq!(working_directory, None);
            assert!(elevated);
        }
        _ => panic!("expected execute"),
    }
    match launch_from_source("steam://run/1", None, None, false, false) {
        Ok(LaunchRequest::OpenUri(u)) => assert_eq!(u, "steam://run/1"),
        _ => panic!("expected uri"),
    }
    match launch_from_source(" '' ", None, None, false, false) {
        Err(e) => assert_eq!(e, "备用路径无效"),
        _ => panic!("expected error"),
    }
}

#[test]
fn failed_primary_launch_falls_back_to_source() {
    let with_source = app("1", "A", "C:\\a.lnk", Some("C:\\a.exe"), AppType::Win32);
    let without = app("2", "B", "C:\\b.lnk", None, AppType::Win32);
    assert!(matches!(launch_win32_app(&with_source, Ok(())), LaunchOutcome::Launched));
    match launch_win32_app(&with_source, Err("e".to_string())) {
        LaunchOutcome::RetryFromSource(s) => assert_eq!(s, "C:\\a.exe"),
        _ => panic!("expected retry"),
    }
    match launch_win32_app(&without, Err("e".to_string())) {
        LaunchOutcome::Failed(e) => assert_eq!(e, "e"),
        _ => panic!("expected failure"),
    }
}

#[test]
fn new_state_is_empty() {
    let state = AppState::new();
    assert!(state.app_index.is_empty() && state.bookmark_index.is_empty());
    assert!(state.registered_hotkey.is_none() && state.saved_ime.is_none());
    assert!(!state.hotkey_capture_suspended);
    assert!(resolve_action(&state, "url-0").is_err());
}

#[test]
fn install_folders_yield_their_largest_executable() {
    assert!(is_exe("C:\\A\\app.EXE"));
    assert!(!is_exe("C:\\A\\.exe"));
    assert!(!is_exe("C:\\A\\app.exe.bak"));
    assert!(!is_exe("C:\\A\\exe"));
    let files = vec![
        ("C:\\A\\a.exe".to_string(), 10),
        ("C:\\A\\b.txt".to_string(), 99),
        ("C:\\A\\c.exe".to_string(), 10),
        ("C:\\A\\d.EXE".to_string(), 5),
    ];
    assert_eq!(largest_executable(&files).as_deref(), Some("C:\\A\\c.exe"));
    assert_eq!(largest_executable(&vec![("C:\\A\\b.txt".to_string(), 1)]), None);
    assert_eq!(install_folder("C:\\App\\\\/").as_deref(), Some("C:\\App"));
    assert_eq!(install_folder("\\/"), None);
}

#[test]
fn top_level_bookmarks_have_no_folder_path() {
    let link = node("url", "Home", Some("https://home.example.com"), Some("h1"));
    let roots = vec![("mobile".to_string(), link)];
    let mut acc = Vec::new();
    collect_entries_from_file(&roots, "p", &mut acc);
    assert_eq!(acc.len(), 1);
    assert_eq!(acc[0].folder_path, None);
    assert_eq!(acc[0].keywords, vec!["Home", "https://home.example.com", "p"]);
}

#[test]
fn catalog_keeps_each_id_once() {
    let first = app("same", "First", "C:\\one.exe", None, AppType::Win32);
    let second = app("same", "Second", "C:\\two.exe", None, AppType::Win32);
    let catalog = build_index(vec![first], vec![second], vec![], &vec![]);
    assert_eq!(catalog.len(), 1);
    assert_eq!(catalog[0].name, "First");
}

#[test]
fn matching_ignores_case_of_the_query() {
    let a = app("1", "example editor", "C:\\e.exe", None, AppType::Win32);
    assert!(match_application(&a, "EXAMPLE").is_some());
}

#[test]
fn start_menu_shortcuts_outside_startup_folders() {
    let startup = vec!["C:\\Menu\\Startup".to_string()];
    assert!(is_start_menu_shortcut("C:\\Menu\\Tools\\Ed.LNK", &startup));
    assert!(!is_start_menu_shortcut("C:\\Menu\\Startup\\Run.lnk", &startup));
    assert!(is_start_menu_shortcut("C:\\Menu\\StartupTools\\Run.lnk", &startup));
    assert!(!is_start_menu_shortcut("C:\\Menu\\Tools\\Ed.url", &startup));
    assert!(!is_start_menu_shortcut("C:\\Menu\\.lnk", &startup));
}
