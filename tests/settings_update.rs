use egg::settings::{hotkey_to_register, update_settings, AppConfig, SettingsUpdatePayload};

fn config() -> AppConfig {
    AppConfig {
        global_hotkey: "Alt+Space".to_string(),
        query_delay_ms: 100,
        max_results: 20,
        enable_app_results: true,
        enable_bookmark_results: true,
        prefix_app: "R".to_string(),
        prefix_bookmark: "B".to_string(),
        prefix_search: "S".to_string(),
        launch_on_startup: false,
        force_english_input: false,
        debug_mode: false,
        system_tool_exclusions: Vec::new(),
    }
}

#[test]
fn hotkey_registration_is_asked_only_for_a_new_hotkey() {
    let c = config();
    let same = SettingsUpdatePayload { global_hotkey: Some(" Alt+Space ".to_string()), ..Default::default() };
    assert_eq!(hotkey_to_register(&c, &same), None);
    let new = SettingsUpdatePayload { global_hotkey: Some(" Ctrl+K ".to_string()), ..Default::default() };
    assert_eq!(hotkey_to_register(&c, &new).as_deref(), Some("Ctrl+K"));
    let blank = SettingsUpdatePayload { global_hotkey: Some("  ".to_string()), ..Default::default() };
    assert_eq!(hotkey_to_register(&c, &blank), None);
}

#[test]
fn blank_hotkey_is_refused() {
    let mut c = config();
    let u = SettingsUpdatePayload {
        global_hotkey: Some(" ".to_string()),
        max_results: Some(30),
        ..Default::default()
    };
    assert_eq!(update_settings(&mut c, u, Ok(()), Ok(())).unwrap_err(), "快捷键不能为空");
    assert_eq!(c.max_results, 20);
}

#[test]
fn failed_registration_changes_nothing() {
    let mut c = config();
    let u = SettingsUpdatePayload {
        global_hotkey: Some("Ctrl+K".to_string()),
        max_results: Some(30),
        ..Default::default()
    };
    assert_eq!(update_settings(&mut c, u, Err("taken".to_string()), Ok(())).unwrap_err(), "taken");
    assert_eq!(c.global_hotkey, "Alt+Space");
    assert_eq!(c.max_results, 20);
}

#[test]
fn failed_startup_setting_keeps_earlier_steps() {
    let mut c = config();
    let u = SettingsUpdatePayload {
        query_delay_ms: Some(1),
        launch_on_startup: Some(true),
        debug_mode: Some(true),
        ..Default::default()
    };
    assert_eq!(update_settings(&mut c, u, Ok(()), Err("denied".to_string())).unwrap_err(), "denied");
    assert_eq!(c.query_delay_ms, 50);
    assert!(!c.launch_on_startup);
    assert!(!c.debug_mode);
}

#[test]
fn invalid_prefix_names_its_mode() {
    let mut c = config();
    let u = SettingsUpdatePayload {
        prefix_app: Some("a".to_string()),
        prefix_bookmark: Some("12".to_string()),
        prefix_search: Some("z".to_string()),
        ..Default::default()
    };
    assert_eq!(
        update_settings(&mut c, u, Ok(()), Ok(())).unwrap_err(),
        "书签模式前缀需为单个字母，可选跟随空格或冒号"
    );
    assert_eq!(c.prefix_app, "A");
    assert_eq!(c.prefix_bookmark, "B");
    assert_eq!(c.prefix_search, "S");
}

#[test]
fn full_update_is_applied_and_returned() {
    let mut c = config();
    let u = SettingsUpdatePayload {
        global_hotkey: Some(" Ctrl+K ".to_string()),
        query_delay_ms: Some(5000),
        max_results: Some(100),
        enable_app_results: Some(false),
        enable_bookmark_results: Some(false),
        prefix_app: Some("x:".to_string()),
        prefix_bookmark: None,
        prefix_search: Some("q ".to_string()),
        launch_on_startup: Some(true),
        force_english_input: Some(true),
        debug_mode: Some(true),
        system_tool_exclusions: Some(vec!["C:\\Windows\\cmd.exe".to_string()]),
    };
    let snapshot = update_settings(&mut c, u, Ok(()), Ok(())).unwrap();
    assert_eq!(c.global_hotkey, "Ctrl+K");
    assert_eq!(c.query_delay_ms, 2000);
    assert_eq!(c.max_results, 60);
    assert!(!c.enable_app_results && !c.enable_bookmark_results);
    assert_eq!(c.prefix_app, "X:");
    assert_eq!(c.prefix_bookmark, "B");
    assert_eq!(c.prefix_search, "Q ");
    assert!(c.launch_on_startup && c.force_english_input && c.debug_mode);
    assert_eq!(c.system_tool_exclusions, vec!["C:\\Windows\\cmd.exe"]);
    assert_eq!(snapshot.global_hotkey, c.global_hotkey);
    assert_eq!(snapshot.system_tool_exclusions, c.system_tool_exclusions);
}
