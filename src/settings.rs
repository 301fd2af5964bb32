//! Settings the query engine reads, and the normalisation of updated values.
use vstd::prelude::*;
use crate::models::opt_view;
use crate::text::{
    ascii_upper_char, from_chars, is_whitespace, is_ws, to_ascii_upper_char, to_chars, trim_chars,
    trim_seq, trim_start_chars, trim_start_seq,
};

verus! {

pub const MIN_QUERY_DELAY_MS: u64 = 50;

pub const MAX_QUERY_DELAY_MS: u64 = 2000;

pub const MIN_RESULT_LIMIT: u32 = 10;

pub const MAX_RESULT_LIMIT: u32 = 60;

/// A partial settings update: each field that is `Some` replaces its value.
#[derive(Debug, Default)]
pub struct SettingsUpdatePayload {
    pub global_hotkey: Option<String>,
    pub query_delay_ms: Option<u64>,
    pub max_results: Option<u32>,
    pub enable_app_results: Option<bool>,
    pub enable_bookmark_results: Option<bool>,
    pub prefix_app: Option<String>,
    pub prefix_bookmark: Option<String>,
    pub prefix_search: Option<String>,
    pub launch_on_startup: Option<bool>,
    pub force_english_input: Option<bool>,
    pub debug_mode: Option<bool>,
    pub system_tool_exclusions: Option<Vec<String>>,
}

pub open spec fn clamp_u64(v: u64, lo: u64, hi: u64) -> u64 {
    if v < lo {
        lo
    } else if v > hi {
        hi
    } else {
        v
    }
}

pub open spec fn clamp_u32(v: u32, lo: u32, hi: u32) -> u32 {
    if v < lo {
        lo
    } else if v > hi {
        hi
    } else {
        v
    }
}

/// The result limit in force for a configured value.
pub open spec fn result_limit(max_results: u32) -> u32 {
    clamp_u32(max_results, MIN_RESULT_LIMIT, MAX_RESULT_LIMIT)
}

/// The query delay to keep: the new value (else the current one) clamped.
pub fn normalize_query_delay(candidate: Option<u64>, current: u64) -> (r: u64)
    ensures
        r == clamp_u64(
            match candidate {
                Some(c) => c,
                None => current,
            },
            MIN_QUERY_DELAY_MS,
            MAX_QUERY_DELAY_MS,
        ),
{
    let value = match candidate {
        Some(c) => c,
        None => current,
    };
    if value < MIN_QUERY_DELAY_MS {
        MIN_QUERY_DELAY_MS
    } else if value > MAX_QUERY_DELAY_MS {
        MAX_QUERY_DELAY_MS
    } else {
        value
    }
}

/// The result limit to keep: the new value (else the current one) clamped.
pub fn normalize_max_results(candidate: Option<u32>, current: u32) -> (r: u32)
    ensures
        r == result_limit(
            match candidate {
                Some(c) => c,
                None => current,
            },
        ),
{
    let value = match candidate {
        Some(c) => c,
        None => current,
    };
    if value < MIN_RESULT_LIMIT {
        MIN_RESULT_LIMIT
    } else if value > MAX_RESULT_LIMIT {
        MAX_RESULT_LIMIT
    } else {
        value
    }
}

/// A control character (general category Cc), as `char::is_control` has it.
pub open spec fn is_control(c: char) -> bool {
    c <= '\u{1f}' || ('\u{7f}' <= c && c <= '\u{9f}')
}

pub open spec fn is_ascii_letter(c: char) -> bool {
    ('a' <= c && c <= 'z') || ('A' <= c && c <= 'Z')
}

/// `s` without its control characters.
pub open spec fn without_controls(s: Seq<char>) -> Seq<char> {
    s.filter(|c: char| !is_control(c))
}

/// A mode prefix: after leading whitespace one ASCII letter (made upper
/// case), then, ignoring control characters, optionally one space or colon
/// that is kept, and nothing else but whitespace.
pub open spec fn prefix_of(value: Seq<char>) -> Option<Seq<char>> {
    let t = trim_start_seq(value);
    if t.len() == 0 || !is_ascii_letter(t[0]) {
        None
    } else {
        let rest = without_controls(t.drop_first());
        let first = seq![ascii_upper_char(t[0])];
        if rest.len() == 0 {
            Some(first)
        } else if rest[0] != ' ' && rest[0] != ':' {
            None
        } else if exists|i: int| 1 <= i < rest.len() && !is_ws(#[trigger] rest[i]) {
            None
        } else {
            Some(first.push(rest[0]))
        }
    }
}

fn char_is_control(c: char) -> (r: bool)
    ensures
        r == is_control(c),
{
    c <= '\u{1f}' || ('\u{7f}' <= c && c <= '\u{9f}')
}

proof fn lemma_without_controls_last(s: Seq<char>)
    requires
        s.len() > 0,
    ensures
        without_controls(s) == if is_control(s.last()) {
            without_controls(s.drop_last())
        } else {
            without_controls(s.drop_last()).push(s.last())
        },
{
    reveal_with_fuel(Seq::filter, 1);
}

/// A mode prefix in its stored form, or `None` when it is not one.
pub fn normalize_prefix(value: &str) -> (r: Option<String>)
    ensures
        match r {
            Some(p) => prefix_of(value@) == Some(p@),
            None => prefix_of(value@) is None,
        },
{
    let t = trim_start_chars(to_chars(value).as_slice());
    if t.len() == 0 {
        return None;
    }
    let first = t[0];
    if !(('a' <= first && first <= 'z') || ('A' <= first && first <= 'Z')) {
        return None;
    }
    let ghost tail = t@.drop_first();
    let mut rest: Vec<char> = Vec::new();
    let mut k: usize = 1;
    while k < t.len()
        invariant
            1 <= k <= t@.len(),
            tail == t@.drop_first(),
            rest@ == without_controls(tail.take(k - 1)),
        decreases t@.len() - k,
    {
        proof {
            assert(tail.take(k as int).drop_last() =~= tail.take(k - 1));
            assert(tail.take(k as int).last() == t@[k as int]);
            lemma_without_controls_last(tail.take(k as int));
        }
        if !char_is_control(t[k]) {
            rest.push(t[k]);
        }
        k = k + 1;
    }
    assert(tail.take(tail.len() as int) =~= tail);
    let mut out: Vec<char> = Vec::new();
    out.push(to_ascii_upper_char(first));
    if rest.len() == 0 {
        return Some(from_chars(out.as_slice()));
    }
    if rest[0] != ' ' && rest[0] != ':' {
        return None;
    }
    let mut m: usize = 1;
    while m < rest.len()
        invariant
            1 <= m <= rest@.len(),
            t@ == trim_start_seq(value@),
            t@.len() > 0,
            is_ascii_letter(t@[0]),
            rest@ == without_controls(t@.drop_first()),
            rest@[0] == ' ' || rest@[0] == ':',
            forall|i: int| 1 <= i < m ==> is_ws(#[trigger] rest@[i]),
        decreases rest@.len() - m,
    {
        if !is_whitespace(rest[m]) {
            assert(!is_ws(rest@[m as int]));
            return None;
        }
        m = m + 1;
    }
    out.push(rest[0]);
    Some(from_chars(out.as_slice()))
}

} // verus!

verus! {

/// The launcher's settings.
#[derive(Debug, Clone)]
pub struct AppConfig {
    pub global_hotkey: String,
    pub query_delay_ms: u64,
    pub max_results: u32,
    pub enable_app_results: bool,
    pub enable_bookmark_results: bool,
    pub prefix_app: String,
    pub prefix_bookmark: String,
    pub prefix_search: String,
    pub launch_on_startup: bool,
    pub force_english_input: bool,
    pub debug_mode: bool,
    pub system_tool_exclusions: Vec<String>,
}

pub struct ConfigView {
    pub global_hotkey: Seq<char>,
    pub query_delay_ms: u64,
    pub max_results: u32,
    pub enable_app_results: bool,
    pub enable_bookmark_results: bool,
    pub prefix_app: Seq<char>,
    pub prefix_bookmark: Seq<char>,
    pub prefix_search: Seq<char>,
    pub launch_on_startup: bool,
    pub force_english_input: bool,
    pub debug_mode: bool,
    pub system_tool_exclusions: Seq<Seq<char>>,
}

impl View for AppConfig {
    type V = ConfigView;

    open spec fn view(&self) -> ConfigView {
        ConfigView {
            global_hotkey: self.global_hotkey@,
            query_delay_ms: self.query_delay_ms,
            max_results: self.max_results,
            enable_app_results: self.enable_app_results,
            enable_bookmark_results: self.enable_bookmark_results,
            prefix_app: self.prefix_app@,
            prefix_bookmark: self.prefix_bookmark@,
            prefix_search: self.prefix_search@,
            launch_on_startup: self.launch_on_startup,
            force_english_input: self.force_english_input,
            debug_mode: self.debug_mode,
            system_tool_exclusions: crate::keywords::views(self.system_tool_exclusions@),
        }
    }
}

impl AppConfig {
    /// A copy with the same contents.
    pub fn duplicate(&self) -> (r: AppConfig)
        ensures
            r@ == self@,
    {
        AppConfig {
            global_hotkey: self.global_hotkey.clone(),
            query_delay_ms: self.query_delay_ms,
            max_results: self.max_results,
            enable_app_results: self.enable_app_results,
            enable_bookmark_results: self.enable_bookmark_results,
            prefix_app: self.prefix_app.clone(),
            prefix_bookmark: self.prefix_bookmark.clone(),
            prefix_search: self.prefix_search.clone(),
            launch_on_startup: self.launch_on_startup,
            force_english_input: self.force_english_input,
            debug_mode: self.debug_mode,
            system_tool_exclusions: crate::models::copy_strings(&self.system_tool_exclusions),
        }
    }
}

/// The hotkey an update asks to register: its trimmed text, when that is
/// not empty and differs from the current one.
pub open spec fn hotkey_request(c: ConfigView, h: Option<Seq<char>>) -> Option<Seq<char>> {
    match h {
        Some(k) => if trim_seq(k).len() > 0 && trim_seq(k) != c.global_hotkey {
            Some(trim_seq(k))
        } else {
            None
        },
        None => None,
    }
}

/// The hotkey that an update asks to register, if any.
pub fn hotkey_to_register(config: &AppConfig, updates: &SettingsUpdatePayload) -> (r: Option<String>)
    ensures
        opt_view(r) == hotkey_request(config@, opt_view(updates.global_hotkey)),
{
    match &updates.global_hotkey {
        Some(h) => {
            let t = trim_chars(to_chars(h.as_str()).as_slice());
            let cur = to_chars(config.global_hotkey.as_str());
            if t.len() > 0 && !crate::keywords::chars_eq(t.as_slice(), cur.as_slice()) {
                Some(from_chars(t.as_slice()))
            } else {
                None
            }
        },
        None => None,
    }
}

pub open spec fn empty_hotkey_message() -> Seq<char> {
    seq!['快', '捷', '键', '不', '能', '为', '空']
}

pub open spec fn prefix_message(mode_name: Seq<char>) -> Seq<char> {
    mode_name + seq![
        '模', '式', '前', '缀', '需', '为', '单', '个', '字', '母', '，', '可', '选', '跟', '随',
        '空', '格', '或', '冒', '号',
    ]
}

pub open spec fn app_name() -> Seq<char> {
    seq!['应', '用']
}

pub open spec fn bookmark_name() -> Seq<char> {
    seq!['书', '签']
}

pub open spec fn search_name() -> Seq<char> {
    seq!['搜', '索']
}

pub open spec fn pick<T>(o: Option<T>, v: T) -> T {
    match o {
        Some(x) => x,
        None => v,
    }
}

/// A prefix update: `None` leaves `cur`; an invalid prefix is an error.
pub open spec fn prefix_step(cur: Seq<char>, p: Option<String>) -> Result<Seq<char>, ()> {
    match p {
        Some(s) => match prefix_of(s@) {
            Some(n) => Ok(n),
            None => Err(()),
        },
        None => Ok(cur),
    }
}

/// The settings with the requested hotkey in place.
pub open spec fn with_hotkey(c: ConfigView, u: SettingsUpdatePayload) -> ConfigView {
    ConfigView {
        global_hotkey: match hotkey_request(c, opt_view(u.global_hotkey)) {
            Some(k) => k,
            None => c.global_hotkey,
        },
        ..c
    }
}

/// The settings with the delay and limit (normalised) and the two result
/// switches updated.
pub open spec fn with_limits(c: ConfigView, u: SettingsUpdatePayload) -> ConfigView {
    ConfigView {
        query_delay_ms: if u.query_delay_ms is Some {
            clamp_u64(u.query_delay_ms.unwrap(), MIN_QUERY_DELAY_MS, MAX_QUERY_DELAY_MS)
        } else {
            c.query_delay_ms
        },
        max_results: if u.max_results is Some {
            result_limit(u.max_results.unwrap())
        } else {
            c.max_results
        },
        enable_app_results: pick(u.enable_app_results, c.enable_app_results),
        enable_bookmark_results: pick(u.enable_bookmark_results, c.enable_bookmark_results),
        ..c
    }
}

/// The settings with launch on startup and the input and debug switches
/// updated.
pub open spec fn with_switches(c: ConfigView, u: SettingsUpdatePayload) -> ConfigView {
    ConfigView {
        launch_on_startup: pick(u.launch_on_startup, c.launch_on_startup),
        force_english_input: pick(u.force_english_input, c.force_english_input),
        debug_mode: pick(u.debug_mode, c.debug_mode),
        ..c
    }
}

/// The settings after an update, and the error that stopped it, if any.
/// Steps run in order and a failing step keeps what earlier steps changed:
/// the hotkey (refused when blank, or when registering it failed), the
/// delay and result limit (normalised), the two result switches, launch on
/// startup (refused when setting it failed), input and debug switches, the
/// three mode prefixes, and the excluded paths.
pub open spec fn settings_after(
    c: ConfigView,
    u: SettingsUpdatePayload,
    registered: Result<(), String>,
    startup: Result<(), String>,
) -> (ConfigView, Option<Seq<char>>) {
    let h = opt_view(u.global_hotkey);
    if h is Some && trim_seq(h.unwrap()).len() == 0 {
        (c, Some(empty_hotkey_message()))
    } else if hotkey_request(c, h) is Some && registered is Err {
        (c, Some(registered->Err_0@))
    } else {
        let c1 = with_limits(with_hotkey(c, u), u);
        if u.launch_on_startup is Some && startup is Err {
            (c1, Some(startup->Err_0@))
        } else {
            rest_after(with_switches(c1, u), u)
        }
    }
}

/// The settings after the prefix and exclusion steps of an update, and the
/// error of the first prefix that is refused, if any.
pub open spec fn rest_after(c2: ConfigView, u: SettingsUpdatePayload) -> (ConfigView, Option<Seq<char>>) {
    match prefix_step(c2.prefix_app, u.prefix_app) {
        Err(_) => (c2, Some(prefix_message(app_name()))),
        Ok(pa) => {
            let c3 = ConfigView { prefix_app: pa, ..c2 };
            match prefix_step(c3.prefix_bookmark, u.prefix_bookmark) {
                Err(_) => (c3, Some(prefix_message(bookmark_name()))),
                Ok(pb) => {
                    let c4 = ConfigView { prefix_bookmark: pb, ..c3 };
                    match prefix_step(c4.prefix_search, u.prefix_search) {
                        Err(_) => (c4, Some(prefix_message(search_name()))),
                        Ok(ps) => {
                            let c5 = ConfigView { prefix_search: ps, ..c4 };
                            (
                                ConfigView {
                                    system_tool_exclusions: match u.system_tool_exclusions {
                                        Some(v) => crate::keywords::views(v@),
                                        None => c5.system_tool_exclusions,
                                    },
                                    ..c5
                                },
                                None,
                            )
                        },
                    }
                },
            }
        },
    }
}

fn message(m: &[char]) -> (r: String)
    ensures
        r@ == m@,
{
    from_chars(m)
}

fn prefix_error(name: &[char]) -> (r: String)
    ensures
        r@ == prefix_message(name@),
{
    let tail = [
        '模', '式', '前', '缀', '需', '为', '单', '个', '字', '母', '，', '可', '选', '跟', '随',
        '空', '格', '或', '冒', '号',
    ];
    let mut v = crate::text::slice_to_vec_range(name, 0, name.len());
    assert(name@.subrange(0, name@.len() as int) == name@);
    crate::text::append_chars(&mut v, &tail);
    assert(v@ =~= prefix_message(name@));
    from_chars(v.as_slice())
}

fn apply_limits(config: &mut AppConfig, u: &SettingsUpdatePayload)
    ensures
        final(config)@ == with_limits(old(config)@, *u),
{
    if u.query_delay_ms.is_some() {
        config.query_delay_ms = normalize_query_delay(u.query_delay_ms, config.query_delay_ms);
    }
    if u.max_results.is_some() {
        config.max_results = normalize_max_results(u.max_results, config.max_results);
    }
    match u.enable_app_results {
        Some(v) => config.enable_app_results = v,
        None => {},
    }
    match u.enable_bookmark_results {
        Some(v) => config.enable_bookmark_results = v,
        None => {},
    }
}

fn apply_switches(config: &mut AppConfig, u: &SettingsUpdatePayload)
    ensures
        final(config)@ == with_switches(old(config)@, *u),
{
    match u.launch_on_startup {
        Some(v) => config.launch_on_startup = v,
        None => {},
    }
    match u.force_english_input {
        Some(v) => config.force_english_input = v,
        None => {},
    }
    match u.debug_mode {
        Some(v) => config.debug_mode = v,
        None => {},
    }
}

/// The new value of a mode prefix, or the error naming the mode.
fn prefix_update(current: &String, p: &Option<String>, name: &[char]) -> (r: Result<String, String>)
    ensures
        match prefix_step(current@, *p) {
            Ok(n) => r is Ok && r->Ok_0@ == n,
            Err(_) => r is Err && r->Err_0@ == prefix_message(name@),
        },
{
    match p {
        Some(s) => match normalize_prefix(s.as_str()) {
            Some(n) => Ok(n),
            None => Err(prefix_error(name)),
        },
        None => Ok(current.clone()),
    }
}

/// Applies a settings update to `config`. `registered` is how registering
/// the requested hotkey (see `hotkey_to_register`) went, `startup` how
/// setting launch on startup went; each is only looked at when the update
/// asks for that change.
pub fn update_settings(
    config: &mut AppConfig,
    updates: SettingsUpdatePayload,
    registered: Result<(), String>,
    startup: Result<(), String>,
) -> (r: Result<AppConfig, String>)
    ensures
        final(config)@ == settings_after(old(config)@, updates, registered, startup).0,
        match r {
            Ok(c) => settings_after(old(config)@, updates, registered, startup).1 is None && c@
                == final(config)@,
            Err(e) => settings_after(old(config)@, updates, registered, startup).1 == Some(e@),
        },
{
    let ghost c0 = config@;
    let request = hotkey_to_register(config, &updates);
    match &updates.global_hotkey {
        Some(h) => {
            let t = trim_chars(to_chars(h.as_str()).as_slice());
            if t.len() == 0 {
                let m = ['快', '捷', '键', '不', '能', '为', '空'];
                assert(m@ == empty_hotkey_message());
                return Err(message(&m));
            }
        },
        None => {},
    }
    match request {
        Some(k) => {
            match registered {
                Err(e) => {
                    return Err(e);
                },
                Ok(()) => {},
            }
            config.global_hotkey = k;
        },
        None => {},
    }
    assert(config@ == with_hotkey(c0, updates));
    apply_limits(config, &updates);
    let ghost c1 = config@;
    if updates.launch_on_startup.is_some() {
        match startup {
            Err(e) => {
                return Err(e);
            },
            Ok(()) => {},
        }
    }
    apply_switches(config, &updates);
    apply_rest(config, updates)
}

fn apply_rest(config: &mut AppConfig, updates: SettingsUpdatePayload) -> (r: Result<AppConfig, String>)
    ensures
        final(config)@ == rest_after(old(config)@, updates).0,
        match r {
            Ok(c) => rest_after(old(config)@, updates).1 is None && c@ == final(config)@,
            Err(e) => rest_after(old(config)@, updates).1 == Some(e@),
        },
{
    let app_name_chars = ['应', '用'];
    let bookmark_name_chars = ['书', '签'];
    let search_name_chars = ['搜', '索'];
    assert(app_name_chars@ == app_name());
    assert(bookmark_name_chars@ == bookmark_name());
    assert(search_name_chars@ == search_name());
    let pa = prefix_update(&config.prefix_app, &updates.prefix_app, &app_name_chars);
    match pa {
        Ok(v) => config.prefix_app = v,
        Err(e) => return Err(e),
    }
    let pb = prefix_update(&config.prefix_bookmark, &updates.prefix_bookmark, &bookmark_name_chars);
    match pb {
        Ok(v) => config.prefix_bookmark = v,
        Err(e) => return Err(e),
    }
    let ps = prefix_update(&config.prefix_search, &updates.prefix_search, &search_name_chars);
    match ps {
        Ok(v) => config.prefix_search = v,
        Err(e) => return Err(e),
    }
    match updates.system_tool_exclusions {
        Some(paths) => config.system_tool_exclusions = paths,
        None => {},
    }
    Ok(config.duplicate())
}

} // verus!
