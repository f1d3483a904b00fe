use youtudlp_bridge::app::{should_open_browser, StartupInfo};
use youtudlp_bridge::command::CommandArg;
use youtudlp_bridge::cookies::{
    apply_cookie_arguments, browser_cookie_spec, cookie_file_path, explain_cookie_error,
    import_cookies, sanitize_cookie_file_name, validate_cookie_preferences, CookieError,
    ImportCookiesRequest,
};
use youtudlp_bridge::order::{chars_le, sort_keyed, sort_texts};
use youtudlp_bridge::paths::{is_same_or_descendant, last_name, normalize, FsPath};
use youtudlp_bridge::settings::{
    default_download_root, AppSettings, SettingsError, SettingsStore, ToolOverrides,
};
use youtudlp_bridge::storage::{
    next_write_step, temp_file_name, AppPaths, WriteSequence, WriteStep,
};
use youtudlp_bridge::text::{
    contains, double_char, ends_with, is_white, join_texts, parse_unsigned, second_part,
    split_text, starts_with, strip_prefix, to_decimal, to_lower, trim, word_first, word_last,
};
use youtudlp_bridge::tools::{
    discover_tool, read_version, tool_binary_name, ToolFindings, ToolRegistry, VersionOutput,
};

fn strings(list: &[&str]) -> Vec<String> {
    list.iter().map(|s| s.to_string()).collect()
}

fn shown(path: &FsPath) -> String {
    let mut out = path.base.clone();
    for segment in &path.segments {
        out.push('/');
        out.push_str(segment);
    }
    out
}

#[test]
fn white_space_is_what_the_standard_library_says() {
    for code in 0..=0x10ffff_u32 {
        if let Some(c) = char::from_u32(code) {
            assert_eq!(is_white(c), c.is_whitespace(), "{code:x}");
        }
    }
}

#[test]
fn texts_behave_like_those_of_the_standard_library() {
    for s in ["", " ", "abc", "  a b ", "\u{3000}x\u{3000}", "ÄÖ", "a%b%", "%", "x at y at z"] {
        assert_eq!(trim(s), s.trim());
        assert_eq!(to_lower(s), s.to_ascii_lowercase());
        assert_eq!(split_text(s, '%'), s.split('%').collect::<Vec<_>>());
        assert_eq!(word_first(s), s.split_whitespace().next().unwrap_or(""));
        assert_eq!(word_last(s), s.split_whitespace().last().unwrap_or(""));
        assert_eq!(second_part(s, " at ").as_deref(), s.split(" at ").nth(1));
        for t in ["", "a", "abc", " ", "%"] {
            assert_eq!(contains(s, t), s.contains(t));
            assert_eq!(starts_with(s, t), s.starts_with(t));
            assert_eq!(ends_with(s, t), s.ends_with(t));
            assert_eq!(strip_prefix(s, t).as_deref(), s.strip_prefix(t));
        }
    }
    assert_eq!(join_texts(&strings(&["a", "b", "c"]), ", "), "a, b, c");
    assert_eq!(double_char("it's", '\''), "it''s");
}

#[test]
fn numbers_are_written_and_read() {
    for n in [0_u64, 7, 10, 99, 100, 1080, u64::MAX] {
        assert_eq!(to_decimal(n), n.to_string());
        assert_eq!(parse_unsigned(&n.to_string(), u64::MAX), Some(n));
    }
    for s in ["", "+", "+5", "05", "-1", "1x", " 1", "18446744073709551616", "4294967296"] {
        assert_eq!(parse_unsigned(s, u64::MAX), s.parse::<u64>().ok(), "{s}");
        assert_eq!(
            parse_unsigned(s, u32::MAX as u64),
            s.parse::<u32>().ok().map(u64::from),
            "{s}"
        );
    }
}

#[test]
fn sorting_is_stable() {
    let items = vec![
        (vec!['b'], 1),
        (vec!['a'], 2),
        (vec!['b'], 3),
        (vec!['a', 'a'], 4),
        (vec!['a'], 5),
    ];
    let sorted: Vec<i32> = sort_keyed(items).into_iter().map(|p| p.1).collect();
    assert_eq!(sorted, vec![2, 5, 4, 1, 3]);
    assert!(chars_le(&vec!['a'], &vec!['a', 'b']));
    assert!(!chars_le(&vec!['b'], &vec!['a', 'b']));
    assert_eq!(sort_texts(strings(&["b", "", "ab", "a"])), strings(&["", "a", "ab", "b"]));
}

#[test]
fn typed_paths_stay_below_the_root() {
    assert_eq!(normalize(" a\\b//./c/ ", false).as_deref(), Some("a/b/c"));
    assert_eq!(normalize("", false).as_deref(), Some(""));
    assert_eq!(normalize("./.", false).as_deref(), Some(""));
    assert_eq!(normalize("/etc", false), None);
    assert_eq!(normalize("\\etc", false), None);
    assert_eq!(normalize("a/../b", false), None);
    assert_eq!(normalize("a/..b", false).as_deref(), Some("a/..b"));
    assert_eq!(normalize("C:/x", false).as_deref(), Some("C:/x"));
    assert_eq!(normalize("C:/x", true), None);
    assert_eq!(normalize("a/ /.", false).as_deref(), Some("a/ "));
}

#[test]
fn normalizing_twice_changes_nothing() {
    for value in ["a/b", " x y/z", "", "a//b/./c"] {
        let once = normalize(value, false).unwrap();
        assert_eq!(normalize(&once, false), Some(once.clone()));
    }
}

#[test]
fn descendants_need_a_slash() {
    assert!(is_same_or_descendant("a/b", "a"));
    assert!(is_same_or_descendant("a", "a"));
    assert!(!is_same_or_descendant("ab", "a"));
    assert!(!is_same_or_descendant("a", "a/b"));
    assert!(is_same_or_descendant("a/b/c", "a/b") && is_same_or_descendant("a/b", "a"));
    assert!(is_same_or_descendant("a/b/c", "a"));
    assert_eq!(last_name(&strings(&["a", "b", ".", ""])).as_deref(), Some("b"));
    assert_eq!(last_name(&strings(&["a", ".."])), None);
    assert_eq!(last_name(&strings(&["", "."])), None);
}

#[test]
fn default_settings_are_valid() {
    let settings = AppSettings::with_defaults("/downloads".to_string());
    assert!(settings.validate().is_ok());
    assert_eq!(settings.max_concurrent_downloads, 3);
    assert_eq!(settings.default_quality, "1080p");
    assert_eq!(settings.default_container, "mp4");
    assert_eq!(settings.default_download_mode, "video");
}

fn fault_of(change: fn(&mut AppSettings)) -> SettingsError {
    let mut settings = AppSettings::with_defaults("/downloads".to_string());
    change(&mut settings);
    settings.validate().unwrap_err()
}

#[test]
fn each_fault_of_the_settings_is_found() {
    assert_eq!(fault_of(|s| s.download_root.clear()), SettingsError::EmptyDownloadRoot);
    assert_eq!(fault_of(|s| s.max_concurrent_downloads = 0), SettingsError::NoDownloads);
    assert_eq!(fault_of(|s| s.max_concurrent_downloads = 9), SettingsError::TooManyDownloads);
    assert_eq!(
        fault_of(|s| s.default_download_mode = " ".to_string()),
        SettingsError::EmptyDownloadMode
    );
    assert_eq!(fault_of(|s| s.default_container.clear()), SettingsError::EmptyContainer);
    assert_eq!(fault_of(|s| s.default_quality.clear()), SettingsError::EmptyQuality);
    assert_eq!(
        fault_of(|s| s.default_subtitle_languages.push(" ".to_string())),
        SettingsError::EmptySubtitleLanguage
    );
    assert_eq!(
        fault_of(|s| s.default_raw_args.push(String::new())),
        SettingsError::EmptyRawArg
    );
    assert_eq!(
        fault_of(|s| s.playlist_resolve_concurrency = 0),
        SettingsError::NoResolveConcurrency
    );
    assert_eq!(
        fault_of(|s| s.playlist_resolve_concurrency = 17),
        SettingsError::TooMuchResolveConcurrency
    );
    assert_eq!(
        SettingsError::TooManyDownloads.message(),
        "max concurrent downloads cannot exceed 8"
    );
}

#[test]
fn settings_are_made_on_the_first_launch() {
    let store = SettingsStore::new(FsPath::new("/state").join("settings.json"));
    let (settings, first) =
        store.load_or_create_default(None, "/home/me/Downloads".to_string()).unwrap();
    assert!(first);
    assert_eq!(settings.download_root, "/home/me/Downloads");
    let (same, again) =
        store.load_or_create_default(Some(settings.clone()), "/other".to_string()).unwrap();
    assert!(!again);
    assert_eq!(same.download_root, "/home/me/Downloads");
    assert_eq!(same.max_concurrent_downloads, settings.max_concurrent_downloads);
    assert_eq!(same.default_quality, settings.default_quality);
    assert_eq!(shown(&store.save(&settings).unwrap()), "/state/settings.json");
    let mut bad = settings;
    bad.max_concurrent_downloads = 0;
    assert!(matches!(store.save(&bad), Err(SettingsError::NoDownloads)));
}

#[test]
fn the_download_root_has_fallbacks() {
    let root = |d: Option<&str>, h: Option<&str>| {
        shown(&default_download_root(d.map(String::from), h.map(String::from)))
    };
    assert_eq!(root(Some("/d"), Some("/h")), "/d");
    assert_eq!(root(None, Some("/h")), "/h/Downloads");
    assert_eq!(root(None, None), ".");
}

#[test]
fn the_browser_opens_as_the_settings_say() {
    let mut settings = AppSettings::with_defaults("/d".to_string());
    settings.open_browser_on_first_launch = true;
    settings.open_browser_on_later_launch = false;
    assert!(should_open_browser(&settings, true));
    assert!(!should_open_browser(&settings, false));
    let info = StartupInfo::new("127.0.0.1:39035", true, FsPath::new("/opt/bridge"));
    assert_eq!(info.base_url, "http://127.0.0.1:39035");
    assert!(info.started_at.contains('T') && info.started_at.ends_with("+00:00"));
}

#[test]
fn state_lies_below_the_data_root() {
    let paths = AppPaths::discover("/opt/bridge", "/home/me/.config/YoutuDlpBridge");
    assert_eq!(shown(&paths.queue_path), "/home/me/.config/YoutuDlpBridge/state/queue.json");
    assert_eq!(shown(&paths.tasks_dir), "/home/me/.config/YoutuDlpBridge/state/tasks");
    assert_eq!(shown(&paths.executable_dir), "/opt/bridge");
    assert_eq!(paths.ensure_state_dirs().len(), 8);
}

#[test]
fn temporary_names_differ_and_the_target_is_touched_last() {
    let mut seq = WriteSequence::new();
    let a = temp_file_name(Some("queue.json"), seq.take());
    let b = temp_file_name(Some("queue.json"), seq.take());
    assert_ne!(a, b);
    assert!(a.starts_with("queue.json.0"));
    assert!(temp_file_name(None, 3).starts_with("file.3"));
    let mut steps = Vec::new();
    let mut done = None;
    while let Some(step) = next_write_step(done) {
        steps.push(step);
        done = Some(step);
    }
    assert_eq!(
        steps,
        vec![
            WriteStep::CreateParent,
            WriteStep::CreateTemp,
            WriteStep::WriteTemp,
            WriteStep::SyncTemp,
            WriteStep::RenameTemp,
        ]
    );
}

fn findings(over: bool, side: bool, out: Option<(&str, &str)>) -> ToolFindings {
    ToolFindings {
        override_exists: over,
        sidecar_exists: side,
        version_output: out.map(|(a, b)| VersionOutput {
            stdout: a.to_string(),
            stderr: b.to_string(),
        }),
    }
}

#[test]
fn tools_are_found_in_two_places() {
    let dir = FsPath::new("/opt/bridge");
    let over = Some("/usr/bin/yt-dlp".to_string());
    let both = discover_tool("yt-dlp", &over, &dir, &findings(true, true, None), false);
    assert_eq!(both.source, "override");
    assert_eq!(shown(both.path.as_ref().unwrap()), "/usr/bin/yt-dlp");
    let side = discover_tool(
        "yt-dlp",
        &over,
        &dir,
        &findings(false, true, Some(("\n 2026.01.01 \nmore", ""))),
        true,
    );
    assert_eq!(side.source, "sidecar");
    assert_eq!(shown(side.path.as_ref().unwrap()), "/opt/bridge/yt-dlp.exe");
    assert_eq!(side.version.as_deref(), Some("2026.01.01"));
    let none = discover_tool("yt-dlp", &None, &dir, &findings(false, false, None), false);
    assert!(!none.available);
    assert_eq!(none.source, "missing");
    assert!(none.path.is_none());
    let registry = ToolRegistry::discover(
        &dir,
        &ToolOverrides { yt_dlp_path: None, ffmpeg_path: None, ffprobe_path: None },
        &findings(false, true, None),
        &findings(false, false, None),
        &findings(false, true, None),
        false,
    );
    assert!(registry.yt_dlp.available && !registry.ffmpeg.available && registry.ffprobe.available);
    assert_eq!(tool_binary_name("ffmpeg", true), "ffmpeg.exe");
    assert_eq!(tool_binary_name("ffmpeg", false), "ffmpeg");
    let from_stderr =
        VersionOutput { stdout: "  \n".to_string(), stderr: "ffmpeg version 7".to_string() };
    assert_eq!(read_version(&from_stderr).as_deref(), Some("ffmpeg version 7"));
}

#[test]
fn cookie_names_stay_in_their_directory() {
    assert_eq!(sanitize_cookie_file_name(" my cookies ").unwrap(), "my_cookies.txt");
    let kept = sanitize_cookie_file_name("../../etc/passwd").unwrap();
    assert!(!kept.contains('/') && kept.ends_with(".txt"));
    assert_eq!(sanitize_cookie_file_name(&kept).unwrap(), kept);
    assert_eq!(sanitize_cookie_file_name("  "), Err(CookieError::EmptyName));
    assert_eq!(sanitize_cookie_file_name("///").unwrap(), "___.txt");
    assert_eq!(sanitize_cookie_file_name(" .txt"), Err(CookieError::InvalidName));
    assert_eq!(sanitize_cookie_file_name("a.TXT").unwrap(), "a.TXT");
}

#[test]
fn cookies_are_imported() {
    let runtime = FsPath::new("/state").join("runtime");
    let ask = |name: &str, content: &str| {
        import_cookies(
            &runtime,
            &ImportCookiesRequest { file_name: name.to_string(), content: content.to_string() },
        )
    };
    let (response, path) = ask("a.txt", "x").unwrap();
    assert_eq!(response.cookie_file_name, "a.txt");
    assert_eq!(shown(&path), "/state/runtime/cookies/a.txt");
    assert_eq!(shown(&cookie_file_path(&runtime, "a.txt")), "/state/runtime/cookies/a.txt");
    assert!(matches!(ask("a.txt", " \n"), Err(CookieError::EmptyContent)));
    assert!(matches!(ask("", "x"), Err(CookieError::EmptyName)));
}

#[test]
fn cookie_arguments_prefer_the_browser() {
    let runtime = FsPath::new("/r");
    let show = |file: Option<&str>, browser: Option<&str>, profile: Option<&str>| {
        let mut args = Vec::new();
        apply_cookie_arguments(&mut args, &runtime, file, browser, profile);
        args.iter()
            .map(|a| match a {
                CommandArg::Text(s) => s.clone(),
                CommandArg::Path(p) => shown(p),
            })
            .collect::<Vec<_>>()
    };
    assert_eq!(
        show(Some("c.txt"), Some("firefox"), Some("p")),
        vec!["--cookies-from-browser", "firefox:p"]
    );
    assert_eq!(show(Some(" c.txt "), Some(" "), None), vec!["--cookies", "/r/cookies/c.txt"]);
    assert!(show(None, None, None).is_empty());
    assert_eq!(browser_cookie_spec(Some("chrome"), None).as_deref(), Some("chrome"));
    assert_eq!(
        validate_cookie_preferences(None, None, Some("p")),
        Err(CookieError::ProfileWithoutBrowser)
    );
    assert!(validate_cookie_preferences(None, Some("chrome"), Some("p")).is_ok());
}

#[test]
fn cookie_errors_are_explained() {
    assert!(explain_cookie_error("ERROR: Could not copy Chrome cookie database").is_some());
    assert!(explain_cookie_error("Permission denied: x\\Network\\Cookies").is_some());
    assert!(explain_cookie_error("Permission denied").is_none());
    assert_eq!(
        CookieError::EmptyContent.message(),
        "cookie file content cannot be empty"
    );
}

#[test]
fn white_space_is_that_of_unicode() {
    for code in 0..=0x10ffff_u32 {
        if let Some(c) = char::from_u32(code) {
            assert_eq!(is_white(c), c.is_whitespace(), "{code:x}");
        }
    }
}
