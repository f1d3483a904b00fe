use youtudlp_bridge::command::CommandArg;
use youtudlp_bridge::json::Json;
use youtudlp_bridge::paths::FsPath;
use youtudlp_bridge::tasks::requests::ResolvedPlaylistEntry;
use youtudlp_bridge::tasks::resolve::{
    choose_entry_address, extract_available_qualities, extract_available_subtitles, is_playlist,
    is_web_address, resolve_from_json, resolve_playlist_entry,
};
use youtudlp_bridge::web::errors::ApiError;
use youtudlp_bridge::web::resolving::{
    assemble_playlist, entry_url_from_flat, flat_entry_fallback, judge_scan, lookup_arguments,
    lookup_program, plan_resolve, read_entry, read_scan, settle_entry, ResolvePlan,
};

const LIST: &str = "https://www.youtube.com/playlist?list=PL1";

fn parse(source: &str) -> Json {
    match read_scan(true, source.as_bytes(), "") {
        Ok(value) => value,
        Err(error) => panic!("{}", error.message),
    }
}

fn texts(args: &[CommandArg]) -> Vec<&str> {
    args.iter()
        .map(|arg| match arg {
            CommandArg::Text(s) => s.as_str(),
            CommandArg::Path(p) => p.base.as_str(),
        })
        .collect()
}

#[test]
fn a_document_is_read() {
    let value = parse(
        r#"{"b": [1, -1, 2.5, 18446744073709551615, "x", true, null], "a": {"k": "é"}}"#,
    );
    assert!(value.is_object());
    match value.get("b") {
        Some(Json::Array(items)) => {
            assert!(matches!(items[0], Json::Number(Some(1))));
            assert!(matches!(items[1], Json::Number(None)));
            assert!(matches!(items[2], Json::Number(None)));
            assert!(matches!(items[3], Json::Number(Some(u64::MAX))));
            assert!(matches!(&items[4], Json::Text(s) if s == "x"));
            assert!(matches!(items[5], Json::Bool(true)));
            assert!(matches!(items[6], Json::Null));
        }
        _ => panic!("b is a list"),
    }
    let inner = value.get("a").unwrap();
    assert!(matches!(inner.get("k"), Some(Json::Text(s)) if s == "é"));
    assert!(inner.get("missing").is_none());
}

#[test]
fn a_failed_scan_is_a_bad_request() {
    let error = read_scan(false, b"{}", "  ERROR: no such video \n").err().unwrap();
    assert_eq!((error.status, error.code.as_str()), (400, "BAD_REQUEST"));
    assert_eq!(error.message, "ERROR: no such video");
    assert_eq!(read_scan(false, b"{}", " \n").err().unwrap().message, "yt-dlp resolve failed");
}

#[test]
fn what_is_no_document_is_an_internal_error() {
    let error = read_scan(true, b"not json", "").err().unwrap();
    assert_eq!((error.status, error.code.as_str()), (500, "INTERNAL_ERROR"));
    assert_eq!(error.message, "expected ident at line 1 column 2");
    let told = judge_scan(true, Err("no".to_string()), "").err().unwrap();
    assert_eq!((told.status, told.message.as_str()), (500, "no"));
    assert!(judge_scan(true, Ok(Json::Null), "x").is_ok());
    assert_eq!(judge_scan(false, Err("no".to_string()), "x").err().unwrap().message, "x");
}

#[test]
fn errors_have_a_status_and_a_code() {
    let bad = ApiError::bad_request("b".to_string());
    assert_eq!((bad.status, bad.code.as_str(), bad.message.as_str()), (400, "BAD_REQUEST", "b"));
    let internal = ApiError::internal("i".to_string());
    assert_eq!(
        (internal.status, internal.code.as_str(), internal.message.as_str()),
        (500, "INTERNAL_ERROR", "i")
    );
}

#[test]
fn a_lookup_needs_an_address_and_a_program() {
    let program = Some(FsPath::new("/bin/yt-dlp"));
    assert_eq!(lookup_program("https://x", &program).ok().unwrap().base, "/bin/yt-dlp");
    assert_eq!(lookup_program(" \t", &program).err().unwrap().message, "URL cannot be empty");
    assert_eq!(lookup_program("https://x", &None).err().unwrap().message, "yt-dlp is not configured");
    assert_eq!(
        texts(&lookup_arguments("https://x", true)),
        vec!["--flat-playlist", "--dump-single-json", "--skip-download", "--no-warnings", "https://x"]
    );
    assert_eq!(
        texts(&lookup_arguments("https://x", false)),
        vec!["--dump-single-json", "--skip-download", "--no-warnings", "https://x"]
    );
}

#[test]
fn web_addresses_have_a_scheme() {
    assert!(is_web_address("http://x") && is_web_address("https://x"));
    assert!(!is_web_address("HTTP://x") && !is_web_address("ftp://x") && !is_web_address(""));
    assert_eq!(
        choose_entry_address(Some("https://a".to_string()), None, None, "p"),
        "https://a"
    );
    assert_eq!(
        choose_entry_address(Some("abc".to_string()), Some("YouTube"), Some("abc"), "p"),
        "https://www.youtube.com/watch?v=abc"
    );
    assert_eq!(choose_entry_address(None, Some("YouTube"), None, "p"), "p");
    assert_eq!(choose_entry_address(None, Some("vimeo"), Some("1"), "p"), "p");
}

#[test]
fn a_video_is_resolved() {
    let value = parse(
        r#"{
            "title": "T", "extractor": "youtube", "id": "abc", "channel": "C",
            "duration": 61, "thumbnail": "https://t", "filesize": 7, "filesize_approx": 9,
            "formats": [
                {"height": 720, "vcodec": "avc1"},
                {"height": 1080},
                {"height": 720, "vcodec": "vp9"},
                {"height": 2160, "vcodec": "none"},
                {"height": 0},
                {"height": 4294967296},
                {"height": 4294967776},
                {"vcodec": "avc1"}
            ],
            "subtitles": {"zh": [], "en": []},
            "automatic_captions": {"fr": [], "en": [], "de": []}
        }"#,
    );
    assert!(!is_playlist(&value));
    let media = resolve_from_json("https://u", &value);
    assert_eq!(media.source_url, "https://u");
    assert_eq!(media.title, "T");
    assert_eq!(media.extractor.as_deref(), Some("youtube"));
    assert_eq!(media.video_id.as_deref(), Some("abc"));
    assert_eq!(media.uploader.as_deref(), Some("C"));
    assert_eq!(media.duration_seconds, Some(61));
    assert_eq!(media.thumbnail_url.as_deref(), Some("https://t"));
    assert_eq!(media.estimated_size_bytes, Some(9));
    assert_eq!(media.playlist_title.as_deref(), Some("T"));
    assert_eq!(media.playlist_count, None);
    assert!(!media.is_playlist && media.entries.is_empty());
    assert_eq!(media.available_qualities, vec!["1080p", "720p", "480p"]);
    let languages: Vec<(&str, bool)> = media
        .available_subtitles
        .iter()
        .map(|s| (s.language_code.as_str(), s.is_auto))
        .collect();
    assert_eq!(languages, vec![("en", false), ("zh", false), ("de", true), ("fr", true)]);
}

#[test]
fn little_is_made_of_an_empty_document() {
    for source in ["{}", "[]", "null", "\"x\"", "3"] {
        let media = resolve_from_json("https://u", &parse(source));
        assert_eq!(media.title, "Untitled");
        assert!(media.extractor.is_none() && media.video_id.is_none() && media.uploader.is_none());
        assert!(!media.is_playlist && media.playlist_title.is_none());
        assert!(media.available_qualities.is_empty() && media.available_subtitles.is_empty());
    }
    assert!(extract_available_qualities(&Json::Null).is_empty());
    assert!(extract_available_subtitles(&Json::Null).is_empty());
}

#[test]
fn playlists_are_told_from_videos() {
    assert!(is_playlist(&parse(r#"{"_type": "playlist"}"#)));
    assert!(!is_playlist(&parse(r#"{"_type": "video", "entries": []}"#)));
    assert!(is_playlist(&parse(r#"{"entries": null}"#)));
    assert!(is_playlist(&parse(r#"{"_type": 3, "entries": []}"#)));
    assert!(!is_playlist(&parse(r#"{"_type": null}"#)));
}

#[test]
fn a_playlist_is_resolved() {
    let value = parse(
        r#"{"_type": "playlist", "title": "L", "playlist_title": "P",
            "entries": [{"id": "a", "extractor": "Youtube:tab"}, null, {"url": "https://v/2"}]}"#,
    );
    let media = resolve_from_json(LIST, &value);
    assert!(media.is_playlist);
    assert_eq!(media.playlist_title.as_deref(), Some("P"));
    assert_eq!(media.playlist_count, Some(2));
    let urls: Vec<&str> = media.entries.iter().map(|e| e.source_url.as_str()).collect();
    assert_eq!(urls, vec!["https://www.youtube.com/watch?v=a", "https://v/2"]);
    let counted = resolve_from_json(LIST, &parse(r#"{"entries": [], "playlist_count": 9}"#));
    assert_eq!(counted.playlist_count, Some(9));
    match plan_resolve(LIST, &value) {
        ResolvePlan::Playlist(items) => assert_eq!(items.len(), 3),
        ResolvePlan::Single(_) => panic!("it is a playlist"),
    }
    match plan_resolve("https://u", &parse("{}")) {
        ResolvePlan::Single(media) => assert_eq!(media.source_url, "https://u"),
        ResolvePlan::Playlist(_) => panic!("it is a video"),
    }
}

#[test]
fn an_item_is_resolved() {
    let value = parse(
        r#"{"webpage_url": "https://w", "original_url": "https://o", "url": "https://u",
            "title": "E", "id": "1", "extractor": "x", "uploader": "U", "channel": "C",
            "duration": 2, "thumbnail": "t", "filesize": 3,
            "playlist_autonumber": 4, "playlist_index": 5}"#,
    );
    let entry = resolve_playlist_entry(LIST, &value).unwrap();
    assert_eq!(entry.source_url, "https://w");
    assert_eq!(entry.title, "E");
    assert_eq!(entry.extractor.as_deref(), Some("x"));
    assert_eq!(entry.video_id.as_deref(), Some("1"));
    assert_eq!(entry.uploader.as_deref(), Some("U"));
    assert_eq!(entry.duration_seconds, Some(2));
    assert_eq!(entry.thumbnail_url.as_deref(), Some("t"));
    assert_eq!(entry.estimated_size_bytes, Some(3));
    assert_eq!(entry.playlist_index, Some(5));
    let second = parse(r#"{"original_url": "https://o", "url": "https://u"}"#);
    assert_eq!(resolve_playlist_entry(LIST, &second).unwrap().source_url, "https://o");
    // The first of the names that is there decides, even where it holds no address.
    let null = parse(r#"{"webpage_url": null, "url": "https://u"}"#);
    assert_eq!(resolve_playlist_entry(LIST, &null).unwrap().source_url, LIST);
    assert!(resolve_playlist_entry(LIST, &Json::Array(Vec::new())).is_none());
}

#[test]
fn listed_items_have_an_address() {
    let address = |source: &str| entry_url_from_flat(LIST, &parse(source));
    assert_eq!(address(r#"{"webpage_url": "https://w", "url": "https://u"}"#), "https://w");
    assert_eq!(address(r#"{"url": "https://u"}"#), "https://u");
    assert_eq!(
        address(r#"{"url": "abc", "ie_key": "Youtube", "id": "abc"}"#),
        "https://www.youtube.com/watch?v=abc"
    );
    assert_eq!(address(r#"{"ie_key": "Vimeo", "extractor": "youtube", "id": "1"}"#), LIST);
    assert_eq!(address("null"), LIST);
}

#[test]
fn the_scan_stands_in_for_a_failed_lookup() {
    let flat = parse(
        r#"{"url": "abc", "ie_key": "Youtube", "id": "abc", "channel": "C", "duration": 5,
            "filesize_approx": 6, "playlist_autonumber": 7, "thumbnail": "t"}"#,
    );
    let entry = flat_entry_fallback(&flat, "https://fallback");
    assert_eq!(entry.source_url, "https://fallback");
    assert_eq!(entry.title, "Untitled");
    assert_eq!(entry.extractor.as_deref(), Some("Youtube"));
    assert_eq!(entry.video_id.as_deref(), Some("abc"));
    assert_eq!(entry.uploader.as_deref(), Some("C"));
    assert_eq!(entry.duration_seconds, Some(5));
    assert_eq!(entry.thumbnail_url.as_deref(), Some("t"));
    assert_eq!(entry.estimated_size_bytes, Some(6));
    assert_eq!(entry.playlist_index, Some(7));

    let found = br#"{"title": "Found", "webpage_url": "https://w"}"#;
    assert_eq!(read_entry(LIST, &flat, true, found).title, "Found");
    for (success, output) in
        [(false, &found[..]), (true, &b"nonsense"[..]), (true, &b"[]"[..]), (false, &b""[..])]
    {
        let entry = read_entry(LIST, &flat, success, output);
        assert_eq!(entry.title, "Untitled");
        assert_eq!(entry.source_url, "https://www.youtube.com/watch?v=abc");
    }
    assert_eq!(settle_entry(LIST, &flat, None).title, "Untitled");
    let value = parse(r#"{"title": "S"}"#);
    assert_eq!(settle_entry(LIST, &flat, Some(value)).title, "S");
}

#[test]
fn a_playlist_has_the_items_that_were_looked_up() {
    let value = parse(r#"{"_type": "playlist", "title": "L", "entries": [{"id": "a"}]}"#);
    let entries: Vec<ResolvedPlaylistEntry> =
        vec![flat_entry_fallback(&Json::Null, "https://1"), flat_entry_fallback(&Json::Null, "https://2")];
    let media = assemble_playlist(LIST, &value, entries);
    assert_eq!(media.title, "L");
    assert_eq!(media.playlist_count, Some(1));
    assert_eq!(media.entries.len(), 2);
    assert_eq!(media.entries[1].source_url, "https://2");
}
