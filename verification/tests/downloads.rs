use youtudlp_bridge::command::CommandArg;
use youtudlp_bridge::downloads::control::{
    choose_next, control_effects, control_task, fail_to_start, prepare_download, start_task,
    ControlError, ControlOp, ControlRun, ControlStep,
};
use youtudlp_bridge::downloads::finish::{
    collect_output_files, file_name_of, finalize_download, finish_task, missing_subtitle_languages,
    remember_files, should_retry_youtube_without_cookies, FoundFile, Outcome,
};
use youtudlp_bridge::downloads::launch::{build_command, parse_quality_height};
use youtudlp_bridge::downloads::partial::{
    after_delete_attempt, after_helper_look, download_process_needles, is_unfinished_file,
    matching_helper_script, partial_file_candidates, powershell_single_quote, read_pids, Candidate,
    DeleteStep, HelperStep, PartialFile,
};
use youtudlp_bridge::downloads::progress::{
    handle_output_line, is_decimal_number, parse_eta_seconds, parse_progress_line,
    parse_rate_to_bytes,
};
use youtudlp_bridge::library::names::FilenameSet;
use youtudlp_bridge::paths::FsPath;
use youtudlp_bridge::settings::AppSettings;
use youtudlp_bridge::tasks::record::{
    QueueState, RuntimeState, TaskKind, TaskProgress, TaskRecord, TaskState,
};
use youtudlp_bridge::tasks::store::{FileContent, StoreError, StoreWrite, TaskFile, TaskStore};

fn strings(list: &[&str]) -> Vec<String> {
    list.iter().map(|s| s.to_string()).collect()
}

fn task(id: &str, kind: TaskKind, state: TaskState) -> TaskRecord {
    TaskRecord {
        id: id.to_string(),
        task_kind: kind,
        source_url: format!("https://example.org/{id}"),
        parent_task_id: None,
        child_task_ids: Vec::new(),
        extractor: None,
        video_id: None,
        title: format!("title of {id}"),
        playlist_title: None,
        playlist_index: None,
        uploader: None,
        duration_seconds: None,
        thumbnail_url: None,
        estimated_size_bytes: None,
        target_subdir: String::new(),
        output_dir_relative: String::new(),
        download_mode: "video".to_string(),
        quality: "1080p".to_string(),
        container: "mp4".to_string(),
        subtitle_languages: Vec::new(),
        cookie_file_name: None,
        cookie_browser: None,
        cookie_browser_profile: None,
        raw_args: Vec::new(),
        raw_format_code: None,
        created_at: "2026-01-01".to_string(),
        state,
        updated_at: "2026-01-01".to_string(),
        output_files: Vec::new(),
        last_error: None,
    }
}

fn single(id: &str, state: TaskState) -> TaskRecord {
    task(id, TaskKind::Single, state)
}

fn item(id: &str, parent: &str, state: TaskState) -> TaskRecord {
    let mut t = task(id, TaskKind::PlaylistItem, state);
    t.parent_task_id = Some(parent.to_string());
    t
}

fn parent(id: &str, children: &[&str]) -> TaskRecord {
    let mut t = task(id, TaskKind::PlaylistParent, TaskState::Queued);
    t.child_task_ids = strings(children);
    t
}

fn store(tasks: Vec<TaskRecord>, order: &[&str]) -> TaskStore {
    TaskStore::read(
        FsPath::new("/tasks"),
        FsPath::new("/queue.json"),
        tasks
            .into_iter()
            .map(|t| TaskFile { name: t.id.clone(), content: FileContent::Task(t) })
            .collect(),
        Some(QueueState { task_order: strings(order), updated_at: "then".to_string() }),
    )
}

fn writes(store: &mut TaskStore) -> Vec<String> {
    store
        .take_journal()
        .iter()
        .map(|w| match w {
            StoreWrite::SaveTask(t) => format!("task {}", t.id),
            StoreWrite::SaveQueue(q) => format!("queue {}", q.task_order.join(",")),
            StoreWrite::RemoveTaskFile { name, required } => format!("remove {name} {required}"),
        })
        .collect()
}

fn shown(path: &FsPath) -> String {
    let mut out = path.base.clone();
    for segment in &path.segments {
        out.push('/');
        out.push_str(segment);
    }
    out
}

fn args_of(task: &TaskRecord) -> Vec<String> {
    let command = build_command(
        &FsPath::new("/bin/yt-dlp"),
        &FsPath::new("/run"),
        task,
        &FsPath::new("/dl"),
        &FsPath::new("/dl").join("sub"),
    );
    assert_eq!(shown(&command.program), "/bin/yt-dlp");
    assert_eq!(shown(&command.current_dir), "/dl");
    command
        .args
        .iter()
        .map(|arg| match arg {
            CommandArg::Text(s) => s.clone(),
            CommandArg::Path(p) => shown(p),
        })
        .collect()
}

fn found(name: &str) -> FoundFile {
    FoundFile {
        name: name.to_string(),
        is_file: true,
        below_root: Some(format!("sub\\{name}")),
        full: format!("/dl/sub/{name}"),
    }
}

#[test]
fn decimal_numbers_are_those_that_parse() {
    let samples = [
        "", "0", "12", "+1", "-1", "1.", ".5", ".", "+.", "1.5", "1e5", "1E-5", "1e", "e5", "1e+", "1e+5",
        "inf", "-inf", "+Infinity", "INFINITY", "infinit", "nan", "NaN", "-nan", "nano", "1_0",
        " 1", "1 ", "0x1", "1.5.5", "--1", "1e5.5", "\u{661}", "1f", "~3.4", "Unknown", "100.0",
    ];
    for sample in samples {
        assert_eq!(is_decimal_number(sample), sample.parse::<f64>().is_ok(), "{sample:?}");
    }
}

#[test]
fn rates_have_a_unit() {
    let rate = |s: &str| parse_rate_to_bytes(s).map(|r| (r.number, r.unit_bytes));
    assert_eq!(rate("1.5KiB/s"), Some(("1.5".to_string(), 1024)));
    assert_eq!(rate("2MiB/s"), Some(("2".to_string(), 1048576)));
    assert_eq!(rate("3GiB/s"), Some(("3".to_string(), 1073741824)));
    assert_eq!(rate(" 4 B/s "), Some(("4".to_string(), 1)));
    assert_eq!(rate("5TiB/s"), None);
    assert_eq!(rate("5MB/s"), None);
    assert_eq!(rate("KiB/s"), None);
    assert_eq!(rate("7"), None);
}

#[test]
fn times_are_read_by_sixties() {
    assert_eq!(parse_eta_seconds("5"), Some(5));
    assert_eq!(parse_eta_seconds("01:02"), Some(62));
    assert_eq!(parse_eta_seconds("1:00:00"), Some(3600));
    assert_eq!(parse_eta_seconds("+1:+2"), Some(62));
    assert_eq!(parse_eta_seconds("90:90"), Some(5490));
    assert_eq!(parse_eta_seconds(""), None);
    assert_eq!(parse_eta_seconds("1:"), None);
    assert_eq!(parse_eta_seconds("-1"), None);
    assert_eq!(parse_eta_seconds("18446744073709551615"), Some(u64::MAX));
    assert_eq!(parse_eta_seconds("18446744073709551616"), None);
    assert_eq!(parse_eta_seconds("18446744073709551615:0"), None);
    assert_eq!(parse_eta_seconds("307445734561825860:16"), None);
    assert_eq!(parse_eta_seconds("307445734561825860:15"), Some(u64::MAX));
}

#[test]
fn progress_is_read_off_a_line() {
    let previous = TaskProgress {
        downloaded_bytes: Some(1),
        total_bytes: Some(2),
        ..TaskProgress::default()
    };
    let p = parse_progress_line(
        "[download]  42.5% of 10.00MiB at 1.25MiB/s ETA 00:05",
        &previous,
    )
    .unwrap();
    assert_eq!(p.percent, "42.5");
    assert_eq!((p.downloaded_bytes, p.total_bytes), (Some(1), Some(2)));
    let speed = p.speed.unwrap();
    assert_eq!((speed.number.as_str(), speed.unit_bytes), ("1.25", 1048576));
    assert_eq!(p.eta_seconds, Some(5));
    let p = parse_progress_line("[download] 100% of 1MiB in 00:01", &previous).unwrap();
    assert_eq!(p.percent, "100");
    assert!(p.speed.is_none() && p.eta_seconds.is_none());
    assert!(parse_progress_line("[download] Destination: x", &previous).is_none());
    assert!(parse_progress_line("[ffmpeg] 3%", &previous).is_none());
    assert!(parse_progress_line("[download] x%", &previous).is_none());
    assert!(parse_progress_line("%[download]", &previous).is_none());
}

#[test]
fn output_is_kept_and_read() {
    let mut state = RuntimeState::default();
    handle_output_line(&mut state, "[download] 7.5% of 1MiB at 1KiB/s ETA 10");
    handle_output_line(&mut state, "ERROR: gone");
    assert_eq!(state.progress.percent, "7.5");
    assert_eq!(state.recent_logs.len(), 2);
    assert_eq!(state.error_hints, vec!["ERROR: gone"]);
    for _ in 0..300 {
        handle_output_line(&mut state, "x");
    }
    assert_eq!(state.recent_logs.len(), 200);
    assert_eq!(state.progress.percent, "7.5");
}

#[test]
fn heights_are_the_digits_of_a_quality() {
    assert_eq!(parse_quality_height("1080p"), Some(1080));
    assert_eq!(parse_quality_height("a1b2"), Some(12));
    assert_eq!(parse_quality_height("best"), None);
    assert_eq!(parse_quality_height("4294967295"), Some(u32::MAX));
    assert_eq!(parse_quality_height("4294967296"), None);
}

#[test]
fn a_video_is_asked_for() {
    let mut t = single("a", TaskState::Queued);
    t.raw_args = strings(&["--x", " ", "--y"]);
    assert_eq!(
        args_of(&t),
        strings(&[
            "--ignore-config",
            "--newline",
            "--progress",
            "--paths",
            "/dl/sub",
            "-o",
            "%(title)s [%(id)s].%(ext)s",
            "--restrict-filenames",
            "-f",
            "bv*[height<=1080]+ba/b[height<=1080]/best[height<=1080]/best",
            "--merge-output-format",
            "mp4",
            "--x",
            "--y",
            "https://example.org/a",
        ])
    );
    t.raw_format_code = Some("22".to_string());
    t.container = " ".to_string();
    t.raw_args = Vec::new();
    assert_eq!(args_of(&t)[8..], strings(&["-f", "22", "https://example.org/a"]));
    t.raw_format_code = Some(" ".to_string());
    t.quality = "best".to_string();
    assert_eq!(args_of(&t)[8..], strings(&["https://example.org/a"]));
}

#[test]
fn audio_and_subtitles_are_asked_for() {
    let mut t = single("a", TaskState::Queued);
    t.download_mode = "audio".to_string();
    t.container = "mp3".to_string();
    t.raw_format_code = Some("22".to_string());
    t.subtitle_languages = strings(&["en", "zh"]);
    t.cookie_file_name = Some(" c.txt ".to_string());
    assert_eq!(
        args_of(&t)[8..],
        strings(&[
            "--cookies",
            "/run/cookies/c.txt",
            "--write-subs",
            "--write-auto-subs",
            "--sub-langs",
            "en,zh",
            "--sleep-subtitles",
            "1",
            "--retries",
            "5",
            "--ignore-errors",
            "-x",
            "--audio-format",
            "mp3",
            "https://example.org/a",
        ])
    );
    t.cookie_browser = Some("Firefox".to_string());
    t.cookie_browser_profile = Some("Work".to_string());
    assert_eq!(args_of(&t)[8..10], strings(&["--cookies-from-browser", "firefox:Work"]));
}

#[test]
fn a_task_is_stopped_resumed_and_restarted() {
    let after = |state: TaskState, op: ControlOp, item: bool| {
        let mut t = single("a", state);
        t.last_error = Some("old".to_string());
        t.output_files = strings(&["f"]);
        control_task(&t, op, item, "now").map(|t| (t.state, t.last_error.is_some(), t.output_files.len()))
    };
    let all = [
        TaskState::Submitted,
        TaskState::Resolving,
        TaskState::Queued,
        TaskState::Downloading,
        TaskState::Stopping,
        TaskState::Paused,
        TaskState::Completed,
        TaskState::Failed,
        TaskState::Canceled,
    ];
    for state in all {
        let stopped = match state {
            TaskState::Downloading => Some((TaskState::Stopping, true, 1)),
            _ => None,
        };
        assert_eq!(after(state, ControlOp::Stop, false), stopped);
        let paused = match state {
            TaskState::Queued => Some((TaskState::Paused, true, 1)),
            _ => stopped,
        };
        assert_eq!(after(state, ControlOp::Stop, true), paused);
        let resumed = match state {
            TaskState::Paused | TaskState::Failed => Some((TaskState::Queued, true, 1)),
            _ => None,
        };
        assert_eq!(after(state, ControlOp::Resume, false), resumed);
        let restarted = match state {
            TaskState::Downloading | TaskState::Stopping => None,
            _ => Some((TaskState::Queued, false, 0)),
        };
        assert_eq!(after(state, ControlOp::Restart, false), restarted);
    }
}

#[test]
fn control_moves_tasks_in_and_out_of_the_queue() {
    let mut s = store(vec![single("a", TaskState::Paused)], &["z"]);
    let mut run = ControlRun::begin(&s, "a", ControlOp::Resume).ok().unwrap();
    match run.advance(&mut s, "now") {
        ControlStep::Changed { id, task } => {
            assert_eq!(id, "a");
            assert_eq!((task.state, task.updated_at.as_str()), (TaskState::Queued, "now"));
        }
        _ => panic!("the task can be resumed"),
    }
    assert!(matches!(run.advance(&mut s, "now"), ControlStep::Done));
    assert_eq!(writes(&mut s), vec!["task a", "queue z,a"]);
}

#[test]
fn control_reaches_the_items_of_a_playlist() {
    let tasks = vec![
        parent("p", &["c1", "c2", "c3"]),
        item("c1", "p", TaskState::Queued),
        item("c2", "p", TaskState::Completed),
        item("c3", "p", TaskState::Downloading),
    ];
    let mut s = store(tasks, &["c1", "c3"]);
    let mut run = ControlRun::begin(&s, "p", ControlOp::Stop).ok().unwrap();
    let mut seen = Vec::new();
    while let ControlStep::Changed { id, task } = run.advance(&mut s, "now") {
        seen.push((id, task.state));
    }
    assert_eq!(
        seen,
        vec![("c1".to_string(), TaskState::Paused), ("c3".to_string(), TaskState::Stopping)]
    );
    assert_eq!(writes(&mut s), vec!["task c1", "queue c3", "task c3"]);
}

#[test]
fn playlists_are_resumed_and_restarted_as_a_whole() {
    let tasks = || {
        let mut failed = item("c2", "p", TaskState::Failed);
        failed.output_files = strings(&["f"]);
        failed.last_error = Some("no".to_string());
        vec![
            parent("p", &["c1", "c2", "c3", "c1"]),
            item("c1", "p", TaskState::Paused),
            failed,
            item("c3", "p", TaskState::Downloading),
        ]
    };
    for op in [ControlOp::Resume, ControlOp::Restart] {
        let mut s = store(tasks(), &["z"]);
        let mut run = ControlRun::begin(&s, "p", op).ok().unwrap();
        let mut steps = 0;
        let last = loop {
            match run.advance(&mut s, &format!("time {steps}")) {
                ControlStep::Changed { .. } => steps += 1,
                last => break last,
            }
        };
        assert!(matches!(last, ControlStep::Done));
        let (first, second) = (s.load_task("c1").ok().unwrap(), s.load_task("c2").ok().unwrap());
        assert_eq!((first.state, second.state), (TaskState::Queued, TaskState::Queued));
        assert_eq!(s.load_task("c3").ok().unwrap().state, TaskState::Downloading);
        let written = writes(&mut s);
        assert_eq!(written.iter().filter(|w| w.starts_with("queue")).last().unwrap(), "queue z,c1,c2");
        if op == ControlOp::Resume {
            assert_eq!((steps, first.updated_at.as_str()), (2, "time 0"));
            assert_eq!((second.output_files.len(), second.last_error.is_some()), (1, true));
        } else {
            assert_eq!((steps, first.updated_at.as_str()), (3, "time 2"));
            assert_eq!((second.output_files.len(), second.last_error.is_some()), (0, false));
        }
    }
}

#[test]
fn a_run_breaks_off_at_an_item_that_is_lost() {
    let mut s = store(
        vec![
            parent("p", &["c1", "gone", "c2"]),
            item("c1", "p", TaskState::Downloading),
            item("c2", "p", TaskState::Downloading),
        ],
        &[],
    );
    let mut run = ControlRun::begin(&s, "p", ControlOp::Stop).ok().unwrap();
    assert!(matches!(run.advance(&mut s, "now"), ControlStep::Changed { .. }));
    assert!(matches!(
        run.advance(&mut s, "now"),
        ControlStep::Refused(ControlError::Store(StoreError::ReadTask(_)))
    ));
    assert_eq!(s.load_task("c1").ok().unwrap().state, TaskState::Stopping);
    assert_eq!(s.load_task("c2").ok().unwrap().state, TaskState::Downloading);
}

#[test]
fn control_is_refused() {
    let mut s = store(
        vec![
            parent("p", &["c"]),
            item("c", "p", TaskState::Stopping),
            single("a", TaskState::Stopping),
            parent("q", &["gone"]),
        ],
        &[],
    );
    let texts = [
        (ControlOp::Stop, "task is not currently downloading", "playlist has no running or queued child tasks to stop"),
        (ControlOp::Resume, "task can only be resumed from paused or failed state", "playlist has no paused or failed child tasks to resume"),
        (ControlOp::Restart, "stop the task before restarting it", "playlist has no child tasks eligible for restart"),
    ];
    for (op, of_task, of_list) in texts {
        for (id, text) in [("a", of_task), ("p", of_list)] {
            let mut run = ControlRun::begin(&s, id, op).ok().unwrap();
            match run.advance(&mut s, "now") {
                ControlStep::Refused(error) => assert_eq!(error.message(""), text),
                _ => panic!("it cannot be done"),
            }
        }
        let mut run = ControlRun::begin(&s, "q", op).ok().unwrap();
        assert!(matches!(
            run.advance(&mut s, "now"),
            ControlStep::Refused(ControlError::Store(StoreError::ReadTask(_)))
        ));
        assert!(matches!(
            ControlRun::begin(&s, "x", op),
            Err(ControlError::Store(StoreError::ReadTask(_)))
        ));
    }
    assert!(writes(&mut s).is_empty());
}

#[test]
fn starts_are_limited() {
    let mut s = store(
        vec![single("a", TaskState::Queued), single("b", TaskState::Queued)],
        &["a", "b"],
    );
    assert!(choose_next(&mut s, &strings(&["a"]), 1, "now").is_none());
    assert_eq!(choose_next(&mut s, &strings(&["a"]), 2, "now").unwrap().id, "b");
    assert_eq!(choose_next(&mut s, &Vec::new(), 2, "now").unwrap().id, "a");
}

#[test]
fn a_download_is_started() {
    let settings = AppSettings::with_defaults("/dl".to_string());
    let mut t = single("a", TaskState::Queued);
    t.target_subdir = "Music".to_string();
    t.last_error = Some("old".to_string());
    let program = Some(FsPath::new("/bin/yt-dlp"));
    let (found, place) = prepare_download(&t, &settings, &program, false).ok().unwrap();
    assert_eq!((shown(found), shown(&place)), ("/bin/yt-dlp".to_string(), "/dl/Music".to_string()));
    match prepare_download(&t, &settings, &None, false) {
        Err(error) => assert_eq!(error.message(""), "yt-dlp is not configured"),
        Ok(_) => panic!("there is no program"),
    }
    let mut outside = t.clone();
    outside.target_subdir = "../x".to_string();
    match prepare_download(&outside, &settings, &program, false) {
        Err(error) => assert_eq!(error.message(""), "路径必须限制在下载根目录内"),
        Ok(_) => panic!("the place is outside"),
    }
    match prepare_download(&outside, &settings, &None, false) {
        Err(error) => assert_eq!(error.message(""), "yt-dlp is not configured"),
        Ok(_) => panic!("there is no program"),
    }
    let mut s = store(vec![t.clone()], &[]);
    start_task(&mut s, &mut t, "now");
    assert_eq!((t.state, t.last_error.is_none()), (TaskState::Downloading, true));
    fail_to_start(&mut s, &mut t, "no".to_string(), "later");
    assert_eq!((t.state, t.last_error.as_deref()), (TaskState::Failed, Some("no")));
    assert_eq!(s.load_task("a").ok().unwrap().updated_at, "later");
    assert_eq!(writes(&mut s), vec!["task a", "task a"]);
}

#[test]
fn finished_files_are_collected() {
    let mut t = single("a", TaskState::Downloading);
    t.video_id = Some("abc".to_string());
    let mut folder = found("abc");
    folder.is_file = false;
    let mut outside = found("out [abc].mp4");
    outside.below_root = None;
    let files = vec![
        found("x [abc].mp4"),
        found("y.mp4"),
        found("x [abc].part"),
        found("x [abc].ytdl"),
        found("x [abc].info.json"),
        folder,
        outside,
    ];
    assert_eq!(
        collect_output_files(&files, &t),
        strings(&["sub/x [abc].mp4", "/dl/sub/out [abc].mp4"])
    );
    t.video_id = None;
    assert_eq!(collect_output_files(&files, &t).len(), 3);
}

#[test]
fn missing_subtitles_are_named() {
    let mut t = single("a", TaskState::Completed);
    t.subtitle_languages = strings(&["en", " ZH-Hans ", "fr", " ", "de"]);
    t.output_files = strings(&["x.EN.vtt", "x.zh-hans.srt", "x.fr.mp4", "x.de.json3"]);
    assert_eq!(missing_subtitle_languages(&t), strings(&["fr"]));
    t.output_files = Vec::new();
    assert_eq!(missing_subtitle_languages(&t), strings(&["en", "ZH-Hans", "fr", "de"]));
    t.subtitle_languages = Vec::new();
    assert!(missing_subtitle_languages(&t).is_empty());
}

#[test]
fn a_retry_is_worth_it_for_youtube_with_cookies() {
    let hint = Some("ERROR: Requested Format is not available");
    let mut t = single("a", TaskState::Downloading);
    t.extractor = Some("YouTube".to_string());
    assert!(!should_retry_youtube_without_cookies(&t, hint));
    t.cookie_file_name = Some(" c ".to_string());
    assert!(should_retry_youtube_without_cookies(&t, hint));
    assert!(!should_retry_youtube_without_cookies(&t, Some("ERROR: gone")));
    assert!(!should_retry_youtube_without_cookies(&t, None));
    t.extractor = Some("vimeo".to_string());
    assert!(!should_retry_youtube_without_cookies(&t, hint));
    t.source_url = "https://youtu.be/x".to_string();
    assert!(should_retry_youtube_without_cookies(&t, hint));
    t.cookie_file_name = Some(" ".to_string());
    t.cookie_browser = Some("firefox".to_string());
    assert!(should_retry_youtube_without_cookies(&t, hint));
}

#[test]
fn a_download_succeeds() {
    let mut t = single("a", TaskState::Downloading);
    t.video_id = Some("abc".to_string());
    t.subtitle_languages = strings(&["en"]);
    let done = finish_task(t.clone(), None, Outcome::Success(vec![found("x [abc].mp4")]), "now");
    assert_eq!(done.task.state, TaskState::Completed);
    assert_eq!(done.task.output_files, strings(&["sub/x [abc].mp4"]));
    let warning = "Some requested subtitles were not downloaded: en. This is usually caused by \
                   YouTube rate limiting (HTTP 429). Configure a cookies file to improve subtitle \
                   success rate.";
    assert_eq!(done.task.last_error.as_deref(), Some(warning));
    let runtime = done.runtime.unwrap();
    assert_eq!(runtime.progress.percent, "100");
    assert_eq!(runtime.recent_logs, strings(&[&format!("[warning] {warning}")]));
    t.subtitle_languages = Vec::new();
    // Success counts even where a stop was asked for.
    t.state = TaskState::Stopping;
    let done = finish_task(t, None, Outcome::Success(Vec::new()), "now");
    assert_eq!((done.task.state, done.task.last_error), (TaskState::Completed, None));
}

#[test]
fn a_download_fails() {
    let t = single("a", TaskState::Downloading);
    let failed = |runtime: Option<RuntimeState>| {
        let done = finish_task(t.clone(), runtime, Outcome::Failure("exit status: 1".to_string()), "now");
        assert_eq!((done.task.state, done.retried), (TaskState::Failed, false));
        done.task.last_error.unwrap()
    };
    assert_eq!(failed(None), "yt-dlp exited with status exit status: 1");
    let mut runtime = RuntimeState::default();
    runtime.push_log("error one".to_string());
    runtime.push_log("ERROR two".to_string());
    assert_eq!(failed(Some(runtime)), "ERROR two");
    let mut runtime = RuntimeState::default();
    runtime.push_log("ERROR: Could not copy Chrome cookie database".to_string());
    assert!(failed(Some(runtime)).starts_with("Windows blocked access"));
    let lost = finish_task(t.clone(), None, Outcome::Lost("lost".to_string()), "now");
    assert_eq!(lost.task.last_error.as_deref(), Some("lost"));
    assert_eq!(lost.task.state, TaskState::Failed);
}

#[test]
fn a_stopped_download_is_paused() {
    let mut t = single("a", TaskState::Stopping);
    t.last_error = Some("old".to_string());
    let done = finish_task(t, None, Outcome::Failure("killed".to_string()), "now");
    assert_eq!((done.task.state, done.task.last_error), (TaskState::Paused, None));
}

#[test]
fn there_is_one_retry() {
    let mut t = single("a", TaskState::Downloading);
    t.extractor = Some("youtube".to_string());
    t.cookie_browser = Some("chrome".to_string());
    t.cookie_browser_profile = Some("p".to_string());
    let line = "ERROR: Requested format is not available";
    let mut s = store(vec![t], &["a"]);
    let mut runtime = RuntimeState::default();
    runtime.push_log(line.to_string());
    let done = finalize_download(&mut s, "a", Some(runtime), Outcome::Failure("1".to_string()), "now")
        .ok()
        .unwrap();
    assert!(done.retried && done.task.state == TaskState::Queued);
    assert!(done.task.cookie_browser.is_none() && done.task.cookie_browser_profile.is_none());
    let mut runtime = done.runtime.unwrap();
    assert_eq!(
        runtime.recent_logs,
        strings(&["[warning] Authenticated YouTube format selection failed; retrying once without cookies."])
    );
    runtime.push_log(line.to_string());
    let again = finalize_download(&mut s, "a", Some(runtime), Outcome::Failure("1".to_string()), "now")
        .ok()
        .unwrap();
    assert!(!again.retried && again.task.state == TaskState::Failed);
    assert_eq!(writes(&mut s), vec!["task a", "task a"]);
    let gone = finalize_download(&mut s, "x", None, Outcome::Lost("l".to_string()), "now");
    assert!(matches!(gone, Err(StoreError::ReadTask(_))));
}

#[test]
fn files_are_remembered_by_name() {
    assert_eq!(file_name_of("a/b.mp4", false).as_deref(), Some("b.mp4"));
    assert_eq!(file_name_of("a/b/", false).as_deref(), Some("b"));
    assert_eq!(file_name_of("a/..", false), None);
    assert_eq!(file_name_of("/", false), None);
    assert_eq!(file_name_of("a\\b", false).as_deref(), Some("a\\b"));
    assert_eq!(file_name_of("a\\b", true).as_deref(), Some("b"));
    let mut known = FilenameSet::new();
    remember_files(&mut known, &strings(&["a/b.mp4", "c/b.mp4", ".."]), false);
    assert_eq!(known.names(), &strings(&["b.mp4"]));
}

#[test]
fn finished_files_are_kept() {
    let mut t = single("a", TaskState::Paused);
    t.video_id = Some("abc".to_string());
    for name in ["abc.part", "abc.ytdl", "abc.frag1", "abc.temp"] {
        assert!(is_unfinished_file(name, &t));
    }
    assert!(!is_unfinished_file("abc.mp4", &t));
    assert!(!is_unfinished_file("other.part", &t));
    t.video_id = None;
    assert!(!is_unfinished_file("abc.part", &t));
}

#[test]
fn locked_files_are_tried_ten_times() {
    assert!(matches!(after_delete_attempt(0, false), DeleteStep::Done));
    assert!(matches!(after_delete_attempt(0, true), DeleteStep::Wait { remaining: 9 }));
    assert!(matches!(after_delete_attempt(9, true), DeleteStep::Wait { remaining: 0 }));
}

#[test]
fn helpers_are_looked_for() {
    let mut t = single("a", TaskState::Paused);
    t.video_id = Some("abc".to_string());
    t.source_url = "https://x".to_string();
    t.target_subdir = "m/n".to_string();
    let candidate = |name: &str, is_file: bool| Candidate {
        name: name.to_string(),
        is_file,
        file: PartialFile { full: format!("/dl/{name}"), name: Some(name.to_string()) },
    };
    let files = partial_file_candidates(
        &vec![candidate("abc.part", true), candidate("abc.mp4", true), candidate("abc.temp", false)],
        &t,
    );
    assert_eq!(files.len(), 1);
    assert_eq!(
        download_process_needles(&t, &files),
        strings(&["\\dl\\abc.part", "abc", "abc.part", "https://x", "m\\n"])
    );
    assert_eq!(powershell_single_quote("it's"), "it''s");
    assert!(matching_helper_script(&Vec::new()).is_none());
    assert_eq!(
        matching_helper_script(&strings(&["it's", "b"])).unwrap(),
        "$ErrorActionPreference='SilentlyContinue'; Get-CimInstance Win32_Process | Where-Object { \
         $cmd = $_.CommandLine; $name = $_.Name; $cmd -and ($name -in \
         @('yt-dlp.exe','yt-dlp','ffmpeg.exe','ffmpeg','python.exe','pythonw.exe')) -and \
         ($cmd.IndexOf('it''s', [System.StringComparison]::OrdinalIgnoreCase) -ge 0 -or \
         $cmd.IndexOf('b', [System.StringComparison]::OrdinalIgnoreCase) -ge 0) } | \
         Select-Object -ExpandProperty ProcessId"
    );
    assert_eq!(read_pids("12\r\n x\n 7 \n\n4294967296\n+3"), vec![12, 7, 3]);
}

#[test]
fn helpers_are_ended_twenty_times() {
    assert!(matches!(after_helper_look(0, false), HelperStep::Done));
    assert!(matches!(after_helper_look(19, true), HelperStep::EndThem));
    assert!(matches!(after_helper_look(20, true), HelperStep::GiveUp));
    assert!(matches!(after_helper_look(20, false), HelperStep::Done));
}

#[test]
fn control_has_effects() {
    let effects = |state: TaskState| {
        let e = control_effects(&single("a", state));
        (e.refresh, e.signal, e.schedule)
    };
    assert_eq!(effects(TaskState::Stopping), (true, true, false));
    assert_eq!(effects(TaskState::Paused), (false, false, false));
    assert_eq!(effects(TaskState::Queued), (true, false, true));
}
