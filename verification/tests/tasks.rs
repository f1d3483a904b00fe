use youtudlp_bridge::library::names::{FilenameSet, PathChange};
use youtudlp_bridge::paths::FsPath;
use youtudlp_bridge::settings::AppSettings;
use youtudlp_bridge::tasks::creation::select_entries;
use youtudlp_bridge::tasks::parents::{do_sizes_fit, sum_sizes, sync_parent_from_children};
use youtudlp_bridge::tasks::places::{output_directory, remap_relative_path};
use youtudlp_bridge::tasks::record::{
    make_task_id, QueueState, RuntimeState, TaskIds, TaskKind, TaskProgress, TaskRecord, TaskState,
    TaskView,
};
use youtudlp_bridge::tasks::requests::{
    CreatePlaylistTasksRequest, CreateTaskRequest, ResolvedMedia, ResolvedPlaylistEntry,
};
use youtudlp_bridge::tasks::store::{FileContent, StoreError, StoreWrite, TaskFile, TaskStore};

fn strings(list: &[&str]) -> Vec<String> {
    list.iter().map(|s| s.to_string()).collect()
}

fn task(id: &str, kind: TaskKind, state: TaskState) -> TaskRecord {
    TaskRecord {
        id: id.to_string(),
        task_kind: kind,
        source_url: format!("https://example.org/{id}"),
        parent_task_id: None,
        child_task_ids: Vec::new(),
        extractor: None,
        video_id: None,
        title: format!("title of {id}"),
        playlist_title: None,
        playlist_index: None,
        uploader: None,
        duration_seconds: None,
        thumbnail_url: None,
        estimated_size_bytes: None,
        target_subdir: String::new(),
        output_dir_relative: String::new(),
        download_mode: "video".to_string(),
        quality: "1080p".to_string(),
        container: "mp4".to_string(),
        subtitle_languages: Vec::new(),
        cookie_file_name: None,
        cookie_browser: None,
        cookie_browser_profile: None,
        raw_args: Vec::new(),
        raw_format_code: None,
        created_at: "2026-01-01".to_string(),
        state,
        updated_at: "2026-01-01".to_string(),
        output_files: Vec::new(),
        last_error: None,
    }
}

fn single(id: &str, state: TaskState) -> TaskRecord {
    task(id, TaskKind::Single, state)
}

fn item(id: &str, parent: &str, state: TaskState) -> TaskRecord {
    let mut t = task(id, TaskKind::PlaylistItem, state);
    t.parent_task_id = Some(parent.to_string());
    t
}

fn parent(id: &str, children: &[&str]) -> TaskRecord {
    let mut t = task(id, TaskKind::PlaylistParent, TaskState::Queued);
    t.child_task_ids = strings(children);
    t
}

fn store(tasks: Vec<TaskRecord>, order: &[&str]) -> TaskStore {
    TaskStore::read(
        FsPath::new("/tasks"),
        FsPath::new("/queue.json"),
        tasks
            .into_iter()
            .map(|t| TaskFile { name: t.id.clone(), content: FileContent::Task(t) })
            .collect(),
        Some(QueueState { task_order: strings(order), updated_at: "then".to_string() }),
    )
}

fn media(extractor: Option<&str>, video_id: Option<&str>) -> ResolvedMedia {
    ResolvedMedia {
        source_url: "https://example.org/v".to_string(),
        title: "A video".to_string(),
        extractor: extractor.map(String::from),
        video_id: video_id.map(String::from),
        uploader: None,
        duration_seconds: Some(12),
        thumbnail_url: None,
        estimated_size_bytes: Some(34),
        is_playlist: false,
        playlist_title: None,
        playlist_count: None,
        entries: Vec::new(),
        available_qualities: Vec::new(),
        available_subtitles: Vec::new(),
    }
}

fn order(resolved: ResolvedMedia) -> CreateTaskRequest {
    CreateTaskRequest {
        source_url: "https://example.org/v".to_string(),
        target_subdir: "Music".to_string(),
        download_mode: "audio".to_string(),
        quality: "best".to_string(),
        container: "mp3".to_string(),
        subtitle_languages: strings(&["en"]),
        cookie_file_name: Some("c.txt".to_string()),
        raw_args: strings(&["--x"]),
        raw_format_code: Some("22".to_string()),
        resolved,
    }
}

fn entry(extractor: Option<&str>, video_id: Option<&str>, size: Option<u64>) -> ResolvedPlaylistEntry {
    ResolvedPlaylistEntry {
        source_url: format!("https://example.org/{}", video_id.unwrap_or("none")),
        title: "An item".to_string(),
        extractor: extractor.map(String::from),
        video_id: video_id.map(String::from),
        uploader: None,
        duration_seconds: None,
        thumbnail_url: None,
        estimated_size_bytes: size,
        playlist_index: Some(1),
    }
}

fn playlist(entries: Vec<ResolvedPlaylistEntry>) -> CreatePlaylistTasksRequest {
    let mut resolved = media(Some("youtube:tab"), Some("PL1"));
    resolved.is_playlist = true;
    resolved.playlist_title = Some("A list".to_string());
    resolved.entries = entries;
    let o = order(resolved);
    CreatePlaylistTasksRequest {
        source_url: o.source_url,
        target_subdir: o.target_subdir,
        download_mode: o.download_mode,
        quality: o.quality,
        container: o.container,
        subtitle_languages: o.subtitle_languages,
        cookie_file_name: o.cookie_file_name,
        raw_args: o.raw_args,
        raw_format_code: o.raw_format_code,
        resolved: o.resolved,
    }
}

fn ids(tasks: &[TaskRecord]) -> Vec<&str> {
    tasks.iter().map(|t| t.id.as_str()).collect()
}

fn writes(store: &mut TaskStore) -> Vec<String> {
    store
        .take_journal()
        .iter()
        .map(|w| match w {
            StoreWrite::SaveTask(t) => format!("task {}", t.id),
            StoreWrite::SaveQueue(q) => format!("queue {}", q.task_order.join(",")),
            StoreWrite::RemoveTaskFile { name, required } => format!("remove {name} {required}"),
        })
        .collect()
}

fn names(list: &[&str]) -> FilenameSet {
    let mut set = FilenameSet::new();
    set.extend(&strings(list));
    set
}

/// A moment such as `1996-12-19T16:39:57.123456789+00:00`, with no fraction or one of three, six
/// or nine digits.
fn is_timestamp(s: &str) -> bool {
    let shape: String = s.chars().map(|c| if c.is_ascii_digit() { '0' } else { c }).collect();
    let shapes = ["", ".000", ".000000", ".000000000"];
    let date_and_time = "0000-00-00T00:00:00";
    shapes.iter().any(|fraction| shape == format!("{date_and_time}{fraction}+00:00"))
        && (1..=12).contains(&s[5..7].parse::<u32>().unwrap())
        && (1..=31).contains(&s[8..10].parse::<u32>().unwrap())
        && s[11..13].parse::<u32>().unwrap() < 24
        && s[14..16].parse::<u32>().unwrap() < 60
        && s[17..19].parse::<u32>().unwrap() < 60
}

#[test]
fn the_log_is_a_rolling_window() {
    let mut state = RuntimeState::default();
    for i in 0..250 {
        state.push_log(format!("line {i}"));
    }
    state.push_log("ERROR: no".to_string());
    assert_eq!(state.recent_logs.len(), 200);
    assert_eq!(state.recent_logs[0], "line 51");
    assert_eq!(state.recent_logs[199], "ERROR: no");
    assert_eq!(state.error_hints, vec!["ERROR: no"]);
}

#[test]
fn a_view_shows_the_record_and_the_download() {
    let t = single("a", TaskState::Downloading);
    let idle = TaskView::from_record(&t, None);
    assert_eq!(idle.progress.percent, "0");
    assert!(idle.recent_logs.is_empty());
    let mut state = RuntimeState::default();
    state.push_log("x".to_string());
    state.progress = TaskProgress { percent: "4.2".to_string(), ..TaskProgress::default() };
    let busy = TaskView::from_record(&t, Some(&state));
    assert_eq!((busy.id.as_str(), busy.progress.percent.as_str()), ("a", "4.2"));
    assert_eq!(busy.recent_logs, vec!["x"]);
    assert_eq!(busy.title, "title of a");
}

#[test]
fn ids_tell_tasks_apart() {
    assert_eq!(make_task_id(1700000000123, 5), "task_1700000000123_5");
    assert_eq!(make_task_id(-3, 18446744073709551615), "task_-3_18446744073709551615");
    assert_eq!(make_task_id(i64::MIN, 0), format!("task_{}_0", i64::MIN));
    let mut ids = TaskIds::new();
    let a = ids.new_task_id();
    let b = ids.new_task_id();
    assert_ne!(a, b);
    assert!(a.starts_with("task_") && a.ends_with("_1") && b.ends_with("_2"));
    assert_eq!(ids.task_id_at(9), "task_9_3");
}

#[test]
fn a_saved_task_is_loaded_again() {
    let mut s = store(vec![single("a", TaskState::Queued)], &[]);
    let mut t = single("b", TaskState::Paused);
    t.title = "new".to_string();
    s.save_task(&t);
    assert_eq!(s.load_task("b").ok().unwrap().title, "new");
    t.title = "newer".to_string();
    s.save_task(&t);
    assert_eq!(s.load_task("b").ok().unwrap().title, "newer");
    assert_eq!(s.load_task("a").ok().unwrap().title, "title of a");
    assert_eq!(writes(&mut s), vec!["task b", "task b"]);
    assert!(writes(&mut s).is_empty());
}

#[test]
fn a_missing_task_is_an_error() {
    let s = store(vec![], &[]);
    match s.load_task("x") {
        Err(error) => {
            assert!(matches!(error, StoreError::ReadTask(_)));
            assert_eq!(error.place().unwrap().segments, vec!["x.json"]);
            assert_eq!(
                error.message("/tasks/x.json"),
                "failed to read task file /tasks/x.json"
            );
        }
        Ok(_) => panic!("there is no such task"),
    }
}

#[test]
fn corrupted_files_are_swept() {
    let files = vec![
        TaskFile { name: "bad".to_string(), content: FileContent::Corrupted },
        TaskFile {
            name: "a".to_string(),
            content: FileContent::Task(single("a", TaskState::Queued)),
        },
        TaskFile { name: "locked".to_string(), content: FileContent::Unreadable },
    ];
    let mut s = TaskStore::read(FsPath::new("/t"), FsPath::new("/q"), files, None);
    assert!(matches!(s.load_task("bad"), Err(StoreError::ParseTask(_))));
    assert!(matches!(s.load_task("locked"), Err(StoreError::ReadTask(_))));
    assert_eq!(ids(&s.load_all_tasks()), vec!["a"]);
    assert_eq!(writes(&mut s), vec!["remove bad false"]);
    assert!(matches!(s.load_task("bad"), Err(StoreError::ReadTask(_))));
}

#[test]
fn a_missing_queue_is_made() {
    let mut s = TaskStore::new(FsPath::new("/t"), FsPath::new("/q"));
    assert!(s.load_or_create_queue().task_order.is_empty());
    assert_eq!(writes(&mut s), vec!["queue "]);
    s.load_or_create_queue();
    assert!(writes(&mut s).is_empty());
    let empty = QueueState::empty();
    assert!(empty.task_order.is_empty() && is_timestamp(&empty.updated_at));
}

#[test]
fn the_queue_has_no_repetitions() {
    let mut s = store(vec![], &["a"]);
    s.append_to_queue("b");
    s.append_to_queue("a");
    assert_eq!(writes(&mut s), vec!["queue a,b"]);
    s.remove_from_queue(&strings(&["a", "z"]));
    assert_eq!(writes(&mut s), vec!["queue b"]);
}

#[test]
fn tasks_are_listed_in_queue_order_with_parents_first() {
    let mut late = single("late", TaskState::Completed);
    late.created_at = "2026-03-01".to_string();
    let mut early = single("early", TaskState::Completed);
    early.created_at = "2026-02-01".to_string();
    let mut s = store(
        vec![
            item("c1", "p", TaskState::Queued),
            late,
            item("c2", "p", TaskState::Queued),
            early,
            parent("p", &["c1", "c2"]),
            single("a", TaskState::Queued),
        ],
        &["a", "c2", "gone", "c1"],
    );
    assert_eq!(
        ids(&s.list_tasks_in_queue_order()),
        vec!["a", "p", "c2", "c1", "early", "late"]
    );
    let mut unqueued = store(
        vec![item("c1", "p", TaskState::Queued), parent("p", &["c1"])],
        &[],
    );
    assert_eq!(ids(&unqueued.list_tasks_in_queue_order()), vec!["p", "c1"]);
    let mut queued_parent = store(
        vec![
            item("c1", "p", TaskState::Queued),
            parent("p", &["c1"]),
            single("a", TaskState::Queued),
        ],
        &["a", "p"],
    );
    assert_eq!(ids(&queued_parent.list_tasks_in_queue_order()), vec!["a", "p", "c1"]);
}

#[test]
fn the_first_that_may_start_is_chosen() {
    let mut s = store(
        vec![
            parent("p", &[]),
            single("running", TaskState::Queued),
            single("paused", TaskState::Paused),
            single("next", TaskState::Queued),
            single("after", TaskState::Queued),
        ],
        &["p", "running", "gone", "paused", "next", "after"],
    );
    let chosen = s.find_first_queued_task_excluding(&strings(&["running"]));
    assert_eq!(chosen.unwrap().id, "next");
    assert!(s
        .find_first_queued_task_excluding(&strings(&["running", "next", "after"]))
        .is_none());
}

#[test]
fn recovery_leaves_nothing_in_flight() {
    let states = [
        (TaskState::Submitted, TaskState::Failed),
        (TaskState::Resolving, TaskState::Failed),
        (TaskState::Queued, TaskState::Queued),
        (TaskState::Downloading, TaskState::Paused),
        (TaskState::Stopping, TaskState::Paused),
        (TaskState::Paused, TaskState::Paused),
        (TaskState::Completed, TaskState::Completed),
        (TaskState::Failed, TaskState::Failed),
        (TaskState::Canceled, TaskState::Canceled),
    ];
    for (before, after) in states {
        let mut s = store(vec![single("a", before)], &["a"]);
        s.recover_on_startup();
        let t = s.load_task("a").ok().unwrap();
        assert_eq!(t.state, after);
        assert_eq!(t.last_error.is_some(), before != after);
        assert_eq!(writes(&mut s).len(), usize::from(before != after));
        s.recover_on_startup();
        assert!(writes(&mut s).is_empty());
    }
    let mut s = store(vec![single("a", TaskState::Downloading)], &["a"]);
    s.recover_on_startup();
    assert_eq!(
        s.load_task("a").ok().unwrap().last_error.as_deref(),
        Some("应用在下载过程中退出，任务已恢复为可继续状态")
    );
}

#[test]
fn a_video_is_found_where_it_is() {
    let mut t = single("a", TaskState::Completed);
    t.extractor = Some("youtube".to_string());
    t.video_id = Some("abc".to_string());
    t.output_files = strings(&["A [abc].mp4"]);
    let mut s = store(vec![t], &[]);
    let library = names(&["x [abc].mp4", "y [abd].mp4"]);
    let found = s.find_duplicates(Some("youtube"), Some("abc"), &library);
    assert_eq!(found.status, "duplicate-found");
    assert_eq!(found.default_action, "skip");
    assert_eq!(found.allowed_actions, vec!["skip", "add_anyway", "open_existing"]);
    assert_eq!(found.matches.len(), 2);
    assert_eq!(found.matches[0].source, "task");
    assert_eq!(found.matches[0].path.as_deref(), Some("A [abc].mp4"));
    assert_eq!(found.matches[0].task_id.as_deref(), Some("a"));
    assert!(found.matches[0].state == Some(TaskState::Completed));
    assert_eq!(found.matches[1].source, "library");
    assert_eq!(found.matches[1].path.as_deref(), Some("x [abc].mp4"));
    let none = s.find_duplicates(Some("vimeo"), Some("zzz"), &library);
    assert_eq!(none.status, "not_found");
    assert!(none.matches.is_empty());
    assert_eq!(s.find_duplicates(None, Some("abc"), &library).status, "not_found");
    assert_eq!(s.find_duplicates(Some("youtube"), None, &library).status, "not_found");
}

#[test]
fn one_video_is_ordered() {
    let mut s = store(vec![], &["z"]);
    let mut ids = TaskIds::new();
    let t = s
        .create_task_from_request(&mut ids, &order(media(Some("youtube"), Some("abc"))), &names(&[]))
        .ok()
        .unwrap();
    assert!(t.task_kind == TaskKind::Single && t.state == TaskState::Queued);
    assert_eq!(t.title, "A video");
    assert_eq!(t.target_subdir, "Music");
    assert_eq!(t.output_dir_relative, "Music");
    assert_eq!(t.estimated_size_bytes, Some(34));
    assert_eq!(t.cookie_file_name.as_deref(), Some("c.txt"));
    assert_eq!(writes(&mut s), vec![format!("task {}", t.id), format!("queue z,{}", t.id)]);
    let again =
        s.create_task_from_request(&mut ids, &order(media(Some("youtube"), Some("abc"))), &names(&[]));
    match again {
        Err(error) => assert_eq!(
            error.message(""),
            format!("this video already exists: {}", t.id)
        ),
        Ok(_) => panic!("the video is there already"),
    }
    let mut list = media(None, None);
    list.is_playlist = true;
    assert!(matches!(
        s.create_task_from_request(&mut ids, &order(list), &names(&[])),
        Err(StoreError::IsPlaylist)
    ));
    let in_library = s.create_task_from_request(
        &mut ids,
        &order(media(Some("youtube"), Some("q"))),
        &names(&["B [q].mp4"]),
    );
    assert!(matches!(in_library, Err(StoreError::AlreadyExists(hint)) if hint == "B [q].mp4"));
}

#[test]
fn a_playlist_is_ordered() {
    let mut s = store(vec![], &[]);
    let mut ids = TaskIds::new();
    let request = playlist(vec![
        entry(Some("youtube"), Some("a"), Some(10)),
        entry(Some("youtube"), Some("b"), Some(20)),
        entry(Some("youtube"), Some("a"), Some(99)),
        entry(None, None, Some(5)),
        entry(Some("youtube"), Some("lib"), Some(7)),
    ]);
    let library = names(&["x [lib].mp4"]);
    assert!(s.batch_fits(&request, &library));
    let answer = s
        .create_playlist_tasks_at(&mut ids, &request, &library, 77, "now")
        .ok()
        .unwrap();
    assert_eq!(answer.created_count, 4);
    assert_eq!(answer.parent_task_id.as_deref(), Some("task_77_1"));
    let made: Vec<&str> = answer.tasks.iter().map(|v| v.id.as_str()).collect();
    assert_eq!(made, vec!["task_77_1", "task_77_2", "task_77_3", "task_77_4"]);
    let p = s.load_task("task_77_1").ok().unwrap();
    assert!(p.task_kind == TaskKind::PlaylistParent);
    assert_eq!(p.child_task_ids, vec!["task_77_2", "task_77_3", "task_77_4"]);
    assert_eq!(p.estimated_size_bytes, Some(35));
    assert_eq!(p.title, "A list");
    let c = s.load_task("task_77_3").ok().unwrap();
    assert_eq!(c.parent_task_id.as_deref(), Some("task_77_1"));
    assert_eq!(c.video_id.as_deref(), Some("b"));
    assert_eq!(
        writes(&mut s),
        vec![
            "task task_77_1",
            "task task_77_2",
            "queue task_77_2",
            "task task_77_3",
            "queue task_77_2,task_77_3",
            "task task_77_4",
            "queue task_77_2,task_77_3,task_77_4"
        ]
    );
    let nothing = s.create_playlist_tasks_from_request(
        &mut ids,
        &playlist(vec![entry(Some("youtube"), Some("a"), None)]),
        &library,
    );
    assert!(matches!(nothing, Err(StoreError::NothingNew)));
}

#[test]
fn playlists_are_refused() {
    let mut s = store(vec![], &[]);
    let mut ids = TaskIds::new();
    assert!(matches!(
        s.create_playlist_tasks_from_request(&mut ids, &playlist(vec![]), &names(&[])),
        Err(StoreError::NoEntries)
    ));
    let mut no_list = playlist(vec![entry(None, None, None)]);
    no_list.resolved.is_playlist = false;
    assert!(matches!(
        s.create_playlist_tasks_from_request(&mut ids, &no_list, &names(&[])),
        Err(StoreError::NotPlaylist)
    ));
    assert_eq!(
        StoreError::NotPlaylist.message(""),
        "playlist batch creation requires a playlist resolve result"
    );
    assert_eq!(
        StoreError::NothingNew.message(""),
        "all playlist entries already exist in the queue or download library"
    );
    let huge = playlist(vec![entry(None, None, Some(u64::MAX)), entry(None, None, Some(1))]);
    assert!(!s.batch_fits(&huge, &names(&[])));
    let mut huge_video = huge;
    huge_video.resolved.is_playlist = false;
    assert!(s.batch_fits(&huge_video, &names(&[])));
    assert!(matches!(
        s.create_playlist_tasks_from_request(&mut ids, &huge_video, &names(&[])),
        Err(StoreError::NotPlaylist)
    ));
}

#[test]
fn only_new_items_are_kept() {
    let mut t = single("a", TaskState::Completed);
    t.extractor = Some("e".to_string());
    t.video_id = Some("old".to_string());
    let kept = select_entries(
        &vec![
            entry(Some("e"), Some("old"), None),
            entry(Some("e"), Some("1"), None),
            entry(Some("e"), Some("1"), None),
            entry(None, Some("1"), None),
            entry(None, Some("1"), None),
        ],
        &vec![t],
        &names(&[]),
    );
    assert_eq!(kept.len(), 3);
}

#[test]
fn what_is_deleted_is_gone() {
    let tasks = || {
        vec![
            parent("p", &["c1", "c2"]),
            item("c1", "p", TaskState::Completed),
            item("c2", "p", TaskState::Queued),
            single("s", TaskState::Paused),
        ]
    };
    let mut s = store(tasks(), &["c1", "c2", "s"]);
    assert_eq!(s.delete_task("p").ok().unwrap(), vec!["c1", "c2", "p"]);
    assert_eq!(
        writes(&mut s),
        vec!["queue s", "remove c1 true", "remove c2 true", "remove p true"]
    );
    assert!(s.load_task("c1").is_err() && s.load_task("s").is_ok());

    let mut s = store(tasks(), &["c1", "c2", "s"]);
    assert_eq!(s.delete_task("c1").ok().unwrap(), vec!["c1"]);
    assert_eq!(s.load_task("p").ok().unwrap().child_task_ids, vec!["c2"]);
    assert_eq!(s.delete_task("c2").ok().unwrap(), vec!["c2", "p"]);
    assert!(s.load_task("p").is_err());

    let mut s = store(tasks(), &["s"]);
    assert_eq!(s.delete_task("s").ok().unwrap(), vec!["s"]);
    assert_eq!(writes(&mut s), vec!["queue ", "remove s true"]);
}

#[test]
fn running_tasks_are_not_deleted() {
    for state in [TaskState::Downloading, TaskState::Stopping] {
        let mut s = store(vec![single("s", state), item("c", "p", state)], &["s"]);
        assert!(matches!(s.delete_task("s"), Err(StoreError::StopFirst)));
        assert!(matches!(s.delete_task("c"), Err(StoreError::StopFirst)));
        assert!(writes(&mut s).is_empty());
    }
    assert_eq!(StoreError::StopFirst.message(""), "stop the task before deleting it");
    let mut s = store(vec![], &[]);
    assert!(matches!(s.delete_task("x"), Err(StoreError::ReadTask(_))));
}

#[test]
fn a_playlist_reflects_its_items() {
    let check = |states: &[TaskState]| {
        let mut p = parent("p", &[]);
        let children: Vec<TaskRecord> =
            states.iter().enumerate().map(|(i, s)| item(&format!("c{i}"), "p", *s)).collect();
        sync_parent_from_children(&mut p, &children, "now");
        (p.state, p.last_error)
    };
    assert!(check(&[]) == (TaskState::Submitted, None));
    assert!(check(&[TaskState::Completed, TaskState::Completed]) == (TaskState::Completed, None));
    assert_eq!(
        check(&[TaskState::Completed, TaskState::Stopping]),
        (TaskState::Downloading, Some("已完成 1/2 个子任务".to_string()))
    );
    assert!(check(&[TaskState::Resolving, TaskState::Paused]) == (TaskState::Queued, None));
    assert!(check(&[TaskState::Paused]) == (TaskState::Paused, None));
    assert_eq!(
        check(&[TaskState::Failed, TaskState::Canceled, TaskState::Completed]),
        (TaskState::Failed, Some("2/3 个子任务失败".to_string()))
    );
}

#[test]
fn sizes_are_summed_until_one_is_unknown() {
    assert_eq!(sum_sizes(&vec![]), Some(0));
    assert_eq!(sum_sizes(&vec![Some(1), Some(2)]), Some(3));
    assert_eq!(sum_sizes(&vec![Some(1), None, Some(2)]), None);
    assert!(do_sizes_fit(&vec![Some(u64::MAX), None, Some(1)]));
    assert!(!do_sizes_fit(&vec![Some(u64::MAX), Some(1), None]));
}

#[test]
fn only_playlists_that_differ_are_refreshed() {
    let mut c = item("c", "p", TaskState::Completed);
    c.output_files = strings(&["a.mp4"]);
    c.estimated_size_bytes = Some(5);
    let mut s = store(vec![parent("p", &["c", "gone"]), c, single("x", TaskState::Queued)], &[]);
    assert!(s.families_fit());
    let changed = s.refresh_playlist_parents();
    assert_eq!(ids(&changed), vec!["p"]);
    assert!(changed[0].state == TaskState::Completed);
    assert_eq!(changed[0].output_files, vec!["a.mp4"]);
    assert_eq!(changed[0].estimated_size_bytes, Some(5));
    assert_eq!(writes(&mut s), vec!["task p"]);
    assert!(s.families_fit());
    assert!(s.refresh_playlist_parents().is_empty());
    assert!(writes(&mut s).is_empty());
}

#[test]
fn moves_reach_every_task() {
    let mut t = single("a", TaskState::Completed);
    t.target_subdir = "old".to_string();
    t.output_dir_relative = "old/deep".to_string();
    t.output_files = strings(&["old/deep/x.mp4", "older/y.mp4"]);
    let mut s = store(vec![t, single("b", TaskState::Completed)], &[]);
    let moved = vec![PathChange { from: "old".to_string(), to: "new/place".to_string() }];
    let changed = s.remap_paths(&moved);
    assert_eq!(ids(&changed), vec!["a"]);
    assert_eq!(changed[0].target_subdir, "new/place");
    assert_eq!(changed[0].output_dir_relative, "new/place/deep");
    assert_eq!(changed[0].output_files, vec!["new/place/deep/x.mp4", "older/y.mp4"]);
    assert_eq!(writes(&mut s), vec!["task a"]);
    assert!(s.remap_paths(&vec![]).is_empty());
    assert_eq!(remap_relative_path("old", &moved).as_deref(), Some("new/place"));
    assert_eq!(remap_relative_path("olds", &moved), None);
}

#[test]
fn no_task_claims_a_deleted_file() {
    let mut t = single("a", TaskState::Completed);
    t.output_files = strings(&["d/x.mp4", "d.mp4", "e/y.mp4"]);
    let mut s = store(vec![t], &[]);
    let changed = s.prune_deleted_paths(&strings(&["d", "e/y.mp4"]));
    assert_eq!(changed[0].output_files, vec!["d.mp4"]);
    assert!(s.prune_deleted_paths(&strings(&["d"])).is_empty());
    assert!(s.prune_deleted_paths(&vec![]).is_empty());
}

#[test]
fn tasks_download_below_the_root() {
    let settings = AppSettings::with_defaults("/downloads".to_string());
    let plain = output_directory(&settings, "  ", false).unwrap();
    assert_eq!(plain.base, "/downloads");
    assert!(plain.segments.is_empty());
    assert_eq!(output_directory(&settings, "Music", false).unwrap().segments, vec!["Music"]);
    assert!(output_directory(&settings, "../x", false).is_none());
    for outside in ["..", "a/../../x", "./../x", "/etc", "/"] {
        assert!(output_directory(&settings, outside, false).is_none(), "{outside}");
        assert!(output_directory(&settings, outside, true).is_none(), "{outside}");
    }
    for outside in ["a\\..\\..\\x", "\\x", "\\\\server\\x", "C:/x", "c:x"] {
        assert!(output_directory(&settings, outside, true).is_none(), "{outside}");
        let place = output_directory(&settings, outside, false).unwrap();
        assert_eq!(place.segments, vec![outside]);
    }
    for inside in ["a/../b", "a\\..\\b", "a/..", " /x", "..x/y", "a//./b", "a/C:/b"] {
        for windows in [false, true] {
            let place = output_directory(&settings, inside, windows).unwrap();
            assert_eq!((place.base.as_str(), place.segments), ("/downloads", vec![inside.to_string()]));
        }
    }
}

#[test]
fn names_are_a_set() {
    let mut set = names(&["a", "b", "a"]);
    assert_eq!(set.names(), &strings(&["a", "b"]));
    set.insert("c".to_string());
    assert!(set.contains("c") && !set.contains("d"));
}

#[test]
fn a_change_is_timed() {
    let mut t = single("a", TaskState::Queued);
    t.update_timestamp();
    assert!(is_timestamp(&t.updated_at));
    assert_eq!(t.created_at, "2026-01-01");
    t.stamp("later");
    assert_eq!(t.updated_at, "later");
}
