use youtudlp_bridge::command::CommandArg;
use youtudlp_bridge::events::{change_events, line_events, EventData, ServerEvent};
use youtudlp_bridge::library::changes::{
    create_folder, move_destination, new_folder_place, rename_item, rename_target,
    resolve_relative_path, DeleteLook, DeleteRun, ItemKind, MoveLook, MoveRun,
};
use youtudlp_bridge::library::errors::LibraryError;
use youtudlp_bridge::library::opening::{open_command, open_folder, open_item, System};
use youtudlp_bridge::library::places::{
    base_name, dedupe_paths, parent_folder, place_below, validate_folder_name,
};
use youtudlp_bridge::library::requests::{
    CreateFolderRequest, DeleteItemsRequest, MoveItemsRequest, RenameItemRequest,
};
use youtudlp_bridge::library::tree::{
    build_tree, collect_filenames, should_hide, LibraryNode, ScannedEntry,
};
use youtudlp_bridge::paths::FsPath;
use youtudlp_bridge::settings::AppSettings;
use youtudlp_bridge::tasks::record::{TaskKind, TaskRecord, TaskState, TaskView};
use youtudlp_bridge::tasks::requests::{CreateTaskRequest, ResolvedMedia};
use youtudlp_bridge::tasks::store::{FileContent, TaskFile, TaskStore};
use youtudlp_bridge::tools::{ToolRegistry, ToolStatus};
use youtudlp_bridge::web::guards::{
    ensure_paths_not_in_active_tasks, fill_cookies, ids_to_stop, is_protected_task_state,
    is_same_or_descendant, path_intersects_task, stops_again, tasks_to_clean,
};

fn strings(list: &[&str]) -> Vec<String> {
    list.iter().map(|s| s.to_string()).collect()
}

fn file(path: &str, size: u64) -> ScannedEntry {
    ScannedEntry {
        name: path.rsplit('/').next().unwrap().to_string(),
        exact: true,
        path: Some(path.to_string()),
        is_dir: false,
        size: Some(size),
        children: Vec::new(),
    }
}

fn folder(path: &str, children: Vec<ScannedEntry>) -> ScannedEntry {
    ScannedEntry { is_dir: true, size: None, children, ..file(path, 0) }
}

fn outline(nodes: &[LibraryNode]) -> Vec<String> {
    let mut lines = Vec::new();
    for node in nodes {
        lines.push(format!("{} {} {:?}", node.item_type, node.relative_path, node.size_bytes));
        lines.extend(outline(&node.children));
    }
    lines
}

fn text_of<T>(result: Result<T, LibraryError>) -> String {
    match result {
        Err(error) => error.message(),
        Ok(_) => panic!("it is refused"),
    }
}

fn task(id: &str, state: TaskState, subdir: &str, files: &[&str]) -> TaskRecord {
    TaskRecord {
        id: id.to_string(),
        task_kind: TaskKind::Single,
        source_url: String::new(),
        parent_task_id: None,
        child_task_ids: Vec::new(),
        extractor: None,
        video_id: None,
        title: format!("title of {id}"),
        playlist_title: None,
        playlist_index: None,
        uploader: None,
        duration_seconds: None,
        thumbnail_url: None,
        estimated_size_bytes: None,
        target_subdir: subdir.to_string(),
        output_dir_relative: subdir.to_string(),
        download_mode: String::new(),
        quality: String::new(),
        container: String::new(),
        subtitle_languages: Vec::new(),
        cookie_file_name: None,
        cookie_browser: None,
        cookie_browser_profile: None,
        raw_args: Vec::new(),
        raw_format_code: None,
        created_at: String::new(),
        state,
        updated_at: String::new(),
        output_files: strings(files),
        last_error: None,
    }
}

fn store(tasks: Vec<TaskRecord>) -> TaskStore {
    let files = tasks
        .into_iter()
        .map(|t| TaskFile { name: t.id.clone(), content: FileContent::Task(t) })
        .collect();
    TaskStore::read(FsPath::new("/t"), FsPath::new("/q"), files, None)
}

#[test]
fn unfinished_and_hidden_items_are_not_shown() {
    for name in ["a.part", "a.ytdl", "a.temp", "a.frag12.x", "a.info.json"] {
        assert!(should_hide(name, false));
        assert!(!should_hide(name, true));
    }
    assert!(should_hide(".git", true) && !should_hide(".git", false));
    assert!(!should_hide("a.mp4", false));
}

#[test]
fn the_tree_shows_folders_first_in_any_script() {
    let entries = vec![
        file("b.mp4", 1),
        file("A.mp4", 2),
        file("x.part", 3),
        folder("Ärger", Vec::new()),
        folder("älter", vec![file("älter/Z.mp4", 4), folder("älter/.cache", Vec::new())]),
        folder("zoo", Vec::new()),
        folder(".hidden", vec![file(".hidden/y.mp4", 5)]),
    ];
    let tree = build_tree("/dl".to_string(), &entries);
    assert_eq!(tree.root_path, "/dl");
    // In code points "Ä" comes before "ä"; in lower case "älter" comes before "ärger".
    assert_eq!(
        outline(&tree.nodes),
        vec![
            "directory zoo None",
            "directory älter None",
            "file älter/Z.mp4 Some(4)",
            "directory Ärger None",
            "file A.mp4 Some(2)",
            "file b.mp4 Some(1)",
        ]
    );
}

#[test]
fn places_outside_the_root_are_shown_as_nothing() {
    let mut odd = file("a.mp4", 1);
    odd.path = None;
    let mut back = file("b.mp4", 1);
    back.path = Some("x\\b.mp4".to_string());
    let tree = build_tree(String::new(), &vec![odd, back]);
    assert_eq!(outline(&tree.nodes), vec!["file  Some(1)", "file x/b.mp4 Some(1)"]);
}

#[test]
fn file_names_are_collected_from_all_folders() {
    let mut odd = file("odd", 1);
    odd.exact = false;
    let names = collect_filenames(&vec![
        file("b", 1),
        folder(".d", vec![file(".d/c.part", 1), file(".d/b", 1), folder(".d/e", vec![file(".d/e/f", 1)])]),
        odd,
    ]);
    assert_eq!(names.names(), &strings(&["b", "c.part", "f"]));
}

#[test]
fn folder_names_are_checked() {
    assert_eq!(validate_folder_name("  a b ", false).ok().unwrap(), "a b");
    assert_eq!(text_of(validate_folder_name(" ", false)), "目录名不能为空");
    assert_eq!(text_of(validate_folder_name(" .. ", false)), "目录名无效");
    assert_eq!(text_of(validate_folder_name(".", false)), "目录名无效");
    assert_eq!(text_of(validate_folder_name("a/b", false)), "目录名不能包含路径分隔符");
    assert_eq!(text_of(validate_folder_name("a\\b", false)), "目录名不能包含路径分隔符");
    for name in ["<", ">", "a:", "\"", "|", "?", "*"] {
        assert!(validate_folder_name(name, false).is_ok());
        assert_eq!(text_of(validate_folder_name(name, true)), "目录名包含 Windows 不支持的字符");
    }
}

#[test]
fn typed_paths_are_resolved() {
    assert_eq!(resolve_relative_path(" a\\./b/ ", false).ok().unwrap(), "a/b");
    assert_eq!(resolve_relative_path("", false).ok().unwrap(), "");
    assert_eq!(text_of(resolve_relative_path("/a", false)), "路径必须限制在下载根目录内");
    assert_eq!(text_of(resolve_relative_path("a/../b", false)), "路径必须限制在下载根目录内");
    assert!(resolve_relative_path("C:", false).is_ok());
    assert_eq!(text_of(resolve_relative_path("C:\\x", true)), "路径必须限制在下载根目录内");
}

#[test]
fn items_are_taken_once() {
    assert_eq!(
        dedupe_paths(&strings(&["b", "a/x", "a", "b/", " ", "a.b", "a\\x\\y"]), false).unwrap(),
        strings(&["a", "a.b", "b"])
    );
    assert!(dedupe_paths(&strings(&["a", "../b"]), false).is_none());
}

#[test]
fn a_place_lies_in_its_folder() {
    assert_eq!(place_below("", "a"), "a");
    assert_eq!(place_below("a/b", "c"), "a/b/c");
    assert_eq!((parent_folder("a/b/c"), base_name("a/b/c")), ("a/b".to_string(), "c".to_string()));
    assert_eq!((parent_folder("a"), base_name("a")), (String::new(), "a".to_string()));
}

#[test]
fn a_folder_is_made() {
    let request = |name: &str| CreateFolderRequest {
        parent_path: "a".to_string(),
        folder_name: name.to_string(),
    };
    let place = new_folder_place("a", true, &request(" new "), false).ok().unwrap();
    assert_eq!(place, "a/new");
    let answer = create_folder(place.clone(), false).ok().unwrap();
    assert_eq!(answer.changed_paths, strings(&["a/new"]));
    assert!(answer.moved.is_empty() && answer.deleted.is_empty());
    assert_eq!(text_of(create_folder(place, true)), "同名目录已存在");
    assert_eq!(
        text_of(new_folder_place("a", false, &request(""), false)),
        "目标父目录不存在或不是目录"
    );
    assert_eq!(text_of(new_folder_place("a", true, &request(""), false)), "目录名不能为空");
}

fn moving(sources: &[&str], destination: &str) -> MoveItemsRequest {
    MoveItemsRequest {
        source_paths: strings(sources),
        destination_dir: destination.to_string(),
    }
}

#[test]
fn items_are_moved() {
    let request = moving(&["x/b.mp4", "a", "a/c"], " to ");
    let destination = move_destination(&request, false).ok().unwrap();
    assert_eq!(destination, "to");
    let mut run = MoveRun::begin(&request, destination, true, None, false).ok().unwrap();
    let mut seen = Vec::new();
    loop {
        match run.look() {
            MoveLook::Done => break,
            MoveLook::Refused(error) => panic!("{}", error.message()),
            MoveLook::Look { source, target } => {
                assert!(run.judge(&source, &target, Some(ItemKind::Folder), false, "").is_ok());
                seen.push((source, target.clone().unwrap()));
                run.note(target.unwrap());
            }
        }
    }
    assert_eq!(
        seen,
        vec![
            ("a".to_string(), "to/a".to_string()),
            ("x/b.mp4".to_string(), "to/b.mp4".to_string())
        ]
    );
    let answer = run.finish();
    assert_eq!(answer.changed_paths, strings(&["a", "to/a", "x/b.mp4", "to/b.mp4"]));
    let moved: Vec<(&str, &str)> =
        answer.moved.iter().map(|c| (c.from.as_str(), c.to.as_str())).collect();
    assert_eq!(moved, vec![("a", "to/a"), ("x/b.mp4", "to/b.mp4")]);
}

#[test]
fn moves_are_refused() {
    assert_eq!(text_of(move_destination(&moving(&[], ".."), false)), "至少选择一个要移动的条目");
    assert_eq!(
        text_of(move_destination(&moving(&["a"], ".."), false)),
        "路径必须限制在下载根目录内"
    );
    let begin = |sources: &[&str], is_folder: bool| {
        MoveRun::begin(&moving(sources, "to"), "to".to_string(), is_folder, None, false)
    };
    assert_eq!(text_of(begin(&["a"], false)), "目标目录不存在或不是目录");
    assert_eq!(text_of(begin(&["../a"], true)), "路径必须限制在下载根目录内");

    let judged = |source: &str, kind: Option<ItemKind>, taken: bool| {
        let run = begin(&[source], true).ok().unwrap();
        match run.look() {
            MoveLook::Look { source, target } => {
                text_of(run.judge(&source, &target, kind, taken, "/dl/to/x"))
            }
            _ => panic!("there is an item"),
        }
    };
    assert_eq!(judged("x", None, true), "条目不存在: x");
    assert_eq!(judged("to/x", Some(ItemKind::File), true), "源路径与目标路径相同: to/x");
    assert_eq!(judged("x", Some(ItemKind::File), true), "目标位置已存在同名条目: /dl/to/x");
    assert_eq!(judged("to", Some(ItemKind::Folder), false), "不能把目录移动到自己的子目录中: to");

    assert_eq!(judged("./ .", Some(ItemKind::Folder), false), "无法识别条目名称:  .");

    let run = begin(&["./ /a"], true).ok().unwrap();
    assert!(matches!(run.look(), MoveLook::Refused(LibraryError::OutsideRoot)));
}

#[test]
fn items_are_deleted() {
    let request = DeleteItemsRequest { target_paths: strings(&["b", "a/x", "a"]) };
    let mut run = DeleteRun::begin(&request, false).ok().unwrap();
    let mut seen = Vec::new();
    loop {
        match run.look() {
            DeleteLook::Done => break,
            DeleteLook::Refused(error) => panic!("{}", error.message()),
            DeleteLook::Look(place) => {
                run.note(if place == "a" { Some(ItemKind::Folder) } else { None });
                seen.push(place);
            }
        }
    }
    assert_eq!(seen, strings(&["a", "b"]));
    let answer = run.finish();
    assert_eq!((answer.changed_paths, answer.deleted), (strings(&["a"]), strings(&["a"])));
    assert!(answer.moved.is_empty());
    let begin = |targets: &[&str]| {
        DeleteRun::begin(&DeleteItemsRequest { target_paths: strings(targets) }, false)
    };
    assert_eq!(text_of(begin(&[])), "至少选择一个要删除的条目");
    assert_eq!(text_of(begin(&["/"])), "路径必须限制在下载根目录内");
    assert!(matches!(begin(&["."]).ok().unwrap().look(), DeleteLook::Done));
}

#[test]
fn a_folder_is_renamed() {
    let request = |name: &str| RenameItemRequest {
        relative_path: "a/b".to_string(),
        new_name: name.to_string(),
    };
    let target = rename_target("a/b", Some(ItemKind::Folder), &request(" c "), false).ok().unwrap();
    assert_eq!(target, "a/c");
    let answer = rename_item("a/b".to_string(), target.clone(), false).ok().unwrap();
    assert_eq!(answer.changed_paths, strings(&["a/b", "a/c"]));
    assert_eq!((answer.moved[0].from.as_str(), answer.moved[0].to.as_str()), ("a/b", "a/c"));
    assert_eq!(text_of(rename_item("a/b".to_string(), target, true)), "同名条目已存在");
    assert_eq!(text_of(rename_target("a/b", None, &request("c"), false)), "条目不存在");
    assert_eq!(
        text_of(rename_target("a/b", Some(ItemKind::File), &request("c"), false)),
        "只能重命名文件夹"
    );
    assert_eq!(
        text_of(rename_target("a/b", Some(ItemKind::Folder), &request("."), false)),
        "目录名无效"
    );
    assert_eq!(rename_target("top", Some(ItemKind::Folder), &request("c"), false).ok().unwrap(), "c");
    assert_eq!(
        text_of(rename_target("", Some(ItemKind::Folder), &request("c"), false)),
        "路径必须限制在下载根目录内"
    );
}

#[test]
fn items_and_folders_are_opened() {
    assert_eq!(open_item("a".to_string(), true).ok().unwrap().opened_path, "a");
    assert_eq!(text_of(open_item("a".to_string(), false)), "条目不存在");
    let opened = |place: &str, kind: Option<ItemKind>| {
        open_folder(place.to_string(), kind).map(|answer| answer.opened_path)
    };
    assert_eq!(opened("a/b", Some(ItemKind::Folder)).ok().unwrap(), "a/b");
    assert_eq!(opened("a/b", Some(ItemKind::File)).ok().unwrap(), "a");
    assert_eq!(opened("a", Some(ItemKind::File)).ok().unwrap(), "");
    assert_eq!(text_of(opened("a", None)), "条目不存在");
    assert_eq!(text_of(opened("", Some(ItemKind::File))), "路径必须限制在下载根目录内");
}

#[test]
fn the_system_opens_places() {
    let place = FsPath::new("/dl").join("a");
    let command = |system: System, folder: bool| {
        let (program, args) = open_command(system, folder, &place, "/dl/a");
        let args: Vec<String> = args
            .iter()
            .map(|arg| match arg {
                CommandArg::Text(s) => s.clone(),
                CommandArg::Path(p) => format!("{}|{}", p.base, p.segments.join("|")),
            })
            .collect();
        (program, args)
    };
    assert_eq!(command(System::Windows, true), ("explorer".to_string(), strings(&["/dl|a"])));
    assert_eq!(
        command(System::Windows, false),
        ("cmd".to_string(), strings(&["/C", "start", "", "/dl/a"]))
    );
    assert_eq!(command(System::Mac, true), ("open".to_string(), strings(&["/dl|a"])));
    assert_eq!(command(System::Mac, false), ("open".to_string(), strings(&["/dl|a"])));
    assert_eq!(command(System::Other, false), ("xdg-open".to_string(), strings(&["/dl|a"])));
}

#[test]
fn files_at_work_are_guarded() {
    assert!(is_same_or_descendant("a/b", "a") && is_same_or_descendant("a", "a"));
    assert!(!is_same_or_descendant("ab", "a") && !is_same_or_descendant("", ""));
    let t = task("t", TaskState::Downloading, "m/n", &["o/f.mp4"]);
    assert!(path_intersects_task("m", &t) && path_intersects_task("o", &t));
    assert!(!path_intersects_task("m/n/x", &t) && !path_intersects_task("", &t));
    for (state, guarded) in [
        (TaskState::Submitted, true),
        (TaskState::Resolving, true),
        (TaskState::Queued, true),
        (TaskState::Downloading, true),
        (TaskState::Stopping, true),
        (TaskState::Paused, true),
        (TaskState::Completed, false),
        (TaskState::Failed, false),
        (TaskState::Canceled, false),
    ] {
        assert_eq!(is_protected_task_state(state), guarded);
        let mut s = store(vec![task("done", TaskState::Completed, "m", &[]), task("t", state, "m", &[])]);
        let answer = ensure_paths_not_in_active_tasks(&mut s, &strings(&["x", "m"]));
        if guarded {
            let error = answer.err().unwrap();
            assert_eq!(error.status, 400);
            assert_eq!(error.message, "所选条目仍被任务占用: title of t (t)");
        } else {
            assert!(answer.is_ok());
        }
        assert!(ensure_paths_not_in_active_tasks(&mut s, &strings(&["x"])).is_ok());
    }
}

#[test]
fn files_at_work_are_guarded_however_they_are_typed() {
    let mut s = store(vec![task("t", TaskState::Downloading, "Music", &[])]);
    for typed in ["Music/", "./Music", " Music ", "\\Music\\", "Music//.", "./ Music"] {
        let error = ensure_paths_not_in_active_tasks(&mut s, &strings(&[typed])).err().unwrap();
        assert_eq!(error.status, 400);
        assert_eq!(error.message, "所选条目仍被任务占用: title of t (t)");
    }
    for typed in ["Music/deep", "Musical", "", "."] {
        assert!(ensure_paths_not_in_active_tasks(&mut s, &strings(&[typed])).is_ok());
    }
    let mut s = store(vec![task("t", TaskState::Downloading, "Music", &["Music/song.mp3 "])]);
    for typed in ["Music/song.mp3 ", "Music/song.mp3 /"] {
        assert!(ensure_paths_not_in_active_tasks(&mut s, &strings(&[typed])).is_err());
    }
    assert!(ensure_paths_not_in_active_tasks(&mut s, &strings(&["Music/song.mp3"])).is_ok());
    for place in ["Music\\Live", "./Music", "Music/"] {
        let mut s = store(vec![task("t", TaskState::Downloading, place, &[])]);
        assert!(ensure_paths_not_in_active_tasks(&mut s, &strings(&["Music"])).is_err());
    }
}

#[test]
fn orders_use_the_default_cookies() {
    let mut settings = AppSettings::with_defaults("/dl".to_string());
    settings.default_cookie_file_name = Some("d.txt".to_string());
    let order = |cookies: Option<&str>| CreateTaskRequest {
        source_url: String::new(),
        target_subdir: String::new(),
        download_mode: String::new(),
        quality: String::new(),
        container: String::new(),
        subtitle_languages: Vec::new(),
        cookie_file_name: cookies.map(String::from),
        raw_args: Vec::new(),
        raw_format_code: None,
        resolved: ResolvedMedia {
            source_url: String::new(),
            title: String::new(),
            extractor: None,
            video_id: None,
            uploader: None,
            duration_seconds: None,
            thumbnail_url: None,
            estimated_size_bytes: None,
            is_playlist: false,
            playlist_title: None,
            playlist_count: None,
            entries: Vec::new(),
            available_qualities: Vec::new(),
            available_subtitles: Vec::new(),
        },
    };
    let mut plain = order(None);
    fill_cookies(&mut plain, &settings);
    assert_eq!(plain.cookie_file_name.as_deref(), Some("d.txt"));
    let mut own = order(Some("own.txt"));
    fill_cookies(&mut own, &settings);
    assert_eq!(own.cookie_file_name.as_deref(), Some("own.txt"));
}

#[test]
fn deletions_stop_and_clean_up() {
    let mut p = task("p", TaskState::Queued, "", &[]);
    p.task_kind = TaskKind::PlaylistParent;
    p.child_task_ids = strings(&["a", "b", "gone"]);
    let a = task("a", TaskState::Completed, "", &[]);
    let b = task("b", TaskState::Paused, "", &[]);
    assert_eq!(ids_to_stop(&p, "p"), strings(&["a", "b", "gone"]));
    assert_eq!(ids_to_stop(&a, "asked"), strings(&["asked"]));
    let s = store(vec![p.clone(), a.clone(), b.clone()]);
    let ids = |t: &TaskRecord| -> Vec<String> {
        tasks_to_clean(&s, t).into_iter().map(|t| t.id).collect()
    };
    assert_eq!(ids(&p), strings(&["b"]));
    assert_eq!(ids(&b), strings(&["b"]));
    assert!(ids(&a).is_empty());
    assert!(stops_again(0, true) && !stops_again(0, false) && !stops_again(1, true));
}

#[test]
fn events_have_names() {
    let view = TaskView::from_record(&task("a", TaskState::Queued, "", &[]), None);
    let event = ServerEvent::task_updated(&view);
    assert_eq!(event.event, "task.updated");
    assert!(event.timestamp.len() > 10);
    assert!(matches!(event.data, EventData::Task(shown) if shown.id == "a"));
    let event = ServerEvent::task_removed("a");
    assert_eq!(event.event, "task.removed");
    assert!(matches!(event.data, EventData::Removed(id) if id == "a"));
    let event = ServerEvent::settings_changed(&AppSettings::with_defaults("/dl".to_string()));
    assert_eq!(event.event, "settings.changed");
    assert!(matches!(event.data, EventData::Settings(s) if s.download_root == "/dl"));
    let event = ServerEvent::library_changed("why", &strings(&["x"]));
    assert_eq!(event.event, "library.changed");
    assert!(matches!(event.data, EventData::Library { reason, paths } if reason == "why" && paths == strings(&["x"])));
    let event = ServerEvent::task_log("a", "[download] 1%");
    assert_eq!(event.event, "task.log");
    assert!(matches!(event.data, EventData::Log { task_id, line } if task_id == "a" && line == "[download] 1%"));
    let event = ServerEvent::playlist_updated(&view);
    assert_eq!(event.event, "playlist.updated");
    assert!(matches!(event.data, EventData::Playlist(shown) if shown.id == "a"));
    let status = |name: &str, place: Option<FsPath>| ToolStatus {
        name: name.to_string(),
        available: place.is_some(),
        source: "sidecar".to_string(),
        path: place,
        version: None,
    };
    let event = ServerEvent::tool_status(&ToolRegistry {
        yt_dlp: status("yt-dlp", Some(FsPath::new("/bin/yt-dlp"))),
        ffmpeg: status("ffmpeg", None),
        ffprobe: status("ffprobe", None),
    });
    assert_eq!(event.event, "tool.status");
    assert!(matches!(event.data, EventData::Tools(tools) if tools.yt_dlp.available
        && tools.yt_dlp.path.as_ref().unwrap().base == "/bin/yt-dlp"
        && tools.ffmpeg.name == "ffmpeg" && !tools.ffprobe.available));
    let event = ServerEvent::app_ready("http://x");
    assert_eq!(event.event, "app.ready");
    assert!(matches!(event.data, EventData::Ready(url) if url == "http://x"));
}

#[test]
fn lines_and_playlists_are_told_of() {
    let view = TaskView::from_record(&task("a", TaskState::Downloading, "", &[]), None);
    let events = line_events(&view, "[download] 2%");
    let told: Vec<&str> = events.iter().map(|event| event.event.as_str()).collect();
    assert_eq!(told, vec!["task.log", "task.updated"]);
    assert!(matches!(&events[0].data, EventData::Log { task_id, line } if task_id == "a" && line == "[download] 2%"));
    assert!(matches!(&events[1].data, EventData::Task(shown) if shown.id == "a"));
    assert_eq!(change_events(&view).len(), 1);
    let mut list = task("p", TaskState::Queued, "", &[]);
    list.task_kind = TaskKind::PlaylistParent;
    let events = change_events(&TaskView::from_record(&list, None));
    let told: Vec<&str> = events.iter().map(|event| event.event.as_str()).collect();
    assert_eq!(told, vec!["task.updated", "playlist.updated"]);
    assert!(matches!(&events[1].data, EventData::Playlist(shown) if shown.id == "p"));
}
