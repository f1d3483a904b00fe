//! What is promised to clients.
use vstd::prelude::*;

use crate::command::ArgView;
use crate::json;
use crate::json::JsonView;
use crate::laws::media;
use crate::paths;
use crate::paths::FsPathView;
use crate::tasks::record::{RecordView, TaskKind, TaskState};
use crate::tasks::requests::{EntryView, MediaView, OrderView};
use crate::tasks::resolve;
use crate::tasks::store::StoreView;
use crate::text;
use crate::web::errors::ApiErrorView;
use crate::web::guards;
use crate::web::resolving;

verus! {

// ---------------------------------------------------------------------------
// Files at work
// ---------------------------------------------------------------------------

/// The files of a task are left alone until it is complete, has failed or was canceled.
pub proof fn unfinished_tasks_are_left_alone(state: TaskState)
    ensures
        guards::protected(state) == (match state {
            TaskState::Completed | TaskState::Failed | TaskState::Canceled => false,
            TaskState::Submitted
            | TaskState::Resolving
            | TaskState::Queued
            | TaskState::Downloading
            | TaskState::Stopping
            | TaskState::Paused => true,
        }),
{
}

/// The place lies at the path or below it, neither of them being the root.
pub open spec fn lies_at(place: Seq<char>, path: Seq<char>) -> bool {
    place.len() > 0 && path.len() > 0 && (place == path || text::begins(place, path + "/"@))
}

proof fn lemma_lies_at(place: Seq<char>, path: Seq<char>)
    ensures
        guards::occupies(place, path) <==> lies_at(place, path),
{
    reveal_strlit("/");
    assert("/"@ =~= seq!['/']);
    assert(path.push('/') =~= path + "/"@);
}

/// A task is in the way of a path exactly when its place, the directory of its files or one of its
/// files lies at the path or below it.
pub proof fn a_task_is_in_the_way_of_its_files(path: Seq<char>, task: RecordView)
    ensures
        guards::touches(path, task) <==> lies_at(task.target_subdir, path) || lies_at(
            task.output_dir_relative,
            path,
        ) || exists|i: int|
            0 <= i < task.output_files.len() && lies_at(#[trigger] task.output_files[i], path),
{
    lemma_lies_at(task.target_subdir, path);
    lemma_lies_at(task.output_dir_relative, path);
    assert forall|i: int| 0 <= i < task.output_files.len() implies guards::occupies(
        #[trigger] task.output_files[i],
        path,
    ) == lies_at(task.output_files[i], path) by {
        lemma_lies_at(task.output_files[i], path);
    }
    if exists|i: int|
        0 <= i < task.output_files.len() && lies_at(#[trigger] task.output_files[i], path) {
        let i = choose|i: int|
            0 <= i < task.output_files.len() && lies_at(#[trigger] task.output_files[i], path);
        assert(guards::occupies(task.output_files[i], path));
    }
    if exists|i: int|
        0 <= i < task.output_files.len() && guards::occupies(
            #[trigger] task.output_files[i],
            path,
        ) {
        let i = choose|i: int|
            0 <= i < task.output_files.len() && guards::occupies(
                #[trigger] task.output_files[i],
                path,
            );
        assert(lies_at(task.output_files[i], path));
    }
}

/// A task is in the way of what was named as it was typed, as it is kept, or as that reads once
/// more, by its places as they were typed or as they are kept.
pub open spec fn in_the_way(target: Seq<char>, task: RecordView) -> bool {
    let tidy = RecordView {
        target_subdir: paths::normalized(task.target_subdir),
        output_dir_relative: paths::normalized(task.output_dir_relative),
        ..task
    };
    let once = paths::normalized(target);
    let twice = paths::normalized(once);
    guards::touches(target, task) || guards::touches(once, task) || guards::touches(once, tidy)
        || guards::touches(twice, task) || guards::touches(twice, tidy)
}

/// A task blocks a change exactly when it is neither complete nor failed nor canceled and is in
/// the way of something that was named.
pub proof fn unfinished_tasks_in_the_way_block(task: RecordView, targets: Seq<Seq<char>>)
    ensures
        guards::blocks(task, targets) <==> task.state != TaskState::Completed && task.state
            != TaskState::Failed && task.state != TaskState::Canceled && exists|i: int|
            0 <= i < targets.len() && in_the_way(#[trigger] targets[i], task),
{
    assert forall|i: int| 0 <= i < targets.len() implies guards::names_work(
        #[trigger] targets[i],
        task,
    ) == in_the_way(targets[i], task) by {}
    if exists|i: int| 0 <= i < targets.len() && in_the_way(#[trigger] targets[i], task) {
        let i = choose|i: int| 0 <= i < targets.len() && in_the_way(#[trigger] targets[i], task);
        assert(guards::names_work(targets[i], task));
    }
}

/// A change is refused for the first task that blocks it, which the message names; other tasks
/// never refuse it.
pub proof fn a_change_waits_for_unfinished_tasks(
    tasks: Seq<RecordView>,
    task: RecordView,
    targets: Seq<Seq<char>>,
)
    ensures
        guards::first_blocking(Seq::empty(), targets) is None,
        guards::first_blocking(tasks.push(task), targets) == (if guards::first_blocking(
            tasks,
            targets,
        ) is Some {
            guards::first_blocking(tasks, targets)
        } else if guards::blocks(task, targets) {
            Some(task)
        } else {
            None
        }),
        guards::occupied_message(task) == "所选条目仍被任务占用: "@ + task.title + " ("@
            + task.id + ")"@,
    decreases tasks.len(),
{
    if tasks.len() > 0 {
        let rest = tasks.skip(1);
        a_change_waits_for_unfinished_tasks(rest, task, targets);
        assert(tasks.push(task).skip(1) =~= rest.push(task));
        assert(tasks.push(task)[0] == tasks[0]);
    } else {
        assert(tasks.push(task)[0] == task);
        assert(tasks.push(task).skip(1) =~= Seq::<RecordView>::empty());
    }
}

/// An order that names no cookies gets those of the settings; one that does keeps its own. Nothing
/// else of it changes.
pub proof fn default_cookies_are_filled_in(order: OrderView, default: Option<Seq<char>>)
    ensures
        order.cookie_file_name is Some ==> guards::with_default_cookies(order, default) == order,
        order.cookie_file_name is None ==> guards::with_default_cookies(order, default) == (
        OrderView { cookie_file_name: default, ..order }),
{
}

/// Before a task is deleted its download is stopped, or those of the items of a playlist; and what
/// is left behind by every one of them that is not complete is cleaned up.
pub proof fn deletions_stop_and_clean_up(
    store: StoreView,
    task: RecordView,
    task_id: Seq<char>,
    ids: Seq<Seq<char>>,
    id: Seq<char>,
)
    ensures
        task.task_kind == TaskKind::PlaylistParent ==> guards::downloads_of(task, task_id)
            == task.child_task_ids && store.leftovers(task) == store.incomplete(
            task.child_task_ids,
        ),
        task.task_kind != TaskKind::PlaylistParent ==> guards::downloads_of(task, task_id) == seq![
            task_id,
        ],
        task.task_kind != TaskKind::PlaylistParent && task.state == TaskState::Completed
            ==> store.leftovers(task).len() == 0,
        task.task_kind != TaskKind::PlaylistParent && task.state != TaskState::Completed
            ==> store.leftovers(task) == seq![task],
        store.incomplete(Seq::empty()).len() == 0,
        store.incomplete(ids.push(id)) == (match store.task(id) {
            Ok(item) if item.state != TaskState::Completed => store.incomplete(ids).push(item),
            _ => store.incomplete(ids),
        }),
{
    assert(ids.push(id).drop_last() =~= ids);
}

/// What is wrong with a request is told apart from what went wrong on the way.
pub proof fn errors_have_a_status(message: Seq<char>)
    ensures
        ApiErrorView::bad_request(message) == (ApiErrorView {
            status: 400,
            code: "BAD_REQUEST"@,
            message,
        }),
        ApiErrorView::internal(message) == (ApiErrorView {
            status: 500,
            code: "INTERNAL_ERROR"@,
            message,
        }),
{
}

// ---------------------------------------------------------------------------
// Looking up a URL
// ---------------------------------------------------------------------------

/// A look-up is refused exactly when the URL is blank, or when there is no program for it. Nothing
/// is downloaded by it, and a playlist is first looked up without its items.
pub proof fn a_look_up_is_prepared(url: Seq<char>, program: Option<FsPathView>)
    ensures
        resolving::lookup_fault(url, program) == (if text::trimmed(url).len() == 0 {
            Some(ApiErrorView::bad_request("URL cannot be empty"@))
        } else if program is None {
            Some(ApiErrorView::bad_request("yt-dlp is not configured"@))
        } else {
            None
        }),
        resolving::lookup_args(url, false) == seq![
            ArgView::Text("--dump-single-json"@),
            ArgView::Text("--skip-download"@),
            ArgView::Text("--no-warnings"@),
            ArgView::Text(url),
        ],
        resolving::lookup_args(url, true) == seq![
            ArgView::Text("--flat-playlist"@),
            ArgView::Text("--dump-single-json"@),
            ArgView::Text("--skip-download"@),
            ArgView::Text("--no-warnings"@),
            ArgView::Text(url),
        ],
{
    assert(resolving::lookup_args(url, false) =~= seq![
        ArgView::Text("--dump-single-json"@),
        ArgView::Text("--skip-download"@),
        ArgView::Text("--no-warnings"@),
        ArgView::Text(url),
    ]);
    assert(resolving::lookup_args(url, true) =~= seq![
        ArgView::Text("--flat-playlist"@),
        ArgView::Text("--dump-single-json"@),
        ArgView::Text("--skip-download"@),
        ArgView::Text("--no-warnings"@),
        ArgView::Text(url),
    ]);
}

/// A look-up that failed is answered with what the program complained of, and one whose document
/// cannot be read with the reason.
pub proof fn a_look_up_that_fails_is_explained(
    success: bool,
    document: Result<JsonView, Seq<char>>,
    complaint: Seq<char>,
)
    ensures
        resolving::scan_result(success, document, complaint) == (if success && document is Ok {
            Ok::<JsonView, ApiErrorView>(document->Ok_0)
        } else if success {
            Err(ApiErrorView::internal(document->Err_0))
        } else if text::trimmed(complaint).len() == 0 {
            Err(ApiErrorView::bad_request("yt-dlp resolve failed"@))
        } else {
            Err(ApiErrorView::bad_request(text::trimmed(complaint)))
        }),
        resolving::lookup_document(success, document) == (if success && document is Ok {
            Some(document->Ok_0)
        } else {
            None
        }),
{
}

/// The item of a playlist is looked up at the address that its short entry states, if that is a web
/// address, else at that of the video on YouTube, where it is one, else at that of the playlist.
pub proof fn an_item_is_looked_up_at_its_address(url: Seq<char>, flat: JsonView)
    ensures
        ({
            let stated = media::text_of_either(flat, "webpage_url"@, "url"@);
            let extractor = media::text_of_either(flat, "ie_key"@, "extractor"@);
            let id = media::text_of(flat, "id"@);
            resolving::flat_address(url, flat) == (if stated is Some && (text::begins(
                stated->0,
                "http://"@,
            ) || text::begins(stated->0, "https://"@)) {
                stated->0
            } else if extractor is Some && text::occurs(text::lowered(extractor->0), "youtube"@)
                && id is Some {
                "https://www.youtube.com/watch?v="@ + id->0
            } else {
                url
            })
        }),
{
}

/// Each item is what its own look-up says of it; where that failed or says nothing, it is what the
/// short entry says. The list holds what its document lists, and the playlist is otherwise what its
/// own document says.
pub proof fn an_item_is_what_its_look_up_says(
    url: Seq<char>,
    flat: JsonView,
    found: Option<JsonView>,
    entries: Seq<EntryView>,
)
    ensures
        ({
            let e = resolving::looked_up(url, flat, found);
            let stated = media::text_of_either(flat, "webpage_url"@, "url"@);
            &&& found is Some && found->0 is Object ==> Some(e) == resolve::entry_in(url, found->0)
            &&& !(found is Some && found->0 is Object) ==> {
                &&& stated is Some && (text::begins(stated->0, "http://"@) || text::begins(
                    stated->0,
                    "https://"@,
                )) ==> e.source_url == stated->0
                &&& !(stated is Some && (text::begins(stated->0, "http://"@) || text::begins(
                    stated->0,
                    "https://"@,
                ))) ==> e.source_url == resolving::flat_address(url, flat)
                &&& media::text_of(flat, "title"@) is Some ==> Some(e.title) == media::text_of(
                    flat,
                    "title"@,
                )
                &&& media::text_of(flat, "title"@) is None ==> e.title == "Untitled"@
                &&& e.extractor == media::text_of_either(flat, "ie_key"@, "extractor"@)
                &&& e.video_id == media::text_of(flat, "id"@)
                &&& e.uploader == media::text_of_either(flat, "uploader"@, "channel"@)
                &&& e.duration_seconds == media::number_of(flat, "duration"@)
                &&& e.thumbnail_url == media::text_of(flat, "thumbnail"@)
                &&& e.estimated_size_bytes == media::number_of_either(
                    flat,
                    "filesize_approx"@,
                    "filesize"@,
                )
                &&& e.playlist_index == media::number_of_either(
                    flat,
                    "playlist_index"@,
                    "playlist_autonumber"@,
                )
            }
            &&& resolving::with_entries(url, flat, entries) == (MediaView {
                entries,
                ..resolve::media_in(url, flat)
            })
            &&& json::member(flat, "entries"@) matches Some(JsonView::Array(items))
                ==> resolving::listed(flat) == items
            &&& !(json::member(flat, "entries"@) matches Some(JsonView::Array(_)))
                ==> resolving::listed(flat).len() == 0
        }),
{
    media::an_item_is_what_its_object_says(url, flat);
    if found is Some {
        media::an_item_is_what_its_object_says(url, found->0);
    }
}

}
