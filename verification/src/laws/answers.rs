//! What is promised of answers: what is asked of a single task, what clients are shown and told,
//! and how refusals are explained.
use vstd::prelude::*;

use crate::clock;
use crate::cookies::CookieError;
use crate::downloads::control;
use crate::downloads::control::{ControlErrorView, ControlOp, RunOutcome, RunView, StepView};
use crate::events::{EventData, ServerEvent};
use crate::tasks::record::{RecordView, TaskKind, TaskState, TaskView};
use crate::tasks::store::{StoreErrorView, StoreView, WriteView};
use crate::text;

verus! {

/// What is asked of a task that is no playlist reaches that task and no other: it is stopped if it
/// is being downloaded, resumed if it was paused or has failed, restarted unless it is being
/// downloaded or stopped; else nothing changes and the request is refused. After that the run is
/// at its end.
pub proof fn a_single_task_is_asked_alone(
    task: RecordView,
    id: Seq<char>,
    op: ControlOp,
    store: StoreView,
    now: Seq<char>,
)
    requires
        task.task_kind != TaskKind::PlaylistParent,
    ensures
        ({
            let next = RunView::begun(task, id, op).advanced(store, now);
            let held = store.task(id)->Ok_0;
            let fits = match op {
                ControlOp::Stop => held.state == TaskState::Downloading,
                ControlOp::Resume => held.state == TaskState::Paused || held.state
                    == TaskState::Failed,
                ControlOp::Restart => held.state != TaskState::Downloading && held.state
                    != TaskState::Stopping,
            };
            let after = match op {
                ControlOp::Stop => RecordView {
                    state: TaskState::Stopping,
                    updated_at: now,
                    ..held
                },
                ControlOp::Resume => RecordView {
                    state: TaskState::Queued,
                    updated_at: now,
                    ..held
                },
                ControlOp::Restart => RecordView {
                    state: TaskState::Queued,
                    last_error: None,
                    output_files: Seq::empty(),
                    updated_at: now,
                    ..held
                },
            };
            &&& store.task(id) is Err ==> next.step == StepView::Refused(
                ControlErrorView::Store(store.task(id)->Err_0),
            ) && next.store == store
            &&& store.task(id) is Ok && !fits ==> next.step == StepView::Refused(
                ControlErrorView::WrongState(op),
            ) && next.store == store
            &&& store.task(id) is Ok && fits ==> {
                &&& next.step == (StepView::Changed { id, task: after })
                &&& op == ControlOp::Stop ==> next.store == store.apply(WriteView::SaveTask(after))
                &&& op != ControlOp::Stop ==> next.store == store.apply(
                    WriteView::SaveTask(after),
                ).appended(held.id, now)
                &&& next.run.advanced(next.store, now).step == StepView::Done
                &&& next.run.advanced(next.store, now).store == next.store
            }
        }),
{
    let run = RunView::begun(task, id, op);
    assert(run.left == seq![id]);
    assert(run.left.skip(1) =~= Seq::<Seq<char>>::empty());
    reveal_with_fuel(RunView::advanced, 2);
}

/// What is asked of a playlist goes to its items, and items that it does not fit are passed over.
pub proof fn a_playlist_hands_on_what_is_asked(
    task: RecordView,
    id: Seq<char>,
    op: ControlOp,
    run: RunView,
    store: StoreView,
    now: Seq<char>,
)
    ensures
        task.task_kind == TaskKind::PlaylistParent ==> RunView::begun(task, id, op) == (RunView {
            op,
            items: true,
            left: task.child_task_ids,
            affected: false,
        }),
        run.left.len() == 0 ==> run.advanced(store, now) == (RunOutcome {
            run,
            store,
            step: if run.affected {
                StepView::Done
            } else {
                StepView::Refused(ControlErrorView::NothingToDo(run.op))
            },
        }),
        run.items && run.left.len() > 0 && store.task(run.left[0]) is Ok && control::controlled(
            store.task(run.left[0])->Ok_0,
            run.op,
            true,
            now,
        ) is None ==> run.advanced(store, now) == (RunView {
            left: run.left.skip(1),
            ..run
        }).advanced(store, now),
        run.left.len() > 0 && store.task(run.left[0]) is Err ==> run.advanced(store, now).step
            == StepView::Refused(ControlErrorView::Store(store.task(run.left[0])->Err_0)),
{
}

/// A client that is told of a change to a task or a playlist is shown it, and one that is told of a
/// line is shown whose it is.
pub proof fn events_say_what_happened(
    event: ServerEvent,
    view: TaskView,
    id: Seq<char>,
    line: Seq<char>,
)
    ensures
        event.updates(view) <==> event.event@ == "task.updated"@ && clock::timestamp(
            event.timestamp@,
        ) && event.data is Task && event.data->Task_0.same_as(view),
        event.updates_playlist(view) <==> event.event@ == "playlist.updated"@ && clock::timestamp(
            event.timestamp@,
        ) && event.data is Playlist && event.data->Playlist_0.same_as(view),
        event.logs(id, line) <==> event.event@ == "task.log"@ && clock::timestamp(
            event.timestamp@,
        ) && (event.data matches EventData::Log { task_id, line: said } && task_id@ == id && said@
            == line),
{
}

/// A client is shown of a task all that is kept of it but for the browser that its cookies come
/// from, and how far it is.
pub proof fn tasks_are_shown_in_full(view: TaskView, other: TaskView)
    ensures
        ({
            let r = view.record();
            &&& r.id == view.id@ && r.task_kind == view.task_kind && r.state == view.state
            &&& r.source_url == view.source_url@ && r.title == view.title@
            &&& r.parent_task_id == text::text_opt(view.parent_task_id)
            &&& r.child_task_ids == text::texts(view.child_task_ids@)
            &&& r.extractor == text::text_opt(view.extractor)
            &&& r.video_id == text::text_opt(view.video_id)
            &&& r.playlist_title == text::text_opt(view.playlist_title)
            &&& r.playlist_index == view.playlist_index
            &&& r.uploader == text::text_opt(view.uploader)
            &&& r.duration_seconds == view.duration_seconds
            &&& r.thumbnail_url == text::text_opt(view.thumbnail_url)
            &&& r.estimated_size_bytes == view.estimated_size_bytes
            &&& r.target_subdir == view.target_subdir@
            &&& r.output_dir_relative == view.output_dir_relative@
            &&& r.download_mode == view.download_mode@ && r.quality == view.quality@
            &&& r.container == view.container@
            &&& r.subtitle_languages == text::texts(view.subtitle_languages@)
            &&& r.cookie_file_name == text::text_opt(view.cookie_file_name)
            &&& r.cookie_browser is None && r.cookie_browser_profile is None
            &&& r.raw_args == text::texts(view.raw_args@)
            &&& r.raw_format_code == text::text_opt(view.raw_format_code)
            &&& r.created_at == view.created_at@ && r.updated_at == view.updated_at@
            &&& r.output_files == text::texts(view.output_files@)
            &&& r.last_error == text::text_opt(view.last_error)
        }),
        view.same_as(other) ==> view.record() == other.record() && view.progress@
            == other.progress@ && text::texts(view.recent_logs@) == text::texts(
            other.recent_logs@,
        ),
{
}

/// Every refusal is explained: of what is asked of tasks and of new ones, and of cookies.
pub proof fn refusals_are_explained(error: StoreErrorView, hint: Seq<char>, shown: Seq<char>)
    ensures
        error is ReadTask ==> error.text(shown) == "failed to read task file "@ + shown,
        error is ParseTask ==> error.text(shown) == "failed to parse task file "@ + shown,
        StoreErrorView::IsPlaylist.text(shown) == "use the batch endpoint to enqueue a playlist"@,
        StoreErrorView::NotPlaylist.text(shown)
            == "playlist batch creation requires a playlist resolve result"@,
        StoreErrorView::NoEntries.text(shown) == "playlist has no resolved entries to enqueue"@,
        StoreErrorView::NothingNew.text(shown)
            == "all playlist entries already exist in the queue or download library"@,
        StoreErrorView::AlreadyExists(hint).text(shown) == "this video already exists: "@ + hint,
        StoreErrorView::StopFirst.text(shown) == "stop the task before deleting it"@,
        ControlErrorView::Store(error).text(shown) == error.text(shown),
        ControlErrorView::WrongState(ControlOp::Stop).text(shown)
            == "task is not currently downloading"@,
        ControlErrorView::WrongState(ControlOp::Resume).text(shown)
            == "task can only be resumed from paused or failed state"@,
        ControlErrorView::WrongState(ControlOp::Restart).text(shown)
            == "stop the task before restarting it"@,
        ControlErrorView::NothingToDo(ControlOp::Stop).text(shown)
            == "playlist has no running or queued child tasks to stop"@,
        ControlErrorView::NothingToDo(ControlOp::Resume).text(shown)
            == "playlist has no paused or failed child tasks to resume"@,
        ControlErrorView::NothingToDo(ControlOp::Restart).text(shown)
            == "playlist has no child tasks eligible for restart"@,
        ControlErrorView::NoProgram.text(shown) == "yt-dlp is not configured"@,
        ControlErrorView::OutsideRoot.text(shown) == "路径必须限制在下载根目录内"@,
        CookieError::EmptyName.text() == "cookie file name cannot be empty"@,
        CookieError::InvalidName.text() == "cookie file name is invalid"@,
        CookieError::EmptyContent.text() == "cookie file content cannot be empty"@,
        CookieError::ProfileWithoutBrowser.text()
            == "cookie browser profile requires a cookie browser"@,
{
}

}
