//! What must not be touched while tasks are at work, and what a deletion has to clean up.
use vstd::prelude::*;

use crate::library::places;
use crate::paths;
use crate::settings::AppSettings;
use crate::tasks::record;
use crate::tasks::record::{RecordView, TaskKind, TaskRecord, TaskState};
use crate::tasks::requests::{CreatePlaylistTasksRequest, CreateTaskRequest, OrderView};
use crate::tasks::store::{StoreView, TaskStore};
use crate::text;
use crate::web::errors::{ApiError, ApiErrorView};

verus! {

// ---------------------------------------------------------------------------
// Files that tasks are at work on
// ---------------------------------------------------------------------------

/// A task in this state is not finished: its files must be left alone.
pub open spec fn protected(state: TaskState) -> bool {
    !(state == TaskState::Completed || state == TaskState::Failed || state == TaskState::Canceled)
}

/// Whether the files of a task in this state must be left alone.
pub fn is_protected_task_state(state: TaskState) -> (r: bool)
    ensures
        r == protected(state),
{
    !(state == TaskState::Completed || state == TaskState::Failed || state == TaskState::Canceled)
}

/// `path` is `ancestor` or lies below it, neither of them being empty.
pub open spec fn occupies(path: Seq<char>, ancestor: Seq<char>) -> bool {
    path.len() > 0 && ancestor.len() > 0 && (path == ancestor || text::begins(
        path,
        ancestor.push('/'),
    ))
}

/// Whether `path` is `ancestor` or lies below it, neither of them being empty.
pub fn is_same_or_descendant(path: &str, ancestor: &str) -> (r: bool)
    ensures
        r == occupies(path@, ancestor@),
{
    if path.is_empty() || ancestor.is_empty() {
        return false;
    }
    if text::same(path, ancestor) {
        return true;
    }
    let mut prefix = ancestor.to_owned();
    prefix.push('/');
    text::starts_with(path, prefix.as_str())
}

/// The task has its place or one of its files at or below `path`.
pub open spec fn touches(path: Seq<char>, task: RecordView) -> bool {
    occupies(task.target_subdir, path) || occupies(task.output_dir_relative, path) || exists|
        i: int,
    |
        0 <= i < task.output_files.len() && occupies(#[trigger] task.output_files[i], path)
}

/// Whether the task has its place or one of its files at or below `path`.
pub fn path_intersects_task(path: &str, task: &TaskRecord) -> (r: bool)
    ensures
        r == touches(path@, task@),
{
    if is_same_or_descendant(task.target_subdir.as_str(), path) || is_same_or_descendant(
        task.output_dir_relative.as_str(),
        path,
    ) {
        return true;
    }
    let ghost files = task@.output_files;
    let mut i: usize = 0;
    while i < task.output_files.len()
        invariant
            i <= task.output_files.len(),
            files == text::texts(task.output_files@),
            files == task@.output_files,
            forall|j: int| 0 <= j < i ==> !occupies(#[trigger] files[j], path@),
        decreases task.output_files.len() - i,
    {
        assert(files[i as int] == task.output_files@[i as int]@);
        if is_same_or_descendant(task.output_files[i].as_str(), path) {
            return true;
        }
        i = i + 1;
    }
    false
}

/// The task, with its places in the form in which paths are kept.
pub open spec fn tidied(task: RecordView) -> RecordView {
    RecordView {
        target_subdir: paths::normalized(task.target_subdir),
        output_dir_relative: paths::normalized(task.output_dir_relative),
        ..task
    }
}

/// The task is at work at or below `place`, however its own places were typed.
pub open spec fn at_work(place: Seq<char>, task: RecordView) -> bool {
    touches(place, task) || touches(place, tidied(task))
}

/// Whether the task is at work at or below `place`, however its own places were typed.
fn is_at_work(place: &str, task: &TaskRecord) -> (r: bool)
    ensures
        r == at_work(place@, task@),
{
    if path_intersects_task(place, task) {
        return true;
    }
    let mut tidy = task.clone();
    tidy.target_subdir = paths::kept_form(task.target_subdir.as_str());
    tidy.output_dir_relative = paths::kept_form(task.output_dir_relative.as_str());
    assert(tidy@ =~= tidied(task@));
    path_intersects_task(place, &tidy)
}

/// A client that names `target` means something that the task is at work on: by the path as it was
/// typed, in the form in which it is kept, or as that form reads once more, which is where an item
/// that is moved or deleted is looked for.
pub open spec fn names_work(target: Seq<char>, task: RecordView) -> bool {
    touches(target, task) || at_work(paths::normalized(target), task) || at_work(
        paths::normalized(paths::normalized(target)),
        task,
    )
}

/// The task stands in the way of a change to these paths, as a client typed them.
pub open spec fn blocks(task: RecordView, targets: Seq<Seq<char>>) -> bool {
    protected(task.state) && exists|i: int|
        0 <= i < targets.len() && names_work(#[trigger] targets[i], task)
}

fn does_block(task: &TaskRecord, targets: &Vec<String>) -> (r: bool)
    ensures
        r == blocks(task@, text::texts(targets@)),
{
    if !is_protected_task_state(task.state) {
        return false;
    }
    let ghost all = text::texts(targets@);
    let mut i: usize = 0;
    while i < targets.len()
        invariant
            i <= targets.len(),
            all == text::texts(targets@),
            protected(task@.state),
            forall|j: int| 0 <= j < i ==> !names_work(#[trigger] all[j], task@),
        decreases targets.len() - i,
    {
        assert(all[i as int] == targets@[i as int]@);
        let place = paths::kept_form(targets[i].as_str());
        let again = paths::kept_form(place.as_str());
        if path_intersects_task(targets[i].as_str(), task) || is_at_work(place.as_str(), task)
            || is_at_work(again.as_str(), task) {
            return true;
        }
        i = i + 1;
    }
    false
}

/// The first task that stands in the way of a change to these paths.
pub open spec fn first_blocking(
    tasks: Seq<RecordView>,
    targets: Seq<Seq<char>>,
) -> Option<RecordView>
    decreases tasks.len(),
{
    if tasks.len() == 0 {
        None
    } else if blocks(tasks[0], targets) {
        Some(tasks[0])
    } else {
        first_blocking(tasks.skip(1), targets)
    }
}

/// What a client is told of a task that stands in the way.
pub open spec fn occupied_message(task: RecordView) -> Seq<char> {
    "所选条目仍被任务占用: "@ + task.title + " ("@ + task.id + ")"@
}

/// Refuses a change to paths that tasks are at work on.
pub fn ensure_paths_not_in_active_tasks(store: &mut TaskStore, target_paths: &Vec<String>) -> (r:
    Result<(), ApiError>)
    ensures
        final(store)@ == old(store)@.swept(),
        match first_blocking(old(store)@.tasks(), text::texts(target_paths@)) {
            Some(task) => r is Err && r->Err_0@ == ApiErrorView::bad_request(
                occupied_message(task),
            ),
            None => r is Ok,
        },
{
    let tasks = store.load_all_tasks();
    let ghost all = record::records_view(tasks@);
    let ghost targets = text::texts(target_paths@);
    let mut i: usize = 0;
    assert(all.skip(0) =~= all);
    while i < tasks.len()
        invariant
            i <= tasks.len(),
            all == record::records_view(tasks@),
            all == old(store)@.tasks(),
            targets == text::texts(target_paths@),
            store@ == old(store)@.swept(),
            first_blocking(all, targets) == first_blocking(all.skip(i as int), targets),
        decreases tasks.len() - i,
    {
        assert(all.skip(i as int)[0] == tasks@[i as int]@);
        assert(all.skip(i as int).skip(1) =~= all.skip(i + 1));
        if does_block(&tasks[i], target_paths) {
            let mut message = "所选条目仍被任务占用: ".to_owned();
            message.append(tasks[i].title.as_str());
            message.append(" (");
            message.append(tasks[i].id.as_str());
            message.append(")");
            return Err(ApiError::bad_request(message));
        }
        i = i + 1;
    }
    Ok(())
}

/// A change to paths is refused exactly when some unfinished task is at work at or below one of
/// them.
pub proof fn files_at_work_are_guarded(tasks: Seq<RecordView>, targets: Seq<Seq<char>>)
    ensures
        first_blocking(tasks, targets) is Some <==> exists|i: int|
            0 <= i < tasks.len() && blocks(#[trigger] tasks[i], targets),
        first_blocking(tasks, targets) matches Some(task) ==> blocks(task, targets)
            && tasks.contains(task),
    decreases tasks.len(),
{
    if tasks.len() > 0 {
        if blocks(tasks[0], targets) {
        } else {
            let rest = tasks.skip(1);
            files_at_work_are_guarded(rest, targets);
            if first_blocking(rest, targets) is Some {
                let task = first_blocking(rest, targets)->0;
                let k = choose|k: int| 0 <= k < rest.len() && rest[k] == task;
                assert(tasks[k + 1] == task);
            }
            if exists|i: int| 0 <= i < tasks.len() && blocks(#[trigger] tasks[i], targets) {
                let i = choose|i: int| 0 <= i < tasks.len() && blocks(#[trigger] tasks[i], targets);
                assert(rest[i - 1] == tasks[i]);
            }
        }
    }
}

/// Whatever slashes, dots and blanks a client puts into a path: where a change is let through, no
/// unfinished task has its place or a file at or below a path that was named, as it was typed or
/// as it is kept, nor at or below an item that is then moved or deleted.
pub proof fn changes_spare_files_at_work(
    tasks: Seq<RecordView>,
    targets: Seq<Seq<char>>,
    k: int,
    i: int,
)
    requires
        first_blocking(tasks, targets) is None,
        0 <= k < tasks.len(),
        protected(tasks[k].state),
    ensures
        0 <= i < targets.len() ==> !touches(targets[i], tasks[k]) && !at_work(
            paths::normalized(targets[i]),
            tasks[k],
        ),
        0 <= i < places::deduped(targets).len() ==> !at_work(
            paths::normalized(places::deduped(targets)[i]),
            tasks[k],
        ),
{
    files_at_work_are_guarded(tasks, targets);
    let task = tasks[k];
    assert(!blocks(task, targets));
    if 0 <= i < targets.len() {
        assert(!names_work(targets[i], task));
    }
    let items = places::deduped(targets);
    if 0 <= i < items.len() {
        places::items_are_taken_once(targets, i, i);
        let all = places::all_normalized(targets);
        let n = choose|n: int| 0 <= n < all.len() && all[n] == items[i];
        assert(all[n] == paths::normalized(targets[n]));
        assert(!names_work(targets[n], task));
    }
}

// ---------------------------------------------------------------------------
// Orders
// ---------------------------------------------------------------------------

/// The order, with the default cookies where none are named.
pub open spec fn with_default_cookies(
    order: OrderView,
    default: Option<Seq<char>>,
) -> OrderView {
    OrderView {
        cookie_file_name: match order.cookie_file_name {
            Some(name) => Some(name),
            None => default,
        },
        ..order
    }
}

/// Fills in the default cookies of the settings where an order names none.
pub fn fill_cookies(request: &mut CreateTaskRequest, settings: &AppSettings)
    ensures
        final(request)@ == with_default_cookies(
            old(request)@,
            settings@.default_cookie_file_name,
        ),
{
    if request.cookie_file_name.is_none() {
        request.cookie_file_name = text::clone_opt(&settings.default_cookie_file_name);
    }
}

/// Fills in the default cookies of the settings where an order for a playlist names none.
pub fn fill_playlist_cookies(request: &mut CreatePlaylistTasksRequest, settings: &AppSettings)
    ensures
        final(request)@ == with_default_cookies(
            old(request)@,
            settings@.default_cookie_file_name,
        ),
{
    if request.cookie_file_name.is_none() {
        request.cookie_file_name = text::clone_opt(&settings.default_cookie_file_name);
    }
}

// ---------------------------------------------------------------------------
// Deletions
// ---------------------------------------------------------------------------

/// The tasks whose downloads must be stopped before a task is deleted: the items of a playlist,
/// or else the task itself.
pub open spec fn downloads_of(task: RecordView, task_id: Seq<char>) -> Seq<Seq<char>> {
    if task.task_kind == TaskKind::PlaylistParent {
        task.child_task_ids
    } else {
        seq![task_id]
    }
}

/// The tasks whose downloads must be stopped before a task is deleted.
pub fn ids_to_stop(task: &TaskRecord, task_id: &str) -> (r: Vec<String>)
    ensures
        text::texts(r@) == downloads_of(task@, task_id@),
{
    if task.task_kind == TaskKind::PlaylistParent {
        text::clone_texts(&task.child_task_ids)
    } else {
        let mut ids: Vec<String> = Vec::new();
        ids.push(task_id.to_owned());
        assert(text::texts(ids@) =~= seq![task_id@]);
        ids
    }
}

/// How often the downloads of a task that is being deleted are stopped at most.
pub const STOP_PASSES: u32 = 2;

/// Whether the downloads of a task that is being deleted are looked for once more after pass
/// number `pass`, counted from zero: some may have begun while others were stopped.
pub fn stops_again(pass: u32, stopped: bool) -> (r: bool)
    requires
        pass < STOP_PASSES,
    ensures
        r == (stopped && pass + 1 < STOP_PASSES),
{
    stopped && pass + 1 < STOP_PASSES
}

impl StoreView {
    /// Those tasks of these ids that can be loaded and are not complete.
    pub open spec fn incomplete(self, ids: Seq<Seq<char>>) -> Seq<RecordView>
        decreases ids.len(),
    {
        if ids.len() == 0 {
            Seq::empty()
        } else {
            let rest = self.incomplete(ids.drop_last());
            match self.task(ids.last()) {
                Ok(task) => if task.state == TaskState::Completed {
                    rest
                } else {
                    rest.push(task)
                },
                Err(_) => rest,
            }
        }
    }

    /// The tasks that leave unfinished files behind when `task` is deleted.
    pub open spec fn leftovers(self, task: RecordView) -> Seq<RecordView> {
        if task.task_kind == TaskKind::PlaylistParent {
            self.incomplete(task.child_task_ids)
        } else if task.state == TaskState::Completed {
            Seq::empty()
        } else {
            seq![task]
        }
    }
}

/// The tasks that leave unfinished files behind when `task` is deleted. What is complete has
/// files that are to be kept.
pub fn tasks_to_clean(store: &TaskStore, task: &TaskRecord) -> (r: Vec<TaskRecord>)
    ensures
        record::records_view(r@) == store@.leftovers(task@),
{
    let mut list: Vec<TaskRecord> = Vec::new();
    assert(record::records_view(list@) =~= Seq::<RecordView>::empty());
    if task.task_kind == TaskKind::PlaylistParent {
        let ghost ids = text::texts(task.child_task_ids@);
        let mut i: usize = 0;
        assert(ids.take(0) =~= Seq::<Seq<char>>::empty());
        while i < task.child_task_ids.len()
            invariant
                i <= task.child_task_ids.len(),
                ids == text::texts(task.child_task_ids@),
                record::records_view(list@) == store@.incomplete(ids.take(i as int)),
            decreases task.child_task_ids.len() - i,
        {
            let ghost before = list@;
            assert(ids.take(i + 1).drop_last() =~= ids.take(i as int));
            assert(ids.take(i + 1).last() == task.child_task_ids@[i as int]@);
            if let Ok(child) = store.load_task(task.child_task_ids[i].as_str()) {
                if child.state != TaskState::Completed {
                    list.push(child);
                    assert(record::records_view(list@) =~= record::records_view(before).push(
                        child@,
                    ));
                }
            }
            i = i + 1;
        }
        assert(ids.take(i as int) =~= ids);
    } else if task.state != TaskState::Completed {
        list.push(task.clone());
        assert(record::records_view(list@) =~= seq![task@]);
    }
    list
}

}
