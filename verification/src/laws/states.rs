//! What is promised of tasks as they come, change and go.
use vstd::prelude::*;

use crate::downloads::control;
use crate::downloads::control::ControlOp;
use crate::library::names::ChangeView;
use crate::tasks::deletion;
use crate::tasks::lifecycle;
use crate::tasks::listing;
use crate::tasks::parents;
use crate::tasks::places;
use crate::tasks::queue;
use crate::tasks::record::{QueueView, RecordView, TaskKind, TaskState};
use crate::tasks::rewrite;
use crate::tasks::store;
use crate::tasks::store::{ContentView, FileView, StoreErrorView, StoreView, WriteView};
use crate::text;

verus! {

// ---------------------------------------------------------------------------
// The store
// ---------------------------------------------------------------------------

proof fn lemma_tasks(files: Seq<FileView>)
    ensures
        store::tasks_in(files) == files.filter(
            |f: FileView| f.content is Task,
        ).map_values(|f: FileView| f.content->Task_0),
    decreases files.len(),
{
    reveal(Seq::filter);
    let pred = |f: FileView| f.content is Task;
    let make = |f: FileView| f.content->Task_0;
    if files.len() > 0 {
        let head = files.drop_last();
        lemma_tasks(head);
        if pred(files.last()) {
            assert(head.filter(pred).push(files.last()).map_values(make) =~= head.filter(
                pred,
            ).map_values(make).push(make(files.last())));
        }
    }
    assert(store::tasks_in(files) =~= files.filter(pred).map_values(make));
}

/// All tasks are those that the files hold, in the order of the files.
pub proof fn all_tasks_are_loaded(store: StoreView, k: int)
    ensures
        store.tasks() == store.files.filter(|f: FileView| f.content is Task).map_values(
            |f: FileView| f.content->Task_0,
        ),
        0 <= k < store.files.len() ==> (store.files[k].content matches ContentView::Task(task)
            ==> store.tasks().contains(task)),
{
    lemma_tasks(store.files);
    let pred = |f: FileView| f.content is Task;
    let kept = store.files.filter(pred);
    if 0 <= k < store.files.len() && store.files[k].content is Task {
        store.files.lemma_filter_contains(pred, k);
        let m = choose|m: int| 0 <= m < kept.len() && kept[m] == store.files[k];
        assert(store.tasks()[m] == store.files[k].content->Task_0);
    }
}

/// A task is loaded from the first file of its name; a file that holds no task, or that cannot be
/// read, or that is not there, is told apart in the error, which names the file.
pub proof fn a_task_is_loaded_from_its_file(
    store: StoreView,
    before: Seq<FileView>,
    file: FileView,
    after: Seq<FileView>,
)
    requires
        forall|i: int| 0 <= i < before.len() ==> (#[trigger] before[i]).name != file.name,
    ensures
        ({
            let place = store.tasks_dir.join(file.name + ".json"@);
            let with = StoreView { files: before.push(file) + after, ..store };
            let without = StoreView { files: before, ..store };
            &&& file.content matches ContentView::Task(task) ==> with.task(file.name) == Ok::<
                RecordView,
                StoreErrorView,
            >(task)
            &&& file.content is Corrupted ==> with.task(file.name) == Err::<
                RecordView,
                StoreErrorView,
            >(StoreErrorView::ParseTask(place))
            &&& file.content is Unreadable ==> with.task(file.name) == Err::<
                RecordView,
                StoreErrorView,
            >(StoreErrorView::ReadTask(place))
            &&& without.task(file.name) == Err::<RecordView, StoreErrorView>(
                StoreErrorView::ReadTask(place),
            )
        }),
{
    let all = before.push(file) + after;
    queue::lemma_file_at(all, file.name);
    queue::lemma_file_at(before, file.name);
    let at = store::file_at(all, file.name);
    let k = before.len() as int;
    assert(all[k] == file);
    if at < k {
        assert(all[at] == before[at]);
    } else if at > k {
        assert(all[k].name != file.name);
    }
    let none = store::file_at(before, file.name);
    if none < before.len() {
        assert(before[none].name == file.name);
    }
}

proof fn lemma_without_file(files: Seq<FileView>, name: Seq<char>)
    ensures
        store::without_file(files, name) == files.filter(|f: FileView| f.name != name),
    decreases files.len(),
{
    reveal(Seq::filter);
    if files.len() > 0 {
        lemma_without_file(files.drop_last(), name);
    }
    assert(store::without_file(files, name) =~= files.filter(|f: FileView| f.name != name));
}

/// A write changes what it says and nothing else, and is noted: a task takes the place of the one
/// in its file, or comes last; the queue is replaced; and the files of a name are gone.
pub proof fn a_write_changes_one_thing(store: StoreView, write: WriteView, i: int)
    ensures
        ({
            let after = store.apply(write);
            &&& after.journal == store.journal.push(write)
            &&& after.tasks_dir == store.tasks_dir && after.queue_path == store.queue_path
            &&& match write {
                WriteView::SaveTask(task) => {
                    let file = FileView { name: task.id, content: ContentView::Task(task) };
                    &&& after.queue == store.queue
                    &&& 0 <= i < store.files.len() && store.files[i].name != task.id
                        ==> after.files[i] == store.files[i]
                    &&& 0 <= i < store.files.len() && store.files[i].name == task.id && (forall|
                        j: int,
                    |
                        0 <= j < i ==> (#[trigger] store.files[j]).name != task.id) ==> after.files
                        == store.files.update(i, file)
                    &&& (forall|j: int|
                        0 <= j < store.files.len() ==> (#[trigger] store.files[j]).name != task.id)
                        ==> after.files == store.files.push(file)
                },
                WriteView::SaveQueue(queue) => after.files == store.files && after.queue == Some(
                    queue,
                ),
                WriteView::RemoveTaskFile { name, .. } => after.files == store.files.filter(
                    |f: FileView| f.name != name,
                ) && after.queue == store.queue,
            }
        }),
{
    match write {
        WriteView::SaveTask(task) => {
            queue::lemma_file_at(store.files, task.id);
            let at = store::file_at(store.files, task.id);
            if 0 <= i < store.files.len() && store.files[i].name == task.id && (forall|j: int|
                0 <= j < i ==> (#[trigger] store.files[j]).name != task.id) {
                if at < i {
                    assert(store.files[at].name == task.id);
                } else if at > i {
                    assert(store.files[i].name != task.id);
                }
            }
        },
        WriteView::SaveQueue(_) => {},
        WriteView::RemoveTaskFile { name, .. } => {
            lemma_without_file(store.files, name);
        },
    }
}

// ---------------------------------------------------------------------------
// The queue
// ---------------------------------------------------------------------------

proof fn lemma_without_ids(list: Seq<Seq<char>>, ids: Seq<Seq<char>>)
    ensures
        queue::without_ids(list, ids) == list.filter(|id: Seq<char>| !ids.contains(id)),
    decreases list.len(),
{
    reveal(Seq::filter);
    if list.len() > 0 {
        lemma_without_ids(list.drop_last(), ids);
    }
    assert(queue::without_ids(list, ids) =~= list.filter(|id: Seq<char>| !ids.contains(id)));
}

/// Who enters the queue comes last, unless they stand in it already; who leaves it is gone from it,
/// and all others stay in their order. Neither touches a task.
pub proof fn the_queue_is_first_come_first_served(
    store: StoreView,
    id: Seq<char>,
    ids: Seq<Seq<char>>,
    now: Seq<char>,
)
    ensures
        store.queue is Some ==> store.order() == store.queue->0.task_order,
        store.queue is None ==> store.order().len() == 0,
        store.order().contains(id) ==> store.appended(id, now).order() == store.order(),
        !store.order().contains(id) ==> store.appended(id, now).order() == store.order().push(id)
            && store.appended(id, now).queue->0.updated_at == now,
        store.appended(id, now).files == store.files,
        store.dequeued(ids, now).order() == store.order().filter(
            |other: Seq<char>| !ids.contains(other),
        ),
        store.dequeued(ids, now).queue->0.updated_at == now,
        store.dequeued(ids, now).files == store.files,
        store.queue is Some ==> store.queue_made(now) == store,
        store.queue is None ==> store.queue_made(now).queue == Some(
            QueueView { task_order: Seq::empty(), updated_at: now },
        ) && store.queue_made(now).files == store.files,
{
    lemma_without_ids(store.order(), ids);
}

/// The task that is started next is the first in the queue that waits, is not a playlist, and does
/// not run already.
pub proof fn the_first_that_waits_is_started(
    store: StoreView,
    before: Seq<Seq<char>>,
    id: Seq<char>,
    after: Seq<Seq<char>>,
    running: Seq<Seq<char>>,
)
    requires
        forall|i: int|
            0 <= i < before.len() ==> running.contains(#[trigger] before[i]) || !(store.task(
                before[i],
            ) matches Ok(task) && task.state == TaskState::Queued && task.task_kind
                != TaskKind::PlaylistParent),
    ensures
        store.first_startable(before, running) is None,
        !running.contains(id) ==> (store.task(id) matches Ok(task) ==> (task.state
            == TaskState::Queued && task.task_kind != TaskKind::PlaylistParent
            ==> store.first_startable(before.push(id) + after, running) == Some(task))),
    decreases before.len(),
{
    let all = before.push(id) + after;
    if before.len() > 0 {
        let rest = before.skip(1);
        assert(all[0] == before[0]);
        assert(all.skip(1) =~= rest.push(id) + after);
        assert forall|i: int| 0 <= i < rest.len() implies running.contains(#[trigger] rest[i]) || !(
        store.task(rest[i]) matches Ok(task) && task.state == TaskState::Queued && task.task_kind
            != TaskKind::PlaylistParent) by {
            assert(rest[i] == before[i + 1]);
        }
        assert(!store.startable(before[0], running));
        the_first_that_waits_is_started(store, rest, id, after, running);
    } else {
        assert(all[0] == id);
    }
}

/// At the start of the application a download that was running can be resumed, a look-up that was
/// running has failed, each with its message, and every other task is left alone.
pub proof fn what_was_running_is_recovered(task: RecordView, now: Seq<char>)
    ensures
        ({
            let after = lifecycle::recovered(task, now);
            match task.state {
                TaskState::Downloading | TaskState::Stopping => after == Some(
                    RecordView {
                        state: TaskState::Paused,
                        last_error: Some("应用在下载过程中退出，任务已恢复为可继续状态"@),
                        updated_at: now,
                        ..task
                    },
                ),
                TaskState::Submitted | TaskState::Resolving => after == Some(
                    RecordView {
                        state: TaskState::Failed,
                        last_error: Some("应用在解析阶段退出，任务已标记为失败"@),
                        updated_at: now,
                        ..task
                    },
                ),
                TaskState::Queued
                | TaskState::Paused
                | TaskState::Completed
                | TaskState::Failed
                | TaskState::Canceled => after is None,
            }
        }),
{
}

// ---------------------------------------------------------------------------
// Control
// ---------------------------------------------------------------------------

/// A download is stopped while it runs, and an item of a playlist also while it waits. A task is
/// resumed where it rests or has failed, with what it has, and restarted wherever it does not
/// run, from the beginning. Nothing else can be asked, and nothing else changes.
pub proof fn tasks_do_what_they_are_asked(task: RecordView, item: bool, now: Seq<char>)
    ensures
        control::controlled(task, ControlOp::Stop, item, now) == (match task.state {
            TaskState::Downloading => Some(
                RecordView { state: TaskState::Stopping, updated_at: now, ..task },
            ),
            TaskState::Queued => if item {
                Some(RecordView { state: TaskState::Paused, updated_at: now, ..task })
            } else {
                None
            },
            _ => None,
        }),
        control::controlled(task, ControlOp::Resume, item, now) == (match task.state {
            TaskState::Paused | TaskState::Failed => Some(
                RecordView { state: TaskState::Queued, updated_at: now, ..task },
            ),
            _ => None,
        }),
        control::controlled(task, ControlOp::Restart, item, now) == (match task.state {
            TaskState::Downloading | TaskState::Stopping => None,
            _ => Some(
                RecordView {
                    state: TaskState::Queued,
                    last_error: None,
                    output_files: Seq::empty(),
                    updated_at: now,
                    ..task
                },
            ),
        }),
{
}

/// A task that was asked something is saved as it then is. It enters the queue where it waits and
/// leaves it where it rests; a download that stops is told so; and whatever waits is a reason to
/// look for what can be started.
pub proof fn what_was_asked_takes_effect(store: StoreView, after: RecordView, now: Seq<char>)
    ensures
        ({
            let settled = control::settled(store, after, now);
            let saved = store.apply(WriteView::SaveTask(after));
            let effects = control::effects_of(after.state);
            &&& settled.files == saved.files
            &&& after.state == TaskState::Queued ==> settled == saved.appended(after.id, now)
            &&& after.state == TaskState::Paused ==> settled == saved.dequeued(seq![after.id], now)
            &&& after.state != TaskState::Queued && after.state != TaskState::Paused ==> settled
                == saved
            &&& effects.signal <==> after.state == TaskState::Stopping
            &&& effects.schedule <==> after.state == TaskState::Queued
            &&& effects.refresh <==> after.state != TaskState::Paused
        }),
{
}

/// A task whose download begins is being downloaded and has no message; one whose download could
/// not begin has failed, with the reason. Nothing else of it changes.
pub proof fn a_start_is_noted(task: RecordView, message: Seq<char>, now: Seq<char>)
    ensures
        control::started(task, now) == (RecordView {
            state: TaskState::Downloading,
            last_error: None,
            updated_at: now,
            ..task
        }),
        control::not_started(task, message, now) == (RecordView {
            state: TaskState::Failed,
            last_error: Some(message),
            updated_at: now,
            ..task
        }),
{
}

/// As many downloads run as are allowed, and no more: while there is room, the first task of the
/// queue that may start is started, and else none is.
pub proof fn there_is_room_for_so_many(store: StoreView, active: Seq<Seq<char>>, max: nat)
    ensures
        active.len() >= max ==> control::next_start(store, active, max) is None,
        active.len() < max ==> control::next_start(store, active, max) == store.first_startable(
            store.order(),
            active,
        ),
{
}

// ---------------------------------------------------------------------------
// Playlists
// ---------------------------------------------------------------------------

/// One of the items is in this state.
pub open spec fn some_in(items: Seq<RecordView>, state: TaskState) -> bool {
    exists|i: int| 0 <= i < items.len() && (#[trigger] items[i]).state == state
}

/// How many of the items are in one of these states.
pub open spec fn how_many(items: Seq<RecordView>, a: TaskState, b: TaskState) -> nat {
    items.filter(|t: RecordView| t.state == a || t.state == b).len()
}

proof fn lemma_count(items: Seq<RecordView>, phase: parents::Phase, a: TaskState, b: TaskState)
    requires
        forall|s: TaskState| #[trigger] parents::phase_of(s) == phase <==> s == a || s == b,
    ensures
        parents::count_of(items, phase) == how_many(items, a, b),
        parents::count_of(items, phase) > 0 <==> some_in(items, a) || some_in(items, b),
        parents::count_of(items, phase) <= items.len(),
        parents::count_of(items, phase) == items.len() <==> forall|i: int|
            0 <= i < items.len() ==> (#[trigger] items[i]).state == a || items[i].state == b,
    decreases items.len(),
{
    reveal(Seq::filter);
    if items.len() > 0 {
        let head = items.drop_last();
        lemma_count(head, phase, a, b);
        let last = items.last();
        assert(items[items.len() - 1] == last);
        assert(forall|i: int| 0 <= i < head.len() ==> #[trigger] items[i] == head[i]);
        assert(parents::phase_of(last.state) == phase <==> last.state == a || last.state == b);
        assert forall|s: TaskState| some_in(items, s) <==> some_in(head, s) || last.state == s by {
            if some_in(head, s) {
                let i = choose|i: int| 0 <= i < head.len() && (#[trigger] head[i]).state == s;
                assert(items[i].state == s);
            }
            if some_in(items, s) && last.state != s {
                let i = choose|i: int| 0 <= i < items.len() && (#[trigger] items[i]).state == s;
                assert(head[i].state == s);
            }
        }
        assert(some_in(items, a) <==> some_in(head, a) || last.state == a);
        assert(some_in(items, b) <==> some_in(head, b) || last.state == b);
        if forall|i: int|
            0 <= i < items.len() ==> (#[trigger] items[i]).state == a || items[i].state == b {
            assert forall|i: int| 0 <= i < head.len() implies (#[trigger] head[i]).state == a
                || head[i].state == b by {
                assert(items[i].state == a || items[i].state == b);
            }
        }
    }
}

/// A playlist is complete when it has items and all are. Else it is being downloaded when one is,
/// or is being stopped; else it waits when one waits, is looked up or has just been submitted;
/// else it rests when one rests; else it has failed when one has failed or was canceled. Its
/// message counts the items that failed, or else, where only some are complete, those.
pub proof fn a_playlist_is_the_sum_of_its_items(
    parent: RecordView,
    items: Seq<RecordView>,
    now: Seq<char>,
)
    ensures
        ({
            let after = parents::synced(parent, items, now);
            let n = items.len();
            let done = how_many(items, TaskState::Completed, TaskState::Completed);
            let lost = how_many(items, TaskState::Failed, TaskState::Canceled);
            let running = some_in(items, TaskState::Downloading) || some_in(
                items,
                TaskState::Stopping,
            );
            let waiting = some_in(items, TaskState::Queued) || some_in(items, TaskState::Submitted)
                || some_in(items, TaskState::Resolving);
            &&& after.state == (if n > 0 && done == n {
                TaskState::Completed
            } else if running {
                TaskState::Downloading
            } else if waiting {
                TaskState::Queued
            } else if some_in(items, TaskState::Paused) {
                TaskState::Paused
            } else if lost > 0 {
                TaskState::Failed
            } else {
                TaskState::Submitted
            })
            &&& lost > 0 ==> after.last_error == Some(
                text::decimal(lost) + "/"@ + text::decimal(n) + " 个子任务失败"@,
            )
            &&& lost == 0 && 0 < done < n ==> after.last_error == Some(
                "已完成 "@ + text::decimal(done) + "/"@ + text::decimal(n) + " 个子任务"@,
            )
            &&& lost == 0 && !(0 < done < n) ==> after.last_error is None
            &&& after.updated_at == now
            &&& (RecordView {
                state: parent.state,
                estimated_size_bytes: parent.estimated_size_bytes,
                output_files: parent.output_files,
                last_error: parent.last_error,
                updated_at: parent.updated_at,
                ..after
            }) == parent
        }),
{
    lemma_count(items, parents::Phase::Done, TaskState::Completed, TaskState::Completed);
    lemma_count(items, parents::Phase::Lost, TaskState::Failed, TaskState::Canceled);
    lemma_count(items, parents::Phase::Running, TaskState::Downloading, TaskState::Stopping);
    lemma_count(items, parents::Phase::Resting, TaskState::Paused, TaskState::Paused);
    lemma_waiting(items);
}

proof fn lemma_waiting(items: Seq<RecordView>)
    ensures
        parents::count_of(items, parents::Phase::Waiting) > 0 <==> some_in(
            items,
            TaskState::Queued,
        ) || some_in(items, TaskState::Submitted) || some_in(items, TaskState::Resolving),
    decreases items.len(),
{
    if items.len() > 0 {
        let head = items.drop_last();
        lemma_waiting(head);
        let last = items.last();
        assert(items[items.len() - 1] == last);
        assert forall|s: TaskState| some_in(items, s) <==> some_in(head, s) || last.state == s by {
            if some_in(head, s) {
                let i = choose|i: int| 0 <= i < head.len() && (#[trigger] head[i]).state == s;
                assert(items[i].state == s);
            }
            if some_in(items, s) && last.state != s {
                let i = choose|i: int| 0 <= i < items.len() && (#[trigger] items[i]).state == s;
                assert(head[i].state == s);
            }
        }
        assert(some_in(items, TaskState::Queued) <==> some_in(head, TaskState::Queued)
            || last.state == TaskState::Queued);
        assert(some_in(items, TaskState::Submitted) <==> some_in(head, TaskState::Submitted)
            || last.state == TaskState::Submitted);
        assert(some_in(items, TaskState::Resolving) <==> some_in(head, TaskState::Resolving)
            || last.state == TaskState::Resolving);
    }
}

/// One more item adds its files and its size to those of its playlist. Where the size of an item
/// is not known, that of the playlist is not.
pub proof fn an_item_adds_to_its_playlist(
    parent: RecordView,
    items: Seq<RecordView>,
    item: RecordView,
    now: Seq<char>,
)
    ensures
        ({
            let before = parents::synced(parent, items, now);
            let after = parents::synced(parent, items.push(item), now);
            let none = parents::synced(parent, Seq::empty(), now);
            &&& none.output_files.len() == 0 && none.estimated_size_bytes == Some(0u64)
            &&& after.output_files == before.output_files + item.output_files
            &&& parents::sizes_fit(parents::sizes_in(items.push(item))) ==> {
                match (before.estimated_size_bytes, item.estimated_size_bytes) {
                    (Some(a), Some(b)) => after.estimated_size_bytes == Some((a + b) as u64) && a + b
                        <= u64::MAX,
                    _ => after.estimated_size_bytes is None,
                }
            }
        }),
{
    let all = items.push(item);
    assert(all.drop_last() =~= items);
    let sizes = parents::sizes_in(all);
    let fewer = parents::sizes_in(items);
    assert(sizes.drop_last() =~= fewer);
    assert(sizes.last() == item.estimated_size_bytes);
    assert(sizes.take(sizes.len() as int) =~= sizes);
    assert(sizes.take(sizes.len() - 1) =~= fewer);
    assert(parents::sizes_in(Seq::<RecordView>::empty()) =~= Seq::<Option<u64>>::empty());
    if parents::sizes_fit(sizes) {
        assert(parents::total_size(sizes.take(sizes.len() as int)) matches Some(sum) ==> sum
            <= u64::MAX);
        assert(parents::total_size(sizes.take(sizes.len() - 1)) matches Some(sum) ==> sum
            <= u64::MAX);
    }
}

/// A playlist is refreshed by those of its items that are there, in their order, and only where
/// more would change than the time. Other tasks are never touched.
pub proof fn playlists_are_refreshed(task: RecordView, tasks: Seq<RecordView>, now: Seq<char>)
    ensures
        ({
            let items = parents::items_of(task.child_task_ids, tasks);
            let after = parents::synced(task, items, now);
            let same = after.state == task.state && after.estimated_size_bytes
                == task.estimated_size_bytes && after.output_files == task.output_files
                && after.last_error == task.last_error;
            parents::refreshed(task, tasks, now) == (if task.task_kind == TaskKind::PlaylistParent
                && !same {
                Some(after)
            } else {
                None
            })
        }),
{
    let items = parents::items_of(task.child_task_ids, tasks);
    let after = parents::synced(task, items, now);
    let kept = RecordView { updated_at: now, ..task };
    if after == kept {
        assert(after.state == kept.state);
    }
}

/// The items of a playlist are the tasks that go by its list of ids, one after the other; an id
/// that no task has is passed over.
pub proof fn items_go_by_their_ids(ids: Seq<Seq<char>>, id: Seq<char>, tasks: Seq<RecordView>)
    ensures
        parents::items_of(Seq::empty(), tasks).len() == 0,
        (forall|i: int| 0 <= i < tasks.len() ==> (#[trigger] tasks[i]).id != id)
            ==> parents::items_of(ids.push(id), tasks) == parents::items_of(ids, tasks),
        forall|i: int|
            0 <= i < tasks.len() && (#[trigger] tasks[i]).id == id && (forall|j: int|
                i < j < tasks.len() ==> (#[trigger] tasks[j]).id != id) ==> parents::items_of(
                ids.push(id),
                tasks,
            ) == parents::items_of(ids, tasks).push(tasks[i]),
{
    assert(ids.push(id).drop_last() =~= ids);
    listing::lemma_by_id(tasks, id);
    assert forall|i: int|
        0 <= i < tasks.len() && (#[trigger] tasks[i]).id == id && (forall|j: int|
            i < j < tasks.len() ==> (#[trigger] tasks[j]).id != id) implies parents::items_of(
        ids.push(id),
        tasks,
    ) == parents::items_of(ids, tasks).push(tasks[i]) by {
        lemma_last_with_id(tasks, id, i);
    }
}

proof fn lemma_last_with_id(tasks: Seq<RecordView>, id: Seq<char>, i: int)
    requires
        0 <= i < tasks.len(),
        tasks[i].id == id,
        forall|j: int| i < j < tasks.len() ==> (#[trigger] tasks[j]).id != id,
    ensures
        listing::by_id(tasks, id) == Some(tasks[i]),
    decreases tasks.len(),
{
    if i < tasks.len() - 1 {
        let head = tasks.drop_last();
        assert(tasks[tasks.len() - 1].id != id);
        assert forall|j: int| i < j < head.len() implies (#[trigger] head[j]).id != id by {
            assert(tasks[j].id != id);
        }
        lemma_last_with_id(head, id, i);
    }
}

// ---------------------------------------------------------------------------
// Moved and deleted files
// ---------------------------------------------------------------------------

/// The path is this one or lies below it.
pub open spec fn at_or_below(path: Seq<char>, folder: Seq<char>) -> bool {
    path == folder || text::begins(path, folder + "/"@)
}

/// A path follows the first move of itself or of a folder that it is in, and keeps what it has
/// below; every other path stays.
pub proof fn paths_follow_the_first_move(path: Seq<char>, change: ChangeView, more: Seq<ChangeView>)
    ensures
        places::moved_path(path, Seq::empty()) == path,
        at_or_below(path, change.from) ==> places::moved_path(path, seq![change] + more)
            == change.to + path.skip(change.from.len() as int),
        !at_or_below(path, change.from) ==> places::moved_path(path, seq![change] + more)
            == places::moved_path(path, more),
{
    reveal_strlit("/");
    assert("/"@ =~= seq!['/']);
    let all = seq![change] + more;
    assert(all.skip(1) =~= more);
    assert(change.from.push('/') =~= change.from + "/"@);
    if path == change.from {
        assert(change.to + path.skip(change.from.len() as int) =~= change.to);
    } else if at_or_below(path, change.from) {
        let prefix = change.from.push('/');
        assert(path.subrange(0, prefix.len() as int)[change.from.len() as int] == '/');
        assert(path[change.from.len() as int] == '/');
        assert(change.to.push('/') + path.skip(change.from.len() as int + 1) =~= change.to
            + path.skip(change.from.len() as int));
    }
}

/// A task follows moves with its place, the directory of its files and each of its files, and is
/// saved only where one of them moved.
pub proof fn tasks_follow_moves(
    task: RecordView,
    moved: Seq<ChangeView>,
    now: Seq<char>,
    i: int,
)
    ensures
        ({
            let after = match places::relocated(task, moved, now) {
                Some(t) => t,
                None => task,
            };
            &&& after.target_subdir == places::moved_path(task.target_subdir, moved)
            &&& after.output_dir_relative == places::moved_path(task.output_dir_relative, moved)
            &&& after.output_files.len() == task.output_files.len()
            &&& 0 <= i < task.output_files.len() ==> after.output_files[i] == places::moved_path(
                task.output_files[i],
                moved,
            )
            &&& places::relocated(task, moved, now) is Some ==> after.updated_at == now
            &&& (RecordView {
                target_subdir: task.target_subdir,
                output_dir_relative: task.output_dir_relative,
                output_files: task.output_files,
                updated_at: task.updated_at,
                ..after
            }) == task
            &&& after.target_subdir == task.target_subdir && after.output_dir_relative
                == task.output_dir_relative && after.output_files == task.output_files
                ==> places::relocated(task, moved, now) is None
        }),
{
    if places::relocated(task, moved, now) is None {
        let other = RecordView {
            target_subdir: places::moved_path(task.target_subdir, moved),
            output_dir_relative: places::moved_path(task.output_dir_relative, moved),
            output_files: places::moved_paths(task.output_files, moved),
            ..task
        };
        assert(other.output_files == task.output_files);
        if 0 <= i < task.output_files.len() {
            assert(places::moved_paths(task.output_files, moved)[i] == task.output_files[i]);
        }
    }
}

proof fn lemma_surviving(list: Seq<Seq<char>>, deleted: Seq<Seq<char>>)
    ensures
        places::surviving(list, deleted) == list.filter(
            |path: Seq<char>|
                !exists|i: int| 0 <= i < deleted.len() && at_or_below(path, #[trigger] deleted[i]),
        ),
    decreases list.len(),
{
    reveal(Seq::filter);
    reveal_strlit("/");
    assert("/"@ =~= seq!['/']);
    let pred = |path: Seq<char>|
        !exists|i: int| 0 <= i < deleted.len() && at_or_below(path, #[trigger] deleted[i]);
    if list.len() > 0 {
        lemma_surviving(list.drop_last(), deleted);
        let path = list.last();
        assert forall|i: int| 0 <= i < deleted.len() implies crate::paths::within(
            path,
            #[trigger] deleted[i],
        ) == at_or_below(path, deleted[i]) by {
            assert(deleted[i].push('/') =~= deleted[i] + "/"@);
        }
        if places::lost(path, deleted) {
            let i = choose|i: int|
                0 <= i < deleted.len() && crate::paths::within(path, #[trigger] deleted[i]);
            assert(at_or_below(path, deleted[i]));
        } else if !pred(path) {
            let i = choose|i: int| 0 <= i < deleted.len() && at_or_below(path, #[trigger] deleted[i]);
            assert(crate::paths::within(path, deleted[i]));
        }
    }
    assert(places::surviving(list, deleted) =~= list.filter(pred));
}

/// A task loses exactly those of its files that were deleted, by themselves or with a folder, and
/// is saved only where it lost one.
pub proof fn deleted_files_are_forgotten(
    task: RecordView,
    deleted: Seq<Seq<char>>,
    now: Seq<char>,
)
    ensures
        ({
            let left = task.output_files.filter(
                |path: Seq<char>|
                    !exists|i: int|
                        0 <= i < deleted.len() && at_or_below(path, #[trigger] deleted[i]),
            );
            places::pruned(task, deleted, now) == (if left.len() == task.output_files.len() {
                None
            } else {
                Some(RecordView { output_files: left, updated_at: now, ..task })
            })
        }),
{
    lemma_surviving(task.output_files, deleted);
}

// ---------------------------------------------------------------------------
// Deletions
// ---------------------------------------------------------------------------

/// A task is deleted unless it cannot be loaded, or is being downloaded and is not a playlist. With
/// a playlist go its items; with the last item of a playlist goes the playlist, and else the
/// playlist forgets the item.
pub proof fn a_task_is_deleted_with_what_belongs_to_it(
    store: StoreView,
    task_id: Seq<char>,
    now: Seq<char>,
)
    ensures
        ({
            let out = store.deleted(task_id, now);
            &&& store.task(task_id) matches Err(error) ==> out == Err::<
                deletion::Deletion,
                StoreErrorView,
            >(error)
            &&& store.task(task_id) matches Ok(task) ==> {
                let running = task.state == TaskState::Downloading || task.state
                    == TaskState::Stopping;
                let alone = store.dequeued(seq![task.id], now).without_task(task.id, true);
                &&& out == Err::<deletion::Deletion, StoreErrorView>(StoreErrorView::StopFirst)
                    <==> running && task.task_kind != TaskKind::PlaylistParent
                &&& out is Ok <==> !running || task.task_kind == TaskKind::PlaylistParent
                &&& task.task_kind == TaskKind::PlaylistParent ==> out->Ok_0.removed
                    == task.child_task_ids + seq![task.id]
                &&& task.task_kind == TaskKind::Single && !running ==> out->Ok_0.removed == seq![
                    task.id,
                ] && out->Ok_0.store == alone
                &&& task.task_kind == TaskKind::PlaylistItem && !running && task.parent_task_id
                    is None ==> out->Ok_0.removed == seq![task.id] && out->Ok_0.store == alone
                &&& task.task_kind == TaskKind::PlaylistItem && !running && task.parent_task_id
                    is Some ==> (match alone.task(task.parent_task_id->0) {
                    Err(_) => out->Ok_0.removed == seq![task.id] && out->Ok_0.store == alone,
                    Ok(parent) => {
                        let left = parent.child_task_ids.filter(
                            |id: Seq<char>| id != task.id,
                        );
                        &&& left.len() == 0 ==> out->Ok_0.removed == seq![
                            task.id,
                            task.parent_task_id->0,
                        ]
                        &&& left.len() > 0 ==> out->Ok_0.removed == seq![task.id]
                            && out->Ok_0.store == alone.apply(
                            WriteView::SaveTask(
                                RecordView { child_task_ids: left, updated_at: now, ..parent },
                            ),
                        )
                    },
                })
            }
        }),
{
    if store.task(task_id) is Ok {
        let task = store.task(task_id)->Ok_0;
        assert(task.child_task_ids.push(task.id) =~= task.child_task_ids + seq![task.id]);
        let alone = store.dequeued(seq![task.id], now).without_task(task.id, true);
        if task.parent_task_id is Some && alone.task(task.parent_task_id->0) is Ok {
            let parent = alone.task(task.parent_task_id->0)->Ok_0;
            lemma_without_ids(parent.child_task_ids, seq![task.id]);
            let one = |id: Seq<char>| id != task.id;
            let listed = |id: Seq<char>| !seq![task.id].contains(id);
            assert forall|id: Seq<char>| #[trigger] one(id) == #[trigger] listed(id) by {
                assert(seq![task.id][0] == task.id);
            }
            assert(one =~= listed);
        }
    }
}

/// Records that cannot be read are cleared away one by one, and no others; tasks are deleted one by
/// one, where there are any.
pub proof fn what_cannot_be_read_is_cleared_away(
    store: StoreView,
    files: Seq<FileView>,
    file: FileView,
    names: Seq<Seq<char>>,
    name: Seq<char>,
)
    ensures
        store.swept() == store.dropped(store::corrupted_in(store.files)),
        store.dropped(Seq::empty()) == store,
        store.dropped(names.push(name)) == store.dropped(names).apply(
            WriteView::RemoveTaskFile { name, required: false },
        ),
        store::corrupted_in(Seq::empty()).len() == 0,
        store::corrupted_in(files.push(file)) == (if file.content is Corrupted {
            store::corrupted_in(files).push(file.name)
        } else {
            store::corrupted_in(files)
        }),
        store.without_tasks(Seq::empty()) == store,
        store.without_tasks(names.push(name)) == store.without_tasks(names).without_task(
            name,
            true,
        ),
{
    assert(names.push(name).drop_last() =~= names);
    assert(files.push(file).drop_last() =~= files);
}

/// Every task that a change is for is changed, stored and told, in their order, and no other; what
/// cannot be read is cleared away before. Where nothing was moved or deleted, nothing is done.
pub proof fn changes_are_stored_and_told(
    store: StoreView,
    tasks: Seq<RecordView>,
    task: RecordView,
    change: rewrite::Change,
    moved: Seq<ChangeView>,
    deleted: Seq<Seq<char>>,
    now: Seq<char>,
)
    ensures
        rewrite::changed(tasks, change) == tasks.filter(
            |t: RecordView| change(t) is Some,
        ).map_values(|t: RecordView| change(t)->0),
        store.rewritten(change) == store.swept().saved_all(
            rewrite::changed(store.tasks(), change),
        ),
        store.saved_all(Seq::empty()) == store,
        store.saved_all(tasks.push(task)) == store.saved_all(tasks).apply(
            WriteView::SaveTask(task),
        ),
        moved.len() == 0 ==> store.after_moves(moved, now) == store && store.tasks_moved(
            moved,
            now,
        ).len() == 0,
        moved.len() > 0 ==> store.after_moves(moved, now) == store.rewritten(
            places::relocation(moved, now),
        ) && store.tasks_moved(moved, now) == rewrite::changed(
            store.tasks(),
            places::relocation(moved, now),
        ),
        deleted.len() == 0 ==> store.after_deletions(deleted, now) == store && store.tasks_pruned(
            deleted,
            now,
        ).len() == 0,
        deleted.len() > 0 ==> store.after_deletions(deleted, now) == store.rewritten(
            places::pruning(deleted, now),
        ) && store.tasks_pruned(deleted, now) == rewrite::changed(
            store.tasks(),
            places::pruning(deleted, now),
        ),
        forall|t: RecordView| #[trigger]
            (places::relocation(moved, now))(t) == places::relocated(t, moved, now),
        forall|t: RecordView| #[trigger]
            (places::pruning(deleted, now))(t) == places::pruned(t, deleted, now),
        forall|t: RecordView| #[trigger]
            (lifecycle::recovery(now))(t) == lifecycle::recovered(t, now),
{
    assert(tasks.push(task).drop_last() =~= tasks);
    lemma_changed(tasks, change);
}

proof fn lemma_changed(tasks: Seq<RecordView>, change: rewrite::Change)
    ensures
        rewrite::changed(tasks, change) == tasks.filter(
            |t: RecordView| change(t) is Some,
        ).map_values(|t: RecordView| change(t)->0),
    decreases tasks.len(),
{
    reveal(Seq::filter);
    let pred = |t: RecordView| change(t) is Some;
    let make = |t: RecordView| change(t)->0;
    if tasks.len() > 0 {
        let head = tasks.drop_last();
        lemma_changed(head, change);
        if pred(tasks.last()) {
            assert(head.filter(pred).push(tasks.last()).map_values(make) =~= head.filter(
                pred,
            ).map_values(make).push(make(tasks.last())));
        }
    }
    assert(rewrite::changed(tasks, change) =~= tasks.filter(pred).map_values(make));
}

}
