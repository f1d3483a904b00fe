//! Going through all tasks and saving those that change.
use vstd::prelude::*;

use crate::tasks::journal;
use crate::tasks::queue;
use crate::tasks::record::RecordView;
use crate::tasks::store;
use crate::tasks::store::{ContentView, FileView, StoreErrorView, StoreView, WriteView};

verus! {

/// A change to tasks: what a task becomes, or `None` where it stays as it is.
pub type Change = spec_fn(RecordView) -> Option<RecordView>;

/// The tasks that change, as they are then, in order.
pub open spec fn changed(tasks: Seq<RecordView>, change: Change) -> Seq<RecordView>
    decreases tasks.len(),
{
    if tasks.len() == 0 {
        tasks
    } else {
        let rest = changed(tasks.drop_last(), change);
        match change(tasks.last()) {
            Some(task) => rest.push(task),
            None => rest,
        }
    }
}

/// What a task is after the change.
pub open spec fn outcome(task: RecordView, change: Change) -> RecordView {
    match change(task) {
        Some(t) => t,
        None => task,
    }
}

/// A change that leaves every task its id.
pub open spec fn keeps_ids(change: Change) -> bool {
    forall|task: RecordView|
        (#[trigger] change(task)) matches Some(after) ==> after.id == task.id
}

impl StoreView {
    /// The store after the change was made to all tasks.
    pub open spec fn rewritten(self, change: Change) -> StoreView {
        self.swept().saved_all(changed(self.tasks(), change))
    }

    /// Each task is kept in the one file that is named by its id.
    pub open spec fn filed(self) -> bool {
        &&& forall|i: int|
            0 <= i < self.files.len() ==> ((#[trigger] self.files[i]).content matches ContentView::Task(
                task,
            ) ==> task.id == self.files[i].name)
        &&& forall|i: int, j: int|
            0 <= i < j < self.files.len() ==> (#[trigger] self.files[i]).name != (
            #[trigger] self.files[j]).name
    }
}

proof fn lemma_tasks_in(files: Seq<FileView>)
    ensures
        forall|k: int|
            0 <= k < store::tasks_in(files).len() ==> exists|i: int|
                0 <= i < files.len() && files[i].content == ContentView::Task(
                    #[trigger] store::tasks_in(files)[k],
                ),
        forall|i: int|
            0 <= i < files.len() ==> ((#[trigger] files[i]).content matches ContentView::Task(task)
                ==> store::tasks_in(files).contains(task)),
    decreases files.len(),
{
    if files.len() > 0 {
        let head = files.drop_last();
        let before = store::tasks_in(head);
        let all = store::tasks_in(files);
        lemma_tasks_in(head);
        assert forall|k: int| 0 <= k < all.len() implies exists|i: int|
            0 <= i < files.len() && files[i].content == ContentView::Task(#[trigger] all[k]) by {
            if k < before.len() {
                let i = choose|i: int|
                    0 <= i < head.len() && head[i].content == ContentView::Task(before[k]);
                assert(files[i].content == ContentView::Task(all[k]));
            } else {
                assert(files[files.len() - 1].content == ContentView::Task(all[k]));
            }
        }
        assert forall|i: int| 0 <= i < files.len() implies ((
        #[trigger] files[i]).content matches ContentView::Task(task) ==> all.contains(task)) by {
            if files[i].content is Task {
                let task = files[i].content->0;
                if i < head.len() {
                    assert(head[i].content is Task);
                    let k = choose|k: int| 0 <= k < before.len() && before[k] == task;
                    assert(all[k] == task);
                } else {
                    assert(all[all.len() - 1] == task);
                }
            }
        }
    }
}

proof fn lemma_distinct_tasks(store: StoreView)
    requires
        store.filed(),
    ensures
        forall|a: int, b: int|
            0 <= a < b < store.tasks().len() ==> (#[trigger] store.tasks()[a]).id != (
            #[trigger] store.tasks()[b]).id,
    decreases store.files.len(),
{
    let files = store.files;
    if files.len() > 0 {
        let head = files.drop_last();
        let earlier = StoreView { files: head, ..store };
        let before = store::tasks_in(head);
        assert(earlier.filed()) by {
            assert forall|i: int| 0 <= i < head.len() implies ((
            #[trigger] head[i]).content matches ContentView::Task(task) ==> task.id
                == head[i].name) by {
                assert(files[i] == head[i]);
            }
            assert forall|i: int, j: int| 0 <= i < j < head.len() implies (#[trigger] head[i]).name
                != (#[trigger] head[j]).name by {
                assert(files[i] == head[i] && files[j] == head[j]);
            }
        }
        lemma_distinct_tasks(earlier);
        lemma_tasks_in(head);
        let all = store.tasks();
        assert forall|a: int, b: int| 0 <= a < b < all.len() implies (#[trigger] all[a]).id != (
        #[trigger] all[b]).id by {
            assert(all[a] == before[a]);
            if b < before.len() {
                assert(all[b] == before[b]);
            } else {
                let i = choose|i: int|
                    0 <= i < head.len() && head[i].content == ContentView::Task(before[a]);
                assert(files[i] == head[i]);
                assert(files[i].name != files[files.len() - 1].name);
            }
        }
    }
}

/// Where each task is kept in the file that is named by its id, loading all tasks and loading one
/// by its id agree.
pub proof fn lemma_loaded(store: StoreView, id: Seq<char>)
    requires
        store.filed(),
    ensures
        store.task(id) matches Ok(task) ==> task.id == id && store.tasks().contains(task),
        forall|k: int|
            0 <= k < store.tasks().len() && (#[trigger] store.tasks()[k]).id == id ==> store.task(
                id,
            ) == Ok::<RecordView, StoreErrorView>(store.tasks()[k]),
{
    let files = store.files;
    lemma_tasks_in(files);
    queue::lemma_file_at(files, id);
    let at = store::file_at(files, id);
    if at < files.len() {
        assert(files[at].name == id);
    }
    assert forall|k: int|
        0 <= k < store.tasks().len() && (#[trigger] store.tasks()[k]).id == id implies store.task(
        id,
    ) == Ok::<RecordView, StoreErrorView>(store.tasks()[k]) by {
        let i = choose|i: int|
            0 <= i < files.len() && files[i].content == ContentView::Task(store.tasks()[k]);
        assert(files[i].name == id);
        if at < i {
            assert(files[at].name != files[i].name);
        } else if i < at {
            assert(files[i].name != id);
        }
    }
}

proof fn lemma_dropped(store: StoreView, names: Seq<Seq<char>>, id: Seq<char>)
    ensures
        store.dropped(names).task(id) == (if names.contains(id) {
            Err::<RecordView, StoreErrorView>(StoreErrorView::ReadTask(store.task_path(id)))
        } else {
            store.task(id)
        }),
        store.dropped(names).tasks_dir == store.tasks_dir,
        store.dropped(names).queue == store.queue,
    decreases names.len(),
{
    if names.len() > 0 {
        let head = names.drop_last();
        lemma_dropped(store, head, id);
        queue::a_removed_task_is_gone(store.dropped(head), names.last(), false, id);
        assert(names.contains(id) <==> head.contains(id) || id == names.last()) by {
            if head.contains(id) {
                let k = choose|k: int| 0 <= k < head.len() && head[k] == id;
                assert(names[k] == id);
            }
            if id == names.last() {
                assert(names[names.len() - 1] == id);
            }
            if names.contains(id) && id != names.last() {
                let k = choose|k: int| 0 <= k < names.len() && names[k] == id;
                assert(head[k] == id);
            }
        }
    }
}

/// One of the files goes by this name and holds no task.
spec fn some_corrupted(files: Seq<FileView>, name: Seq<char>) -> bool {
    exists|i: int|
        0 <= i < files.len() && (#[trigger] files[i]).content is Corrupted && files[i].name == name
}

proof fn lemma_corrupted(files: Seq<FileView>)
    ensures
        forall|k: int|
            0 <= k < store::corrupted_in(files).len() ==> some_corrupted(
                files,
                #[trigger] store::corrupted_in(files)[k],
            ),
        forall|i: int|
            0 <= i < files.len() && (#[trigger] files[i]).content is Corrupted
                ==> store::corrupted_in(files).contains(files[i].name),
    decreases files.len(),
{
    if files.len() > 0 {
        let head = files.drop_last();
        let before = store::corrupted_in(head);
        let all = store::corrupted_in(files);
        lemma_corrupted(head);
        assert forall|k: int| 0 <= k < all.len() implies some_corrupted(files, #[trigger] all[k]) by {
            if k < before.len() {
                assert(some_corrupted(head, before[k]));
                let i = choose|i: int|
                    0 <= i < head.len() && (#[trigger] head[i]).content is Corrupted && head[i].name
                        == before[k];
                assert(files[i] == head[i]);
            } else {
                assert(files[files.len() - 1].name == all[k]);
            }
        }
        assert forall|i: int|
            0 <= i < files.len() && (#[trigger] files[i]).content is Corrupted implies all.contains(
            files[i].name,
        ) by {
            if i < head.len() {
                assert(head[i].content is Corrupted);
                let k = choose|k: int| 0 <= k < before.len() && before[k] == head[i].name;
                assert(all[k] == files[i].name);
            } else {
                assert(all[all.len() - 1] == files[i].name);
            }
        }
    }
}

/// Sweeping loses no task: files that hold none are gone, and every task is loaded as before.
pub proof fn sweeping_keeps_tasks(store: StoreView, id: Seq<char>)
    requires
        store.filed(),
    ensures
        store.task(id) is Ok ==> store.swept().task(id) == store.task(id),
        store.task(id) is Err ==> store.swept().task(id) == Err::<RecordView, StoreErrorView>(
            StoreErrorView::ReadTask(store.task_path(id)),
        ),
        store.swept().queue == store.queue,
{
    let names = store::corrupted_in(store.files);
    lemma_dropped(store, names, id);
    lemma_corrupted(store.files);
    queue::lemma_file_at(store.files, id);
    let at = store::file_at(store.files, id);
    if names.contains(id) {
        let k = choose|k: int| 0 <= k < names.len() && names[k] == id;
        assert(some_corrupted(store.files, names[k]));
        let i = choose|i: int|
            0 <= i < store.files.len() && (#[trigger] store.files[i]).content is Corrupted
                && store.files[i].name == names[k];
        if at < i {
            assert(store.files[at].name != store.files[i].name);
        } else if i < at {
            assert(store.files[i].name != id);
        }
    } else if at < store.files.len() {
        assert(store.files[at].content !is Corrupted);
    }
}

proof fn lemma_saved_all(
    store: StoreView,
    tasks: Seq<RecordView>,
    change: Change,
    id: Seq<char>,
)
    requires
        keeps_ids(change),
        forall|a: int, b: int|
            0 <= a < b < tasks.len() ==> (#[trigger] tasks[a]).id != (#[trigger] tasks[b]).id,
    ensures
        (forall|k: int| 0 <= k < tasks.len() ==> (#[trigger] tasks[k]).id != id) ==> store.saved_all(
            changed(tasks, change),
        ).task(id) == store.task(id),
        forall|k: int|
            0 <= k < tasks.len() && (#[trigger] tasks[k]).id == id ==> store.saved_all(
                changed(tasks, change),
            ).task(id) == (match change(tasks[k]) {
                Some(after) => Ok::<RecordView, StoreErrorView>(after),
                None => store.task(id),
            }),
        store.saved_all(changed(tasks, change)).queue == store.queue,
    decreases tasks.len(),
{
    if tasks.len() > 0 {
        let head = tasks.drop_last();
        assert forall|a: int, b: int| 0 <= a < b < head.len() implies (#[trigger] head[a]).id != (
        #[trigger] head[b]).id by {
            assert(tasks[a] == head[a] && tasks[b] == head[b]);
        }
        lemma_saved_all(store, head, change, id);
        let before = store.saved_all(changed(head, change));
        let last = tasks.last();
        assert(tasks[tasks.len() - 1] == last);
        assert(forall|k: int| 0 <= k < head.len() ==> (#[trigger] head[k]) == tasks[k]);
        match change(last) {
            Some(after) => {
                let list = changed(tasks, change);
                assert(list.drop_last() =~= changed(head, change));
                assert(list.last() == after);
                queue::a_saved_task_is_loaded_again(before, after, id);
            },
            None => {},
        }
        if last.id == id {
            assert forall|k: int| 0 <= k < head.len() implies (#[trigger] head[k]).id != id by {
                assert(tasks[k].id != tasks[tasks.len() - 1].id);
            }
        } else if forall|k: int| 0 <= k < tasks.len() ==> (#[trigger] tasks[k]).id != id {
            assert forall|k: int| 0 <= k < head.len() implies (#[trigger] head[k]).id != id by {
                assert(tasks[k].id != id);
            }
        }
        assert forall|k: int| 0 <= k < tasks.len() && (#[trigger] tasks[k]).id == id implies
            store.saved_all(changed(tasks, change)).task(id) == (match change(tasks[k]) {
            Some(after) => Ok::<RecordView, StoreErrorView>(after),
            None => store.task(id),
        }) by {
            if k < head.len() {
                assert(head[k].id == id);
            }
        }
    }
}

/// A change is made to every task, and to nothing else: what is loaded afterwards is what the
/// change makes of what was loaded before, and the queue is as it was.
pub proof fn a_change_reaches_every_task(store: StoreView, change: Change, id: Seq<char>)
    requires
        store.filed(),
        keeps_ids(change),
    ensures
        match store.task(id) {
            Ok(task) => store.rewritten(change).task(id) == Ok::<RecordView, StoreErrorView>(
                outcome(task, change),
            ),
            Err(_) => store.rewritten(change).task(id) == Err::<RecordView, StoreErrorView>(
                StoreErrorView::ReadTask(store.task_path(id)),
            ),
        },
        store.rewritten(change).queue == store.queue,
{
    let tasks = store.tasks();
    lemma_loaded(store, id);
    lemma_distinct_tasks(store);
    sweeping_keeps_tasks(store, id);
    lemma_saved_all(store.swept(), tasks, change, id);
    if store.task(id) is Ok {
        let task = store.task(id)->Ok_0;
        let k = choose|k: int| 0 <= k < tasks.len() && tasks[k] == task;
        assert(tasks[k].id == id);
    } else {
        assert forall|k: int| 0 <= k < tasks.len() implies (#[trigger] tasks[k]).id != id by {}
    }
}

proof fn lemma_dropped_filed(store: StoreView, names: Seq<Seq<char>>)
    requires
        store.filed(),
    ensures
        store.dropped(names).filed(),
    decreases names.len(),
{
    if names.len() > 0 {
        lemma_dropped_filed(store, names.drop_last());
        journal::files_stay_named_by_id(
            store.dropped(names.drop_last()),
            WriteView::RemoveTaskFile { name: names.last(), required: false },
        );
    }
}

proof fn lemma_saved_all_filed(store: StoreView, tasks: Seq<RecordView>)
    requires
        store.filed(),
    ensures
        store.saved_all(tasks).filed(),
    decreases tasks.len(),
{
    if tasks.len() > 0 {
        lemma_saved_all_filed(store, tasks.drop_last());
        journal::files_stay_named_by_id(
            store.saved_all(tasks.drop_last()),
            WriteView::SaveTask(tasks.last()),
        );
    }
}

/// After a change was made to all tasks, each is still in the one file that is named by its id,
/// and no file is left that holds no task.
pub proof fn a_change_leaves_files_in_order(store: StoreView, change: Change)
    requires
        store.filed(),
        keeps_ids(change),
    ensures
        store.rewritten(change).filed(),
        store::corrupted_in(store.rewritten(change).files).len() == 0,
        store.rewritten(change).swept() == store.rewritten(change),
{
    let after = store.rewritten(change);
    let names = store::corrupted_in(after.files);
    lemma_dropped_filed(store, store::corrupted_in(store.files));
    lemma_saved_all_filed(store.swept(), changed(store.tasks(), change));
    if names.len() > 0 {
        lemma_corrupted(after.files);
        assert(some_corrupted(after.files, names[0]));
        let i = choose|i: int|
            0 <= i < after.files.len() && (#[trigger] after.files[i]).content is Corrupted
                && after.files[i].name == names[0];
        queue::lemma_file_at(after.files, names[0]);
        let at = store::file_at(after.files, names[0]);
        if at < i {
            assert(after.files[at].name != after.files[i].name);
        } else if i < at {
            assert(after.files[i].name != names[0]);
        }
        assert(after.task(names[0]) is Err && after.task(names[0])->Err_0 is ParseTask);
        a_change_reaches_every_task(store, change, names[0]);
    }
}

/// A change that leaves every task as it is changes none.
pub proof fn lemma_nothing_changed(tasks: Seq<RecordView>, change: Change)
    requires
        forall|k: int| 0 <= k < tasks.len() ==> change(#[trigger] tasks[k]) is None,
    ensures
        changed(tasks, change).len() == 0,
    decreases tasks.len(),
{
    if tasks.len() > 0 {
        let head = tasks.drop_last();
        assert forall|k: int| 0 <= k < head.len() implies change(#[trigger] head[k]) is None by {
            assert(head[k] == tasks[k]);
        }
        lemma_nothing_changed(head, change);
        assert(change(tasks[tasks.len() - 1]) is None);
    }
}

}
