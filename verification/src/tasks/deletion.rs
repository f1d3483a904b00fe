//! Deleting tasks.
use vstd::prelude::*;

use crate::clock;
use crate::tasks::queue;
use crate::tasks::record::{RecordView, TaskKind, TaskState};
use crate::tasks::store::{
    StoreError, StoreErrorView, StoreView, StoreWrite, TaskStore, WriteView,
};
use crate::text;

verus! {

/// The task is being downloaded, or being stopped.
pub open spec fn is_running(state: TaskState) -> bool {
    state == TaskState::Downloading || state == TaskState::Stopping
}

/// A deletion: the store after it, and the ids of the tasks that are gone.
#[verifier::ext_equal]
pub struct Deletion {
    pub store: StoreView,
    pub removed: Seq<Seq<char>>,
}

impl StoreView {
    /// The store after the file of the task was removed, if there was one.
    pub open spec fn without_task(self, id: Seq<char>, required: bool) -> StoreView {
        if self.has_file(id) {
            self.apply(WriteView::RemoveTaskFile { name: id, required })
        } else {
            self
        }
    }

    /// The store after the files of these tasks were removed, as far as there were any.
    pub open spec fn without_tasks(self, ids: Seq<Seq<char>>) -> StoreView
        decreases ids.len(),
    {
        if ids.len() == 0 {
            self
        } else {
            self.without_tasks(ids.drop_last()).without_task(ids.last(), true)
        }
    }

    /// The store after a playlist lost one of its items; a playlist that has none left is
    /// deleted.
    pub open spec fn item_lost(
        self,
        parent_id: Seq<char>,
        id: Seq<char>,
        now: Seq<char>,
    ) -> Deletion {
        match self.task(parent_id) {
            Ok(parent) => {
                let left = queue::without_ids(parent.child_task_ids, seq![id]);
                if left.len() == 0 {
                    Deletion {
                        store: self.dequeued(seq![parent_id], now).without_task(parent_id, false),
                        removed: seq![id, parent_id],
                    }
                } else {
                    Deletion {
                        store: self.apply(
                            WriteView::SaveTask(
                                RecordView { child_task_ids: left, updated_at: now, ..parent },
                            ),
                        ),
                        removed: seq![id],
                    }
                }
            },
            Err(_) => Deletion { store: self, removed: seq![id] },
        }
    }

    /// The deletion of a task; a playlist goes with all its items. A task that is being
    /// downloaded must be stopped first, but for a playlist, whose caller sees to that.
    pub open spec fn deleted(
        self,
        task_id: Seq<char>,
        now: Seq<char>,
    ) -> Result<Deletion, StoreErrorView> {
        match self.task(task_id) {
            Err(error) => Err(error),
            Ok(task) => {
                let alone = self.dequeued(seq![task.id], now).without_task(task.id, true);
                match task.task_kind {
                    TaskKind::PlaylistParent => {
                        let all = task.child_task_ids.push(task.id);
                        Ok(
                            Deletion {
                                store: self.dequeued(all, now).without_tasks(all),
                                removed: all,
                            },
                        )
                    },
                    TaskKind::PlaylistItem => if is_running(task.state) {
                        Err(StoreErrorView::StopFirst)
                    } else {
                        match task.parent_task_id {
                            Some(parent_id) => Ok(alone.item_lost(parent_id, task.id, now)),
                            None => Ok(Deletion { store: alone, removed: seq![task.id] }),
                        }
                    },
                    TaskKind::Single => if is_running(task.state) {
                        Err(StoreErrorView::StopFirst)
                    } else {
                        Ok(Deletion { store: alone, removed: seq![task.id] })
                    },
                }
            },
        }
    }
}

fn just(id: &str) -> (r: Vec<String>)
    ensures
        text::texts(r@) == seq![id@],
{
    let mut ids: Vec<String> = Vec::new();
    ids.push(id.to_owned());
    assert(text::texts(ids@) =~= seq![id@]);
    ids
}

impl TaskStore {
    fn remove_file(&mut self, id: &str, required: bool)
        ensures
            final(self)@ == old(self)@.without_task(id@, required),
    {
        if self.has_file(id) {
            self.write(StoreWrite::RemoveTaskFile { name: id.to_owned(), required });
        }
    }

    fn remove_files(&mut self, ids: &Vec<String>)
        ensures
            final(self)@ == old(self)@.without_tasks(text::texts(ids@)),
    {
        let ghost all = text::texts(ids@);
        let ghost start = self@;
        let mut i: usize = 0;
        assert(all.take(0) =~= Seq::<Seq<char>>::empty());
        while i < ids.len()
            invariant
                i <= ids.len(),
                all == text::texts(ids@),
                self@ == start.without_tasks(all.take(i as int)),
            decreases ids.len() - i,
        {
            self.remove_file(ids[i].as_str(), true);
            i = i + 1;
            assert(all.take(i as int).drop_last() =~= all.take(i - 1));
            assert(all.take(i as int).last() == ids@[i - 1]@);
        }
        assert(all.take(i as int) =~= all);
    }

    fn lose_item(&mut self, parent_id: &str, id: &str, now: &str) -> (removed: Vec<String>)
        ensures
            (Deletion { store: final(self)@, removed: text::texts(removed@) }) == old(
                self,
            )@.item_lost(parent_id@, id@, now@),
    {
        let mut removed = just(id);
        if let Ok(parent) = self.load_task(parent_id) {
            let left = queue::remove_ids(&parent.child_task_ids, &just(id));
            assert(left@.len() == text::texts(left@).len());
            if left.len() == 0 {
                self.remove_from_queue_at(&just(parent_id), now);
                self.remove_file(parent_id, false);
                let ghost before = removed@;
                assert(text::texts(before).len() == 1 && text::texts(before)[0] == id@);
                removed.push(parent_id.to_owned());
                assert(removed@[0] == before[0]);
                assert(text::texts(removed@).len() == 2);
                assert(text::texts(removed@) =~= seq![id@, parent_id@]);
            } else {
                let mut after = parent;
                after.child_task_ids = left;
                after.stamp(now);
                self.save_task(&after);
            }
        }
        removed
    }

    /// Deletes a task, and with a playlist all its items, at `now`. Returns the ids of the tasks
    /// that are gone.
    pub fn delete_task_at(&mut self, task_id: &str, now: &str) -> (r: Result<
        Vec<String>,
        StoreError,
    >)
        ensures
            match old(self)@.deleted(task_id@, now@) {
                Ok(deletion) => r is Ok && text::texts(r->Ok_0@) == deletion.removed && final(self)@ == deletion.store,
                Err(error) => r is Err && r->Err_0@ == error && final(self)@ == old(self)@,
            },
    {
        let task = match self.load_task(task_id) {
            Ok(task) => task,
            Err(error) => {
                return Err(error);
            },
        };
        let running = task.state == TaskState::Downloading || task.state == TaskState::Stopping;
        match task.task_kind {
            TaskKind::PlaylistParent => {
                let mut all = text::clone_texts(&task.child_task_ids);
                let ghost before = all@;
                all.push(task.id.clone());
                assert(text::texts(all@) =~= text::texts(before).push(task.id@));
                self.remove_from_queue_at(&all, now);
                self.remove_files(&all);
                Ok(all)
            },
            TaskKind::PlaylistItem => {
                if running {
                    return Err(StoreError::StopFirst);
                }
                self.remove_from_queue_at(&just(task.id.as_str()), now);
                self.remove_file(task.id.as_str(), true);
                match &task.parent_task_id {
                    Some(parent_id) => Ok(
                        self.lose_item(parent_id.as_str(), task.id.as_str(), now),
                    ),
                    None => Ok(just(task.id.as_str())),
                }
            },
            TaskKind::Single => {
                if running {
                    return Err(StoreError::StopFirst);
                }
                self.remove_from_queue_at(&just(task.id.as_str()), now);
                self.remove_file(task.id.as_str(), true);
                Ok(just(task.id.as_str()))
            },
        }
    }

    /// Deletes a task, and with a playlist all its items. Returns the ids of the tasks that are
    /// gone.
    pub fn delete_task(&mut self, task_id: &str) -> (r: Result<Vec<String>, StoreError>)
        ensures
            exists|now: Seq<char>|
                clock::timestamp(now) && match #[trigger] old(self)@.deleted(task_id@, now) {
                    Ok(deletion) => r is Ok && text::texts(r->Ok_0@) == deletion.removed
                        && final(self)@ == deletion.store,
                    Err(error) => r is Err && r->Err_0@ == error && final(self)@ == old(self)@,
                },
    {
        let now = clock::now_rfc3339();
        self.delete_task_at(task_id, now.as_str())
    }
}

// ---------------------------------------------------------------------------
// Laws of deletion
// ---------------------------------------------------------------------------

proof fn lemma_without_task(store: StoreView, id: Seq<char>, required: bool, other: Seq<char>)
    ensures
        !store.without_task(id, required).has_file(id),
        store.without_task(id, required).queue == store.queue,
        store.without_task(id, required).tasks_dir == store.tasks_dir,
        other != id ==> store.without_task(id, required).task(other) == store.task(other),
        store.task(other) is Err ==> store.without_task(id, required).task(other) is Err,
        !store.has_file(other) ==> !store.without_task(id, required).has_file(other),
{
    queue::a_removed_task_is_gone(store, id, required, other);
    if other != id {
        queue::lemma_without_file(store.files, id, other);
    }
}

proof fn lemma_without_tasks(store: StoreView, ids: Seq<Seq<char>>, other: Seq<char>)
    ensures
        ids.contains(other) ==> !store.without_tasks(ids).has_file(other),
        !ids.contains(other) ==> store.without_tasks(ids).task(other) == store.task(other),
        store.without_tasks(ids).queue == store.queue,
        store.without_tasks(ids).tasks_dir == store.tasks_dir,
    decreases ids.len(),
{
    if ids.len() > 0 {
        let head = ids.drop_last();
        lemma_without_tasks(store, head, other);
        lemma_without_task(store.without_tasks(head), ids.last(), true, other);
        assert(ids.contains(other) <==> head.contains(other) || other == ids.last()) by {
            if head.contains(other) {
                let k = choose|k: int| 0 <= k < head.len() && head[k] == other;
                assert(ids[k] == other);
            }
            if other == ids.last() {
                assert(ids[ids.len() - 1] == other);
            }
            if ids.contains(other) && other != ids.last() {
                let k = choose|k: int| 0 <= k < ids.len() && ids[k] == other;
                assert(head[k] == other);
            }
        }
    }
}

proof fn lemma_dequeued(store: StoreView, ids: Seq<Seq<char>>, now: Seq<char>, id: Seq<char>)
    ensures
        store.dequeued(ids, now).files == store.files,
        store.dequeued(ids, now).tasks_dir == store.tasks_dir,
        store.dequeued(ids, now).order().contains(id) <==> store.order().contains(id)
            && !ids.contains(id),
        store.dequeued(ids, now).task(id) == store.task(id),
        store.dequeued(ids, now).has_file(id) == store.has_file(id),
{
    queue::removal_leaves_the_others(store.order(), ids, id);
}

/// What is reported as deleted is gone: its task cannot be loaded, and it does not stand in the
/// queue. The task that was asked for is among it, and so are all items of a playlist. Every
/// other task stays what it was, but for the list of items of a playlist that lost one; and
/// nothing else leaves the queue.
pub proof fn what_is_deleted_is_gone(
    store: StoreView,
    task_id: Seq<char>,
    now: Seq<char>,
    id: Seq<char>,
)
    requires
        store.filed(),
        store.deleted(task_id, now) is Ok,
    ensures
        ({
            let task = store.task(task_id)->Ok_0;
            let deletion = store.deleted(task_id, now)->Ok_0;
            &&& store.task(task_id) is Ok
            &&& deletion.removed.contains(task_id)
            &&& task.task_kind == TaskKind::PlaylistParent && task.child_task_ids.contains(id)
                ==> deletion.removed.contains(id)
            &&& deletion.removed.contains(id) ==> !deletion.store.has_file(id)
                && !deletion.store.order().contains(id)
            &&& !deletion.removed.contains(id) ==> (deletion.store.order().contains(id)
                <==> store.order().contains(id))
            &&& !deletion.removed.contains(id) && Some(id) != task.parent_task_id
                ==> deletion.store.task(id) == store.task(id)
            &&& !deletion.removed.contains(id) && store.task(id) is Ok ==> deletion.store.task(
                id,
            ) is Ok && (RecordView {
                child_task_ids: store.task(id)->Ok_0.child_task_ids,
                updated_at: store.task(id)->Ok_0.updated_at,
                ..deletion.store.task(id)->Ok_0
            }) == store.task(id)->Ok_0
        }),
{
    let task = store.task(task_id)->Ok_0;
    let deletion = store.deleted(task_id, now)->Ok_0;
    queue::lemma_file_at(store.files, task_id);
    assert(task.id == task_id);
    let all = task.child_task_ids.push(task.id);
    let one = seq![task.id];
    assert(one.contains(id) <==> id == task_id) by {
        assert(one[0] == task_id);
    }
    let out = store.dequeued(one, now);
    let alone = out.without_task(task.id, true);
    lemma_dequeued(store, one, now, id);
    lemma_dequeued(store, all, now, id);
    lemma_without_task(out, task.id, true, id);
    lemma_without_tasks(store.dequeued(all, now), all, id);
    match task.task_kind {
        TaskKind::PlaylistParent => {
            assert(all[all.len() - 1] == task_id);
            if task.child_task_ids.contains(id) {
                let k = choose|k: int|
                    0 <= k < task.child_task_ids.len() && task.child_task_ids[k] == id;
                assert(all[k] == id);
            }
        },
        TaskKind::PlaylistItem => {
            assert(seq![task.id][0] == task_id);
            if task.parent_task_id is Some {
                let parent_id = task.parent_task_id->0;
                let parent = alone.task(parent_id);
                lemma_dequeued(store, one, now, parent_id);
                lemma_without_task(out, task.id, true, parent_id);
                if parent is Ok {
                    let p = parent->Ok_0;
                    let left = queue::without_ids(p.child_task_ids, one);
                    assert(parent_id != task_id);
                    queue::lemma_file_at(store.files, parent_id);
                    assert(p.id == parent_id);
                    if left.len() == 0 {
                        let both = seq![task.id, parent_id];
                        let its = seq![parent_id];
                        assert(both[0] == task_id && both[1] == parent_id);
                        assert(its[0] == parent_id);
                        assert(both.contains(id) <==> id == task_id || id == parent_id);
                        lemma_dequeued(alone, its, now, id);
                        lemma_without_task(alone.dequeued(its, now), parent_id, false, id);
                    } else {
                        let after = RecordView { child_task_ids: left, updated_at: now, ..p };
                        queue::a_saved_task_is_loaded_again(alone, after, id);
                        if id == task_id {
                            queue::lemma_kept_out(alone, after, id);
                        }
                    }
                }
            }
        },
        TaskKind::Single => {
            assert(seq![task.id][0] == task_id);
        },
    }
}

}
