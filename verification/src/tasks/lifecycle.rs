//! Which task is next, and what becomes of tasks that were interrupted.
use vstd::prelude::*;

use crate::clock;
use crate::tasks::record;
use crate::tasks::record::{RecordView, TaskKind, TaskRecord, TaskState};
use crate::tasks::rewrite;
use crate::tasks::store::{StoreErrorView, StoreView, TaskStore};
use crate::text;

verus! {

// ---------------------------------------------------------------------------
// The next task
// ---------------------------------------------------------------------------

/// A task that may be downloaded now. A playlist parent never is: it only stands for its items.
pub open spec fn may_start(task: RecordView) -> bool {
    task.task_kind != TaskKind::PlaylistParent && task.state == TaskState::Queued
}

impl StoreView {
    /// The task of this id may be downloaded now.
    pub open spec fn startable(self, id: Seq<char>, excluded: Seq<Seq<char>>) -> bool {
        !excluded.contains(id) && (self.task(id) matches Ok(task) && may_start(task))
    }

    /// The first task of `ids` that may be downloaded now.
    pub open spec fn first_startable(
        self,
        ids: Seq<Seq<char>>,
        excluded: Seq<Seq<char>>,
    ) -> Option<RecordView>
        decreases ids.len(),
    {
        if ids.len() == 0 {
            None
        } else if self.startable(ids[0], excluded) {
            Some(self.task(ids[0])->Ok_0)
        } else {
            self.first_startable(ids.skip(1), excluded)
        }
    }
}

/// Whether a task may be downloaded now.
pub fn is_startable(task: &TaskRecord) -> (r: bool)
    ensures
        r == may_start(task@),
{
    task.task_kind != TaskKind::PlaylistParent && task.state == TaskState::Queued
}

impl TaskStore {
    /// The first task in the queue that may be downloaded now and is not in `excluded_ids`. A
    /// queue that is missing is made at `now`.
    pub fn find_first_queued_task_excluding_at(
        &mut self,
        excluded_ids: &Vec<String>,
        now: &str,
    ) -> (r: Option<TaskRecord>)
        ensures
            record::record_opt(r) == old(self)@.first_startable(
                old(self)@.order(),
                text::texts(excluded_ids@),
            ),
            final(self)@ == old(self)@.queue_made(now@),
    {
        let queue = self.load_or_create_queue_at(now);
        let ghost start = old(self)@;
        let ghost all = start.order();
        let ghost excluded = text::texts(excluded_ids@);
        let mut i: usize = 0;
        assert(all.skip(0) =~= all);
        while i < queue.task_order.len()
            invariant
                i <= queue.task_order.len(),
                all == text::texts(queue.task_order@),
                excluded == text::texts(excluded_ids@),
                start == old(self)@,
                all == start.order(),
                self@ == start.queue_made(now@),
                start.first_startable(all, excluded) == start.first_startable(
                    all.skip(i as int),
                    excluded,
                ),
            decreases queue.task_order.len() - i,
        {
            assert(all.skip(i as int)[0] == queue.task_order@[i as int]@);
            assert(all.skip(i as int).skip(1) =~= all.skip(i + 1));
            assert(self@.task(all[i as int]) == start.task(all[i as int]));
            if !text::list_has(excluded_ids, queue.task_order[i].as_str()) {
                match self.load_task(queue.task_order[i].as_str()) {
                    Ok(task) => {
                        if is_startable(&task) {
                            return Some(task);
                        }
                    },
                    Err(_) => {},
                }
            }
            i = i + 1;
        }
        None
    }

    /// The first task in the queue that may be downloaded now and is not in `excluded_ids`.
    pub fn find_first_queued_task_excluding(
        &mut self,
        excluded_ids: &Vec<String>,
    ) -> (r: Option<TaskRecord>)
        ensures
            record::record_opt(r) == old(self)@.first_startable(
                old(self)@.order(),
                text::texts(excluded_ids@),
            ),
            exists|now: Seq<char>|
                clock::timestamp(now) && final(self)@ == #[trigger] old(self)@.queue_made(now),
    {
        let now = clock::now_rfc3339();
        self.find_first_queued_task_excluding_at(excluded_ids, now.as_str())
    }
}

/// First come, first served: the task that is chosen stands in the queue, may be downloaded, is
/// no playlist parent and not excluded, and nothing before it may be downloaded. Nothing is
/// chosen only where nothing may be downloaded.
pub proof fn dispatch_is_first_come_first_served(
    store: StoreView,
    ids: Seq<Seq<char>>,
    excluded: Seq<Seq<char>>,
)
    ensures
        match store.first_startable(ids, excluded) {
            Some(task) => exists|i: int|
                0 <= i < ids.len() && store.task(#[trigger] ids[i]) == Ok::<
                    RecordView,
                    StoreErrorView,
                >(task) && store.startable(ids[i], excluded) && task.task_kind
                    != TaskKind::PlaylistParent && task.state == TaskState::Queued && forall|j: int|
                    0 <= j < i ==> !store.startable(#[trigger] ids[j], excluded),
            None => forall|j: int|
                0 <= j < ids.len() ==> !store.startable(#[trigger] ids[j], excluded),
        },
    decreases ids.len(),
{
    if ids.len() > 0 {
        if store.startable(ids[0], excluded) {
            assert(store.task(ids[0]) is Ok);
        } else {
            let rest = ids.skip(1);
            dispatch_is_first_come_first_served(store, rest, excluded);
            match store.first_startable(rest, excluded) {
                Some(task) => {
                    let i = choose|i: int|
                        0 <= i < rest.len() && store.task(#[trigger] rest[i]) == Ok::<
                            RecordView,
                            StoreErrorView,
                        >(task) && store.startable(rest[i], excluded) && forall|j: int|
                            0 <= j < i ==> !store.startable(#[trigger] rest[j], excluded);
                    assert(ids[i + 1] == rest[i]);
                    assert forall|j: int| 0 <= j < i + 1 implies !store.startable(
                        #[trigger] ids[j],
                        excluded,
                    ) by {
                        if j > 0 {
                            assert(rest[j - 1] == ids[j]);
                        }
                    }
                },
                None => {
                    assert forall|j: int| 0 <= j < ids.len() implies !store.startable(
                        #[trigger] ids[j],
                        excluded,
                    ) by {
                        if j > 0 {
                            assert(rest[j - 1] == ids[j]);
                        }
                    }
                },
            }
        }
    }
}

// ---------------------------------------------------------------------------
// Recovery
// ---------------------------------------------------------------------------

/// A state that only a running application can be in.
pub open spec fn in_flight(state: TaskState) -> bool {
    state == TaskState::Downloading || state == TaskState::Stopping || state
        == TaskState::Submitted || state == TaskState::Resolving
}

/// What becomes of a task that the last run of the application left behind; `None` where it
/// stays as it is. A download that was interrupted can be resumed; a look-up cannot.
pub open spec fn recovered(task: RecordView, now: Seq<char>) -> Option<RecordView> {
    match task.state {
        TaskState::Downloading | TaskState::Stopping => Some(
            RecordView {
                state: TaskState::Paused,
                last_error: Some("应用在下载过程中退出，任务已恢复为可继续状态"@),
                updated_at: now,
                ..task
            },
        ),
        TaskState::Submitted | TaskState::Resolving => Some(
            RecordView {
                state: TaskState::Failed,
                last_error: Some("应用在解析阶段退出，任务已标记为失败"@),
                updated_at: now,
                ..task
            },
        ),
        _ => None,
    }
}

/// The recovery at `now`.
pub open spec fn recovery(now: Seq<char>) -> rewrite::Change {
    |task: RecordView| recovered(task, now)
}

/// What becomes of a task that the last run of the application left behind.
pub fn recover_task(task: &TaskRecord, now: &str) -> (r: Option<TaskRecord>)
    ensures
        record::record_opt(r) == recovered(task@, now@),
{
    let mut after = task.clone();
    match task.state {
        TaskState::Downloading | TaskState::Stopping => {
            after.state = TaskState::Paused;
            after.last_error = Some("应用在下载过程中退出，任务已恢复为可继续状态".to_owned());
        },
        TaskState::Submitted | TaskState::Resolving => {
            after.state = TaskState::Failed;
            after.last_error = Some("应用在解析阶段退出，任务已标记为失败".to_owned());
        },
        _ => {
            return None;
        },
    }
    after.stamp(now);
    Some(after)
}

impl TaskStore {
    /// Recovers all tasks that the last run of the application left behind, at `now`.
    pub fn recover_on_startup_at(&mut self, now: &str)
        ensures
            final(self)@ == old(self)@.rewritten(recovery(now@)),
    {
        let tasks = self.load_all_tasks();
        let ghost all = record::records_view(tasks@);
        let ghost change = recovery(now@);
        let mut list: Vec<TaskRecord> = Vec::new();
        let mut i: usize = 0;
        assert(all.take(0) =~= Seq::<RecordView>::empty());
        assert(record::records_view(list@) =~= rewrite::changed(all.take(0), change));
        while i < tasks.len()
            invariant
                i <= tasks.len(),
                all == record::records_view(tasks@),
                change == recovery(now@),
                record::records_view(list@) == rewrite::changed(all.take(i as int), change),
            decreases tasks.len() - i,
        {
            let ghost before = list@;
            assert(all.take(i + 1).drop_last() =~= all.take(i as int));
            assert(all.take(i + 1).last() == tasks@[i as int]@);
            if let Some(after) = recover_task(&tasks[i], now) {
                list.push(after);
                assert(record::records_view(list@) =~= record::records_view(before).push(after@));
            }
            i = i + 1;
        }
        assert(all.take(i as int) =~= all);
        self.save_tasks(&list);
    }

    /// Recovers all tasks that the last run of the application left behind.
    pub fn recover_on_startup(&mut self)
        ensures
            exists|now: Seq<char>|
                clock::timestamp(now) && final(self)@ == #[trigger] old(self)@.rewritten(
                    recovery(now),
                ),
    {
        let now = clock::now_rfc3339();
        self.recover_on_startup_at(now.as_str());
    }
}

/// After a recovery nothing is in flight: every task that was is paused or failed, every other
/// one is as it was, and the queue is untouched. A second recovery changes nothing more.
pub proof fn recovery_leaves_nothing_in_flight(store: StoreView, now: Seq<char>, id: Seq<char>)
    requires
        store.filed(),
    ensures
        match store.task(id) {
            Ok(task) => {
                &&& store.rewritten(recovery(now)).task(id) is Ok
                &&& ({
                    let after = store.rewritten(recovery(now)).task(id)->Ok_0;
                    &&& !in_flight(after.state)
                    &&& !in_flight(task.state) ==> after == task
                    &&& after == (RecordView {
                        state: after.state,
                        last_error: after.last_error,
                        updated_at: after.updated_at,
                        ..task
                    })
                    &&& forall|later: Seq<char>| recovered(after, later) is None
                })
            },
            Err(_) => store.rewritten(recovery(now)).task(id) is Err,
        },
        store.rewritten(recovery(now)).queue == store.queue,
{
    assert(rewrite::keeps_ids(recovery(now)));
    rewrite::a_change_reaches_every_task(store, recovery(now), id);
}

}
