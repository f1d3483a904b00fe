//! What is noted in the journal is all that is done.
use vstd::prelude::*;

use crate::library::names::ChangeView;
use crate::tasks::places;
use crate::tasks::queue;
use crate::tasks::record::RecordView;
use crate::tasks::requests::OrderView;
use crate::tasks::rewrite;
use crate::tasks::store;
use crate::tasks::store::{ContentView, FileView, StoreView, WriteView};

verus! {

impl StoreView {
    /// `after` came about by writes that were noted: carrying out on what was there what was
    /// noted since gives what is there now.
    pub open spec fn leads_to(self, after: StoreView) -> bool {
        exists|writes: Seq<WriteView>|
            after == #[trigger] self.apply_all(writes) && after.journal == self.journal + writes
    }
}

proof fn lemma_noted(store: StoreView, writes: Seq<WriteView>)
    ensures
        store.apply_all(writes).journal == store.journal + writes,
    decreases writes.len(),
{
    if writes.len() == 0 {
        assert(store.journal + writes =~= store.journal);
    } else {
        lemma_noted(store, writes.drop_last());
        assert(store.journal + writes =~= (store.journal + writes.drop_last()).push(
            writes.last(),
        ));
    }
}

proof fn lemma_stays(store: StoreView)
    ensures
        store.leads_to(store),
{
    let none = Seq::<WriteView>::empty();
    lemma_noted(store, none);
    assert(store.apply_all(none) == store);
}

proof fn lemma_step(store: StoreView, between: StoreView, write: WriteView)
    requires
        store.leads_to(between),
    ensures
        store.leads_to(between.apply(write)),
{
    let writes = choose|writes: Seq<WriteView>|
        between == #[trigger] store.apply_all(writes) && between.journal == store.journal + writes;
    let more = writes.push(write);
    assert(more.drop_last() =~= writes);
    lemma_noted(store, more);
    assert(store.apply_all(more) == between.apply(write));
}

proof fn lemma_apply_all_joins(store: StoreView, a: Seq<WriteView>, b: Seq<WriteView>)
    ensures
        store.apply_all(a).apply_all(b) == store.apply_all(a + b),
    decreases b.len(),
{
    if b.len() == 0 {
        assert(a + b =~= a);
    } else {
        lemma_apply_all_joins(store, a, b.drop_last());
        assert((a + b).drop_last() =~= a + b.drop_last());
    }
}

proof fn lemma_onward(store: StoreView, between: StoreView, after: StoreView)
    requires
        store.leads_to(between),
        between.leads_to(after),
    ensures
        store.leads_to(after),
{
    let a = choose|a: Seq<WriteView>|
        between == #[trigger] store.apply_all(a) && between.journal == store.journal + a;
    let b = choose|b: Seq<WriteView>|
        after == #[trigger] between.apply_all(b) && after.journal == between.journal + b;
    lemma_apply_all_joins(store, a, b);
    lemma_noted(store, a + b);
    assert(store.apply_all(a + b) == after);
}

proof fn lemma_queue_made(store: StoreView, now: Seq<char>)
    ensures
        store.leads_to(store.queue_made(now)),
{
    lemma_stays(store);
    if store.queue is None {
        lemma_step(store, store, store.queue_made(now).journal.last());
    }
}

proof fn lemma_appended(store: StoreView, id: Seq<char>, now: Seq<char>)
    ensures
        store.leads_to(store.appended(id, now)),
{
    lemma_queue_made(store, now);
    if !store.order().contains(id) {
        lemma_step(store, store.queue_made(now), store.appended(id, now).journal.last());
    }
}

proof fn lemma_dequeued(store: StoreView, ids: Seq<Seq<char>>, now: Seq<char>)
    ensures
        store.leads_to(store.dequeued(ids, now)),
{
    lemma_queue_made(store, now);
    lemma_step(store, store.queue_made(now), store.dequeued(ids, now).journal.last());
}

proof fn lemma_dropped(store: StoreView, names: Seq<Seq<char>>)
    ensures
        store.leads_to(store.dropped(names)),
    decreases names.len(),
{
    lemma_stays(store);
    if names.len() > 0 {
        lemma_dropped(store, names.drop_last());
        lemma_step(
            store,
            store.dropped(names.drop_last()),
            WriteView::RemoveTaskFile { name: names.last(), required: false },
        );
    }
}

proof fn lemma_saved_all(store: StoreView, tasks: Seq<RecordView>)
    ensures
        store.leads_to(store.saved_all(tasks)),
    decreases tasks.len(),
{
    lemma_stays(store);
    if tasks.len() > 0 {
        lemma_saved_all(store, tasks.drop_last());
        lemma_step(store, store.saved_all(tasks.drop_last()), WriteView::SaveTask(tasks.last()));
    }
}

proof fn lemma_rewritten(store: StoreView, change: rewrite::Change)
    ensures
        store.leads_to(store.rewritten(change)),
{
    let tasks = rewrite::changed(store.tasks(), change);
    lemma_dropped(store, store::corrupted_in(store.files));
    lemma_saved_all(store.swept(), tasks);
    lemma_onward(store, store.swept(), store.swept().saved_all(tasks));
}

proof fn lemma_enqueued(store: StoreView, task: RecordView, now: Seq<char>)
    ensures
        store.leads_to(store.enqueued(task, now)),
{
    let saved = store.apply(WriteView::SaveTask(task));
    lemma_stays(store);
    lemma_step(store, store, WriteView::SaveTask(task));
    lemma_appended(saved, task.id, now);
    lemma_onward(store, saved, saved.appended(task.id, now));
}

proof fn lemma_enqueued_all(store: StoreView, tasks: Seq<RecordView>, now: Seq<char>)
    ensures
        store.leads_to(store.enqueued_all(tasks, now)),
    decreases tasks.len(),
{
    lemma_stays(store);
    if tasks.len() > 0 {
        let before = store.enqueued_all(tasks.drop_last(), now);
        lemma_enqueued_all(store, tasks.drop_last(), now);
        lemma_enqueued(before, tasks.last(), now);
        lemma_onward(store, before, before.enqueued(tasks.last(), now));
    }
}

proof fn lemma_without_task(store: StoreView, id: Seq<char>, required: bool)
    ensures
        store.leads_to(store.without_task(id, required)),
{
    lemma_stays(store);
    if store.has_file(id) {
        lemma_step(store, store, WriteView::RemoveTaskFile { name: id, required });
    }
}

proof fn lemma_without_tasks(store: StoreView, ids: Seq<Seq<char>>)
    ensures
        store.leads_to(store.without_tasks(ids)),
    decreases ids.len(),
{
    lemma_stays(store);
    if ids.len() > 0 {
        let before = store.without_tasks(ids.drop_last());
        lemma_without_tasks(store, ids.drop_last());
        lemma_without_task(before, ids.last(), true);
        lemma_onward(store, before, before.without_task(ids.last(), true));
    }
}

proof fn lemma_item_lost(store: StoreView, parent_id: Seq<char>, id: Seq<char>, now: Seq<char>)
    ensures
        store.leads_to(store.item_lost(parent_id, id, now).store),
{
    lemma_stays(store);
    if store.task(parent_id) is Ok {
        let parent = store.task(parent_id)->Ok_0;
        let left = queue::without_ids(parent.child_task_ids, seq![id]);
        if left.len() == 0 {
            let out = store.dequeued(seq![parent_id], now);
            lemma_dequeued(store, seq![parent_id], now);
            lemma_without_task(out, parent_id, false);
            lemma_onward(store, out, out.without_task(parent_id, false));
        } else {
            lemma_step(
                store,
                store,
                WriteView::SaveTask(RecordView { child_task_ids: left, updated_at: now, ..parent }),
            );
        }
    }
}

proof fn lemma_deleted(store: StoreView, task_id: Seq<char>, now: Seq<char>)
    requires
        store.deleted(task_id, now) is Ok,
    ensures
        store.leads_to(store.deleted(task_id, now)->Ok_0.store),
{
    let task = store.task(task_id)->Ok_0;
    let all = task.child_task_ids.push(task.id);
    let out = store.dequeued(all, now);
    lemma_dequeued(store, all, now);
    lemma_without_tasks(out, all);
    lemma_onward(store, out, out.without_tasks(all));
    let one = store.dequeued(seq![task.id], now);
    let alone = one.without_task(task.id, true);
    lemma_dequeued(store, seq![task.id], now);
    lemma_without_task(one, task.id, true);
    lemma_onward(store, one, alone);
    if task.parent_task_id is Some {
        let parent_id = task.parent_task_id->0;
        lemma_item_lost(alone, parent_id, task.id, now);
        lemma_onward(store, alone, alone.item_lost(parent_id, task.id, now).store);
    }
}

/// Whatever an operation does to the store, it notes in the journal: carrying out the journal on
/// disk, in order, brings the disk to where the store is.
pub proof fn the_journal_tells_everything(
    store: StoreView,
    id: Seq<char>,
    ids: Seq<Seq<char>>,
    task: RecordView,
    order: OrderView,
    names: Seq<Seq<char>>,
    moved: Seq<ChangeView>,
    change: rewrite::Change,
    millis: int,
    first: u64,
    now: Seq<char>,
)
    ensures
        store.leads_to(store.queue_made(now)),
        store.leads_to(store.appended(id, now)),
        store.leads_to(store.dequeued(ids, now)),
        store.leads_to(store.apply(WriteView::SaveTask(task))),
        store.leads_to(store.swept()),
        store.leads_to(store.queue_made(now).swept()),
        store.leads_to(store.rewritten(change)),
        store.leads_to(store.after_moves(moved, now)),
        store.leads_to(store.after_deletions(ids, now)),
        store.leads_to(store.considered(order)),
        store.leads_to(store.considered(order).enqueued(task, now)),
        store.leads_to(store.batch_searched(order)),
        store.leads_to(store.batch_created(order, names, millis, first, now)),
        store.deleted(id, now) matches Ok(deletion) ==> store.leads_to(deletion.store),
{
    lemma_stays(store);
    lemma_queue_made(store, now);
    lemma_appended(store, id, now);
    lemma_dequeued(store, ids, now);
    lemma_step(store, store, WriteView::SaveTask(task));
    lemma_dropped(store, store::corrupted_in(store.files));
    let made = store.queue_made(now);
    lemma_dropped(made, store::corrupted_in(made.files));
    lemma_onward(store, made, made.swept());
    lemma_rewritten(store, change);
    lemma_rewritten(store, places::relocation(moved, now));
    lemma_rewritten(store, places::pruning(ids, now));
    lemma_enqueued(store.considered(order), task, now);
    lemma_onward(
        store,
        store.considered(order),
        store.considered(order).enqueued(task, now),
    );
    let searched = store.batch_searched(order);
    let parent = store.batch_parent(order, names, millis, first, now);
    let items = store.batch_items(order, names, millis, first, now);
    let saved = searched.apply(WriteView::SaveTask(parent));
    lemma_step(store, searched, WriteView::SaveTask(parent));
    lemma_enqueued_all(saved, items, now);
    lemma_onward(store, saved, saved.enqueued_all(items, now));
    if store.deleted(id, now) is Ok {
        lemma_deleted(store, id, now);
    }
}

proof fn lemma_without_file_filed(files: Seq<FileView>, name: Seq<char>)
    requires
        forall|i: int|
            0 <= i < files.len() ==> ((#[trigger] files[i]).content matches ContentView::Task(task)
                ==> task.id == files[i].name),
        forall|i: int, j: int|
            0 <= i < j < files.len() ==> (#[trigger] files[i]).name != (#[trigger] files[j]).name,
    ensures
        ({
            let rest = store::without_file(files, name);
            &&& forall|i: int|
                0 <= i < rest.len() ==> ((#[trigger] rest[i]).content matches ContentView::Task(
                    task,
                ) ==> task.id == rest[i].name)
            &&& forall|i: int, j: int|
                0 <= i < j < rest.len() ==> (#[trigger] rest[i]).name != (#[trigger] rest[j]).name
            &&& forall|i: int| 0 <= i < rest.len() ==> files.contains(#[trigger] rest[i])
        }),
    decreases files.len(),
{
    if files.len() > 0 {
        let head = files.drop_last();
        let before = store::without_file(head, name);
        let rest = store::without_file(files, name);
        assert(forall|i: int| 0 <= i < head.len() ==> #[trigger] head[i] == files[i]);
        lemma_without_file_filed(head, name);
        assert forall|i: int| 0 <= i < before.len() implies files.contains(
            #[trigger] before[i],
        ) by {
            let k = choose|k: int| 0 <= k < head.len() && head[k] == before[i];
            assert(files[k] == before[i]);
        }
        assert(files[files.len() - 1] == files.last());
        if files.last().name != name {
            assert(rest == before.push(files.last()));
            assert forall|i: int, j: int| 0 <= i < j < rest.len() implies (#[trigger] rest[i]).name
                != (#[trigger] rest[j]).name by {
                assert(rest[i] == before[i]);
                if j < before.len() {
                    assert(rest[j] == before[j]);
                } else {
                    assert(head.contains(before[i]));
                    let k = choose|k: int| 0 <= k < head.len() && head[k] == before[i];
                    assert(files[k].name != files[files.len() - 1].name);
                }
            }
        }
    }
}

/// Every write leaves each task in the one file that is named by its id.
pub proof fn files_stay_named_by_id(store: StoreView, write: WriteView)
    requires
        store.filed(),
    ensures
        store.apply(write).filed(),
{
    let files = store.files;
    match write {
        WriteView::SaveTask(task) => {
            queue::lemma_file_at(files, task.id);
            let at = store::file_at(files, task.id);
            let saved = store::with_task(files, task);
            assert forall|i: int, j: int| 0 <= i < j < saved.len() implies (
            #[trigger] saved[i]).name != (#[trigger] saved[j]).name by {
                if i < files.len() && j < files.len() {
                    assert(files[i].name == saved[i].name && files[j].name == saved[j].name);
                } else {
                    assert(files[i].name == saved[i].name);
                }
            }
        },
        WriteView::SaveQueue(_) => {},
        WriteView::RemoveTaskFile { name, .. } => {
            lemma_without_file_filed(files, name);
        },
    }
}

}
