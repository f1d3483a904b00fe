//! The order in which tasks are downloaded, and what the store keeps whatever is done to it.
use vstd::prelude::*;

use crate::clock;
use crate::tasks::record::{QueueState, QueueView, RecordView};
use crate::tasks::store;
use crate::tasks::store::{FileView, StoreErrorView, StoreView, StoreWrite, TaskStore, WriteView};
use crate::text;

verus! {

/// The list without the ids in `ids`.
pub open spec fn without_ids(list: Seq<Seq<char>>, ids: Seq<Seq<char>>) -> Seq<Seq<char>>
    decreases list.len(),
{
    if list.len() == 0 {
        list
    } else if ids.contains(list.last()) {
        without_ids(list.drop_last(), ids)
    } else {
        without_ids(list.drop_last(), ids).push(list.last())
    }
}

/// The list without the ids in `ids`.
pub fn remove_ids(list: &Vec<String>, ids: &Vec<String>) -> (r: Vec<String>)
    ensures
        text::texts(r@) == without_ids(text::texts(list@), text::texts(ids@)),
{
    let ghost all = text::texts(list@);
    let ghost out = text::texts(ids@);
    let mut kept: Vec<String> = Vec::new();
    let mut i: usize = 0;
    assert(all.take(0) =~= Seq::<Seq<char>>::empty());
    assert(text::texts(kept@) =~= without_ids(all.take(0), out));
    while i < list.len()
        invariant
            i <= list.len(),
            all == text::texts(list@),
            out == text::texts(ids@),
            text::texts(kept@) == without_ids(all.take(i as int), out),
        decreases list.len() - i,
    {
        let ghost before = kept@;
        assert(all.take(i + 1).drop_last() =~= all.take(i as int));
        assert(all.take(i + 1).last() == list@[i as int]@);
        if !text::list_has(ids, list[i].as_str()) {
            kept.push(list[i].clone());
            assert(text::texts(kept@) =~= text::texts(before).push(list@[i as int]@));
        }
        i = i + 1;
    }
    assert(all.take(i as int) =~= all);
    kept
}

impl StoreView {
    /// The store after a task was put at the end of the queue, unless it is in there already.
    pub open spec fn appended(self, id: Seq<char>, now: Seq<char>) -> StoreView {
        let made = self.queue_made(now);
        if self.order().contains(id) {
            made
        } else {
            made.apply(
                WriteView::SaveQueue(
                    QueueView { task_order: self.order().push(id), updated_at: now },
                ),
            )
        }
    }

    /// The store after these tasks were taken out of the queue.
    pub open spec fn dequeued(self, ids: Seq<Seq<char>>, now: Seq<char>) -> StoreView {
        self.queue_made(now).apply(
            WriteView::SaveQueue(
                QueueView { task_order: without_ids(self.order(), ids), updated_at: now },
            ),
        )
    }
}

impl TaskStore {
    /// Puts a task at the end of the queue, unless it is in there already.
    pub fn append_to_queue_at(&mut self, task_id: &str, now: &str)
        ensures
            final(self)@ == old(self)@.appended(task_id@, now@),
    {
        let mut queue = self.load_or_create_queue_at(now);
        if !text::list_has(&queue.task_order, task_id) {
            let ghost before = queue.task_order@;
            queue.task_order.push(task_id.to_owned());
            assert(text::texts(queue.task_order@) =~= text::texts(before).push(task_id@));
            queue.updated_at = now.to_owned();
            self.write(StoreWrite::SaveQueue(queue));
        }
    }

    /// Puts a task at the end of the queue, unless it is in there already.
    pub fn append_to_queue(&mut self, task_id: &str)
        ensures
            exists|now: Seq<char>|
                clock::timestamp(now) && final(self)@ == #[trigger] old(self)@.appended(
                    task_id@,
                    now,
                ),
    {
        let now = clock::now_rfc3339();
        self.append_to_queue_at(task_id, now.as_str());
    }

    /// Takes tasks out of the queue.
    pub fn remove_from_queue_at(&mut self, task_ids: &Vec<String>, now: &str)
        ensures
            final(self)@ == old(self)@.dequeued(text::texts(task_ids@), now@),
    {
        let queue = self.load_or_create_queue_at(now);
        let task_order = remove_ids(&queue.task_order, task_ids);
        self.write(StoreWrite::SaveQueue(QueueState { task_order, updated_at: now.to_owned() }));
    }

    /// Takes tasks out of the queue.
    pub fn remove_from_queue(&mut self, task_ids: &Vec<String>)
        ensures
            exists|now: Seq<char>|
                clock::timestamp(now) && final(self)@ == #[trigger] old(self)@.dequeued(
                    text::texts(task_ids@),
                    now,
                ),
    {
        let now = clock::now_rfc3339();
        self.remove_from_queue_at(task_ids, now.as_str());
    }
}

// ---------------------------------------------------------------------------
// Laws of the queue
// ---------------------------------------------------------------------------

/// Taking ids out leaves exactly the others, each as often as it was there.
pub proof fn removal_leaves_the_others(list: Seq<Seq<char>>, ids: Seq<Seq<char>>, id: Seq<char>)
    ensures
        without_ids(list, ids).contains(id) <==> list.contains(id) && !ids.contains(id),
        list.no_duplicates() ==> without_ids(list, ids).no_duplicates(),
    decreases list.len(),
{
    if list.len() > 0 {
        let head = list.drop_last();
        let rest = without_ids(head, ids);
        removal_leaves_the_others(head, ids, id);
        removal_leaves_the_others(head, ids, list.last());
        assert(list =~= head.push(list.last()));
        assert(list.contains(id) <==> head.contains(id) || id == list.last()) by {
            if head.contains(id) {
                let k = choose|k: int| 0 <= k < head.len() && head[k] == id;
                assert(list[k] == id);
            }
            if id == list.last() {
                assert(list[list.len() - 1] == id);
            }
        }
        if !ids.contains(list.last()) {
            let kept = rest.push(list.last());
            assert(kept.contains(id) <==> rest.contains(id) || id == list.last()) by {
                if rest.contains(id) {
                    let k = choose|k: int| 0 <= k < rest.len() && rest[k] == id;
                    assert(kept[k] == id);
                }
                if id == list.last() {
                    assert(kept[kept.len() - 1] == id);
                }
            }
            if list.no_duplicates() {
                assert(!head.contains(list.last())) by {
                    if head.contains(list.last()) {
                        let k = choose|k: int| 0 <= k < head.len() && head[k] == list.last();
                        assert(list[k] == list[list.len() - 1]);
                    }
                }
                assert forall|i: int, j: int|
                    0 <= i < kept.len() && 0 <= j < kept.len() && i != j implies kept[i]
                    != kept[j] by {
                    if i < rest.len() && j < rest.len() {
                    } else if i < rest.len() {
                        assert(rest.contains(rest[i]));
                    } else {
                        assert(rest.contains(rest[j]));
                    }
                }
            }
        }
    }
}

/// No task stands in the queue twice: a queue without repetitions stays so.
pub proof fn queue_stays_without_repetitions(
    store: StoreView,
    id: Seq<char>,
    ids: Seq<Seq<char>>,
    now: Seq<char>,
)
    requires
        store.order().no_duplicates(),
    ensures
        store.appended(id, now).order().no_duplicates(),
        store.dequeued(ids, now).order().no_duplicates(),
{
    removal_leaves_the_others(store.order(), ids, id);
    if !store.order().contains(id) {
        let longer = store.order().push(id);
        assert forall|i: int, j: int|
            0 <= i < longer.len() && 0 <= j < longer.len() && i != j implies longer[i]
            != longer[j] by {
            if i < store.order().len() && j < store.order().len() {
            } else if i < store.order().len() {
                assert(store.order().contains(store.order()[i]));
            } else {
                assert(store.order().contains(store.order()[j]));
            }
        }
    }
}

/// A task that was put in the queue is in it, and those that were in it keep their places.
pub proof fn appending_keeps_places(store: StoreView, id: Seq<char>, now: Seq<char>)
    ensures
        store.appended(id, now).order().contains(id),
        store.order().is_prefix_of(store.appended(id, now).order()),
        store.appended(id, now).files == store.files,
{
    if !store.order().contains(id) {
        let longer = store.order().push(id);
        assert(longer[longer.len() - 1] == id);
    }
}

// ---------------------------------------------------------------------------
// Laws of the store
// ---------------------------------------------------------------------------

/// The place that `file_at` gives is the first one with the name.
pub proof fn lemma_file_at(files: Seq<FileView>, name: Seq<char>)
    ensures
        0 <= store::file_at(files, name) <= files.len(),
        store::file_at(files, name) < files.len() ==> files[store::file_at(files, name)].name
            == name,
        forall|i: int|
            0 <= i < store::file_at(files, name) ==> (#[trigger] files[i]).name != name,
    decreases files.len(),
{
    if files.len() > 0 && files[0].name != name {
        let rest = files.skip(1);
        lemma_file_at(rest, name);
        assert forall|i: int| 0 <= i < store::file_at(files, name) implies (#[trigger] files[i]).name
            != name by {
            if i > 0 {
                assert(files[i] == rest[i - 1]);
            }
        }
    }
}

proof fn lemma_file_at_is(files: Seq<FileView>, name: Seq<char>, i: int)
    requires
        0 <= i <= files.len(),
        i < files.len() ==> files[i].name == name,
        forall|j: int| 0 <= j < i ==> (#[trigger] files[j]).name != name,
    ensures
        store::file_at(files, name) == i,
{
    lemma_file_at(files, name);
    let k = store::file_at(files, name);
    if k < i {
        assert(files[k].name == name);
    }
    if i < k {
        assert(files[i].name != name);
    }
}

/// A read gives back what was written: a task that was saved is what is then loaded under its
/// id, and every other task is loaded as before.
pub proof fn a_saved_task_is_loaded_again(store: StoreView, task: RecordView, id: Seq<char>)
    ensures
        store.apply(WriteView::SaveTask(task)).task(task.id) == Ok::<RecordView, StoreErrorView>(
            task,
        ),
        id != task.id ==> store.apply(WriteView::SaveTask(task)).task(id) == store.task(id),
{
    let files = store.files;
    let at = store::file_at(files, task.id);
    let saved = store.apply(WriteView::SaveTask(task)).files;
    lemma_file_at(files, task.id);
    lemma_file_at_is(saved, task.id, at);
    if id != task.id {
        lemma_file_at(files, id);
        let k = store::file_at(files, id);
        if k < files.len() {
            lemma_file_at_is(saved, id, k);
        } else {
            lemma_file_at_is(saved, id, saved.len() as int);
        }
    }
}

/// Taking files out leaves the first of every other name.
pub proof fn lemma_without_file(files: Seq<FileView>, name: Seq<char>, other: Seq<char>)
    ensures
        forall|i: int|
            0 <= i < store::without_file(files, name).len() ==> (#[trigger] store::without_file(
                files,
                name,
            )[i]).name != name,
        other != name ==> {
            let k = store::file_at(files, other);
            let rest = store::without_file(files, name);
            let m = store::file_at(rest, other);
            (k < files.len() <==> m < rest.len()) && (k < files.len() ==> rest[m] == files[k])
        },
    decreases files.len(),
{
    if files.len() > 0 {
        let head = files.drop_last();
        let file = files.last();
        let kept = store::without_file(head, name);
        lemma_without_file(head, name, other);
        if other != name {
            lemma_file_at(files, other);
            lemma_file_at(head, other);
            lemma_file_at(kept, other);
            let k = store::file_at(head, other);
            let m = store::file_at(kept, other);
            assert(forall|j: int| 0 <= j < head.len() ==> #[trigger] files[j] == head[j]);
            if k < head.len() {
                lemma_file_at_is(files, other, k);
                if file.name != name {
                    lemma_file_at_is(kept.push(file), other, m);
                }
            } else if file.name == other {
                lemma_file_at_is(files, other, head.len() as int);
                lemma_file_at_is(kept.push(file), other, kept.len() as int);
            } else {
                lemma_file_at_is(files, other, files.len() as int);
                if file.name != name {
                    lemma_file_at_is(kept.push(file), other, (kept.len() + 1) as int);
                }
            }
        }
    }
}

/// A task whose file was removed cannot be loaded any more, and every other task is loaded as
/// before.
pub proof fn a_removed_task_is_gone(
    store: StoreView,
    name: Seq<char>,
    required: bool,
    id: Seq<char>,
)
    ensures
        !store.apply(WriteView::RemoveTaskFile { name, required }).has_file(name),
        store.apply(WriteView::RemoveTaskFile { name, required }).task(name) == Err::<
            RecordView,
            StoreErrorView,
        >(StoreErrorView::ReadTask(store.task_path(name))),
        id != name ==> store.apply(WriteView::RemoveTaskFile { name, required }).task(id)
            == store.task(id),
{
    lemma_without_file(store.files, name, id);
    let rest = store::without_file(store.files, name);
    lemma_file_at_is(rest, name, rest.len() as int);
}

/// Saving one task makes no file for another.
pub proof fn lemma_kept_out(store: StoreView, task: RecordView, id: Seq<char>)
    requires
        !store.has_file(id),
        task.id != id,
    ensures
        !store.apply(WriteView::SaveTask(task)).has_file(id),
{
    let saved = store.apply(WriteView::SaveTask(task)).files;
    lemma_file_at(store.files, id);
    lemma_file_at(store.files, task.id);
    lemma_file_at_is(saved, id, saved.len() as int);
}

}
