//! The order in which tasks are shown and dispatched.
use vstd::hash_set::StringHashSet;
use vstd::prelude::*;

use crate::clock;
use crate::order;
use crate::tasks::record;
use crate::tasks::record::{RecordView, TaskRecord};
use crate::tasks::store::TaskStore;
use crate::text;

verus! {

// ---------------------------------------------------------------------------
// Tasks by id
// ---------------------------------------------------------------------------

/// The last task with this id.
pub open spec fn by_id(tasks: Seq<RecordView>, id: Seq<char>) -> Option<RecordView>
    decreases tasks.len(),
{
    if tasks.len() == 0 {
        None
    } else if tasks.last().id == id {
        Some(tasks.last())
    } else {
        by_id(tasks.drop_last(), id)
    }
}

/// The last task with this id.
pub fn find_by_id<'a>(tasks: &'a Vec<TaskRecord>, id: &str) -> (r: Option<&'a TaskRecord>)
    ensures
        match r {
            Some(task) => by_id(record::records_view(tasks@), id@) == Some(task@),
            None => by_id(record::records_view(tasks@), id@) is None,
        },
{
    let ghost all = record::records_view(tasks@);
    let wanted = id.to_owned();
    let mut i: usize = tasks.len();
    assert(all.take(i as int) =~= all);
    while i > 0
        invariant
            i <= tasks.len(),
            wanted@ == id@,
            all == record::records_view(tasks@),
            by_id(all.take(i as int), id@) == by_id(all, id@),
        decreases i,
    {
        assert(all.take(i as int).drop_last() =~= all.take(i - 1));
        assert(all.take(i as int).last() == tasks@[i - 1]@);
        if tasks[i - 1].id == wanted {
            return Some(&tasks[i - 1]);
        }
        i = i - 1;
    }
    None
}

/// A task that `by_id` finds is one of the tasks, and has the id.
pub proof fn lemma_by_id(tasks: Seq<RecordView>, id: Seq<char>)
    ensures
        by_id(tasks, id) matches Some(task) ==> task.id == id && tasks.contains(task),
        by_id(tasks, id) is None <==> forall|i: int|
            0 <= i < tasks.len() ==> (#[trigger] tasks[i]).id != id,
    decreases tasks.len(),
{
    if tasks.len() > 0 {
        let head = tasks.drop_last();
        if tasks.last().id == id {
            assert(tasks[tasks.len() - 1].id == id);
        } else {
            lemma_by_id(head, id);
            if by_id(head, id) is Some {
                let k = choose|k: int| 0 <= k < head.len() && head[k] == by_id(head, id)->0;
                assert(tasks[k] == by_id(head, id)->0);
            } else {
                assert forall|i: int| 0 <= i < tasks.len() implies (#[trigger] tasks[i]).id
                    != id by {
                    if i < head.len() {
                        assert(head[i].id != id);
                    }
                }
            }
        }
    }
}

// ---------------------------------------------------------------------------
// The order in which tasks are shown
// ---------------------------------------------------------------------------

/// How far a listing has come: the tasks in it, and the ids that need not come any more.
#[verifier::ext_equal]
pub struct Listing {
    pub shown: Seq<RecordView>,
    pub done: Set<Seq<char>>,
}

impl Listing {
    /// The listing after `id`, with the task that goes by it, if any.
    pub open spec fn after(self, id: Seq<char>, task: Option<RecordView>) -> Listing {
        if self.done.contains(id) {
            self
        } else {
            Listing {
                shown: match task {
                    Some(t) => self.shown.push(t),
                    None => self.shown,
                },
                done: self.done.insert(id),
            }
        }
    }
}

/// The listing of the tasks in the queue, each item of a playlist after its parent.
pub open spec fn queued_listing(ids: Seq<Seq<char>>, tasks: Seq<RecordView>) -> Listing
    decreases ids.len(),
{
    if ids.len() == 0 {
        Listing { shown: Seq::empty(), done: Set::empty() }
    } else {
        let before = queued_listing(ids.drop_last(), tasks);
        match by_id(tasks, ids.last()) {
            None => before,
            Some(task) => {
                let with_parent = match task.parent_task_id {
                    Some(parent) => before.after(parent, by_id(tasks, parent)),
                    None => before,
                };
                with_parent.after(task.id, Some(task))
            },
        }
    }
}

/// The task at `i` is the last one with its id.
pub open spec fn latest(tasks: Seq<RecordView>, i: int) -> bool {
    forall|j: int| i < j < tasks.len() ==> (#[trigger] tasks[j]).id != tasks[i].id
}

/// Of the first `n` tasks, those that are the last with their id, are not in `done`, and have a
/// parent or not, as `child` says.
pub open spec fn waiting(
    tasks: Seq<RecordView>,
    n: int,
    done: Set<Seq<char>>,
    child: bool,
) -> Seq<RecordView>
    decreases n,
{
    if n <= 0 {
        Seq::empty()
    } else {
        let rest = waiting(tasks, n - 1, done, child);
        let task = tasks[n - 1];
        if latest(tasks, n - 1) && !done.contains(task.id) && (task.parent_task_id is Some)
            == child {
            rest.push(task)
        } else {
            rest
        }
    }
}

/// When a task was made.
pub open spec fn creation() -> spec_fn(RecordView) -> Seq<char> {
    |task: RecordView| task.created_at
}

/// The tasks that are not in `done`, by the time at which they were made. Of those made at the
/// same time, the items of playlists come last.
pub open spec fn rest_by_creation(tasks: Seq<RecordView>, done: Set<Seq<char>>) -> Seq<RecordView> {
    let n = tasks.len() as int;
    order::sorted_by(waiting(tasks, n, done, false) + waiting(tasks, n, done, true), creation())
}

/// The tasks as they are shown: those in the queue, in its order, then the others.
pub open spec fn shown_order(ids: Seq<Seq<char>>, tasks: Seq<RecordView>) -> Seq<RecordView> {
    let listing = queued_listing(ids, tasks);
    listing.shown + rest_by_creation(tasks, listing.done)
}

fn show(
    shown: &mut Vec<TaskRecord>,
    done: &mut StringHashSet,
    id: &str,
    task: Option<&TaskRecord>,
)
    ensures
        (Listing { shown: record::records_view(final(shown)@), done: final(done)@ }) == (Listing {
            shown: record::records_view(old(shown)@),
            done: old(done)@,
        }).after(
            id@,
            match task {
                Some(t) => Some(t@),
                None => None,
            },
        ),
{
    if done.insert(id.to_owned()) {
        if let Some(t) = task {
            let ghost before = shown@;
            shown.push(t.clone());
            assert(record::records_view(shown@) =~= record::records_view(before).push(t@));
        }
    } else {
        assert(done@ =~= old(done)@);
    }
}

fn is_latest(tasks: &Vec<TaskRecord>, i: usize) -> (r: bool)
    requires
        i < tasks.len(),
    ensures
        r == latest(record::records_view(tasks@), i as int),
{
    let ghost all = record::records_view(tasks@);
    let mut j: usize = i + 1;
    while j < tasks.len()
        invariant
            i < j <= tasks.len(),
            all == record::records_view(tasks@),
            forall|k: int| i < k < j ==> (#[trigger] all[k]).id != all[i as int].id,
        decreases tasks.len() - j,
    {
        if tasks[j].id == tasks[i].id {
            assert(all[j as int].id == all[i as int].id);
            return false;
        }
        j = j + 1;
    }
    true
}

/// The tasks with their times of creation, to sort by.
type Keyed = Vec<(Vec<char>, TaskRecord)>;

/// The tasks behind the keys.
pub open spec fn keyed_view(items: Seq<(Vec<char>, TaskRecord)>) -> Seq<RecordView> {
    Seq::new(items.len(), |i: int| items[i].1@)
}

/// Each key is the time at which its task was made.
pub open spec fn keys_fit(items: Seq<(Vec<char>, TaskRecord)>) -> bool {
    forall|i: int| 0 <= i < items.len() ==> (#[trigger] items[i]).0@ == items[i].1@.created_at
}

fn add_waiting(items: &mut Keyed, tasks: &Vec<TaskRecord>, done: &StringHashSet, child: bool)
    requires
        keys_fit(old(items)@),
    ensures
        keys_fit(final(items)@),
        keyed_view(final(items)@) == keyed_view(old(items)@) + waiting(
            record::records_view(tasks@),
            tasks@.len() as int,
            done@,
            child,
        ),
{
    let ghost all = record::records_view(tasks@);
    let ghost start = keyed_view(items@);
    let mut i: usize = 0;
    assert(keyed_view(items@) =~= start + waiting(all, 0, done@, child));
    while i < tasks.len()
        invariant
            i <= tasks.len(),
            all == record::records_view(tasks@),
            keys_fit(items@),
            keyed_view(items@) == start + waiting(all, i as int, done@, child),
        decreases tasks.len() - i,
    {
        let ghost before = items@;
        if tasks[i].parent_task_id.is_some() == child && !done.contains(tasks[i].id.as_str())
            && is_latest(tasks, i) {
            items.push((text::chars_of(tasks[i].created_at.as_str()), tasks[i].clone()));
            assert(keyed_view(items@) =~= keyed_view(before).push(all[i as int]));
            assert(keyed_view(items@) =~= start + waiting(all, i + 1, done@, child));
        }
        i = i + 1;
    }
}

fn list_rest(tasks: &Vec<TaskRecord>, done: &StringHashSet, shown: &mut Vec<TaskRecord>)
    ensures
        record::records_view(final(shown)@) == record::records_view(old(shown)@)
            + rest_by_creation(record::records_view(tasks@), done@),
{
    let ghost all = record::records_view(tasks@);
    let mut items: Keyed = Vec::new();
    add_waiting(&mut items, tasks, done, false);
    assert(keyed_view(items@) =~= waiting(all, all.len() as int, done@, false));
    add_waiting(&mut items, tasks, done, true);
    let ghost unsorted = items@;
    let ghost key = |p: (Vec<char>, TaskRecord)| p.0@;
    let ghost task_of = |p: (Vec<char>, TaskRecord)| p.1@;
    let mut sorted = order::sort_keyed(items);
    proof {
        assert(unsorted.map_values(task_of) =~= keyed_view(unsorted));
        assert(sorted@.map_values(task_of) =~= keyed_view(sorted@));
        order::lemma_sorted_maps(unsorted, key, task_of, creation());
    }
    let ghost expected = rest_by_creation(all, done@);
    assert(keyed_view(sorted@) == expected);
    let ghost start = record::records_view(shown@);
    let mut i: usize = 0;
    assert(record::records_view(shown@) =~= start + expected.take(0));
    while i < sorted.len()
        invariant
            i <= sorted.len(),
            keyed_view(sorted@) == expected,
            record::records_view(shown@) == start + expected.take(i as int),
        decreases sorted.len() - i,
    {
        let ghost before = shown@;
        let task = sorted[i].1.clone();
        assert(task@ == expected[i as int]);
        shown.push(task);
        i = i + 1;
        assert(record::records_view(shown@) =~= record::records_view(before).push(task@));
        assert(record::records_view(shown@) =~= start + expected.take(i as int));
    }
    assert(expected.take(i as int) =~= expected);
}

/// The tasks as they are shown.
pub fn order_tasks(ids: &Vec<String>, tasks: &Vec<TaskRecord>) -> (r: Vec<TaskRecord>)
    ensures
        record::records_view(r@) == shown_order(
            text::texts(ids@),
            record::records_view(tasks@),
        ),
{
    let ghost all = record::records_view(tasks@);
    let ghost names = text::texts(ids@);
    let mut shown: Vec<TaskRecord> = Vec::new();
    let mut done = StringHashSet::new();
    let mut i: usize = 0;
    assert(names.take(0) =~= Seq::<Seq<char>>::empty());
    assert((Listing { shown: record::records_view(shown@), done: done@ }) =~= queued_listing(
        names.take(0),
        all,
    ));
    while i < ids.len()
        invariant
            i <= ids.len(),
            all == record::records_view(tasks@),
            names == text::texts(ids@),
            (Listing { shown: record::records_view(shown@), done: done@ }) == queued_listing(
                names.take(i as int),
                all,
            ),
        decreases ids.len() - i,
    {
        assert(names.take(i + 1).drop_last() =~= names.take(i as int));
        assert(names.take(i + 1).last() == ids@[i as int]@);
        if let Some(task) = find_by_id(tasks, ids[i].as_str()) {
            if let Some(parent) = &task.parent_task_id {
                show(&mut shown, &mut done, parent.as_str(), find_by_id(tasks, parent.as_str()));
            }
            show(&mut shown, &mut done, task.id.as_str(), Some(task));
        }
        i = i + 1;
    }
    assert(names.take(i as int) =~= names);
    list_rest(tasks, &done, &mut shown);
    shown
}

impl TaskStore {
    /// The tasks as they are shown: those in the queue, in its order, each item of a playlist
    /// after its parent; then the others by the time at which they were made. A queue that is
    /// missing is made at `now`.
    pub fn list_tasks_in_queue_order_at(&mut self, now: &str) -> (r: Vec<TaskRecord>)
        ensures
            record::records_view(r@) == shown_order(old(self)@.order(), old(self)@.tasks()),
            final(self)@ == old(self)@.queue_made(now@).swept(),
    {
        let queue = self.load_or_create_queue_at(now);
        let tasks = self.load_all_tasks();
        order_tasks(&queue.task_order, &tasks)
    }

    /// The tasks as they are shown: those in the queue, in its order, each item of a playlist
    /// after its parent; then the others by the time at which they were made.
    pub fn list_tasks_in_queue_order(&mut self) -> (r: Vec<TaskRecord>)
        ensures
            record::records_view(r@) == shown_order(old(self)@.order(), old(self)@.tasks()),
            exists|now: Seq<char>|
                clock::timestamp(now) && final(self)@ == #[trigger] old(self)@.queue_made(
                    now,
                ).swept(),
    {
        let now = clock::now_rfc3339();
        self.list_tasks_in_queue_order_at(now.as_str())
    }
}

// ---------------------------------------------------------------------------
// Laws of the listing
// ---------------------------------------------------------------------------

/// Playlists are two levels deep: what is the parent of a task has no parent itself.
pub open spec fn two_levels(tasks: Seq<RecordView>) -> bool {
    forall|i: int|
        0 <= i < tasks.len() ==> ((#[trigger] tasks[i]).parent_task_id matches Some(parent) ==> (
        by_id(tasks, parent) matches Some(p) ==> p.parent_task_id is None))
}

/// `task` stands in the list before place `j`.
pub open spec fn stands_before(list: Seq<RecordView>, task: RecordView, j: int) -> bool {
    exists|i: int| 0 <= i < j && list[i] == task
}

/// Each listed task that has a parent comes after it, if there is one.
pub open spec fn parents_first(list: Seq<RecordView>, tasks: Seq<RecordView>) -> bool {
    forall|j: int|
        0 <= j < list.len() ==> ((#[trigger] list[j]).parent_task_id matches Some(parent) ==> (
        by_id(tasks, parent) matches Some(p) ==> stands_before(list, p, j)))
}

/// What every listing keeps: the tasks in it are done, go by their ids, and stand there once;
/// and what is done stands there, where it exists.
pub open spec fn listing_fits(listing: Listing, tasks: Seq<RecordView>) -> bool {
    &&& forall|i: int|
        0 <= i < listing.shown.len() ==> listing.done.contains((#[trigger] listing.shown[i]).id)
            && by_id(tasks, listing.shown[i].id) == Some(listing.shown[i])
    &&& forall|i: int, j: int|
        0 <= i < j < listing.shown.len() ==> (#[trigger] listing.shown[i]).id != (
        #[trigger] listing.shown[j]).id
    &&& forall|id: Seq<char>| #[trigger]
        listing.done.contains(id) ==> (by_id(tasks, id) matches Some(task)
            ==> listing.shown.contains(task))
}

proof fn lemma_after_fits(listing: Listing, tasks: Seq<RecordView>, id: Seq<char>)
    requires
        listing_fits(listing, tasks),
    ensures
        listing_fits(listing.after(id, by_id(tasks, id)), tasks),
{
    let next = listing.after(id, by_id(tasks, id));
    lemma_by_id(tasks, id);
    if !listing.done.contains(id) {
        assert forall|i: int, j: int| 0 <= i < j < next.shown.len() implies (
        #[trigger] next.shown[i]).id != (#[trigger] next.shown[j]).id by {
            assert(listing.shown[i].id == next.shown[i].id);
            if j < listing.shown.len() {
                assert(listing.shown[j].id == next.shown[j].id);
            }
        }
        assert forall|other: Seq<char>| #[trigger] next.done.contains(other) implies (by_id(
            tasks,
            other,
        ) matches Some(task) ==> next.shown.contains(task)) by {
            if by_id(tasks, other) is Some {
                let task = by_id(tasks, other)->0;
                if other == id {
                    assert(next.shown[next.shown.len() - 1] == task);
                } else {
                    assert(listing.done.contains(other));
                    let k = choose|k: int|
                        0 <= k < listing.shown.len() && listing.shown[k] == task;
                    assert(next.shown[k] == task);
                }
            }
        }
        assert forall|i: int| 0 <= i < next.shown.len() implies next.done.contains(
            (#[trigger] next.shown[i]).id,
        ) && by_id(tasks, next.shown[i].id) == Some(next.shown[i]) by {
            if i < listing.shown.len() {
                assert(listing.shown[i] == next.shown[i]);
            }
        }
    }
}

proof fn lemma_after_order(listing: Listing, tasks: Seq<RecordView>, id: Seq<char>)
    requires
        parents_first(listing.shown, tasks),
        by_id(tasks, id) matches Some(task) ==> (task.parent_task_id matches Some(parent) ==> (
        by_id(tasks, parent) matches Some(p) ==> listing.shown.contains(p))),
    ensures
        parents_first(listing.after(id, by_id(tasks, id)).shown, tasks),
{
    let next = listing.after(id, by_id(tasks, id));
    assert forall|j: int| 0 <= j < next.shown.len() implies ((
    #[trigger] next.shown[j]).parent_task_id matches Some(parent) ==> (by_id(
        tasks,
        parent,
    ) matches Some(p) ==> stands_before(next.shown, p, j))) by {
        if next.shown[j].parent_task_id is Some {
            let parent = next.shown[j].parent_task_id->0;
            if by_id(tasks, parent) is Some {
                let p = by_id(tasks, parent)->0;
                if j < listing.shown.len() {
                    assert(listing.shown[j] == next.shown[j]);
                    assert(stands_before(listing.shown, p, j));
                    let i = choose|i: int| 0 <= i < j && listing.shown[i] == p;
                    assert(next.shown[i] == p);
                } else {
                    let i = choose|i: int| 0 <= i < listing.shown.len() && listing.shown[i] == p;
                    assert(next.shown[i] == p);
                }
            }
        }
    }
}

/// The listing of the queue fits the tasks.
pub proof fn lemma_queued_listing(ids: Seq<Seq<char>>, tasks: Seq<RecordView>)
    ensures
        listing_fits(queued_listing(ids, tasks), tasks),
        two_levels(tasks) ==> parents_first(queued_listing(ids, tasks).shown, tasks),
    decreases ids.len(),
{
    if ids.len() > 0 {
        let before = queued_listing(ids.drop_last(), tasks);
        lemma_queued_listing(ids.drop_last(), tasks);
        lemma_by_id(tasks, ids.last());
        if by_id(tasks, ids.last()) is Some {
            let task = by_id(tasks, ids.last())->0;
            let k = choose|k: int| 0 <= k < tasks.len() && tasks[k] == task;
            let between = match task.parent_task_id {
                Some(parent) => before.after(parent, by_id(tasks, parent)),
                None => before,
            };
            if task.parent_task_id is Some {
                let parent = task.parent_task_id->0;
                lemma_after_fits(before, tasks, parent);
                lemma_by_id(tasks, parent);
                if two_levels(tasks) {
                    assert(tasks[k].parent_task_id is Some);
                    lemma_after_order(before, tasks, parent);
                }
                assert(between.done.contains(parent));
            }
            lemma_after_fits(between, tasks, task.id);
            if two_levels(tasks) {
                lemma_after_order(between, tasks, task.id);
            }
        }
    }
}

proof fn lemma_latest(tasks: Seq<RecordView>, i: int)
    requires
        0 <= i < tasks.len(),
        latest(tasks, i),
    ensures
        by_id(tasks, tasks[i].id) == Some(tasks[i]),
    decreases tasks.len(),
{
    if i < tasks.len() - 1 {
        assert(tasks[tasks.len() - 1].id != tasks[i].id);
        let head = tasks.drop_last();
        assert(latest(head, i)) by {
            assert forall|j: int| i < j < head.len() implies (#[trigger] head[j]).id
                != head[i].id by {
                assert(tasks[j].id != tasks[i].id);
            }
        }
        lemma_latest(head, i);
    }
}

/// What `waiting` takes: the task at `k` is the last with its id, not done, and has a parent or
/// not, as `child` says.
pub open spec fn waits(tasks: Seq<RecordView>, k: int, done: Set<Seq<char>>, child: bool) -> bool {
    latest(tasks, k) && !done.contains(tasks[k].id) && (tasks[k].parent_task_id is Some) == child
}

proof fn lemma_waiting(tasks: Seq<RecordView>, n: int, done: Set<Seq<char>>, child: bool)
    requires
        0 <= n <= tasks.len(),
    ensures
        forall|m: int|
            0 <= m < waiting(tasks, n, done, child).len() ==> {
                let w = #[trigger] waiting(tasks, n, done, child)[m];
                &&& by_id(tasks, w.id) == Some(w)
                &&& !done.contains(w.id)
                &&& (w.parent_task_id is Some) == child
            },
        forall|a: int, b: int|
            0 <= a < b < waiting(tasks, n, done, child).len() ==> (#[trigger] waiting(
                tasks,
                n,
                done,
                child,
            )[a]).id != (#[trigger] waiting(tasks, n, done, child)[b]).id,
        forall|k: int|
            0 <= k < n && #[trigger] waits(tasks, k, done, child) ==> waiting(
                tasks,
                n,
                done,
                child,
            ).contains(tasks[k]),
    decreases n,
{
    if n > 0 {
        let rest = waiting(tasks, n - 1, done, child);
        let all = waiting(tasks, n, done, child);
        lemma_waiting(tasks, n - 1, done, child);
        if waits(tasks, n - 1, done, child) {
            lemma_latest(tasks, n - 1);
            assert(all == rest.push(tasks[n - 1]));
            assert forall|a: int, b: int| 0 <= a < b < all.len() implies (#[trigger] all[a]).id != (
            #[trigger] all[b]).id by {
                assert(all[a] == rest[a]);
                if b < rest.len() {
                    assert(all[b] == rest[b]);
                } else {
                    lemma_waiting_is_early(tasks, n - 1, done, child, a);
                }
            }
            assert(all[all.len() - 1] == tasks[n - 1]);
            assert forall|k: int| 0 <= k < n && #[trigger] waits(
                tasks,
                k,
                done,
                child,
            ) implies all.contains(tasks[k]) by {
                if k < n - 1 {
                    let m = choose|m: int| 0 <= m < rest.len() && rest[m] == tasks[k];
                    assert(all[m] == tasks[k]);
                }
            }
        }
    }
}

/// A task that waits is an early one.
pub proof fn lemma_waiting_is_early(
    tasks: Seq<RecordView>,
    n: int,
    done: Set<Seq<char>>,
    child: bool,
    m: int,
)
    requires
        0 <= n < tasks.len(),
        0 <= m < waiting(tasks, n, done, child).len(),
    ensures
        waiting(tasks, n, done, child)[m].id != tasks[n].id,
        exists|k: int|
            0 <= k < n && tasks[k] == waiting(tasks, n, done, child)[m] && latest(tasks, k),
    decreases n,
{
    let rest = waiting(tasks, n - 1, done, child);
    if m < rest.len() {
        lemma_waiting_is_early(tasks, n - 1, done, child, m);
        let k = choose|k: int| 0 <= k < n - 1 && tasks[k] == rest[m] && latest(tasks, k);
        assert(tasks[n].id != tasks[k].id);
    } else {
        assert(latest(tasks, n - 1));
        assert(tasks[n].id != tasks[n - 1].id);
    }
}

/// The tasks that are not in the queue, before they are sorted.
pub open spec fn all_waiting(tasks: Seq<RecordView>, done: Set<Seq<char>>) -> Seq<RecordView> {
    let n = tasks.len() as int;
    waiting(tasks, n, done, false) + waiting(tasks, n, done, true)
}

/// The tasks that are not listed yet are those that wait.
pub proof fn lemma_all_waiting(tasks: Seq<RecordView>, done: Set<Seq<char>>)
    ensures
        forall|m: int|
            0 <= m < all_waiting(tasks, done).len() ==> {
                let w = #[trigger] all_waiting(tasks, done)[m];
                by_id(tasks, w.id) == Some(w) && !done.contains(w.id)
            },
        forall|a: int, b: int|
            0 <= a < b < all_waiting(tasks, done).len() ==> (#[trigger] all_waiting(
                tasks,
                done,
            )[a]).id != (#[trigger] all_waiting(tasks, done)[b]).id,
        forall|k: int|
            0 <= k < tasks.len() && latest(tasks, k) && !done.contains((#[trigger] tasks[k]).id)
                ==> all_waiting(tasks, done).contains(tasks[k]),
{
    let n = tasks.len() as int;
    let roots = waiting(tasks, n, done, false);
    let items = waiting(tasks, n, done, true);
    let all = roots + items;
    lemma_waiting(tasks, n, done, false);
    lemma_waiting(tasks, n, done, true);
    assert forall|m: int| 0 <= m < all.len() implies ({
        let w = #[trigger] all[m];
        by_id(tasks, w.id) == Some(w) && !done.contains(w.id)
    }) by {
        if m < roots.len() {
            assert(all[m] == roots[m]);
        } else {
            assert(all[m] == items[m - roots.len()]);
        }
    }
    assert forall|a: int, b: int| 0 <= a < b < all.len() implies (#[trigger] all[a]).id != (
    #[trigger] all[b]).id by {
        if b < roots.len() {
            assert(all[a] == roots[a] && all[b] == roots[b]);
        } else if a >= roots.len() {
            assert(all[a] == items[a - roots.len()] && all[b] == items[b - roots.len()]);
        } else {
            assert(all[a] == roots[a] && all[b] == items[b - roots.len()]);
        }
    }
    assert forall|k: int|
        0 <= k < tasks.len() && latest(tasks, k) && !done.contains(
            (#[trigger] tasks[k]).id,
        ) implies all.contains(tasks[k]) by {
        let child = tasks[k].parent_task_id is Some;
        assert(waits(tasks, k, done, child));
        if child {
            let m = choose|m: int| 0 <= m < items.len() && items[m] == tasks[k];
            assert(all[roots.len() + m] == tasks[k]);
        } else {
            let m = choose|m: int| 0 <= m < roots.len() && roots[m] == tasks[k];
            assert(all[m] == tasks[k]);
        }
    }
}

/// Every task is shown, whether it is in the queue or not. Where several files hold the same id,
/// it is the last one that counts.
pub proof fn every_task_is_shown(ids: Seq<Seq<char>>, tasks: Seq<RecordView>, i: int)
    requires
        0 <= i < tasks.len(),
        latest(tasks, i),
    ensures
        shown_order(ids, tasks).contains(tasks[i]),
{
    let listing = queued_listing(ids, tasks);
    let rest = rest_by_creation(tasks, listing.done);
    let all = shown_order(ids, tasks);
    lemma_queued_listing(ids, tasks);
    lemma_latest(tasks, i);
    if listing.done.contains(tasks[i].id) {
        let k = choose|k: int| 0 <= k < listing.shown.len() && listing.shown[k] == tasks[i];
        assert(all[k] == tasks[i]);
    } else {
        lemma_all_waiting(tasks, listing.done);
        let unsorted = all_waiting(tasks, listing.done);
        let m = choose|m: int| 0 <= m < unsorted.len() && unsorted[m] == tasks[i];
        order::lemma_rank(unsorted, creation(), m);
        assert(all[listing.shown.len() + order::rank(unsorted, creation(), m)] == tasks[i]);
    }
}

/// None of the tasks that go by these ids names this one as the playlist that it is of.
pub open spec fn without_items(
    ids: Seq<Seq<char>>,
    tasks: Seq<RecordView>,
    id: Seq<char>,
) -> bool {
    forall|i: int|
        0 <= i < ids.len() ==> (by_id(tasks, #[trigger] ids[i]) matches Some(task)
            ==> task.parent_task_id != Some(id))
}

proof fn lemma_listing_grows(ids: Seq<Seq<char>>, tasks: Seq<RecordView>, n: int)
    requires
        0 <= n <= ids.len(),
    ensures
        queued_listing(ids.take(n), tasks).shown.is_prefix_of(queued_listing(ids, tasks).shown),
        queued_listing(ids.take(n), tasks).done.subset_of(queued_listing(ids, tasks).done),
    decreases ids.len() - n,
{
    if n == ids.len() {
        assert(ids.take(n) =~= ids);
    } else {
        let next = ids.take(n + 1);
        assert(next.drop_last() =~= ids.take(n));
        lemma_listing_grows(ids, tasks, n + 1);
        let a = queued_listing(ids.take(n), tasks);
        let b = queued_listing(next, tasks);
        let c = queued_listing(ids, tasks);
        assert(a.shown.is_prefix_of(b.shown));
        assert(a.shown =~= c.shown.take(a.shown.len() as int));
    }
}

proof fn lemma_not_listed(ids: Seq<Seq<char>>, tasks: Seq<RecordView>, id: Seq<char>)
    requires
        !ids.contains(id),
        without_items(ids, tasks, id),
    ensures
        !queued_listing(ids, tasks).done.contains(id),
    decreases ids.len(),
{
    if ids.len() > 0 {
        let head = ids.drop_last();
        assert forall|i: int| 0 <= i < head.len() implies head[i] != id by {
            assert(ids[i] != id);
        }
        assert(without_items(head, tasks, id)) by {
            assert forall|i: int| 0 <= i < head.len() implies (by_id(
                tasks,
                #[trigger] head[i],
            ) matches Some(task) ==> task.parent_task_id != Some(id)) by {
                assert(head[i] == ids[i]);
            }
        }
        lemma_not_listed(head, tasks, id);
        assert(ids[ids.len() - 1] == ids.last());
        assert(ids.last() != id);
        lemma_by_id(tasks, ids.last());
    }
}

/// Tasks are shown in the order of the queue: of two that stand in it, the one that stands there
/// first is shown first, unless the other is a playlist that comes with an item of its own that
/// stands before it. The tasks that the queue does not bring up come after, the oldest first.
pub proof fn the_queue_sets_the_order(
    ids: Seq<Seq<char>>,
    tasks: Seq<RecordView>,
    i: int,
    k: int,
)
    requires
        0 <= i < k < ids.len(),
        by_id(tasks, ids[i]) is Some,
        by_id(tasks, ids[k]) is Some,
        !ids.take(k).contains(ids[k]),
        without_items(ids.take(k), tasks, ids[k]),
    ensures
        exists|p: int, q: int|
            0 <= p < q < shown_order(ids, tasks).len() && #[trigger] shown_order(ids, tasks)[p]
                == by_id(tasks, ids[i])->0 && #[trigger] shown_order(ids, tasks)[q] == by_id(
                tasks,
                ids[k],
            )->0,
        order::ascending(rest_by_creation(tasks, queued_listing(ids, tasks).done), creation()),
        shown_order(ids, tasks) == queued_listing(ids, tasks).shown + rest_by_creation(
            tasks,
            queued_listing(ids, tasks).done,
        ),
{
    let a = by_id(tasks, ids[i])->0;
    let b = by_id(tasks, ids[k])->0;
    let early = queued_listing(ids.take(i + 1), tasks);
    let before = queued_listing(ids.take(k), tasks);
    let after = queued_listing(ids.take(k + 1), tasks);
    let all = queued_listing(ids, tasks);
    lemma_by_id(tasks, ids[i]);
    lemma_by_id(tasks, ids[k]);
    assert(ids.take(i + 1).last() == ids[i]);
    assert(early.done.contains(a.id));
    assert(ids.take(k).take(i + 1) =~= ids.take(i + 1));
    lemma_listing_grows(ids.take(k), tasks, i + 1);
    lemma_queued_listing(ids.take(k), tasks);
    assert(before.done.contains(ids[i]));
    let p = choose|p: int| 0 <= p < before.shown.len() && before.shown[p] == a;
    lemma_not_listed(ids.take(k), tasks, ids[k]);
    assert(ids.take(k + 1).drop_last() =~= ids.take(k));
    assert(ids.take(k + 1).last() == ids[k]);
    assert(after.shown.last() == b);
    let q = after.shown.len() - 1;
    assert(before.shown.is_prefix_of(after.shown));
    assert(p < before.shown.len() <= q);
    lemma_listing_grows(ids, tasks, k + 1);
    assert(all.shown[p] == a && all.shown[q] == b);
    assert(shown_order(ids, tasks)[p] == a);
    assert(shown_order(ids, tasks)[q] == b);
    order::sorting_ascends(all_waiting(tasks, all.done), creation());
}

proof fn lemma_rest_fits(tasks: Seq<RecordView>, done: Set<Seq<char>>)
    ensures
        forall|m: int|
            0 <= m < rest_by_creation(tasks, done).len() ==> {
                let w = #[trigger] rest_by_creation(tasks, done)[m];
                by_id(tasks, w.id) == Some(w) && !done.contains(w.id)
            },
        forall|a: int, b: int|
            0 <= a < b < rest_by_creation(tasks, done).len() ==> (#[trigger] rest_by_creation(
                tasks,
                done,
            )[a]).id != (#[trigger] rest_by_creation(tasks, done)[b]).id,
{
    let rest = rest_by_creation(tasks, done);
    let unsorted = all_waiting(tasks, done);
    lemma_all_waiting(tasks, done);
    order::lemma_sorted_len(unsorted, creation());
    assert forall|m: int| 0 <= m < rest.len() implies ({
        let w = #[trigger] rest[m];
        by_id(tasks, w.id) == Some(w) && !done.contains(w.id)
    }) by {
        let i = order::lemma_rank_onto(unsorted, creation(), m);
        order::lemma_rank(unsorted, creation(), i);
        assert(unsorted[i] == rest[m]);
    }
    assert forall|a: int, b: int| 0 <= a < b < rest.len() implies (#[trigger] rest[a]).id != (
    #[trigger] rest[b]).id by {
        let i = order::lemma_rank_onto(unsorted, creation(), a);
        let j = order::lemma_rank_onto(unsorted, creation(), b);
        order::lemma_rank(unsorted, creation(), i);
        order::lemma_rank(unsorted, creation(), j);
        assert(unsorted[i] == rest[a]);
        assert(unsorted[j] == rest[b]);
        if i < j {
            assert(unsorted[i].id != unsorted[j].id);
        } else {
            assert(unsorted[j].id != unsorted[i].id);
        }
    }
}

/// No task is shown twice, and nothing is shown that is not there.
pub proof fn no_task_is_shown_twice(ids: Seq<Seq<char>>, tasks: Seq<RecordView>, a: int, b: int)
    requires
        0 <= a < b < shown_order(ids, tasks).len(),
    ensures
        shown_order(ids, tasks)[a].id != shown_order(ids, tasks)[b].id,
        tasks.contains(shown_order(ids, tasks)[a]),
        tasks.contains(shown_order(ids, tasks)[b]),
{
    let listing = queued_listing(ids, tasks);
    let rest = rest_by_creation(tasks, listing.done);
    let all = shown_order(ids, tasks);
    let n = listing.shown.len();
    lemma_queued_listing(ids, tasks);
    lemma_rest_fits(tasks, listing.done);
    lemma_by_id(tasks, all[a].id);
    lemma_by_id(tasks, all[b].id);
    assert(a < n ==> all[a] == listing.shown[a]);
    assert(b < n ==> all[b] == listing.shown[b]);
    assert(a >= n ==> all[a] == rest[a - n]);
    assert(b >= n ==> all[b] == rest[b - n]);
}

/// A playlist comes before its items, where the queue brings one of them up, or it was not made
/// after them.
pub proof fn a_parent_is_shown_before_its_items(
    ids: Seq<Seq<char>>,
    tasks: Seq<RecordView>,
    j: int,
)
    requires
        two_levels(tasks),
        0 <= j < shown_order(ids, tasks).len(),
        shown_order(ids, tasks)[j].parent_task_id is Some,
        by_id(tasks, shown_order(ids, tasks)[j].parent_task_id->0) is Some,
        queued_listing(ids, tasks).shown.contains(
            by_id(tasks, shown_order(ids, tasks)[j].parent_task_id->0)->0,
        ) || order::lex_le(
            by_id(tasks, shown_order(ids, tasks)[j].parent_task_id->0)->0.created_at,
            shown_order(ids, tasks)[j].created_at,
        ),
    ensures
        stands_before(
            shown_order(ids, tasks),
            by_id(tasks, shown_order(ids, tasks)[j].parent_task_id->0)->0,
            j,
        ),
{
    let listing = queued_listing(ids, tasks);
    let rest = rest_by_creation(tasks, listing.done);
    let all = shown_order(ids, tasks);
    let n = listing.shown.len();
    let task = all[j];
    let parent = by_id(tasks, task.parent_task_id->0)->0;
    lemma_queued_listing(ids, tasks);
    lemma_by_id(tasks, task.parent_task_id->0);
    if j < n {
        assert(listing.shown[j] == task);
        assert(stands_before(listing.shown, parent, j));
        let i = choose|i: int| 0 <= i < j && listing.shown[i] == parent;
        assert(all[i] == parent);
    } else if listing.done.contains(parent.id) {
        let i = choose|i: int| 0 <= i < listing.shown.len() && listing.shown[i] == parent;
        assert(all[i] == parent);
    } else {
        assert(all[j] == rest[j - n]);
        lemma_parent_in_rest(tasks, listing.done, j - n);
        let i = choose|i: int| 0 <= i < j - n && rest[i] == parent;
        assert(all[n + i] == parent);
    }
}

proof fn lemma_last_with_id(tasks: Seq<RecordView>, id: Seq<char>) -> (k: int)
    requires
        by_id(tasks, id) is Some,
    ensures
        0 <= k < tasks.len(),
        latest(tasks, k),
        tasks[k] == by_id(tasks, id)->0,
    decreases tasks.len(),
{
    if tasks.last().id == id {
        tasks.len() - 1
    } else {
        let head = tasks.drop_last();
        let k = lemma_last_with_id(head, id);
        lemma_by_id(head, id);
        assert forall|j: int| k < j < tasks.len() implies (#[trigger] tasks[j]).id
            != tasks[k].id by {
            if j < head.len() {
                assert(head[j].id != head[k].id);
            }
        }
        k
    }
}

proof fn lemma_parent_in_rest(tasks: Seq<RecordView>, done: Set<Seq<char>>, j: int)
    requires
        two_levels(tasks),
        0 <= j < rest_by_creation(tasks, done).len(),
        rest_by_creation(tasks, done)[j].parent_task_id is Some,
        by_id(tasks, rest_by_creation(tasks, done)[j].parent_task_id->0) is Some,
        !done.contains(rest_by_creation(tasks, done)[j].parent_task_id->0),
        order::lex_le(
            by_id(tasks, rest_by_creation(tasks, done)[j].parent_task_id->0)->0.created_at,
            rest_by_creation(tasks, done)[j].created_at,
        ),
    ensures
        stands_before(
            rest_by_creation(tasks, done),
            by_id(tasks, rest_by_creation(tasks, done)[j].parent_task_id->0)->0,
            j,
        ),
{
    let rest = rest_by_creation(tasks, done);
    let task = rest[j];
    let id = task.parent_task_id->0;
    let parent = by_id(tasks, id)->0;
    let n = tasks.len() as int;
    let roots = waiting(tasks, n, done, false);
    let items = waiting(tasks, n, done, true);
    let unsorted = all_waiting(tasks, done);
    order::lemma_sorted_len(unsorted, creation());
    lemma_rest_fits(tasks, done);
    lemma_waiting(tasks, n, done, false);
    lemma_waiting(tasks, n, done, true);
    lemma_by_id(tasks, id);
    lemma_by_id(tasks, task.id);
    let at = choose|at: int| 0 <= at < tasks.len() && tasks[at] == task;
    assert(tasks[at].parent_task_id is Some);
    let k = lemma_last_with_id(tasks, id);
    assert(waits(tasks, k, done, false));
    let a = choose|a: int| 0 <= a < roots.len() && roots[a] == parent;
    let b = order::lemma_rank_onto(unsorted, creation(), j);
    order::lemma_rank(unsorted, creation(), b);
    assert(unsorted[b] == task);
    assert(unsorted[a] == parent);
    assert(b >= roots.len()) by {
        if b < roots.len() {
            assert(unsorted[b] == roots[b]);
        }
    }
    order::sorting_moves_items(unsorted, creation(), a, b);
    let i = order::rank(unsorted, creation(), a);
    assert(rest[i] == parent);
}

}
