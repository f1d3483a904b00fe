//! Playlists, as the sum of their items.
use vstd::prelude::*;

use crate::clock;
use crate::tasks::listing;
use crate::tasks::record;
use crate::tasks::record::{RecordView, TaskKind, TaskRecord, TaskState};
use crate::tasks::rewrite;
use crate::tasks::store::{StoreView, TaskStore};
use crate::text;

verus! {

// ---------------------------------------------------------------------------
// Sizes
// ---------------------------------------------------------------------------

/// The sum of the sizes up to the first that is unknown; `None` where one is unknown.
pub open spec fn total_size(sizes: Seq<Option<u64>>) -> Option<nat>
    decreases sizes.len(),
{
    if sizes.len() == 0 {
        Some(0)
    } else {
        match (total_size(sizes.drop_last()), sizes.last()) {
            (Some(sum), Some(size)) => Some(sum + size as nat),
            _ => None,
        }
    }
}

/// However far the sum has come, it can be written down.
pub open spec fn sizes_fit(sizes: Seq<Option<u64>>) -> bool {
    forall|n: int|
        0 <= n <= sizes.len() ==> (#[trigger] total_size(sizes.take(n)) matches Some(sum) ==> sum
            <= u64::MAX)
}

/// The size, as a number that can be written down.
pub open spec fn size_of(total: Option<nat>) -> Option<u64> {
    match total {
        Some(sum) => Some(sum as u64),
        None => None,
    }
}

proof fn lemma_unknown_stays(sizes: Seq<Option<u64>>, n: int)
    requires
        0 <= n <= sizes.len(),
        total_size(sizes.take(n)) is None,
    ensures
        total_size(sizes) is None,
        forall|m: int| n <= m <= sizes.len() ==> (#[trigger] total_size(sizes.take(m))) is None,
    decreases sizes.len(),
{
    if n < sizes.len() {
        let head = sizes.drop_last();
        assert(head.take(n) =~= sizes.take(n));
        lemma_unknown_stays(head, n);
        assert forall|m: int| n <= m <= sizes.len() implies (#[trigger] total_size(
            sizes.take(m),
        )) is None by {
            if m < sizes.len() {
                assert(head.take(m) =~= sizes.take(m));
            } else {
                assert(sizes.take(m) =~= sizes);
            }
        }
    } else {
        assert(sizes.take(n) =~= sizes);
    }
}

/// Whether the sum can be written down, however far it has come.
pub fn do_sizes_fit(sizes: &Vec<Option<u64>>) -> (r: bool)
    ensures
        r == sizes_fit(sizes@),
{
    let mut sum: u64 = 0;
    let mut i: usize = 0;
    assert(sizes@.take(0) =~= Seq::<Option<u64>>::empty());
    while i < sizes.len()
        invariant
            i <= sizes.len(),
            total_size(sizes@.take(i as int)) == Some(sum as nat),
            forall|n: int|
                0 <= n <= i ==> (#[trigger] total_size(sizes@.take(n)) matches Some(s) ==> s
                    <= u64::MAX),
        decreases sizes.len() - i,
    {
        assert(sizes@.take(i + 1).drop_last() =~= sizes@.take(i as int));
        match sizes[i] {
            Some(size) => {
                assert(total_size(sizes@.take(i + 1)) == Some((sum + size) as nat));
                match sum.checked_add(size) {
                    Some(next) => {
                        sum = next;
                    },
                    None => {
                        return false;
                    },
                }
            },
            None => {
                assert(total_size(sizes@.take(i + 1)) is None);
                proof {
                    lemma_unknown_stays(sizes@, i + 1);
                }
                return true;
            },
        }
        i = i + 1;
    }
    true
}

/// The sum of the sizes; `None` where one is unknown.
pub fn sum_sizes(sizes: &Vec<Option<u64>>) -> (r: Option<u64>)
    requires
        sizes_fit(sizes@),
    ensures
        r == size_of(total_size(sizes@)),
{
    let mut sum: u64 = 0;
    let mut i: usize = 0;
    assert(sizes@.take(0) =~= Seq::<Option<u64>>::empty());
    while i < sizes.len()
        invariant
            i <= sizes.len(),
            sizes_fit(sizes@),
            total_size(sizes@.take(i as int)) == Some(sum as nat),
        decreases sizes.len() - i,
    {
        assert(sizes@.take(i + 1).drop_last() =~= sizes@.take(i as int));
        match sizes[i] {
            Some(size) => {
                assert(total_size(sizes@.take(i + 1)) == Some((sum + size) as nat));
                sum = sum + size;
            },
            None => {
                assert(total_size(sizes@.take(i + 1)) is None);
                proof {
                    lemma_unknown_stays(sizes@, i + 1);
                }
                return None;
            },
        }
        i = i + 1;
    }
    assert(sizes@.take(i as int) =~= sizes@);
    Some(sum)
}

/// The estimated sizes of tasks.
pub open spec fn sizes_in(tasks: Seq<RecordView>) -> Seq<Option<u64>> {
    Seq::new(tasks.len(), |i: int| tasks[i].estimated_size_bytes)
}

/// The estimated sizes of tasks.
pub fn list_sizes(tasks: &Vec<TaskRecord>) -> (r: Vec<Option<u64>>)
    ensures
        r@ == sizes_in(record::records_view(tasks@)),
{
    let mut sizes: Vec<Option<u64>> = Vec::new();
    let mut i: usize = 0;
    while i < tasks.len()
        invariant
            i <= tasks.len(),
            sizes.len() == i,
            forall|j: int| 0 <= j < i ==> #[trigger] sizes@[j] == tasks@[j].estimated_size_bytes,
        decreases tasks.len() - i,
    {
        sizes.push(tasks[i].estimated_size_bytes);
        i = i + 1;
    }
    assert(sizes@ =~= sizes_in(record::records_view(tasks@)));
    sizes
}

// ---------------------------------------------------------------------------
// How far the items are
// ---------------------------------------------------------------------------

/// How far an item of a playlist is, as its playlist sees it.
#[derive(Clone, Copy, PartialEq, Eq, Structural)]
pub enum Phase {
    Done,
    Lost,
    Running,
    Waiting,
    Resting,
}

/// How far a task in this state is.
pub open spec fn phase_of(state: TaskState) -> Phase {
    match state {
        TaskState::Completed => Phase::Done,
        TaskState::Failed | TaskState::Canceled => Phase::Lost,
        TaskState::Downloading | TaskState::Stopping => Phase::Running,
        TaskState::Submitted | TaskState::Resolving | TaskState::Queued => Phase::Waiting,
        TaskState::Paused => Phase::Resting,
    }
}

/// How many tasks are this far.
pub open spec fn count_of(tasks: Seq<RecordView>, phase: Phase) -> nat
    decreases tasks.len(),
{
    if tasks.len() == 0 {
        0
    } else if phase_of(tasks.last().state) == phase {
        count_of(tasks.drop_last(), phase) + 1
    } else {
        count_of(tasks.drop_last(), phase)
    }
}

/// The state of a playlist with these items.
pub open spec fn family_state(items: Seq<RecordView>) -> TaskState {
    if items.len() > 0 && count_of(items, Phase::Done) == items.len() {
        TaskState::Completed
    } else if count_of(items, Phase::Running) > 0 {
        TaskState::Downloading
    } else if count_of(items, Phase::Waiting) > 0 {
        TaskState::Queued
    } else if count_of(items, Phase::Resting) > 0 {
        TaskState::Paused
    } else if count_of(items, Phase::Lost) > 0 {
        TaskState::Failed
    } else {
        TaskState::Submitted
    }
}

/// The message of a playlist with these items.
pub open spec fn family_message(items: Seq<RecordView>) -> Option<Seq<char>> {
    let lost = count_of(items, Phase::Lost);
    let done = count_of(items, Phase::Done);
    let total = items.len();
    if lost > 0 {
        Some(text::decimal(lost) + "/"@ + text::decimal(total) + " 个子任务失败"@)
    } else if 0 < done < total {
        Some("已完成 "@ + text::decimal(done) + "/"@ + text::decimal(total) + " 个子任务"@)
    } else {
        None
    }
}

/// The files of all items, in order.
pub open spec fn family_files(items: Seq<RecordView>) -> Seq<Seq<char>>
    decreases items.len(),
{
    if items.len() == 0 {
        Seq::empty()
    } else {
        family_files(items.drop_last()) + items.last().output_files
    }
}

/// A playlist, brought in line with its items.
pub open spec fn synced(
    parent: RecordView,
    items: Seq<RecordView>,
    now: Seq<char>,
) -> RecordView {
    RecordView {
        state: family_state(items),
        estimated_size_bytes: size_of(total_size(sizes_in(items))),
        output_files: family_files(items),
        last_error: family_message(items),
        updated_at: now,
        ..parent
    }
}

fn phase(state: TaskState) -> (r: Phase)
    ensures
        r == phase_of(state),
{
    match state {
        TaskState::Completed => Phase::Done,
        TaskState::Failed | TaskState::Canceled => Phase::Lost,
        TaskState::Downloading | TaskState::Stopping => Phase::Running,
        TaskState::Submitted | TaskState::Resolving | TaskState::Queued => Phase::Waiting,
        TaskState::Paused => Phase::Resting,
    }
}

fn count(tasks: &Vec<TaskRecord>, wanted: Phase) -> (r: usize)
    ensures
        r == count_of(record::records_view(tasks@), wanted),
        r <= tasks.len(),
{
    let ghost all = record::records_view(tasks@);
    let mut n: usize = 0;
    let mut i: usize = 0;
    assert(all.take(0) =~= Seq::<RecordView>::empty());
    while i < tasks.len()
        invariant
            i <= tasks.len(),
            n <= i,
            all == record::records_view(tasks@),
            n == count_of(all.take(i as int), wanted),
        decreases tasks.len() - i,
    {
        assert(all.take(i + 1).drop_last() =~= all.take(i as int));
        assert(all.take(i + 1).last() == tasks@[i as int]@);
        if phase(tasks[i].state) == wanted {
            n = n + 1;
        }
        i = i + 1;
    }
    assert(all.take(i as int) =~= all);
    n
}

fn collect_files(items: &Vec<TaskRecord>) -> (r: Vec<String>)
    ensures
        text::texts(r@) == family_files(record::records_view(items@)),
{
    let ghost all = record::records_view(items@);
    let mut files: Vec<String> = Vec::new();
    let mut i: usize = 0;
    assert(all.take(0) =~= Seq::<RecordView>::empty());
    assert(text::texts(files@) =~= family_files(all.take(0)));
    while i < items.len()
        invariant
            i <= items.len(),
            all == record::records_view(items@),
            text::texts(files@) == family_files(all.take(i as int)),
        decreases items.len() - i,
    {
        let ghost before = text::texts(files@);
        let mut more = text::clone_texts(&items[i].output_files);
        let ghost added = text::texts(more@);
        let ghost old_files = files@;
        let ghost old_more = more@;
        files.append(&mut more);
        assert(text::texts(files@) =~= before + added);
        i = i + 1;
        assert(all.take(i as int).drop_last() =~= all.take(i - 1));
        assert(all.take(i as int).last() == items@[i - 1]@);
    }
    assert(all.take(i as int) =~= all);
    files
}

/// Brings a playlist in line with its items, at `now`.
pub fn sync_parent_from_children(parent: &mut TaskRecord, children: &Vec<TaskRecord>, now: &str)
    requires
        sizes_fit(sizes_in(record::records_view(children@))),
    ensures
        final(parent)@ == synced(old(parent)@, record::records_view(children@), now@),
{
    let total = children.len();
    let done = count(children, Phase::Done);
    let lost = count(children, Phase::Lost);
    let running = count(children, Phase::Running);
    let waiting = count(children, Phase::Waiting);
    let resting = count(children, Phase::Resting);
    parent.state = if total > 0 && done == total {
        TaskState::Completed
    } else if running > 0 {
        TaskState::Downloading
    } else if waiting > 0 {
        TaskState::Queued
    } else if resting > 0 {
        TaskState::Paused
    } else if lost > 0 {
        TaskState::Failed
    } else {
        TaskState::Submitted
    };
    let sizes = list_sizes(children);
    parent.estimated_size_bytes = sum_sizes(&sizes);
    parent.output_files = collect_files(children);
    parent.last_error = if lost > 0 {
        let mut message = text::to_decimal(lost as u64);
        message.append("/");
        message.append(text::to_decimal(total as u64).as_str());
        message.append(" 个子任务失败");
        Some(message)
    } else if done > 0 && done < total {
        let mut message = "已完成 ".to_owned();
        message.append(text::to_decimal(done as u64).as_str());
        message.append("/");
        message.append(text::to_decimal(total as u64).as_str());
        message.append(" 个子任务");
        Some(message)
    } else {
        None
    };
    parent.stamp(now);
}

// ---------------------------------------------------------------------------
// All playlists
// ---------------------------------------------------------------------------

/// Those tasks that go by these ids, in the order of the ids.
pub open spec fn items_of(ids: Seq<Seq<char>>, tasks: Seq<RecordView>) -> Seq<RecordView>
    decreases ids.len(),
{
    if ids.len() == 0 {
        Seq::empty()
    } else {
        let rest = items_of(ids.drop_last(), tasks);
        match listing::by_id(tasks, ids.last()) {
            Some(task) => rest.push(task),
            None => rest,
        }
    }
}

/// What becomes of a task among `tasks` when playlists are brought in line with their items;
/// `None` where nothing but the time of the change would differ.
pub open spec fn refreshed(
    task: RecordView,
    tasks: Seq<RecordView>,
    now: Seq<char>,
) -> Option<RecordView> {
    let after = synced(task, items_of(task.child_task_ids, tasks), now);
    if task.task_kind == TaskKind::PlaylistParent && after != (RecordView {
        updated_at: now,
        ..task
    }) {
        Some(after)
    } else {
        None
    }
}

/// The refreshing of `tasks` at `now`.
pub open spec fn refreshing(tasks: Seq<RecordView>, now: Seq<char>) -> rewrite::Change {
    |task: RecordView| refreshed(task, tasks, now)
}

/// The sizes of the items of each playlist can be summed up.
pub open spec fn families_fit(tasks: Seq<RecordView>) -> bool {
    forall|i: int|
        0 <= i < tasks.len() && (#[trigger] tasks[i]).task_kind == TaskKind::PlaylistParent
            ==> sizes_fit(sizes_in(items_of(tasks[i].child_task_ids, tasks)))
}

fn find_items(ids: &Vec<String>, tasks: &Vec<TaskRecord>) -> (r: Vec<TaskRecord>)
    ensures
        record::records_view(r@) == items_of(text::texts(ids@), record::records_view(tasks@)),
{
    let ghost names = text::texts(ids@);
    let ghost all = record::records_view(tasks@);
    let mut items: Vec<TaskRecord> = Vec::new();
    let mut i: usize = 0;
    assert(names.take(0) =~= Seq::<Seq<char>>::empty());
    assert(record::records_view(items@) =~= items_of(names.take(0), all));
    while i < ids.len()
        invariant
            i <= ids.len(),
            names == text::texts(ids@),
            all == record::records_view(tasks@),
            record::records_view(items@) == items_of(names.take(i as int), all),
        decreases ids.len() - i,
    {
        let ghost before = items@;
        assert(names.take(i + 1).drop_last() =~= names.take(i as int));
        assert(names.take(i + 1).last() == ids@[i as int]@);
        if let Some(task) = listing::find_by_id(tasks, ids[i].as_str()) {
            items.push(task.clone());
            assert(record::records_view(items@) =~= record::records_view(before).push(task@));
        }
        i = i + 1;
    }
    assert(names.take(i as int) =~= names);
    items
}

fn refresh_task(task: &TaskRecord, tasks: &Vec<TaskRecord>, now: &str) -> (r: Option<TaskRecord>)
    requires
        task.task_kind == TaskKind::PlaylistParent ==> sizes_fit(
            sizes_in(items_of(text::texts(task.child_task_ids@), record::records_view(tasks@))),
        ),
    ensures
        record::record_opt(r) == refreshed(task@, record::records_view(tasks@), now@),
{
    if task.task_kind != TaskKind::PlaylistParent {
        return None;
    }
    let children = find_items(&task.child_task_ids, tasks);
    let mut after = task.clone();
    sync_parent_from_children(&mut after, &children, now);
    let same = after.state == task.state && after.estimated_size_bytes == task.estimated_size_bytes
        && text::same_texts(&after.output_files, &task.output_files) && text::same_opt(
        text::borrow_opt(&after.last_error),
        text::borrow_opt(&task.last_error),
    );
    let ghost kept = RecordView { updated_at: now@, ..task@ };
    if same {
        assert(after@ =~= kept);
        None
    } else {
        assert(after@ != kept) by {
            if after@ == kept {
                assert(after@.last_error == kept.last_error);
            }
        }
        Some(after)
    }
}

impl TaskStore {
    /// Whether the sizes of the items of each playlist can be summed up.
    pub fn families_fit(&self) -> (r: bool)
        ensures
            r == families_fit(self@.tasks()),
    {
        let tasks = self.tasks();
        let ghost all = record::records_view(tasks@);
        let mut i: usize = 0;
        while i < tasks.len()
            invariant
                i <= tasks.len(),
                all == record::records_view(tasks@),
                all == self@.tasks(),
                forall|j: int|
                    0 <= j < i && (#[trigger] all[j]).task_kind == TaskKind::PlaylistParent
                        ==> sizes_fit(sizes_in(items_of(all[j].child_task_ids, all))),
            decreases tasks.len() - i,
        {
            if tasks[i].task_kind == TaskKind::PlaylistParent {
                let items = find_items(&tasks[i].child_task_ids, &tasks);
                let sizes = list_sizes(&items);
                if !do_sizes_fit(&sizes) {
                    assert(all[i as int].task_kind == TaskKind::PlaylistParent);
                    return false;
                }
            }
            i = i + 1;
        }
        true
    }

    /// Brings all playlists in line with their items, at `now`. Only those that differ in more
    /// than the time of the change are saved and returned.
    pub fn refresh_playlist_parents_at(&mut self, now: &str) -> (r: Vec<TaskRecord>)
        requires
            families_fit(old(self)@.tasks()),
        ensures
            record::records_view(r@) == rewrite::changed(
                old(self)@.tasks(),
                refreshing(old(self)@.tasks(), now@),
            ),
            final(self)@ == old(self)@.rewritten(refreshing(old(self)@.tasks(), now@)),
    {
        let tasks = self.load_all_tasks();
        let ghost all = record::records_view(tasks@);
        let ghost change = refreshing(all, now@);
        let mut list: Vec<TaskRecord> = Vec::new();
        let mut i: usize = 0;
        assert(all.take(0) =~= Seq::<RecordView>::empty());
        assert(record::records_view(list@) =~= rewrite::changed(all.take(0), change));
        while i < tasks.len()
            invariant
                i <= tasks.len(),
                all == record::records_view(tasks@),
                families_fit(all),
                change == refreshing(all, now@),
                record::records_view(list@) == rewrite::changed(all.take(i as int), change),
            decreases tasks.len() - i,
        {
            let ghost before = list@;
            assert(all.take(i + 1).drop_last() =~= all.take(i as int));
            assert(all.take(i + 1).last() == tasks@[i as int]@);
            assert(all[i as int] == tasks@[i as int]@);
            if let Some(after) = refresh_task(&tasks[i], &tasks, now) {
                list.push(after);
                assert(record::records_view(list@) =~= record::records_view(before).push(after@));
            }
            i = i + 1;
        }
        assert(all.take(i as int) =~= all);
        self.save_tasks(&list);
        list
    }

    /// Brings all playlists in line with their items. Only those that differ in more than the
    /// time of the change are saved and returned.
    pub fn refresh_playlist_parents(&mut self) -> (r: Vec<TaskRecord>)
        requires
            families_fit(old(self)@.tasks()),
        ensures
            exists|now: Seq<char>|
                clock::timestamp(now) && record::records_view(r@) == rewrite::changed(
                    old(self)@.tasks(),
                    refreshing(old(self)@.tasks(), now),
                ) && final(self)@ == old(self)@.rewritten(
                    #[trigger] refreshing(old(self)@.tasks(), now),
                ),
    {
        let now = clock::now_rfc3339();
        self.refresh_playlist_parents_at(now.as_str())
    }
}

// ---------------------------------------------------------------------------
// Laws of playlists
// ---------------------------------------------------------------------------

proof fn lemma_count(items: Seq<RecordView>, phase: Phase)
    ensures
        count_of(items, phase) <= items.len(),
        count_of(items, phase) > 0 <==> exists|i: int|
            0 <= i < items.len() && phase_of((#[trigger] items[i]).state) == phase,
        count_of(items, phase) == items.len() <==> forall|i: int|
            0 <= i < items.len() ==> phase_of((#[trigger] items[i]).state) == phase,
    decreases items.len(),
{
    if items.len() > 0 {
        let head = items.drop_last();
        lemma_count(head, phase);
        assert(forall|i: int| 0 <= i < head.len() ==> #[trigger] items[i] == head[i]);
        if count_of(head, phase) > 0 {
            let i = choose|i: int|
                0 <= i < head.len() && phase_of((#[trigger] head[i]).state) == phase;
            assert(phase_of(items[i].state) == phase);
        }
        if phase_of(items.last().state) == phase {
            assert(phase_of(items[items.len() - 1].state) == phase);
        }
        if exists|i: int| 0 <= i < items.len() && phase_of((#[trigger] items[i]).state) == phase {
            let i = choose|i: int|
                0 <= i < items.len() && phase_of((#[trigger] items[i]).state) == phase;
            if i < head.len() {
                assert(phase_of(head[i].state) == phase);
            }
        }
        if count_of(items, phase) == items.len() {
            assert forall|i: int| 0 <= i < items.len() implies phase_of(
                (#[trigger] items[i]).state,
            ) == phase by {
                if i < head.len() {
                    assert(phase_of(head[i].state) == phase);
                }
            }
        }
        if forall|i: int| 0 <= i < items.len() ==> phase_of((#[trigger] items[i]).state) == phase {
            assert forall|i: int| 0 <= i < head.len() implies phase_of((#[trigger] head[i]).state)
                == phase by {
                assert(phase_of(items[i].state) == phase);
            }
            assert(phase_of(items[items.len() - 1].state) == phase);
        }
    }
}

/// One of the items is this far.
pub open spec fn some_item(items: Seq<RecordView>, phase: Phase) -> bool {
    exists|i: int| 0 <= i < items.len() && phase_of((#[trigger] items[i]).state) == phase
}

/// A playlist is complete exactly when it has items and all of them are. Short of that it is
/// being downloaded when some item is, else it waits when some item does, else it rests when
/// some item does, else it failed when some item did; a playlist without items is as if it had
/// just been submitted. Only the state, the size, the files, the message and the time of the
/// change are ever touched, and bringing it in line a second time changes nothing but the time.
pub proof fn a_playlist_reflects_its_items(
    parent: RecordView,
    items: Seq<RecordView>,
    now: Seq<char>,
    later: Seq<char>,
)
    ensures
        ({
            let after = synced(parent, items, now);
            &&& after.state == TaskState::Completed <==> items.len() > 0 && forall|i: int|
                0 <= i < items.len() ==> (#[trigger] items[i]).state == TaskState::Completed
            &&& after.state == TaskState::Downloading <==> some_item(items, Phase::Running)
            &&& after.state == TaskState::Queued <==> some_item(items, Phase::Waiting)
                && !some_item(items, Phase::Running)
            &&& after.state == TaskState::Paused <==> some_item(items, Phase::Resting)
                && !some_item(items, Phase::Running) && !some_item(items, Phase::Waiting)
            &&& after.state == TaskState::Submitted <==> items.len() == 0
            &&& after.last_error is Some <==> some_item(items, Phase::Lost) || (some_item(
                items,
                Phase::Done,
            ) && after.state != TaskState::Completed)
            &&& after == (RecordView {
                state: after.state,
                estimated_size_bytes: after.estimated_size_bytes,
                output_files: after.output_files,
                last_error: after.last_error,
                updated_at: now,
                ..parent
            })
            &&& synced(after, items, later) == (RecordView { updated_at: later, ..after })
        }),
{
    lemma_count(items, Phase::Done);
    lemma_count(items, Phase::Lost);
    lemma_count(items, Phase::Running);
    lemma_count(items, Phase::Waiting);
    lemma_count(items, Phase::Resting);
    if items.len() > 0 {
        assert(phase_of(items[0].state) == Phase::Done || phase_of(items[0].state) == Phase::Lost
            || phase_of(items[0].state) == Phase::Running || phase_of(items[0].state)
            == Phase::Waiting || phase_of(items[0].state) == Phase::Resting);
        if forall|i: int|
            0 <= i < items.len() ==> (#[trigger] items[i]).state == TaskState::Completed {
            assert forall|i: int| 0 <= i < items.len() implies phase_of(
                (#[trigger] items[i]).state,
            ) == Phase::Done by {
                assert(items[i].state == TaskState::Completed);
            }
        }
        if count_of(items, Phase::Done) == items.len() {
            assert forall|i: int| 0 <= i < items.len() implies (#[trigger] items[i]).state
                == TaskState::Completed by {
                assert(phase_of(items[i].state) == Phase::Done);
            }
        }
    }
}

/// Refreshing touches playlists only, and leaves every task its id.
pub proof fn refreshing_touches_playlists_only(
    store: StoreView,
    now: Seq<char>,
    id: Seq<char>,
)
    requires
        store.filed(),
    ensures
        ({
            let after = store.rewritten(refreshing(store.tasks(), now));
            match store.task(id) {
                Ok(task) => after.task(id) is Ok && (task.task_kind != TaskKind::PlaylistParent
                    ==> after.task(id) == store.task(id)) && (task.task_kind
                    == TaskKind::PlaylistParent ==> (RecordView {
                    updated_at: now,
                    ..after.task(id)->Ok_0
                }) == synced(task, items_of(task.child_task_ids, store.tasks()), now)),
                Err(_) => after.task(id) is Err,
            }
        }),
        store.rewritten(refreshing(store.tasks(), now)).queue == store.queue,
{
    let change = refreshing(store.tasks(), now);
    assert(rewrite::keeps_ids(change));
    rewrite::a_change_reaches_every_task(store, change, id);
}

/// No item of a playlist is itself a playlist.
pub open spec fn flat(tasks: Seq<RecordView>) -> bool {
    forall|k: int, j: int|
        0 <= k < tasks.len() && (#[trigger] tasks[k]).task_kind == TaskKind::PlaylistParent && 0
            <= j < tasks[k].child_task_ids.len() ==> (listing::by_id(
            tasks,
            #[trigger] tasks[k].child_task_ids[j],
        ) matches Some(item) ==> item.task_kind != TaskKind::PlaylistParent)
}

proof fn lemma_found(store: StoreView, id: Seq<char>)
    requires
        store.filed(),
    ensures
        listing::by_id(store.tasks(), id) == (match store.task(id) {
            Ok(task) => Some(task),
            Err(_) => None,
        }),
{
    let tasks = store.tasks();
    listing::lemma_by_id(tasks, id);
    rewrite::lemma_loaded(store, id);
    if listing::by_id(tasks, id) is Some {
        let task = listing::by_id(tasks, id)->0;
        let k = choose|k: int| 0 <= k < tasks.len() && tasks[k] == task;
        assert(tasks[k].id == id);
    } else if store.task(id) is Ok {
        let task = store.task(id)->Ok_0;
        let k = choose|k: int| 0 <= k < tasks.len() && tasks[k] == task;
        assert(tasks[k].id == id);
    }
}

proof fn lemma_same_items(
    ids: Seq<Seq<char>>,
    before: Seq<RecordView>,
    after: Seq<RecordView>,
)
    requires
        forall|j: int|
            0 <= j < ids.len() ==> listing::by_id(after, #[trigger] ids[j]) == listing::by_id(
                before,
                ids[j],
            ),
    ensures
        items_of(ids, after) == items_of(ids, before),
    decreases ids.len(),
{
    if ids.len() > 0 {
        let head = ids.drop_last();
        assert forall|j: int| 0 <= j < head.len() implies listing::by_id(after, #[trigger] head[j])
            == listing::by_id(before, head[j]) by {
            assert(head[j] == ids[j]);
        }
        lemma_same_items(head, before, after);
        assert(ids[ids.len() - 1] == ids.last());
    }
}

/// A task is in line with the others right after a refresh.
proof fn lemma_refreshed_once(store: StoreView, now: Seq<char>, later: Seq<char>, id: Seq<char>)
    requires
        store.filed(),
        flat(store.tasks()),
        store.rewritten(refreshing(store.tasks(), now)).filed(),
    ensures
        ({
            let after = store.rewritten(refreshing(store.tasks(), now));
            after.task(id) matches Ok(task) ==> refreshed(task, after.tasks(), later) is None && (
            task.task_kind == TaskKind::PlaylistParent && families_fit(store.tasks())
                ==> sizes_fit(sizes_in(items_of(task.child_task_ids, after.tasks()))))
        }),
{
    let tasks = store.tasks();
    let change = refreshing(tasks, now);
    let after = store.rewritten(change);
    assert(rewrite::keeps_ids(change));
    rewrite::a_change_reaches_every_task(store, change, id);
    if after.task(id) is Ok && after.task(id)->Ok_0.task_kind == TaskKind::PlaylistParent {
        let was = store.task(id)->Ok_0;
        let is = after.task(id)->Ok_0;
        assert(is == rewrite::outcome(was, change));
        let ids = was.child_task_ids;
        rewrite::lemma_loaded(store, id);
        let k = choose|k: int| 0 <= k < tasks.len() && tasks[k] == was;
        assert(tasks[k].task_kind == TaskKind::PlaylistParent);
        assert forall|j: int| 0 <= j < ids.len() implies listing::by_id(
            after.tasks(),
            #[trigger] ids[j],
        ) == listing::by_id(tasks, ids[j]) by {
            assert(tasks[k].child_task_ids[j] == ids[j]);
            lemma_found(store, ids[j]);
            lemma_found(after, ids[j]);
            rewrite::a_change_reaches_every_task(store, change, ids[j]);
        }
        lemma_same_items(ids, tasks, after.tasks());
        let items = items_of(ids, tasks);
        assert(synced(is, items, later) == (RecordView { updated_at: later, ..is })) by {
            let once = synced(was, items, now);
            if refreshed(was, tasks, now) is None {
                assert(once == (RecordView { updated_at: now, ..was }));
                assert(once.state == was.state && once.estimated_size_bytes
                    == was.estimated_size_bytes && once.output_files == was.output_files
                    && once.last_error == was.last_error);
            }
        }
    }
}

/// Refreshing the playlists a second time, right after the first, finds none that differs from
/// its items: nothing is returned, and nothing is written. Where the sizes could be summed up for
/// the first refresh, they can for the second.
pub proof fn a_second_refresh_changes_nothing(
    store: StoreView,
    now: Seq<char>,
    later: Seq<char>,
)
    requires
        store.filed(),
        flat(store.tasks()),
    ensures
        ({
            let after = store.rewritten(refreshing(store.tasks(), now));
            &&& families_fit(store.tasks()) ==> families_fit(after.tasks())
            &&& rewrite::changed(after.tasks(), refreshing(after.tasks(), later)).len() == 0
            &&& after.rewritten(refreshing(after.tasks(), later)) == after
        }),
{
    let change = refreshing(store.tasks(), now);
    let after = store.rewritten(change);
    assert(rewrite::keeps_ids(change));
    rewrite::a_change_leaves_files_in_order(store, change);
    let again = refreshing(after.tasks(), later);
    assert forall|k: int| 0 <= k < after.tasks().len() implies again(
        #[trigger] after.tasks()[k],
    ) is None by {
        let id = after.tasks()[k].id;
        rewrite::lemma_loaded(after, id);
        lemma_refreshed_once(store, now, later, id);
    }
    rewrite::lemma_nothing_changed(after.tasks(), again);
    if families_fit(store.tasks()) {
        assert forall|k: int|
            0 <= k < after.tasks().len() && (#[trigger] after.tasks()[k]).task_kind
                == TaskKind::PlaylistParent implies sizes_fit(
            sizes_in(items_of(after.tasks()[k].child_task_ids, after.tasks())),
        ) by {
            let id = after.tasks()[k].id;
            rewrite::lemma_loaded(after, id);
            lemma_refreshed_once(store, now, later, id);
        }
    }
}

}
