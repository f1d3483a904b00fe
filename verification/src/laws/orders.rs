//! What is promised of orders: what is a duplicate, and what tasks are made.
use vstd::prelude::*;

use crate::tasks::creation;
use crate::tasks::duplicates;
use crate::tasks::record;
use crate::tasks::record::{RecordView, TaskKind, TaskState};
use crate::tasks::requests::{BatchCreateTasksResponse, EntryView, MatchView, OrderView};
use crate::tasks::store::{StoreErrorView, StoreView, WriteView};
use crate::text;

verus! {

// ---------------------------------------------------------------------------
// Duplicates
// ---------------------------------------------------------------------------

/// What is said of a task that is a duplicate.
pub open spec fn known_task(task: RecordView) -> MatchView {
    MatchView {
        source: "task"@,
        path: if task.output_files.len() > 0 {
            Some(task.output_files[0])
        } else {
            None
        },
        task_id: Some(task.id),
        state: Some(task.state),
    }
}

/// What is said of a file that is a duplicate.
pub open spec fn known_file(name: Seq<char>) -> MatchView {
    MatchView { source: "library"@, path: Some(name), task_id: None, state: None }
}

proof fn lemma_tasks(tasks: Seq<RecordView>, extractor: Seq<char>, video_id: Seq<char>)
    ensures
        duplicates::task_matches(tasks, extractor, video_id) == tasks.filter(
            |t: RecordView| t.extractor == Some(extractor) && t.video_id == Some(video_id),
        ).map_values(|t: RecordView| known_task(t)),
    decreases tasks.len(),
{
    reveal(Seq::filter);
    let pred = |t: RecordView| t.extractor == Some(extractor) && t.video_id == Some(video_id);
    let make = |t: RecordView| known_task(t);
    if tasks.len() > 0 {
        let head = tasks.drop_last();
        lemma_tasks(head, extractor, video_id);
        if pred(tasks.last()) {
            assert(head.filter(pred).push(tasks.last()).map_values(make) =~= head.filter(
                pred,
            ).map_values(make).push(make(tasks.last())));
        }
    }
    assert(duplicates::task_matches(tasks, extractor, video_id) =~= tasks.filter(
        pred,
    ).map_values(make));
}

proof fn lemma_files(names: Seq<Seq<char>>, video_id: Seq<char>)
    ensures
        duplicates::file_matches(names, video_id) == names.filter(
            |n: Seq<char>| text::occurs(n, "["@ + video_id + "]"@),
        ).map_values(|n: Seq<char>| known_file(n)),
    decreases names.len(),
{
    reveal(Seq::filter);
    reveal_strlit("[");
    reveal_strlit("]");
    assert(duplicates::id_mark(video_id) =~= "["@ + video_id + "]"@);
    let pred = |n: Seq<char>| text::occurs(n, "["@ + video_id + "]"@);
    let make = |n: Seq<char>| known_file(n);
    if names.len() > 0 {
        let head = names.drop_last();
        lemma_files(head, video_id);
        if pred(names.last()) {
            assert(head.filter(pred).push(names.last()).map_values(make) =~= head.filter(
                pred,
            ).map_values(make).push(make(names.last())));
        }
    }
    assert(duplicates::file_matches(names, video_id) =~= names.filter(pred).map_values(make));
}

/// Every task of the same video counts as a duplicate, in whatever state it is, and so does every
/// file of the library whose name holds the id of the video in brackets; and nothing else does.
/// The tasks come first, each part in its order. Of a video whose extractor or id is not known
/// there are no duplicates.
pub proof fn every_duplicate_is_found(
    tasks: Seq<RecordView>,
    extractor: Option<Seq<char>>,
    video_id: Option<Seq<char>>,
    names: Seq<Seq<char>>,
    i: int,
)
    ensures
        ({
            let found = duplicates::all_matches(tasks, extractor, video_id, names);
            let by_task = tasks.filter(
                |t: RecordView| t.extractor == extractor && t.video_id == video_id,
            ).map_values(|t: RecordView| known_task(t));
            let by_file = names.filter(
                |n: Seq<char>| text::occurs(n, "["@ + video_id->0 + "]"@),
            ).map_values(|n: Seq<char>| known_file(n));
            &&& extractor is None || video_id is None ==> found.len() == 0
            &&& extractor is Some && video_id is Some ==> {
                &&& found == by_task + by_file
                &&& 0 <= i < tasks.len() && tasks[i].extractor == extractor && tasks[i].video_id
                    == video_id ==> found.contains(known_task(tasks[i]))
                &&& 0 <= i < names.len() && text::occurs(names[i], "["@ + video_id->0 + "]"@)
                    ==> found.contains(known_file(names[i]))
            }
        }),
{
    if extractor is Some && video_id is Some {
        let found = duplicates::all_matches(tasks, extractor, video_id, names);
        let e = extractor->0;
        let v = video_id->0;
        lemma_tasks(tasks, e, v);
        lemma_files(names, v);
        let pred = |t: RecordView| t.extractor == extractor && t.video_id == video_id;
        let same = |t: RecordView| t.extractor == Some(e) && t.video_id == Some(v);
        assert(pred =~= same);
        let by_name = |n: Seq<char>| text::occurs(n, "["@ + v + "]"@);
        let kept = tasks.filter(pred);
        let files = names.filter(by_name);
        if 0 <= i < tasks.len() && pred(tasks[i]) {
            tasks.lemma_filter_contains(pred, i);
            let m = choose|m: int| 0 <= m < kept.len() && kept[m] == tasks[i];
            assert(found[m] == known_task(tasks[i]));
        }
        if 0 <= i < names.len() && by_name(names[i]) {
            names.lemma_filter_contains(by_name, i);
            let m = choose|m: int| 0 <= m < files.len() && files[m] == names[i];
            assert(found[kept.len() + m] == known_file(names[i]));
        }
    }
}

/// What is found is reported as it is, and what can be done about it is offered.
pub proof fn duplicates_are_reported(matches: Seq<MatchView>)
    ensures
        ({
            let check = duplicates::check_of(matches);
            &&& check.matches == matches
            &&& matches.len() == 0 ==> check.status == "not_found"@
            &&& matches.len() > 0 ==> check.status == "duplicate-found"@
            &&& check.default_action == "skip"@
            &&& check.allowed_actions == seq!["skip"@, "add_anyway"@, "open_existing"@]
        }),
{
}

/// An order for a video is refused exactly when it is one for a playlist, or when the video is
/// there already; the message then names the first task of it, or else the first file.
pub proof fn a_video_is_ordered_once(
    store: StoreView,
    order: OrderView,
    names: Seq<Seq<char>>,
    i: int,
)
    ensures
        ({
            let refusal = store.refusal(order, names);
            let found = duplicates::all_matches(
                store.tasks(),
                order.resolved.extractor,
                order.resolved.video_id,
                names,
            );
            &&& order.resolved.is_playlist ==> refusal == Some(StoreErrorView::IsPlaylist)
            &&& !order.resolved.is_playlist && found.len() == 0 ==> refusal is None
            &&& !order.resolved.is_playlist && found.len() > 0 && found[0].task_id is Some
                ==> refusal == Some(StoreErrorView::AlreadyExists(found[0].task_id->0))
            &&& !order.resolved.is_playlist && found.len() > 0 && found[0].task_id is None
                && found[0].path is Some ==> refusal == Some(
                StoreErrorView::AlreadyExists(found[0].path->0),
            )
            &&& !order.resolved.is_playlist && 0 <= i < store.tasks().len()
                && store.tasks()[i].extractor is Some && store.tasks()[i].video_id is Some
                && store.tasks()[i].extractor == order.resolved.extractor
                && store.tasks()[i].video_id == order.resolved.video_id ==> refusal is Some
        }),
{
    every_duplicate_is_found(
        store.tasks(),
        order.resolved.extractor,
        order.resolved.video_id,
        names,
        i,
    );
}

// ---------------------------------------------------------------------------
// New tasks
// ---------------------------------------------------------------------------

/// The task is as it was ordered, new, and waits for its download.
pub open spec fn as_ordered(task: RecordView, order: OrderView, now: Seq<char>) -> bool {
    &&& task.target_subdir == order.target_subdir
    &&& task.output_dir_relative == order.target_subdir
    &&& task.download_mode == order.download_mode
    &&& task.quality == order.quality
    &&& task.container == order.container
    &&& task.subtitle_languages == order.subtitle_languages
    &&& task.cookie_file_name == order.cookie_file_name
    &&& task.cookie_browser is None
    &&& task.cookie_browser_profile is None
    &&& task.raw_args == order.raw_args
    &&& task.raw_format_code == order.raw_format_code
    &&& task.playlist_title == order.resolved.playlist_title
    &&& task.created_at == now
    &&& task.updated_at == now
    &&& task.state == TaskState::Queued
    &&& task.output_files.len() == 0
    &&& task.last_error is None
}

/// The task for a video is as it was ordered, and says what was found out about the video.
pub proof fn a_video_becomes_a_task(order: OrderView, id: Seq<char>, now: Seq<char>)
    ensures
        ({
            let task = creation::single_task(order, id, now);
            &&& as_ordered(task, order, now)
            &&& task.id == id
            &&& task.task_kind == TaskKind::Single
            &&& task.source_url == order.source_url
            &&& task.parent_task_id is None
            &&& task.child_task_ids.len() == 0
            &&& task.extractor == order.resolved.extractor
            &&& task.video_id == order.resolved.video_id
            &&& task.title == order.resolved.title
            &&& task.playlist_index is None
            &&& task.uploader == order.resolved.uploader
            &&& task.duration_seconds == order.resolved.duration_seconds
            &&& task.thumbnail_url == order.resolved.thumbnail_url
            &&& task.estimated_size_bytes == order.resolved.estimated_size_bytes
        }),
{
}

/// The task for an item of a playlist is as the playlist was ordered, belongs to the task of the
/// playlist, and says what was found out about the item.
pub proof fn an_item_becomes_a_task(
    entry: EntryView,
    order: OrderView,
    parent_id: Seq<char>,
    id: Seq<char>,
    now: Seq<char>,
)
    ensures
        ({
            let task = creation::item_task(entry, order, parent_id, id, now);
            &&& as_ordered(task, order, now)
            &&& task.id == id
            &&& task.task_kind == TaskKind::PlaylistItem
            &&& task.source_url == entry.source_url
            &&& task.parent_task_id == Some(parent_id)
            &&& task.child_task_ids.len() == 0
            &&& task.extractor == entry.extractor
            &&& task.video_id == entry.video_id
            &&& task.title == entry.title
            &&& task.playlist_index == entry.playlist_index
            &&& task.uploader == entry.uploader
            &&& task.duration_seconds == entry.duration_seconds
            &&& task.thumbnail_url == entry.thumbnail_url
            &&& task.estimated_size_bytes == entry.estimated_size_bytes
        }),
{
}

/// The sum of the sizes; none where one of them is not known.
pub open spec fn sum(items: Seq<RecordView>) -> Option<nat>
    decreases items.len(),
{
    if items.len() == 0 {
        Some(0)
    } else {
        match (sum(items.drop_last()), items.last().estimated_size_bytes) {
            (Some(before), Some(size)) => Some((before + size) as nat),
            _ => None,
        }
    }
}

proof fn lemma_sum(items: Seq<RecordView>)
    ensures
        crate::tasks::parents::total_size(crate::tasks::parents::sizes_in(items)) == sum(items),
    decreases items.len(),
{
    if items.len() > 0 {
        lemma_sum(items.drop_last());
        assert(crate::tasks::parents::sizes_in(items).drop_last()
            =~= crate::tasks::parents::sizes_in(items.drop_last()));
        assert(crate::tasks::parents::sizes_in(items).last() == items.last().estimated_size_bytes);
    }
}

/// The task for a playlist is as it was ordered, lists its items in their order, goes by the title
/// of the playlist, or else by that of the document, and is as large as its items are together,
/// where that is known of all of them.
pub proof fn a_playlist_becomes_a_task(
    order: OrderView,
    id: Seq<char>,
    items: Seq<RecordView>,
    now: Seq<char>,
    i: int,
)
    requires
        sum(items) matches Some(total) ==> total <= u64::MAX,
    ensures
        ({
            let task = creation::playlist_task(order, id, items, now);
            &&& as_ordered(task, order, now)
            &&& task.id == id
            &&& task.task_kind == TaskKind::PlaylistParent
            &&& task.source_url == order.source_url
            &&& task.parent_task_id is None
            &&& task.child_task_ids.len() == items.len()
            &&& 0 <= i < items.len() ==> task.child_task_ids[i] == items[i].id
            &&& task.extractor == order.resolved.extractor
            &&& task.video_id == order.resolved.video_id
            &&& order.resolved.playlist_title is Some ==> Some(task.title)
                == order.resolved.playlist_title
            &&& order.resolved.playlist_title is None ==> task.title == order.resolved.title
            &&& task.playlist_index is None
            &&& task.uploader == order.resolved.uploader
            &&& task.duration_seconds is None
            &&& task.thumbnail_url == order.resolved.thumbnail_url
            &&& match task.estimated_size_bytes {
                Some(size) => sum(items) == Some(size as nat),
                None => sum(items) is None,
            }
        }),
{
    lemma_sum(items);
}

/// The item goes by the same name as one of those before it: extractor and id are known of both,
/// and written with a colon between them they are the same.
pub open spec fn repeats(entries: Seq<EntryView>, entry: EntryView) -> bool {
    entry.extractor is Some && entry.video_id is Some && exists|k: int|
        0 <= k < entries.len() && (#[trigger] entries[k]).extractor is Some && entries[k].video_id
            is Some && entries[k].extractor->0 + ":"@ + entries[k].video_id->0
            == entry.extractor->0 + ":"@ + entry.video_id->0
}

proof fn lemma_seen(
    entries: Seq<EntryView>,
    tasks: Seq<RecordView>,
    names: Seq<Seq<char>>,
    key: Seq<char>,
)
    ensures
        creation::selection(entries, tasks, names).seen.contains(key) <==> exists|k: int|
            0 <= k < entries.len() && creation::entry_key(#[trigger] entries[k]) == Some(key),
    decreases entries.len(),
{
    if entries.len() > 0 {
        let head = entries.drop_last();
        lemma_seen(head, tasks, names, key);
        if exists|k: int|
            0 <= k < head.len() && creation::entry_key(#[trigger] head[k]) == Some(key) {
            let k = choose|k: int|
                0 <= k < head.len() && creation::entry_key(#[trigger] head[k]) == Some(key);
            assert(creation::entry_key(entries[k]) == Some(key));
        }
        if exists|k: int|
            0 <= k < entries.len() && creation::entry_key(#[trigger] entries[k]) == Some(key) {
            let k = choose|k: int|
                0 <= k < entries.len() && creation::entry_key(#[trigger] entries[k]) == Some(key);
            if k < head.len() {
                assert(creation::entry_key(head[k]) == Some(key));
            }
        }
        assert(entries[entries.len() - 1] == entries.last());
    }
}

/// Of the items of a playlist exactly those are taken that are not there already and do not repeat
/// one before them, in their order.
pub proof fn new_items_are_taken(
    entries: Seq<EntryView>,
    entry: EntryView,
    tasks: Seq<RecordView>,
    names: Seq<Seq<char>>,
)
    ensures
        creation::new_entries(Seq::empty(), tasks, names).len() == 0,
        ({
            let there = duplicates::all_matches(
                tasks,
                entry.extractor,
                entry.video_id,
                names,
            ).len() > 0;
            creation::new_entries(entries.push(entry), tasks, names) == (if there || repeats(
                entries,
                entry,
            ) {
                creation::new_entries(entries, tasks, names)
            } else {
                creation::new_entries(entries, tasks, names).push(entry)
            })
        }),
{
    reveal_strlit(":");
    assert(":"@ =~= seq![':']);
    let all = entries.push(entry);
    assert(all.drop_last() =~= entries);
    assert forall|e: EntryView| #[trigger] creation::entry_key(e) is Some implies e.extractor->0
        + ":"@ + e.video_id->0 == creation::entry_key(e)->0 by {
        assert(e.extractor->0 + ":"@ + e.video_id->0 =~= e.extractor->0.push(':') + e.video_id->0);
    }
    if creation::entry_key(entry) is Some {
        let key = creation::entry_key(entry)->0;
        lemma_seen(entries, tasks, names, key);
        if repeats(entries, entry) {
            let k = choose|k: int|
                0 <= k < entries.len() && (#[trigger] entries[k]).extractor is Some
                    && entries[k].video_id is Some && entries[k].extractor->0 + ":"@
                    + entries[k].video_id->0 == entry.extractor->0 + ":"@ + entry.video_id->0;
            assert(creation::entry_key(entries[k]) is Some);
            assert(creation::entry_key(entries[k]) == Some(key));
        }
        if exists|k: int|
            0 <= k < entries.len() && creation::entry_key(#[trigger] entries[k]) == Some(key) {
            let k = choose|k: int|
                0 <= k < entries.len() && creation::entry_key(#[trigger] entries[k]) == Some(key);
            assert(entries[k].extractor is Some);
        }
    }
}

/// An order for a playlist is refused exactly when it is not for one, when no items were found, or
/// when none of them is new. The task of the playlist has the first of the new names; the items
/// have the next ones, in their order.
pub proof fn a_playlist_is_ordered_item_by_item(
    store: StoreView,
    order: OrderView,
    names: Seq<Seq<char>>,
    millis: int,
    first: u64,
    now: Seq<char>,
    i: int,
)
    ensures
        ({
            let new = creation::new_entries(order.resolved.entries, store.tasks(), names);
            let refusal = store.batch_refusal(order, names);
            let items = store.batch_items(order, names, millis, first, now);
            let parent = store.batch_parent(order, names, millis, first, now);
            &&& refusal == Some(StoreErrorView::NotPlaylist) <==> !order.resolved.is_playlist
            &&& refusal == Some(StoreErrorView::NoEntries) <==> order.resolved.is_playlist
                && order.resolved.entries.len() == 0
            &&& refusal == Some(StoreErrorView::NothingNew) <==> order.resolved.is_playlist
                && order.resolved.entries.len() > 0 && new.len() == 0
            &&& refusal is None <==> order.resolved.is_playlist && new.len() > 0
            &&& items.len() == new.len()
            &&& parent == creation::playlist_task(order, parent.id, items, now)
            &&& parent.id == record::task_name(millis, first as nat)
            &&& 0 <= i < new.len() ==> items[i] == creation::item_task(
                new[i],
                order,
                parent.id,
                items[i].id,
                now,
            )
            &&& 0 <= i < new.len() && first + 1 + i <= u64::MAX ==> items[i].id
                == record::task_name(millis, (first + 1 + i) as nat)
        }),
{
    if order.resolved.entries.len() == 0 {
        assert(order.resolved.entries =~= Seq::<EntryView>::empty());
    }
}

/// The name of a task is its time and its number, each written out.
pub proof fn tasks_are_named_by_time_and_number(millis: nat, count: nat)
    ensures
        record::task_name(millis as int, count) == "task_"@ + text::decimal(millis) + "_"@
            + text::decimal(count),
        millis > 0 ==> record::task_name(-millis, count) == "task_"@ + ("-"@ + text::decimal(
            millis,
        )) + "_"@ + text::decimal(count),
{
}

/// Looking for duplicates clears away records that cannot be read; it is done exactly when extractor
/// and id are known, of the video or of some item of the playlist.
pub proof fn looking_for_duplicates_clears_up(store: StoreView, order: OrderView)
    ensures
        store.considered(order) == (if !order.resolved.is_playlist && order.resolved.extractor is Some
            && order.resolved.video_id is Some {
            store.swept()
        } else {
            store
        }),
        store.batch_searched(order) == (if order.resolved.is_playlist && exists|i: int|
            0 <= i < order.resolved.entries.len() && (
            #[trigger] order.resolved.entries[i]).extractor is Some
                && order.resolved.entries[i].video_id is Some {
            store.swept()
        } else {
            store
        }),
{
    let entries = order.resolved.entries;
    if exists|i: int|
        0 <= i < entries.len() && (#[trigger] entries[i]).extractor is Some
            && entries[i].video_id is Some {
        let i = choose|i: int|
            0 <= i < entries.len() && (#[trigger] entries[i]).extractor is Some
                && entries[i].video_id is Some;
        assert(creation::entry_key(entries[i]) is Some);
    }
    if creation::some_key(entries) {
        let i = choose|i: int| 0 <= i < entries.len() && creation::entry_key(
            #[trigger] entries[i],
        ) is Some;
        assert(entries[i].extractor is Some && entries[i].video_id is Some);
    }
}

/// The task of a playlist is stored first and does not wait itself; its items are stored and queued
/// one by one, in their order.
pub proof fn items_are_queued_in_their_order(
    store: StoreView,
    order: OrderView,
    names: Seq<Seq<char>>,
    millis: int,
    first: u64,
    tasks: Seq<RecordView>,
    task: RecordView,
    now: Seq<char>,
)
    ensures
        store.batch_created(order, names, millis, first, now) == store.batch_searched(order).apply(
            WriteView::SaveTask(store.batch_parent(order, names, millis, first, now)),
        ).enqueued_all(store.batch_items(order, names, millis, first, now), now),
        store.enqueued_all(Seq::empty(), now) == store,
        store.enqueued_all(tasks.push(task), now) == store.enqueued_all(tasks, now).apply(
            WriteView::SaveTask(task),
        ).appended(task.id, now),
        store.enqueued(task, now) == store.apply(WriteView::SaveTask(task)).appended(task.id, now),
{
    assert(tasks.push(task).drop_last() =~= tasks);
}

/// The answer to the order of a playlist shows its task and then those of its items, none of which
/// has begun, and says how many they are.
pub proof fn a_playlist_order_is_answered(
    answer: BatchCreateTasksResponse,
    parent: RecordView,
    items: Seq<RecordView>,
    i: int,
)
    requires
        creation::batch_answer(answer, parent, items),
    ensures
        answer.tasks@.len() == items.len() + 1,
        answer.tasks@[0].record() == parent,
        0 <= i < items.len() ==> answer.tasks@[i + 1].record() == items[i],
        0 <= i <= items.len() ==> {
            &&& answer.tasks@[i].progress@.percent == "0"@
            &&& answer.tasks@[i].progress@.downloaded_bytes is None
            &&& answer.tasks@[i].progress@.total_bytes is None
            &&& answer.tasks@[i].progress@.speed is None
            &&& answer.tasks@[i].progress@.eta_seconds is None
            &&& answer.tasks@[i].recent_logs@.len() == 0
        },
        text::text_opt(answer.parent_task_id) == Some(parent.id),
        answer.created_count == items.len() + 1,
{
    let shown = creation::shown_records(answer.tasks@);
    assert(shown.len() == items.len() + 1);
    assert(shown[0] == parent);
    if 0 <= i < items.len() {
        assert(shown[i + 1] == items[i]);
    }
    if 0 <= i <= items.len() {
        assert(creation::idle(answer.tasks@[i]));
    }
}

}
