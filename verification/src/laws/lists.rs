//! What is promised of the lists that are shown: tasks, folders and files.
use vstd::prelude::*;

use crate::library::tree;
use crate::library::tree::{ScannedView};
use crate::order;
use crate::tasks::listing;
use crate::tasks::record::RecordView;
use crate::tasks::rewrite;
use crate::text;

verus! {

// ---------------------------------------------------------------------------
// Tasks
// ---------------------------------------------------------------------------

/// One of the tasks goes by this id.
pub open spec fn lists(tasks: Seq<RecordView>, id: Seq<char>) -> bool {
    exists|i: int| 0 <= i < tasks.len() && (#[trigger] tasks[i]).id == id
}

proof fn lemma_done(ids: Seq<Seq<char>>, tasks: Seq<RecordView>, task: RecordView)
    requires
        listing::by_id(tasks, task.id) == Some(task),
    ensures
        listing::queued_listing(ids, tasks).done.contains(task.id) <==> lists(
            listing::queued_listing(ids, tasks).shown,
            task.id,
        ),
{
    let queued = listing::queued_listing(ids, tasks);
    listing::lemma_queued_listing(ids, tasks);
    if queued.done.contains(task.id) {
        let i = choose|i: int| 0 <= i < queued.shown.len() && queued.shown[i] == task;
        assert(queued.shown[i].id == task.id);
    }
    if lists(queued.shown, task.id) {
        let i = choose|i: int|
            0 <= i < queued.shown.len() && (#[trigger] queued.shown[i]).id == task.id;
        assert(queued.done.contains(queued.shown[i].id));
    }
}

/// The next id of the queue brings up its task, and before it the playlist that the task is of,
/// each unless it is shown already; an id that no task has brings up nothing.
pub proof fn the_queue_brings_up_tasks(
    ids: Seq<Seq<char>>,
    id: Seq<char>,
    tasks: Seq<RecordView>,
)
    ensures
        ({
            let before = listing::queued_listing(ids, tasks).shown;
            let after = listing::queued_listing(ids.push(id), tasks).shown;
            match listing::by_id(tasks, id) {
                None => after == before,
                Some(task) => {
                    let parent = match task.parent_task_id {
                        Some(p) => listing::by_id(tasks, p),
                        None => None,
                    };
                    let between = if parent is Some && !lists(before, parent->0.id) {
                        before.push(parent->0)
                    } else {
                        before
                    };
                    after == (if lists(between, task.id) {
                        between
                    } else {
                        between.push(task)
                    })
                },
            }
        }),
{
    assert(ids.push(id).drop_last() =~= ids);
    listing::lemma_by_id(tasks, id);
    if listing::by_id(tasks, id) is Some {
        let task = listing::by_id(tasks, id)->0;
        let queued = listing::queued_listing(ids, tasks);
        lemma_done(ids, tasks, task);
        if task.parent_task_id is Some {
            let p = task.parent_task_id->0;
            listing::lemma_by_id(tasks, p);
            if listing::by_id(tasks, p) is Some {
                let parent = listing::by_id(tasks, p)->0;
                lemma_done(ids, tasks, parent);
                let between = queued.shown.push(parent);
                if !lists(queued.shown, parent.id) {
                    assert(lists(between, task.id) <==> lists(queued.shown, task.id) || task.id
                        == parent.id) by {
                        if lists(queued.shown, task.id) {
                            let i = choose|i: int|
                                0 <= i < queued.shown.len() && (#[trigger] queued.shown[i]).id
                                    == task.id;
                            assert(between[i].id == task.id);
                        }
                        assert(between[queued.shown.len() as int].id == parent.id);
                        if lists(between, task.id) && task.id != parent.id {
                            let i = choose|i: int|
                                0 <= i < between.len() && (#[trigger] between[i]).id == task.id;
                            assert(queued.shown[i].id == task.id);
                        }
                    }
                }
            }
        }
    }
}

/// A task goes by the last record with its id.
pub proof fn the_last_record_counts(tasks: Seq<RecordView>, task: RecordView, id: Seq<char>)
    ensures
        listing::by_id(Seq::empty(), id) is None,
        listing::by_id(tasks.push(task), id) == (if task.id == id {
            Some(task)
        } else {
            listing::by_id(tasks, id)
        }),
{
    assert(tasks.push(task).drop_last() =~= tasks);
}

proof fn lemma_child(tasks: Seq<RecordView>, n: int, done: Set<Seq<char>>, child: bool, m: int)
    requires
        0 <= n <= tasks.len(),
        0 <= m < listing::waiting(tasks, n, done, child).len(),
    ensures
        (listing::waiting(tasks, n, done, child)[m].parent_task_id is Some) == child,
    decreases n,
{
    let rest = listing::waiting(tasks, n - 1, done, child);
    if m < rest.len() {
        lemma_child(tasks, n - 1, done, child, m);
    }
}

/// The tasks that the queue does not bring up come behind the others, the oldest first; of several
/// of the same age those that are of a playlist come last. What is shown is what the queue brings
/// up and these.
pub proof fn other_tasks_come_by_age(
    ids: Seq<Seq<char>>,
    tasks: Seq<RecordView>,
    i: int,
    j: int,
)
    ensures
        ({
            let front = listing::queued_listing(ids, tasks).shown;
            let all = listing::shown_order(ids, tasks);
            &&& front.is_prefix_of(all)
            &&& front.len() <= i < j < all.len() ==> {
                &&& order::lex_le(all[i].created_at, all[j].created_at)
                &&& all[i].created_at == all[j].created_at && all[j].parent_task_id is None
                    ==> all[i].parent_task_id is None
            }
        }),
{
    let queued = listing::queued_listing(ids, tasks);
    let front = queued.shown;
    let all = listing::shown_order(ids, tasks);
    let rest = listing::rest_by_creation(tasks, queued.done);
    let key = listing::creation();
    let unsorted = listing::all_waiting(tasks, queued.done);
    assert(front.is_prefix_of(all));
    if front.len() <= i < j < all.len() {
        let a = i - front.len();
        let b = j - front.len();
        order::sorting_ascends(unsorted, key);
        order::lemma_sorted_len(unsorted, key);
        assert(all[i] == rest[a] && all[j] == rest[b]);
        assert(order::lex_le(key(rest[a]), key(rest[b])));
        if all[i].created_at == all[j].created_at && all[j].parent_task_id is None
            && all[i].parent_task_id is Some {
            let x = order::lemma_rank_onto(unsorted, key, a);
            let y = order::lemma_rank_onto(unsorted, key, b);
            order::lemma_rank(unsorted, key, x);
            order::lemma_rank(unsorted, key, y);
            let n = tasks.len() as int;
            let roots = listing::waiting(tasks, n, queued.done, false);
            let items = listing::waiting(tasks, n, queued.done, true);
            if x < roots.len() {
                lemma_child(tasks, n, queued.done, false, x);
                assert(unsorted[x] == roots[x]);
            }
            if y >= roots.len() {
                lemma_child(tasks, n, queued.done, true, y - roots.len());
                assert(unsorted[y] == items[y - roots.len()]);
            }
            assert(y < x);
            order::lemma_lex_reflexive(all[i].created_at);
            order::sorting_moves_items(unsorted, key, y, x);
        }
    }
}

/// Of a change to all tasks those are saved that it changes, in their order, and no other.
pub proof fn what_changes_is_saved(
    tasks: Seq<RecordView>,
    task: RecordView,
    change: rewrite::Change,
)
    ensures
        rewrite::changed(Seq::empty(), change).len() == 0,
        rewrite::changed(tasks.push(task), change) == (match change(task) {
            Some(after) => rewrite::changed(tasks, change).push(after),
            None => rewrite::changed(tasks, change),
        }),
{
    assert(tasks.push(task).drop_last() =~= tasks);
}

// ---------------------------------------------------------------------------
// The library
// ---------------------------------------------------------------------------

/// What the library does not show: folders whose names begin with a dot, and the unfinished files,
/// the notes and the descriptions of the downloader.
pub open spec fn out_of_sight(entry: ScannedView) -> bool {
    if entry.is_dir {
        entry.name.len() > 0 && entry.name[0] == '.'
    } else {
        text::ends(entry.name, ".part"@) || text::ends(entry.name, ".ytdl"@) || text::ends(
            entry.name,
            ".temp"@,
        ) || text::ends(entry.name, ".info.json"@) || text::occurs(entry.name, ".frag"@)
    }
}

proof fn lemma_hidden(entry: ScannedView)
    ensures
        tree::hidden(entry.name, entry.is_dir) <==> out_of_sight(entry),
{
    reveal_strlit(".");
    if entry.is_dir {
        let name = entry.name;
        if name.len() > 0 {
            assert(name.subrange(0, 1) =~= seq![name[0]]);
            assert("."@ =~= seq!['.']);
            if name[0] == '.' {
                assert(name.subrange(0, 1) =~= "."@);
            } else if name.subrange(0, 1) == "."@ {
                assert(name.subrange(0, 1)[0] == '.');
            }
        }
    }
}

/// An entry is shown under its name and its path, with slashes; a file with its size, and a folder
/// with what is in it, the same way.
pub proof fn an_entry_is_shown_as_it_is(entry: ScannedView, i: int)
    ensures
        ({
            let node = tree::node_of(entry);
            &&& node.name == entry.name
            &&& entry.path matches Some(p) ==> node.relative_path == text::replaced(p, '\\', '/')
            &&& entry.path is None ==> node.relative_path.len() == 0
            &&& entry.is_dir ==> node.item_type == "directory"@ && node.size_bytes is None
                && node.children == tree::tree_of(entry.children)
            &&& !entry.is_dir ==> node.item_type == "file"@ && node.size_bytes == entry.size
                && node.children.len() == 0
        }),
{
}

/// Everything in a folder is shown that is not kept out of sight, once for each entry, and nothing
/// else: folders first, then files, each part by name in lower case.
pub proof fn a_folder_shows_what_is_in_it(entries: Seq<ScannedView>, i: int, j: int)
    ensures
        ({
            let shown = tree::tree_of(entries);
            &&& shown.len() == entries.filter(|e: ScannedView| !out_of_sight(e)).len()
            &&& 0 <= i < entries.len() && !out_of_sight(entries[i]) ==> shown.contains(
                tree::node_of(entries[i]),
            )
            &&& 0 <= i < shown.len() ==> exists|k: int|
                0 <= k < entries.len() && !out_of_sight(#[trigger] entries[k]) && shown[i]
                    == tree::node_of(entries[k])
            &&& 0 <= i < j < shown.len() ==> {
                &&& shown[j].item_type == "directory"@ ==> shown[i].item_type == "directory"@
                &&& shown[i].item_type == shown[j].item_type ==> order::lex_le(
                    text::lowercased(shown[i].name),
                    text::lowercased(shown[j].name),
                )
            }
        }),
{
    let shown = tree::tree_of(entries);
    tree::the_tree_shows_what_is_there(entries, i, j);
    lemma_node_count(entries);
    order::lemma_sorted_len(tree::nodes_of(entries), tree::node_key());
    if 0 <= i < entries.len() {
        lemma_hidden(entries[i]);
    }
    if 0 <= i < shown.len() {
        let k = choose|k: int|
            0 <= k < entries.len() && shown[i] == tree::node_of(#[trigger] entries[k])
                && !tree::hidden(entries[k].name, entries[k].is_dir);
        lemma_hidden(entries[k]);
        assert(!out_of_sight(entries[k]));
    }
    if 0 <= i < j < shown.len() {
        let key = tree::node_key();
        let a = key(shown[i]);
        let b = key(shown[j]);
        assert(order::lex_le(a, b));
        assert(a.skip(1) =~= text::lowercased(shown[i].name));
        assert(b.skip(1) =~= text::lowercased(shown[j].name));
        if shown[i].item_type == shown[j].item_type {
            assert(a[0] == b[0]);
        }
    }
}

proof fn lemma_node_count(entries: Seq<ScannedView>)
    ensures
        tree::nodes_of(entries).len() == entries.filter(|e: ScannedView| !out_of_sight(e)).len(),
    decreases entries.len(),
{
    reveal(Seq::filter);
    if entries.len() > 0 {
        lemma_node_count(entries.drop_last());
        lemma_hidden(entries.last());
    }
}

/// The names of the library are those of all files in it, at any depth, whose names can be told;
/// of whatever kind, also those that are not shown.
pub proof fn every_file_has_a_name(entries: Seq<ScannedView>, entry: ScannedView)
    ensures
        tree::names_below(Seq::empty()).len() == 0,
        tree::names_below(entries.push(entry)) == tree::names_below(entries) + (if entry.is_dir {
            tree::names_below(entry.children)
        } else if entry.exact {
            seq![entry.name]
        } else {
            Seq::empty()
        }),
{
    let all = entries.push(entry);
    assert(all.drop_last() =~= entries);
    assert(tree::names_below(all) =~= tree::names_below(entries) + (if entry.is_dir {
        tree::names_below(entry.children)
    } else if entry.exact {
        seq![entry.name]
    } else {
        Seq::empty()
    }));
}

}
