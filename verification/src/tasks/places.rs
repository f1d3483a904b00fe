//! Where tasks put their files, and what becomes of that when files are moved or deleted.
use vstd::prelude::*;

use crate::clock;
use crate::library::names;
use crate::library::names::{ChangeView, PathChange};
use crate::paths;
use crate::paths::{FsPath, FsPathView};
use crate::settings::AppSettings;
use crate::tasks::record;
use crate::tasks::record::{RecordView, TaskRecord};
use crate::tasks::rewrite;
use crate::tasks::store::{StoreView, TaskStore};
use crate::text;

verus! {

/// The directory for a task: the download root, or a directory below it.
pub open spec fn output_place(download_root: Seq<char>, target_subdir: Seq<char>) -> FsPathView {
    if text::blank(target_subdir) {
        paths::at(download_root)
    } else {
        paths::at(download_root).join(target_subdir)
    }
}

/// The directory for a task: the download root, or a directory below it; `None` where it would
/// leave the download root.
pub fn output_directory(settings: &AppSettings, target_subdir: &str, windows: bool) -> (r: Option<
    FsPath,
>)
    ensures
        match r {
            Some(place) => !paths::leaves_root(target_subdir@, windows) && place@ == output_place(
                settings@.download_root,
                target_subdir@,
            ),
            None => paths::leaves_root(target_subdir@, windows),
        },
{
    if paths::does_leave_root(target_subdir, windows) {
        return None;
    }
    let root = FsPath::new(settings.download_root.as_str());
    if text::is_blank(target_subdir) {
        Some(root)
    } else {
        Some(root.join(target_subdir))
    }
}

/// A download never leaves the download root: where the place of a task is not refused, it is the
/// root, or what is joined to it starts there, never rises above it, and ends below it under names
/// alone, or at the root itself. The root is never refused.
pub proof fn downloads_stay_below_the_root(
    download_root: Seq<char>,
    target_subdir: Seq<char>,
    windows: bool,
    n: int,
    k: int,
)
    ensures
        text::blank(target_subdir) ==> !paths::leaves_root(target_subdir, windows) && output_place(
            download_root,
            target_subdir,
        ) == paths::at(download_root),
        !paths::leaves_root(target_subdir, windows) && !text::blank(target_subdir) ==> {
            let place = output_place(download_root, target_subdir);
            let pieces = paths::system_pieces(target_subdir, windows);
            let names = paths::walked(pieces)->0;
            &&& place.base == download_root && place.segments == seq![target_subdir]
            &&& !paths::starts_elsewhere(target_subdir, windows)
            &&& paths::walked(pieces) is Some
            &&& 0 <= n <= pieces.len() ==> paths::walked(pieces.take(n)) is Some
            &&& 0 <= k < names.len() ==> paths::counts(names[k]) && names[k] != seq!['.', '.']
        },
{
    if text::blank(target_subdir) {
        paths::blank_paths_stay(target_subdir, windows);
    } else if !paths::leaves_root(target_subdir, windows) {
        paths::what_does_not_leave_stays_below(target_subdir, windows, n, k);
        assert(output_place(download_root, target_subdir).segments =~= seq![target_subdir]);
    }
}

// ---------------------------------------------------------------------------
// Moved files
// ---------------------------------------------------------------------------

/// Where `path` is after the changes, by the first of them that moved it or a folder that it is
/// in; `None` where none did.
pub open spec fn remapped(path: Seq<char>, moved: Seq<ChangeView>) -> Option<Seq<char>>
    decreases moved.len(),
{
    if moved.len() == 0 {
        None
    } else if path == moved[0].from {
        Some(moved[0].to)
    } else if text::begins(path, moved[0].from.push('/')) {
        Some(moved[0].to.push('/') + path.skip(moved[0].from.len() as int + 1))
    } else {
        remapped(path, moved.skip(1))
    }
}

/// Where `path` is after the changes.
pub open spec fn moved_path(path: Seq<char>, moved: Seq<ChangeView>) -> Seq<char> {
    match remapped(path, moved) {
        Some(to) => to,
        None => path,
    }
}

/// Where `path` is after the changes; `None` where none of them moved it.
pub fn remap_relative_path(path: &str, moved: &Vec<PathChange>) -> (r: Option<String>)
    ensures
        text::text_opt(r) == remapped(path@, names::changes_view(moved@)),
{
    let ghost all = names::changes_view(moved@);
    let mut i: usize = 0;
    assert(all.skip(0) =~= all);
    while i < moved.len()
        invariant
            i <= moved.len(),
            all == names::changes_view(moved@),
            remapped(path@, all) == remapped(path@, all.skip(i as int)),
        decreases moved.len() - i,
    {
        assert(all.skip(i as int)[0] == moved@[i as int]@);
        assert(all.skip(i as int).skip(1) =~= all.skip(i + 1));
        if text::same(path, moved[i].from.as_str()) {
            return Some(moved[i].to.clone());
        }
        let mut prefix = moved[i].from.clone();
        prefix.push('/');
        if let Some(rest) = text::strip_prefix(path, prefix.as_str()) {
            let mut to = moved[i].to.clone();
            to.push('/');
            to.append(rest.as_str());
            return Some(to);
        }
        i = i + 1;
    }
    None
}

/// Where each path is after the changes.
pub open spec fn moved_paths(list: Seq<Seq<char>>, moved: Seq<ChangeView>) -> Seq<Seq<char>> {
    Seq::new(list.len(), |i: int| moved_path(list[i], moved))
}

fn move_path(path: &str, moved: &Vec<PathChange>) -> (r: String)
    ensures
        r@ == moved_path(path@, names::changes_view(moved@)),
{
    match remap_relative_path(path, moved) {
        Some(to) => to,
        None => path.to_owned(),
    }
}

fn move_paths(list: &Vec<String>, moved: &Vec<PathChange>) -> (r: Vec<String>)
    ensures
        text::texts(r@) == moved_paths(text::texts(list@), names::changes_view(moved@)),
{
    let mut r: Vec<String> = Vec::new();
    let mut i: usize = 0;
    while i < list.len()
        invariant
            i <= list.len(),
            r.len() == i,
            forall|j: int|
                0 <= j < i ==> (#[trigger] r@[j])@ == moved_path(
                    list@[j]@,
                    names::changes_view(moved@),
                ),
        decreases list.len() - i,
    {
        r.push(move_path(list[i].as_str(), moved));
        i = i + 1;
    }
    assert(text::texts(r@) =~= moved_paths(text::texts(list@), names::changes_view(moved@)));
    r
}

/// What becomes of a task when files are moved; `None` where it stays as it is.
pub open spec fn relocated(
    task: RecordView,
    moved: Seq<ChangeView>,
    now: Seq<char>,
) -> Option<RecordView> {
    let after = RecordView {
        target_subdir: moved_path(task.target_subdir, moved),
        output_dir_relative: moved_path(task.output_dir_relative, moved),
        output_files: moved_paths(task.output_files, moved),
        ..task
    };
    if after == task {
        None
    } else {
        Some(RecordView { updated_at: now, ..after })
    }
}

/// The relocation of tasks at `now`.
pub open spec fn relocation(moved: Seq<ChangeView>, now: Seq<char>) -> rewrite::Change {
    |task: RecordView| relocated(task, moved, now)
}

fn relocate_task(task: &TaskRecord, moved: &Vec<PathChange>, now: &str) -> (r: Option<TaskRecord>)
    ensures
        record::record_opt(r) == relocated(task@, names::changes_view(moved@), now@),
{
    let target_subdir = move_path(task.target_subdir.as_str(), moved);
    let output_dir_relative = move_path(task.output_dir_relative.as_str(), moved);
    let output_files = move_paths(&task.output_files, moved);
    let ghost after = RecordView {
        target_subdir: target_subdir@,
        output_dir_relative: output_dir_relative@,
        output_files: text::texts(output_files@),
        ..task@
    };
    if target_subdir == task.target_subdir && output_dir_relative == task.output_dir_relative
        && text::same_texts(&output_files, &task.output_files) {
        assert(after =~= task@);
        None
    } else {
        assert(after != task@) by {
            if after == task@ {
                assert(after.target_subdir == task@.target_subdir);
                assert(after.output_dir_relative == task@.output_dir_relative);
                assert(after.output_files == task@.output_files);
            }
        }
        let mut changed = task.clone();
        changed.target_subdir = target_subdir;
        changed.output_dir_relative = output_dir_relative;
        changed.output_files = output_files;
        changed.stamp(now);
        Some(changed)
    }
}

// ---------------------------------------------------------------------------
// Deleted files
// ---------------------------------------------------------------------------

/// `path` is one of `deleted`, or lies below one.
pub open spec fn lost(path: Seq<char>, deleted: Seq<Seq<char>>) -> bool {
    exists|i: int| 0 <= i < deleted.len() && paths::within(path, #[trigger] deleted[i])
}

/// The paths that are still there.
pub open spec fn surviving(list: Seq<Seq<char>>, deleted: Seq<Seq<char>>) -> Seq<Seq<char>>
    decreases list.len(),
{
    if list.len() == 0 {
        list
    } else if lost(list.last(), deleted) {
        surviving(list.drop_last(), deleted)
    } else {
        surviving(list.drop_last(), deleted).push(list.last())
    }
}

fn is_lost(path: &str, deleted: &Vec<String>) -> (r: bool)
    ensures
        r == lost(path@, text::texts(deleted@)),
{
    let ghost all = text::texts(deleted@);
    let mut i: usize = 0;
    while i < deleted.len()
        invariant
            i <= deleted.len(),
            all == text::texts(deleted@),
            forall|j: int| 0 <= j < i ==> !paths::within(path@, #[trigger] all[j]),
        decreases deleted.len() - i,
    {
        assert(all[i as int] == deleted@[i as int]@);
        if paths::is_same_or_descendant(path, deleted[i].as_str()) {
            return true;
        }
        i = i + 1;
    }
    false
}

fn keep_surviving(list: &Vec<String>, deleted: &Vec<String>) -> (r: Vec<String>)
    ensures
        text::texts(r@) == surviving(text::texts(list@), text::texts(deleted@)),
{
    let ghost all = text::texts(list@);
    let ghost gone = text::texts(deleted@);
    let mut kept: Vec<String> = Vec::new();
    let mut i: usize = 0;
    assert(all.take(0) =~= Seq::<Seq<char>>::empty());
    assert(text::texts(kept@) =~= surviving(all.take(0), gone));
    while i < list.len()
        invariant
            i <= list.len(),
            all == text::texts(list@),
            gone == text::texts(deleted@),
            text::texts(kept@) == surviving(all.take(i as int), gone),
        decreases list.len() - i,
    {
        let ghost before = kept@;
        assert(all.take(i + 1).drop_last() =~= all.take(i as int));
        assert(all.take(i + 1).last() == list@[i as int]@);
        if !is_lost(list[i].as_str(), deleted) {
            kept.push(list[i].clone());
            assert(text::texts(kept@) =~= text::texts(before).push(list@[i as int]@));
        }
        i = i + 1;
    }
    assert(all.take(i as int) =~= all);
    kept
}

/// What becomes of a task when files are deleted; `None` where it stays as it is.
pub open spec fn pruned(
    task: RecordView,
    deleted: Seq<Seq<char>>,
    now: Seq<char>,
) -> Option<RecordView> {
    let left = surviving(task.output_files, deleted);
    if left.len() == task.output_files.len() {
        None
    } else {
        Some(RecordView { output_files: left, updated_at: now, ..task })
    }
}

/// The pruning of tasks at `now`.
pub open spec fn pruning(deleted: Seq<Seq<char>>, now: Seq<char>) -> rewrite::Change {
    |task: RecordView| pruned(task, deleted, now)
}

fn prune_task(task: &TaskRecord, deleted: &Vec<String>, now: &str) -> (r: Option<TaskRecord>)
    ensures
        record::record_opt(r) == pruned(task@, text::texts(deleted@), now@),
{
    let left = keep_surviving(&task.output_files, deleted);
    assert(left@.len() == text::texts(left@).len());
    if left.len() == task.output_files.len() {
        return None;
    }
    let mut changed = task.clone();
    changed.output_files = left;
    changed.stamp(now);
    Some(changed)
}

// ---------------------------------------------------------------------------
// All tasks
// ---------------------------------------------------------------------------

impl StoreView {
    /// The store after files were moved.
    pub open spec fn after_moves(self, moved: Seq<ChangeView>, now: Seq<char>) -> StoreView {
        if moved.len() == 0 {
            self
        } else {
            self.rewritten(relocation(moved, now))
        }
    }

    /// The tasks that differ after files were moved.
    pub open spec fn tasks_moved(
        self,
        moved: Seq<ChangeView>,
        now: Seq<char>,
    ) -> Seq<RecordView> {
        if moved.len() == 0 {
            Seq::empty()
        } else {
            rewrite::changed(self.tasks(), relocation(moved, now))
        }
    }

    /// The store after files were deleted.
    pub open spec fn after_deletions(self, deleted: Seq<Seq<char>>, now: Seq<char>) -> StoreView {
        if deleted.len() == 0 {
            self
        } else {
            self.rewritten(pruning(deleted, now))
        }
    }

    /// The tasks that differ after files were deleted.
    pub open spec fn tasks_pruned(
        self,
        deleted: Seq<Seq<char>>,
        now: Seq<char>,
    ) -> Seq<RecordView> {
        if deleted.len() == 0 {
            Seq::empty()
        } else {
            rewrite::changed(self.tasks(), pruning(deleted, now))
        }
    }
}

impl TaskStore {
    /// Brings all tasks in line with files that were moved, at `now`; returns those that changed.
    pub fn remap_paths_at(&mut self, moved: &Vec<PathChange>, now: &str) -> (r: Vec<TaskRecord>)
        ensures
            record::records_view(r@) == old(self)@.tasks_moved(
                names::changes_view(moved@),
                now@,
            ),
            final(self)@ == old(self)@.after_moves(names::changes_view(moved@), now@),
    {
        let mut list: Vec<TaskRecord> = Vec::new();
        if moved.len() == 0 {
            assert(record::records_view(list@) =~= Seq::<RecordView>::empty());
            return list;
        }
        let tasks = self.load_all_tasks();
        let ghost all = record::records_view(tasks@);
        let ghost change = relocation(names::changes_view(moved@), now@);
        let mut i: usize = 0;
        assert(all.take(0) =~= Seq::<RecordView>::empty());
        assert(record::records_view(list@) =~= rewrite::changed(all.take(0), change));
        while i < tasks.len()
            invariant
                i <= tasks.len(),
                all == record::records_view(tasks@),
                change == relocation(names::changes_view(moved@), now@),
                record::records_view(list@) == rewrite::changed(all.take(i as int), change),
            decreases tasks.len() - i,
        {
            let ghost before = list@;
            assert(all.take(i + 1).drop_last() =~= all.take(i as int));
            assert(all.take(i + 1).last() == tasks@[i as int]@);
            if let Some(after) = relocate_task(&tasks[i], moved, now) {
                list.push(after);
                assert(record::records_view(list@) =~= record::records_view(before).push(after@));
            }
            i = i + 1;
        }
        assert(all.take(i as int) =~= all);
        self.save_tasks(&list);
        list
    }

    /// Brings all tasks in line with files that were moved; returns those that changed.
    pub fn remap_paths(&mut self, moved: &Vec<PathChange>) -> (r: Vec<TaskRecord>)
        ensures
            exists|now: Seq<char>|
                clock::timestamp(now) && record::records_view(r@) == old(self)@.tasks_moved(
                    names::changes_view(moved@),
                    now,
                ) && final(self)@ == #[trigger] old(self)@.after_moves(
                    names::changes_view(moved@),
                    now,
                ),
    {
        let now = clock::now_rfc3339();
        self.remap_paths_at(moved, now.as_str())
    }

    /// Brings all tasks in line with files that were deleted, at `now`; returns those that
    /// changed.
    pub fn prune_deleted_paths_at(
        &mut self,
        deleted: &Vec<String>,
        now: &str,
    ) -> (r: Vec<TaskRecord>)
        ensures
            record::records_view(r@) == old(self)@.tasks_pruned(text::texts(deleted@), now@),
            final(self)@ == old(self)@.after_deletions(text::texts(deleted@), now@),
    {
        let mut list: Vec<TaskRecord> = Vec::new();
        if deleted.len() == 0 {
            assert(record::records_view(list@) =~= Seq::<RecordView>::empty());
            return list;
        }
        let tasks = self.load_all_tasks();
        let ghost all = record::records_view(tasks@);
        let ghost change = pruning(text::texts(deleted@), now@);
        let mut i: usize = 0;
        assert(all.take(0) =~= Seq::<RecordView>::empty());
        assert(record::records_view(list@) =~= rewrite::changed(all.take(0), change));
        while i < tasks.len()
            invariant
                i <= tasks.len(),
                all == record::records_view(tasks@),
                change == pruning(text::texts(deleted@), now@),
                record::records_view(list@) == rewrite::changed(all.take(i as int), change),
            decreases tasks.len() - i,
        {
            let ghost before = list@;
            assert(all.take(i + 1).drop_last() =~= all.take(i as int));
            assert(all.take(i + 1).last() == tasks@[i as int]@);
            if let Some(after) = prune_task(&tasks[i], deleted, now) {
                list.push(after);
                assert(record::records_view(list@) =~= record::records_view(before).push(after@));
            }
            i = i + 1;
        }
        assert(all.take(i as int) =~= all);
        self.save_tasks(&list);
        list
    }

    /// Brings all tasks in line with files that were deleted; returns those that changed.
    pub fn prune_deleted_paths(&mut self, deleted: &Vec<String>) -> (r: Vec<TaskRecord>)
        ensures
            exists|now: Seq<char>|
                clock::timestamp(now) && record::records_view(r@) == old(self)@.tasks_pruned(text::texts(deleted@), now)
                    && final(self)@ == #[trigger] old(self)@.after_deletions(
                    text::texts(deleted@),
                    now,
                ),
    {
        let now = clock::now_rfc3339();
        self.prune_deleted_paths_at(deleted, now.as_str())
    }
}

// ---------------------------------------------------------------------------
// Laws of moved and deleted files
// ---------------------------------------------------------------------------

/// What was moved, or lay below what was moved, lies at the same place below the new one; and
/// nothing else moves.
pub proof fn moves_carry_what_is_below(path: Seq<char>, moved: Seq<ChangeView>)
    ensures
        match remapped(path, moved) {
            Some(to) => exists|i: int|
                0 <= i < moved.len() && paths::within(path, (#[trigger] moved[i]).from)
                    && paths::within(to, moved[i].to) && to == moved[i].to + path.skip(
                    moved[i].from.len() as int,
                ) && forall|j: int|
                    0 <= j < i ==> !paths::within(path, (#[trigger] moved[j]).from),
            None => forall|i: int|
                0 <= i < moved.len() ==> !paths::within(path, (#[trigger] moved[i]).from),
        },
    decreases moved.len(),
{
    if moved.len() > 0 {
        let first = moved[0];
        let rest = moved.skip(1);
        if path == first.from {
            assert(path.skip(first.from.len() as int) =~= Seq::<char>::empty());
            assert(first.to =~= first.to + path.skip(first.from.len() as int));
        } else if text::begins(path, first.from.push('/')) {
            let to = first.to.push('/') + path.skip(first.from.len() as int + 1);
            assert(path[first.from.len() as int] == '/') by {
                let prefix = first.from.push('/');
                assert(path.subrange(0, prefix.len() as int)[first.from.len() as int]
                    == prefix[first.from.len() as int]);
            }
            assert(to =~= first.to + path.skip(first.from.len() as int));
            assert(to.subrange(0, first.to.len() as int + 1) =~= first.to.push('/'));
        } else {
            moves_carry_what_is_below(path, rest);
            match remapped(path, rest) {
                Some(to) => {
                    let i = choose|i: int|
                        0 <= i < rest.len() && paths::within(path, (#[trigger] rest[i]).from)
                            && paths::within(to, rest[i].to) && to == rest[i].to + path.skip(
                            rest[i].from.len() as int,
                        ) && forall|j: int|
                            0 <= j < i ==> !paths::within(path, (#[trigger] rest[j]).from);
                    assert(moved[i + 1] == rest[i]);
                    assert forall|j: int| 0 <= j < i + 1 implies !paths::within(
                        path,
                        (#[trigger] moved[j]).from,
                    ) by {
                        if j > 0 {
                            assert(rest[j - 1] == moved[j]);
                        }
                    }
                },
                None => {
                    assert forall|i: int| 0 <= i < moved.len() implies !paths::within(
                        path,
                        (#[trigger] moved[i]).from,
                    ) by {
                        if i > 0 {
                            assert(rest[i - 1] == moved[i]);
                        }
                    }
                },
            }
        }
    }
}

/// Moving files changes where a task's files are, and nothing else of it: of every task the
/// directories and files are where the moves took them.
pub proof fn moves_reach_every_task(
    store: StoreView,
    moved: Seq<ChangeView>,
    now: Seq<char>,
    id: Seq<char>,
)
    requires
        store.filed(),
    ensures
        match store.task(id) {
            Ok(task) => {
                &&& store.after_moves(moved, now).task(id) is Ok
                &&& ({
                    let after = store.after_moves(moved, now).task(id)->Ok_0;
                    after == (RecordView {
                        target_subdir: moved_path(task.target_subdir, moved),
                        output_dir_relative: moved_path(task.output_dir_relative, moved),
                        output_files: moved_paths(task.output_files, moved),
                        updated_at: after.updated_at,
                        ..task
                    })
                })
            },
            Err(_) => store.after_moves(moved, now).task(id) is Err,
        },
        store.after_moves(moved, now).queue == store.queue,
{
    if moved.len() > 0 {
        assert(rewrite::keeps_ids(relocation(moved, now)));
        rewrite::a_change_reaches_every_task(store, relocation(moved, now), id);
    } else if store.task(id) is Ok {
        let task = store.task(id)->Ok_0;
        assert(moved_paths(task.output_files, moved) =~= task.output_files);
    }
}

/// Exactly the paths that are not deleted, nor below one that is, survive.
pub proof fn survivors_are_not_lost(list: Seq<Seq<char>>, deleted: Seq<Seq<char>>, path: Seq<char>)
    ensures
        surviving(list, deleted).contains(path) <==> list.contains(path) && !lost(path, deleted),
        surviving(list, deleted).len() <= list.len(),
        surviving(list, deleted).len() == list.len() ==> surviving(list, deleted) == list,
    decreases list.len(),
{
    if list.len() > 0 {
        let head = list.drop_last();
        let rest = surviving(head, deleted);
        survivors_are_not_lost(head, deleted, path);
        assert(list =~= head.push(list.last()));
        assert(list.contains(path) <==> head.contains(path) || path == list.last()) by {
            if head.contains(path) {
                let k = choose|k: int| 0 <= k < head.len() && head[k] == path;
                assert(list[k] == path);
            }
            if path == list.last() {
                assert(list[list.len() - 1] == path);
            }
        }
        if !lost(list.last(), deleted) {
            let kept = rest.push(list.last());
            assert(kept.contains(path) <==> rest.contains(path) || path == list.last()) by {
                if rest.contains(path) {
                    let k = choose|k: int| 0 <= k < rest.len() && rest[k] == path;
                    assert(kept[k] == path);
                }
                if path == list.last() {
                    assert(kept[kept.len() - 1] == path);
                }
            }
        }
    }
}

/// After a deletion no task claims a file that was deleted, nor one below it; it keeps all other
/// files, and nothing else of it changes.
pub proof fn no_task_claims_a_deleted_file(
    store: StoreView,
    deleted: Seq<Seq<char>>,
    now: Seq<char>,
    id: Seq<char>,
    path: Seq<char>,
)
    requires
        store.filed(),
    ensures
        match store.task(id) {
            Ok(task) => {
                &&& store.after_deletions(deleted, now).task(id) is Ok
                &&& ({
                    let after = store.after_deletions(deleted, now).task(id)->Ok_0;
                    &&& after.output_files.contains(path) <==> task.output_files.contains(path)
                        && !lost(path, deleted)
                    &&& after == (RecordView {
                        output_files: after.output_files,
                        updated_at: after.updated_at,
                        ..task
                    })
                })
            },
            Err(_) => store.after_deletions(deleted, now).task(id) is Err,
        },
        store.after_deletions(deleted, now).queue == store.queue,
{
    if deleted.len() > 0 {
        assert(rewrite::keeps_ids(pruning(deleted, now)));
        rewrite::a_change_reaches_every_task(store, pruning(deleted, now), id);
        if store.task(id) is Ok {
            survivors_are_not_lost(store.task(id)->Ok_0.output_files, deleted, path);
        }
    }
}

}
