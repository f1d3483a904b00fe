//! Making tasks out of what was ordered.
use vstd::hash_set::StringHashSet;
use vstd::prelude::*;

use crate::clock;
use crate::library::names::FilenameSet;
use crate::tasks::duplicates;
use crate::tasks::lifecycle;
use crate::tasks::parents;
use crate::tasks::queue;
use crate::tasks::record;
use crate::tasks::record::{
    ProgressView, RecordView, TaskIds, TaskKind, TaskRecord, TaskState, TaskView,
};
use crate::tasks::requests;
use crate::tasks::requests::{
    BatchCreateTasksResponse, CreatePlaylistTasksRequest, CreateTaskRequest, EntryView, OrderView,
    ResolvedPlaylistEntry,
};
use crate::tasks::store::{StoreError, StoreErrorView, StoreView, TaskStore, WriteView};
use crate::text;

verus! {

// ---------------------------------------------------------------------------
// One video
// ---------------------------------------------------------------------------

/// The task for one video.
pub open spec fn single_task(order: OrderView, id: Seq<char>, now: Seq<char>) -> RecordView {
    RecordView {
        id,
        task_kind: TaskKind::Single,
        source_url: order.source_url,
        parent_task_id: None,
        child_task_ids: Seq::empty(),
        extractor: order.resolved.extractor,
        video_id: order.resolved.video_id,
        title: order.resolved.title,
        playlist_title: order.resolved.playlist_title,
        playlist_index: None,
        uploader: order.resolved.uploader,
        duration_seconds: order.resolved.duration_seconds,
        thumbnail_url: order.resolved.thumbnail_url,
        estimated_size_bytes: order.resolved.estimated_size_bytes,
        target_subdir: order.target_subdir,
        output_dir_relative: order.target_subdir,
        download_mode: order.download_mode,
        quality: order.quality,
        container: order.container,
        subtitle_languages: order.subtitle_languages,
        cookie_file_name: order.cookie_file_name,
        cookie_browser: None,
        cookie_browser_profile: None,
        raw_args: order.raw_args,
        raw_format_code: order.raw_format_code,
        created_at: now,
        state: TaskState::Queued,
        updated_at: now,
        output_files: Seq::empty(),
        last_error: None,
    }
}

/// The task for one video.
pub fn make_single_task(request: &CreateTaskRequest, id: String, now: &str) -> (r: TaskRecord)
    ensures
        r@ == single_task(request@, id@, now@),
{
    let task = TaskRecord {
        id,
        task_kind: TaskKind::Single,
        source_url: request.source_url.clone(),
        parent_task_id: None,
        child_task_ids: Vec::new(),
        extractor: text::clone_opt(&request.resolved.extractor),
        video_id: text::clone_opt(&request.resolved.video_id),
        title: request.resolved.title.clone(),
        playlist_title: text::clone_opt(&request.resolved.playlist_title),
        playlist_index: None,
        uploader: text::clone_opt(&request.resolved.uploader),
        duration_seconds: request.resolved.duration_seconds,
        thumbnail_url: text::clone_opt(&request.resolved.thumbnail_url),
        estimated_size_bytes: request.resolved.estimated_size_bytes,
        target_subdir: request.target_subdir.clone(),
        output_dir_relative: request.target_subdir.clone(),
        download_mode: request.download_mode.clone(),
        quality: request.quality.clone(),
        container: request.container.clone(),
        subtitle_languages: text::clone_texts(&request.subtitle_languages),
        cookie_file_name: text::clone_opt(&request.cookie_file_name),
        cookie_browser: None,
        cookie_browser_profile: None,
        raw_args: text::clone_texts(&request.raw_args),
        raw_format_code: text::clone_opt(&request.raw_format_code),
        created_at: now.to_owned(),
        state: TaskState::Queued,
        updated_at: now.to_owned(),
        output_files: Vec::new(),
        last_error: None,
    };
    assert(task@ =~= single_task(request@, id@, now@));
    task
}

impl StoreView {
    /// Why the order for one video is refused; `None` where it is not.
    pub open spec fn refusal(
        self,
        order: OrderView,
        names: Seq<Seq<char>>,
    ) -> Option<StoreErrorView> {
        if order.resolved.is_playlist {
            Some(StoreErrorView::IsPlaylist)
        } else {
            match self.duplicate_hint(order.resolved.extractor, order.resolved.video_id, names) {
                Some(hint) => Some(StoreErrorView::AlreadyExists(hint)),
                None => None,
            }
        }
    }

    /// The store after an order for one video was looked at.
    pub open spec fn considered(self, order: OrderView) -> StoreView {
        if order.resolved.is_playlist {
            self
        } else {
            self.searched(order.resolved.extractor, order.resolved.video_id)
        }
    }

    /// The store after a task was saved and put in the queue.
    pub open spec fn enqueued(self, task: RecordView, now: Seq<char>) -> StoreView {
        self.apply(WriteView::SaveTask(task)).appended(task.id, now)
    }

    /// The store after these tasks were saved and put in the queue, one after the other.
    pub open spec fn enqueued_all(self, tasks: Seq<RecordView>, now: Seq<char>) -> StoreView
        decreases tasks.len(),
    {
        if tasks.len() == 0 {
            self
        } else {
            self.enqueued_all(tasks.drop_last(), now).enqueued(tasks.last(), now)
        }
    }
}

impl TaskStore {
    fn enqueue(&mut self, task: &TaskRecord, now: &str)
        ensures
            final(self)@ == old(self)@.enqueued(task@, now@),
    {
        self.save_task(task);
        self.append_to_queue_at(task.id.as_str(), now);
    }

    /// Makes the task for one video, at `now`, and puts it in the queue. The first number of
    /// `ids` and the time `millis` name it.
    pub fn create_task_at(
        &mut self,
        ids: &mut TaskIds,
        request: &CreateTaskRequest,
        library_filenames: &FilenameSet,
        millis: i64,
        now: &str,
    ) -> (r: Result<TaskRecord, StoreError>)
        ensures
            match old(self)@.refusal(request@, library_filenames@) {
                Some(error) => r is Err && r->Err_0@ == error && final(self)@ == old(
                    self,
                )@.considered(request@) && final(ids)@ == old(ids)@,
                None => r is Ok && r->Ok_0@ == single_task(
                    request@,
                    record::task_name(millis as int, old(ids)@ as nat),
                    now@,
                ) && final(self)@ == old(self)@.considered(request@).enqueued(r->Ok_0@, now@)
                    && final(ids)@ == record::number_after(old(ids)@),
            },
    {
        if request.resolved.is_playlist {
            return Err(StoreError::IsPlaylist);
        }
        match self.ensure_not_duplicate(
            text::borrow_opt(&request.resolved.extractor),
            text::borrow_opt(&request.resolved.video_id),
            library_filenames,
        ) {
            Ok(()) => {},
            Err(error) => {
                return Err(error);
            },
        }
        let id = ids.task_id_at(millis);
        let task = make_single_task(request, id, now);
        self.enqueue(&task, now);
        Ok(task)
    }

    /// Makes the task for one video and puts it in the queue.
    pub fn create_task_from_request(
        &mut self,
        ids: &mut TaskIds,
        request: &CreateTaskRequest,
        library_filenames: &FilenameSet,
    ) -> (r: Result<TaskRecord, StoreError>)
        ensures
            match old(self)@.refusal(request@, library_filenames@) {
                Some(error) => r is Err && r->Err_0@ == error && final(self)@ == old(
                    self,
                )@.considered(request@) && final(ids)@ == old(ids)@,
                None => r is Ok && (exists|millis: int, now: Seq<char>|
                    clock::timestamp(now) && r->Ok_0@ == #[trigger] single_task(
                        request@,
                        record::task_name(millis, old(ids)@ as nat),
                        now,
                    )) && final(self)@ == old(self)@.considered(request@).enqueued(
                    r->Ok_0@,
                    r->Ok_0@.created_at,
                ) && final(ids)@ == record::number_after(old(ids)@),
            },
    {
        let millis = clock::now_millis();
        let now = clock::now_rfc3339();
        let r = self.create_task_at(ids, request, library_filenames, millis, now.as_str());
        proof {
            if old(self)@.refusal(request@, library_filenames@) is None {
                let name = record::task_name(millis as int, old(ids)@ as nat);
                assert(r->Ok_0@ == single_task(request@, name, now@));
            }
        }
        r
    }
}

// ---------------------------------------------------------------------------
// A playlist
// ---------------------------------------------------------------------------

/// What items of a playlist are told apart by, where both extractor and id are known.
pub open spec fn entry_key(entry: EntryView) -> Option<Seq<char>> {
    match (entry.extractor, entry.video_id) {
        (Some(e), Some(v)) => Some(e.push(':') + v),
        _ => None,
    }
}

/// The item is there already.
pub open spec fn entry_exists(
    entry: EntryView,
    tasks: Seq<RecordView>,
    names: Seq<Seq<char>>,
) -> bool {
    duplicates::all_matches(tasks, entry.extractor, entry.video_id, names).len() > 0
}

/// How far the selection of the items has come.
#[verifier::ext_equal]
pub struct Selection {
    pub seen: Set<Seq<char>>,
    pub kept: Seq<EntryView>,
}

/// The selection of those items that are new: each only once, and none that is there already.
pub open spec fn selection(
    entries: Seq<EntryView>,
    tasks: Seq<RecordView>,
    names: Seq<Seq<char>>,
) -> Selection
    decreases entries.len(),
{
    if entries.len() == 0 {
        Selection { seen: Set::empty(), kept: Seq::empty() }
    } else {
        let before = selection(entries.drop_last(), tasks, names);
        let entry = entries.last();
        let kept = if entry_exists(entry, tasks, names) {
            before.kept
        } else {
            before.kept.push(entry)
        };
        match entry_key(entry) {
            Some(key) => if before.seen.contains(key) {
                before
            } else {
                Selection { seen: before.seen.insert(key), kept }
            },
            None => Selection { seen: before.seen, kept },
        }
    }
}

/// The items that are new.
pub open spec fn new_entries(
    entries: Seq<EntryView>,
    tasks: Seq<RecordView>,
    names: Seq<Seq<char>>,
) -> Seq<EntryView> {
    selection(entries, tasks, names).kept
}

fn key_of(entry: &ResolvedPlaylistEntry) -> (r: Option<String>)
    ensures
        text::text_opt(r) == entry_key(entry@),
{
    match (&entry.extractor, &entry.video_id) {
        (Some(e), Some(v)) => {
            let mut key = e.clone();
            key.push(':');
            key.append(v.as_str());
            Some(key)
        },
        _ => None,
    }
}

fn does_exist(entry: &ResolvedPlaylistEntry, tasks: &Vec<TaskRecord>, names: &FilenameSet) -> (r:
    bool)
    ensures
        r == entry_exists(entry@, record::records_view(tasks@), names@),
{
    match (&entry.extractor, &entry.video_id) {
        (Some(e), Some(v)) => {
            let matches = duplicates::find_matches(tasks, e.as_str(), v.as_str(), names.names());
            assert(matches@.len() == requests::matches_view(matches@).len());
            matches.len() > 0
        },
        _ => false,
    }
}

/// The items that are new.
pub fn select_entries(
    entries: &Vec<ResolvedPlaylistEntry>,
    tasks: &Vec<TaskRecord>,
    names: &FilenameSet,
) -> (r: Vec<ResolvedPlaylistEntry>)
    ensures
        requests::entries_view(r@) == new_entries(
            requests::entries_view(entries@),
            record::records_view(tasks@),
            names@,
        ),
        r.len() <= entries.len(),
{
    let ghost all = requests::entries_view(entries@);
    let ghost there = record::records_view(tasks@);
    let mut seen = StringHashSet::new();
    let mut kept: Vec<ResolvedPlaylistEntry> = Vec::new();
    let mut i: usize = 0;
    assert(all.take(0) =~= Seq::<EntryView>::empty());
    assert((Selection { seen: seen@, kept: requests::entries_view(kept@) }) =~= selection(
        all.take(0),
        there,
        names@,
    ));
    while i < entries.len()
        invariant
            i <= entries.len(),
            kept.len() <= i,
            all == requests::entries_view(entries@),
            there == record::records_view(tasks@),
            (Selection { seen: seen@, kept: requests::entries_view(kept@) }) == selection(
                all.take(i as int),
                there,
                names@,
            ),
        decreases entries.len() - i,
    {
        let ghost before = kept@;
        assert(all.take(i + 1).drop_last() =~= all.take(i as int));
        assert(all.take(i + 1).last() == entries@[i as int]@);
        let fresh = match key_of(&entries[i]) {
            Some(key) => {
                let ghost old_seen = seen@;
                let inserted = seen.insert(key);
                if !inserted {
                    assert(seen@ =~= old_seen);
                }
                inserted
            },
            None => true,
        };
        if fresh && !does_exist(&entries[i], tasks, names) {
            kept.push(entries[i].clone());
            assert(requests::entries_view(kept@) =~= requests::entries_view(before).push(
                entries@[i as int]@,
            ));
        }
        i = i + 1;
    }
    assert(all.take(i as int) =~= all);
    kept
}

/// The task for one item of a playlist.
pub open spec fn item_task(
    entry: EntryView,
    order: OrderView,
    parent_id: Seq<char>,
    id: Seq<char>,
    now: Seq<char>,
) -> RecordView {
    RecordView {
        id,
        task_kind: TaskKind::PlaylistItem,
        source_url: entry.source_url,
        parent_task_id: Some(parent_id),
        child_task_ids: Seq::empty(),
        extractor: entry.extractor,
        video_id: entry.video_id,
        title: entry.title,
        playlist_title: order.resolved.playlist_title,
        playlist_index: entry.playlist_index,
        uploader: entry.uploader,
        duration_seconds: entry.duration_seconds,
        thumbnail_url: entry.thumbnail_url,
        estimated_size_bytes: entry.estimated_size_bytes,
        target_subdir: order.target_subdir,
        output_dir_relative: order.target_subdir,
        download_mode: order.download_mode,
        quality: order.quality,
        container: order.container,
        subtitle_languages: order.subtitle_languages,
        cookie_file_name: order.cookie_file_name,
        cookie_browser: None,
        cookie_browser_profile: None,
        raw_args: order.raw_args,
        raw_format_code: order.raw_format_code,
        created_at: now,
        state: TaskState::Queued,
        updated_at: now,
        output_files: Seq::empty(),
        last_error: None,
    }
}

fn make_item_task(
    entry: &ResolvedPlaylistEntry,
    request: &CreatePlaylistTasksRequest,
    parent_id: &str,
    id: String,
    now: &str,
) -> (r: TaskRecord)
    ensures
        r@ == item_task(entry@, request@, parent_id@, id@, now@),
{
    let task = TaskRecord {
        id,
        task_kind: TaskKind::PlaylistItem,
        source_url: entry.source_url.clone(),
        parent_task_id: Some(parent_id.to_owned()),
        child_task_ids: Vec::new(),
        extractor: text::clone_opt(&entry.extractor),
        video_id: text::clone_opt(&entry.video_id),
        title: entry.title.clone(),
        playlist_title: text::clone_opt(&request.resolved.playlist_title),
        playlist_index: entry.playlist_index,
        uploader: text::clone_opt(&entry.uploader),
        duration_seconds: entry.duration_seconds,
        thumbnail_url: text::clone_opt(&entry.thumbnail_url),
        estimated_size_bytes: entry.estimated_size_bytes,
        target_subdir: request.target_subdir.clone(),
        output_dir_relative: request.target_subdir.clone(),
        download_mode: request.download_mode.clone(),
        quality: request.quality.clone(),
        container: request.container.clone(),
        subtitle_languages: text::clone_texts(&request.subtitle_languages),
        cookie_file_name: text::clone_opt(&request.cookie_file_name),
        cookie_browser: None,
        cookie_browser_profile: None,
        raw_args: text::clone_texts(&request.raw_args),
        raw_format_code: text::clone_opt(&request.raw_format_code),
        created_at: now.to_owned(),
        state: TaskState::Queued,
        updated_at: now.to_owned(),
        output_files: Vec::new(),
        last_error: None,
    };
    assert(task@ =~= item_task(entry@, request@, parent_id@, id@, now@));
    task
}

/// The tasks for these items of a playlist, named by `millis` and the numbers from `first` on.
pub open spec fn item_tasks(
    entries: Seq<EntryView>,
    order: OrderView,
    parent_id: Seq<char>,
    millis: int,
    first: u64,
    now: Seq<char>,
) -> Seq<RecordView> {
    Seq::new(
        entries.len(),
        |i: int|
            item_task(
                entries[i],
                order,
                parent_id,
                record::task_name(millis, record::number_plus(first, i as nat) as nat),
                now,
            ),
    )
}

/// The ids of tasks.
pub open spec fn ids_of(tasks: Seq<RecordView>) -> Seq<Seq<char>> {
    Seq::new(tasks.len(), |i: int| tasks[i].id)
}

/// The task that stands for a playlist as a whole.
pub open spec fn playlist_task(
    order: OrderView,
    id: Seq<char>,
    items: Seq<RecordView>,
    now: Seq<char>,
) -> RecordView {
    RecordView {
        id,
        task_kind: TaskKind::PlaylistParent,
        source_url: order.source_url,
        parent_task_id: None,
        child_task_ids: ids_of(items),
        extractor: order.resolved.extractor,
        video_id: order.resolved.video_id,
        title: match order.resolved.playlist_title {
            Some(title) => title,
            None => order.resolved.title,
        },
        playlist_title: order.resolved.playlist_title,
        playlist_index: None,
        uploader: order.resolved.uploader,
        duration_seconds: None,
        thumbnail_url: order.resolved.thumbnail_url,
        estimated_size_bytes: parents::size_of(parents::total_size(parents::sizes_in(items))),
        target_subdir: order.target_subdir,
        output_dir_relative: order.target_subdir,
        download_mode: order.download_mode,
        quality: order.quality,
        container: order.container,
        subtitle_languages: order.subtitle_languages,
        cookie_file_name: order.cookie_file_name,
        cookie_browser: None,
        cookie_browser_profile: None,
        raw_args: order.raw_args,
        raw_format_code: order.raw_format_code,
        created_at: now,
        state: TaskState::Queued,
        updated_at: now,
        output_files: Seq::empty(),
        last_error: None,
    }
}

fn collect_ids(tasks: &Vec<TaskRecord>) -> (r: Vec<String>)
    ensures
        text::texts(r@) == ids_of(record::records_view(tasks@)),
{
    let mut ids: Vec<String> = Vec::new();
    let mut i: usize = 0;
    while i < tasks.len()
        invariant
            i <= tasks.len(),
            ids.len() == i,
            forall|j: int| 0 <= j < i ==> (#[trigger] ids@[j])@ == tasks@[j].id@,
        decreases tasks.len() - i,
    {
        ids.push(tasks[i].id.clone());
        i = i + 1;
    }
    assert(text::texts(ids@) =~= ids_of(record::records_view(tasks@)));
    ids
}

fn make_playlist_task(
    request: &CreatePlaylistTasksRequest,
    id: String,
    items: &Vec<TaskRecord>,
    now: &str,
) -> (r: TaskRecord)
    requires
        parents::sizes_fit(parents::sizes_in(record::records_view(items@))),
    ensures
        r@ == playlist_task(request@, id@, record::records_view(items@), now@),
{
    let sizes = parents::list_sizes(items);
    let title = match &request.resolved.playlist_title {
        Some(title) => title.clone(),
        None => request.resolved.title.clone(),
    };
    let task = TaskRecord {
        id,
        task_kind: TaskKind::PlaylistParent,
        source_url: request.source_url.clone(),
        parent_task_id: None,
        child_task_ids: collect_ids(items),
        extractor: text::clone_opt(&request.resolved.extractor),
        video_id: text::clone_opt(&request.resolved.video_id),
        title,
        playlist_title: text::clone_opt(&request.resolved.playlist_title),
        playlist_index: None,
        uploader: text::clone_opt(&request.resolved.uploader),
        duration_seconds: None,
        thumbnail_url: text::clone_opt(&request.resolved.thumbnail_url),
        estimated_size_bytes: parents::sum_sizes(&sizes),
        target_subdir: request.target_subdir.clone(),
        output_dir_relative: request.target_subdir.clone(),
        download_mode: request.download_mode.clone(),
        quality: request.quality.clone(),
        container: request.container.clone(),
        subtitle_languages: text::clone_texts(&request.subtitle_languages),
        cookie_file_name: text::clone_opt(&request.cookie_file_name),
        cookie_browser: None,
        cookie_browser_profile: None,
        raw_args: text::clone_texts(&request.raw_args),
        raw_format_code: text::clone_opt(&request.raw_format_code),
        created_at: now.to_owned(),
        state: TaskState::Queued,
        updated_at: now.to_owned(),
        output_files: Vec::new(),
        last_error: None,
    };
    assert(task@ =~= playlist_task(request@, id@, record::records_view(items@), now@));
    task
}

/// One of the items has a key.
pub open spec fn some_key(entries: Seq<EntryView>) -> bool {
    exists|i: int| 0 <= i < entries.len() && entry_key(#[trigger] entries[i]) is Some
}

/// The estimated sizes of items.
pub open spec fn entry_sizes(entries: Seq<EntryView>) -> Seq<Option<u64>> {
    Seq::new(entries.len(), |i: int| entries[i].estimated_size_bytes)
}

impl StoreView {
    /// The items of the playlist that are new.
    pub open spec fn batch_entries(
        self,
        order: OrderView,
        names: Seq<Seq<char>>,
    ) -> Seq<EntryView> {
        new_entries(order.resolved.entries, self.tasks(), names)
    }

    /// Why the order for a playlist is refused; `None` where it is not.
    pub open spec fn batch_refusal(
        self,
        order: OrderView,
        names: Seq<Seq<char>>,
    ) -> Option<StoreErrorView> {
        if !order.resolved.is_playlist {
            Some(StoreErrorView::NotPlaylist)
        } else if order.resolved.entries.len() == 0 {
            Some(StoreErrorView::NoEntries)
        } else if self.batch_entries(order, names).len() == 0 {
            Some(StoreErrorView::NothingNew)
        } else {
            None
        }
    }

    /// The store after the items of a playlist were looked for.
    pub open spec fn batch_searched(self, order: OrderView) -> StoreView {
        if order.resolved.is_playlist && some_key(order.resolved.entries) {
            self.swept()
        } else {
            self
        }
    }

    /// The tasks for the items of a playlist.
    pub open spec fn batch_items(
        self,
        order: OrderView,
        names: Seq<Seq<char>>,
        millis: int,
        first: u64,
        now: Seq<char>,
    ) -> Seq<RecordView> {
        item_tasks(
            self.batch_entries(order, names),
            order,
            record::task_name(millis, first as nat),
            millis,
            record::number_after(first),
            now,
        )
    }

    /// The task that stands for the playlist.
    pub open spec fn batch_parent(
        self,
        order: OrderView,
        names: Seq<Seq<char>>,
        millis: int,
        first: u64,
        now: Seq<char>,
    ) -> RecordView {
        playlist_task(
            order,
            record::task_name(millis, first as nat),
            self.batch_items(order, names, millis, first, now),
            now,
        )
    }

    /// The store after the tasks for a playlist were made.
    pub open spec fn batch_created(
        self,
        order: OrderView,
        names: Seq<Seq<char>>,
        millis: int,
        first: u64,
        now: Seq<char>,
    ) -> StoreView {
        self.batch_searched(order).apply(
            WriteView::SaveTask(self.batch_parent(order, names, millis, first, now)),
        ).enqueued_all(self.batch_items(order, names, millis, first, now), now)
    }

    /// The sizes of the new items of a playlist can be summed up.
    pub open spec fn batch_fits(self, order: OrderView, names: Seq<Seq<char>>) -> bool {
        parents::sizes_fit(entry_sizes(self.batch_entries(order, names)))
    }
}

/// What each view shows of its record.
pub open spec fn shown_records(views: Seq<TaskView>) -> Seq<RecordView> {
    Seq::new(views.len(), |i: int| views[i].record())
}

/// No download is running.
pub open spec fn idle(view: TaskView) -> bool {
    view.progress@ == ProgressView::none() && view.recent_logs@.len() == 0
}

/// The answer to an order for a playlist: the task for the playlist, then those for its items.
pub open spec fn batch_answer(
    answer: BatchCreateTasksResponse,
    parent: RecordView,
    items: Seq<RecordView>,
) -> bool {
    &&& shown_records(answer.tasks@) == seq![parent] + items
    &&& forall|i: int| 0 <= i < answer.tasks@.len() ==> idle(#[trigger] answer.tasks@[i])
    &&& text::text_opt(answer.parent_task_id) == Some(parent.id)
    &&& answer.created_count == items.len() + 1
}

fn has_key(entries: &Vec<ResolvedPlaylistEntry>) -> (r: bool)
    ensures
        r == some_key(requests::entries_view(entries@)),
{
    let ghost all = requests::entries_view(entries@);
    let mut i: usize = 0;
    while i < entries.len()
        invariant
            i <= entries.len(),
            all == requests::entries_view(entries@),
            forall|j: int| 0 <= j < i ==> entry_key(#[trigger] all[j]) is None,
        decreases entries.len() - i,
    {
        assert(all[i as int] == entries@[i as int]@);
        if entries[i].extractor.is_some() && entries[i].video_id.is_some() {
            assert(entry_key(all[i as int]) is Some);
            return true;
        }
        i = i + 1;
    }
    false
}

fn make_item_tasks(
    entries: &Vec<ResolvedPlaylistEntry>,
    request: &CreatePlaylistTasksRequest,
    parent_id: &str,
    ids: &mut TaskIds,
    millis: i64,
    now: &str,
) -> (r: Vec<TaskRecord>)
    requires
        entries.len() < usize::MAX,
    ensures
        record::records_view(r@) == item_tasks(
            requests::entries_view(entries@),
            request@,
            parent_id@,
            millis as int,
            old(ids)@,
            now@,
        ),
        final(ids)@ == record::number_plus(old(ids)@, entries@.len()),
        r.len() == entries.len(),
{
    let ghost first = ids@;
    let mut items: Vec<TaskRecord> = Vec::new();
    let mut i: usize = 0;
    while i < entries.len()
        invariant
            i <= entries.len() < usize::MAX,
            items.len() == i,
            ids@ == record::number_plus(first, i as nat),
            forall|j: int|
                0 <= j < i ==> (#[trigger] items@[j])@ == item_task(
                    entries@[j]@,
                    request@,
                    parent_id@,
                    record::task_name(
                        millis as int,
                        record::number_plus(first, j as nat) as nat,
                    ),
                    now@,
                ),
        decreases entries.len() - i,
    {
        let id = ids.task_id_at(millis);
        items.push(make_item_task(&entries[i], request, parent_id, id, now));
        i = i + 1;
    }
    assert(record::records_view(items@) =~= item_tasks(
        requests::entries_view(entries@),
        request@,
        parent_id@,
        millis as int,
        first,
        now@,
    ));
    items
}

fn answer_batch(parent: &TaskRecord, items: &Vec<TaskRecord>) -> (r: BatchCreateTasksResponse)
    requires
        items.len() < usize::MAX,
        parent@.cookie_browser is None && parent@.cookie_browser_profile is None,
        forall|i: int|
            0 <= i < items.len() ==> (#[trigger] items@[i])@.cookie_browser is None
                && items@[i]@.cookie_browser_profile is None,
    ensures
        batch_answer(r, parent@, record::records_view(items@)),
{
    let ghost all = record::records_view(items@);
    let created_count: usize = items.len() + 1;
    let mut views: Vec<TaskView> = Vec::new();
    let first = TaskView::from_record(parent, None);
    assert(text::texts(first.recent_logs@).len() == first.recent_logs@.len());
    views.push(first);
    assert(first.record() =~= parent@);
    assert(shown_records(views@) =~= seq![parent@] + all.take(0));
    let mut i: usize = 0;
    while i < items.len()
        invariant
            i <= items.len(),
            all == record::records_view(items@),
            forall|j: int|
                0 <= j < items.len() ==> (#[trigger] items@[j])@.cookie_browser is None
                    && items@[j]@.cookie_browser_profile is None,
            shown_records(views@) == seq![parent@] + all.take(i as int),
            forall|j: int| 0 <= j < views@.len() ==> idle(#[trigger] views@[j]),
        decreases items.len() - i,
    {
        let ghost before = views@;
        let view = TaskView::from_record(&items[i], None);
        assert(text::texts(view.recent_logs@).len() == view.recent_logs@.len());
        assert(view.record() =~= all[i as int]);
        views.push(view);
        i = i + 1;
        assert(shown_records(views@) =~= shown_records(before).push(view.record()));
        assert(shown_records(views@) =~= seq![parent@] + all.take(i as int));
    }
    assert(all.take(i as int) =~= all);
    BatchCreateTasksResponse {
        tasks: views,
        parent_task_id: Some(parent.id.clone()),
        created_count,
    }
}

impl TaskStore {
    /// Whether the order for a playlist is refused, or the sizes of its new items can be summed up.
    pub fn batch_fits(
        &self,
        request: &CreatePlaylistTasksRequest,
        library_filenames: &FilenameSet,
    ) -> (r: bool)
        ensures
            r == (self@.batch_refusal(request@, library_filenames@) is None
                ==> self@.batch_fits(request@, library_filenames@)),
    {
        if !request.resolved.is_playlist {
            return true;
        }
        let tasks = self.tasks();
        let entries = select_entries(&request.resolved.entries, &tasks, library_filenames);
        let mut sizes: Vec<Option<u64>> = Vec::new();
        let mut i: usize = 0;
        while i < entries.len()
            invariant
                i <= entries.len(),
                sizes.len() == i,
                forall|j: int|
                    0 <= j < i ==> #[trigger] sizes@[j] == entries@[j].estimated_size_bytes,
            decreases entries.len() - i,
        {
            sizes.push(entries[i].estimated_size_bytes);
            i = i + 1;
        }
        assert(sizes@ =~= entry_sizes(requests::entries_view(entries@)));
        parents::do_sizes_fit(&sizes)
    }

    fn enqueue_all(&mut self, tasks: &Vec<TaskRecord>, now: &str)
        ensures
            final(self)@ == old(self)@.enqueued_all(record::records_view(tasks@), now@),
    {
        let ghost all = record::records_view(tasks@);
        let ghost start = self@;
        let mut i: usize = 0;
        assert(all.take(0) =~= Seq::<RecordView>::empty());
        while i < tasks.len()
            invariant
                i <= tasks.len(),
                all == record::records_view(tasks@),
                self@ == start.enqueued_all(all.take(i as int), now@),
            decreases tasks.len() - i,
        {
            self.enqueue(&tasks[i], now);
            i = i + 1;
            assert(all.take(i as int).drop_last() =~= all.take(i - 1));
            assert(all.take(i as int).last() == tasks@[i - 1]@);
        }
        assert(all.take(i as int) =~= all);
    }

    /// Makes the tasks for those items of a playlist that are new, and one for the playlist, at
    /// `now`, and puts the items in the queue. The numbers of `ids` and the time `millis` name
    /// them.
    pub fn create_playlist_tasks_at(
        &mut self,
        ids: &mut TaskIds,
        request: &CreatePlaylistTasksRequest,
        library_filenames: &FilenameSet,
        millis: i64,
        now: &str,
    ) -> (r: Result<BatchCreateTasksResponse, StoreError>)
        requires
            request.resolved.entries.len() < usize::MAX,
            old(self)@.batch_refusal(request@, library_filenames@) is None
                ==> old(self)@.batch_fits(request@, library_filenames@),
        ensures
            match old(self)@.batch_refusal(request@, library_filenames@) {
                Some(error) => r is Err && r->Err_0@ == error && final(self)@ == old(
                    self,
                )@.batch_searched(request@) && final(ids)@ == (if error
                    == StoreErrorView::NothingNew {
                    record::number_after(old(ids)@)
                } else {
                    old(ids)@
                }),
                None => r is Ok && batch_answer(
                    r->Ok_0,
                    old(self)@.batch_parent(
                        request@,
                        library_filenames@,
                        millis as int,
                        old(ids)@,
                        now@,
                    ),
                    old(self)@.batch_items(
                        request@,
                        library_filenames@,
                        millis as int,
                        old(ids)@,
                        now@,
                    ),
                ) && final(self)@ == old(self)@.batch_created(
                    request@,
                    library_filenames@,
                    millis as int,
                    old(ids)@,
                    now@,
                ) && final(ids)@ == record::number_plus(
                    record::number_after(old(ids)@),
                    old(self)@.batch_entries(request@, library_filenames@).len(),
                ),
            },
    {
        let ghost start = self@;
        let ghost first = ids@;
        if !request.resolved.is_playlist {
            return Err(StoreError::NotPlaylist);
        }
        if request.resolved.entries.len() == 0 {
            assert(!some_key(request@.resolved.entries));
            return Err(StoreError::NoEntries);
        }
        assert(request@.resolved.entries.len() > 0);
        let parent_id = ids.task_id_at(millis);
        let tasks = if has_key(&request.resolved.entries) {
            self.load_all_tasks()
        } else {
            self.tasks()
        };
        let entries = select_entries(&request.resolved.entries, &tasks, library_filenames);
        let ghost kept = requests::entries_view(entries@);
        if entries.len() == 0 {
            assert(kept.len() == 0);
            return Err(StoreError::NothingNew);
        }
        assert(kept.len() == entries.len());
        let items = make_item_tasks(&entries, request, parent_id.as_str(), ids, millis, now);
        let ghost all = record::records_view(items@);
        assert(all == start.batch_items(
            request@,
            library_filenames@,
            millis as int,
            first,
            now@,
        ));
        assert(parents::sizes_in(all) =~= entry_sizes(kept));
        let parent = make_playlist_task(request, parent_id, &items, now);
        self.save_task(&parent);
        self.enqueue_all(&items, now);
        assert forall|i: int| 0 <= i < items.len() implies (
        #[trigger] items@[i])@.cookie_browser is None
            && items@[i]@.cookie_browser_profile is None by {
            assert(all[i] == items@[i]@);
        }
        Ok(answer_batch(&parent, &items))
    }

    /// Makes the tasks for those items of a playlist that are new, and one for the playlist, and
    /// puts the items in the queue.
    pub fn create_playlist_tasks_from_request(
        &mut self,
        ids: &mut TaskIds,
        request: &CreatePlaylistTasksRequest,
        library_filenames: &FilenameSet,
    ) -> (r: Result<BatchCreateTasksResponse, StoreError>)
        requires
            request.resolved.entries.len() < usize::MAX,
            old(self)@.batch_refusal(request@, library_filenames@) is None
                ==> old(self)@.batch_fits(request@, library_filenames@),
        ensures
            match old(self)@.batch_refusal(request@, library_filenames@) {
                Some(error) => r is Err && r->Err_0@ == error && final(self)@ == old(
                    self,
                )@.batch_searched(request@) && final(ids)@ == (if error
                    == StoreErrorView::NothingNew {
                    record::number_after(old(ids)@)
                } else {
                    old(ids)@
                }),
                None => r is Ok && (exists|millis: int, now: Seq<char>|
                    clock::timestamp(now) && final(self)@ == #[trigger] old(self)@.batch_created(
                        request@,
                        library_filenames@,
                        millis,
                        old(ids)@,
                        now,
                    ) && batch_answer(
                        r->Ok_0,
                        old(self)@.batch_parent(
                            request@,
                            library_filenames@,
                            millis,
                            old(ids)@,
                            now,
                        ),
                        old(self)@.batch_items(
                            request@,
                            library_filenames@,
                            millis,
                            old(ids)@,
                            now,
                        ),
                    )) && final(ids)@ == record::number_plus(
                    record::number_after(old(ids)@),
                    old(self)@.batch_entries(request@, library_filenames@).len(),
                ),
            },
    {
        let millis = clock::now_millis();
        let now = clock::now_rfc3339();
        let r = self.create_playlist_tasks_at(
            ids,
            request,
            library_filenames,
            millis,
            now.as_str(),
        );
        proof {
            if old(self)@.batch_refusal(request@, library_filenames@) is None {
                assert(self@ == old(self)@.batch_created(
                    request@,
                    library_filenames@,
                    millis as int,
                    old(ids)@,
                    now@,
                ));
            }
        }
        r
    }
}

// ---------------------------------------------------------------------------
// Laws of orders
// ---------------------------------------------------------------------------

/// A task that was made is then loaded under its id, and stands in the queue; nothing that stood
/// there loses its place, and every other task is as it was.
pub proof fn an_enqueued_task_is_there(
    store: StoreView,
    task: RecordView,
    now: Seq<char>,
    id: Seq<char>,
)
    ensures
        store.enqueued(task, now).task(task.id) == Ok::<RecordView, StoreErrorView>(task),
        store.enqueued(task, now).order().contains(task.id),
        store.order().is_prefix_of(store.enqueued(task, now).order()),
        id != task.id ==> store.enqueued(task, now).task(id) == store.task(id),
{
    let saved = store.apply(WriteView::SaveTask(task));
    queue::a_saved_task_is_loaded_again(store, task, id);
    queue::appending_keeps_places(saved, task.id, now);
}

proof fn lemma_prefix_contains(a: Seq<Seq<char>>, b: Seq<Seq<char>>, id: Seq<char>)
    requires
        a.is_prefix_of(b),
        a.contains(id),
    ensures
        b.contains(id),
{
    let k = choose|k: int| 0 <= k < a.len() && a[k] == id;
    assert(b[k] == id);
}

proof fn lemma_enqueued_all(
    store: StoreView,
    tasks: Seq<RecordView>,
    now: Seq<char>,
    id: Seq<char>,
)
    requires
        forall|a: int, b: int|
            0 <= a < b < tasks.len() ==> (#[trigger] tasks[a]).id != (#[trigger] tasks[b]).id,
    ensures
        forall|i: int|
            0 <= i < tasks.len() && (#[trigger] tasks[i]).id == id ==> store.enqueued_all(
                tasks,
                now,
            ).task(id) == Ok::<RecordView, StoreErrorView>(tasks[i]) && store.enqueued_all(
                tasks,
                now,
            ).order().contains(id),
        (forall|i: int| 0 <= i < tasks.len() ==> (#[trigger] tasks[i]).id != id)
            ==> store.enqueued_all(tasks, now).task(id) == store.task(id),
        store.order().is_prefix_of(store.enqueued_all(tasks, now).order()),
    decreases tasks.len(),
{
    if tasks.len() > 0 {
        let head = tasks.drop_last();
        let before = store.enqueued_all(head, now);
        let after = store.enqueued_all(tasks, now);
        assert forall|a: int, b: int| 0 <= a < b < head.len() implies (#[trigger] head[a]).id != (
        #[trigger] head[b]).id by {
            assert(tasks[a] == head[a] && tasks[b] == head[b]);
        }
        lemma_enqueued_all(store, head, now, id);
        an_enqueued_task_is_there(before, tasks.last(), now, id);
        assert(tasks[tasks.len() - 1] == tasks.last());
        assert forall|i: int| 0 <= i < tasks.len() && (#[trigger] tasks[i]).id == id implies
            after.task(id) == Ok::<RecordView, StoreErrorView>(tasks[i]) && after.order().contains(
            id,
        ) by {
            if i < head.len() {
                assert(head[i] == tasks[i]);
                assert(tasks[i].id != tasks[tasks.len() - 1].id);
                lemma_prefix_contains(before.order(), after.order(), id);
            }
        }
        if forall|i: int| 0 <= i < tasks.len() ==> (#[trigger] tasks[i]).id != id {
            assert forall|i: int| 0 <= i < head.len() implies (#[trigger] head[i]).id != id by {
                assert(tasks[i].id != id);
            }
            assert(tasks[tasks.len() - 1].id != id);
        }
    }
}

/// The tasks of a playlist hang together. The playlist and its items have different ids; the
/// playlist names exactly its items, and they name it; all of them can be loaded; the items stand
/// in the queue and can be downloaded, which the playlist itself cannot.
pub proof fn a_batch_hangs_together(
    store: StoreView,
    order: OrderView,
    names: Seq<Seq<char>>,
    millis: int,
    first: u64,
    now: Seq<char>,
    i: int,
)
    requires
        store.batch_entries(order, names).len() < u64::MAX,
        0 <= i < store.batch_entries(order, names).len(),
    ensures
        ({
            let parent = store.batch_parent(order, names, millis, first, now);
            let items = store.batch_items(order, names, millis, first, now);
            let after = store.batch_created(order, names, millis, first, now);
            &&& items.len() == store.batch_entries(order, names).len()
            &&& items[i].id != parent.id
            &&& forall|j: int| 0 <= j < items.len() && j != i ==> (#[trigger] items[j]).id
                != items[i].id
            &&& parent.child_task_ids.len() == items.len()
            &&& parent.child_task_ids[i] == items[i].id
            &&& items[i].parent_task_id == Some(parent.id)
            &&& after.task(items[i].id) == Ok::<RecordView, StoreErrorView>(items[i])
            &&& after.task(parent.id) == Ok::<RecordView, StoreErrorView>(parent)
            &&& after.order().contains(items[i].id)
            &&& lifecycle::may_start(items[i])
            &&& !lifecycle::may_start(parent)
        }),
{
    let parent = store.batch_parent(order, names, millis, first, now);
    let items = store.batch_items(order, names, millis, first, now);
    let searched = store.batch_searched(order);
    let saved = searched.apply(WriteView::SaveTask(parent));
    let n = items.len();
    let second = record::number_after(first);
    assert forall|a: int, b: int| 0 <= a < b < n implies (#[trigger] items[a]).id != (
    #[trigger] items[b]).id by {
        record::task_names_differ(
            millis,
            record::number_plus(second, a as nat) as nat,
            millis,
            record::number_plus(second, b as nat) as nat,
        );
    }
    assert forall|a: int| 0 <= a < n implies (#[trigger] items[a]).id != parent.id by {
        record::task_names_differ(
            millis,
            record::number_plus(second, a as nat) as nat,
            millis,
            first as nat,
        );
    }
    assert forall|j: int| 0 <= j < items.len() && j != i implies (#[trigger] items[j]).id
        != items[i].id by {
        if j < i {
            assert(items[j].id != items[i].id);
        } else {
            assert(items[i].id != items[j].id);
        }
    }
    queue::a_saved_task_is_loaded_again(searched, parent, parent.id);
    lemma_enqueued_all(saved, items, now, items[i].id);
    lemma_enqueued_all(saved, items, now, parent.id);
}

/// Of the items of a playlist, those that are kept are new: none is there already, no two of
/// them have the same key, and every item that is left out is there already or has the key of
/// another one before it.
pub proof fn only_new_items_are_kept(
    entries: Seq<EntryView>,
    tasks: Seq<RecordView>,
    names: Seq<Seq<char>>,
)
    ensures
        ({
            let kept = new_entries(entries, tasks, names);
            &&& forall|i: int|
                0 <= i < kept.len() ==> !entry_exists(#[trigger] kept[i], tasks, names)
                    && entries.contains(kept[i])
            &&& forall|i: int, j: int|
                0 <= i < j < kept.len() && entry_key(#[trigger] kept[i]) is Some ==> entry_key(
                    kept[i],
                ) != entry_key(#[trigger] kept[j])
            &&& forall|i: int|
                0 <= i < entries.len() ==> kept.contains(#[trigger] entries[i]) || entry_exists(
                    entries[i],
                    tasks,
                    names,
                ) || key_comes_before(entries, i)
        }),
        forall|i: int|
            0 <= i < new_entries(entries, tasks, names).len() && entry_key(
                #[trigger] new_entries(entries, tasks, names)[i],
            ) is Some ==> selection(entries, tasks, names).seen.contains(
                entry_key(new_entries(entries, tasks, names)[i])->0,
            ),
        forall|key: Seq<char>| #[trigger]
            selection(entries, tasks, names).seen.contains(key) ==> exists|i: int|
                0 <= i < entries.len() && entry_key(#[trigger] entries[i]) == Some(key),
    decreases entries.len(),
{
    if entries.len() > 0 {
        let head = entries.drop_last();
        let entry = entries.last();
        let before = selection(head, tasks, names);
        let after = selection(entries, tasks, names);
        only_new_items_are_kept(head, tasks, names);
        assert(entries[entries.len() - 1] == entry);
        assert(forall|i: int| 0 <= i < head.len() ==> #[trigger] head[i] == entries[i]);
        assert forall|i: int| 0 <= i < before.kept.len() implies entries.contains(
            #[trigger] before.kept[i],
        ) by {
            let k = choose|k: int| 0 <= k < head.len() && head[k] == before.kept[i];
            assert(entries[k] == before.kept[i]);
        }
        let repeated = entry_key(entry) is Some && before.seen.contains(entry_key(entry)->0);
        if repeated {
            let k = choose|k: int|
                0 <= k < head.len() && entry_key(#[trigger] head[k]) == Some(entry_key(entry)->0);
            assert(entry_key(entries[k]) == entry_key(entry));
            assert(key_comes_before(entries, entries.len() - 1));
        }
        let grown = !repeated && !entry_exists(entry, tasks, names);
        if grown {
            assert(after.kept == before.kept.push(entry));
            assert(after.kept[after.kept.len() - 1] == entry);
        } else {
            assert(after.kept == before.kept);
        }
        assert forall|i: int| 0 <= i < entries.len() implies after.kept.contains(
            #[trigger] entries[i],
        ) || entry_exists(entries[i], tasks, names) || key_comes_before(entries, i) by {
            if i < head.len() {
                assert(head[i] == entries[i]);
                if before.kept.contains(head[i]) {
                    let k = choose|k: int| 0 <= k < before.kept.len() && before.kept[k] == head[i];
                    assert(after.kept[k] == entries[i]);
                } else if key_comes_before(head, i) {
                    let k = choose|k: int|
                        0 <= k < i && entry_key(#[trigger] head[k]) == entry_key(head[i]);
                    assert(entry_key(entries[k]) == entry_key(entries[i]));
                }
            }
        }
        assert forall|i: int, j: int|
            0 <= i < j < after.kept.len() && entry_key(
                #[trigger] after.kept[i],
            ) is Some implies entry_key(after.kept[i]) != entry_key(#[trigger] after.kept[j]) by {
            assert(after.kept[i] == before.kept[i]);
            if j < before.kept.len() {
                assert(after.kept[j] == before.kept[j]);
            }
        }
        assert forall|key: Seq<char>| #[trigger] after.seen.contains(key) implies exists|i: int|
            0 <= i < entries.len() && entry_key(#[trigger] entries[i]) == Some(key) by {
            if before.seen.contains(key) {
                let k = choose|k: int|
                    0 <= k < head.len() && entry_key(#[trigger] head[k]) == Some(key);
                assert(entry_key(entries[k]) == Some(key));
            } else {
                assert(entry_key(entries[entries.len() - 1]) == Some(key));
            }
        }
    }
}

/// Another item with the same key comes before the one at `i`.
pub open spec fn key_comes_before(entries: Seq<EntryView>, i: int) -> bool {
    entry_key(entries[i]) is Some && exists|k: int|
        0 <= k < i && entry_key(#[trigger] entries[k]) == entry_key(entries[i])
}

}
