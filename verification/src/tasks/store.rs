//! The tasks and the queue as they stand on disk.
//!
//! A [`TaskStore`] is the image of what was read from disk. Every change is made to the image and
//! noted in a journal, whose writes are then carried out on disk in order.
use vstd::prelude::*;

use crate::clock;
use crate::paths;
use crate::paths::{FsPath, FsPathView};
use crate::tasks::record::{QueueState, QueueView, RecordView, TaskRecord};
use crate::tasks::record;
use crate::text;

verus! {

// ---------------------------------------------------------------------------
// Files and writes
// ---------------------------------------------------------------------------

/// What a task file holds.
pub enum FileContent {
    /// A task.
    Task(TaskRecord),
    /// Something that is no task.
    Corrupted,
    /// Nobody knows: it could not be read.
    Unreadable,
}

/// A task file: the part of its name before `.json`, and what it holds.
pub struct TaskFile {
    pub name: String,
    pub content: FileContent,
}

/// What a [`FileContent`] says.
#[verifier::ext_equal]
pub enum ContentView {
    Task(RecordView),
    Corrupted,
    Unreadable,
}

/// What a [`TaskFile`] says.
#[verifier::ext_equal]
pub struct FileView {
    pub name: Seq<char>,
    pub content: ContentView,
}

impl View for FileContent {
    type V = ContentView;

    open spec fn view(&self) -> ContentView {
        match self {
            FileContent::Task(task) => ContentView::Task(task@),
            FileContent::Corrupted => ContentView::Corrupted,
            FileContent::Unreadable => ContentView::Unreadable,
        }
    }
}

impl View for TaskFile {
    type V = FileView;

    open spec fn view(&self) -> FileView {
        FileView { name: self.name@, content: self.content@ }
    }
}

/// What each file says.
pub open spec fn files_view(files: Seq<TaskFile>) -> Seq<FileView> {
    Seq::new(files.len(), |i: int| files[i]@)
}

/// A write to disk.
pub enum StoreWrite {
    /// Write the task to the file that is named by its id.
    SaveTask(TaskRecord),
    /// Write the queue.
    SaveQueue(QueueState),
    /// Remove the task file of this name. Where the removal is not `required`, the work goes on
    /// without it.
    RemoveTaskFile { name: String, required: bool },
}

/// What a [`StoreWrite`] says.
#[verifier::ext_equal]
pub enum WriteView {
    SaveTask(RecordView),
    SaveQueue(QueueView),
    RemoveTaskFile { name: Seq<char>, required: bool },
}

impl View for StoreWrite {
    type V = WriteView;

    open spec fn view(&self) -> WriteView {
        match self {
            StoreWrite::SaveTask(task) => WriteView::SaveTask(task@),
            StoreWrite::SaveQueue(queue) => WriteView::SaveQueue(queue@),
            StoreWrite::RemoveTaskFile { name, required } => WriteView::RemoveTaskFile {
                name: name@,
                required: *required,
            },
        }
    }
}

/// What each write says.
pub open spec fn writes_view(writes: Seq<StoreWrite>) -> Seq<WriteView> {
    Seq::new(writes.len(), |i: int| writes[i]@)
}

/// What a queue that may be absent says.
pub open spec fn queue_opt(queue: Option<QueueState>) -> Option<QueueView> {
    match queue {
        Some(q) => Some(q@),
        None => None,
    }
}

// ---------------------------------------------------------------------------
// What can go wrong
// ---------------------------------------------------------------------------

/// Why the store refuses a request.
pub enum StoreError {
    /// There is no such task file, or it cannot be read.
    ReadTask(FsPath),
    /// The task file holds no task.
    ParseTask(FsPath),
    /// A single task was asked for, but the media is a playlist.
    IsPlaylist,
    /// A playlist was asked for, but the media is none.
    NotPlaylist,
    /// The playlist is empty.
    NoEntries,
    /// Every item of the playlist is there already.
    NothingNew,
    /// The video is there already.
    AlreadyExists(String),
    /// The task is being downloaded.
    StopFirst,
}

/// What a [`StoreError`] says.
#[verifier::ext_equal]
pub enum StoreErrorView {
    ReadTask(FsPathView),
    ParseTask(FsPathView),
    IsPlaylist,
    NotPlaylist,
    NoEntries,
    NothingNew,
    AlreadyExists(Seq<char>),
    StopFirst,
}

impl View for StoreError {
    type V = StoreErrorView;

    open spec fn view(&self) -> StoreErrorView {
        match self {
            StoreError::ReadTask(place) => StoreErrorView::ReadTask(place@),
            StoreError::ParseTask(place) => StoreErrorView::ParseTask(place@),
            StoreError::IsPlaylist => StoreErrorView::IsPlaylist,
            StoreError::NotPlaylist => StoreErrorView::NotPlaylist,
            StoreError::NoEntries => StoreErrorView::NoEntries,
            StoreError::NothingNew => StoreErrorView::NothingNew,
            StoreError::AlreadyExists(hint) => StoreErrorView::AlreadyExists(hint@),
            StoreError::StopFirst => StoreErrorView::StopFirst,
        }
    }
}

impl StoreErrorView {
    /// The message, where `shown` is the file that the error is about, as the system writes it.
    pub open spec fn text(self, shown: Seq<char>) -> Seq<char> {
        match self {
            StoreErrorView::ReadTask(_) => "failed to read task file "@ + shown,
            StoreErrorView::ParseTask(_) => "failed to parse task file "@ + shown,
            StoreErrorView::IsPlaylist => "use the batch endpoint to enqueue a playlist"@,
            StoreErrorView::NotPlaylist =>
                "playlist batch creation requires a playlist resolve result"@,
            StoreErrorView::NoEntries => "playlist has no resolved entries to enqueue"@,
            StoreErrorView::NothingNew =>
                "all playlist entries already exist in the queue or download library"@,
            StoreErrorView::AlreadyExists(hint) => "this video already exists: "@ + hint,
            StoreErrorView::StopFirst => "stop the task before deleting it"@,
        }
    }
}

impl StoreError {
    /// The message, where `shown` is the file that the error is about, as the system writes it.
    pub fn message(&self, shown: &str) -> (r: String)
        ensures
            r@ == self@.text(shown@),
    {
        match self {
            StoreError::ReadTask(_) => text::joined("failed to read task file ", shown),
            StoreError::ParseTask(_) => text::joined("failed to parse task file ", shown),
            StoreError::IsPlaylist => "use the batch endpoint to enqueue a playlist".to_owned(),
            StoreError::NotPlaylist =>
                "playlist batch creation requires a playlist resolve result".to_owned(),
            StoreError::NoEntries => "playlist has no resolved entries to enqueue".to_owned(),
            StoreError::NothingNew =>
                "all playlist entries already exist in the queue or download library".to_owned(),
            StoreError::AlreadyExists(hint) => text::joined(
                "this video already exists: ",
                hint.as_str(),
            ),
            StoreError::StopFirst => "stop the task before deleting it".to_owned(),
        }
    }

    /// The file that the error is about.
    pub fn place(&self) -> (r: Option<&FsPath>)
        ensures
            match self@ {
                StoreErrorView::ReadTask(place) => r is Some && r->0@ == place,
                StoreErrorView::ParseTask(place) => r is Some && r->0@ == place,
                _ => r is None,
            },
    {
        match self {
            StoreError::ReadTask(place) => Some(place),
            StoreError::ParseTask(place) => Some(place),
            _ => None,
        }
    }
}

// ---------------------------------------------------------------------------
// The store
// ---------------------------------------------------------------------------

/// The place of the first file of this name; the number of files where there is none.
pub open spec fn file_at(files: Seq<FileView>, name: Seq<char>) -> int
    decreases files.len(),
{
    if files.len() == 0 {
        0
    } else if files[0].name == name {
        0
    } else {
        1 + file_at(files.skip(1), name)
    }
}

/// The files, after `task` was written to the file that is named by its id.
pub open spec fn with_task(files: Seq<FileView>, task: RecordView) -> Seq<FileView> {
    let file = FileView { name: task.id, content: ContentView::Task(task) };
    if file_at(files, task.id) < files.len() {
        files.update(file_at(files, task.id), file)
    } else {
        files.push(file)
    }
}

/// The files without those of this name.
pub open spec fn without_file(files: Seq<FileView>, name: Seq<char>) -> Seq<FileView>
    decreases files.len(),
{
    if files.len() == 0 {
        files
    } else if files.last().name == name {
        without_file(files.drop_last(), name)
    } else {
        without_file(files.drop_last(), name).push(files.last())
    }
}

/// The tasks in these files, in order.
pub open spec fn tasks_in(files: Seq<FileView>) -> Seq<RecordView>
    decreases files.len(),
{
    if files.len() == 0 {
        Seq::empty()
    } else {
        let rest = tasks_in(files.drop_last());
        match files.last().content {
            ContentView::Task(task) => rest.push(task),
            _ => rest,
        }
    }
}

/// The names of the files that hold no task, in order.
pub open spec fn corrupted_in(files: Seq<FileView>) -> Seq<Seq<char>>
    decreases files.len(),
{
    if files.len() == 0 {
        Seq::empty()
    } else {
        let rest = corrupted_in(files.drop_last());
        match files.last().content {
            ContentView::Corrupted => rest.push(files.last().name),
            _ => rest,
        }
    }
}

/// What a [`TaskStore`] holds.
#[verifier::ext_equal]
pub struct StoreView {
    pub tasks_dir: FsPathView,
    pub queue_path: FsPathView,
    pub files: Seq<FileView>,
    /// The queue; `None` where there is no queue file, or none that holds a queue.
    pub queue: Option<QueueView>,
    /// The writes that are still to be carried out on disk.
    pub journal: Seq<WriteView>,
}

impl StoreView {
    /// The store after a write.
    pub open spec fn apply(self, write: WriteView) -> StoreView {
        let noted = StoreView { journal: self.journal.push(write), ..self };
        match write {
            WriteView::SaveTask(task) => StoreView { files: with_task(self.files, task), ..noted },
            WriteView::SaveQueue(queue) => StoreView { queue: Some(queue), ..noted },
            WriteView::RemoveTaskFile { name, .. } => StoreView {
                files: without_file(self.files, name),
                ..noted
            },
        }
    }

    /// The store after these writes.
    pub open spec fn apply_all(self, writes: Seq<WriteView>) -> StoreView
        decreases writes.len(),
    {
        if writes.len() == 0 {
            self
        } else {
            self.apply_all(writes.drop_last()).apply(writes.last())
        }
    }

    /// Where the task of this id is kept.
    pub open spec fn task_path(self, id: Seq<char>) -> FsPathView {
        self.tasks_dir.join(id + ".json"@)
    }

    /// There is a file for the task of this id.
    pub open spec fn has_file(self, id: Seq<char>) -> bool {
        file_at(self.files, id) < self.files.len()
    }

    /// The task of this id, or why it cannot be had.
    pub open spec fn task(self, id: Seq<char>) -> Result<RecordView, StoreErrorView> {
        if self.has_file(id) {
            match self.files[file_at(self.files, id)].content {
                ContentView::Task(task) => Ok(task),
                ContentView::Corrupted => Err(StoreErrorView::ParseTask(self.task_path(id))),
                ContentView::Unreadable => Err(StoreErrorView::ReadTask(self.task_path(id))),
            }
        } else {
            Err(StoreErrorView::ReadTask(self.task_path(id)))
        }
    }

    /// All tasks.
    pub open spec fn tasks(self) -> Seq<RecordView> {
        tasks_in(self.files)
    }

    /// The store after the files of these names were removed, as far as they can be.
    pub open spec fn dropped(self, names: Seq<Seq<char>>) -> StoreView
        decreases names.len(),
    {
        if names.len() == 0 {
            self
        } else {
            self.dropped(names.drop_last()).apply(
                WriteView::RemoveTaskFile { name: names.last(), required: false },
            )
        }
    }

    /// The store without the files that hold no task.
    pub open spec fn swept(self) -> StoreView {
        self.dropped(corrupted_in(self.files))
    }

    /// The store with a queue: where there was none, an empty one was made and written.
    pub open spec fn queue_made(self, now: Seq<char>) -> StoreView {
        match self.queue {
            Some(_) => self,
            None => self.apply(
                WriteView::SaveQueue(QueueView { task_order: Seq::empty(), updated_at: now }),
            ),
        }
    }

    /// The ids in the queue; none where there is no queue.
    pub open spec fn order(self) -> Seq<Seq<char>> {
        match self.queue {
            Some(queue) => queue.task_order,
            None => Seq::empty(),
        }
    }

    /// The store after each of these tasks was saved, in order.
    pub open spec fn saved_all(self, tasks: Seq<RecordView>) -> StoreView
        decreases tasks.len(),
    {
        if tasks.len() == 0 {
            self
        } else {
            self.saved_all(tasks.drop_last()).apply(WriteView::SaveTask(tasks.last()))
        }
    }
}

/// The tasks and the queue as they stand on disk, and the writes that are still to be carried
/// out there.
pub struct TaskStore {
    tasks_dir: FsPath,
    queue_path: FsPath,
    files: Vec<TaskFile>,
    queue: Option<QueueState>,
    journal: Vec<StoreWrite>,
}

impl View for TaskStore {
    type V = StoreView;

    closed spec fn view(&self) -> StoreView {
        StoreView {
            tasks_dir: self.tasks_dir@,
            queue_path: self.queue_path@,
            files: files_view(self.files@),
            queue: queue_opt(self.queue),
            journal: writes_view(self.journal@),
        }
    }
}

impl TaskStore {
    /// A store with nothing in it.
    pub fn new(tasks_dir: FsPath, queue_path: FsPath) -> (r: Self)
        ensures
            r@ == (StoreView {
                tasks_dir: tasks_dir@,
                queue_path: queue_path@,
                files: Seq::empty(),
                queue: None,
                journal: Seq::empty(),
            }),
    {
        TaskStore::read(tasks_dir, queue_path, Vec::new(), None)
    }

    /// A store with what was read from disk.
    pub fn read(
        tasks_dir: FsPath,
        queue_path: FsPath,
        files: Vec<TaskFile>,
        queue: Option<QueueState>,
    ) -> (r: Self)
        ensures
            r@ == (StoreView {
                tasks_dir: tasks_dir@,
                queue_path: queue_path@,
                files: files_view(files@),
                queue: queue_opt(queue),
                journal: Seq::empty(),
            }),
    {
        let r = TaskStore { tasks_dir, queue_path, files, queue, journal: Vec::new() };
        assert(writes_view(r.journal@) =~= Seq::<WriteView>::empty());
        r
    }

    /// Hands over the writes that are to be carried out on disk.
    pub fn take_journal(&mut self) -> (r: Vec<StoreWrite>)
        ensures
            writes_view(r@) == old(self)@.journal,
            final(self)@ == (StoreView { journal: Seq::empty(), ..old(self)@ }),
    {
        let mut journal: Vec<StoreWrite> = Vec::new();
        std::mem::swap(&mut journal, &mut self.journal);
        assert(writes_view(self.journal@) =~= Seq::<WriteView>::empty());
        journal
    }

    /// Where the task of this id is kept.
    pub fn task_path(&self, task_id: &str) -> (r: FsPath)
        ensures
            r@ == self@.task_path(task_id@),
    {
        self.tasks_dir.join(text::joined(task_id, ".json").as_str())
    }

    /// Where the queue is kept.
    pub fn queue_place(&self) -> (r: &FsPath)
        ensures
            r@ == self@.queue_path,
    {
        &self.queue_path
    }

    fn find_file(&self, name: &str) -> (r: usize)
        ensures
            r == file_at(self@.files, name@),
            r <= self.files.len(),
    {
        let wanted = name.to_owned();
        let ghost all = self@.files;
        let mut i: usize = 0;
        assert(all.skip(0) =~= all);
        while i < self.files.len()
            invariant
                i <= self.files.len(),
                wanted@ == name@,
                all == files_view(self.files@),
                file_at(all, name@) == i + file_at(all.skip(i as int), name@),
            decreases self.files.len() - i,
        {
            assert(all.skip(i as int)[0] == self.files@[i as int]@);
            assert(all.skip(i as int).skip(1) =~= all.skip(i + 1));
            if self.files[i].name == wanted {
                return i;
            }
            i = i + 1;
        }
        i
    }

    fn put(&mut self, task: &TaskRecord)
        ensures
            final(self)@ == (StoreView { files: with_task(old(self)@.files, task@), ..old(self)@ }),
    {
        let ghost before = self.files@;
        let i = self.find_file(task.id.as_str());
        let file = TaskFile { name: task.id.clone(), content: FileContent::Task(task.clone()) };
        let ghost shown = file@;
        if i < self.files.len() {
            self.files.set(i, file);
            assert(files_view(self.files@) =~= files_view(before).update(i as int, shown));
        } else {
            self.files.push(file);
            assert(files_view(self.files@) =~= files_view(before).push(shown));
        }
    }

    fn take_out(&mut self, name: &str)
        ensures
            final(self)@ == (StoreView {
                files: without_file(old(self)@.files, name@),
                ..old(self)@
            }),
    {
        let wanted = name.to_owned();
        let ghost all = self@.files;
        let ghost old_self = *self;
        let ghost mut done: int = 0;
        let mut i: usize = 0;
        assert(all.take(0) =~= Seq::<FileView>::empty());
        assert(self@.files =~= without_file(all.take(0), name@) + all.skip(0));
        while i < self.files.len()
            invariant
                wanted@ == name@,
                0 <= done <= all.len(),
                i == without_file(all.take(done), name@).len(),
                files_view(self.files@) == without_file(all.take(done), name@) + all.skip(done),
                self.tasks_dir == old_self.tasks_dir,
                self.queue_path == old_self.queue_path,
                self.queue == old_self.queue,
                self.journal == old_self.journal,
            decreases all.len() - done,
        {
            let ghost before = self.files@;
            let ghost kept = without_file(all.take(done), name@);
            proof {
                assert(files_view(before).len() == kept.len() + all.skip(done).len());
                assert(files_view(before)[i as int] == all.skip(done)[0]);
                assert(all.take(done + 1).last() == before[i as int]@);
                assert(all.take(done + 1).drop_last() =~= all.take(done));
                done = done + 1;
            }
            if self.files[i].name == wanted {
                let _ = self.files.remove(i);
                assert(files_view(self.files@) =~= files_view(before).remove(i as int));
                assert((kept + all.skip(done - 1)).remove(i as int) =~= kept + all.skip(done));
            } else {
                i = i + 1;
                assert(files_view(self.files@) =~= kept.push(before[i - 1]@) + all.skip(done));
            }
        }
        assert(all.take(done) =~= all);
        assert(files_view(self.files@) =~= without_file(all, name@));
    }

    /// Makes a write in the image, and notes it.
    pub(crate) fn write(&mut self, write: StoreWrite)
        ensures
            final(self)@ == old(self)@.apply(write@),
    {
        let ghost noted = self.journal@;
        let ghost shown = write@;
        match &write {
            StoreWrite::SaveTask(task) => self.put(task),
            StoreWrite::SaveQueue(queue) => {
                self.queue = Some(queue.clone());
            },
            StoreWrite::RemoveTaskFile { name, .. } => self.take_out(name.as_str()),
        }
        assert(writes_view(self.journal@) == writes_view(noted));
        let ghost between = self.journal@;
        self.journal.push(write);
        assert(writes_view(self.journal@) =~= writes_view(between).push(shown));
    }

    /// Whether there is a file for the task of this id.
    pub(crate) fn has_file(&self, task_id: &str) -> (r: bool)
        ensures
            r == self@.has_file(task_id@),
    {
        self.find_file(task_id) < self.files.len()
    }

    /// The task of this id.
    pub fn load_task(&self, task_id: &str) -> (r: Result<TaskRecord, StoreError>)
        ensures
            match r {
                Ok(task) => self@.task(task_id@) == Ok::<RecordView, StoreErrorView>(task@),
                Err(error) => self@.task(task_id@) == Err::<RecordView, StoreErrorView>(error@),
            },
    {
        let i = self.find_file(task_id);
        if i < self.files.len() {
            match &self.files[i].content {
                FileContent::Task(task) => Ok(task.clone()),
                FileContent::Corrupted => Err(StoreError::ParseTask(self.task_path(task_id))),
                FileContent::Unreadable => Err(StoreError::ReadTask(self.task_path(task_id))),
            }
        } else {
            Err(StoreError::ReadTask(self.task_path(task_id)))
        }
    }

    /// Saves a task.
    pub fn save_task(&mut self, task: &TaskRecord)
        ensures
            final(self)@ == old(self)@.apply(WriteView::SaveTask(task@)),
    {
        self.write(StoreWrite::SaveTask(task.clone()));
    }

    /// Saves these tasks, in order.
    pub(crate) fn save_tasks(&mut self, tasks: &Vec<TaskRecord>)
        ensures
            final(self)@ == old(self)@.saved_all(record::records_view(tasks@)),
    {
        let ghost all = record::records_view(tasks@);
        let ghost start = self@;
        let mut i: usize = 0;
        assert(all.take(0) =~= Seq::<RecordView>::empty());
        while i < tasks.len()
            invariant
                i <= tasks.len(),
                all == record::records_view(tasks@),
                self@ == start.saved_all(all.take(i as int)),
            decreases tasks.len() - i,
        {
            self.save_task(&tasks[i]);
            i = i + 1;
            assert(all.take(i as int).drop_last() =~= all.take(i - 1));
        }
        assert(all.take(i as int) =~= all);
    }

    /// The names of the files that hold no task.
    fn corrupted_names(&self) -> (r: Vec<String>)
        ensures
            text::texts(r@) == corrupted_in(self@.files),
    {
        let ghost all = self@.files;
        let mut names: Vec<String> = Vec::new();
        let mut i: usize = 0;
        assert(all.take(0) =~= Seq::<FileView>::empty());
        assert(text::texts(names@) =~= corrupted_in(all.take(0)));
        while i < self.files.len()
            invariant
                i <= self.files.len(),
                all == files_view(self.files@),
                text::texts(names@) == corrupted_in(all.take(i as int)),
            decreases self.files.len() - i,
        {
            let ghost before = names@;
            assert(all.take(i + 1).drop_last() =~= all.take(i as int));
            assert(all.take(i + 1).last() == self.files@[i as int]@);
            match &self.files[i].content {
                FileContent::Corrupted => {
                    names.push(self.files[i].name.clone());
                    assert(text::texts(names@) =~= text::texts(before).push(
                        self.files@[i as int].name@,
                    ));
                },
                _ => {},
            }
            i = i + 1;
        }
        assert(all.take(i as int) =~= all);
        names
    }

    /// All tasks that are there.
    pub(crate) fn tasks(&self) -> (r: Vec<TaskRecord>)
        ensures
            record::records_view(r@) == self@.tasks(),
    {
        let ghost all = self@.files;
        let mut tasks: Vec<TaskRecord> = Vec::new();
        let mut i: usize = 0;
        assert(all.take(0) =~= Seq::<FileView>::empty());
        assert(record::records_view(tasks@) =~= tasks_in(all.take(0)));
        while i < self.files.len()
            invariant
                i <= self.files.len(),
                all == files_view(self.files@),
                record::records_view(tasks@) == tasks_in(all.take(i as int)),
            decreases self.files.len() - i,
        {
            let ghost before = tasks@;
            assert(all.take(i + 1).drop_last() =~= all.take(i as int));
            assert(all.take(i + 1).last() == self.files@[i as int]@);
            match &self.files[i].content {
                FileContent::Task(task) => {
                    tasks.push(task.clone());
                    assert(record::records_view(tasks@) =~= record::records_view(before).push(
                        task@,
                    ));
                },
                _ => {},
            }
            i = i + 1;
        }
        assert(all.take(i as int) =~= all);
        tasks
    }

    /// All tasks. Files that hold no task are removed, as far as they can be.
    pub fn load_all_tasks(&mut self) -> (r: Vec<TaskRecord>)
        ensures
            record::records_view(r@) == old(self)@.tasks(),
            final(self)@ == old(self)@.swept(),
    {
        let tasks = self.tasks();
        let names = self.corrupted_names();
        let ghost all = text::texts(names@);
        let ghost start = self@;
        let mut i: usize = 0;
        assert(all.take(0) =~= Seq::<Seq<char>>::empty());
        while i < names.len()
            invariant
                i <= names.len(),
                all == text::texts(names@),
                self@ == start.dropped(all.take(i as int)),
            decreases names.len() - i,
        {
            self.write(StoreWrite::RemoveTaskFile { name: names[i].clone(), required: false });
            i = i + 1;
            assert(all.take(i as int).drop_last() =~= all.take(i - 1));
        }
        assert(all.take(i as int) =~= all);
        tasks
    }

    /// The queue. Where there is none, an empty one is made at `now` and written.
    pub fn load_or_create_queue_at(&mut self, now: &str) -> (r: QueueState)
        ensures
            final(self)@ == old(self)@.queue_made(now@),
            Some(r@) == final(self)@.queue,
            r@.task_order == old(self)@.order(),
    {
        match &self.queue {
            Some(queue) => queue.clone(),
            None => {
                let queue = QueueState { task_order: Vec::new(), updated_at: now.to_owned() };
                assert(queue@ =~= QueueView { task_order: Seq::empty(), updated_at: now@ });
                self.write(StoreWrite::SaveQueue(queue.clone()));
                queue
            },
        }
    }

    /// The queue. Where there is none, an empty one is made and written.
    pub fn load_or_create_queue(&mut self) -> (r: QueueState)
        ensures
            exists|now: Seq<char>|
                clock::timestamp(now) && final(self)@ == #[trigger] old(self)@.queue_made(now),
            Some(r@) == final(self)@.queue,
            r@.task_order == old(self)@.order(),
    {
        let now = clock::now_rfc3339();
        self.load_or_create_queue_at(now.as_str())
    }
}

}
