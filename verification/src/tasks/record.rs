//! Tasks as they are kept and shown.
use std::collections::VecDeque;

use vstd::prelude::*;

use crate::clock;
use crate::text;

verus! {

/// The states of a task.
#[derive(Debug, Clone, Copy, PartialEq, Eq, Structural)]
pub enum TaskState {
    Submitted,
    Resolving,
    Queued,
    Downloading,
    Stopping,
    Paused,
    Completed,
    Failed,
    Canceled,
}

/// The kinds of tasks. A playlist parent is never downloaded itself: it stands for its items.
#[derive(Debug, Clone, Copy, PartialEq, Eq, Structural)]
pub enum TaskKind {
    Single,
    PlaylistParent,
    PlaylistItem,
}

// ---------------------------------------------------------------------------
// Progress
// ---------------------------------------------------------------------------

/// A transfer rate: a decimal number of units, each so many bytes per second.
pub struct TransferRate {
    pub number: String,
    pub unit_bytes: u64,
}

/// What a [`TransferRate`] says.
#[verifier::ext_equal]
pub struct RateView {
    pub number: Seq<char>,
    pub unit_bytes: u64,
}

impl View for TransferRate {
    type V = RateView;

    open spec fn view(&self) -> RateView {
        RateView { number: self.number@, unit_bytes: self.unit_bytes }
    }
}

/// How far a download is. The percentage is a decimal number, as yt-dlp writes it.
pub struct TaskProgress {
    pub percent: String,
    pub downloaded_bytes: Option<u64>,
    pub total_bytes: Option<u64>,
    pub speed: Option<TransferRate>,
    pub eta_seconds: Option<u64>,
}

/// What a [`TaskProgress`] says.
#[verifier::ext_equal]
pub struct ProgressView {
    pub percent: Seq<char>,
    pub downloaded_bytes: Option<u64>,
    pub total_bytes: Option<u64>,
    pub speed: Option<RateView>,
    pub eta_seconds: Option<u64>,
}

/// What a transfer rate that may be absent says.
pub open spec fn rate_opt(rate: Option<TransferRate>) -> Option<RateView> {
    match rate {
        Some(r) => Some(r@),
        None => None,
    }
}

impl View for TaskProgress {
    type V = ProgressView;

    open spec fn view(&self) -> ProgressView {
        ProgressView {
            percent: self.percent@,
            downloaded_bytes: self.downloaded_bytes,
            total_bytes: self.total_bytes,
            speed: rate_opt(self.speed),
            eta_seconds: self.eta_seconds,
        }
    }
}

impl Clone for TaskProgress {
    fn clone(&self) -> (r: Self)
        ensures
            r@ == self@,
    {
        TaskProgress {
            percent: self.percent.clone(),
            downloaded_bytes: self.downloaded_bytes,
            total_bytes: self.total_bytes,
            speed: match &self.speed {
                Some(rate) => Some(
                    TransferRate { number: rate.number.clone(), unit_bytes: rate.unit_bytes },
                ),
                None => None,
            },
            eta_seconds: self.eta_seconds,
        }
    }
}

impl ProgressView {
    /// No progress yet.
    pub open spec fn none() -> ProgressView {
        ProgressView {
            percent: "0"@,
            downloaded_bytes: None,
            total_bytes: None,
            speed: None,
            eta_seconds: None,
        }
    }
}

impl Default for TaskProgress {
    fn default() -> (r: Self)
        ensures
            r@ == ProgressView::none(),
    {
        TaskProgress {
            percent: "0".to_owned(),
            downloaded_bytes: None,
            total_bytes: None,
            speed: None,
            eta_seconds: None,
        }
    }
}

// ---------------------------------------------------------------------------
// What is known of a running download
// ---------------------------------------------------------------------------

/// How many output lines are kept.
pub const LOG_WINDOW: usize = 200;

/// What is known of a running download, and never written to disk.
pub struct RuntimeState {
    pub progress: TaskProgress,
    /// The last lines of output, at most [`LOG_WINDOW`] of them.
    pub recent_logs: VecDeque<String>,
    /// The lines that speak of an error.
    pub error_hints: Vec<String>,
}

/// What a [`RuntimeState`] says.
#[verifier::ext_equal]
pub struct RuntimeView {
    pub progress: ProgressView,
    pub recent_logs: Seq<Seq<char>>,
    pub error_hints: Seq<Seq<char>>,
}

impl View for RuntimeState {
    type V = RuntimeView;

    open spec fn view(&self) -> RuntimeView {
        RuntimeView {
            progress: self.progress@,
            recent_logs: text::texts(self.recent_logs@),
            error_hints: text::texts(self.error_hints@),
        }
    }
}

/// A line that speaks of an error.
pub open spec fn speaks_of_error(line: Seq<char>) -> bool {
    text::occurs(text::lowered(line), "error"@)
}

impl RuntimeView {
    /// Nothing known yet.
    pub open spec fn none() -> RuntimeView {
        RuntimeView {
            progress: ProgressView::none(),
            recent_logs: Seq::empty(),
            error_hints: Seq::empty(),
        }
    }

    /// What is known after one more line of output.
    pub open spec fn logged(self, line: Seq<char>) -> RuntimeView {
        let all = self.recent_logs.push(line);
        RuntimeView {
            progress: self.progress,
            recent_logs: if all.len() > LOG_WINDOW {
                all.skip(1)
            } else {
                all
            },
            error_hints: if speaks_of_error(line) {
                self.error_hints.push(line)
            } else {
                self.error_hints
            },
        }
    }

    /// What is known after these lines of output.
    pub open spec fn logged_all(self, lines: Seq<Seq<char>>) -> RuntimeView
        decreases lines.len(),
    {
        if lines.len() == 0 {
            self
        } else {
            self.logged_all(lines.drop_last()).logged(lines.last())
        }
    }
}

impl Default for RuntimeState {
    fn default() -> (r: Self)
        ensures
            r@ == RuntimeView::none(),
    {
        let r = RuntimeState {
            progress: TaskProgress::default(),
            recent_logs: VecDeque::new(),
            error_hints: Vec::new(),
        };
        assert(r@ =~= RuntimeView::none());
        r
    }
}

impl RuntimeState {
    /// Takes in a line of output.
    pub fn push_log(&mut self, line: String)
        requires
            old(self).recent_logs@.len() < usize::MAX,
        ensures
            final(self)@ == old(self)@.logged(line@),
    {
        let ghost before = self@;
        let ghost logs = self.recent_logs@;
        let ghost hints = self.error_hints@;
        if text::contains(text::to_lower(line.as_str()).as_str(), "error") {
            self.error_hints.push(line.clone());
            assert(text::texts(self.error_hints@) =~= text::texts(hints).push(line@));
        }
        self.recent_logs.push_back(line);
        assert(text::texts(self.recent_logs@) =~= text::texts(logs).push(line@));
        let ghost all = self.recent_logs@;
        if self.recent_logs.len() > LOG_WINDOW {
            let _ = self.recent_logs.pop_front();
            assert(text::texts(self.recent_logs@) =~= text::texts(all).skip(1));
        }
    }
}

/// The lines of `lines` that speak of an error.
pub open spec fn error_lines(lines: Seq<Seq<char>>) -> Seq<Seq<char>>
    decreases lines.len(),
{
    if lines.len() == 0 {
        lines
    } else if speaks_of_error(lines.last()) {
        error_lines(lines.drop_last()).push(lines.last())
    } else {
        error_lines(lines.drop_last())
    }
}

/// The log is a rolling window: whatever was put out so far, it holds the last lines of it, as
/// many as the window is wide; and the hints are the lines of all of it that speak of an error.
pub proof fn logs_are_a_rolling_window(lines: Seq<Seq<char>>)
    ensures
        ({
            let state = RuntimeView::none().logged_all(lines);
            &&& lines.len() <= LOG_WINDOW ==> state.recent_logs == lines
            &&& lines.len() > LOG_WINDOW ==> state.recent_logs == lines.skip(
                lines.len() - LOG_WINDOW,
            )
            &&& state.error_hints == error_lines(lines)
            &&& state.progress == ProgressView::none()
        }),
    decreases lines.len(),
{
    if lines.len() > 0 {
        let head = lines.drop_last();
        logs_are_a_rolling_window(head);
        let before = RuntimeView::none().logged_all(head);
        let all = before.recent_logs.push(lines.last());
        if head.len() < LOG_WINDOW {
            assert(all =~= lines);
        } else if head.len() == LOG_WINDOW {
            assert(all.skip(1) =~= lines.skip(1));
        } else {
            assert(all.skip(1) =~= lines.skip(lines.len() - LOG_WINDOW));
        }
    } else {
        assert(RuntimeView::none().recent_logs =~= lines);
        assert(RuntimeView::none().error_hints =~= error_lines(lines));
    }
}

// ---------------------------------------------------------------------------
// The task record
// ---------------------------------------------------------------------------

/// A task, as it is written to disk.
pub struct TaskRecord {
    pub id: String,
    pub task_kind: TaskKind,
    pub source_url: String,
    pub parent_task_id: Option<String>,
    pub child_task_ids: Vec<String>,
    pub extractor: Option<String>,
    pub video_id: Option<String>,
    pub title: String,
    pub playlist_title: Option<String>,
    pub playlist_index: Option<u64>,
    pub uploader: Option<String>,
    pub duration_seconds: Option<u64>,
    pub thumbnail_url: Option<String>,
    pub estimated_size_bytes: Option<u64>,
    pub target_subdir: String,
    pub output_dir_relative: String,
    pub download_mode: String,
    pub quality: String,
    pub container: String,
    pub subtitle_languages: Vec<String>,
    pub cookie_file_name: Option<String>,
    pub cookie_browser: Option<String>,
    pub cookie_browser_profile: Option<String>,
    pub raw_args: Vec<String>,
    pub raw_format_code: Option<String>,
    pub created_at: String,
    pub state: TaskState,
    pub updated_at: String,
    pub output_files: Vec<String>,
    pub last_error: Option<String>,
}

/// What a [`TaskRecord`] says.
#[verifier::ext_equal]
pub struct RecordView {
    pub id: Seq<char>,
    pub task_kind: TaskKind,
    pub source_url: Seq<char>,
    pub parent_task_id: Option<Seq<char>>,
    pub child_task_ids: Seq<Seq<char>>,
    pub extractor: Option<Seq<char>>,
    pub video_id: Option<Seq<char>>,
    pub title: Seq<char>,
    pub playlist_title: Option<Seq<char>>,
    pub playlist_index: Option<u64>,
    pub uploader: Option<Seq<char>>,
    pub duration_seconds: Option<u64>,
    pub thumbnail_url: Option<Seq<char>>,
    pub estimated_size_bytes: Option<u64>,
    pub target_subdir: Seq<char>,
    pub output_dir_relative: Seq<char>,
    pub download_mode: Seq<char>,
    pub quality: Seq<char>,
    pub container: Seq<char>,
    pub subtitle_languages: Seq<Seq<char>>,
    pub cookie_file_name: Option<Seq<char>>,
    pub cookie_browser: Option<Seq<char>>,
    pub cookie_browser_profile: Option<Seq<char>>,
    pub raw_args: Seq<Seq<char>>,
    pub raw_format_code: Option<Seq<char>>,
    pub created_at: Seq<char>,
    pub state: TaskState,
    pub updated_at: Seq<char>,
    pub output_files: Seq<Seq<char>>,
    pub last_error: Option<Seq<char>>,
}

impl View for TaskRecord {
    type V = RecordView;

    open spec fn view(&self) -> RecordView {
        RecordView {
            id: self.id@,
            task_kind: self.task_kind,
            source_url: self.source_url@,
            parent_task_id: text::text_opt(self.parent_task_id),
            child_task_ids: text::texts(self.child_task_ids@),
            extractor: text::text_opt(self.extractor),
            video_id: text::text_opt(self.video_id),
            title: self.title@,
            playlist_title: text::text_opt(self.playlist_title),
            playlist_index: self.playlist_index,
            uploader: text::text_opt(self.uploader),
            duration_seconds: self.duration_seconds,
            thumbnail_url: text::text_opt(self.thumbnail_url),
            estimated_size_bytes: self.estimated_size_bytes,
            target_subdir: self.target_subdir@,
            output_dir_relative: self.output_dir_relative@,
            download_mode: self.download_mode@,
            quality: self.quality@,
            container: self.container@,
            subtitle_languages: text::texts(self.subtitle_languages@),
            cookie_file_name: text::text_opt(self.cookie_file_name),
            cookie_browser: text::text_opt(self.cookie_browser),
            cookie_browser_profile: text::text_opt(self.cookie_browser_profile),
            raw_args: text::texts(self.raw_args@),
            raw_format_code: text::text_opt(self.raw_format_code),
            created_at: self.created_at@,
            state: self.state,
            updated_at: self.updated_at@,
            output_files: text::texts(self.output_files@),
            last_error: text::text_opt(self.last_error),
        }
    }
}

impl Clone for TaskRecord {
    fn clone(&self) -> (r: Self)
        ensures
            r@ == self@,
    {
        TaskRecord {
            id: self.id.clone(),
            task_kind: self.task_kind,
            source_url: self.source_url.clone(),
            parent_task_id: text::clone_opt(&self.parent_task_id),
            child_task_ids: text::clone_texts(&self.child_task_ids),
            extractor: text::clone_opt(&self.extractor),
            video_id: text::clone_opt(&self.video_id),
            title: self.title.clone(),
            playlist_title: text::clone_opt(&self.playlist_title),
            playlist_index: self.playlist_index,
            uploader: text::clone_opt(&self.uploader),
            duration_seconds: self.duration_seconds,
            thumbnail_url: text::clone_opt(&self.thumbnail_url),
            estimated_size_bytes: self.estimated_size_bytes,
            target_subdir: self.target_subdir.clone(),
            output_dir_relative: self.output_dir_relative.clone(),
            download_mode: self.download_mode.clone(),
            quality: self.quality.clone(),
            container: self.container.clone(),
            subtitle_languages: text::clone_texts(&self.subtitle_languages),
            cookie_file_name: text::clone_opt(&self.cookie_file_name),
            cookie_browser: text::clone_opt(&self.cookie_browser),
            cookie_browser_profile: text::clone_opt(&self.cookie_browser_profile),
            raw_args: text::clone_texts(&self.raw_args),
            raw_format_code: text::clone_opt(&self.raw_format_code),
            created_at: self.created_at.clone(),
            state: self.state,
            updated_at: self.updated_at.clone(),
            output_files: text::clone_texts(&self.output_files),
            last_error: text::clone_opt(&self.last_error),
        }
    }
}

/// What each record says.
pub open spec fn records_view(records: Seq<TaskRecord>) -> Seq<RecordView> {
    Seq::new(records.len(), |i: int| records[i]@)
}

/// What a record that may be absent says.
pub open spec fn record_opt(record: Option<TaskRecord>) -> Option<RecordView> {
    match record {
        Some(r) => Some(r@),
        None => None,
    }
}

impl TaskRecord {
    /// Sets the time of the last change to the present.
    pub fn update_timestamp(&mut self)
        ensures
            clock::timestamp(final(self)@.updated_at),
            final(self)@ == (RecordView { updated_at: final(self)@.updated_at, ..old(self)@ }),
    {
        self.updated_at = clock::now_rfc3339();
    }

    /// Sets the time of the last change.
    pub fn stamp(&mut self, now: &str)
        ensures
            final(self)@ == (RecordView { updated_at: now@, ..old(self)@ }),
    {
        self.updated_at = now.to_owned();
    }
}

// ---------------------------------------------------------------------------
// The view of a task that the front end gets
// ---------------------------------------------------------------------------

/// A task record together with what is known of its running download.
pub struct TaskView {
    pub id: String,
    pub task_kind: TaskKind,
    pub source_url: String,
    pub parent_task_id: Option<String>,
    pub child_task_ids: Vec<String>,
    pub extractor: Option<String>,
    pub video_id: Option<String>,
    pub title: String,
    pub playlist_title: Option<String>,
    pub playlist_index: Option<u64>,
    pub uploader: Option<String>,
    pub duration_seconds: Option<u64>,
    pub thumbnail_url: Option<String>,
    pub estimated_size_bytes: Option<u64>,
    pub target_subdir: String,
    pub output_dir_relative: String,
    pub download_mode: String,
    pub quality: String,
    pub container: String,
    pub subtitle_languages: Vec<String>,
    pub cookie_file_name: Option<String>,
    pub raw_args: Vec<String>,
    pub raw_format_code: Option<String>,
    pub created_at: String,
    pub state: TaskState,
    pub updated_at: String,
    pub output_files: Vec<String>,
    pub last_error: Option<String>,
    pub progress: TaskProgress,
    pub recent_logs: Vec<String>,
}

impl TaskView {
    /// The record that is shown; the browser to take cookies from is not.
    pub open spec fn record(self) -> RecordView {
        RecordView {
            id: self.id@,
            task_kind: self.task_kind,
            source_url: self.source_url@,
            parent_task_id: text::text_opt(self.parent_task_id),
            child_task_ids: text::texts(self.child_task_ids@),
            extractor: text::text_opt(self.extractor),
            video_id: text::text_opt(self.video_id),
            title: self.title@,
            playlist_title: text::text_opt(self.playlist_title),
            playlist_index: self.playlist_index,
            uploader: text::text_opt(self.uploader),
            duration_seconds: self.duration_seconds,
            thumbnail_url: text::text_opt(self.thumbnail_url),
            estimated_size_bytes: self.estimated_size_bytes,
            target_subdir: self.target_subdir@,
            output_dir_relative: self.output_dir_relative@,
            download_mode: self.download_mode@,
            quality: self.quality@,
            container: self.container@,
            subtitle_languages: text::texts(self.subtitle_languages@),
            cookie_file_name: text::text_opt(self.cookie_file_name),
            cookie_browser: None,
            cookie_browser_profile: None,
            raw_args: text::texts(self.raw_args@),
            raw_format_code: text::text_opt(self.raw_format_code),
            created_at: self.created_at@,
            state: self.state,
            updated_at: self.updated_at@,
            output_files: text::texts(self.output_files@),
            last_error: text::text_opt(self.last_error),
        }
    }

    /// It shows the same.
    pub open spec fn same_as(self, other: TaskView) -> bool {
        self.record() == other.record() && self.progress@ == other.progress@ && text::texts(
            self.recent_logs@,
        ) == text::texts(other.recent_logs@)
    }

    /// The view of `record`; progress and log are empty where no download is running.
    pub fn from_record(record: &TaskRecord, rt: Option<&RuntimeState>) -> (r: Self)
        ensures
            r.record() == (RecordView {
                cookie_browser: None,
                cookie_browser_profile: None,
                ..record@
            }),
            r.progress@ == (match rt {
                Some(state) => state@.progress,
                None => ProgressView::none(),
            }),
            text::texts(r.recent_logs@) == (match rt {
                Some(state) => state@.recent_logs,
                None => Seq::empty(),
            }),
    {
        let mut recent_logs: Vec<String> = Vec::new();
        let progress = match rt {
            Some(state) => {
                let mut i: usize = 0;
                while i < state.recent_logs.len()
                    invariant
                        i <= state.recent_logs.len(),
                        recent_logs.len() == i,
                        forall|j: int|
                            0 <= j < i ==> (#[trigger] recent_logs@[j])@ == state.recent_logs@[j]@,
                    decreases state.recent_logs.len() - i,
                {
                    recent_logs.push(state.recent_logs[i].clone());
                    i = i + 1;
                }
                assert(text::texts(recent_logs@) =~= text::texts(state.recent_logs@));
                state.progress.clone()
            },
            None => {
                assert(text::texts(recent_logs@) =~= Seq::<Seq<char>>::empty());
                TaskProgress::default()
            },
        };
        TaskView {
            id: record.id.clone(),
            task_kind: record.task_kind,
            source_url: record.source_url.clone(),
            parent_task_id: text::clone_opt(&record.parent_task_id),
            child_task_ids: text::clone_texts(&record.child_task_ids),
            extractor: text::clone_opt(&record.extractor),
            video_id: text::clone_opt(&record.video_id),
            title: record.title.clone(),
            playlist_title: text::clone_opt(&record.playlist_title),
            playlist_index: record.playlist_index,
            uploader: text::clone_opt(&record.uploader),
            duration_seconds: record.duration_seconds,
            thumbnail_url: text::clone_opt(&record.thumbnail_url),
            estimated_size_bytes: record.estimated_size_bytes,
            target_subdir: record.target_subdir.clone(),
            output_dir_relative: record.output_dir_relative.clone(),
            download_mode: record.download_mode.clone(),
            quality: record.quality.clone(),
            container: record.container.clone(),
            subtitle_languages: text::clone_texts(&record.subtitle_languages),
            cookie_file_name: text::clone_opt(&record.cookie_file_name),
            raw_args: text::clone_texts(&record.raw_args),
            raw_format_code: text::clone_opt(&record.raw_format_code),
            created_at: record.created_at.clone(),
            state: record.state,
            updated_at: record.updated_at.clone(),
            output_files: text::clone_texts(&record.output_files),
            last_error: text::clone_opt(&record.last_error),
            progress,
            recent_logs,
        }
    }
}

impl Clone for TaskView {
    fn clone(&self) -> (r: Self)
        ensures
            r.same_as(*self),
    {
        TaskView {
            id: self.id.clone(),
            task_kind: self.task_kind,
            source_url: self.source_url.clone(),
            parent_task_id: text::clone_opt(&self.parent_task_id),
            child_task_ids: text::clone_texts(&self.child_task_ids),
            extractor: text::clone_opt(&self.extractor),
            video_id: text::clone_opt(&self.video_id),
            title: self.title.clone(),
            playlist_title: text::clone_opt(&self.playlist_title),
            playlist_index: self.playlist_index,
            uploader: text::clone_opt(&self.uploader),
            duration_seconds: self.duration_seconds,
            thumbnail_url: text::clone_opt(&self.thumbnail_url),
            estimated_size_bytes: self.estimated_size_bytes,
            target_subdir: self.target_subdir.clone(),
            output_dir_relative: self.output_dir_relative.clone(),
            download_mode: self.download_mode.clone(),
            quality: self.quality.clone(),
            container: self.container.clone(),
            subtitle_languages: text::clone_texts(&self.subtitle_languages),
            cookie_file_name: text::clone_opt(&self.cookie_file_name),
            raw_args: text::clone_texts(&self.raw_args),
            raw_format_code: text::clone_opt(&self.raw_format_code),
            created_at: self.created_at.clone(),
            state: self.state,
            updated_at: self.updated_at.clone(),
            output_files: text::clone_texts(&self.output_files),
            last_error: text::clone_opt(&self.last_error),
            progress: self.progress.clone(),
            recent_logs: text::clone_texts(&self.recent_logs),
        }
    }
}

// ---------------------------------------------------------------------------
// The queue
// ---------------------------------------------------------------------------

/// The order in which tasks are downloaded.
pub struct QueueState {
    pub task_order: Vec<String>,
    pub updated_at: String,
}

/// What a [`QueueState`] says.
#[verifier::ext_equal]
pub struct QueueView {
    pub task_order: Seq<Seq<char>>,
    pub updated_at: Seq<char>,
}

impl View for QueueState {
    type V = QueueView;

    open spec fn view(&self) -> QueueView {
        QueueView { task_order: text::texts(self.task_order@), updated_at: self.updated_at@ }
    }
}

impl Clone for QueueState {
    fn clone(&self) -> (r: Self)
        ensures
            r@ == self@,
    {
        QueueState {
            task_order: text::clone_texts(&self.task_order),
            updated_at: self.updated_at.clone(),
        }
    }
}

impl QueueState {
    /// A queue with no tasks, last changed now.
    pub fn empty() -> (r: Self)
        ensures
            r@.task_order == Seq::<Seq<char>>::empty(),
            clock::timestamp(r@.updated_at),
    {
        let r = QueueState { task_order: Vec::new(), updated_at: clock::now_rfc3339() };
        assert(r@.task_order =~= Seq::<Seq<char>>::empty());
        r
    }
}

// ---------------------------------------------------------------------------
// Names of tasks
// ---------------------------------------------------------------------------

/// A whole number in decimal, with its sign where it is negative.
pub open spec fn signed(n: int) -> Seq<char> {
    if n < 0 {
        "-"@ + text::decimal((-n) as nat)
    } else {
        text::decimal(n as nat)
    }
}

/// The name of the task that was number `count` of its process, made at `millis`.
pub open spec fn task_name(millis: int, count: nat) -> Seq<char> {
    "task_"@ + signed(millis) + "_"@ + text::decimal(count)
}

/// The name of the task that was number `count` of its process, made at `millis`.
pub fn make_task_id(millis: i64, count: u64) -> (r: String)
    ensures
        r@ == task_name(millis as int, count as nat),
{
    let mut id = "task_".to_owned();
    if millis < 0 {
        id.append("-");
        let size: u64 = if millis == i64::MIN {
            0x8000_0000_0000_0000
        } else {
            (-millis) as u64
        };
        id.append(text::to_decimal(size).as_str());
    } else {
        id.append(text::to_decimal(millis as u64).as_str());
    }
    id.append("_");
    id.append(text::to_decimal(count).as_str());
    assert(id@ =~= task_name(millis as int, count as nat));
    id
}

/// The numbers of the tasks that one process makes.
pub struct TaskIds {
    next: u64,
}

impl View for TaskIds {
    type V = u64;

    closed spec fn view(&self) -> u64 {
        self.next
    }
}

/// The number after `n`, counting round at the end of the range.
pub open spec fn number_after(n: u64) -> u64 {
    if n == u64::MAX {
        0
    } else {
        (n + 1) as u64
    }
}

/// The number `k` places after `n`, counting round at the end of the range.
pub open spec fn number_plus(n: u64, k: nat) -> u64 {
    if n + k <= u64::MAX {
        (n + k) as u64
    } else {
        (n + k - 0x1_0000_0000_0000_0000) as u64
    }
}

impl TaskIds {
    /// Numbers from one on.
    pub fn new() -> (r: Self)
        ensures
            r@ == 1,
    {
        TaskIds { next: 1 }
    }

    /// A name for a new task that is made at `millis`: the time, and the next number.
    pub fn task_id_at(&mut self, millis: i64) -> (r: String)
        ensures
            r@ == task_name(millis as int, old(self)@ as nat),
            final(self)@ == number_after(old(self)@),
    {
        let count = self.next;
        self.next = if count == u64::MAX {
            0
        } else {
            count + 1
        };
        make_task_id(millis, count)
    }

    /// A name for a new task: the present time, and the next number.
    pub fn new_task_id(&mut self) -> (r: String)
        ensures
            exists|millis: int| r@ == #[trigger] task_name(millis, old(self)@ as nat),
            final(self)@ == number_after(old(self)@),
    {
        let millis = clock::now_millis();
        let id = self.task_id_at(millis);
        assert(id@ == task_name(millis as int, old(self)@ as nat));
        id
    }
}

/// Names of tasks with different numbers differ, whenever they were made.
pub proof fn task_names_differ(millis1: int, count1: nat, millis2: int, count2: nat)
    requires
        count1 != count2,
    ensures
        task_name(millis1, count1) != task_name(millis2, count2),
{
    reveal_strlit("_");
    text::decimal_reads_back(count1);
    text::decimal_reads_back(count2);
    let head1 = "task_"@ + signed(millis1);
    let head2 = "task_"@ + signed(millis2);
    assert(task_name(millis1, count1) =~= head1.push('_') + text::decimal(count1));
    assert(task_name(millis2, count2) =~= head2.push('_') + text::decimal(count2));
    if task_name(millis1, count1) == task_name(millis2, count2) {
        text::lemma_tail_digits(head1, text::decimal(count1), head2, text::decimal(count2), '_');
    }
}

}
