//! What becomes of a task when its download has ended.
use vstd::prelude::*;

use crate::cookies;
use crate::library::names;
use crate::library::names::FilenameSet;
use crate::paths;
use crate::tasks::record;
use crate::tasks::record::{ProgressView, RecordView, RuntimeState, RuntimeView, TaskRecord,
    TaskState};
use crate::tasks::resolve;
use crate::tasks::store::{StoreError, TaskStore, WriteView};
use crate::text;

verus! {

// ---------------------------------------------------------------------------
// The files of a download
// ---------------------------------------------------------------------------

/// Something that was found in the directory of a task.
pub struct FoundFile {
    pub name: String,
    pub is_file: bool,
    /// Where it is below the download root, where that can be told.
    pub below_root: Option<String>,
    /// Where it is on the machine.
    pub full: String,
}

/// What a [`FoundFile`] says.
#[verifier::ext_equal]
pub struct FoundView {
    pub name: Seq<char>,
    pub is_file: bool,
    pub below_root: Option<Seq<char>>,
    pub full: Seq<char>,
}

impl View for FoundFile {
    type V = FoundView;

    open spec fn view(&self) -> FoundView {
        FoundView {
            name: self.name@,
            is_file: self.is_file,
            below_root: text::text_opt(self.below_root),
            full: self.full@,
        }
    }
}

/// What each of them says.
pub open spec fn found_view(found: Seq<FoundFile>) -> Seq<FoundView> {
    Seq::new(found.len(), |i: int| found[i]@)
}

/// A file of this name belongs to the video and is finished. Where the id of the video is not
/// known, every file might.
pub open spec fn finished_name(name: Seq<char>, video_id: Option<Seq<char>>) -> bool {
    (video_id is None || text::occurs(name, video_id->0)) && !text::ends(name, ".part"@)
        && !text::ends(name, ".ytdl"@) && !text::ends(name, ".info.json"@)
}

/// How the place of a file is kept.
pub open spec fn kept_place(found: FoundView) -> Seq<char> {
    match found.below_root {
        Some(path) => text::replaced(path, '\\', '/'),
        None => found.full,
    }
}

/// The finished files of a download among what was found.
pub open spec fn finished_files(
    found: Seq<FoundView>,
    video_id: Option<Seq<char>>,
) -> Seq<Seq<char>>
    decreases found.len(),
{
    if found.len() == 0 {
        Seq::empty()
    } else {
        let rest = finished_files(found.drop_last(), video_id);
        if found.last().is_file && finished_name(found.last().name, video_id) {
            rest.push(kept_place(found.last()))
        } else {
            rest
        }
    }
}

fn is_finished_name(name: &str, video_id: Option<&str>) -> (r: bool)
    ensures
        r == finished_name(name@, text::str_opt(video_id)),
{
    if let Some(id) = video_id {
        if !text::contains(name, id) {
            return false;
        }
    }
    !text::ends_with(name, ".part") && !text::ends_with(name, ".ytdl") && !text::ends_with(
        name,
        ".info.json",
    )
}

/// The finished files of the download of a task, among what was found in its directory.
pub fn collect_output_files(found: &Vec<FoundFile>, task: &TaskRecord) -> (r: Vec<String>)
    ensures
        text::texts(r@) == finished_files(found_view(found@), task@.video_id),
{
    let ghost all = found_view(found@);
    let ghost id = task@.video_id;
    let mut files: Vec<String> = Vec::new();
    let mut i: usize = 0;
    assert(all.take(0) =~= Seq::<FoundView>::empty());
    assert(text::texts(files@) =~= finished_files(all.take(0), id));
    while i < found.len()
        invariant
            i <= found.len(),
            all == found_view(found@),
            id == task@.video_id,
            text::texts(files@) == finished_files(all.take(i as int), id),
        decreases found.len() - i,
    {
        let ghost before = files@;
        assert(all.take(i + 1).drop_last() =~= all.take(i as int));
        assert(all.take(i + 1).last() == found@[i as int]@);
        if found[i].is_file && is_finished_name(
            found[i].name.as_str(),
            text::borrow_opt(&task.video_id),
        ) {
            let place = match &found[i].below_root {
                Some(path) => text::replace_char(path.as_str(), '\\', '/'),
                None => found[i].full.clone(),
            };
            files.push(place);
            assert(text::texts(files@) =~= text::texts(before).push(kept_place(all[i as int])));
        }
        i = i + 1;
    }
    assert(all.take(i as int) =~= all);
    files
}

// ---------------------------------------------------------------------------
// Subtitles that are missing
// ---------------------------------------------------------------------------

/// A file with subtitles, by its name in lower case.
pub open spec fn subtitle_file(name: Seq<char>) -> bool {
    text::ends(name, ".vtt"@) || text::ends(name, ".srt"@) || text::ends(name, ".ass"@)
        || text::ends(name, ".ssa"@) || text::ends(name, ".ttml"@) || text::ends(name, ".lrc"@)
        || text::ends(name, ".srv3"@) || text::ends(name, ".json3"@)
}

/// How a language stands in the name of a file.
pub open spec fn language_mark(language: Seq<char>) -> Seq<char> {
    seq!['.'] + text::lowered(language) + seq!['.']
}

/// One of the files has subtitles in this language.
pub open spec fn subtitled(files: Seq<Seq<char>>, language: Seq<char>) -> bool {
    exists|i: int|
        0 <= i < files.len() && text::occurs(
            text::lowered(#[trigger] files[i]),
            language_mark(language),
        ) && subtitle_file(text::lowered(files[i]))
}

/// The languages that were asked for and that no file has subtitles in.
pub open spec fn missing_languages(
    languages: Seq<Seq<char>>,
    files: Seq<Seq<char>>,
) -> Seq<Seq<char>>
    decreases languages.len(),
{
    if languages.len() == 0 {
        languages
    } else {
        let rest = missing_languages(languages.drop_last(), files);
        let language = text::trimmed(languages.last());
        if language.len() == 0 || subtitled(files, language) {
            rest
        } else {
            rest.push(language)
        }
    }
}

fn is_subtitle_file(name: &str) -> (r: bool)
    ensures
        r == subtitle_file(name@),
{
    text::ends_with(name, ".vtt") || text::ends_with(name, ".srt") || text::ends_with(name, ".ass")
        || text::ends_with(name, ".ssa") || text::ends_with(name, ".ttml") || text::ends_with(
        name,
        ".lrc",
    ) || text::ends_with(name, ".srv3") || text::ends_with(name, ".json3")
}

fn is_subtitled(files: &Vec<String>, language: &str) -> (r: bool)
    ensures
        r == subtitled(text::texts(files@), language@),
{
    let ghost all = text::texts(files@);
    let mut mark = ".".to_owned();
    mark.append(text::to_lower(language).as_str());
    mark.append(".");
    proof {
        reveal_strlit(".");
        assert(mark@ =~= language_mark(language@));
    }
    let mut i: usize = 0;
    while i < files.len()
        invariant
            i <= files.len(),
            all == text::texts(files@),
            mark@ == language_mark(language@),
            forall|j: int|
                0 <= j < i ==> !(text::occurs(
                    text::lowered(#[trigger] all[j]),
                    language_mark(language@),
                ) && subtitle_file(text::lowered(all[j]))),
        decreases files.len() - i,
    {
        assert(all[i as int] == files@[i as int]@);
        let name = text::to_lower(files[i].as_str());
        if text::contains(name.as_str(), mark.as_str()) && is_subtitle_file(name.as_str()) {
            return true;
        }
        i = i + 1;
    }
    false
}

/// The languages that were asked for and that no file of the task has subtitles in.
pub fn missing_subtitle_languages(task: &TaskRecord) -> (r: Vec<String>)
    ensures
        text::texts(r@) == missing_languages(task@.subtitle_languages, task@.output_files),
{
    let ghost all = task@.subtitle_languages;
    let ghost files = task@.output_files;
    let mut missing: Vec<String> = Vec::new();
    let mut i: usize = 0;
    assert(all.take(0) =~= Seq::<Seq<char>>::empty());
    assert(text::texts(missing@) =~= missing_languages(all.take(0), files));
    while i < task.subtitle_languages.len()
        invariant
            i <= task.subtitle_languages.len(),
            all == text::texts(task.subtitle_languages@),
            files == text::texts(task.output_files@),
            text::texts(missing@) == missing_languages(all.take(i as int), files),
        decreases task.subtitle_languages.len() - i,
    {
        let ghost before = missing@;
        assert(all.take(i + 1).drop_last() =~= all.take(i as int));
        assert(all.take(i + 1).last() == task.subtitle_languages@[i as int]@);
        let language = text::trim(task.subtitle_languages[i].as_str());
        if !language.as_str().is_empty() && !is_subtitled(&task.output_files, language.as_str()) {
            missing.push(language);
            assert(text::texts(missing@) =~= text::texts(before).push(language@));
        }
        i = i + 1;
    }
    assert(all.take(i as int) =~= all);
    missing
}

/// What a user is told of subtitles that are missing.
pub open spec fn subtitle_warning(languages: Seq<Seq<char>>) -> Seq<char> {
    "Some requested subtitles were not downloaded: "@ + text::join(languages, ", "@)
        + ". This is usually caused by YouTube rate limiting (HTTP 429). Configure a cookies file to improve subtitle success rate."@
}

fn warn_of_subtitles(languages: &Vec<String>) -> (r: String)
    ensures
        r@ == subtitle_warning(text::texts(languages@)),
{
    let mut message = "Some requested subtitles were not downloaded: ".to_owned();
    message.append(text::join_texts(languages, ", ").as_str());
    message.append(
        ". This is usually caused by YouTube rate limiting (HTTP 429). Configure a cookies file to improve subtitle success rate.",
    );
    message
}

// ---------------------------------------------------------------------------
// Another try without cookies
// ---------------------------------------------------------------------------

/// A value that says something.
pub open spec fn says_something(value: Option<Seq<char>>) -> bool {
    value is Some && !text::blank(value->0)
}

/// A video from YouTube.
pub open spec fn from_youtube(task: RecordView) -> bool {
    resolve::for_youtube(task.extractor) || text::occurs(task.source_url, "youtube.com"@)
        || text::occurs(task.source_url, "youtu.be"@)
}

/// The download failed because of the cookies: a video from YouTube was not offered in the
/// format that was asked for to the one who was logged in.
pub open spec fn worth_a_retry(task: RecordView, hint: Option<Seq<char>>) -> bool {
    (says_something(task.cookie_file_name) || says_something(task.cookie_browser)) && from_youtube(
        task,
    ) && hint is Some && text::occurs(
        text::lowered(hint->0),
        "requested format is not available"@,
    )
}

fn does_say_something(value: &Option<String>) -> (r: bool)
    ensures
        r == says_something(text::text_opt(*value)),
{
    match value {
        Some(s) => !text::is_blank(s.as_str()),
        None => false,
    }
}

/// Whether the download is worth another try without cookies.
pub fn should_retry_youtube_without_cookies(task: &TaskRecord, last_hint: Option<&str>) -> (r: bool)
    ensures
        r == worth_a_retry(task@, text::str_opt(last_hint)),
{
    if !does_say_something(&task.cookie_file_name) && !does_say_something(&task.cookie_browser) {
        return false;
    }
    let youtube = resolve::is_for_youtube(text::borrow_opt(&task.extractor)) || text::contains(
        task.source_url.as_str(),
        "youtube.com",
    ) || text::contains(task.source_url.as_str(), "youtu.be");
    if !youtube {
        return false;
    }
    match last_hint {
        Some(hint) => text::contains(
            text::to_lower(hint).as_str(),
            "requested format is not available",
        ),
        None => false,
    }
}

// ---------------------------------------------------------------------------
// The end of a download
// ---------------------------------------------------------------------------

/// How a download has ended.
pub enum Outcome {
    /// The program succeeded, and this is in the directory of the task.
    Success(Vec<FoundFile>),
    /// The program failed with this status.
    Failure(String),
    /// It could not be waited for, for this reason.
    Lost(String),
}

/// What an [`Outcome`] says.
#[verifier::ext_equal]
pub enum OutcomeView {
    Success(Seq<FoundView>),
    Failure(Seq<char>),
    Lost(Seq<char>),
}

impl View for Outcome {
    type V = OutcomeView;

    open spec fn view(&self) -> OutcomeView {
        match self {
            Outcome::Success(found) => OutcomeView::Success(found_view(found@)),
            Outcome::Failure(status) => OutcomeView::Failure(status@),
            Outcome::Lost(message) => OutcomeView::Lost(message@),
        }
    }
}

/// What a task is after its download, what is known of the download, and whether it is to be
/// tried again.
pub struct Finish {
    pub task: TaskRecord,
    pub runtime: Option<RuntimeState>,
    pub retried: bool,
}

/// What a [`Finish`] says.
#[verifier::ext_equal]
pub struct FinishView {
    pub task: RecordView,
    pub runtime: Option<RuntimeView>,
    pub retried: bool,
}

/// What is known of a download, if anything is.
pub open spec fn runtime_opt(runtime: Option<RuntimeState>) -> Option<RuntimeView> {
    match runtime {
        Some(state) => Some(state@),
        None => None,
    }
}

impl View for Finish {
    type V = FinishView;

    open spec fn view(&self) -> FinishView {
        FinishView {
            task: self.task@,
            runtime: runtime_opt(self.runtime),
            retried: self.retried,
        }
    }
}

/// What is known of a download, to begin with where nothing is.
pub open spec fn runtime_or_none(runtime: Option<RuntimeView>) -> RuntimeView {
    match runtime {
        Some(state) => state,
        None => RuntimeView::none(),
    }
}

/// What is known of a download that has come to its end.
pub open spec fn completed_runtime(
    runtime: Option<RuntimeView>,
    missing: Seq<Seq<char>>,
) -> RuntimeView {
    let before = runtime_or_none(runtime);
    let full = RuntimeView {
        progress: ProgressView { percent: "100"@, ..before.progress },
        ..before
    };
    if missing.len() == 0 {
        full
    } else {
        full.logged("[warning] "@ + subtitle_warning(missing))
    }
}

/// The line in the log that tells of another try.
pub open spec fn retry_line() -> Seq<char> {
    "[warning] Authenticated YouTube format selection failed; retrying once without cookies."@
}

/// The last line that spoke of an error.
pub open spec fn last_hint(runtime: Option<RuntimeView>) -> Option<Seq<char>> {
    match runtime {
        Some(state) => if state.error_hints.len() > 0 {
            Some(state.error_hints.last())
        } else {
            None
        },
        None => None,
    }
}

/// What a user is told of a download that failed.
pub open spec fn failure_message(hint: Option<Seq<char>>, status: Seq<char>) -> Seq<char> {
    match hint {
        Some(h) => if cookies::database_blocked(h) {
            cookies::database_advice()
        } else {
            h
        },
        None => "yt-dlp exited with status "@ + status,
    }
}

/// What becomes of a task when its download has ended.
pub open spec fn finished(
    task: RecordView,
    runtime: Option<RuntimeView>,
    outcome: OutcomeView,
    now: Seq<char>,
) -> FinishView {
    match outcome {
        OutcomeView::Success(found) => {
            let files = finished_files(found, task.video_id);
            let missing = missing_languages(task.subtitle_languages, files);
            FinishView {
                task: RecordView {
                    state: TaskState::Completed,
                    output_files: files,
                    last_error: if missing.len() == 0 {
                        None
                    } else {
                        Some(subtitle_warning(missing))
                    },
                    updated_at: now,
                    ..task
                },
                runtime: Some(completed_runtime(runtime, missing)),
                retried: false,
            }
        },
        OutcomeView::Failure(status) => if task.state == TaskState::Stopping {
            FinishView {
                task: RecordView {
                    state: TaskState::Paused,
                    last_error: None,
                    updated_at: now,
                    ..task
                },
                runtime,
                retried: false,
            }
        } else if worth_a_retry(task, last_hint(runtime)) {
            FinishView {
                task: RecordView {
                    cookie_file_name: None,
                    cookie_browser: None,
                    cookie_browser_profile: None,
                    state: TaskState::Queued,
                    last_error: None,
                    updated_at: now,
                    ..task
                },
                runtime: Some(RuntimeView::none().logged(retry_line())),
                retried: true,
            }
        } else {
            FinishView {
                task: RecordView {
                    state: TaskState::Failed,
                    last_error: Some(failure_message(last_hint(runtime), status)),
                    updated_at: now,
                    ..task
                },
                runtime,
                retried: false,
            }
        },
        OutcomeView::Lost(message) => FinishView {
            task: RecordView {
                state: TaskState::Failed,
                last_error: Some(message),
                updated_at: now,
                ..task
            },
            runtime,
            retried: false,
        },
    }
}

fn complete(
    task: TaskRecord,
    runtime: Option<RuntimeState>,
    found: &Vec<FoundFile>,
    now: &str,
) -> (r: Finish)
    requires
        runtime matches Some(state) ==> state.recent_logs@.len() < usize::MAX,
    ensures
        r@ == finished(
            task@,
            runtime_opt(runtime),
            OutcomeView::Success(found_view(found@)),
            now@,
        ),
{
    let mut after = task.clone();
    after.state = TaskState::Completed;
    after.last_error = None;
    after.output_files = collect_output_files(found, &task);
    let missing = missing_subtitle_languages(&after);
    assert(text::texts(missing@).len() == missing@.len());
    let ghost known = runtime_opt(runtime);
    let mut state = match runtime {
        Some(state) => state,
        None => {
            let state = RuntimeState::default();
            assert(state@.recent_logs.len() == state.recent_logs@.len());
            state
        },
    };
    state.progress.percent = "100".to_owned();
    if missing.len() > 0 {
        let message = warn_of_subtitles(&missing);
        state.push_log(text::joined("[warning] ", message.as_str()));
        after.last_error = Some(message);
    }
    after.stamp(now);
    Finish { task: after, runtime: Some(state), retried: false }
}

fn find_last_hint(runtime: &Option<RuntimeState>) -> (r: Option<String>)
    ensures
        text::text_opt(r) == last_hint(runtime_opt(*runtime)),
{
    match runtime {
        Some(state) => {
            let n = state.error_hints.len();
            assert(state@.error_hints.len() == n);
            if n > 0 {
                Some(state.error_hints[n - 1].clone())
            } else {
                None
            }
        },
        None => None,
    }
}

fn fail(task: TaskRecord, runtime: Option<RuntimeState>, status: &str, now: &str) -> (r: Finish)
    ensures
        r@ == finished(task@, runtime_opt(runtime), OutcomeView::Failure(status@), now@),
{
    let mut after = task;
    if after.state == TaskState::Stopping {
        after.state = TaskState::Paused;
        after.last_error = None;
        after.stamp(now);
        return Finish { task: after, runtime, retried: false };
    }
    let hint = find_last_hint(&runtime);
    if should_retry_youtube_without_cookies(&after, text::borrow_opt(&hint)) {
        let mut state = RuntimeState::default();
        assert(state@.recent_logs.len() == state.recent_logs@.len());
        state.push_log(
            "[warning] Authenticated YouTube format selection failed; retrying once without cookies.".to_owned(),
        );
        after.cookie_file_name = None;
        after.cookie_browser = None;
        after.cookie_browser_profile = None;
        after.state = TaskState::Queued;
        after.last_error = None;
        after.stamp(now);
        return Finish { task: after, runtime: Some(state), retried: true };
    }
    let message = match hint {
        Some(h) => match cookies::explain_cookie_error(h.as_str()) {
            Some(advice) => advice,
            None => h,
        },
        None => text::joined("yt-dlp exited with status ", status),
    };
    after.state = TaskState::Failed;
    after.last_error = Some(message);
    after.stamp(now);
    Finish { task: after, runtime, retried: false }
}

/// What becomes of a task when its download has ended, at `now`.
pub fn finish_task(
    task: TaskRecord,
    runtime: Option<RuntimeState>,
    outcome: Outcome,
    now: &str,
) -> (r: Finish)
    requires
        runtime matches Some(state) ==> state.recent_logs@.len() < usize::MAX,
    ensures
        r@ == finished(task@, runtime_opt(runtime), outcome@, now@),
{
    match outcome {
        Outcome::Success(found) => complete(task, runtime, &found, now),
        Outcome::Failure(status) => fail(task, runtime, status.as_str(), now),
        Outcome::Lost(message) => {
            let mut after = task;
            after.state = TaskState::Failed;
            after.last_error = Some(message);
            after.stamp(now);
            Finish { task: after, runtime, retried: false }
        },
    }
}

/// Notes the end of the download of a task, at `now`.
pub fn finalize_download(
    store: &mut TaskStore,
    task_id: &str,
    runtime: Option<RuntimeState>,
    outcome: Outcome,
    now: &str,
) -> (r: Result<Finish, StoreError>)
    requires
        runtime matches Some(state) ==> state.recent_logs@.len() < usize::MAX,
    ensures
        match old(store)@.task(task_id@) {
            Ok(task) => r is Ok && r->Ok_0@ == finished(task, runtime_opt(runtime), outcome@, now@)
                && final(store)@ == old(store)@.apply(WriteView::SaveTask(r->Ok_0@.task)),
            Err(error) => r is Err && r->Err_0@ == error && final(store)@ == old(store)@,
        },
{
    let task = match store.load_task(task_id) {
        Ok(task) => task,
        Err(error) => {
            return Err(error);
        },
    };
    let end = finish_task(task, runtime, outcome, now);
    store.save_task(&end.task);
    Ok(end)
}

// ---------------------------------------------------------------------------
// The names of new files
// ---------------------------------------------------------------------------

/// The name of the file at the end of a path, where it ends in one.
pub open spec fn file_name(path: Seq<char>, windows: bool) -> Option<Seq<char>> {
    let plain = if windows {
        text::replaced(path, '\\', '/')
    } else {
        path
    };
    let pieces = paths::counting(text::split_on(plain, '/'));
    if pieces.len() > 0 && pieces.last() != seq!['.', '.'] {
        Some(pieces.last())
    } else {
        None
    }
}

/// The names of the files at the ends of these paths.
pub open spec fn file_names(list: Seq<Seq<char>>, windows: bool) -> Seq<Seq<char>>
    decreases list.len(),
{
    if list.len() == 0 {
        list
    } else {
        let rest = file_names(list.drop_last(), windows);
        match file_name(list.last(), windows) {
            Some(name) => rest.push(name),
            None => rest,
        }
    }
}

/// The name of the file at the end of a path, where it ends in one.
pub fn file_name_of(path: &str, windows: bool) -> (r: Option<String>)
    ensures
        text::text_opt(r) == file_name(path@, windows),
{
    let plain = if windows {
        text::replace_char(path, '\\', '/')
    } else {
        path.to_owned()
    };
    let pieces = text::split_text(plain.as_str(), '/');
    paths::last_name(&pieces)
}

/// Takes the files of a download into the names of the files in the library.
pub fn remember_files(known: &mut FilenameSet, files: &Vec<String>, windows: bool)
    requires
        old(known).wf(),
    ensures
        final(known).wf(),
        final(known)@ == names::with_names(
            old(known)@,
            file_names(text::texts(files@), windows),
        ),
{
    let ghost all = text::texts(files@);
    let ghost start = known@;
    let mut i: usize = 0;
    assert(all.take(0) =~= Seq::<Seq<char>>::empty());
    while i < files.len()
        invariant
            i <= files.len(),
            all == text::texts(files@),
            known.wf(),
            known@ == names::with_names(start, file_names(all.take(i as int), windows)),
        decreases files.len() - i,
    {
        assert(all.take(i + 1).drop_last() =~= all.take(i as int));
        assert(all.take(i + 1).last() == files@[i as int]@);
        if let Some(name) = file_name_of(files[i].as_str(), windows) {
            let ghost before = file_names(all.take(i as int), windows);
            let ghost after = before.push(name@);
            assert(after.drop_last() =~= before);
            known.insert(name);
        }
        i = i + 1;
    }
    assert(all.take(i as int) =~= all);
}

// ---------------------------------------------------------------------------
// Laws of the end
// ---------------------------------------------------------------------------

/// However a download ends, the task is then in a state that does not run: complete, failed,
/// paused, or, once only, queued again without the cookies. Only its state, its files, its
/// message, the time of the change and, for another try, its cookies differ.
pub proof fn every_download_ends(
    task: RecordView,
    runtime: Option<RuntimeView>,
    outcome: OutcomeView,
    now: Seq<char>,
)
    ensures
        ({
            let end = finished(task, runtime, outcome, now);
            &&& end.task.state == TaskState::Completed <==> outcome is Success
            &&& end.task.state == TaskState::Paused <==> outcome is Failure && task.state
                == TaskState::Stopping
            &&& end.retried <==> end.task.state == TaskState::Queued
            &&& end.retried || end.task.state == TaskState::Completed || end.task.state
                == TaskState::Failed || end.task.state == TaskState::Paused
            &&& end.task.state == TaskState::Failed ==> end.task.last_error is Some
            &&& !end.retried ==> end.task == (RecordView {
                state: end.task.state,
                output_files: end.task.output_files,
                last_error: end.task.last_error,
                updated_at: now,
                ..task
            })
            &&& end.retried ==> end.task == (RecordView {
                cookie_file_name: None,
                cookie_browser: None,
                cookie_browser_profile: None,
                state: TaskState::Queued,
                last_error: None,
                updated_at: now,
                ..task
            })
            &&& outcome !is Success ==> end.task.output_files == task.output_files
        }),
{
}

/// A download is tried again without cookies at most once: after that it has none.
pub proof fn there_is_one_retry(
    task: RecordView,
    runtime: Option<RuntimeView>,
    outcome: OutcomeView,
    now: Seq<char>,
    hint: Option<Seq<char>>,
)
    requires
        finished(task, runtime, outcome, now).retried,
    ensures
        !worth_a_retry(finished(task, runtime, outcome, now).task, hint),
{
}

}
