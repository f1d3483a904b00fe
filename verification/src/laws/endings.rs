//! What is promised of the end of a download.
use vstd::prelude::*;

use crate::downloads::finish;
use crate::downloads::finish::{FoundView, OutcomeView};
use crate::tasks::record::{ProgressView, RecordView, RuntimeView, TaskState};
use crate::text;

verus! {

/// The file belongs to the video and is finished: its name holds the id of the video, where that
/// is known, and is not that of a part, of a note of the downloader, or of a description.
pub open spec fn belongs(found: FoundView, video_id: Option<Seq<char>>) -> bool {
    &&& found.is_file
    &&& video_id matches Some(id) ==> text::occurs(found.name, id)
    &&& !text::ends(found.name, ".part"@)
    &&& !text::ends(found.name, ".ytdl"@)
    &&& !text::ends(found.name, ".info.json"@)
}

/// Where a file is noted: below the download root, with slashes, or else in full.
pub open spec fn noted_at(found: FoundView) -> Seq<char> {
    match found.below_root {
        Some(path) => text::replaced(path, '\\', '/'),
        None => found.full,
    }
}

proof fn lemma_files(found: Seq<FoundView>, video_id: Option<Seq<char>>)
    ensures
        finish::finished_files(found, video_id) == found.filter(
            |f: FoundView| belongs(f, video_id),
        ).map_values(|f: FoundView| noted_at(f)),
    decreases found.len(),
{
    reveal(Seq::filter);
    let pred = |f: FoundView| belongs(f, video_id);
    let place = |f: FoundView| noted_at(f);
    if found.len() > 0 {
        let head = found.drop_last();
        lemma_files(head, video_id);
        if belongs(found.last(), video_id) {
            assert(head.filter(pred).push(found.last()).map_values(place) =~= head.filter(
                pred,
            ).map_values(place).push(place(found.last())));
        }
    }
    assert(finish::finished_files(found, video_id) =~= found.filter(pred).map_values(place));
}

/// After a success the files of the task are those of the directory that belong to the video and
/// are finished, of whatever kind, in the order in which they were found: every such file is there
/// and no other.
pub proof fn every_finished_file_is_noted(
    task: RecordView,
    runtime: Option<RuntimeView>,
    found: Seq<FoundView>,
    now: Seq<char>,
    k: int,
    path: Seq<char>,
)
    ensures
        ({
            let files = finish::finished(task, runtime, OutcomeView::Success(found), now).task.output_files;
            &&& files == found.filter(|f: FoundView| belongs(f, task.video_id)).map_values(
                |f: FoundView| noted_at(f),
            )
            &&& 0 <= k < found.len() && belongs(found[k], task.video_id) ==> files.contains(
                noted_at(found[k]),
            )
            &&& files.contains(path) ==> exists|i: int|
                0 <= i < found.len() && belongs(#[trigger] found[i], task.video_id) && noted_at(
                    found[i],
                ) == path
        }),
{
    lemma_files(found, task.video_id);
    let pred = |f: FoundView| belongs(f, task.video_id);
    let place = |f: FoundView| noted_at(f);
    let kept = found.filter(pred);
    let files = kept.map_values(place);
    if 0 <= k < found.len() && belongs(found[k], task.video_id) {
        found.lemma_filter_contains(pred, k);
        assert(kept.contains(found[k]));
        let m = choose|m: int| 0 <= m < kept.len() && kept[m] == found[k];
        assert(files[m] == noted_at(found[k]));
    }
    if files.contains(path) {
        let m = choose|m: int| 0 <= m < files.len() && files[m] == path;
        found.lemma_filter_pred(pred, m);
        assert(kept.contains(kept[m]));
        found.lemma_filter_contains_rev(pred, kept[m]);
        let i = choose|i: int| 0 <= i < found.len() && found[i] == kept[m];
        assert(belongs(found[i], task.video_id));
    }
}

/// One of the files holds subtitles in this language: its name has the language between two dots,
/// and ends as files of subtitles do.
pub open spec fn in_language(files: Seq<Seq<char>>, language: Seq<char>) -> bool {
    exists|i: int|
        {
            let name = text::lowered(#[trigger] files[i]);
            &&& 0 <= i < files.len()
            &&& text::occurs(name, "."@ + text::lowered(language) + "."@)
            &&& text::ends(name, ".vtt"@) || text::ends(name, ".srt"@) || text::ends(
                name,
                ".ass"@,
            ) || text::ends(name, ".ssa"@) || text::ends(name, ".ttml"@) || text::ends(
                name,
                ".lrc"@,
            ) || text::ends(name, ".srv3"@) || text::ends(name, ".json3"@)
        }
}

proof fn lemma_in_language(files: Seq<Seq<char>>, language: Seq<char>)
    ensures
        finish::subtitled(files, language) <==> in_language(files, language),
{
    reveal_strlit(".");
    assert("."@ =~= seq!['.']);
    let mark = "."@ + text::lowered(language) + "."@;
    assert(finish::language_mark(language) =~= mark);
    if in_language(files, language) {
        let i = choose|i: int|
            {
                let name = text::lowered(#[trigger] files[i]);
                &&& 0 <= i < files.len()
                &&& text::occurs(name, "."@ + text::lowered(language) + "."@)
                &&& text::ends(name, ".vtt"@) || text::ends(name, ".srt"@) || text::ends(
                    name,
                    ".ass"@,
                ) || text::ends(name, ".ssa"@) || text::ends(name, ".ttml"@) || text::ends(
                    name,
                    ".lrc"@,
                ) || text::ends(name, ".srv3"@) || text::ends(name, ".json3"@)
            };
        assert(text::occurs(text::lowered(files[i]), finish::language_mark(language)));
    }
    if finish::subtitled(files, language) {
        let i = choose|i: int|
            0 <= i < files.len() && text::occurs(
                text::lowered(#[trigger] files[i]),
                finish::language_mark(language),
            ) && finish::subtitle_file(text::lowered(files[i]));
        assert(text::occurs(text::lowered(files[i]), mark));
    }
}

proof fn lemma_missing(languages: Seq<Seq<char>>, files: Seq<Seq<char>>)
    ensures
        finish::missing_languages(languages, files) == languages.map_values(
            |l: Seq<char>| text::trimmed(l),
        ).filter(|l: Seq<char>| l.len() > 0 && !in_language(files, l)),
    decreases languages.len(),
{
    reveal(Seq::filter);
    let trim = |l: Seq<char>| text::trimmed(l);
    let pred = |l: Seq<char>| l.len() > 0 && !in_language(files, l);
    if languages.len() > 0 {
        let head = languages.drop_last();
        lemma_missing(head, files);
        lemma_in_language(files, text::trimmed(languages.last()));
        assert(languages.map_values(trim).drop_last() =~= head.map_values(trim));
    }
    assert(finish::missing_languages(languages, files) =~= languages.map_values(trim).filter(
        pred,
    ));
}

/// A success is reported without a message exactly when every language that was asked for has its
/// subtitles among the files; else the message names those that have none, in order, and it is
/// the last line of the log. The task is complete either way, and the download at 100 percent.
pub proof fn missing_subtitles_are_named(
    task: RecordView,
    runtime: Option<RuntimeView>,
    found: Seq<FoundView>,
    now: Seq<char>,
    k: int,
)
    ensures
        ({
            let end = finish::finished(task, runtime, OutcomeView::Success(found), now);
            let wanted = task.subtitle_languages.map_values(|l: Seq<char>| text::trimmed(l));
            let missing = wanted.filter(
                |l: Seq<char>| l.len() > 0 && !in_language(end.task.output_files, l),
            );
            let message = "Some requested subtitles were not downloaded: "@ + text::join(
                missing,
                ", "@,
            )
                + ". This is usually caused by YouTube rate limiting (HTTP 429). Configure a cookies file to improve subtitle success rate."@;
            let before = match runtime {
                Some(state) => state.progress,
                None => ProgressView {
                    percent: "0"@,
                    downloaded_bytes: None,
                    total_bytes: None,
                    speed: None,
                    eta_seconds: None,
                },
            };
            &&& end.task.state == TaskState::Completed && !end.retried && end.runtime is Some
            &&& end.runtime->0.progress == (ProgressView { percent: "100"@, ..before })
            &&& missing.len() == 0 ==> end.task.last_error is None
            &&& missing.len() == 0 && runtime is Some ==> end.runtime->0.recent_logs
                == runtime->0.recent_logs && end.runtime->0.error_hints == runtime->0.error_hints
            &&& missing.len() > 0 ==> end.task.last_error == Some(message)
                && end.runtime->0.recent_logs.last() == "[warning] "@ + message
            &&& 0 <= k < wanted.len() && wanted[k].len() > 0 && !in_language(
                end.task.output_files,
                wanted[k],
            ) ==> missing.contains(wanted[k])
            &&& 0 <= k < wanted.len() && in_language(end.task.output_files, wanted[k])
                ==> !missing.contains(wanted[k])
        }),
{
    let end = finish::finished(task, runtime, OutcomeView::Success(found), now);
    let files = end.task.output_files;
    let wanted = task.subtitle_languages.map_values(|l: Seq<char>| text::trimmed(l));
    let pred = |l: Seq<char>| l.len() > 0 && !in_language(files, l);
    lemma_missing(task.subtitle_languages, files);
    let missing = wanted.filter(pred);
    if 0 <= k < wanted.len() {
        if pred(wanted[k]) {
            wanted.lemma_filter_contains(pred, k);
        }
        if missing.contains(wanted[k]) {
            let m = choose|m: int| 0 <= m < missing.len() && missing[m] == wanted[k];
            wanted.lemma_filter_pred(pred, m);
        }
    }
}

/// A file of subtitles that was downloaded counts: where a finished file of the video has the
/// language in its name, the language is not missed.
pub proof fn downloaded_subtitles_are_not_missed(
    task: RecordView,
    runtime: Option<RuntimeView>,
    found: Seq<FoundView>,
    now: Seq<char>,
    k: int,
    language: Seq<char>,
)
    requires
        0 <= k < found.len(),
        belongs(found[k], task.video_id),
        text::occurs(text::lowered(noted_at(found[k])), "."@ + text::lowered(language) + "."@),
        text::ends(text::lowered(noted_at(found[k])), ".vtt"@) || text::ends(
            text::lowered(noted_at(found[k])),
            ".srt"@,
        ),
        forall|i: int|
            0 <= i < task.subtitle_languages.len() ==> text::trimmed(
                #[trigger] task.subtitle_languages[i],
            ) == language,
    ensures
        finish::finished(
            task,
            runtime,
            OutcomeView::Success(found),
            now,
        ).task.last_error is None,
{
    let end = finish::finished(task, runtime, OutcomeView::Success(found), now);
    let files = end.task.output_files;
    every_finished_file_is_noted(task, runtime, found, now, k, Seq::empty());
    let place = noted_at(found[k]);
    let m = choose|m: int| 0 <= m < files.len() && files[m] == place;
    assert(text::occurs(text::lowered(files[m]), "."@ + text::lowered(language) + "."@));
    assert(in_language(files, language));
    missing_subtitles_are_named(task, runtime, found, now, 0);
    let wanted = task.subtitle_languages.map_values(|l: Seq<char>| text::trimmed(l));
    let pred = |l: Seq<char>| l.len() > 0 && !in_language(files, l);
    let missing = wanted.filter(pred);
    if missing.len() > 0 {
        wanted.lemma_filter_pred(pred, 0);
        assert(missing.contains(missing[0]));
        wanted.lemma_filter_contains_rev(pred, missing[0]);
        let i = choose|i: int| 0 <= i < wanted.len() && wanted[i] == missing[0];
        assert(text::trimmed(task.subtitle_languages[i]) == language);
    }
}

/// A value that was given and is not blank.
pub open spec fn given(value: Option<Seq<char>>) -> bool {
    value matches Some(s) && !text::blank(s)
}

/// What the last line of a download that spoke of an error said.
pub open spec fn complaint(runtime: Option<RuntimeView>) -> Option<Seq<char>> {
    match runtime {
        Some(state) if state.error_hints.len() > 0 => Some(state.error_hints.last()),
        _ => None,
    }
}

/// A failure pauses a task that was being stopped. A video from YouTube that was asked for with
/// cookies and was not to be had in the format is queued again, without the cookies. Every other
/// task has failed, and its message is what the downloader complained of last, or advice where the
/// cookies of a browser could not be read, or else the status of the program.
pub proof fn a_failure_is_explained(
    task: RecordView,
    runtime: Option<RuntimeView>,
    status: Seq<char>,
    now: Seq<char>,
)
    ensures
        ({
            let end = finish::finished(task, runtime, OutcomeView::Failure(status), now);
            let youtube = (task.extractor matches Some(name) && text::occurs(
                text::lowered(name),
                "youtube"@,
            )) || text::occurs(task.source_url, "youtube.com"@) || text::occurs(
                task.source_url,
                "youtu.be"@,
            );
            let said = complaint(runtime);
            let unavailable = said is Some && text::occurs(
                text::lowered(said->0),
                "requested format is not available"@,
            );
            let again = (given(task.cookie_file_name) || given(task.cookie_browser)) && youtube
                && unavailable;
            let locked = said is Some && (text::occurs(
                text::lowered(said->0),
                "could not copy chrome cookie database"@,
            ) || (text::occurs(text::lowered(said->0), "permission denied"@) && text::occurs(
                text::lowered(said->0),
                "network\\cookies"@,
            )));
            &&& task.state == TaskState::Stopping ==> end.task == (RecordView {
                state: TaskState::Paused,
                last_error: None,
                updated_at: now,
                ..task
            }) && end.runtime == runtime && !end.retried
            &&& task.state != TaskState::Stopping && again ==> end.task == (RecordView {
                state: TaskState::Queued,
                cookie_file_name: None,
                cookie_browser: None,
                cookie_browser_profile: None,
                last_error: None,
                updated_at: now,
                ..task
            }) && end.retried && end.runtime == Some(
                RuntimeView {
                    progress: ProgressView {
                        percent: "0"@,
                        downloaded_bytes: None,
                        total_bytes: None,
                        speed: None,
                        eta_seconds: None,
                    },
                    recent_logs: seq![
                        "[warning] Authenticated YouTube format selection failed; retrying once without cookies."@,
                    ],
                    error_hints: end.runtime->0.error_hints,
                },
            )
            &&& task.state != TaskState::Stopping && !again ==> end.task == (RecordView {
                state: TaskState::Failed,
                last_error: end.task.last_error,
                updated_at: now,
                ..task
            }) && end.task.last_error is Some && end.runtime == runtime && !end.retried
            &&& task.state != TaskState::Stopping && !again && said is Some && !locked
                ==> end.task.last_error == said
            &&& task.state != TaskState::Stopping && !again && said is Some && locked
                ==> end.task.last_error == Some(
                "Windows blocked access to the Chromium cookie database. Easiest fixes: fully close Chrome/Edge/Brave and retry; or switch cookie source to Firefox; or fall back to a manually exported cookies.txt file."@,
            )
            &&& task.state != TaskState::Stopping && said is None ==> end.task.last_error == Some(
                "yt-dlp exited with status "@ + status,
            )
        }),
{
    let line =
        "[warning] Authenticated YouTube format selection failed; retrying once without cookies."@;
    assert(Seq::<Seq<char>>::empty().push(line) =~= seq![line]);
}

/// A download that could not be waited for has failed, with the reason for its message.
pub proof fn a_lost_download_has_failed(
    task: RecordView,
    runtime: Option<RuntimeView>,
    reason: Seq<char>,
    now: Seq<char>,
)
    ensures
        ({
            let end = finish::finished(task, runtime, OutcomeView::Lost(reason), now);
            end.task == (RecordView {
                state: TaskState::Failed,
                last_error: Some(reason),
                updated_at: now,
                ..task
            }) && end.runtime == runtime && !end.retried
        }),
{
}

/// The name under which a file is remembered is what stands after the last slash of its path that
/// something follows; on Windows a backslash is a slash.
pub proof fn a_file_goes_by_its_last_name(folder: Seq<char>, name: Seq<char>, windows: bool)
    requires
        name.len() > 0,
        name != "."@,
        name != ".."@,
        !name.contains('/'),
        windows ==> !name.contains('\\'),
    ensures
        finish::file_name(name, windows) == Some(name),
        finish::file_name(folder.push('/') + name, windows) == Some(name),
        windows ==> finish::file_name(folder.push('\\') + name, windows) == Some(name),
{
    reveal_strlit(".");
    reveal_strlit("..");
    assert("."@ =~= seq!['.']);
    assert(".."@ =~= seq!['.', '.']);
    let plain = text::replaced(name, '\\', '/');
    if windows {
        assert forall|i: int| 0 <= i < name.len() implies plain[i] == name[i] by {
            assert(name.contains(name[i]));
        }
        assert(plain =~= name);
        let slashed = text::replaced(folder, '\\', '/');
        let other = folder.push('\\') + name;
        assert(text::replaced(other, '\\', '/') =~= slashed.push('/') + name);
        assert(text::replaced(folder.push('/') + name, '\\', '/') =~= slashed.push('/') + name);
        lemma_last_piece(slashed, name);
    } else {
        lemma_last_piece(folder, name);
    }
    lemma_one_piece(name);
}

proof fn lemma_one_piece(name: Seq<char>)
    requires
        !name.contains('/'),
        name.len() > 0,
        name != seq!['.'],
    ensures
        crate::paths::counting(text::split_on(name, '/')) == seq![name],
{
    text::lemma_upto(name, '/');
    if text::upto(name, '/') < name.len() {
        assert(name.contains(name[text::upto(name, '/')]));
    }
    assert(text::split_on(name, '/') =~= seq![name]);
    assert(seq![name].drop_last() =~= Seq::<Seq<char>>::empty());
    assert(crate::paths::counting(Seq::<Seq<char>>::empty()) =~= Seq::<Seq<char>>::empty());
    assert(crate::paths::counting(seq![name]) =~= seq![name]);
}

proof fn lemma_last_piece(folder: Seq<char>, name: Seq<char>)
    requires
        !name.contains('/'),
        name.len() > 0,
        name != seq!['.'],
    ensures
        ({
            let kept = crate::paths::counting(text::split_on(folder.push('/') + name, '/'));
            kept.len() > 0 && kept.last() == name
        }),
    decreases folder.len(),
{
    let s = folder.push('/') + name;
    text::lemma_upto(s, '/');
    let n = text::upto(s, '/');
    assert(s[folder.len() as int] == '/');
    assert(n <= folder.len());
    let rest = s.skip(n + 1);
    if n == folder.len() {
        assert(rest =~= name);
        lemma_one_piece(name);
        lemma_counting_front(s.take(n), text::split_on(rest, '/'));
    } else {
        let less = folder.skip(n + 1);
        assert(rest =~= less.push('/') + name);
        lemma_last_piece(less, name);
        lemma_counting_front(s.take(n), text::split_on(rest, '/'));
    }
}

proof fn lemma_counting_front(first: Seq<char>, rest: Seq<Seq<char>>)
    requires
        crate::paths::counting(rest).len() > 0,
    ensures
        crate::paths::counting(seq![first] + rest).len() > 0,
        crate::paths::counting(seq![first] + rest).last() == crate::paths::counting(rest).last(),
    decreases rest.len(),
{
    let all = seq![first] + rest;
    assert(all.drop_last() =~= seq![first] + rest.drop_last());
    assert(all.last() == rest.last());
    if !crate::paths::counts(rest.last()) {
        lemma_counting_front(first, rest.drop_last());
    }
}

/// Every file that was noted is remembered by its name, and nothing else is.
pub proof fn noted_files_are_remembered(list: Seq<Seq<char>>, windows: bool, name: Seq<char>)
    ensures
        finish::file_names(list, windows).contains(name) <==> exists|i: int|
            0 <= i < list.len() && finish::file_name(#[trigger] list[i], windows) == Some(name),
    decreases list.len(),
{
    let all = finish::file_names(list, windows);
    if list.len() > 0 {
        let front = list.drop_last();
        let rest = finish::file_names(front, windows);
        noted_files_are_remembered(front, windows, name);
        if rest.contains(name) {
            let i = choose|i: int|
                0 <= i < front.len() && finish::file_name(#[trigger] front[i], windows) == Some(
                    name,
                );
            assert(finish::file_name(list[i], windows) == Some(name));
            let k = rest.index_of(name);
            assert(all[k] == name);
        }
        if finish::file_name(list.last(), windows) == Some(name) {
            assert(list[list.len() - 1] == list.last());
            assert(all[rest.len() as int] == name);
        }
        if all.contains(name) {
            let k = all.index_of(name);
            if k < rest.len() {
                assert(rest[k] == name);
            }
        }
        if exists|i: int|
            0 <= i < list.len() && finish::file_name(#[trigger] list[i], windows) == Some(name) {
            let i = choose|i: int|
                0 <= i < list.len() && finish::file_name(#[trigger] list[i], windows) == Some(name);
            if i < front.len() {
                assert(finish::file_name(front[i], windows) == Some(name));
            }
        }
    }
}

}
