//! What is promised of the machine that the bridge runs on: its settings, its tools, its files and
//! its clock.
use vstd::prelude::*;

use crate::app;
use crate::clock;
use crate::clock::Moment;
use crate::command::ArgView;
use crate::downloads::partial;
use crate::downloads::partial::{CandidateView, PartialView};
use crate::library::opening;
use crate::library::opening::System;
use crate::paths::FsPathView;
use crate::settings;
use crate::settings::{AppSettingsView, SettingsError, ToolOverridesView};
use crate::storage;
use crate::storage::{AppPathsView, WriteStep};
use crate::tasks::record;
use crate::tasks::record::RecordView;
use crate::text;
use crate::tools;
use crate::tools::ToolFindings;

verus! {

// ---------------------------------------------------------------------------
// Settings
// ---------------------------------------------------------------------------

/// One of the texts holds nothing but white space.
pub open spec fn says_nothing_somewhere(list: Seq<Seq<char>>) -> bool {
    exists|i: int| 0 <= i < list.len() && text::trimmed(#[trigger] list[i]).len() == 0
}

/// Settings are accepted exactly when there is a directory for downloads, one to eight of them may
/// run at a time, one to sixteen items are looked up at a time, and neither the mode, the
/// container, the quality, a language nor an argument is blank.
pub proof fn settings_are_accepted_if_complete(s: AppSettingsView)
    ensures
        s.fault() is None <==> {
            &&& s.download_root.len() > 0
            &&& 1 <= s.max_concurrent_downloads <= 8
            &&& 1 <= s.playlist_resolve_concurrency <= 16
            &&& text::trimmed(s.default_download_mode).len() > 0
            &&& text::trimmed(s.default_container).len() > 0
            &&& text::trimmed(s.default_quality).len() > 0
            &&& !says_nothing_somewhere(s.default_subtitle_languages)
            &&& !says_nothing_somewhere(s.default_raw_args)
        },
{
    lemma_some_blank(s.default_subtitle_languages);
    lemma_some_blank(s.default_raw_args);
}

proof fn lemma_some_blank(list: Seq<Seq<char>>)
    ensures
        settings::some_blank(list) <==> says_nothing_somewhere(list),
{
    if says_nothing_somewhere(list) {
        let i = choose|i: int| 0 <= i < list.len() && text::trimmed(#[trigger] list[i]).len() == 0;
        assert(text::blank(list[i]));
    }
    if settings::some_blank(list) {
        let i = choose|i: int| 0 <= i < list.len() && text::blank(#[trigger] list[i]);
        assert(text::trimmed(list[i]).len() == 0);
    }
}

/// Of several faults of settings the first is named: in the order of the directory, the number of
/// downloads, the mode, the container, the quality, the languages, the arguments, and the number
/// of look-ups. Each is explained.
pub proof fn faults_of_settings_are_explained(s: AppSettingsView)
    ensures
        ({
            let silent = |list: Seq<Seq<char>>| says_nothing_somewhere(list);
            let message = match s.fault() {
                Some(error) => error.text(),
                None => Seq::empty(),
            };
            &&& s.download_root.len() == 0 ==> message == "download root cannot be empty"@
            &&& s.download_root.len() > 0 ==> {
                &&& s.max_concurrent_downloads == 0 ==> message
                    == "max concurrent downloads must be at least 1"@
                &&& s.max_concurrent_downloads > 8 ==> message
                    == "max concurrent downloads cannot exceed 8"@
                &&& 1 <= s.max_concurrent_downloads <= 8 ==> {
                    if text::trimmed(s.default_download_mode).len() == 0 {
                        message == "default download mode cannot be empty"@
                    } else if text::trimmed(s.default_container).len() == 0 {
                        message == "default container cannot be empty"@
                    } else if text::trimmed(s.default_quality).len() == 0 {
                        message == "default quality cannot be empty"@
                    } else if silent(s.default_subtitle_languages) {
                        message == "default subtitle languages cannot contain empty values"@
                    } else if silent(s.default_raw_args) {
                        message == "default raw args cannot contain empty values"@
                    } else if s.playlist_resolve_concurrency == 0 {
                        message == "playlist resolve concurrency must be at least 1"@
                    } else if s.playlist_resolve_concurrency > 16 {
                        message == "playlist resolve concurrency cannot exceed 16"@
                    } else {
                        message.len() == 0
                    }
                }
            }
        }),
{
    lemma_some_blank(s.default_subtitle_languages);
    lemma_some_blank(s.default_raw_args);
    reveal_strlit("max concurrent downloads cannot exceed ");
    reveal_strlit("max concurrent downloads cannot exceed 8");
    reveal_with_fuel(text::decimal, 2);
    assert(text::decimal(8) =~= seq!['8']);
    assert("max concurrent downloads cannot exceed "@ + text::decimal(8)
        =~= "max concurrent downloads cannot exceed 8"@);
}

/// Stored settings are taken as they are; without any, there are defaults, which are to be stored.
/// Downloads go to the directory of downloads, else to `Downloads` in the home directory, else
/// to where the bridge was started.
pub proof fn settings_come_from_the_file(
    stored: Option<AppSettingsView>,
    root: Seq<char>,
    downloads: Option<Seq<char>>,
    home: Option<Seq<char>>,
)
    ensures
        stored matches Some(s) ==> settings::loaded(stored, root) == (match s.fault() {
            Some(error) => Err::<(AppSettingsView, bool), SettingsError>(error),
            None => Ok((s, false)),
        }),
        root.len() > 0 ==> settings::loaded(None, root) == Ok::<
            (AppSettingsView, bool),
            SettingsError,
        >(
            (
                AppSettingsView {
                    download_root: root,
                    max_concurrent_downloads: 3,
                    open_browser_on_first_launch: true,
                    open_browser_on_later_launch: true,
                    incomplete_task_recovery: "manual"@,
                    default_target_subdir: Seq::empty(),
                    show_advanced_by_default: false,
                    default_download_mode: "video"@,
                    default_container: "mp4"@,
                    default_quality: "1080p"@,
                    default_subtitle_languages: Seq::empty(),
                    default_cookie_file_name: None,
                    default_raw_args: Seq::empty(),
                    default_raw_format_code: None,
                    tool_overrides: ToolOverridesView {
                        yt_dlp_path: None,
                        ffmpeg_path: None,
                        ffprobe_path: None,
                    },
                    playlist_resolve_concurrency: 3,
                    playlist_resolve_interval_ms: 300,
                },
                true,
            ),
        ),
        root.len() == 0 ==> settings::loaded(None, root) is Err,
        downloads matches Some(dir) ==> settings::default_root(downloads, home) == (FsPathView {
            base: dir,
            segments: Seq::empty(),
        }),
        downloads is None ==> (home matches Some(dir) ==> settings::default_root(downloads, home)
            == (FsPathView { base: dir, segments: seq!["Downloads"@] })),
        downloads is None && home is None ==> settings::default_root(downloads, home) == (
        FsPathView { base: "."@, segments: Seq::empty() }),
{
    settings::settings_are_loaded_again(stored, root, root);
    assert(Seq::<Seq<char>>::empty().push("Downloads"@) =~= seq!["Downloads"@]);
}

/// The browser opens as the settings say for the first launch and for later ones.
pub proof fn the_browser_opens_as_set(s: AppSettingsView, address: Seq<char>)
    ensures
        app::opens_browser(s, true) == s.open_browser_on_first_launch,
        app::opens_browser(s, false) == s.open_browser_on_later_launch,
        app::url_of(address) == "http://"@ + address,
{
}

// ---------------------------------------------------------------------------
// Tools
// ---------------------------------------------------------------------------

/// A tool is taken from where the settings say, if it is there, else from beside the bridge, if it
/// is there, else it is missing; and only a tool that is there has a version.
pub proof fn tools_are_where_they_were_found(
    name: Seq<char>,
    set: Option<Seq<char>>,
    dir: FsPathView,
    findings: ToolFindings,
    windows: bool,
)
    ensures
        ({
            let status = tools::status_of(name, set, dir, findings, windows);
            let binary = if windows {
                name + ".exe"@
            } else {
                name
            };
            &&& status.name == name
            &&& status.available <==> (set is Some && findings.override_exists)
                || findings.sidecar_exists
            &&& set is Some && findings.override_exists ==> status.source == "override"@
                && status.path == Some(FsPathView { base: set->0, segments: Seq::empty() })
            &&& !(set is Some && findings.override_exists) && findings.sidecar_exists
                ==> status.source == "sidecar"@ && status.path == Some(
                FsPathView { base: dir.base, segments: dir.segments.push(binary) },
            )
            &&& !status.available ==> status.source == "missing"@ && status.path is None
                && status.version is None
            &&& status.available && findings.version_output is None ==> status.version is None
            &&& status.available ==> (findings.version_output matches Some(output)
                ==> status.version == tools::version_line(output.stdout@, output.stderr@))
        }),
{
}

/// The version of a tool is its first line that says something, without the white space around it,
/// whatever blank lines come before it; what it prints counts before what it complains of.
pub proof fn a_version_is_the_first_line_that_speaks(
    blanks: Seq<Seq<char>>,
    line: Seq<char>,
    more: Seq<Seq<char>>,
    stdout: Seq<char>,
    stderr: Seq<char>,
)
    requires
        forall|i: int| 0 <= i < blanks.len() ==> text::trimmed(#[trigger] blanks[i]).len() == 0,
    ensures
        text::trimmed(line).len() > 0 ==> tools::first_line(blanks + seq![line] + more) == Some(
            text::trimmed(line),
        ),
        tools::first_line(blanks) is None,
        tools::version_line(stdout, stderr) == (if tools::first_line(
            text::split_on(stdout, '\n'),
        ) is Some {
            tools::first_line(text::split_on(stdout, '\n'))
        } else {
            tools::first_line(text::split_on(stderr, '\n'))
        }),
    decreases blanks.len(),
{
    let all = blanks + seq![line] + more;
    if blanks.len() > 0 {
        let rest = blanks.skip(1);
        assert forall|i: int| 0 <= i < rest.len() implies text::trimmed(#[trigger] rest[i]).len()
            == 0 by {
            assert(rest[i] == blanks[i + 1]);
        }
        a_version_is_the_first_line_that_speaks(rest, line, more, stdout, stderr);
        assert(all.skip(1) =~= rest + seq![line] + more);
        assert(all[0] == blanks[0]);
        assert(text::trimmed(blanks[0]).len() == 0);
        assert(text::blank(blanks[0]));
    } else {
        assert(all[0] == line);
    }
    lemma_first_of_two(text::split_on(stdout, '\n'), text::split_on(stderr, '\n'));
}

proof fn lemma_first_of_two(a: Seq<Seq<char>>, b: Seq<Seq<char>>)
    ensures
        tools::first_line(a + b) == (if tools::first_line(a) is Some {
            tools::first_line(a)
        } else {
            tools::first_line(b)
        }),
    decreases a.len(),
{
    if a.len() > 0 {
        lemma_first_of_two(a.skip(1), b);
        assert((a + b).skip(1) =~= a.skip(1) + b);
        assert((a + b)[0] == a[0]);
    } else {
        assert(a + b =~= b);
    }
}

/// A folder or a file is opened by the program of the system for it, which is handed the place.
pub proof fn places_are_opened_by_the_system(
    system: System,
    folder: bool,
    place: FsPathView,
    shown: Seq<char>,
)
    ensures
        opening::opener(System::Windows, true) == "explorer"@,
        opening::opener(System::Windows, false) == "cmd"@,
        opening::opener(System::Mac, folder) == "open"@,
        opening::opener(System::Other, folder) == "xdg-open"@,
        opening::opener_args(System::Windows, false, place, shown) == seq![
            ArgView::Text("/C"@),
            ArgView::Text("start"@),
            ArgView::Text(""@),
            ArgView::Text(shown),
        ],
        folder || system != System::Windows ==> opening::opener_args(system, folder, place, shown)
            == seq![ArgView::Path(place)],
{
}

// ---------------------------------------------------------------------------
// Files of the bridge
// ---------------------------------------------------------------------------

/// Everything that is kept lies in `state` below the directory of the configuration, each kind in
/// a place of its own, and every directory among them is made.
pub proof fn what_is_kept_lies_in_the_state(executable: Seq<char>, config: Seq<char>)
    ensures
        ({
            let p = AppPathsView::layout(executable, config);
            let kept = |name: Seq<char>|
                FsPathView { base: config, segments: seq!["state"@, name] };
            &&& p.executable_dir == (FsPathView { base: executable, segments: Seq::empty() })
            &&& p.data_root == (FsPathView { base: config, segments: Seq::empty() })
            &&& p.state_root == (FsPathView { base: config, segments: seq!["state"@] })
            &&& p.settings_path == kept("settings.json"@)
            &&& p.queue_path == kept("queue.json"@)
            &&& p.tasks_dir == kept("tasks"@)
            &&& p.playlists_dir == kept("playlists"@)
            &&& p.attempts_dir == kept("attempts"@)
            &&& p.library_dir == kept("library"@)
            &&& p.runtime_dir == kept("runtime"@)
            &&& p.logs_dir == kept("logs"@)
            &&& p.state_dirs() == seq![
                p.data_root,
                p.state_root,
                p.tasks_dir,
                p.playlists_dir,
                p.attempts_dir,
                p.library_dir,
                p.runtime_dir,
                p.logs_dir,
            ]
        }),
{
    let none = Seq::<Seq<char>>::empty();
    assert(none.push("state"@) =~= seq!["state"@]);
    assert forall|name: Seq<char>| none.push("state"@).push(name) =~= #[trigger] seq![
        "state"@,
        name,
    ] by {}
}

/// A file is written whole beside its place before it takes that place: the directory is made, the
/// other file is made, written and synced, and renamed at the end.
pub proof fn a_file_is_written_beside_its_place(name: Seq<char>, seq: nat)
    ensures
        storage::step_after(None) == Some(WriteStep::CreateParent),
        storage::step_after(Some(WriteStep::CreateParent)) == Some(WriteStep::CreateTemp),
        storage::step_after(Some(WriteStep::CreateTemp)) == Some(WriteStep::WriteTemp),
        storage::step_after(Some(WriteStep::WriteTemp)) == Some(WriteStep::SyncTemp),
        storage::step_after(Some(WriteStep::SyncTemp)) == Some(WriteStep::RenameTemp),
        storage::step_after(Some(WriteStep::RenameTemp)) is None,
        storage::temp_name(Some(name), seq) == name + "."@ + text::decimal(seq) + ".tmp"@,
        storage::temp_name(None, seq) == "file"@ + "."@ + text::decimal(seq) + ".tmp"@,
{
}

/// Numbers of tasks count up by one and start again at zero past the largest.
pub proof fn numbers_count_up(n: u64, k: nat)
    ensures
        record::number_after(n) == (n + 1) % 0x1_0000_0000_0000_0000,
        k <= u64::MAX ==> record::number_plus(n, k) == (n + k) % 0x1_0000_0000_0000_0000,
{
}

// ---------------------------------------------------------------------------
// The clock
// ---------------------------------------------------------------------------

/// A number below the width's power of ten is written with zeros before it.
pub proof fn short_numbers_are_padded(n: nat)
    ensures
        n < 10 ==> clock::padded(n, 2) == seq!['0', text::digit_char(n)],
        10 <= n < 100 ==> clock::padded(n, 2) == seq![
            text::digit_char(n / 10),
            text::digit_char(n % 10),
        ],
        1000 <= n < 10000 ==> clock::padded(n, 4) == text::decimal(n) && text::decimal(n).len()
            == 4,
{
    reveal_with_fuel(text::decimal, 4);
    if n < 10 {
        assert(text::decimal(n) =~= seq![text::digit_char(n)]);
        assert(clock::padded(n, 2) =~= seq!['0', text::digit_char(n)]);
    } else if n < 100 {
        assert(text::decimal(n) =~= seq![text::digit_char(n / 10), text::digit_char(n % 10)]);
    } else if 1000 <= n < 10000 {
        assert(text::decimal(n).len() == 4);
    }
}

/// A moment is written as its date, `T`, its time, as much of its fraction as is not zero in groups
/// of three digits, and the offset of UTC.
pub proof fn moments_are_written_in_utc(moment: Moment)
    ensures
        0 <= moment.year <= 9999 && moment.nanos == 0 ==> moment.text() == clock::padded(
            moment.year as nat,
            4,
        ) + "-"@ + clock::padded(moment.month, 2) + "-"@ + clock::padded(moment.day, 2) + "T"@
            + clock::padded(moment.hour, 2) + ":"@ + clock::padded(moment.minute, 2) + ":"@
            + clock::padded(moment.second, 2) + "+00:00"@,
        moment.nanos == 0 ==> moment.fraction_text().len() == 0,
        moment.nanos != 0 && moment.nanos % 1_000_000 == 0 ==> moment.fraction_text() == "."@
            + clock::padded(moment.nanos / 1_000_000, 3),
        moment.nanos % 1_000_000 != 0 && moment.nanos % 1_000 == 0 ==> moment.fraction_text()
            == "."@ + clock::padded(moment.nanos / 1_000, 6),
        moment.nanos % 1_000 != 0 ==> moment.fraction_text() == "."@ + clock::padded(
            moment.nanos,
            9,
        ),
        clock::timestamp(moment.text()) <== 1 <= moment.month <= 12 && 1 <= moment.day <= 31
            && moment.hour < 24 && moment.minute < 60 && moment.second < 60 && moment.nanos
            < 1_000_000_000,
{
    reveal_strlit("");
    let head = clock::padded(moment.year as nat, 4) + "-"@ + clock::padded(moment.month, 2) + "-"@
        + clock::padded(moment.day, 2) + "T"@ + clock::padded(moment.hour, 2) + ":"@
        + clock::padded(moment.minute, 2) + ":"@ + clock::padded(moment.second, 2);
    assert(head + ""@ =~= head);
}

/// A year of four digits is written as it is; an earlier one has its sign before it, and so has a
/// later one.
pub proof fn years_have_four_digits(moment: Moment)
    ensures
        0 <= moment.year <= 9999 ==> moment.year_text() == clock::padded(moment.year as nat, 4),
        moment.year > 9999 ==> moment.year_text() == "+"@ + text::decimal(moment.year as nat),
        moment.year < 0 ==> moment.year_text() == "-"@ + clock::padded((-moment.year) as nat, 4),
{
    if moment.year > 9999 {
        reveal_with_fuel(text::decimal, 5);
        assert(text::decimal(moment.year as nat).len() >= 4);
    }
}

// ---------------------------------------------------------------------------
// Unfinished files
// ---------------------------------------------------------------------------

/// A file was left behind by the download of a video: its name holds the video's id, which is not
/// empty, and ends in `.part`, `.ytdl` or `.temp` or holds `.frag`.
pub open spec fn left_behind(name: Seq<char>, video_id: Option<Seq<char>>) -> bool {
    &&& video_id is Some
    &&& video_id->0.len() > 0
    &&& text::occurs(name, video_id->0)
    &&& (text::ends(name, ".part"@) || text::ends(name, ".ytdl"@) || text::ends(name, ".temp"@)
        || text::occurs(name, ".frag"@))
}

/// Every file that a download left behind is cleaned up, and nothing else: no directory, no
/// finished file, no file of another video.
pub proof fn what_was_left_behind_is_cleaned_up(
    found: Seq<CandidateView>,
    video_id: Option<Seq<char>>,
)
    ensures
        partial::unfinished_among(found, video_id) == found.filter(
            |c: CandidateView| c.is_file && left_behind(c.name, video_id),
        ).map_values(|c: CandidateView| c.file),
        forall|name: Seq<char>| #[trigger]
            partial::unfinished_of(name, video_id) <==> left_behind(name, video_id),
    decreases found.len(),
{
    reveal(Seq::filter);
    let kept = |c: CandidateView| c.is_file && left_behind(c.name, video_id);
    let file = |c: CandidateView| c.file;
    if found.len() > 0 {
        what_was_left_behind_is_cleaned_up(found.drop_last(), video_id);
        let rest = found.drop_last().filter(kept);
        if kept(found.last()) {
            assert(rest.push(found.last()).map_values(file) =~= rest.map_values(file).push(
                found.last().file,
            ));
        }
    }
    assert(found.filter(kept).map_values(file) =~= partial::unfinished_among(found, video_id));
}

/// The file is looked for by its whole path, written with backslashes, and by its name.
pub open spec fn sought_by(file: PartialView, s: Seq<char>) -> bool {
    s == text::replaced(file.full, '/', '\\') || file.name == Some(s)
}

/// Programs that hold files are looked for by the id of the video, its address and its place, where
/// they are not blank, and by the path and the name of each file. Each is looked for once.
pub proof fn programs_are_sought_by_what_they_hold(
    task: RecordView,
    files: Seq<PartialView>,
    s: Seq<char>,
)
    ensures
        partial::needles(task, files).contains(s) <==> {
            ||| task.video_id == Some(s) && text::trimmed(s).len() > 0
            ||| task.source_url == s && text::trimmed(s).len() > 0
            ||| text::trimmed(task.target_subdir).len() > 0 && s == text::replaced(
                task.target_subdir,
                '/',
                '\\',
            )
            ||| exists|i: int| 0 <= i < files.len() && sought_by(#[trigger] files[i], s)
        },
        partial::needles(task, files).no_duplicates(),
{
    partial::needles_are_a_sorted_set(task, files, s);
    lemma_file_needles(files, s);
    let id: Seq<Seq<char>> = if task.video_id is Some && !text::blank(task.video_id->0) {
        seq![task.video_id->0]
    } else {
        Seq::empty()
    };
    let url: Seq<Seq<char>> = if text::blank(task.source_url) {
        Seq::empty()
    } else {
        seq![task.source_url]
    };
    let place: Seq<Seq<char>> = if text::blank(task.target_subdir) {
        Seq::empty()
    } else {
        seq![text::replaced(task.target_subdir, '/', '\\')]
    };
    assert(partial::task_needles(task) == id + url + place);
    lemma_in_three(id, url, place, s);
    if id.len() > 0 {
        assert(id.contains(s) <==> id[0] == s);
    }
    if url.len() > 0 {
        assert(url.contains(s) <==> url[0] == s);
    }
    if place.len() > 0 {
        assert(place.contains(s) <==> place[0] == s);
    }
}

proof fn lemma_in_three(a: Seq<Seq<char>>, b: Seq<Seq<char>>, c: Seq<Seq<char>>, s: Seq<char>)
    ensures
        (a + b + c).contains(s) <==> a.contains(s) || b.contains(s) || c.contains(s),
{
    let all = a + b + c;
    if a.contains(s) {
        let i = a.index_of(s);
        assert(all[i] == s);
    }
    if b.contains(s) {
        let i = b.index_of(s);
        assert(all[a.len() + i] == s);
    }
    if c.contains(s) {
        let i = c.index_of(s);
        assert(all[a.len() + b.len() + i] == s);
    }
    if all.contains(s) {
        let i = all.index_of(s);
        if i < a.len() {
            assert(a[i] == s);
        } else if i < a.len() + b.len() {
            assert(b[i - a.len()] == s);
        } else {
            assert(c[i - a.len() - b.len()] == s);
        }
    }
}

proof fn lemma_file_needles(files: Seq<PartialView>, s: Seq<char>)
    ensures
        partial::file_needles(files).contains(s) <==> exists|i: int|
            0 <= i < files.len() && sought_by(#[trigger] files[i], s),
    decreases files.len(),
{
    if files.len() > 0 {
        let front = files.drop_last();
        let last = files.last();
        lemma_file_needles(front, s);
        let before = partial::file_needles(front);
        let path = text::replaced(last.full, '/', '\\');
        let own: Seq<Seq<char>> = match last.name {
            Some(name) => seq![path, name],
            None => seq![path],
        };
        assert(partial::file_needles(files) =~= before + own + Seq::empty());
        lemma_in_three(before, own, Seq::empty(), s);
        assert(own[0] == path);
        assert(own.contains(s) <==> sought_by(last, s)) by {
            if last.name is Some {
                assert(own[1] == last.name->0);
            }
        }
        if exists|i: int| 0 <= i < front.len() && sought_by(#[trigger] front[i], s) {
            let i = choose|i: int| 0 <= i < front.len() && sought_by(#[trigger] front[i], s);
            assert(sought_by(files[i], s));
        }
        if sought_by(last, s) {
            assert(sought_by(files[files.len() - 1], s));
        }
        if exists|i: int| 0 <= i < files.len() && sought_by(#[trigger] files[i], s) {
            let i = choose|i: int| 0 <= i < files.len() && sought_by(#[trigger] files[i], s);
            if i < front.len() {
                assert(sought_by(front[i], s));
            }
        }
    }
}

/// Written between single quotes, a text stands for itself: each quote in it is written twice and
/// nothing else is changed.
pub proof fn quotes_are_written_twice(before: Seq<char>, after: Seq<char>, c: char, q: char)
    ensures
        text::doubled(Seq::empty(), q).len() == 0,
        text::doubled(before + after, q) == text::doubled(before, q) + text::doubled(after, q),
        text::doubled(seq![q], q) == seq![q, q],
        c != q ==> text::doubled(seq![c], q) == seq![c],
    decreases after.len(),
{
    let none = Seq::<char>::empty();
    assert(seq![q].drop_last() =~= none);
    assert(seq![c].drop_last() =~= none);
    assert(none.push(q).push(q) =~= seq![q, q]);
    assert(none.push(c) =~= seq![c]);
    assert(text::doubled(none, q) =~= none);
    assert(seq![c].last() == c);
    if after.len() == 0 {
        assert(before + after =~= before);
        assert(text::doubled(before, q) + text::doubled(after, q) =~= text::doubled(before, q));
    } else {
        quotes_are_written_twice(before, after.drop_last(), c, q);
        assert((before + after).drop_last() =~= before + after.drop_last());
        assert((before + after).last() == after.last());
        assert(text::doubled(before + after, q) =~= text::doubled(before, q) + text::doubled(
            after,
            q,
        ));
    }
}

/// The script lists the programs of the bridge in whose command line one of the needles stands, in
/// whatever case.
pub proof fn the_script_asks_for_every_needle(list: Seq<Seq<char>>)
    ensures
        partial::helper_script(list)
            == "$ErrorActionPreference='SilentlyContinue'; Get-CimInstance Win32_Process | Where-Object { $cmd = $_.CommandLine; $name = $_.Name; $cmd -and ($name -in @('yt-dlp.exe','yt-dlp','ffmpeg.exe','ffmpeg','python.exe','pythonw.exe')) -and ("@
            + text::join(
            list.map_values(
                |needle: Seq<char>|
                    "$cmd.IndexOf('"@ + text::doubled(needle, '\'')
                        + "', [System.StringComparison]::OrdinalIgnoreCase) -ge 0"@,
            ),
            " -or "@,
        ) + ") } | Select-Object -ExpandProperty ProcessId"@,
{
    let check = |needle: Seq<char>|
        "$cmd.IndexOf('"@ + text::doubled(needle, '\'')
            + "', [System.StringComparison]::OrdinalIgnoreCase) -ge 0"@;
    assert(partial::needle_checks(list) =~= list.map_values(check));
}

/// Every line that is a number, white space around it aside, is the number of a program, in their
/// order; other lines are passed over.
pub proof fn programs_are_numbered_line_by_line(lines: Seq<Seq<char>>, line: Seq<char>)
    ensures
        partial::numbers_in(Seq::empty()).len() == 0,
        partial::numbers_in(lines.push(line)) == (match text::unsigned(
            text::trimmed(line),
            0xffff_ffff,
        ) {
            Some(n) => partial::numbers_in(lines).push(n as u32),
            None => partial::numbers_in(lines),
        }),
{
    assert(lines.push(line).drop_last() =~= lines);
}

}
