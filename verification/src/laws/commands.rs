//! What is promised of the commands that are run.
use vstd::prelude::*;

use crate::command::ArgView;
use crate::cookies;
use crate::cookies::CookieError;
use crate::downloads::launch;
use crate::paths::FsPathView;
use crate::tasks::record::RecordView;
use crate::text;

verus! {

/// The word is among the arguments, directly followed by the value.
pub open spec fn holds_pair(args: Seq<ArgView>, word: Seq<char>, value: ArgView) -> bool {
    exists|i: int|
        0 <= i < args.len() - 1 && #[trigger] args[i] == ArgView::Text(word) && args[i + 1] == value
}

/// The word is among the arguments.
pub open spec fn holds(args: Seq<ArgView>, word: Seq<char>) -> bool {
    args.contains(ArgView::Text(word))
}

/// What was given, without the white space around it; nothing where it is blank.
pub open spec fn given(value: Option<Seq<char>>) -> Option<Seq<char>> {
    match value {
        Some(s) if text::trimmed(s).len() > 0 => Some(text::trimmed(s)),
        _ => None,
    }
}

/// The cookies of a browser are used where one is named, with the profile where one is; else those
/// of the file that is named, from the directory of cookie files; else none.
pub proof fn cookies_come_from_one_source(
    runtime_dir: FsPathView,
    file_name: Option<Seq<char>>,
    browser: Option<Seq<char>>,
    profile: Option<Seq<char>>,
)
    ensures
        ({
            let args = cookies::cookie_args(runtime_dir, file_name, browser, profile);
            let source = match given(profile) {
                Some(p) => text::lowered(given(browser)->0) + ":"@ + p,
                None => text::lowered(given(browser)->0),
            };
            &&& given(browser) is Some ==> args == seq![
                ArgView::Text("--cookies-from-browser"@),
                ArgView::Text(source),
            ]
            &&& given(browser) is None && given(file_name) is Some ==> args == seq![
                ArgView::Text("--cookies"@),
                ArgView::Path(runtime_dir.join("cookies"@).join(given(file_name)->0)),
            ]
            &&& given(browser) is None && given(file_name) is None ==> args.len() == 0
        }),
{
}

/// A name for a cookie file is refused exactly when it is blank, or when nothing would be left of
/// it but its ending. A profile is refused exactly when no browser is named with it.
pub proof fn cookie_preferences_are_checked(
    name: Seq<char>,
    content: Seq<char>,
    file_name: Option<Seq<char>>,
    browser: Option<Seq<char>>,
    profile: Option<Seq<char>>,
)
    ensures
        cookies::name_fault(name) == Some(CookieError::EmptyName) <==> text::trimmed(name).len()
            == 0,
        cookies::name_fault(name) == Some(CookieError::InvalidName) <==> text::trimmed(name)
            == ".txt"@,
        cookies::name_fault(name) is None ==> cookies::import_fault(name, content) == (
        if text::trimmed(content).len() == 0 {
            Some(CookieError::EmptyContent)
        } else {
            None
        }),
        cookies::name_fault(name) is Some ==> cookies::import_fault(name, content)
            == cookies::name_fault(name),
        given(file_name) is None ==> cookies::preference_fault(file_name, browser, profile) == (
        if given(browser) is None && given(profile) is Some {
            Some(CookieError::ProfileWithoutBrowser)
        } else {
            None
        }),
        given(file_name) is Some && cookies::name_fault(given(file_name)->0) is Some
            ==> cookies::preference_fault(file_name, browser, profile) == cookies::name_fault(
            given(file_name)->0,
        ),
        given(file_name) is Some && cookies::name_fault(given(file_name)->0) is None
            ==> cookies::preference_fault(file_name, browser, profile)
            == cookies::preference_fault(None, browser, profile),
{
    reveal_strlit(".txt");
    let trim = text::trimmed(name);
    let clean = cookies::cleaned(trim);
    let kept = cookies::kept_name(name);
    assert(".txt"@.len() == 4);
    if trim == ".txt"@ {
        assert(clean =~= trim);
        assert(text::lowered(clean) =~= clean);
        assert(text::lowered(clean).subrange(0, 4) =~= ".txt"@);
    }
    if kept == ".txt"@ && trim.len() > 0 {
        if text::ends(text::lowered(clean), ".txt"@) {
            assert(clean == ".txt"@);
            assert forall|i: int| 0 <= i < 4 implies trim[i] == clean[i] by {}
            assert(trim =~= ".txt"@);
        } else {
            assert(kept.len() == clean.len() + 4);
        }
    }
}

/// A cookie file is kept under its name without the white space around it; a letter, a digit, a
/// dot, a dash and an underscore stay as they are, every other character becomes an underscore,
/// and `.txt` is added where the name does not end so, in capitals or not.
pub proof fn cookie_names_are_cleaned(name: Seq<char>, i: int)
    ensures
        ({
            let trim = text::trimmed(name);
            let kept = cookies::kept_name(name);
            &&& trim.len() <= kept.len()
            &&& 0 <= i < trim.len() ==> kept[i] == (if ('0' <= trim[i] <= '9') || ('A' <= trim[i]
                <= 'Z') || ('a' <= trim[i] <= 'z') || trim[i] == '.' || trim[i] == '-' || trim[i]
                == '_' {
                trim[i]
            } else {
                '_'
            })
            &&& kept.len() == trim.len() || (kept.len() == trim.len() + 4 && kept.skip(
                trim.len() as int,
            ) == ".txt"@)
            &&& text::ends(text::lowered(kept), ".txt"@)
            &&& text::ends(text::lowered(kept.take(trim.len() as int)), ".txt"@) ==> kept.len()
                == trim.len()
        }),
{
    reveal_strlit(".txt");
    let trim = text::trimmed(name);
    let clean = cookies::cleaned(trim);
    let kept = cookies::kept_name(name);
    let low = text::lowered(kept);
    assert(kept.take(trim.len() as int) =~= clean);
    if !text::ends(text::lowered(clean), ".txt"@) {
        assert(kept.skip(trim.len() as int) =~= ".txt"@);
        assert(low.subrange(low.len() - 4, low.len() as int) =~= ".txt"@);
    }
}

proof fn lemma_digits(s: Seq<char>)
    ensures
        launch::digits_in(s) == s.filter(|c: char| '0' <= c <= '9'),
    decreases s.len(),
{
    reveal(Seq::filter);
    if s.len() > 0 {
        lemma_digits(s.drop_last());
    }
    assert(launch::digits_in(s) =~= s.filter(|c: char| '0' <= c <= '9'));
}

proof fn lemma_user_args(list: Seq<Seq<char>>)
    ensures
        launch::user_args(list) == list.filter(
            |s: Seq<char>| text::trimmed(s).len() > 0,
        ).map_values(|s: Seq<char>| ArgView::Text(s)),
    decreases list.len(),
{
    reveal(Seq::filter);
    let pred = |s: Seq<char>| text::trimmed(s).len() > 0;
    let make = |s: Seq<char>| ArgView::Text(s);
    if list.len() > 0 {
        let head = list.drop_last();
        lemma_user_args(head);
        if pred(list.last()) {
            assert(head.filter(pred).push(list.last()).map_values(make) =~= head.filter(
                pred,
            ).map_values(make).push(make(list.last())));
        }
    }
    assert(launch::user_args(list) =~= list.filter(pred).map_values(make));
}

/// The command of a download, from its first argument to its last: no configuration is read, one
/// line is printed for each step, the files go to the directory of the task under the title and
/// the id of the video; then come the cookies, the subtitles, the formats, the arguments that the
/// user gave, but for blank ones, and last the address.
pub proof fn a_download_is_commanded_in_full(
    runtime_dir: FsPathView,
    task: RecordView,
    output_dir: FsPathView,
)
    ensures
        ({
            let fixed = seq![
                ArgView::Text("--ignore-config"@),
                ArgView::Text("--newline"@),
                ArgView::Text("--progress"@),
                ArgView::Text("--paths"@),
                ArgView::Path(output_dir),
                ArgView::Text("-o"@),
                ArgView::Text("%(title)s [%(id)s].%(ext)s"@),
                ArgView::Text("--restrict-filenames"@),
            ];
            let cookie = cookies::cookie_args(
                runtime_dir,
                task.cookie_file_name,
                task.cookie_browser,
                task.cookie_browser_profile,
            );
            let subtitles = if task.subtitle_languages.len() == 0 {
                Seq::<ArgView>::empty()
            } else {
                seq![
                    ArgView::Text("--write-subs"@),
                    ArgView::Text("--write-auto-subs"@),
                    ArgView::Text("--sub-langs"@),
                    ArgView::Text(text::join(task.subtitle_languages, ","@)),
                    ArgView::Text("--sleep-subtitles"@),
                    ArgView::Text("1"@),
                    ArgView::Text("--retries"@),
                    ArgView::Text("5"@),
                    ArgView::Text("--ignore-errors"@),
                ]
            };
            let height = text::unsigned(
                task.quality.filter(|c: char| '0' <= c <= '9'),
                0xffff_ffff,
            );
            let h = text::decimal(height->0);
            let choice = if task.raw_format_code is Some && text::trimmed(
                task.raw_format_code->0,
            ).len() > 0 {
                seq![ArgView::Text("-f"@), ArgView::Text(task.raw_format_code->0)]
            } else if height is Some {
                seq![
                    ArgView::Text("-f"@),
                    ArgView::Text(
                        "bv*[height<="@ + h + "]+ba/b[height<="@ + h + "]/best[height<="@ + h
                            + "]/best"@,
                    ),
                ]
            } else {
                Seq::<ArgView>::empty()
            };
            let merge = if text::trimmed(task.container).len() == 0 {
                Seq::<ArgView>::empty()
            } else {
                seq![ArgView::Text("--merge-output-format"@), ArgView::Text(task.container)]
            };
            let formats = if task.download_mode == "audio"@ {
                seq![
                    ArgView::Text("-x"@),
                    ArgView::Text("--audio-format"@),
                    ArgView::Text(task.container),
                ]
            } else {
                choice + merge
            };
            let own = task.raw_args.filter(
                |s: Seq<char>| text::trimmed(s).len() > 0,
            ).map_values(|s: Seq<char>| ArgView::Text(s));
            launch::download_args(runtime_dir, task, output_dir) == fixed + cookie + subtitles
                + formats + own + seq![ArgView::Text(task.source_url)]
        }),
{
    lemma_digits(task.quality);
    lemma_user_args(task.raw_args);
    let all = launch::base_args(output_dir) + cookies::cookie_args(
        runtime_dir,
        task.cookie_file_name,
        task.cookie_browser,
        task.cookie_browser_profile,
    ) + launch::subtitle_args(task.subtitle_languages) + launch::format_args(task)
        + launch::user_args(task.raw_args);
    assert(all.push(ArgView::Text(task.source_url)) =~= all + seq![
        ArgView::Text(task.source_url),
    ]);
}

proof fn lemma_inner_pair(
    before: Seq<ArgView>,
    word: Seq<char>,
    value: ArgView,
    after: Seq<ArgView>,
)
    ensures
        holds_pair(before + seq![ArgView::Text(word), value] + after, word, value),
{
    let all = before + seq![ArgView::Text(word), value] + after;
    let i = before.len() as int;
    assert(all[i] == ArgView::Text(word) && all[i + 1] == value);
}

/// The container that was chosen for a video is asked for, whatever its formats and its quality
/// are; that for sound alone is asked for as the format of the sound.
pub proof fn the_container_is_asked_for(
    runtime_dir: FsPathView,
    task: RecordView,
    output_dir: FsPathView,
)
    ensures
        ({
            let args = launch::download_args(runtime_dir, task, output_dir);
            &&& task.download_mode != "audio"@ && text::trimmed(task.container).len() > 0
                ==> holds_pair(args, "--merge-output-format"@, ArgView::Text(task.container))
            &&& task.download_mode == "audio"@ ==> holds(args, "-x"@) && holds_pair(
                args,
                "--audio-format"@,
                ArgView::Text(task.container),
            )
        }),
{
    let args = launch::download_args(runtime_dir, task, output_dir);
    let head = launch::base_args(output_dir) + cookies::cookie_args(
        runtime_dir,
        task.cookie_file_name,
        task.cookie_browser,
        task.cookie_browser_profile,
    ) + launch::subtitle_args(task.subtitle_languages);
    let tail = launch::user_args(task.raw_args).push(ArgView::Text(task.source_url));
    if task.download_mode == "audio"@ {
        let x = head.push(ArgView::Text("-x"@));
        assert(args =~= x + seq![ArgView::Text("--audio-format"@), ArgView::Text(task.container)]
            + tail);
        lemma_inner_pair(x, "--audio-format"@, ArgView::Text(task.container), tail);
        assert(args[head.len() as int] == ArgView::Text("-x"@));
    } else if text::trimmed(task.container).len() > 0 {
        let x = head + launch::choice_args(task);
        assert(args =~= x + seq![
            ArgView::Text("--merge-output-format"@),
            ArgView::Text(task.container),
        ] + tail);
        lemma_inner_pair(x, "--merge-output-format"@, ArgView::Text(task.container), tail);
    }
}

/// The formats of a video are those of the code that was given, whatever the quality is; without a
/// code they are bounded by the height of the quality, as far as it has one. The languages that
/// were asked for are asked for, and every argument that the user gave and that is not blank is
/// there.
pub proof fn what_was_chosen_is_asked_for(
    runtime_dir: FsPathView,
    task: RecordView,
    output_dir: FsPathView,
    k: int,
)
    ensures
        ({
            let args = launch::download_args(runtime_dir, task, output_dir);
            &&& task.download_mode != "audio"@ && task.raw_format_code is Some && text::trimmed(
                task.raw_format_code->0,
            ).len() > 0 ==> holds_pair(args, "-f"@, ArgView::Text(task.raw_format_code->0))
            &&& task.subtitle_languages.len() > 0 ==> holds(args, "--write-subs"@) && holds_pair(
                args,
                "--sub-langs"@,
                ArgView::Text(text::join(task.subtitle_languages, ","@)),
            )
            &&& 0 <= k < task.raw_args.len() && text::trimmed(task.raw_args[k]).len() > 0 ==> holds(
                args,
                task.raw_args[k],
            )
            &&& args.last() == ArgView::Text(task.source_url)
        }),
{
    let args = launch::download_args(runtime_dir, task, output_dir);
    let first = launch::base_args(output_dir) + cookies::cookie_args(
        runtime_dir,
        task.cookie_file_name,
        task.cookie_browser,
        task.cookie_browser_profile,
    );
    let head = first + launch::subtitle_args(task.subtitle_languages);
    let own = launch::user_args(task.raw_args);
    let tail = own.push(ArgView::Text(task.source_url));
    if task.download_mode != "audio"@ && task.raw_format_code is Some && text::trimmed(
        task.raw_format_code->0,
    ).len() > 0 {
        let code = ArgView::Text(task.raw_format_code->0);
        let after = launch::merge_args(task.container) + tail;
        assert(args =~= head + seq![ArgView::Text("-f"@), code] + after);
        lemma_inner_pair(head, "-f"@, code, after);
    }
    if task.subtitle_languages.len() > 0 {
        let subtitles = launch::subtitle_args(task.subtitle_languages);
        let value = subtitles[3];
        let before = first + subtitles.take(2);
        let after = subtitles.skip(4) + launch::format_args(task) + tail;
        assert(args =~= before + seq![ArgView::Text("--sub-langs"@), value] + after);
        lemma_inner_pair(before, "--sub-langs"@, value, after);
        assert(args[first.len() as int] == ArgView::Text("--write-subs"@));
    }
    if 0 <= k < task.raw_args.len() && text::trimmed(task.raw_args[k]).len() > 0 {
        lemma_user_args(task.raw_args);
        let pred = |s: Seq<char>| text::trimmed(s).len() > 0;
        let kept = task.raw_args.filter(pred);
        task.raw_args.lemma_filter_contains(pred, k);
        let m = choose|m: int| 0 <= m < kept.len() && kept[m] == task.raw_args[k];
        let at = head.len() + launch::format_args(task).len() + m;
        assert(args[at] == ArgView::Text(task.raw_args[k]));
    }
}

/// A quality stands for the number that its digits make, wherever they stand in it, as long as it
/// fits into 32 bits.
pub proof fn a_quality_is_read_by_its_digits(quality: Seq<char>)
    ensures
        launch::quality_height(quality) == text::unsigned(
            quality.filter(|c: char| '0' <= c <= '9'),
            0xffff_ffff,
        ),
{
    lemma_digits(quality);
}

}
