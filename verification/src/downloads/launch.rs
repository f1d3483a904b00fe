//! The command that downloads a task.
use vstd::prelude::*;

use crate::command;
use crate::command::{ArgView, CommandArg, CommandLine, CommandView};
use crate::cookies;
use crate::paths::{FsPath, FsPathView};
use crate::tasks::record::{RecordView, TaskRecord};
use crate::text;

verus! {

// ---------------------------------------------------------------------------
// The quality that is asked for
// ---------------------------------------------------------------------------

/// The digits of a text, in order.
pub open spec fn digits_in(s: Seq<char>) -> Seq<char>
    decreases s.len(),
{
    if s.len() == 0 {
        s
    } else if text::digit(s.last()) {
        digits_in(s.drop_last()).push(s.last())
    } else {
        digits_in(s.drop_last())
    }
}

/// The height that a quality such as `1080p` stands for; `None` where it has no digits, or too
/// many of them.
pub open spec fn quality_height(quality: Seq<char>) -> Option<nat> {
    text::unsigned(digits_in(quality), u32::MAX as nat)
}

fn keep_digits(s: &str) -> (r: String)
    ensures
        r@ == digits_in(s@),
{
    let v = text::chars_of(s);
    let mut out = String::new();
    let mut i: usize = 0;
    assert(v@.take(0) =~= Seq::<char>::empty());
    assert(out@ =~= digits_in(v@.take(0)));
    while i < v.len()
        invariant
            i <= v.len(),
            out@ == digits_in(v@.take(i as int)),
        decreases v.len() - i,
    {
        assert(v@.take(i + 1).drop_last() =~= v@.take(i as int));
        assert(v@.take(i + 1).last() == v@[i as int]);
        if text::is_digit(v[i]) {
            out.push(v[i]);
        }
        i = i + 1;
    }
    assert(v@.take(i as int) =~= v@);
    out
}

/// The height that a quality such as `1080p` stands for.
pub fn parse_quality_height(quality: &str) -> (r: Option<u32>)
    ensures
        match r {
            Some(height) => quality_height(quality@) == Some(height as nat),
            None => quality_height(quality@) is None,
        },
{
    let digits = keep_digits(quality);
    match text::parse_unsigned(digits.as_str(), 0xffff_ffff) {
        Some(height) => Some(height as u32),
        None => None,
    }
}

/// The choice of formats up to a height.
pub open spec fn format_choice(height: nat) -> Seq<char> {
    let h = text::decimal(height);
    "bv*[height<="@ + h + "]+ba/b[height<="@ + h + "]/best[height<="@ + h + "]/best"@
}

fn choose_format(height: u32) -> (r: String)
    ensures
        r@ == format_choice(height as nat),
{
    let h = text::to_decimal(height as u64);
    let mut choice = "bv*[height<=".to_owned();
    choice.append(h.as_str());
    choice.append("]+ba/b[height<=");
    choice.append(h.as_str());
    choice.append("]/best[height<=");
    choice.append(h.as_str());
    choice.append("]/best");
    choice
}

// ---------------------------------------------------------------------------
// The arguments, part by part
// ---------------------------------------------------------------------------

/// The arguments of every download.
pub open spec fn base_args(output_dir: FsPathView) -> Seq<ArgView> {
    seq![
        ArgView::Text("--ignore-config"@),
        ArgView::Text("--newline"@),
        ArgView::Text("--progress"@),
        ArgView::Text("--paths"@),
        ArgView::Path(output_dir),
        ArgView::Text("-o"@),
        ArgView::Text("%(title)s [%(id)s].%(ext)s"@),
        ArgView::Text("--restrict-filenames"@),
    ]
}

/// The arguments for subtitles: pauses between the tracks and several tries each, and a video
/// whose subtitles fail is downloaded all the same.
pub open spec fn subtitle_args(languages: Seq<Seq<char>>) -> Seq<ArgView> {
    if languages.len() == 0 {
        Seq::empty()
    } else {
        seq![
            ArgView::Text("--write-subs"@),
            ArgView::Text("--write-auto-subs"@),
            ArgView::Text("--sub-langs"@),
            ArgView::Text(text::join(languages, ","@)),
            ArgView::Text("--sleep-subtitles"@),
            ArgView::Text("1"@),
            ArgView::Text("--retries"@),
            ArgView::Text("5"@),
            ArgView::Text("--ignore-errors"@),
        ]
    }
}

/// The arguments that choose the formats of a video.
pub open spec fn choice_args(task: RecordView) -> Seq<ArgView> {
    if task.raw_format_code is Some && !text::blank(task.raw_format_code->0) {
        seq![ArgView::Text("-f"@), ArgView::Text(task.raw_format_code->0)]
    } else {
        match quality_height(task.quality) {
            Some(height) => seq![ArgView::Text("-f"@), ArgView::Text(format_choice(height))],
            None => Seq::empty(),
        }
    }
}

/// The arguments that choose what the file is in the end.
pub open spec fn merge_args(container: Seq<char>) -> Seq<ArgView> {
    if text::blank(container) {
        Seq::empty()
    } else {
        seq![ArgView::Text("--merge-output-format"@), ArgView::Text(container)]
    }
}

/// The arguments that choose between sound alone and a video, and its formats.
pub open spec fn format_args(task: RecordView) -> Seq<ArgView> {
    if task.download_mode == "audio"@ {
        seq![
            ArgView::Text("-x"@),
            ArgView::Text("--audio-format"@),
            ArgView::Text(task.container),
        ]
    } else {
        choice_args(task) + merge_args(task.container)
    }
}

/// The arguments that a user gave, but for those that are blank.
pub open spec fn user_args(list: Seq<Seq<char>>) -> Seq<ArgView>
    decreases list.len(),
{
    if list.len() == 0 {
        Seq::empty()
    } else if text::blank(list.last()) {
        user_args(list.drop_last())
    } else {
        user_args(list.drop_last()).push(ArgView::Text(list.last()))
    }
}

/// The arguments of the command that downloads a task.
pub open spec fn download_args(
    runtime_dir: FsPathView,
    task: RecordView,
    output_dir: FsPathView,
) -> Seq<ArgView> {
    (base_args(output_dir) + cookies::cookie_args(
        runtime_dir,
        task.cookie_file_name,
        task.cookie_browser,
        task.cookie_browser_profile,
    ) + subtitle_args(task.subtitle_languages) + format_args(task) + user_args(task.raw_args)).push(
        ArgView::Text(task.source_url),
    )
}

fn push_base(args: &mut Vec<CommandArg>, output_dir: &FsPath)
    requires
        old(args).len() == 0,
    ensures
        command::args_view(final(args)@) == base_args(output_dir@),
{
    assert(command::args_view(args@) =~= Seq::<ArgView>::empty());
    command::push_text(args, "--ignore-config");
    command::push_text(args, "--newline");
    command::push_text(args, "--progress");
    command::push_text(args, "--paths");
    command::push_path(args, output_dir);
    command::push_text(args, "-o");
    command::push_text(args, "%(title)s [%(id)s].%(ext)s");
    command::push_text(args, "--restrict-filenames");
    assert(command::args_view(args@) =~= base_args(output_dir@));
}

fn push_subtitles(args: &mut Vec<CommandArg>, languages: &Vec<String>)
    ensures
        command::args_view(final(args)@) == command::args_view(old(args)@) + subtitle_args(
            text::texts(languages@),
        ),
{
    let ghost before = command::args_view(args@);
    if languages.len() > 0 {
        command::push_text(args, "--write-subs");
        command::push_text(args, "--write-auto-subs");
        command::push_text(args, "--sub-langs");
        command::push_text(args, text::join_texts(languages, ",").as_str());
        command::push_text(args, "--sleep-subtitles");
        command::push_text(args, "1");
        command::push_text(args, "--retries");
        command::push_text(args, "5");
        command::push_text(args, "--ignore-errors");
    }
    assert(command::args_view(args@) =~= before + subtitle_args(text::texts(languages@)));
}

fn push_choice(args: &mut Vec<CommandArg>, task: &TaskRecord)
    ensures
        command::args_view(final(args)@) == command::args_view(old(args)@) + choice_args(task@),
{
    let ghost before = command::args_view(args@);
    if let Some(code) = &task.raw_format_code {
        if !text::is_blank(code.as_str()) {
            command::push_text(args, "-f");
            command::push_text(args, code.as_str());
            assert(command::args_view(args@) =~= before + choice_args(task@));
            return ;
        }
    }
    if let Some(height) = parse_quality_height(task.quality.as_str()) {
        command::push_text(args, "-f");
        command::push_text(args, choose_format(height).as_str());
    }
    assert(command::args_view(args@) =~= before + choice_args(task@));
}

fn push_format(args: &mut Vec<CommandArg>, task: &TaskRecord)
    ensures
        command::args_view(final(args)@) == command::args_view(old(args)@) + format_args(task@),
{
    let ghost before = command::args_view(args@);
    if text::same(task.download_mode.as_str(), "audio") {
        command::push_text(args, "-x");
        command::push_text(args, "--audio-format");
        command::push_text(args, task.container.as_str());
    } else {
        push_choice(args, task);
        if !text::is_blank(task.container.as_str()) {
            command::push_text(args, "--merge-output-format");
            command::push_text(args, task.container.as_str());
        }
    }
    assert(command::args_view(args@) =~= before + format_args(task@));
}

fn push_user_args(args: &mut Vec<CommandArg>, list: &Vec<String>)
    ensures
        command::args_view(final(args)@) == command::args_view(old(args)@) + user_args(
            text::texts(list@),
        ),
{
    let ghost start = command::args_view(args@);
    let ghost all = text::texts(list@);
    let mut i: usize = 0;
    assert(all.take(0) =~= Seq::<Seq<char>>::empty());
    assert(start =~= start + user_args(all.take(0)));
    while i < list.len()
        invariant
            i <= list.len(),
            all == text::texts(list@),
            command::args_view(args@) == start + user_args(all.take(i as int)),
        decreases list.len() - i,
    {
        assert(all.take(i + 1).drop_last() =~= all.take(i as int));
        assert(all.take(i + 1).last() == list@[i as int]@);
        if !text::is_blank(list[i].as_str()) {
            command::push_text(args, list[i].as_str());
            assert(command::args_view(args@) =~= start + user_args(all.take(i + 1)));
        }
        i = i + 1;
    }
    assert(all.take(i as int) =~= all);
}

/// The command that downloads a task.
pub fn build_command(
    yt_dlp_path: &FsPath,
    runtime_dir: &FsPath,
    task: &TaskRecord,
    download_root: &FsPath,
    output_dir: &FsPath,
) -> (r: CommandLine)
    ensures
        r@ == (CommandView {
            program: yt_dlp_path@,
            args: download_args(runtime_dir@, task@, output_dir@),
            current_dir: download_root@,
        }),
{
    let mut args: Vec<CommandArg> = Vec::new();
    push_base(&mut args, output_dir);
    cookies::apply_cookie_arguments(
        &mut args,
        runtime_dir,
        text::borrow_opt(&task.cookie_file_name),
        text::borrow_opt(&task.cookie_browser),
        text::borrow_opt(&task.cookie_browser_profile),
    );
    push_subtitles(&mut args, &task.subtitle_languages);
    push_format(&mut args, task);
    push_user_args(&mut args, &task.raw_args);
    command::push_text(&mut args, task.source_url.as_str());
    CommandLine {
        program: yt_dlp_path.clone(),
        args,
        current_dir: download_root.clone(),
    }
}

/// The command ends with the address of the video, reads no configuration, and puts its files
/// below the directory of the task.
pub proof fn the_address_comes_last(
    runtime_dir: FsPathView,
    task: RecordView,
    output_dir: FsPathView,
)
    ensures
        ({
            let args = download_args(runtime_dir, task, output_dir);
            &&& args.last() == ArgView::Text(task.source_url)
            &&& args[0] == ArgView::Text("--ignore-config"@)
            &&& args[3] == ArgView::Text("--paths"@)
            &&& args[4] == ArgView::Path(output_dir)
        }),
{
}

}
