//! What a download that did not finish leaves behind: files, and programs that still hold them.
use vstd::prelude::*;

use crate::downloads::finish;
use crate::order;
use crate::tasks::record::{RecordView, TaskRecord};
use crate::text;

verus! {

// ---------------------------------------------------------------------------
// Unfinished files
// ---------------------------------------------------------------------------

/// The name of an unfinished file.
pub open spec fn unfinished(name: Seq<char>) -> bool {
    text::ends(name, ".part"@) || text::ends(name, ".ytdl"@) || text::occurs(name, ".frag"@)
        || text::ends(name, ".temp"@)
}

/// The name of an unfinished file of this video. Of a video whose id is not known, no file is.
pub open spec fn unfinished_of(name: Seq<char>, video_id: Option<Seq<char>>) -> bool {
    video_id is Some && video_id->0.len() > 0 && text::occurs(name, video_id->0) && unfinished(name)
}

/// Whether this is the name of an unfinished file of the video of a task.
pub fn is_unfinished_file(name: &str, task: &TaskRecord) -> (r: bool)
    ensures
        r == unfinished_of(name@, task@.video_id),
{
    match &task.video_id {
        Some(id) => !id.as_str().is_empty() && text::contains(name, id.as_str()) && (
        text::ends_with(name, ".part") || text::ends_with(name, ".ytdl") || text::contains(
            name,
            ".frag",
        ) || text::ends_with(name, ".temp")),
        None => false,
    }
}

/// How often the deletion of files that are held is tried.
pub const DELETE_ATTEMPTS: u32 = 10;

/// What comes after an attempt to delete unfinished files.
#[derive(Clone, Copy, PartialEq, Eq, Structural)]
pub enum DeleteStep {
    /// All of them are gone.
    Done,
    /// Some are held by a program: wait, then try again, as often as this still.
    Wait { remaining: u32 },
}

/// What comes after attempt number `attempt`, counted from zero.
pub fn after_delete_attempt(attempt: u32, locked: bool) -> (r: DeleteStep)
    requires
        attempt < DELETE_ATTEMPTS,
    ensures
        r == (if locked {
            DeleteStep::Wait { remaining: (DELETE_ATTEMPTS - 1 - attempt) as u32 }
        } else {
            DeleteStep::Done
        }),
{
    if locked {
        DeleteStep::Wait { remaining: DELETE_ATTEMPTS - 1 - attempt }
    } else {
        DeleteStep::Done
    }
}

/// But for fragments and temporary files, no file is taken for unfinished and for finished at
/// once: what is left to the user is not deleted, and what is deleted is not claimed.
pub proof fn finished_files_are_kept(name: Seq<char>, video_id: Option<Seq<char>>)
    requires
        !text::occurs(name, ".frag"@),
        !text::ends(name, ".temp"@),
    ensures
        !(unfinished_of(name, video_id) && finish::finished_name(
            name,
            video_id,
        )),
{
}

// ---------------------------------------------------------------------------
// Programs that still hold them
// ---------------------------------------------------------------------------

/// An unfinished file: where it is on the machine, and its name where that can be told.
pub struct PartialFile {
    pub full: String,
    pub name: Option<String>,
}

/// What a [`PartialFile`] says.
#[verifier::ext_equal]
pub struct PartialView {
    pub full: Seq<char>,
    pub name: Option<Seq<char>>,
}

impl View for PartialFile {
    type V = PartialView;

    open spec fn view(&self) -> PartialView {
        PartialView { full: self.full@, name: text::text_opt(self.name) }
    }
}

/// What each of them says.
pub open spec fn partials_view(files: Seq<PartialFile>) -> Seq<PartialView> {
    Seq::new(files.len(), |i: int| files[i]@)
}

/// Something that was found in the directory of a task.
pub struct Candidate {
    /// Its name, with a stand-in for what cannot be written down.
    pub name: String,
    pub is_file: bool,
    pub file: PartialFile,
}

/// What a [`Candidate`] says.
#[verifier::ext_equal]
pub struct CandidateView {
    pub name: Seq<char>,
    pub is_file: bool,
    pub file: PartialView,
}

impl View for Candidate {
    type V = CandidateView;

    open spec fn view(&self) -> CandidateView {
        CandidateView { name: self.name@, is_file: self.is_file, file: self.file@ }
    }
}

/// What each of them says.
pub open spec fn candidates_view(found: Seq<Candidate>) -> Seq<CandidateView> {
    Seq::new(found.len(), |i: int| found[i]@)
}

/// The unfinished files of a video among what was found.
pub open spec fn unfinished_among(
    found: Seq<CandidateView>,
    video_id: Option<Seq<char>>,
) -> Seq<PartialView>
    decreases found.len(),
{
    if found.len() == 0 {
        Seq::empty()
    } else {
        let rest = unfinished_among(found.drop_last(), video_id);
        if found.last().is_file && unfinished_of(found.last().name, video_id) {
            rest.push(found.last().file)
        } else {
            rest
        }
    }
}

/// The unfinished files of a task among what was found in its directory.
pub fn partial_file_candidates(found: &Vec<Candidate>, task: &TaskRecord) -> (r: Vec<PartialFile>)
    ensures
        partials_view(r@) == unfinished_among(candidates_view(found@), task@.video_id),
{
    let ghost all = candidates_view(found@);
    let ghost id = task@.video_id;
    let mut files: Vec<PartialFile> = Vec::new();
    let mut i: usize = 0;
    assert(all.take(0) =~= Seq::<CandidateView>::empty());
    assert(partials_view(files@) =~= unfinished_among(all.take(0), id));
    while i < found.len()
        invariant
            i <= found.len(),
            all == candidates_view(found@),
            id == task@.video_id,
            partials_view(files@) == unfinished_among(all.take(i as int), id),
        decreases found.len() - i,
    {
        let ghost before = files@;
        assert(all.take(i + 1).drop_last() =~= all.take(i as int));
        assert(all.take(i + 1).last() == found@[i as int]@);
        if found[i].is_file && is_unfinished_file(found[i].name.as_str(), task) {
            let file = PartialFile {
                full: found[i].file.full.clone(),
                name: text::clone_opt(&found[i].file.name),
            };
            let ghost shown = file@;
            files.push(file);
            assert(partials_view(files@) =~= partials_view(before).push(shown));
        }
        i = i + 1;
    }
    assert(all.take(i as int) =~= all);
    files
}

/// What the command lines of programs that work on these files hold.
pub open spec fn file_needles(files: Seq<PartialView>) -> Seq<Seq<char>>
    decreases files.len(),
{
    if files.len() == 0 {
        Seq::empty()
    } else {
        let with_path = file_needles(files.drop_last()).push(
            text::replaced(files.last().full, '/', '\\'),
        );
        match files.last().name {
            Some(name) => with_path.push(name),
            None => with_path,
        }
    }
}

/// What the command lines of programs that work on a task hold.
pub open spec fn task_needles(task: RecordView) -> Seq<Seq<char>> {
    let id: Seq<Seq<char>> = if task.video_id is Some && !text::blank(task.video_id->0) {
        seq![task.video_id->0]
    } else {
        Seq::empty()
    };
    let url: Seq<Seq<char>> = if text::blank(task.source_url) {
        Seq::empty()
    } else {
        seq![task.source_url]
    };
    let place: Seq<Seq<char>> = if text::blank(task.target_subdir) {
        Seq::empty()
    } else {
        seq![text::replaced(task.target_subdir, '/', '\\')]
    };
    id + url + place
}

/// The list without what repeats the item before it.
pub open spec fn without_repeats(list: Seq<Seq<char>>) -> Seq<Seq<char>>
    decreases list.len(),
{
    if list.len() < 2 {
        list
    } else if list[list.len() - 2] == list.last() {
        without_repeats(list.drop_last())
    } else {
        without_repeats(list.drop_last()).push(list.last())
    }
}

/// What a program that works on a task, or on its unfinished files, is known by: some of these
/// stand in its command line. They are sorted, each of them once.
pub open spec fn needles(task: RecordView, files: Seq<PartialView>) -> Seq<Seq<char>> {
    without_repeats(order::sorted_by(task_needles(task) + file_needles(files), order::by_itself()))
}

fn drop_repeats(list: &Vec<String>) -> (r: Vec<String>)
    ensures
        text::texts(r@) == without_repeats(text::texts(list@)),
{
    let ghost all = text::texts(list@);
    let mut kept: Vec<String> = Vec::new();
    let mut i: usize = 0;
    assert(all.take(0) =~= Seq::<Seq<char>>::empty());
    assert(text::texts(kept@) =~= without_repeats(all.take(0)));
    while i < list.len()
        invariant
            i <= list.len(),
            all == text::texts(list@),
            text::texts(kept@) == without_repeats(all.take(i as int)),
        decreases list.len() - i,
    {
        let ghost before = kept@;
        let ghost part = all.take(i + 1);
        assert(part.drop_last() =~= all.take(i as int));
        assert(part.last() == list@[i as int]@);
        if i > 0 {
            assert(part[part.len() - 2] == list@[i - 1]@);
        }
        if i == 0 || list[i] != list[i - 1] {
            kept.push(list[i].clone());
            assert(text::texts(kept@) =~= text::texts(before).push(list@[i as int]@));
            if i == 0 {
                assert(text::texts(kept@) =~= part);
            }
        }
        i = i + 1;
    }
    assert(all.take(i as int) =~= all);
    kept
}

/// What a program that works on a task, or on its unfinished files, is known by.
pub fn download_process_needles(task: &TaskRecord, files: &Vec<PartialFile>) -> (r: Vec<String>)
    ensures
        text::texts(r@) == needles(task@, partials_view(files@)),
{
    let mut list: Vec<String> = Vec::new();
    assert(text::texts(list@) =~= Seq::<Seq<char>>::empty());
    if let Some(id) = &task.video_id {
        if !text::is_blank(id.as_str()) {
            list.push(id.clone());
        }
    }
    let ghost first = text::texts(list@);
    if !text::is_blank(task.source_url.as_str()) {
        list.push(task.source_url.clone());
    }
    let ghost second = text::texts(list@);
    if !text::is_blank(task.target_subdir.as_str()) {
        list.push(text::replace_char(task.target_subdir.as_str(), '/', '\\'));
    }
    assert(text::texts(list@) =~= task_needles(task@));
    let ghost start = text::texts(list@);
    let ghost all = partials_view(files@);
    let mut i: usize = 0;
    assert(all.take(0) =~= Seq::<PartialView>::empty());
    assert(start =~= start + file_needles(all.take(0)));
    while i < files.len()
        invariant
            i <= files.len(),
            all == partials_view(files@),
            text::texts(list@) == start + file_needles(all.take(i as int)),
        decreases files.len() - i,
    {
        let ghost before = list@;
        assert(all.take(i + 1).drop_last() =~= all.take(i as int));
        assert(all.take(i + 1).last() == files@[i as int]@);
        let full = text::replace_char(files[i].full.as_str(), '/', '\\');
        let ghost shown = full@;
        list.push(full);
        assert(text::texts(list@) =~= text::texts(before).push(shown));
        if let Some(name) = &files[i].name {
            let ghost between = list@;
            list.push(name.clone());
            assert(text::texts(list@) =~= text::texts(between).push(name@));
        }
        i = i + 1;
        assert(text::texts(list@) =~= start + file_needles(all.take(i as int)));
    }
    assert(all.take(i as int) =~= all);
    drop_repeats(&order::sort_texts(list))
}

/// The test that a needle stands in a command line.
pub open spec fn needle_check(needle: Seq<char>) -> Seq<char> {
    "$cmd.IndexOf('"@ + text::doubled(needle, '\'')
        + "', [System.StringComparison]::OrdinalIgnoreCase) -ge 0"@
}

/// The tests for all needles.
pub open spec fn needle_checks(list: Seq<Seq<char>>) -> Seq<Seq<char>> {
    Seq::new(list.len(), |i: int| needle_check(list[i]))
}

/// The script that lists the programs in whose command lines one of the needles stands.
pub open spec fn helper_script(list: Seq<Seq<char>>) -> Seq<char> {
    "$ErrorActionPreference='SilentlyContinue'; Get-CimInstance Win32_Process | Where-Object { $cmd = $_.CommandLine; $name = $_.Name; $cmd -and ($name -in @('yt-dlp.exe','yt-dlp','ffmpeg.exe','ffmpeg','python.exe','pythonw.exe')) -and ("@
        + text::join(needle_checks(list), " -or "@)
        + ") } | Select-Object -ExpandProperty ProcessId"@
}

/// A text between single quotes, for PowerShell: each of them in it is written twice.
pub fn powershell_single_quote(value: &str) -> (r: String)
    ensures
        r@ == text::doubled(value@, '\''),
{
    text::double_char(value, '\'')
}

/// The script that lists the programs in whose command lines one of the needles stands; `None`
/// where there are no needles.
pub fn matching_helper_script(list: &Vec<String>) -> (r: Option<String>)
    ensures
        text::text_opt(r) == (if list@.len() == 0 {
            None
        } else {
            Some(helper_script(text::texts(list@)))
        }),
{
    if list.len() == 0 {
        return None;
    }
    let ghost all = text::texts(list@);
    let mut checks: Vec<String> = Vec::new();
    let mut i: usize = 0;
    while i < list.len()
        invariant
            i <= list.len(),
            checks.len() == i,
            forall|j: int| 0 <= j < i ==> (#[trigger] checks@[j])@ == needle_check(list@[j]@),
        decreases list.len() - i,
    {
        let mut check = "$cmd.IndexOf('".to_owned();
        check.append(powershell_single_quote(list[i].as_str()).as_str());
        check.append("', [System.StringComparison]::OrdinalIgnoreCase) -ge 0");
        checks.push(check);
        i = i + 1;
    }
    assert(text::texts(checks@) =~= needle_checks(all));
    let mut script =
        "$ErrorActionPreference='SilentlyContinue'; Get-CimInstance Win32_Process | Where-Object { $cmd = $_.CommandLine; $name = $_.Name; $cmd -and ($name -in @('yt-dlp.exe','yt-dlp','ffmpeg.exe','ffmpeg','python.exe','pythonw.exe')) -and (".to_owned();
    script.append(text::join_texts(&checks, " -or ").as_str());
    script.append(") } | Select-Object -ExpandProperty ProcessId");
    Some(script)
}

/// The numbers that stand alone on these lines.
pub open spec fn numbers_in(lines: Seq<Seq<char>>) -> Seq<u32>
    decreases lines.len(),
{
    if lines.len() == 0 {
        Seq::empty()
    } else {
        let rest = numbers_in(lines.drop_last());
        match text::unsigned(text::trimmed(lines.last()), u32::MAX as nat) {
            Some(n) => rest.push(n as u32),
            None => rest,
        }
    }
}

/// The numbers of the programs that the script listed, one on each line.
pub fn read_pids(output: &str) -> (r: Vec<u32>)
    ensures
        r@ == numbers_in(text::split_on(output@, '\n')),
{
    let lines = text::split_text(output, '\n');
    let ghost all = text::texts(lines@);
    let mut pids: Vec<u32> = Vec::new();
    let mut i: usize = 0;
    assert(all.take(0) =~= Seq::<Seq<char>>::empty());
    assert(pids@ =~= numbers_in(all.take(0)));
    while i < lines.len()
        invariant
            i <= lines.len(),
            all == text::texts(lines@),
            pids@ == numbers_in(all.take(i as int)),
        decreases lines.len() - i,
    {
        assert(all.take(i + 1).drop_last() =~= all.take(i as int));
        assert(all.take(i + 1).last() == lines@[i as int]@);
        if let Some(n) = text::parse_unsigned(text::trim(lines[i].as_str()).as_str(), 0xffff_ffff) {
            pids.push(n as u32);
        }
        i = i + 1;
    }
    assert(all.take(i as int) =~= all);
    pids
}

/// How often programs that hold files are looked for and ended.
pub const HELPER_ATTEMPTS: u32 = 20;

/// What comes after a look for programs that hold files.
#[derive(Clone, Copy, PartialEq, Eq, Structural)]
pub enum HelperStep {
    /// There are none.
    Done,
    /// End them, wait, and look again.
    EndThem,
    /// There still are some, but they were ended often enough.
    GiveUp,
}

/// What comes after look number `look`, counted from zero.
pub fn after_helper_look(look: u32, found: bool) -> (r: HelperStep)
    ensures
        r == (if !found {
            HelperStep::Done
        } else if look < HELPER_ATTEMPTS {
            HelperStep::EndThem
        } else {
            HelperStep::GiveUp
        }),
{
    if !found {
        HelperStep::Done
    } else if look < HELPER_ATTEMPTS {
        HelperStep::EndThem
    } else {
        HelperStep::GiveUp
    }
}

// ---------------------------------------------------------------------------
// Laws of needles
// ---------------------------------------------------------------------------

proof fn lemma_without_repeats(list: Seq<Seq<char>>, s: Seq<char>)
    requires
        order::ascending(list, order::by_itself()),
    ensures
        without_repeats(list).contains(s) <==> list.contains(s),
        without_repeats(list).no_duplicates(),
        order::ascending(without_repeats(list), order::by_itself()),
        list.len() > 0 ==> without_repeats(list).len() > 0 && without_repeats(list).last()
            == list.last(),
    decreases list.len(),
{
    if list.len() >= 2 {
        let head = list.drop_last();
        let last = list.last();
        let rest = without_repeats(head);
        let key = order::by_itself();
        assert(order::ascending(head, key)) by {
            assert forall|i: int, j: int| 0 <= i <= j < head.len() implies order::lex_le(
                key(#[trigger] head[i]),
                key(#[trigger] head[j]),
            ) by {
                assert(order::lex_le(key(list[i]), key(list[j])));
            }
        }
        lemma_without_repeats(head, s);
        assert(head.last() == list[list.len() - 2]);
        assert(list.contains(s) <==> head.contains(s) || s == last) by {
            if head.contains(s) {
                let k = choose|k: int| 0 <= k < head.len() && head[k] == s;
                assert(list[k] == s);
            }
            if s == last {
                assert(list[list.len() - 1] == s);
            }
            if list.contains(s) && s != last {
                let k = choose|k: int| 0 <= k < list.len() && list[k] == s;
                assert(head[k] == s);
            }
        }
        if head.last() == last {
            assert(head[head.len() - 1] == last);
        } else {
            let all = rest.push(last);
            assert(all.contains(s) <==> rest.contains(s) || s == last) by {
                if rest.contains(s) {
                    let k = choose|k: int| 0 <= k < rest.len() && rest[k] == s;
                    assert(all[k] == s);
                }
                if s == last {
                    assert(all[all.len() - 1] == s);
                }
                if all.contains(s) && s != last {
                    let k = choose|k: int| 0 <= k < all.len() && all[k] == s;
                    assert(rest[k] == s);
                }
            }
            assert forall|i: int| 0 <= i < rest.len() implies #[trigger] rest[i] != last
                && order::lex_le(rest[i], last) by {
                assert(order::lex_le(key(rest[i]), key(rest[rest.len() - 1])));
                assert(order::lex_le(key(list[list.len() - 2]), key(list[list.len() - 1])));
                order::lemma_lex_transitive(rest[i], head.last(), last);
                if rest[i] == last {
                    order::lemma_lex_total(last, head.last());
                }
            }
            assert forall|i: int, j: int|
                0 <= i < all.len() && 0 <= j < all.len() && i != j implies all[i] != all[j] by {
                if i < rest.len() && j < rest.len() {
                    assert(rest[i] != rest[j]);
                }
            }
            assert forall|i: int, j: int| 0 <= i <= j < all.len() implies order::lex_le(
                key(#[trigger] all[i]),
                key(#[trigger] all[j]),
            ) by {
                if j < rest.len() {
                    assert(order::lex_le(key(rest[i]), key(rest[j])));
                } else if i < rest.len() {
                    assert(order::lex_le(rest[i], last));
                } else {
                    order::lemma_lex_reflexive(last);
                }
            }
        }
    }
}

/// The needles are sorted, each of them stands there once, and none is lost.
pub proof fn needles_are_a_sorted_set(task: RecordView, files: Seq<PartialView>, s: Seq<char>)
    ensures
        order::ascending(needles(task, files), order::by_itself()),
        needles(task, files).no_duplicates(),
        needles(task, files).contains(s) <==> task_needles(task).contains(s) || file_needles(
            files,
        ).contains(s),
{
    let a = task_needles(task);
    let b = file_needles(files);
    let all = a + b;
    let sorted = order::sorted_by(all, order::by_itself());
    order::sorting_ascends(all, order::by_itself());
    lemma_without_repeats(sorted, s);
    order::lemma_sorted_len(all, order::by_itself());
    if all.contains(s) {
        let i = choose|i: int| 0 <= i < all.len() && all[i] == s;
        order::lemma_rank(all, order::by_itself(), i);
        assert(sorted[order::rank(all, order::by_itself(), i)] == s);
        if i < a.len() {
            assert(a[i] == s);
        } else {
            assert(b[i - a.len()] == s);
        }
    }
    if sorted.contains(s) {
        let k = choose|k: int| 0 <= k < sorted.len() && sorted[k] == s;
        order::lemma_sorted_members(all, order::by_itself(), k);
    }
    if a.contains(s) {
        let i = choose|i: int| 0 <= i < a.len() && a[i] == s;
        assert(all[i] == s);
    }
    if b.contains(s) {
        let i = choose|i: int| 0 <= i < b.len() && b[i] == s;
        assert(all[a.len() + i] == s);
    }
}

}
