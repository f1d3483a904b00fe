//! Where the bridge keeps its state, and how a file of it is replaced.
use vstd::prelude::*;

use crate::paths;
use crate::paths::{FsPath, FsPathView};
use crate::text;

verus! {

/// The directories and files of the bridge.
pub struct AppPaths {
    pub executable_dir: FsPath,
    pub data_root: FsPath,
    pub state_root: FsPath,
    pub settings_path: FsPath,
    pub queue_path: FsPath,
    pub tasks_dir: FsPath,
    pub playlists_dir: FsPath,
    pub attempts_dir: FsPath,
    pub library_dir: FsPath,
    pub runtime_dir: FsPath,
    pub logs_dir: FsPath,
}

/// What [`AppPaths`] say.
#[verifier::ext_equal]
pub struct AppPathsView {
    pub executable_dir: FsPathView,
    pub data_root: FsPathView,
    pub state_root: FsPathView,
    pub settings_path: FsPathView,
    pub queue_path: FsPathView,
    pub tasks_dir: FsPathView,
    pub playlists_dir: FsPathView,
    pub attempts_dir: FsPathView,
    pub library_dir: FsPathView,
    pub runtime_dir: FsPathView,
    pub logs_dir: FsPathView,
}

impl View for AppPaths {
    type V = AppPathsView;

    open spec fn view(&self) -> AppPathsView {
        AppPathsView {
            executable_dir: self.executable_dir@,
            data_root: self.data_root@,
            state_root: self.state_root@,
            settings_path: self.settings_path@,
            queue_path: self.queue_path@,
            tasks_dir: self.tasks_dir@,
            playlists_dir: self.playlists_dir@,
            attempts_dir: self.attempts_dir@,
            library_dir: self.library_dir@,
            runtime_dir: self.runtime_dir@,
            logs_dir: self.logs_dir@,
        }
    }
}

impl Clone for AppPaths {
    fn clone(&self) -> (r: Self)
        ensures
            r@ == self@,
    {
        AppPaths {
            executable_dir: self.executable_dir.clone(),
            data_root: self.data_root.clone(),
            state_root: self.state_root.clone(),
            settings_path: self.settings_path.clone(),
            queue_path: self.queue_path.clone(),
            tasks_dir: self.tasks_dir.clone(),
            playlists_dir: self.playlists_dir.clone(),
            attempts_dir: self.attempts_dir.clone(),
            library_dir: self.library_dir.clone(),
            runtime_dir: self.runtime_dir.clone(),
            logs_dir: self.logs_dir.clone(),
        }
    }
}

impl AppPathsView {
    /// The layout of a bridge whose executable stands in `executable_dir` and whose configuration
    /// directory is `config_dir`.
    pub open spec fn layout(executable_dir: Seq<char>, config_dir: Seq<char>) -> AppPathsView {
        let root = paths::at(config_dir);
        let state = root.join("state"@);
        AppPathsView {
            executable_dir: paths::at(executable_dir),
            data_root: root,
            state_root: state,
            settings_path: state.join("settings.json"@),
            queue_path: state.join("queue.json"@),
            tasks_dir: state.join("tasks"@),
            playlists_dir: state.join("playlists"@),
            attempts_dir: state.join("attempts"@),
            library_dir: state.join("library"@),
            runtime_dir: state.join("runtime"@),
            logs_dir: state.join("logs"@),
        }
    }

    /// The directories that have to be there, each behind those that it lies in.
    pub open spec fn state_dirs(self) -> Seq<FsPathView> {
        seq![
            self.data_root,
            self.state_root,
            self.tasks_dir,
            self.playlists_dir,
            self.attempts_dir,
            self.library_dir,
            self.runtime_dir,
            self.logs_dir,
        ]
    }
}

impl AppPaths {
    /// The layout below the directories that the system names.
    pub fn discover(executable_dir: &str, config_dir: &str) -> (r: Self)
        ensures
            r@ == AppPathsView::layout(executable_dir@, config_dir@),
    {
        let data_root = FsPath::new(config_dir);
        let state_root = data_root.join("state");
        AppPaths {
            executable_dir: FsPath::new(executable_dir),
            settings_path: state_root.join("settings.json"),
            queue_path: state_root.join("queue.json"),
            tasks_dir: state_root.join("tasks"),
            playlists_dir: state_root.join("playlists"),
            attempts_dir: state_root.join("attempts"),
            library_dir: state_root.join("library"),
            runtime_dir: state_root.join("runtime"),
            logs_dir: state_root.join("logs"),
            data_root,
            state_root,
        }
    }

    /// The directories that have to be there before the bridge starts, in the order in which to
    /// create them.
    pub fn ensure_state_dirs(&self) -> (r: Vec<FsPath>)
        ensures
            r@.len() == 8,
            forall|i: int| 0 <= i < 8 ==> (#[trigger] r@[i])@ == self@.state_dirs()[i],
    {
        let mut dirs: Vec<FsPath> = Vec::new();
        dirs.push(self.data_root.clone());
        dirs.push(self.state_root.clone());
        dirs.push(self.tasks_dir.clone());
        dirs.push(self.playlists_dir.clone());
        dirs.push(self.attempts_dir.clone());
        dirs.push(self.library_dir.clone());
        dirs.push(self.runtime_dir.clone());
        dirs.push(self.logs_dir.clone());
        dirs
    }
}

// ---------------------------------------------------------------------------
// Replacing a file
// ---------------------------------------------------------------------------

/// The numbers that tell the temporary files of one process apart.
pub struct WriteSequence {
    next: u64,
}

impl View for WriteSequence {
    type V = u64;

    closed spec fn view(&self) -> u64 {
        self.next
    }
}

impl WriteSequence {
    /// A sequence that starts at zero.
    pub fn new() -> (r: Self)
        ensures
            r@ == 0,
    {
        WriteSequence { next: 0 }
    }

    /// The next number, counting round at the end of the range.
    pub fn take(&mut self) -> (r: u64)
        ensures
            r == old(self)@,
            final(self)@ == (if r == u64::MAX {
                0
            } else {
                (r + 1) as u64
            }),
    {
        let r = self.next;
        self.next = if r == u64::MAX {
            0
        } else {
            r + 1
        };
        r
    }
}

/// The name of the temporary file behind write number `seq` to a file called `file_name`.
pub open spec fn temp_name(file_name: Option<Seq<char>>, seq: nat) -> Seq<char> {
    let stem = match file_name {
        Some(name) => name,
        None => "file"@,
    };
    stem + "."@ + text::decimal(seq) + ".tmp"@
}

/// The name of the temporary file behind write number `seq` to a file called `file_name`; a file
/// whose name is no text counts as `file`.
pub fn temp_file_name(file_name: Option<&str>, seq: u64) -> (r: String)
    ensures
        r@ == temp_name(text::str_opt(file_name), seq as nat),
{
    let mut name = match file_name {
        Some(stem) => stem.to_owned(),
        None => "file".to_owned(),
    };
    name.append(".");
    name.append(text::to_decimal(seq).as_str());
    name.append(".tmp");
    name
}

/// Two writes with different numbers never share a temporary file, whatever the files are called;
/// and no temporary file is the file that it stands in for.
pub proof fn temp_names_are_apart(
    name1: Option<Seq<char>>,
    seq1: nat,
    name2: Option<Seq<char>>,
    seq2: nat,
)
    ensures
        temp_name(name1, seq1) == temp_name(name2, seq2) ==> seq1 == seq2,
        name1 matches Some(name) ==> temp_name(name1, seq1) != name,
{
    reveal_strlit(".");
    reveal_strlit(".tmp");
    reveal_strlit("file");
    let stem1 = match name1 {
        Some(name) => name,
        None => "file"@,
    };
    let stem2 = match name2 {
        Some(name) => name,
        None => "file"@,
    };
    text::decimal_reads_back(seq1);
    text::decimal_reads_back(seq2);
    let d1 = text::decimal(seq1);
    let d2 = text::decimal(seq2);
    let a = temp_name(name1, seq1);
    let b = temp_name(name2, seq2);
    assert(a.take(a.len() - 4) =~= stem1.push('.') + d1);
    assert(b.take(b.len() - 4) =~= stem2.push('.') + d2);
    if a == b {
        text::lemma_tail_digits(stem1, d1, stem2, d2, '.');
    }
}

/// The steps in which a file is replaced.
#[derive(Clone, Copy, Debug, PartialEq, Eq)]
pub enum WriteStep {
    /// Create the directory that the file lies in.
    CreateParent,
    /// Create the temporary file beside the file.
    CreateTemp,
    /// Write the bytes to the temporary file.
    WriteTemp,
    /// Wait until the temporary file is on disk.
    SyncTemp,
    /// Give the temporary file the name of the file, in place of what had it.
    RenameTemp,
}

/// The step after `done`; `None` when the file is replaced.
pub open spec fn step_after(done: Option<WriteStep>) -> Option<WriteStep> {
    match done {
        None => Some(WriteStep::CreateParent),
        Some(WriteStep::CreateParent) => Some(WriteStep::CreateTemp),
        Some(WriteStep::CreateTemp) => Some(WriteStep::WriteTemp),
        Some(WriteStep::WriteTemp) => Some(WriteStep::SyncTemp),
        Some(WriteStep::SyncTemp) => Some(WriteStep::RenameTemp),
        Some(WriteStep::RenameTemp) => None,
    }
}

/// The step to take after `done`.
pub fn next_write_step(done: Option<WriteStep>) -> (r: Option<WriteStep>)
    ensures
        r == step_after(done),
{
    match done {
        None => Some(WriteStep::CreateParent),
        Some(WriteStep::CreateParent) => Some(WriteStep::CreateTemp),
        Some(WriteStep::CreateTemp) => Some(WriteStep::WriteTemp),
        Some(WriteStep::WriteTemp) => Some(WriteStep::SyncTemp),
        Some(WriteStep::SyncTemp) => Some(WriteStep::RenameTemp),
        Some(WriteStep::RenameTemp) => None,
    }
}

/// What a file and the temporary file beside it hold; `None` where there is no such file.
#[verifier::ext_equal]
pub struct Replacing {
    pub target: Option<Seq<u8>>,
    pub temp: Option<Seq<u8>>,
}

impl Replacing {
    /// The two files after a step in which these bytes are to be written succeeded.
    pub open spec fn after(self, step: WriteStep, bytes: Seq<u8>) -> Replacing {
        match step {
            WriteStep::CreateParent => self,
            WriteStep::CreateTemp => Replacing { temp: Some(Seq::empty()), ..self },
            WriteStep::WriteTemp => Replacing { temp: Some(bytes), ..self },
            WriteStep::SyncTemp => self,
            WriteStep::RenameTemp => Replacing { target: self.temp, temp: None },
        }
    }

    /// The two files after the first `count` steps succeeded.
    pub open spec fn after_steps(self, count: nat, bytes: Seq<u8>) -> Replacing
        decreases count,
    {
        if count == 0 {
            self
        } else {
            match step_after(steps_done((count - 1) as nat)) {
                Some(step) => self.after_steps((count - 1) as nat, bytes).after(step, bytes),
                None => self.after_steps((count - 1) as nat, bytes),
            }
        }
    }
}

/// The last of the first `count` steps.
pub open spec fn steps_done(count: nat) -> Option<WriteStep>
    decreases count,
{
    if count == 0 {
        None
    } else {
        match step_after(steps_done((count - 1) as nat)) {
            Some(step) => Some(step),
            None => steps_done((count - 1) as nat),
        }
    }
}

/// The file is touched only once the new bytes are on disk: the temporary file takes its name
/// right after it was synced, and this is the last step.
pub proof fn target_is_touched_last(done: Option<WriteStep>)
    ensures
        step_after(done) == Some(WriteStep::RenameTemp) <==> done == Some(WriteStep::SyncTemp),
        step_after(done) is None <==> done == Some(WriteStep::RenameTemp),
{
}

/// No step removes the file: each leaves it as it is, but for the one that gives it all that the
/// temporary file holds.
pub proof fn no_step_removes_the_file(files: Replacing, step: WriteStep, bytes: Seq<u8>)
    ensures
        step != WriteStep::RenameTemp ==> files.after(step, bytes).target == files.target,
        step == WriteStep::RenameTemp ==> files.after(step, bytes).target == files.temp,
{
}

/// A file is replaced as a whole: wherever the steps break off, the file is as it was before, and
/// after the last of them it holds the new bytes, and the temporary file is gone.
pub proof fn a_file_is_replaced_whole(files: Replacing, count: nat, bytes: Seq<u8>)
    ensures
        step_after(steps_done(count)) is Some ==> files.after_steps(count, bytes).target
            == files.target,
        step_after(steps_done(count)) is None ==> files.after_steps(count, bytes) == (Replacing {
            target: Some(bytes),
            temp: None,
        }),
        step_after(steps_done(count)) is None <==> count >= 5,
    decreases count,
{
    reveal_with_fuel(steps_done, 7);
    reveal_with_fuel(Replacing::after_steps, 7);
    if count > 5 {
        a_file_is_replaced_whole(files, (count - 1) as nat, bytes);
    }
}

}
