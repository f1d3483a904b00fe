//! The command lines that the bridge runs.
use vstd::prelude::*;

use crate::paths::{FsPath, FsPathView};

verus! {

/// An argument of a command.
pub enum CommandArg {
    Text(String),
    Path(FsPath),
}

/// What a [`CommandArg`] says.
#[verifier::ext_equal]
pub enum ArgView {
    Text(Seq<char>),
    Path(FsPathView),
}

impl View for CommandArg {
    type V = ArgView;

    open spec fn view(&self) -> ArgView {
        match self {
            CommandArg::Text(s) => ArgView::Text(s@),
            CommandArg::Path(p) => ArgView::Path(p@),
        }
    }
}

/// What each argument says.
pub open spec fn args_view(args: Seq<CommandArg>) -> Seq<ArgView> {
    Seq::new(args.len(), |i: int| args[i]@)
}

/// A command: the program, its arguments, and the directory that it runs in.
pub struct CommandLine {
    pub program: FsPath,
    pub args: Vec<CommandArg>,
    pub current_dir: FsPath,
}

/// What a [`CommandLine`] says.
#[verifier::ext_equal]
pub struct CommandView {
    pub program: FsPathView,
    pub args: Seq<ArgView>,
    pub current_dir: FsPathView,
}

impl View for CommandLine {
    type V = CommandView;

    open spec fn view(&self) -> CommandView {
        CommandView {
            program: self.program@,
            args: args_view(self.args@),
            current_dir: self.current_dir@,
        }
    }
}

/// Adds a text argument.
pub fn push_text(args: &mut Vec<CommandArg>, s: &str)
    ensures
        args_view(final(args)@) == args_view(old(args)@).push(ArgView::Text(s@)),
{
    args.push(CommandArg::Text(s.to_owned()));
    assert(args_view(args@) =~= args_view(old(args)@).push(ArgView::Text(s@)));
}

/// Adds an argument that is a path.
pub fn push_path(args: &mut Vec<CommandArg>, path: &FsPath)
    ensures
        args_view(final(args)@) == args_view(old(args)@).push(ArgView::Path(path@)),
{
    args.push(CommandArg::Path(path.clone()));
    assert(args_view(args@) =~= args_view(old(args)@).push(ArgView::Path(path@)));
}

}
