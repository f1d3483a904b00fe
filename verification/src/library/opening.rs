//! Opening items of the library with the programs of the system.
use vstd::prelude::*;

use crate::command;
use crate::command::{ArgView, CommandArg};
use crate::library::changes::ItemKind;
use crate::library::errors::{LibraryError, LibraryErrorView};
use crate::library::places;
use crate::library::requests::LibraryOpenResponse;
use crate::paths::{FsPath, FsPathView};

verus! {

/// What is answered once the item at `place` was opened, or why it cannot be, given whether it
/// is there.
pub fn open_item(place: String, there: bool) -> (r: Result<LibraryOpenResponse, LibraryError>)
    ensures
        if there {
            r is Ok && r->Ok_0.opened_path@ == place@
        } else {
            r is Err && r->Err_0@ == LibraryErrorView::ItemMissing
        },
{
    if there {
        Ok(LibraryOpenResponse { opened_path: place })
    } else {
        Err(LibraryError::ItemMissing)
    }
}

/// The folder to open for what is at `place`, or why there is none: the folder itself, or the one
/// that a file is in. Where a file stands in place of the download root, the folder that it is in
/// lies outside.
pub open spec fn folder_to_open(
    place: Seq<char>,
    kind: Option<ItemKind>,
) -> Result<Seq<char>, LibraryErrorView> {
    match kind {
        None => Err(LibraryErrorView::ItemMissing),
        Some(ItemKind::Folder) => Ok(place),
        Some(ItemKind::File) => if place.len() > 0 {
            Ok(places::folder_of(place))
        } else {
            Err(LibraryErrorView::OutsideRoot)
        },
    }
}

/// What is answered once the folder for what is at `place` was opened, with the folder to open, or
/// why there is none.
pub fn open_folder(place: String, kind: Option<ItemKind>) -> (r: Result<
    LibraryOpenResponse,
    LibraryError,
>)
    ensures
        match folder_to_open(place@, kind) {
            Ok(folder) => r is Ok && r->Ok_0.opened_path@ == folder,
            Err(error) => r is Err && r->Err_0@ == error,
        },
{
    let opened_path = match kind {
        None => {
            return Err(LibraryError::ItemMissing);
        },
        Some(ItemKind::Folder) => place,
        Some(ItemKind::File) => if place.as_str().is_empty() {
            return Err(LibraryError::OutsideRoot);
        } else {
            places::parent_folder(place.as_str())
        },
    };
    Ok(LibraryOpenResponse { opened_path })
}

/// The systems whose programs open items.
#[derive(Clone, Copy, PartialEq, Eq, Structural)]
pub enum System {
    Windows,
    Mac,
    Other,
}

/// The program that opens an item on a system.
pub open spec fn opener(system: System, folder: bool) -> Seq<char> {
    match system {
        System::Windows => if folder {
            "explorer"@
        } else {
            "cmd"@
        },
        System::Mac => "open"@,
        System::Other => "xdg-open"@,
    }
}

/// The arguments of that program, where `shown` is the place as the system writes it.
pub open spec fn opener_args(
    system: System,
    folder: bool,
    place: FsPathView,
    shown: Seq<char>,
) -> Seq<ArgView> {
    if system == System::Windows && !folder {
        seq![
            ArgView::Text("/C"@),
            ArgView::Text("start"@),
            ArgView::Text(""@),
            ArgView::Text(shown),
        ]
    } else {
        seq![ArgView::Path(place)]
    }
}

/// The program that opens an item on a system, and its arguments.
pub fn open_command(system: System, folder: bool, place: &FsPath, shown: &str) -> (r: (
    String,
    Vec<CommandArg>,
))
    ensures
        r.0@ == opener(system, folder),
        command::args_view(r.1@) == opener_args(system, folder, place@, shown@),
{
    let program = match system {
        System::Windows => if folder {
            "explorer".to_owned()
        } else {
            "cmd".to_owned()
        },
        System::Mac => "open".to_owned(),
        System::Other => "xdg-open".to_owned(),
    };
    let mut args: Vec<CommandArg> = Vec::new();
    assert(command::args_view(args@) =~= Seq::<ArgView>::empty());
    if system == System::Windows && !folder {
        command::push_text(&mut args, "/C");
        command::push_text(&mut args, "start");
        command::push_text(&mut args, "");
        command::push_text(&mut args, shown);
    } else {
        command::push_path(&mut args, place);
    }
    assert(command::args_view(args@) =~= opener_args(system, folder, place@, shown@));
    (program, args)
}

}
