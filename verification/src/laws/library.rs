//! What is promised of paths, and of changes to the library.
use vstd::prelude::*;

use crate::library::changes;
use crate::library::changes::{DeleteView, ItemKind, MoveView};
use crate::library::errors::LibraryErrorView;
use crate::library::names;
use crate::library::names::ChangeView;
use crate::library::opening;
use crate::library::places;
use crate::order;
use crate::paths;
use crate::text;

verus! {

// ---------------------------------------------------------------------------
// Paths
// ---------------------------------------------------------------------------

/// The path is this one or lies below it.
pub open spec fn at_or_below(path: Seq<char>, folder: Seq<char>) -> bool {
    path == folder || text::begins(path, folder + "/"@)
}

proof fn lemma_at_or_below(path: Seq<char>, folder: Seq<char>)
    ensures
        paths::within(path, folder) <==> at_or_below(path, folder),
{
    reveal_strlit("/");
    assert("/"@ =~= seq!['/']);
    assert(folder.push('/') =~= folder + "/"@);
}

/// The pieces of a path as it was typed: white space around it does not count, and a slash leans
/// either way.
pub open spec fn pieces_of(value: Seq<char>) -> Seq<Seq<char>> {
    text::split_on(text::replaced(text::trimmed(value), '\\', '/'), '/')
}

proof fn lemma_counting(pieces: Seq<Seq<char>>)
    ensures
        paths::counting(pieces) == pieces.filter(|p: Seq<char>| p.len() > 0 && p != "."@),
    decreases pieces.len(),
{
    reveal(Seq::filter);
    reveal_strlit(".");
    assert("."@ =~= seq!['.']);
    if pieces.len() > 0 {
        lemma_counting(pieces.drop_last());
    }
    assert(paths::counting(pieces) =~= pieces.filter(|p: Seq<char>| p.len() > 0 && p != "."@));
}

/// A path is kept as its pieces with slashes between them, but for those that are empty or stand
/// for the folder that they are in.
pub proof fn paths_are_kept_in_one_form(value: Seq<char>)
    ensures
        paths::normalized(value) == text::join(
            pieces_of(value).filter(|p: Seq<char>| p.len() > 0 && p != "."@),
            "/"@,
        ),
{
    reveal_strlit("/");
    assert("/"@ =~= seq!['/']);
    lemma_counting(paths::typed_pieces(value));
}

/// A path of the library is refused exactly when it begins with a slash of either kind, when a
/// piece of it is two dots, or, on Windows, when a piece of it begins with a letter and a colon.
pub proof fn paths_that_lead_out_are_refused(value: Seq<char>, windows: bool)
    ensures
        paths::escapes(value, windows) <==> {
            let trim = text::trimmed(value);
            ||| trim.len() > 0 && (trim[0] == '/' || trim[0] == '\\')
            ||| exists|i: int|
                0 <= i < pieces_of(value).len() && ((#[trigger] pieces_of(value)[i]) == ".."@ || (
                windows && pieces_of(value)[i].len() >= 2 && ('A' <= pieces_of(value)[i][0] <= 'Z'
                    || 'a' <= pieces_of(value)[i][0] <= 'z') && pieces_of(value)[i][1] == ':'))
        },
{
    reveal_strlit("..");
    assert(".."@ =~= seq!['.', '.']);
    let pieces = pieces_of(value);
    assert(pieces == paths::typed_pieces(value));
    if paths::escapes(value, windows) {
        if exists|i: int| 0 <= i < pieces.len() && paths::leads_out(#[trigger] pieces[i], windows) {
            let i = choose|i: int|
                0 <= i < pieces.len() && paths::leads_out(#[trigger] pieces[i], windows);
            assert(pieces_of(value)[i] == pieces[i]);
        }
    }
    if exists|i: int|
        0 <= i < pieces_of(value).len() && ((#[trigger] pieces_of(value)[i]) == ".."@ || (windows
            && pieces_of(value)[i].len() >= 2 && ('A' <= pieces_of(value)[i][0] <= 'Z' || 'a'
            <= pieces_of(value)[i][0] <= 'z') && pieces_of(value)[i][1] == ':')) {
        let i = choose|i: int|
            0 <= i < pieces_of(value).len() && ((#[trigger] pieces_of(value)[i]) == ".."@ || (
            windows && pieces_of(value)[i].len() >= 2 && ('A' <= pieces_of(value)[i][0] <= 'Z'
                || 'a' <= pieces_of(value)[i][0] <= 'z') && pieces_of(value)[i][1] == ':'));
        assert(paths::leads_out(paths::typed_pieces(value)[i], windows));
    }
}

/// A place for downloads is refused exactly when it starts at another root or, followed piece by
/// piece, rises above the one it is joined to: two dots lead one directory up, a name leads one
/// down, and an empty piece or a dot leads nowhere. Only Windows has drives, and backslashes for
/// slashes.
pub proof fn places_that_rise_above_the_root_are_refused(
    path: Seq<char>,
    windows: bool,
    pieces: Seq<Seq<char>>,
    piece: Seq<char>,
)
    ensures
        paths::leaves_root(path, windows) <==> (path.len() > 0 && (path[0] == '/' || (windows && (
        path[0] == '\\' || (path.len() >= 2 && ('A' <= path[0] <= 'Z' || 'a' <= path[0] <= 'z')
            && path[1] == ':'))))) || paths::walked(
            text::split_on(
                if windows {
                    text::replaced(path, '\\', '/')
                } else {
                    path
                },
                '/',
            ),
        ) is None,
        paths::walked(Seq::empty()) == Some(Seq::<Seq<char>>::empty()),
        paths::walked(pieces) is None ==> paths::walked(pieces.push(piece)) is None,
        paths::walked(pieces) matches Some(names) ==> {
            &&& piece == ".."@ && names.len() == 0 ==> paths::walked(pieces.push(piece)) is None
            &&& piece == ".."@ && names.len() > 0 ==> paths::walked(pieces.push(piece)) == Some(
                names.drop_last(),
            )
            &&& piece.len() == 0 || piece == "."@ ==> paths::walked(pieces.push(piece)) == Some(
                names,
            )
            &&& piece.len() > 0 && piece != "."@ && piece != ".."@ ==> paths::walked(
                pieces.push(piece),
            ) == Some(names.push(piece))
        },
{
    reveal_strlit(".");
    reveal_strlit("..");
    assert("."@ =~= seq!['.']);
    assert(".."@ =~= seq!['.', '.']);
    assert(pieces.push(piece).drop_last() =~= pieces);
}

/// A path ends in the name of what it leads to, behind its last slash, and before that slash stands
/// the folder; put together again they are the path.
pub proof fn a_path_is_its_folder_and_its_name(folder: Seq<char>, name: Seq<char>)
    requires
        !name.contains('/'),
    ensures
        places::folder_of(name).len() == 0,
        places::base_of(name) == name,
        places::folder_of(folder + "/"@ + name) == folder,
        places::base_of(folder + "/"@ + name) == name,
        folder.len() == 0 ==> places::place_in(folder, name) == name,
        folder.len() > 0 ==> places::place_in(folder, name) == folder + "/"@ + name,
{
    reveal_strlit("/");
    assert("/"@ =~= seq!['/']);
    lemma_no_slash(name);
    assert(name.skip(0) =~= name);
    let path = folder + "/"@ + name;
    assert(path =~= folder.push('/') + name);
    lemma_last_slash(folder, name);
    assert(path.take(folder.len() as int) =~= folder);
    assert(path.skip(folder.len() as int + 1) =~= name);
}

proof fn lemma_no_slash(name: Seq<char>)
    requires
        !name.contains('/'),
    ensures
        places::last_slash(name) == -1,
    decreases name.len(),
{
    if name.len() > 0 {
        assert(name.contains(name.last()));
        let head = name.drop_last();
        assert(!head.contains('/')) by {
            if head.contains('/') {
                let k = choose|k: int| 0 <= k < head.len() && head[k] == '/';
                assert(name[k] == '/');
            }
        }
        lemma_no_slash(head);
    }
}

proof fn lemma_last_slash(folder: Seq<char>, name: Seq<char>)
    requires
        !name.contains('/'),
    ensures
        places::last_slash(folder.push('/') + name) == folder.len(),
    decreases name.len(),
{
    let path = folder.push('/') + name;
    if name.len() > 0 {
        let head = name.drop_last();
        assert(path.last() == name.last());
        assert(name.contains(name.last()));
        assert(path.drop_last() =~= folder.push('/') + head);
        assert(!head.contains('/')) by {
            if head.contains('/') {
                let k = choose|k: int| 0 <= k < head.len() && head[k] == '/';
                assert(name[k] == '/');
            }
        }
        lemma_last_slash(folder, head);
    } else {
        assert(path =~= folder.push('/'));
    }
}

// ---------------------------------------------------------------------------
// Changes
// ---------------------------------------------------------------------------

proof fn lemma_topmost(list: Seq<Seq<char>>)
    requires
        order::ascending(list, order::by_itself()),
    ensures
        order::ascending(places::topmost(list), order::by_itself()),
        forall|k: int|
            0 <= k < places::topmost(list).len() ==> list.contains(
                #[trigger] places::topmost(list)[k],
            ),
    decreases list.len(),
{
    if list.len() > 0 {
        let key = order::by_itself();
        let head = list.drop_last();
        assert(order::ascending(head, key)) by {
            assert forall|i: int, j: int| 0 <= i <= j < head.len() implies order::lex_le(
                key(#[trigger] head[i]),
                key(#[trigger] head[j]),
            ) by {
                assert(head[i] == list[i] && head[j] == list[j]);
                assert(order::lex_le(key(list[i]), key(list[j])));
            }
        }
        lemma_topmost(head);
        let rest = places::topmost(head);
        let all = places::topmost(list);
        assert forall|k: int| 0 <= k < rest.len() implies list.contains(#[trigger] rest[k])
            && order::lex_le(key(rest[k]), key(list.last())) by {
            let m = choose|m: int| 0 <= m < head.len() && head[m] == rest[k];
            assert(list[m] == rest[k]);
            assert(order::lex_le(key(list[m]), key(list[list.len() - 1])));
        }
        assert(list[list.len() - 1] == list.last());
        order::lemma_lex_reflexive(list.last());
        assert forall|i: int, j: int| 0 <= i <= j < all.len() implies order::lex_le(
            key(#[trigger] all[i]),
            key(#[trigger] all[j]),
        ) by {
            if j < rest.len() {
                assert(all[i] == rest[i] && all[j] == rest[j]);
                assert(order::lex_le(key(rest[i]), key(rest[j])));
            } else if i < rest.len() {
                assert(all[i] == rest[i]);
            }
        }
        assert forall|k: int| 0 <= k < all.len() implies list.contains(#[trigger] all[k]) by {
            if k < rest.len() {
                assert(all[k] == rest[k]);
            }
        }
    }
}

/// The items that were named are taken in the form in which paths are kept, in the order of their
/// paths: every one that was named, but for the root, is taken or lies in one that is, none is
/// taken twice or lies in another, and nothing is taken that was not named.
pub proof fn what_was_named_is_taken(values: Seq<Seq<char>>, i: int, j: int)
    ensures
        ({
            let taken = places::deduped(values);
            &&& 0 <= i < taken.len() && 0 <= j < taken.len() && i != j ==> !at_or_below(
                taken[i],
                taken[j],
            )
            &&& 0 <= i < j < taken.len() ==> order::lex_le(taken[i], taken[j])
            &&& 0 <= i < taken.len() ==> taken[i].len() > 0 && exists|k: int|
                0 <= k < values.len() && paths::normalized(#[trigger] values[k]) == taken[i]
            &&& 0 <= i < values.len() && paths::normalized(values[i]).len() > 0 ==> exists|k: int|
                0 <= k < taken.len() && at_or_below(
                    paths::normalized(values[i]),
                    #[trigger] taken[k],
                )
        }),
{
    let taken = places::deduped(values);
    places::items_are_taken_once(values, i, j);
    let all = places::all_normalized(values);
    order::sorting_ascends(all, order::by_itself());
    lemma_topmost(order::sorted_by(all, order::by_itself()));
    if 0 <= i < taken.len() && 0 <= j < taken.len() {
        lemma_at_or_below(taken[i], taken[j]);
        if i < j {
            let key = order::by_itself();
            assert(order::lex_le(key(taken[i]), key(taken[j])));
        }
    }
    if 0 <= i < taken.len() {
        let k = choose|k: int| 0 <= k < all.len() && all[k] == taken[i];
        assert(paths::normalized(values[k]) == taken[i]);
    }
    if 0 <= i < values.len() && paths::normalized(values[i]).len() > 0 {
        let k = choose|k: int|
            0 <= k < taken.len() && paths::within(
                paths::normalized(values[i]),
                #[trigger] taken[k],
            );
        lemma_at_or_below(paths::normalized(values[i]), taken[k]);
        assert(at_or_below(paths::normalized(values[i]), taken[k]));
    }
}

/// A name for a folder is refused exactly when it is blank, when it is a dot or two, when it holds
/// a slash of either kind, or, on Windows, when it holds a character that Windows does not allow.
pub proof fn names_of_folders_are_checked(name: Seq<char>, windows: bool)
    ensures
        ({
            let t = text::trimmed(name);
            let slash = t.contains('/') || t.contains('\\');
            let odd = t.contains('<') || t.contains('>') || t.contains(':') || t.contains('"')
                || t.contains('|') || t.contains('?') || t.contains('*');
            places::name_fault(name, windows) == (if t.len() == 0 {
                Some(LibraryErrorView::EmptyName)
            } else if t == "."@ || t == ".."@ {
                Some(LibraryErrorView::BadName)
            } else if slash {
                Some(LibraryErrorView::NameWithSeparator)
            } else if windows && odd {
                Some(LibraryErrorView::NameUnsupported)
            } else {
                None
            })
        }),
{
    let t = text::trimmed(name);
    assert(places::holds_separator(t) <==> t.contains('/') || t.contains('\\')) by {
        if t.contains('/') {
            let k = choose|k: int| 0 <= k < t.len() && t[k] == '/';
            assert(t[k] == '/');
        }
        if t.contains('\\') {
            let k = choose|k: int| 0 <= k < t.len() && t[k] == '\\';
            assert(t[k] == '\\');
        }
        if places::holds_separator(t) {
            let k = choose|k: int| 0 <= k < t.len() && (#[trigger] t[k] == '/' || t[k] == '\\');
            assert(t.contains(t[k]));
        }
    }
    if places::holds_unsupported(t) {
        let k = choose|k: int| 0 <= k < t.len() && places::unsupported(#[trigger] t[k]);
        assert(t.contains(t[k]));
    }
    lemma_unsupported(t, '<');
    lemma_unsupported(t, '>');
    lemma_unsupported(t, ':');
    lemma_unsupported(t, '"');
    lemma_unsupported(t, '|');
    lemma_unsupported(t, '?');
    lemma_unsupported(t, '*');
}

proof fn lemma_unsupported(t: Seq<char>, c: char)
    requires
        places::unsupported(c),
    ensures
        t.contains(c) ==> places::holds_unsupported(t),
{
    if t.contains(c) {
        let k = choose|k: int| 0 <= k < t.len() && t[k] == c;
        assert(places::unsupported(t[k]));
    }
}

/// A new folder is made in the one that was named, under its name without the white space around
/// it, unless that is no folder or the name is refused.
pub proof fn a_folder_is_made_where_it_was_asked_for(
    parent: Seq<char>,
    parent_is_folder: bool,
    name: Seq<char>,
    windows: bool,
)
    ensures
        changes::new_folder(parent, parent_is_folder, name, windows) == (if !parent_is_folder {
            Err::<Seq<char>, LibraryErrorView>(LibraryErrorView::ParentNotFolder)
        } else if places::name_fault(name, windows) is Some {
            Err(places::name_fault(name, windows)->0)
        } else if parent.len() == 0 {
            Ok(text::trimmed(name))
        } else {
            Ok(parent + "/"@ + text::trimmed(name))
        }),
{
    reveal_strlit("/");
    assert("/"@ =~= seq!['/']);
    assert(parent.push('/') + text::trimmed(name) =~= parent + "/"@ + text::trimmed(name));
}

/// An item goes into the folder that was named, under its own name. It is refused exactly when it is
/// not there, has no name, is there already, when something of its name is, or when it is a folder
/// that would go into itself.
pub proof fn an_item_is_moved_into_the_folder(
    run: MoveView,
    kind: Option<ItemKind>,
    taken: bool,
    shown: Seq<char>,
)
    requires
        run.left.len() > 0,
    ensures
        ({
            let from = paths::normalized(run.left[0]);
            let own = if from.len() == 0 {
                run.root_name
            } else {
                Some(places::base_of(from))
            };
            let named = own is Some && own->0.len() > 0;
            let to = if run.destination.len() == 0 {
                own->0
            } else {
                run.destination + "/"@ + own->0
            };
            let fault = run.fault(kind, taken, shown);
            &&& named ==> run.target() == Some(to)
            &&& !named ==> run.target() is None
            &&& fault == (if kind is None {
                Some(LibraryErrorView::Missing(run.left[0]))
            } else if !named {
                Some(LibraryErrorView::Nameless(run.left[0]))
            } else if from == to {
                Some(LibraryErrorView::SamePlace(run.left[0]))
            } else if taken {
                Some(LibraryErrorView::TargetTaken(shown))
            } else if kind == Some(ItemKind::Folder) && (from.len() == 0 || at_or_below(to, from)) {
                Some(LibraryErrorView::IntoItself(run.left[0]))
            } else {
                None
            })
            &&& named ==> run.noted() == (MoveView {
                left: run.left.skip(1),
                changed_paths: run.changed_paths + seq![run.left[0], to],
                moved: run.moved.push(ChangeView { from: run.left[0], to }),
                ..run
            })
        }),
{
    reveal_strlit("/");
    assert("/"@ =~= seq!['/']);
    let from = paths::normalized(run.left[0]);
    let own = if from.len() == 0 {
        run.root_name
    } else {
        Some(places::base_of(from))
    };
    if own is Some && own->0.len() > 0 {
        assert(run.destination.push('/') + own->0 =~= run.destination + "/"@ + own->0);
        let to = run.target()->0;
        lemma_at_or_below(to, from);
        assert(run.changed_paths.push(run.left[0]).push(to) =~= run.changed_paths + seq![
            run.left[0],
            to,
        ]);
    }
}

/// Of the items that are to be deleted those are reported that were there, in their order.
pub proof fn what_was_there_is_reported(run: DeleteView, kind: Option<ItemKind>)
    requires
        run.left.len() > 0,
    ensures
        ({
            let after = run.noted(kind);
            &&& after.left == run.left.skip(1)
            &&& kind is Some ==> after.deleted == run.deleted.push(run.left[0])
            &&& kind is None ==> after.deleted == run.deleted
            &&& after.windows == run.windows
        }),
{
}

/// A folder is renamed in the folder that it is in, unless it is not there, is no folder or is the
/// root, or the name is refused.
pub proof fn a_folder_is_renamed_in_place(
    source: Seq<char>,
    kind: Option<ItemKind>,
    name: Seq<char>,
    windows: bool,
)
    ensures
        ({
            let folder = places::folder_of(source);
            changes::renamed(source, kind, name, windows) == (if kind is None {
                Err::<Seq<char>, LibraryErrorView>(LibraryErrorView::ItemMissing)
            } else if kind == Some(ItemKind::File) {
                Err(LibraryErrorView::NotAFolder)
            } else if places::name_fault(name, windows) is Some {
                Err(places::name_fault(name, windows)->0)
            } else if source.len() == 0 {
                Err(LibraryErrorView::OutsideRoot)
            } else if folder.len() == 0 {
                Ok(text::trimmed(name))
            } else {
                Ok(folder + "/"@ + text::trimmed(name))
            })
        }),
{
    reveal_strlit("/");
    assert("/"@ =~= seq!['/']);
    let folder = places::folder_of(source);
    assert(folder.push('/') + text::trimmed(name) =~= folder + "/"@ + text::trimmed(name));
}

/// For a folder the folder itself is opened, and for a file the one that it is in.
pub proof fn the_folder_of_a_file_is_opened(place: Seq<char>, kind: Option<ItemKind>)
    ensures
        opening::folder_to_open(place, kind) == (match kind {
            None => Err::<Seq<char>, LibraryErrorView>(LibraryErrorView::ItemMissing),
            Some(ItemKind::Folder) => Ok(place),
            Some(ItemKind::File) => if place.len() == 0 {
                Err(LibraryErrorView::OutsideRoot)
            } else {
                Ok(places::folder_of(place))
            },
        }),
{
}

/// A name is remembered once.
pub proof fn a_name_is_remembered_once(
    known: Seq<Seq<char>>,
    more: Seq<Seq<char>>,
    name: Seq<char>,
)
    ensures
        names::with_names(known, Seq::empty()) == known,
        names::with_names(known, more.push(name)) == (if names::with_names(known, more).contains(
            name,
        ) {
            names::with_names(known, more)
        } else {
            names::with_names(known, more).push(name)
        }),
{
    assert(more.push(name).drop_last() =~= more);
}

/// What the library says to a refusal.
pub proof fn refusals_of_the_library_are_explained(s: Seq<char>)
    ensures
        LibraryErrorView::OutsideRoot.text() == "路径必须限制在下载根目录内"@,
        LibraryErrorView::ParentNotFolder.text() == "目标父目录不存在或不是目录"@,
        LibraryErrorView::EmptyName.text() == "目录名不能为空"@,
        LibraryErrorView::BadName.text() == "目录名无效"@,
        LibraryErrorView::NameWithSeparator.text() == "目录名不能包含路径分隔符"@,
        LibraryErrorView::NameUnsupported.text() == "目录名包含 Windows 不支持的字符"@,
        LibraryErrorView::FolderExists.text() == "同名目录已存在"@,
        LibraryErrorView::NothingToMove.text() == "至少选择一个要移动的条目"@,
        LibraryErrorView::DestinationNotFolder.text() == "目标目录不存在或不是目录"@,
        LibraryErrorView::Missing(s).text() == "条目不存在: "@ + s,
        LibraryErrorView::Nameless(s).text() == "无法识别条目名称: "@ + s,
        LibraryErrorView::SamePlace(s).text() == "源路径与目标路径相同: "@ + s,
        LibraryErrorView::TargetTaken(s).text() == "目标位置已存在同名条目: "@ + s,
        LibraryErrorView::IntoItself(s).text() == "不能把目录移动到自己的子目录中: "@ + s,
        LibraryErrorView::NothingToDelete.text() == "至少选择一个要删除的条目"@,
        LibraryErrorView::ItemMissing.text() == "条目不存在"@,
        LibraryErrorView::NotAFolder.text() == "只能重命名文件夹"@,
        LibraryErrorView::NameTaken.text() == "同名条目已存在"@,
{
}

/// A request is refused as soon as one of the paths that it names leads out of the download root.
pub proof fn one_path_that_leads_out_is_enough(
    values: Seq<Seq<char>>,
    value: Seq<char>,
    windows: bool,
)
    ensures
        !places::some_escape(Seq::empty(), windows),
        places::some_escape(values.push(value), windows) <==> places::some_escape(values, windows)
            || paths::escapes(value, windows),
{
    let all = values.push(value);
    if places::some_escape(values, windows) {
        let i = choose|i: int| 0 <= i < values.len() && paths::escapes(#[trigger] values[i], windows);
        assert(paths::escapes(all[i], windows));
    }
    if paths::escapes(value, windows) {
        assert(paths::escapes(all[values.len() as int], windows));
    }
    if places::some_escape(all, windows) {
        let i = choose|i: int| 0 <= i < all.len() && paths::escapes(#[trigger] all[i], windows);
        if i < values.len() {
            assert(paths::escapes(values[i], windows));
        }
    }
}

}
