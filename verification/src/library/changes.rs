//! Making, moving, deleting and renaming what is in the library.
//!
//! What is on disk is asked of the outside, and what is decided is done there. A request over
//! several items is a run: each item is looked at, judged by what is there, and then noted.
use vstd::prelude::*;

use crate::library::errors::{LibraryError, LibraryErrorView};
use crate::library::names;
use crate::library::names::{ChangeView, PathChange};
use crate::library::places;
use crate::library::requests::{
    CreateFolderRequest, DeleteItemsRequest, LibraryMutationResponse, MoveItemsRequest,
    MutationView, RenameItemRequest,
};
use crate::paths;
use crate::text;

verus! {

/// What can be at a place.
#[derive(Clone, Copy, PartialEq, Eq, Structural)]
pub enum ItemKind {
    Folder,
    File,
}

/// The place that a path stands for, or that it would leave the download root.
pub fn resolve_relative_path(path: &str, windows: bool) -> (r: Result<String, LibraryError>)
    ensures
        if paths::escapes(path@, windows) {
            r is Err && r->Err_0@ == LibraryErrorView::OutsideRoot
        } else {
            r is Ok && r->Ok_0@ == paths::normalized(path@)
        },
{
    match paths::normalize(path, windows) {
        Some(place) => Ok(place),
        None => Err(LibraryError::OutsideRoot),
    }
}

// ---------------------------------------------------------------------------
// Making a folder
// ---------------------------------------------------------------------------

/// Where a folder is to be made, or why it cannot be, given whether the place to make it in is a
/// folder.
pub open spec fn new_folder(
    parent: Seq<char>,
    parent_is_folder: bool,
    name: Seq<char>,
    windows: bool,
) -> Result<Seq<char>, LibraryErrorView> {
    if !parent_is_folder {
        Err(LibraryErrorView::ParentNotFolder)
    } else {
        match places::name_fault(name, windows) {
            Some(error) => Err(error),
            None => Ok(places::place_in(parent, text::trimmed(name))),
        }
    }
}

/// Where a folder is to be made, or why it cannot be. `parent` is the place that the request
/// names.
pub fn new_folder_place(
    parent: &str,
    parent_is_folder: bool,
    request: &CreateFolderRequest,
    windows: bool,
) -> (r: Result<String, LibraryError>)
    ensures
        match new_folder(parent@, parent_is_folder, request.folder_name@, windows) {
            Ok(place) => r is Ok && r->Ok_0@ == place,
            Err(error) => r is Err && r->Err_0@ == error,
        },
{
    if !parent_is_folder {
        return Err(LibraryError::ParentNotFolder);
    }
    match places::validate_folder_name(request.folder_name.as_str(), windows) {
        Ok(name) => Ok(places::place_below(parent, name.as_str())),
        Err(error) => Err(error),
    }
}

/// What is answered once a folder was made at `place`, or why it cannot be made, given whether
/// something is there already.
pub fn create_folder(place: String, taken: bool) -> (r: Result<
    LibraryMutationResponse,
    LibraryError,
>)
    ensures
        if taken {
            r is Err && r->Err_0@ == LibraryErrorView::FolderExists
        } else {
            r is Ok && r->Ok_0@ == (MutationView {
                changed_paths: seq![place@],
                moved: Seq::empty(),
                deleted: Seq::empty(),
            })
        },
{
    if taken {
        return Err(LibraryError::FolderExists);
    }
    let ghost shown = place@;
    let mut changed_paths: Vec<String> = Vec::new();
    changed_paths.push(place);
    let answer = LibraryMutationResponse {
        changed_paths,
        moved: Vec::new(),
        deleted: Vec::new(),
    };
    assert(answer@ =~= MutationView {
        changed_paths: seq![shown],
        moved: Seq::empty(),
        deleted: Seq::empty(),
    });
    Ok(answer)
}

// ---------------------------------------------------------------------------
// Moving items
// ---------------------------------------------------------------------------

/// The folder to move to, or why nothing can be moved.
pub fn move_destination(request: &MoveItemsRequest, windows: bool) -> (r: Result<
    String,
    LibraryError,
>)
    ensures
        if request.source_paths@.len() == 0 {
            r is Err && r->Err_0@ == LibraryErrorView::NothingToMove
        } else if paths::escapes(request.destination_dir@, windows) {
            r is Err && r->Err_0@ == LibraryErrorView::OutsideRoot
        } else {
            r is Ok && r->Ok_0@ == paths::normalized(request.destination_dir@)
        },
{
    if request.source_paths.len() == 0 {
        return Err(LibraryError::NothingToMove);
    }
    resolve_relative_path(request.destination_dir.as_str(), windows)
}

/// A move of several items: where to, which are left, and what was moved.
pub struct MoveRun {
    pub destination: String,
    pub sources: Vec<String>,
    /// How many of the items were moved.
    pub next: usize,
    /// The name of the download root itself, where it has one.
    pub root_name: Option<String>,
    pub windows: bool,
    pub changed_paths: Vec<String>,
    pub moved: Vec<PathChange>,
}

/// What a [`MoveRun`] says.
#[verifier::ext_equal]
pub struct MoveView {
    pub destination: Seq<char>,
    pub left: Seq<Seq<char>>,
    pub root_name: Option<Seq<char>>,
    pub windows: bool,
    pub changed_paths: Seq<Seq<char>>,
    pub moved: Seq<ChangeView>,
}

impl View for MoveRun {
    type V = MoveView;

    open spec fn view(&self) -> MoveView {
        MoveView {
            destination: self.destination@,
            left: text::texts(self.sources@).skip(self.next as int),
            root_name: text::text_opt(self.root_name),
            windows: self.windows,
            changed_paths: text::texts(self.changed_paths@),
            moved: names::changes_view(self.moved@),
        }
    }
}

/// The name under which what is at `place` is moved; `None` where it has none.
pub open spec fn moving_name(
    place: Seq<char>,
    root_name: Option<Seq<char>>,
) -> Option<Seq<char>> {
    let name = if place.len() == 0 {
        root_name
    } else {
        Some(places::base_of(place))
    };
    if name is Some && name->0.len() > 0 {
        name
    } else {
        None
    }
}

impl MoveView {
    /// The place of the next item.
    pub open spec fn source(self) -> Seq<char> {
        paths::normalized(self.left[0])
    }

    /// The place that the next item goes to; `None` where it has no name.
    pub open spec fn target(self) -> Option<Seq<char>> {
        match moving_name(self.source(), self.root_name) {
            Some(name) => Some(places::place_in(self.destination, name)),
            None => None,
        }
    }

    /// Why the next item cannot be moved, given what is at its place, whether something is where
    /// it is to go, and how that place is shown; `None` where it can.
    pub open spec fn fault(
        self,
        kind: Option<ItemKind>,
        taken: bool,
        shown: Seq<char>,
    ) -> Option<LibraryErrorView> {
        let name = self.left[0];
        if kind is None {
            Some(LibraryErrorView::Missing(name))
        } else if self.target() is None {
            Some(LibraryErrorView::Nameless(name))
        } else if self.source() == self.target()->0 {
            Some(LibraryErrorView::SamePlace(name))
        } else if taken {
            Some(LibraryErrorView::TargetTaken(shown))
        } else if kind == Some(ItemKind::Folder) && (self.source().len() == 0 || paths::within(
            self.target()->0,
            self.source(),
        )) {
            Some(LibraryErrorView::IntoItself(name))
        } else {
            None
        }
    }

    /// The run after the next item was moved.
    pub open spec fn noted(self) -> MoveView {
        let from = self.left[0];
        let to = self.target()->0;
        MoveView {
            left: self.left.skip(1),
            changed_paths: self.changed_paths.push(from).push(to),
            moved: self.moved.push(ChangeView { from, to }),
            ..self
        }
    }
}

impl MoveView {
    /// The run after all its items were moved.
    pub open spec fn noted_all(self) -> MoveView
        decreases self.left.len(),
    {
        if self.left.len() == 0 {
            self
        } else {
            self.noted().noted_all()
        }
    }

    /// What is noted of an item of the run once it was moved.
    pub open spec fn change(self, item: Seq<char>) -> ChangeView {
        ChangeView { from: item, to: (MoveView { left: seq![item], ..self }).target()->0 }
    }
}

/// What is to be looked at for the next item.
pub enum MoveLook {
    /// All items were moved.
    Done,
    /// The item's path would leave the download root.
    Refused(LibraryError),
    /// What is at `source`, and whether something is at `target`.
    Look { source: String, target: Option<String> },
}

impl MoveRun {
    /// All items that were moved are among those of the run.
    pub open spec fn wf(self) -> bool {
        self.next <= self.sources@.len()
    }

    /// Begins to move items, given whether there is a folder to move them to.
    pub fn begin(
        request: &MoveItemsRequest,
        destination: String,
        is_folder: bool,
        root_name: Option<String>,
        windows: bool,
    ) -> (r: Result<Self, LibraryError>)
        ensures
            if !is_folder {
                r is Err && r->Err_0@ == LibraryErrorView::DestinationNotFolder
            } else if places::some_escape(text::texts(request.source_paths@), windows) {
                r is Err && r->Err_0@ == LibraryErrorView::OutsideRoot
            } else {
                r is Ok && r->Ok_0.wf() && r->Ok_0@ == (MoveView {
                    destination: destination@,
                    left: places::deduped(text::texts(request.source_paths@)),
                    root_name: text::text_opt(root_name),
                    windows,
                    changed_paths: Seq::empty(),
                    moved: Seq::empty(),
                })
            },
    {
        if !is_folder {
            return Err(LibraryError::DestinationNotFolder);
        }
        match places::dedupe_paths(&request.source_paths, windows) {
            Some(sources) => {
                let run = MoveRun {
                    destination,
                    sources,
                    next: 0,
                    root_name,
                    windows,
                    changed_paths: Vec::new(),
                    moved: Vec::new(),
                };
                assert(text::texts(run.sources@).skip(0) =~= text::texts(run.sources@));
                assert(text::texts(run.changed_paths@) =~= Seq::<Seq<char>>::empty());
                assert(names::changes_view(run.moved@) =~= Seq::<ChangeView>::empty());
                Ok(run)
            },
            None => Err(LibraryError::OutsideRoot),
        }
    }

    /// What is to be looked at for the next item.
    pub fn look(&self) -> (r: MoveLook)
        requires
            self.wf(),
        ensures
            r is Done <==> self@.left.len() == 0,
            r is Refused <==> self@.left.len() > 0 && paths::escapes(
                self@.left[0],
                self.windows,
            ),
            r matches MoveLook::Refused(error) ==> error@ == LibraryErrorView::OutsideRoot,
            r matches MoveLook::Look { source, target } ==> source@ == self@.source()
                && text::text_opt(target) == self@.target(),
    {
        if self.next == self.sources.len() {
            return MoveLook::Done;
        }
        assert(self@.left[0] == self.sources@[self.next as int]@);
        let source = match resolve_relative_path(self.sources[self.next].as_str(), self.windows) {
            Ok(place) => place,
            Err(error) => {
                return MoveLook::Refused(error);
            },
        };
        let name = if source.as_str().is_empty() {
            text::clone_opt(&self.root_name)
        } else {
            Some(places::base_name(source.as_str()))
        };
        let target = match name {
            Some(n) => if n.as_str().is_empty() {
                None
            } else {
                Some(places::place_below(self.destination.as_str(), n.as_str()))
            },
            None => None,
        };
        MoveLook::Look { source, target }
    }

    /// Whether the next item can be moved, given what is at its place, whether something is
    /// where it is to go, and how that place is shown.
    pub fn judge(
        &self,
        source: &str,
        target: &Option<String>,
        kind: Option<ItemKind>,
        taken: bool,
        shown: &str,
    ) -> (r: Result<(), LibraryError>)
        requires
            self.wf(),
            self@.left.len() > 0,
            source@ == self@.source(),
            text::text_opt(*target) == self@.target(),
        ensures
            match self@.fault(kind, taken, shown@) {
                Some(error) => r is Err && r->Err_0@ == error,
                None => r is Ok,
            },
    {
        assert(self@.left[0] == self.sources@[self.next as int]@);
        let name = &self.sources[self.next];
        if kind.is_none() {
            return Err(LibraryError::Missing(name.clone()));
        }
        let to = match target {
            Some(to) => to,
            None => {
                return Err(LibraryError::Nameless(name.clone()));
            },
        };
        if text::same(source, to.as_str()) {
            return Err(LibraryError::SamePlace(name.clone()));
        }
        if taken {
            return Err(LibraryError::TargetTaken(shown.to_owned()));
        }
        let folder = match kind {
            Some(ItemKind::Folder) => true,
            _ => false,
        };
        if folder && (source.is_empty() || paths::is_same_or_descendant(to.as_str(), source)) {
            return Err(LibraryError::IntoItself(name.clone()));
        }
        Ok(())
    }

    /// Notes that the next item was moved.
    pub fn note(&mut self, target: String)
        requires
            old(self).wf(),
            old(self)@.left.len() > 0,
            Some(target@) == old(self)@.target(),
        ensures
            final(self).wf(),
            final(self)@ == old(self)@.noted(),
    {
        let ghost before = self@;
        let ghost listed = self.changed_paths@;
        let ghost pairs = self.moved@;
        assert(self@.left[0] == self.sources@[self.next as int]@);
        assert(self.next < self.sources.len());
        let from = self.sources[self.next].clone();
        self.changed_paths.push(from.clone());
        self.changed_paths.push(target.clone());
        let change = PathChange { from, to: target };
        let ghost shown = change@;
        self.moved.push(change);
        self.next = self.next + 1;
        assert(text::texts(self.changed_paths@) =~= text::texts(listed).push(shown.from).push(
            shown.to,
        ));
        assert(names::changes_view(self.moved@) =~= names::changes_view(pairs).push(shown));
        assert(text::texts(self.sources@).skip(self.next as int) =~= before.left.skip(1));
    }

    /// What is answered once all items were moved.
    pub fn finish(self) -> (r: LibraryMutationResponse)
        ensures
            r@ == (MutationView {
                changed_paths: self@.changed_paths,
                moved: self@.moved,
                deleted: Seq::empty(),
            }),
    {
        let answer = LibraryMutationResponse {
            changed_paths: self.changed_paths,
            moved: self.moved,
            deleted: Vec::new(),
        };
        assert(text::texts(answer.deleted@) =~= Seq::<Seq<char>>::empty());
        answer
    }
}

/// Whatever is moved goes into the folder that was named, under its own name, and a folder never
/// goes into itself.
pub proof fn moves_go_where_they_should(run: MoveView, kind: ItemKind, shown: Seq<char>)
    requires
        run.left.len() > 0,
        run.fault(Some(kind), false, shown) is None,
        run.source().len() > 0,
    ensures
        places::base_of(run.target()->0) == places::base_of(run.source()),
        places::folder_of(run.target()->0) == run.destination,
        run.destination.len() > 0 ==> paths::within(run.target()->0, run.destination),
        run.source() != run.target()->0,
        kind == ItemKind::Folder ==> !paths::within(run.target()->0, run.source()),
        run.noted().moved.last() == (ChangeView { from: run.left[0], to: run.target()->0 }),
{
    let name = places::base_of(run.source());
    places::lemma_base_has_no_slash(run.source());
    places::a_place_lies_in_its_folder(run.destination, name);
}

/// Where each of these changes began and where it ended, in order.
pub open spec fn both_ends(changes: Seq<ChangeView>) -> Seq<Seq<char>>
    decreases changes.len(),
{
    if changes.len() == 0 {
        Seq::empty()
    } else {
        both_ends(changes.drop_last()).push(changes.last().from).push(changes.last().to)
    }
}

/// Once all items were moved, every one of them is reported, in order, with the place where it
/// went; and the paths that changed are the places where each was and where it went.
pub proof fn every_move_is_reported(run: MoveView)
    requires
        run.changed_paths == both_ends(run.moved),
    ensures
        run.noted_all().left.len() == 0,
        run.noted_all().moved == run.moved + Seq::new(
            run.left.len(),
            |i: int| run.change(run.left[i]),
        ),
        run.noted_all().changed_paths == both_ends(run.noted_all().moved),
    decreases run.left.len(),
{
    if run.left.len() > 0 {
        let next = run.noted();
        assert(next.moved.drop_last() =~= run.moved);
        every_move_is_reported(next);
        let rest = Seq::new(next.left.len(), |i: int| next.change(next.left[i]));
        let all = Seq::new(run.left.len(), |i: int| run.change(run.left[i]));
        let one = MoveView { left: seq![run.left[0]], ..run };
        assert(one.source() == run.source());
        assert(one.target() == run.target());
        assert(all[0] == next.moved.last());
        assert forall|i: int| 0 <= i < rest.len() implies rest[i] == all[i + 1] by {
            let item = next.left[i];
            let a = MoveView { left: seq![item], ..next };
            let b = MoveView { left: seq![item], ..run };
            assert(a.source() == b.source());
            assert(a.target() == b.target());
        }
        assert(next.moved + rest =~= run.moved + all);
    } else {
        assert(run.moved + Seq::new(0, |i: int| run.change(run.left[i])) =~= run.moved);
    }
}

// ---------------------------------------------------------------------------
// Deleting items
// ---------------------------------------------------------------------------

/// A deletion of several items: which are left, and what was deleted.
pub struct DeleteRun {
    pub targets: Vec<String>,
    /// How many of the items were looked at.
    pub next: usize,
    pub windows: bool,
    pub deleted: Vec<String>,
}

/// What a [`DeleteRun`] says.
#[verifier::ext_equal]
pub struct DeleteView {
    pub left: Seq<Seq<char>>,
    pub windows: bool,
    pub deleted: Seq<Seq<char>>,
}

impl View for DeleteRun {
    type V = DeleteView;

    open spec fn view(&self) -> DeleteView {
        DeleteView {
            left: text::texts(self.targets@).skip(self.next as int),
            windows: self.windows,
            deleted: text::texts(self.deleted@),
        }
    }
}

impl DeleteView {
    /// The run after the next item was looked at and, if it was there, deleted.
    pub open spec fn noted(self, kind: Option<ItemKind>) -> DeleteView {
        DeleteView {
            left: self.left.skip(1),
            deleted: if kind is Some {
                self.deleted.push(self.left[0])
            } else {
                self.deleted
            },
            ..self
        }
    }

    /// The run after its items were looked at, this being what was at their places.
    pub open spec fn noted_all(self, kinds: Seq<Option<ItemKind>>) -> DeleteView
        decreases kinds.len(),
    {
        if kinds.len() == 0 {
            self
        } else {
            self.noted_all(kinds.drop_last()).noted(kinds.last())
        }
    }
}

/// What is to be looked at for the next item.
pub enum DeleteLook {
    /// All items were looked at.
    Done,
    /// The item's path would leave the download root.
    Refused(LibraryError),
    /// What is at this place: a folder goes with all that is in it.
    Look(String),
}

impl DeleteRun {
    /// All items that were looked at are among those of the run.
    pub open spec fn wf(self) -> bool {
        self.next <= self.targets@.len()
    }

    /// Begins to delete items.
    pub fn begin(request: &DeleteItemsRequest, windows: bool) -> (r: Result<Self, LibraryError>)
        ensures
            if request.target_paths@.len() == 0 {
                r is Err && r->Err_0@ == LibraryErrorView::NothingToDelete
            } else if places::some_escape(text::texts(request.target_paths@), windows) {
                r is Err && r->Err_0@ == LibraryErrorView::OutsideRoot
            } else {
                r is Ok && r->Ok_0.wf() && r->Ok_0@ == (DeleteView {
                    left: places::deduped(text::texts(request.target_paths@)),
                    windows,
                    deleted: Seq::empty(),
                })
            },
    {
        if request.target_paths.len() == 0 {
            return Err(LibraryError::NothingToDelete);
        }
        match places::dedupe_paths(&request.target_paths, windows) {
            Some(targets) => {
                let run = DeleteRun { targets, next: 0, windows, deleted: Vec::new() };
                assert(text::texts(run.targets@).skip(0) =~= text::texts(run.targets@));
                assert(text::texts(run.deleted@) =~= Seq::<Seq<char>>::empty());
                Ok(run)
            },
            None => Err(LibraryError::OutsideRoot),
        }
    }

    /// What is to be looked at for the next item.
    pub fn look(&self) -> (r: DeleteLook)
        requires
            self.wf(),
        ensures
            r is Done <==> self@.left.len() == 0,
            r is Refused <==> self@.left.len() > 0 && paths::escapes(
                self@.left[0],
                self.windows,
            ),
            r matches DeleteLook::Refused(error) ==> error@ == LibraryErrorView::OutsideRoot,
            r matches DeleteLook::Look(place) ==> place@ == paths::normalized(self@.left[0]),
    {
        if self.next == self.targets.len() {
            return DeleteLook::Done;
        }
        assert(self@.left[0] == self.targets@[self.next as int]@);
        match resolve_relative_path(self.targets[self.next].as_str(), self.windows) {
            Ok(place) => DeleteLook::Look(place),
            Err(error) => DeleteLook::Refused(error),
        }
    }

    /// Notes what was at the place of the next item, and was deleted if it was there.
    pub fn note(&mut self, kind: Option<ItemKind>)
        requires
            old(self).wf(),
            old(self)@.left.len() > 0,
        ensures
            final(self).wf(),
            final(self)@ == old(self)@.noted(kind),
    {
        let ghost before = self@;
        let ghost listed = self.deleted@;
        assert(self@.left[0] == self.targets@[self.next as int]@);
        assert(self.next < self.targets.len());
        if kind.is_some() {
            self.deleted.push(self.targets[self.next].clone());
            assert(text::texts(self.deleted@) =~= text::texts(listed).push(before.left[0]));
        }
        self.next = self.next + 1;
        assert(text::texts(self.targets@).skip(self.next as int) =~= before.left.skip(1));
    }

    /// What is answered once all items were looked at.
    pub fn finish(self) -> (r: LibraryMutationResponse)
        ensures
            r@ == (MutationView {
                changed_paths: self@.deleted,
                moved: Seq::empty(),
                deleted: self@.deleted,
            }),
    {
        let answer = LibraryMutationResponse {
            changed_paths: text::clone_texts(&self.deleted),
            moved: Vec::new(),
            deleted: self.deleted,
        };
        assert(names::changes_view(answer.moved@) =~= Seq::<ChangeView>::empty());
        answer
    }
}

/// Once all items were looked at, exactly those that were there are reported as deleted.
pub proof fn every_deletion_is_reported(
    run: DeleteView,
    kinds: Seq<Option<ItemKind>>,
    item: Seq<char>,
)
    requires
        kinds.len() <= run.left.len(),
        run.deleted.len() == 0,
    ensures
        run.noted_all(kinds).left == run.left.skip(kinds.len() as int),
        run.noted_all(kinds).deleted.contains(item) <==> exists|i: int|
            0 <= i < kinds.len() && (#[trigger] kinds[i]) is Some && run.left[i] == item,
    decreases kinds.len(),
{
    if kinds.len() == 0 {
        assert(run.left.skip(0) =~= run.left);
    } else {
        let last = kinds.len() - 1;
        let rest = kinds.drop_last();
        let before = run.noted_all(rest);
        let after = run.noted_all(kinds);
        every_deletion_is_reported(run, rest, item);
        assert(before.left.skip(1) =~= run.left.skip(kinds.len() as int));
        assert(before.left[0] == run.left[last]);
        if after.deleted.contains(item) {
            let k = choose|k: int| 0 <= k < after.deleted.len() && after.deleted[k] == item;
            if k < before.deleted.len() {
                assert(before.deleted[k] == item);
                let i = choose|i: int|
                    0 <= i < rest.len() && (#[trigger] rest[i]) is Some && run.left[i] == item;
                assert(kinds[i] is Some);
            } else {
                assert(kinds[last] is Some);
            }
        }
        if exists|i: int|
            0 <= i < kinds.len() && (#[trigger] kinds[i]) is Some && run.left[i] == item {
            let i = choose|i: int|
                0 <= i < kinds.len() && (#[trigger] kinds[i]) is Some && run.left[i] == item;
            if i < last {
                assert(rest[i] is Some);
                let k = choose|k: int| 0 <= k < before.deleted.len() && before.deleted[k] == item;
                assert(after.deleted[k] == item);
            } else {
                assert(after.deleted.last() == item);
            }
        }
    }
}

// ---------------------------------------------------------------------------
// Renaming a folder
// ---------------------------------------------------------------------------

/// Where what is at `source` goes when it is renamed, or why it cannot be, given what is there.
/// The download root itself keeps its name: under another it would lie outside.
pub open spec fn renamed(
    source: Seq<char>,
    kind: Option<ItemKind>,
    new_name: Seq<char>,
    windows: bool,
) -> Result<Seq<char>, LibraryErrorView> {
    match kind {
        None => Err(LibraryErrorView::ItemMissing),
        Some(ItemKind::File) => Err(LibraryErrorView::NotAFolder),
        Some(ItemKind::Folder) => match places::name_fault(new_name, windows) {
            Some(error) => Err(error),
            None => if source.len() == 0 {
                Err(LibraryErrorView::OutsideRoot)
            } else {
                Ok(places::place_in(places::folder_of(source), text::trimmed(new_name)))
            },
        },
    }
}

/// Where what is at `source` goes when it is renamed, or why it cannot be.
pub fn rename_target(
    source: &str,
    kind: Option<ItemKind>,
    request: &RenameItemRequest,
    windows: bool,
) -> (r: Result<String, LibraryError>)
    ensures
        match renamed(source@, kind, request.new_name@, windows) {
            Ok(place) => r is Ok && r->Ok_0@ == place,
            Err(error) => r is Err && r->Err_0@ == error,
        },
{
    match kind {
        None => {
            return Err(LibraryError::ItemMissing);
        },
        Some(ItemKind::File) => {
            return Err(LibraryError::NotAFolder);
        },
        Some(ItemKind::Folder) => {},
    }
    let name = match places::validate_folder_name(request.new_name.as_str(), windows) {
        Ok(name) => name,
        Err(error) => {
            return Err(error);
        },
    };
    if source.is_empty() {
        Err(LibraryError::OutsideRoot)
    } else {
        Ok(places::place_below(places::parent_folder(source).as_str(), name.as_str()))
    }
}

/// What is answered once what is at `source` was renamed, or why it cannot be, given whether
/// something is there already.
pub fn rename_item(source: String, target: String, taken: bool) -> (r: Result<
    LibraryMutationResponse,
    LibraryError,
>)
    ensures
        if taken {
            r is Err && r->Err_0@ == LibraryErrorView::NameTaken
        } else {
            r is Ok && r->Ok_0@ == (MutationView {
                changed_paths: seq![source@, target@],
                moved: seq![ChangeView { from: source@, to: target@ }],
                deleted: Seq::empty(),
            })
        },
{
    if taken {
        return Err(LibraryError::NameTaken);
    }
    let ghost from_view = source@;
    let ghost to_view = target@;
    let mut changed_paths: Vec<String> = Vec::new();
    changed_paths.push(source.clone());
    changed_paths.push(target.clone());
    let mut moved: Vec<PathChange> = Vec::new();
    moved.push(PathChange { from: source, to: target });
    let answer = LibraryMutationResponse { changed_paths, moved, deleted: Vec::new() };
    assert(text::texts(answer.changed_paths@) =~= seq![from_view, to_view]);
    assert(names::changes_view(answer.moved@) =~= seq![
        ChangeView { from: from_view, to: to_view },
    ]);
    assert(text::texts(answer.deleted@) =~= Seq::<Seq<char>>::empty());
    Ok(answer)
}

/// A folder that is renamed stays in the folder that it was in, and has the new name; the download
/// root is never renamed.
pub proof fn renaming_stays_in_the_folder(source: Seq<char>, new_name: Seq<char>, windows: bool)
    requires
        renamed(source, Some(ItemKind::Folder), new_name, windows) is Ok,
    ensures
        ({
            let place = renamed(source, Some(ItemKind::Folder), new_name, windows)->Ok_0;
            &&& source.len() > 0
            &&& place.len() > 0
            &&& places::folder_of(place) == places::folder_of(source)
            &&& places::base_of(place) == text::trimmed(new_name)
        }),
{
    let name = text::trimmed(new_name);
    assert(!name.contains('/')) by {
        if name.contains('/') {
            let k = choose|k: int| 0 <= k < name.len() && name[k] == '/';
            assert(name[k] == '/');
            assert(places::holds_separator(name));
        }
    }
    places::a_place_lies_in_its_folder(places::folder_of(source), name);
}

}
