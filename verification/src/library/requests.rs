//! What callers ask of the library, and what they are answered.
use vstd::prelude::*;

use crate::library::names;
use crate::library::names::{ChangeView, PathChange};
use crate::text;

verus! {

/// A request to make a folder.
pub struct CreateFolderRequest {
    pub parent_path: String,
    pub folder_name: String,
}

/// A request to move items into a folder.
pub struct MoveItemsRequest {
    pub source_paths: Vec<String>,
    pub destination_dir: String,
}

/// A request to delete items.
pub struct DeleteItemsRequest {
    pub target_paths: Vec<String>,
}

/// A request to rename a folder.
pub struct RenameItemRequest {
    pub relative_path: String,
    pub new_name: String,
}

/// A request to open an item or its folder.
pub struct OpenPathRequest {
    pub relative_path: String,
}

/// What a request changed.
pub struct LibraryMutationResponse {
    pub changed_paths: Vec<String>,
    pub moved: Vec<PathChange>,
    pub deleted: Vec<String>,
}

/// What a [`LibraryMutationResponse`] says.
#[verifier::ext_equal]
pub struct MutationView {
    pub changed_paths: Seq<Seq<char>>,
    pub moved: Seq<ChangeView>,
    pub deleted: Seq<Seq<char>>,
}

impl View for LibraryMutationResponse {
    type V = MutationView;

    open spec fn view(&self) -> MutationView {
        MutationView {
            changed_paths: text::texts(self.changed_paths@),
            moved: names::changes_view(self.moved@),
            deleted: text::texts(self.deleted@),
        }
    }
}

/// What a request opened.
pub struct LibraryOpenResponse {
    pub opened_path: String,
}

}
