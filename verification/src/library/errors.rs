//! Why the library refuses a request.
use vstd::prelude::*;

use crate::text;

verus! {

/// Why the library refuses a request.
pub enum LibraryError {
    /// A path leads out of the download root.
    OutsideRoot,
    /// The folder to make one in is not there, or is none.
    ParentNotFolder,
    /// The name is blank.
    EmptyName,
    /// The name stands for the folder itself, or for the one above it.
    BadName,
    /// The name holds a slash.
    NameWithSeparator,
    /// The name holds a character that Windows does not allow.
    NameUnsupported,
    /// There is something of that name already.
    FolderExists,
    /// No item to move is named.
    NothingToMove,
    /// The folder to move to is not there, or is none.
    DestinationNotFolder,
    /// The item is not there.
    Missing(String),
    /// The item has no name.
    Nameless(String),
    /// The item is where it is to go already.
    SamePlace(String),
    /// Something of that name is where the item is to go.
    TargetTaken(String),
    /// The folder is to go into itself.
    IntoItself(String),
    /// No item to delete is named.
    NothingToDelete,
    /// The item is not there.
    ItemMissing,
    /// The item is no folder.
    NotAFolder,
    /// There is an item of that name already.
    NameTaken,
}

/// What a [`LibraryError`] says.
#[verifier::ext_equal]
pub enum LibraryErrorView {
    OutsideRoot,
    ParentNotFolder,
    EmptyName,
    BadName,
    NameWithSeparator,
    NameUnsupported,
    FolderExists,
    NothingToMove,
    DestinationNotFolder,
    Missing(Seq<char>),
    Nameless(Seq<char>),
    SamePlace(Seq<char>),
    TargetTaken(Seq<char>),
    IntoItself(Seq<char>),
    NothingToDelete,
    ItemMissing,
    NotAFolder,
    NameTaken,
}

impl View for LibraryError {
    type V = LibraryErrorView;

    open spec fn view(&self) -> LibraryErrorView {
        match self {
            LibraryError::OutsideRoot => LibraryErrorView::OutsideRoot,
            LibraryError::ParentNotFolder => LibraryErrorView::ParentNotFolder,
            LibraryError::EmptyName => LibraryErrorView::EmptyName,
            LibraryError::BadName => LibraryErrorView::BadName,
            LibraryError::NameWithSeparator => LibraryErrorView::NameWithSeparator,
            LibraryError::NameUnsupported => LibraryErrorView::NameUnsupported,
            LibraryError::FolderExists => LibraryErrorView::FolderExists,
            LibraryError::NothingToMove => LibraryErrorView::NothingToMove,
            LibraryError::DestinationNotFolder => LibraryErrorView::DestinationNotFolder,
            LibraryError::Missing(s) => LibraryErrorView::Missing(s@),
            LibraryError::Nameless(s) => LibraryErrorView::Nameless(s@),
            LibraryError::SamePlace(s) => LibraryErrorView::SamePlace(s@),
            LibraryError::TargetTaken(s) => LibraryErrorView::TargetTaken(s@),
            LibraryError::IntoItself(s) => LibraryErrorView::IntoItself(s@),
            LibraryError::NothingToDelete => LibraryErrorView::NothingToDelete,
            LibraryError::ItemMissing => LibraryErrorView::ItemMissing,
            LibraryError::NotAFolder => LibraryErrorView::NotAFolder,
            LibraryError::NameTaken => LibraryErrorView::NameTaken,
        }
    }
}

impl LibraryErrorView {
    /// The message.
    pub open spec fn text(self) -> Seq<char> {
        match self {
            LibraryErrorView::OutsideRoot => "路径必须限制在下载根目录内"@,
            LibraryErrorView::ParentNotFolder => "目标父目录不存在或不是目录"@,
            LibraryErrorView::EmptyName => "目录名不能为空"@,
            LibraryErrorView::BadName => "目录名无效"@,
            LibraryErrorView::NameWithSeparator => "目录名不能包含路径分隔符"@,
            LibraryErrorView::NameUnsupported => "目录名包含 Windows 不支持的字符"@,
            LibraryErrorView::FolderExists => "同名目录已存在"@,
            LibraryErrorView::NothingToMove => "至少选择一个要移动的条目"@,
            LibraryErrorView::DestinationNotFolder => "目标目录不存在或不是目录"@,
            LibraryErrorView::Missing(s) => "条目不存在: "@ + s,
            LibraryErrorView::Nameless(s) => "无法识别条目名称: "@ + s,
            LibraryErrorView::SamePlace(s) => "源路径与目标路径相同: "@ + s,
            LibraryErrorView::TargetTaken(s) => "目标位置已存在同名条目: "@ + s,
            LibraryErrorView::IntoItself(s) => "不能把目录移动到自己的子目录中: "@ + s,
            LibraryErrorView::NothingToDelete => "至少选择一个要删除的条目"@,
            LibraryErrorView::ItemMissing => "条目不存在"@,
            LibraryErrorView::NotAFolder => "只能重命名文件夹"@,
            LibraryErrorView::NameTaken => "同名条目已存在"@,
        }
    }
}

impl LibraryError {
    /// The message.
    pub fn message(&self) -> (r: String)
        ensures
            r@ == self@.text(),
    {
        match self {
            LibraryError::OutsideRoot => "路径必须限制在下载根目录内".to_owned(),
            LibraryError::ParentNotFolder => "目标父目录不存在或不是目录".to_owned(),
            LibraryError::EmptyName => "目录名不能为空".to_owned(),
            LibraryError::BadName => "目录名无效".to_owned(),
            LibraryError::NameWithSeparator => "目录名不能包含路径分隔符".to_owned(),
            LibraryError::NameUnsupported => "目录名包含 Windows 不支持的字符".to_owned(),
            LibraryError::FolderExists => "同名目录已存在".to_owned(),
            LibraryError::NothingToMove => "至少选择一个要移动的条目".to_owned(),
            LibraryError::DestinationNotFolder => "目标目录不存在或不是目录".to_owned(),
            LibraryError::Missing(s) => text::joined("条目不存在: ", s.as_str()),
            LibraryError::Nameless(s) => text::joined("无法识别条目名称: ", s.as_str()),
            LibraryError::SamePlace(s) => text::joined("源路径与目标路径相同: ", s.as_str()),
            LibraryError::TargetTaken(s) => text::joined("目标位置已存在同名条目: ", s.as_str()),
            LibraryError::IntoItself(s) => text::joined("不能把目录移动到自己的子目录中: ", s.as_str()),
            LibraryError::NothingToDelete => "至少选择一个要删除的条目".to_owned(),
            LibraryError::ItemMissing => "条目不存在".to_owned(),
            LibraryError::NotAFolder => "只能重命名文件夹".to_owned(),
            LibraryError::NameTaken => "同名条目已存在".to_owned(),
        }
    }
}

}
