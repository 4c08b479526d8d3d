//! An entry of a directory listing.

use vstd::prelude::*;

verus! {

/// One entry of a directory.
#[derive(Debug, Clone)]
pub struct FileEntry {
    /// The last component of the path.
    pub name: String,
    /// The whole path.
    pub path: String,
    /// Whether the entry is a directory.
    pub is_dir: bool,
}

/// Mathematical value of a [`FileEntry`].
pub struct EntryView {
    pub name: Seq<char>,
    pub path: Seq<char>,
    pub is_dir: bool,
}

impl View for FileEntry {
    type V = EntryView;

    open spec fn view(&self) -> EntryView {
        EntryView { name: self.name@, path: self.path@, is_dir: self.is_dir }
    }
}

} // verus!
