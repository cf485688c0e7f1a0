//! Where the workspace layout is kept on disk. Reading and writing the
//! file belong to the application; the library decides the path.

use crate::workspace::workspace_text::{join_path, joined_path};
use vstd::prelude::*;

verus! {

/// The layout file's name inside the data directory.
pub open spec fn layout_file_name() -> Seq<char> {
    "workspace-layout.json"@
}

/// Why a layout could not be kept.
#[derive(Debug, Clone, PartialEq, Eq)]
pub enum LayoutStoreError {
    /// No project data directory could be resolved.
    NoProjectDirs,
    /// Reading or writing the file failed.
    Io(String),
    /// The layout could not be encoded.
    Serialize(String),
}

/// A layout store backed by one file.
#[derive(Debug, Clone)]
pub struct FileLayoutStore {
    layout_path: String,
}

impl FileLayoutStore {
    /// The file's path.
    pub closed spec fn path_spec(&self) -> Seq<char> {
        self.layout_path@
    }

    /// A store keeping the layout in `dir`.
    pub fn new_at(dir: &str) -> (r: Self)
        ensures
            r.path_spec() == joined_path(dir@, layout_file_name()),
    {
        FileLayoutStore { layout_path: join_path(dir, "workspace-layout.json") }
    }

    /// The file's path.
    pub fn layout_path(&self) -> (r: &str)
        ensures
            r@ == self.path_spec(),
    {
        self.layout_path.as_str()
    }
}

} // verus!
