//! Nodes of the file-tree cache.

use vstd::prelude::*;

use crate::text::{file_name_of, spec_file_name};

verus! {

/// One entry of a directory listing as handed to the tree: a name and
/// whether it names a directory.
#[derive(Debug)]
pub struct DirEntry {
    pub name: String,
    pub is_directory: bool,
}

/// One node of the file-tree cache.  A node mirrors one file or directory;
/// its children are the ids of the nodes below it, in listing order.
#[derive(Debug)]
pub struct FileTreeNode {
    pub path: String,
    pub name: String,
    pub is_directory: bool,
    pub children: Vec<u64>,
    pub children_loaded: bool,
}

impl FileTreeNode {
    /// A fresh node for a path: its name is the part of the path after the
    /// last separator, it has no children, and none have been loaded yet.
    pub fn new(path: String, is_directory: bool) -> (node: FileTreeNode)
        ensures
            node.path@ == path@,
            node.name@ == spec_file_name(path@),
            node.is_directory == is_directory,
            node.children@.len() == 0,
            node.children_loaded == false,
    {
        let name = file_name_of(path.as_str());
        FileTreeNode { path, name, is_directory, children: Vec::new(), children_loaded: false }
    }
}

} // verus!
