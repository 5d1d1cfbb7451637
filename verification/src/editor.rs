//! The editor scene's own bookkeeping.

use vstd::prelude::*;

verus! {

/// One open editor: the file it edits (`None` for a fresh, unsaved one)
/// and whether it holds unsaved changes.
#[derive(Debug)]
pub struct Editor {
    pub path: Option<String>,
    pub is_dirty: bool,
}

/// Marks a piece of scenery that belongs to the editor itself (its camera
/// and its light) rather than to the drawing.
#[derive(Debug)]
pub struct EditorPart;

} // verus!
