//! State of the "new file / new folder" dialog.
//!
//! The dialog itself is drawn by the shell around this library; here lives
//! its state and the decisions it makes: what it is creating, where, and
//! which path the new entry gets.

use vstd::prelude::*;
use vstd::string::StrSliceExecFns;

use crate::text::{join_path, spec_join};

verus! {

/// State of the dialog that creates a new file or folder.
#[derive(Debug)]
pub struct NewItemDialog {
    /// Whether the dialog is currently shown.
    pub is_open: bool,
    /// Whether it creates a folder (else a file).
    pub is_folder: bool,
    /// The name typed so far.
    pub name: String,
    /// The directory the new entry is created in.
    pub parent_path: String,
}

impl NewItemDialog {
    /// A closed dialog with nothing typed.
    pub fn new() -> (d: NewItemDialog)
        ensures
            d.is_open == false,
            d.is_folder == false,
            d.name@.len() == 0,
            d.parent_path@.len() == 0,
    {
        NewItemDialog {
            is_open: false,
            is_folder: false,
            name: String::new(),
            parent_path: String::new(),
        }
    }

    /// Opens the dialog for a new folder or file under a directory.
    pub fn begin(&mut self, is_folder: bool, parent_path: String)
        ensures
            final(self).is_open == true,
            final(self).is_folder == is_folder,
            final(self).name@.len() == 0,
            final(self).parent_path@ == parent_path@,
    {
        self.is_open = true;
        self.is_folder = is_folder;
        self.name = String::new();
        self.parent_path = parent_path;
    }

    /// The path the new entry would be created at: the parent directory
    /// joined with the typed name.
    pub fn target_path(&self) -> (r: String)
        ensures
            r@ == spec_join(self.parent_path@, self.name@),
    {
        join_path(self.parent_path.as_str(), self.name.as_str())
    }

    /// Whether a creation may proceed: something has been typed.
    pub fn can_create(&self) -> (r: bool)
        ensures
            r == (self.name@.len() > 0),
    {
        let n = self.name.as_str().unicode_len();
        n > 0
    }

    /// Closes the dialog and forgets the typed name.
    pub fn reset(&mut self)
        ensures
            final(self).is_open == false,
            final(self).name@.len() == 0,
            final(self).is_folder == old(self).is_folder,
            final(self).parent_path == old(self).parent_path,
    {
        self.is_open = false;
        self.name = String::new();
    }
}

impl Default for NewItemDialog {
    /// A closed dialog with nothing typed.
    fn default() -> (d: NewItemDialog)
        ensures
            d.is_open == false,
            d.is_folder == false,
            d.name@.len() == 0,
            d.parent_path@.len() == 0,
    {
        NewItemDialog::new()
    }
}

} // verus!
