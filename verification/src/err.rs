//! Error rows: inert placeholders for directory entries that are neither a
//! regular file nor a directory. They never expand, never capture events
//! and never emit messages; they exist so such an entry stays visible.

use vstd::prelude::*;
use crate::dir::VisualState;
use crate::event::{quiet_outcome, empty_outcome, UpdateOutcome};
use crate::paths::{file_name_of, has_file_name, file_name};

verus! {

/// A placeholder node for an entry that could not be classified.
#[derive(Debug)]
pub struct ErrorFile {
    pub path: String,
    pub name: String,
}

/// Mathematical image of an [`ErrorFile`].
pub struct ErrorView {
    pub path: Seq<char>,
    pub name: Seq<char>,
}

impl View for ErrorFile {
    type V = ErrorView;

    open spec fn view(&self) -> ErrorView {
        ErrorView { path: self.path@, name: self.name@ }
    }
}

impl ErrorFile {
    /// Builds an error node for `path`; its display name is the path's
    /// final component.
    pub fn new_inner(path: String) -> (r: Self)
        requires
            has_file_name(path@),
        ensures
            r@.path == path@,
            r@.name == file_name_of(path@),
    {
        let name = file_name(path.as_str());
        ErrorFile { path, name }
    }

    /// An error row is inert: it never captures an event, never emits a
    /// message, never asks for anything, and its state never changes.
    pub fn update(&self, s: &mut VisualState) -> (o: UpdateOutcome)
        ensures
            *final(s) == *old(s),
            o@ == quiet_outcome(),
    {
        empty_outcome()
    }
}

} // verus!
