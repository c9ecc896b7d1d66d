//! A lazy, collapsible file-tree model with verified listing, layout and
//! click handling.
//!
//! The crate models the widget as plain data: a tree of directory, file and
//! error nodes, a parallel tree of per-node visual state, and pure functions
//! that compute layout geometry, route pointer events and build draw plans.
//! All filesystem access and rendering is left to the embedding application,
//! which feeds directory listings in and carries messages and draw commands
//! out.

pub mod click;
pub mod dir;
pub mod draw;
pub mod err;
pub mod event;
pub mod file;
pub mod file_tree;
pub mod folder;
pub mod listing;
pub mod paths;

pub use file_tree::{FileTree, file_tree};

use vstd::prelude::*;

verus! {

/// Height of one row of the tree, in pixels.
pub const LINE_HEIGHT: i64 = 21;

/// Largest number of rows a laid-out tree may have; keeps all pixel
/// arithmetic well inside `i64`.
pub const MAX_ROWS: i64 = 0x2000_0000;

/// Largest magnitude of a coordinate handed to layout, events or drawing;
/// keeps all pixel arithmetic well inside `i64`.
pub const COORD_LIMIT: i64 = 0x1_0000_0000;

} // verus!
