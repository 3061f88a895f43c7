//! Core logic for merging a zip archive's content into a Unity project tree.
//!
//! The archive is extracted into a staging tree; files are kept only when a
//! matching `.meta` marker exists in the target tree; the staged `Assets`
//! subtree is then merged into the target, overwriting files of the same
//! relative path and leaving everything else untouched.

pub mod extract;
pub mod paths;
pub mod report;
pub mod run;
pub mod tree;
pub mod workspace;
pub mod zipio;

use vstd::prelude::*;

verus! {

} // verus!
