//! A verified core for a desktop file-search utility.
//!
//! The library models a directory tree as a plain value, walks it
//! depth-first with an optional hidden-entry pruning policy, and applies a
//! multi-criteria match predicate (substring or exact name match, optional
//! case folding, a comma-separated suffix filter, and a file-only
//! restriction) to every entry the walk yields.  The surrounding program
//! reads the real filesystem into the tree value and displays the results;
//! everything that decides which paths are returned lives here.

pub mod args;
pub mod text;
pub mod form;
pub mod matching;
pub mod tree;
