//! Sorting the files of a directory tree into category folders.
//!
//! The library holds the decisions: which category owns an extension, which
//! entries a tree walk keeps, which name a file gets where its destination is
//! occupied, which files repeat an earlier one, and how one pass over the
//! discovered files proceeds. Reading directories and moving files is left to
//! the caller, who performs the actions the library asks for and reports back
//! what happened.

pub mod clock;
pub mod collision;
pub mod config;
pub mod duplicates;
pub mod junk;
pub mod mover;
pub mod organizer;
pub mod paths;
pub mod text;
pub mod walker;
