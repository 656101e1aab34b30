//! A library for building and rendering directory-size reports.
//!
//! The tree builder turns a snapshot of a directory listing into a tree of
//! directory nodes whose sizes aggregate every file size beneath them, while
//! absorbing per-entry failures instead of aborting the walk. The renderer
//! turns a finished tree into an indented textual report.

pub mod tree;
pub mod builder;
pub mod render;
