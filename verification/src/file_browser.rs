//! The file browser: a tree of directories beside the files of one of them.

pub mod tree;
pub mod paste;
pub mod view;
