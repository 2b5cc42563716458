//! Reviews: what a review file holds, which lines of it are shown, and the view
//! of it.

pub mod ranges;
pub mod document;
pub mod view;
