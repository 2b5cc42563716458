//! Markdown questionnaires: headings that ask, options to choose from, and
//! `[Answer]:` lines that hold what was chosen.

pub mod answer;
pub mod bodies;
pub mod choosing;
pub mod document;
pub mod grammar;
pub mod laws;
pub mod levels;
pub mod reading;
pub mod round_trip;
pub mod view;
