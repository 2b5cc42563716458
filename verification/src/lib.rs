//! The state and the rules behind a terminal multiplexer for coding agents.

pub mod text;
pub mod paths;
pub mod urls;
pub mod labels;
pub mod order;
pub mod json;
pub mod clock;

pub mod ipc;
pub mod sessions;
pub mod github;
pub mod polling;
pub mod arenas;
pub mod panes;
pub mod sidebar;
pub mod app;

pub mod board;
pub mod issue_ref;

pub mod questionnaire;
pub mod review;
pub mod file_browser;
pub mod git_status;
pub mod recent;
pub mod mermaid;
pub mod active_terminals;
