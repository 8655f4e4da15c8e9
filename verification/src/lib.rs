//! Core of a terminal program that tails the most recently changed files of a directory.

pub mod app;
pub mod cli;
pub mod clock;
pub mod dispatch;
pub mod dispatch_laws;
pub mod encoding;
pub mod event;
pub mod file_tracker;
pub mod glob;
pub mod key_laws;
pub mod keys;
pub mod layout;
pub mod line_laws;
pub mod llm;
pub mod llm_laws;
pub mod panel_laws;
pub mod path;
pub mod path_laws;
pub mod scan;
pub mod scan_laws;
pub mod screen_laws;
pub mod tail_reader;
pub mod text;
pub mod tracker_laws;
pub mod ui;
