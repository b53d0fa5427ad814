//! The editing core of a modal terminal text editor: buffers of lines whose marks follow
//! every edit, windows and tabs over them, and a fixed table of panes that splits the screen
//! while keeping every pane's share of it.

pub mod app_server;
pub mod application;
pub mod buffer;
pub mod buffer_list;
pub mod commands;
pub mod error;
pub mod laws;
pub mod mark_table;
pub mod marks;
pub mod pane_manager;
pub mod tab;
pub mod text;
pub mod window;
