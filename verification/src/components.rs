//! Decisions made by the screens of the interface.
pub mod diff_viewer;
pub mod right_panel;
pub mod stats;
pub mod tree_canvas;
pub mod home_screen;
pub mod user_repos;
