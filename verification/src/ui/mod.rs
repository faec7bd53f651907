//! Handset user-interface logic that does not touch the display: input vocabulary,
//! navigation profiles, the headless drive shell and the UI state enums.

pub mod headless_shell;
pub mod input;
pub mod keyboard;
pub mod text_entry;
pub mod led;
pub mod menu;
pub mod menu_fsm;
pub mod diag;
pub mod grid;
pub mod nav_profile;
pub mod view;
