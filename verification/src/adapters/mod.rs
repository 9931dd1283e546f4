//! The decisions of the adapters that talk to the operating system: what to
//! do next, computed from plain values, so that each can be checked without
//! starting the application.
//!
//! - [`presentation`] — showing and hiding the overlay
//! - [`intervention`] — the non-activating intervention panel
//! - [`hotkey`] — global shortcuts and their registration status
//! - [`menubar`] — the status item and its menu
//! - [`autostart`] — registration at login
//! - [`appmenu`] — the application menu that restores editing shortcuts
//! - [`clock`] — the wall clock
//! - [`storage`] — rows of the store and the schema

pub mod appmenu;
pub mod autostart;
pub mod clock;
pub mod hotkey;
pub mod intervention;
pub mod menubar;
pub mod presentation;
pub mod storage;
