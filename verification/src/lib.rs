//! Keykoff: a quick launcher's configuration model, search, group resolution
//! and interaction state machine, verified with Verus.

pub mod text;
pub mod tray;
pub mod app;
pub mod editing;
pub mod focus;
pub mod config;
pub mod dialogs;
pub mod groups;
pub mod hotkey;
pub mod search;
pub mod settings;
pub mod launcher;
pub mod overlay;
