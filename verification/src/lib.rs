//! Verified core of an AppImage manager: file classification, desktop-entry
//! rewriting, sandbox toggling, storage analysis, update detection and the
//! download-folder watcher.
pub mod cli;
pub mod desktop;
pub mod downloader;
pub mod installer;
pub mod locations;
pub mod manager;
pub mod path;
pub mod text;
pub mod updater;
pub mod watcher;
