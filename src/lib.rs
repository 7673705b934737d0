//! Argument processing and archive-manifest resolution for a runtime launcher.
pub mod text;
pub mod manifest;
pub mod args;
