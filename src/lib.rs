//! Compiles installed Flatpak-style application and runtime images into an
//! ordered list of sandbox construction operations for bubblewrap.

pub mod args;
pub mod bwrap;
pub mod compose;
pub mod extension;
pub mod install;
pub mod metadata;
pub mod policy;
pub mod snapshot;
pub mod text;
