//! Keeps AUR package directories up to date: reads package settings, learns the newest
//! upstream version, and rewrites the `pkgver` (and, on request, `pkgrel`) of each PKGBUILD.
pub mod arch;
pub mod cli;
pub mod config;
pub mod lines;
pub mod pkgbuild;
pub mod sources;
pub mod text;
pub mod updater;

pub use updater::{ChangedPackage, RunOptions, UpdateSummary};
