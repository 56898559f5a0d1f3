//! Utilities for a directory tree of markdown notes: resolving journal file
//! paths for a calendar date, extracting titles and outbound links from note
//! text, and filtering candidate note files by location, journal membership
//! and date.
pub mod config;
pub mod context;
pub mod date;
pub mod journal;
pub mod md;
pub mod note;
pub mod text;
pub mod walk;

pub use config::Config;
pub use context::Context;
pub use note::Note;

