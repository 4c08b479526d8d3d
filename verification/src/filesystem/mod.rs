//! Listing a directory for the file tree of the editor.

pub mod commands;
pub mod models;
