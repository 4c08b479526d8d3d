//! Rendering a note to HTML for the preview.

pub mod commands;
