//! Verified core of a desktop note editor's backend.
//!
//! The centre of the crate is a bounded text search: a query is compiled once
//! into a matcher, each candidate file is scanned line by line, the per-file
//! results are gathered under global caps and finally ordered by path.
//! Beside it stand the smaller decisions of the backend: what a directory
//! listing shows, what a note is rendered with, and what is made of the
//! typesetter's answer. Everything that touches the disk or the window
//! system lives outside of this crate and hands plain values in.

pub mod filesystem;
pub mod lexical;
pub mod markdown;
pub mod search;
pub mod sequences;
pub mod sorting;
pub mod typst;
