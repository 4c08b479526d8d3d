//! Bounded search over the contents of a directory tree.

pub mod aggregator;
pub mod finalizer;
pub mod matcher;
pub mod models;
pub mod scanner;
pub mod service;
