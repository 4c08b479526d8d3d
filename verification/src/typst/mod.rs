//! Preparing a document for the typesetter and assembling what it returns.

pub mod compiler;
