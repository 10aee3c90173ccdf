//! Verified core of a read-only Git history and source explorer.

pub mod app;
pub mod bytes;
pub mod cli;
pub mod diagnostic;
pub mod domain;
pub mod error;
pub mod git;
pub mod lsp;
pub mod paths;
pub mod text;
pub mod unicode;
