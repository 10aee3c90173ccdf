//! Read-only access to an installed Git executable: the closed command
//! allowlist, the process boundary, machine-output parsers, and the
//! domain-level repository service.

pub mod command;
pub mod parse;
pub mod process;
pub mod runner;
pub mod service;
