//! Validated, I/O-free values shared by the application and Git adapter.

pub mod change;
pub mod commit;
pub mod diff;
pub mod path;
pub mod search;
pub mod source;
pub mod tree;
