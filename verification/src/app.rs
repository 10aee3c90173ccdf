//! Application intent, in-document search, the Vim motion engine, and the
//! bounded view-state values of the explorer.

pub mod action;
pub mod code_view;
pub mod effect;
pub mod model;
pub mod repository_search;
pub mod search;
pub mod semantic_navigation;
pub mod update;
pub mod vim;
