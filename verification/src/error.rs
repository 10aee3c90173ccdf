//! Errors that stop startup or end the interactive session.

use crate::git::runner::GitError;
use crate::lsp::config::LspConfigError;
use std::io;
use vstd::prelude::*;

verus! {

/// Operating-system errors are carried through unread.
#[verifier::external_type_specification]
#[verifier::external_body]
pub struct ExIoError(io::Error);

/// A failure that prevents startup or terminates the interactive application.
///
/// Recoverable Git failures inside the interface are kept in load state
/// instead; this error is reserved for boundary failures reported after the
/// terminal is restored.
#[derive(Debug)]
pub enum AppError {
    /// Repository discovery or Git execution failed.
    Git(GitError),
    /// Terminal input, output, or signal handling failed.
    Io(io::Error),
    /// Standard input or output is not attached to an interactive terminal.
    NonInteractiveTerminal,
    /// The optional or explicit keymap could not be loaded or validated; the
    /// keymap loader's description.
    KeyMap(String),
    /// The optional or explicit trusted language-server profile file was invalid.
    LspConfig(LspConfigError),
}

/// The one-line summary of each failure.
pub open spec fn summary(e: AppError) -> Seq<char> {
    match e {
        AppError::Git(_) => "Git operation failed"@,
        AppError::Io(_) => "terminal I/O failed"@,
        AppError::NonInteractiveTerminal => "an interactive TTY is required; run chronogit in a terminal"@,
        AppError::KeyMap(_) => "keymap configuration failed"@,
        AppError::LspConfig(_) => "LSP configuration failed"@,
    }
}

impl AppError {
    /// The one-line summary shown to the user; the cause, when there is one,
    /// is reported after it.
    pub fn message(&self) -> (s: &'static str)
        ensures
            s@ == summary(*self),
    {
        match self {
            AppError::Git(_) => "Git operation failed",
            AppError::Io(_) => "terminal I/O failed",
            AppError::NonInteractiveTerminal => "an interactive TTY is required; run chronogit in a terminal",
            AppError::KeyMap(_) => "keymap configuration failed",
            AppError::LspConfig(_) => "LSP configuration failed",
        }
    }
}

impl From<GitError> for AppError {
    fn from(value: GitError) -> (e: AppError) {
        AppError::Git(value)
    }
}

impl vstd::std_specs::convert::FromSpecImpl<GitError> for AppError {
    open spec fn obeys_from_spec() -> bool {
        true
    }

    open spec fn from_spec(value: GitError) -> AppError {
        AppError::Git(value)
    }
}

impl From<LspConfigError> for AppError {
    fn from(value: LspConfigError) -> (e: AppError) {
        AppError::LspConfig(value)
    }
}

impl vstd::std_specs::convert::FromSpecImpl<LspConfigError> for AppError {
    open spec fn obeys_from_spec() -> bool {
        true
    }

    open spec fn from_spec(value: LspConfigError) -> AppError {
        AppError::LspConfig(value)
    }
}

impl From<io::Error> for AppError {
    fn from(value: io::Error) -> (e: AppError) {
        AppError::Io(value)
    }
}

impl vstd::std_specs::convert::FromSpecImpl<io::Error> for AppError {
    open spec fn obeys_from_spec() -> bool {
        true
    }

    open spec fn from_spec(value: io::Error) -> AppError {
        AppError::Io(value)
    }
}

} // verus!
