//! Closed descriptions of the Git reads the explorer is allowed to execute.

use crate::domain::commit::{CommitBaseline, ObjectId};
use crate::domain::path::RepoPath;
use vstd::prelude::*;

verus! {

/// A typed, read-only Git invocation.
///
/// Callers cannot provide arbitrary arguments; a runner translates only these
/// variants and adds process-wide protections.
#[derive(Debug)]
pub enum GitCommand {
    /// Resolve the worktree root containing a candidate directory.
    Discover {
        /// Root or descendant path supplied at startup, as path bytes.
        start: Vec<u8>,
    },
    /// Ask whether the discovered repository is bare.
    IsBare,
    /// Test whether `HEAD` resolves in a repository that may be unborn.
    HasHead,
    /// Read porcelain-v2 worktree status with NUL-delimited paths.
    Status,
    /// Compare one tracked path from the index to the worktree.
    WorktreeDiff {
        /// Repository-relative pathspec.
        path: RepoPath,
    },
    /// Produce a no-index patch for one untracked path.
    UntrackedDiff {
        /// Repository-relative pathspec.
        path: RepoPath,
    },
    /// Read one page of machine-formatted commit summaries.
    Commits {
        /// Number of leading commits to skip.
        skip: usize,
        /// Maximum number of summaries to return.
        limit: usize,
    },
    /// Enumerate tracked and untracked repository paths.
    RepositoryFiles,
    /// Search working-tree contents for fixed text.
    Grep {
        /// Literal query text, passed as a separate argument.
        query: String,
    },
    /// Read commits that touched one path.
    FileHistory {
        /// Repository-relative pathspec.
        path: RepoPath,
        /// Maximum number of summaries to return.
        limit: usize,
    },
    /// Read a commit's complete message.
    CommitMessage {
        /// Validated full object ID used as the revision.
        commit: ObjectId,
    },
    /// List paths changed by a commit relative to an explicit baseline.
    ChangedFiles {
        /// Commit shown on the newer side.
        commit: ObjectId,
        /// Empty tree or first parent shown on the older side.
        baseline: CommitBaseline,
    },
    /// Read a patch for one path in a commit comparison.
    CommitDiff {
        /// Commit shown on the newer side.
        commit: ObjectId,
        /// Empty tree or first parent shown on the older side.
        baseline: CommitBaseline,
        /// Repository-relative pathspec.
        path: RepoPath,
    },
    /// List the direct entries of one commit tree object.
    TreeEntries {
        /// Validated tree or commit object ID.
        treeish: ObjectId,
    },
}

/// The stable operation name of each command.
pub open spec fn command_kind(command: GitCommand) -> Seq<char> {
    match command {
        GitCommand::Discover { .. } => "discover repository"@,
        GitCommand::IsBare => "check bare repository"@,
        GitCommand::HasHead => "check HEAD"@,
        GitCommand::Status => "read worktree status"@,
        GitCommand::WorktreeDiff { .. } => "read worktree diff"@,
        GitCommand::UntrackedDiff { .. } => "read untracked diff"@,
        GitCommand::Commits { .. } => "read commit history"@,
        GitCommand::RepositoryFiles => "list repository files"@,
        GitCommand::Grep { .. } => "search repository content"@,
        GitCommand::FileHistory { .. } => "read file history"@,
        GitCommand::CommitMessage { .. } => "read commit message"@,
        GitCommand::ChangedFiles { .. } => "read changed files"@,
        GitCommand::CommitDiff { .. } => "read commit diff"@,
        GitCommand::TreeEntries { .. } => "read tree entries"@,
    }
}

impl GitCommand {
    /// Returns a stable operation name used in diagnostics and errors.
    pub fn kind(&self) -> (s: &'static str)
        ensures
            s@ == command_kind(*self),
    {
        match self {
            GitCommand::Discover { .. } => "discover repository",
            GitCommand::IsBare => "check bare repository",
            GitCommand::HasHead => "check HEAD",
            GitCommand::Status => "read worktree status",
            GitCommand::WorktreeDiff { .. } => "read worktree diff",
            GitCommand::UntrackedDiff { .. } => "read untracked diff",
            GitCommand::Commits { .. } => "read commit history",
            GitCommand::RepositoryFiles => "list repository files",
            GitCommand::Grep { .. } => "search repository content",
            GitCommand::FileHistory { .. } => "read file history",
            GitCommand::CommitMessage { .. } => "read commit message",
            GitCommand::ChangedFiles { .. } => "read changed files",
            GitCommand::CommitDiff { .. } => "read commit diff",
            GitCommand::TreeEntries { .. } => "read tree entries",
        }
    }
}

} // verus!
