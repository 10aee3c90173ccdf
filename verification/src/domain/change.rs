//! Change classifications reported for the worktree and committed snapshots.

use crate::domain::path::RepoPath;
use vstd::prelude::*;

verus! {

/// The semantic kind of a path change reported by Git.
#[derive(Clone, Copy, Debug, PartialEq, Eq, Structural)]
pub enum ChangeKind {
    /// File contents or metadata changed in place.
    Modified,
    /// A new tracked path was added.
    Added,
    /// A worktree path is not tracked by Git.
    Untracked,
    /// A tracked path was deleted.
    Deleted,
    /// A path was renamed from its original path.
    Renamed,
    /// A path was copied from its original path.
    Copied,
    /// The Git object type or file mode changed.
    TypeChanged,
    /// Git reports an unresolved merge state for the path.
    Unmerged,
}

/// The compact status marker of each kind.
pub open spec fn change_label(kind: ChangeKind) -> Seq<char> {
    match kind {
        ChangeKind::Modified => "M"@,
        ChangeKind::Added => "A"@,
        ChangeKind::Untracked => "?"@,
        ChangeKind::Deleted => "D"@,
        ChangeKind::Renamed => "R"@,
        ChangeKind::Copied => "C"@,
        ChangeKind::TypeChanged => "T"@,
        ChangeKind::Unmerged => "U"@,
    }
}

impl ChangeKind {
    /// Returns the compact status marker used in the terminal file list.
    pub fn label(self) -> (s: &'static str)
        ensures
            s@ == change_label(self),
    {
        match self {
            ChangeKind::Modified => "M",
            ChangeKind::Added => "A",
            ChangeKind::Untracked => "?",
            ChangeKind::Deleted => "D",
            ChangeKind::Renamed => "R",
            ChangeKind::Copied => "C",
            ChangeKind::TypeChanged => "T",
            ChangeKind::Unmerged => "U",
        }
    }
}

/// An unstaged change between the index and the current working tree.
///
/// Staged-only changes are deliberately absent from this type's data source.
/// For renames and copies, `original_path` identifies the source path.
#[derive(Debug)]
pub struct WorktreeChange {
    pub path: RepoPath,
    pub original_path: Option<RepoPath>,
    pub kind: ChangeKind,
}

impl WorktreeChange {
    /// Creates a worktree change returned by the porcelain-status parser.
    pub fn new(path: RepoPath, original_path: Option<RepoPath>, kind: ChangeKind) -> (c:
        WorktreeChange)
        ensures
            c.path == path,
            c.original_path == original_path,
            c.kind == kind,
    {
        WorktreeChange { path, original_path, kind }
    }

    /// Returns the current or destination repository-relative path.
    pub fn path(&self) -> (p: &RepoPath)
        ensures
            *p == self.path,
    {
        &self.path
    }

    /// Returns the source path for a rename or copy, when Git supplied one.
    pub fn original_path(&self) -> (p: Option<&RepoPath>)
        ensures
            p == match self.original_path {
                Some(q) => Some(&q),
                None => None::<&RepoPath>,
            },
    {
        match &self.original_path {
            Some(q) => Some(q),
            None => None,
        }
    }

    /// Returns the semantic change classification.
    pub fn kind(&self) -> (k: ChangeKind)
        ensures
            k == self.kind,
    {
        self.kind
    }
}

/// A path changed by a commit relative to its selected baseline.
#[derive(Debug)]
pub struct ChangedFile {
    pub path: RepoPath,
    pub original_path: Option<RepoPath>,
    pub kind: ChangeKind,
}

impl ChangedFile {
    /// Creates a committed-file change returned by the name-status parser.
    pub fn new(path: RepoPath, original_path: Option<RepoPath>, kind: ChangeKind) -> (c:
        ChangedFile)
        ensures
            c.path == path,
            c.original_path == original_path,
            c.kind == kind,
    {
        ChangedFile { path, original_path, kind }
    }

    /// Returns the current or destination repository-relative path.
    pub fn path(&self) -> (p: &RepoPath)
        ensures
            *p == self.path,
    {
        &self.path
    }

    /// Returns the source path for a rename or copy, when Git supplied one.
    pub fn original_path(&self) -> (p: Option<&RepoPath>)
        ensures
            p == match self.original_path {
                Some(q) => Some(&q),
                None => None::<&RepoPath>,
            },
    {
        match &self.original_path {
            Some(q) => Some(q),
            None => None,
        }
    }

    /// Returns the semantic change classification.
    pub fn kind(&self) -> (k: ChangeKind)
        ensures
            k == self.kind,
    {
        self.kind
    }
}

} // verus!
