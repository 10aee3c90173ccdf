//! Entries returned while lazily expanding a commit tree.

use crate::domain::commit::ObjectId;
use crate::domain::path::RepoPath;
use vstd::prelude::*;

verus! {

/// The object or filesystem role represented by a tree entry.
#[derive(Clone, Copy, Debug, PartialEq, Eq, Structural)]
pub enum TreeKind {
    /// A Git tree that can be expanded lazily.
    Directory,
    /// A regular blob.
    File,
    /// A blob whose mode identifies a symbolic link.
    Symlink,
    /// A gitlink that names another repository commit.
    Submodule,
}

/// Two entries that describe the same child.
pub open spec fn same_entry(a: TreeEntry, b: TreeEntry) -> bool {
    &&& a.object_id@ == b.object_id@
    &&& a.mode@ == b.mode@
    &&& a.kind == b.kind
    &&& a.name@ == b.name@
}

/// One direct child of a Git tree object.
#[derive(Debug)]
pub struct TreeEntry {
    pub object_id: ObjectId,
    pub mode: String,
    pub kind: TreeKind,
    pub name: RepoPath,
}

impl TreeEntry {
    /// Creates an entry from a validated `ls-tree` record.
    pub fn new(object_id: ObjectId, mode: String, kind: TreeKind, name: RepoPath) -> (e:
        TreeEntry)
        ensures
            e.object_id == object_id,
            e.mode == mode,
            e.kind == kind,
            e.name == name,
    {
        TreeEntry { object_id, mode, kind, name }
    }

    /// Returns an entry with the same identifier, mode, kind and name.
    pub fn duplicate(&self) -> (e: TreeEntry)
        ensures
            same_entry(e, *self),
    {
        TreeEntry {
            object_id: self.object_id.duplicate(),
            mode: self.mode.clone(),
            kind: self.kind,
            name: self.name.duplicate(),
        }
    }

    /// Returns the object ID needed to load a directory's children.
    pub fn object_id(&self) -> (o: &ObjectId)
        ensures
            *o == self.object_id,
    {
        &self.object_id
    }

    /// Returns Git's octal mode text.
    pub fn mode(&self) -> (m: &str)
        ensures
            m@ == self.mode@,
    {
        self.mode.as_str()
    }

    /// Returns the classified entry role.
    pub fn kind(&self) -> (k: TreeKind)
        ensures
            k == self.kind,
    {
        self.kind
    }

    /// Returns the name relative to the queried tree, not the repository root.
    pub fn name(&self) -> (n: &RepoPath)
        ensures
            *n == self.name,
    {
        &self.name
    }
}

} // verus!
