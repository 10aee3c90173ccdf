//! Filesystem path values held by the library, and the two questions about a
//! path's shape that only the platform's `std::path` answers.

use std::path::PathBuf;
use vstd::prelude::*;

verus! {

/// Owned platform paths are carried through the library unread.
#[verifier::external_type_specification]
#[verifier::external_body]
pub struct ExPathBuf(PathBuf);

/// Calls `std::path::Path::is_absolute`; what counts as absolute depends on
/// the platform, so nothing is stated of the answer.
#[verifier::external_body]
pub(crate) fn path_is_absolute(s: &str) -> bool {
    std::path::Path::new(s).is_absolute()
}

/// Counts `std::path::Path::components`; how a path splits depends on the
/// platform, so nothing is stated of the count.
#[verifier::external_body]
pub(crate) fn path_component_count(s: &str) -> usize {
    std::path::Path::new(s).components().count()
}

/// Renders a path through `std::path::Path::display`; how a platform path
/// becomes text is platform-dependent, so nothing is stated of the text.
#[verifier::external_body]
pub(crate) fn path_display(path: &PathBuf) -> String {
    path.display().to_string()
}

/// The kinds of component `std::path::Path::components` yields.
#[derive(Clone, Copy, Debug, PartialEq, Eq, Structural)]
pub enum PathComponentKind {
    Prefix,
    RootDir,
    CurDir,
    ParentDir,
    Normal,
}

/// Lists the kind of each component of `std::path::Path::components`; how a
/// path splits depends on the platform, so nothing is stated of the list.
#[verifier::external_body]
pub(crate) fn path_component_kinds(s: &str) -> Vec<PathComponentKind> {
    std::path::Path::new(s)
        .components()
        .map(|component| match component {
            std::path::Component::Prefix(_) => PathComponentKind::Prefix,
            std::path::Component::RootDir => PathComponentKind::RootDir,
            std::path::Component::CurDir => PathComponentKind::CurDir,
            std::path::Component::ParentDir => PathComponentKind::ParentDir,
            std::path::Component::Normal(_) => PathComponentKind::Normal,
        })
        .collect()
}

/// Copies a path through `Clone`; the copy is the same path.
#[verifier::external_body]
pub(crate) fn copy_path(p: &PathBuf) -> (r: PathBuf)
    ensures
        r == *p,
{
    p.clone()
}

/// Appends a component through `std::path::Path::join`; how components are
/// joined depends on the platform, so nothing is stated of the result.
#[verifier::external_body]
pub(crate) fn join_path(p: &PathBuf, component: &str) -> PathBuf {
    p.join(component)
}

} // verus!
