//! The working-tree file tree.

use chronogit::app::code_view::{clamp_byte_column, direct_children, CodeEntryKind};
use chronogit::domain::path::RepoPath;

fn path(value: &str) -> RepoPath {
    RepoPath::from_bytes(value.as_bytes().to_vec())
        .unwrap_or_else(|error| panic!("invalid fixture path: {error}"))
}

#[test]
fn projects_direct_children_with_directories_before_files() {
    let files = [
        path("Cargo.toml"),
        path("README.md"),
        path("docs/guide.md"),
        path("src/commands/run.rs"),
        path("src/domain/path.rs"),
        path("src/lib.rs"),
        path("src/main.rs"),
    ];
    let roots = direct_children(&files, None, 0);
    assert_eq!(roots.len(), 4);
    assert_eq!(roots[0].path().display(), "docs");
    assert_eq!(roots[0].kind(), CodeEntryKind::Directory);
    assert_eq!(roots[1].path().display(), "src");
    assert_eq!(roots[1].kind(), CodeEntryKind::Directory);
    assert_eq!(roots[2].path().display(), "Cargo.toml");
    assert_eq!(roots[2].kind(), CodeEntryKind::File);
    assert_eq!(roots[3].path().display(), "README.md");

    let children = direct_children(&files, Some(roots[1].path()), 1);
    assert_eq!(children.len(), 4);
    assert_eq!(children[0].path().display(), "src/commands");
    assert_eq!(children[0].kind(), CodeEntryKind::Directory);
    assert_eq!(children[1].path().display(), "src/domain");
    assert_eq!(children[1].kind(), CodeEntryKind::Directory);
    assert_eq!(children[2].path().display(), "src/lib.rs");
    assert_eq!(children[2].kind(), CodeEntryKind::File);
    assert_eq!(children[3].path().display(), "src/main.rs");
}

#[test]
fn a_name_that_is_both_file_and_directory_prefix_lists_as_a_directory_once() {
    let files = [path("a/x"), path("a"), path("b.txt"), path("a/y/z"), path("ab")];
    let roots = direct_children(&files, None, 0);
    let names: Vec<String> = roots.iter().map(|e| e.name().display()).collect();
    assert_eq!(names, vec!["a", "ab", "b.txt"]);
    assert_eq!(roots[0].kind(), CodeEntryKind::Directory);
    assert_eq!(roots[1].kind(), CodeEntryKind::File);
    assert!(roots.iter().all(|e| e.depth() == 0 && !e.expanded()));

    let a = direct_children(&files, Some(roots[0].path()), 1);
    let names: Vec<String> = a.iter().map(|e| e.path().display()).collect();
    assert_eq!(names, vec!["a/y", "a/x"]);
    assert!(direct_children(&files, Some(&path("missing")), 1).is_empty());
}

#[test]
fn cursor_columns_clamp_to_character_boundaries() {
    assert_eq!(clamp_byte_column("a界b", 2), 1);
    assert_eq!(clamp_byte_column("a界b", 4), 4);
    assert_eq!(clamp_byte_column("ab", 9), 2);
}
