//! Parsers of Git machine output.

use chronogit::domain::change::ChangeKind;
use chronogit::domain::diff::{DiffDocument, DiffLineKind};
use chronogit::git::parse::{
    parse_changed_files, parse_commits, parse_file_paths, parse_grep_matches, parse_patch,
    parse_status, parse_tree_entries,
};

#[test]
fn tracks_old_and_new_line_numbers() {
    let patch = parse_patch(b"@@ -2,2 +2,2 @@\n old\n-removed\n+added\n", false);
    let DiffDocument::Text { lines, .. } = patch else {
        panic!("expected text diff");
    };
    assert_eq!(lines[2].kind(), DiffLineKind::Removed);
    assert_eq!(lines[2].old_line().map(|line| line.value()), Some(3));
    assert_eq!(lines[3].new_line().map(|line| line.value()), Some(3));
}

#[test]
fn classifies_the_no_newline_marker_as_metadata() {
    let patch = parse_patch(
        b"@@ -1 +1 @@\n-old\n+new\n\\ No newline at end of file\n",
        false,
    );
    let DiffDocument::Text { lines, .. } = patch else {
        panic!("expected text diff");
    };
    assert_eq!(
        lines.last().map(|line| line.kind()),
        Some(DiffLineKind::Meta)
    );
}

#[test]
fn parses_root_and_merge_commits() {
    let input = [
        "aaaaaaaaaaaaaaaaaaaaaaaaaaaaaaaaaaaaaaaa\0",
        "bbbbbbbbbbbbbbbbbbbbbbbbbbbbbbbbbbbbbbbb cccccccccccccccccccccccccccccccccccccccc\0",
        "Ada\0",
        "2026-01-01T00:00:00Z\0",
        "merge\0",
        "bbbbbbbbbbbbbbbbbbbbbbbbbbbbbbbbbbbbbbbb\0",
        "\0",
        "Ada\0",
        "2025-01-01T00:00:00Z\0",
        "root\0",
    ]
    .join("");
    let commits = parse_commits(input.as_bytes()).unwrap_or_else(|error| panic!("{error:?}"));
    assert_eq!(commits.len(), 2);
    assert_eq!(commits[0].parents().len(), 2);
    assert!(commits[1].parents().is_empty());
}

#[test]
fn rejects_incomplete_or_invalid_commit_records() {
    assert!(parse_commits(b"one\0two\0").is_err());
    assert!(parse_commits(["not-an-oid\0\0Ada\0", "2026\0subject\0"].join("").as_bytes()).is_err());
}

#[test]
fn parses_rename_triplet() {
    let files = parse_changed_files(b"R100\0old name\0new name\0")
        .unwrap_or_else(|error| panic!("{error:?}"));
    assert_eq!(files.len(), 1);
    assert_eq!(files[0].path().display(), "new name");
    assert_eq!(
        files[0].original_path().map(|path| path.display()),
        Some("old name".to_owned())
    );
}

#[test]
fn rejects_unknown_and_incomplete_status_records() {
    assert!(parse_changed_files(b"X\0file\0").is_err());
    assert!(parse_changed_files(b"R100\0old\0").is_err());
}

#[test]
fn parses_nul_delimited_files_and_grep_records() {
    let files = parse_file_paths(b"src/main.rs\0weird\nname.txt\0")
        .unwrap_or_else(|error| panic!("{error:?}"));
    assert_eq!(files.len(), 2);
    assert_eq!(files[1].path().as_bytes(), b"weird\nname.txt");

    let matches = parse_grep_matches(b"src/main.rs\x0012\0let needle = true;\n")
        .unwrap_or_else(|error| panic!("{error:?}"));
    assert_eq!(matches.len(), 1);
    assert_eq!(matches[0].line(), Some(12));
    assert_eq!(matches[0].preview(), "let needle = true;");
}

#[test]
fn rejects_incomplete_grep_records() {
    assert!(parse_grep_matches(b"src/main.rs\0not-a-line\0text\n").is_err());
    assert!(parse_grep_matches(b"src/main.rs").is_err());
}

#[test]
fn excludes_staged_only_and_parses_untracked_and_rename() {
    let input = b"1 M. N... 100644 100644 100644 abc def staged.txt\0\
1 .M N... 100644 100644 100644 abc def modified.txt\0\
2 .R N... 100644 100644 100644 abc def R100 new name.txt\0old name.txt\0\
? new.txt\0";
    let changes = parse_status(input).unwrap_or_else(|error| panic!("{error:?}"));
    assert_eq!(changes.len(), 3);
    assert_eq!(changes[0].kind(), ChangeKind::Modified);
    assert_eq!(changes[1].kind(), ChangeKind::Renamed);
    assert_eq!(changes[2].kind(), ChangeKind::Untracked);
}

#[test]
fn rejects_unknown_or_incomplete_records() {
    assert!(parse_status(b"1 .X N... 100644 100644 100644 abc def file\0").is_err());
    assert!(parse_status(b"2 .R incomplete\0").is_err());
    assert!(parse_status(b"x unsupported\0").is_err());
}

#[test]
fn rejects_malformed_tree_entries() {
    assert!(parse_tree_entries(b"100644 blob missing-tab\0").is_err());
    assert!(
        parse_tree_entries(b"100644 mystery aaaaaaaaaaaaaaaaaaaaaaaaaaaaaaaaaaaaaaaa\tfile\0")
            .is_err()
    );
}
