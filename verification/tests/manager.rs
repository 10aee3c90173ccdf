//! Navigation results from language servers.

use chronogit::app::effect::resolve_location;
use chronogit::domain::path::{RepoPath, RepositoryRoot};
use chronogit::lsp::manager::{classify_location, contain, WireNavigationTarget, WireRepositoryLocation};
use chronogit::lsp::session::{WirePosition, WireRange};
use chronogit::lsp::{LspError, PositionEncoding};

fn selection() -> WireRange {
    WireRange {
        start: WirePosition { line: 3, character: 4 },
        end: WirePosition { line: 3, character: 9 },
    }
}

fn repository() -> RepositoryRoot {
    RepositoryRoot::new(b"/repo".to_vec()).unwrap_or_else(|e| panic!("{e}"))
}

#[test]
fn contains_only_repository_file_uris() {
    match contain(&repository(), "file:///repo/src/main.rs", selection(), PositionEncoding::Utf16) {
        WireNavigationTarget::Repository(location) => {
            assert_eq!(location.path.as_bytes(), b"src/main.rs");
            assert_eq!(location.selection, selection());
            assert_eq!(location.encoding, PositionEncoding::Utf16);
        }
        other => panic!("expected a repository location, got {other:?}"),
    }
    for uri in [
        "file:///outside/main.rs",
        "jdt://contents/String.class",
        "https://example.test/x",
    ] {
        assert!(matches!(
            contain(&repository(), uri, selection(), PositionEncoding::Utf16),
            WireNavigationTarget::External { .. }
        ));
    }
}

#[test]
fn external_locations_show_the_sanitized_uri() {
    match contain(&repository(), "not a url\u{1b}", selection(), PositionEncoding::Utf8) {
        WireNavigationTarget::External { display_uri } => assert_eq!(display_uri, "not a url"),
        other => panic!("expected an external location, got {other:?}"),
    }
    match contain(&repository(), "file:///repo", selection(), PositionEncoding::Utf8) {
        WireNavigationTarget::External { display_uri } => assert_eq!(display_uri, "file:///repo"),
        other => panic!("the root itself is no file: {other:?}"),
    }
}

#[test]
fn percent_encoded_file_paths_are_decoded_inside_the_repository() {
    match contain(&repository(), "file:///repo/a%20b/c.rs", selection(), PositionEncoding::Utf32) {
        WireNavigationTarget::Repository(location) => {
            assert_eq!(location.path.as_bytes(), b"a b/c.rs")
        }
        other => panic!("expected a repository location, got {other:?}"),
    }
}

#[test]
fn only_file_schemes_with_valid_relative_paths_are_repository_locations() {
    assert!(matches!(
        classify_location("file:///r/x", "file", Some(b"x".to_vec()), selection(), PositionEncoding::Utf8),
        WireNavigationTarget::Repository(_)
    ));
    assert!(matches!(
        classify_location("jdt://x", "jdt", Some(b"x".to_vec()), selection(), PositionEncoding::Utf8),
        WireNavigationTarget::External { .. }
    ));
    assert!(matches!(
        classify_location("file:///r/../x", "file", Some(b"../x".to_vec()), selection(), PositionEncoding::Utf8),
        WireNavigationTarget::External { .. }
    ));
    assert!(matches!(
        classify_location("file:///r", "file", None, selection(), PositionEncoding::Utf8),
        WireNavigationTarget::External { .. }
    ));
}

#[test]
fn server_ranges_resolve_to_byte_columns_of_the_target_lines() {
    let source = "fn main() {\n    let 界 = 1;\r\n}\n";
    let location = |start: (u32, u32), end: (u32, u32), encoding| WireRepositoryLocation {
        path: RepoPath::from_bytes(b"src/main.rs".to_vec()).unwrap_or_else(|e| panic!("{e}")),
        selection: WireRange {
            start: WirePosition { line: start.0, character: start.1 },
            end: WirePosition { line: end.0, character: end.1 },
        },
        encoding,
    };
    let resolved = resolve_location(&location((1, 8), (1, 9), PositionEncoding::Utf16), source)
        .unwrap_or_else(|e| panic!("{e:?}"));
    assert_eq!(resolved.path().as_bytes(), b"src/main.rs");
    assert_eq!(resolved.selection().start().byte_column(), 8);
    assert_eq!(resolved.selection().end().byte_column(), 11);
    assert_eq!(resolved.selection().end().line(), 1);

    assert!(matches!(
        resolve_location(&location((7, 0), (7, 0), PositionEncoding::Utf16), source),
        Err(LspError::Protocol(message)) if message == "language server returned a line outside the target file"
    ));
    assert!(matches!(
        resolve_location(&location((1, 9), (1, 9), PositionEncoding::Utf8), source),
        Err(LspError::Protocol(message)) if message == "language server returned a non-boundary UTF-8 position"
    ));
    assert!(matches!(
        resolve_location(&location((0, 0), (0, 40), PositionEncoding::Utf32), source),
        Err(LspError::Protocol(message)) if message == "language server returned a position past the end of a line"
    ));
}
