//! Library-wide promises checked on concrete values.

use chronogit::app::model::{AppView, FocusedPane, Selection};
use chronogit::app::update::{edge, next_pane, previous_pane};
use chronogit::diagnostic::safe_diagnostic;
use chronogit::domain::path::RepoPath;
use chronogit::lsp::config::validate_command;
use chronogit::lsp::session::{sanitize, source_line};
use chronogit::lsp::{display_column, from_lsp_character, to_lsp_character, PositionEncoding};

#[test]
fn selection_moves_stay_inside_the_list() {
    let mut selection = Selection::new();
    assert_eq!(selection.index(), None);
    assert!(selection.move_by(3, 5));
    assert_eq!(selection.index(), Some(3));
    assert!(selection.move_by(100, 5));
    assert_eq!(selection.index(), Some(4));
    assert!(!selection.move_by(1, 5));
    assert!(selection.move_by(-100, 5));
    assert_eq!(selection.index(), Some(0));
    assert!(selection.move_by(1, 0));
    assert_eq!(selection.index(), None);
    assert!(!selection.move_by(-1, 0));
}

#[test]
fn selection_edges_and_resets() {
    let mut selection = Selection::new();
    assert!(edge(&mut selection, 4, true));
    assert_eq!(selection.index(), Some(3));
    assert!(!edge(&mut selection, 4, true));
    assert!(edge(&mut selection, 4, false));
    assert_eq!(selection.index(), Some(0));
    selection.reset_to(3, Some(9));
    assert_eq!(selection.index(), Some(2));
    selection.clamp(2);
    assert_eq!(selection.index(), Some(1));
    selection.clamp(0);
    assert_eq!(selection.index(), None);
    selection.reset(2);
    assert_eq!(selection.index(), Some(0));
}

#[test]
fn pane_focus_cycles_and_returns() {
    for view in [AppView::History, AppView::CommitDetails] {
        assert_eq!(next_pane(view, FocusedPane::Primary), FocusedPane::Secondary);
        assert_eq!(next_pane(view, FocusedPane::Secondary), FocusedPane::Diff);
        for focus in [FocusedPane::Primary, FocusedPane::Secondary] {
            assert_eq!(previous_pane(view, next_pane(view, focus)), focus);
        }
    }
    assert_eq!(next_pane(AppView::Changes, FocusedPane::Primary), FocusedPane::Diff);
    assert_eq!(previous_pane(AppView::Changes, FocusedPane::Diff), FocusedPane::Primary);
    assert_eq!(next_pane(AppView::Graph, FocusedPane::Primary), FocusedPane::Primary);
}

#[test]
fn server_text_is_bounded_and_free_of_controls() {
    assert_eq!(sanitize("ok\u{1b}[31mred\u{7}", 100), "ok[31mred");
    assert_eq!(sanitize("abcdef", 3), "abc");
    assert_eq!(sanitize("\n\t", 10), "");
    assert_eq!(chronogit::lsp::manager::sanitize_uri("file:///x\u{0}y"), "file:///xy");
}

#[test]
fn source_lines_are_found_by_number() {
    assert_eq!(source_line("a\nb\r\nc", 1), Some("b"));
    assert_eq!(source_line("a\nb", 2), None);
    assert_eq!(source_line("", 0), Some(""));
    assert_eq!(source_line("a\n", 1), Some(""));
    assert_eq!(source_line("a\n", 2), None);
}

#[test]
fn diagnostics_escape_controls_in_hex_and_keep_plain_text() {
    assert_eq!(safe_diagnostic("plain text"), "plain text");
    assert_eq!(safe_diagnostic("\u{1b}[2J"), "\\u{1b}[2J");
    assert_eq!(safe_diagnostic("a\tb\n"), "a    b\n");
    assert_eq!(safe_diagnostic("\u{9b}"), "\\u{9b}");
}

#[test]
fn server_commands_are_validated_word_by_word() {
    let words = |w: &[&str]| w.iter().map(|s| s.to_string()).collect::<Vec<_>>();
    assert_eq!(
        validate_command(&[]),
        Err("command must contain 1 to 64 arguments".to_string())
    );
    assert_eq!(validate_command(&words(&["rust-analyzer"])), Ok(()));
    assert_eq!(validate_command(&words(&["/usr/bin/jdtls", "-data", "{workspace_data}"])), Ok(()));
    assert_eq!(
        validate_command(&words(&[".."])),
        Err("executable must name a program".to_string())
    );
    assert_eq!(
        validate_command(&words(&["bin/server"])),
        Err("executable must be a bare PATH name or an absolute path".to_string())
    );
    assert_eq!(
        validate_command(&words(&["srv", "{workspace}"])),
        Err("unsupported or partial placeholder in \"{workspace}\"".to_string())
    );
}

#[test]
fn positions_convert_back_to_the_same_byte_column() {
    let line = "aé界😀z";
    for (byte, utf16) in [(0, 0), (1, 1), (3, 2), (6, 3), (10, 5)] {
        let character = to_lsp_character(line, byte, PositionEncoding::Utf16)
            .unwrap_or_else(|e| panic!("{e:?}"));
        assert_eq!(character, utf16);
        assert_eq!(
            from_lsp_character(line, character, PositionEncoding::Utf16)
                .unwrap_or_else(|e| panic!("{e:?}")),
            byte
        );
    }
    assert_eq!(display_column(line, 6), 4);
}

#[test]
fn joined_repository_paths_stay_valid() {
    let parent = RepoPath::from_bytes(b"src".to_vec()).unwrap_or_else(|e| panic!("{e}"));
    let child = RepoPath::from_bytes(b"a b.rs".to_vec()).unwrap_or_else(|e| panic!("{e}"));
    let joined = parent.join(&child);
    assert_eq!(joined.as_bytes(), b"src/a b.rs");
    assert!(RepoPath::from_bytes(joined.as_bytes().to_vec()).is_ok());
    assert!(RepoPath::from_bytes(b"src/../x".to_vec()).is_err());
}
