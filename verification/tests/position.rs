//! Conversions between byte columns, display cells, and wire positions.

use chronogit::lsp::{
    display_column, from_lsp_character, next_byte_column, previous_byte_column, to_lsp_character,
    PositionEncoding,
};

#[test]
fn converts_multibyte_positions_for_all_encodings() {
    let line = "a😀界e\u{301}";
    let byte = "a😀界".len();
    assert_eq!(to_lsp_character(line, byte, PositionEncoding::Utf8), Ok(8));
    assert_eq!(to_lsp_character(line, byte, PositionEncoding::Utf16), Ok(4));
    assert_eq!(to_lsp_character(line, byte, PositionEncoding::Utf32), Ok(3));
    assert_eq!(
        from_lsp_character(line, 4, PositionEncoding::Utf16),
        Ok(byte)
    );
    assert!(from_lsp_character(line, 2, PositionEncoding::Utf16).is_err());
}

#[test]
fn cursor_steps_only_between_code_points() {
    let line = "a界😀";
    assert_eq!(next_byte_column(line, 1), 4);
    assert_eq!(next_byte_column(line, 4), 8);
    assert_eq!(previous_byte_column(line, 8), 4);
    assert_eq!(previous_byte_column(line, 3), 0);
}

#[test]
fn display_width_accounts_for_tabs_wide_and_combining_characters() {
    let line = "\t界e\u{301}";
    assert_eq!(display_column(line, 1), 4);
    assert_eq!(display_column(line, "\t界".len()), 6);
    assert_eq!(display_column(line, line.len()), 7);
    assert_eq!(display_column("a\tb", 2), 5);
}
