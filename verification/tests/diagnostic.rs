//! Terminal-safe error text.

use chronogit::diagnostic::safe_diagnostic;

#[test]
fn diagnostic_escapes_terminal_controls() {
    assert_eq!(safe_diagnostic("bad\u{1b}[2J"), "bad\\u{1b}[2J");
}
