//! Content-Length framing of language-server messages.

use chronogit::lsp::protocol::{frame_header, FrameHeaders, HeaderLine, MAX_MESSAGE_BYTES};
use chronogit::lsp::LspError;

fn protocol(line: &HeaderLine) -> Option<String> {
    match line {
        HeaderLine::Failed(LspError::Protocol(message)) => Some(message.clone()),
        _ => None,
    }
}

fn length_of(lines: &[&str]) -> Result<usize, LspError> {
    let mut headers = FrameHeaders::new();
    for line in lines {
        match headers.read_line(line) {
            HeaderLine::More => {}
            HeaderLine::End => break,
            HeaderLine::Failed(error) => return Err(error),
        }
    }
    headers.content_length()
}

#[test]
fn headers_end_at_a_blank_line_and_announce_the_body_length() {
    let mut headers = FrameHeaders::new();
    assert!(matches!(headers.read_line("Content-Length: 7\r\n"), HeaderLine::More));
    assert!(matches!(headers.read_line("Content-Type: application/json\r\n"), HeaderLine::More));
    assert!(matches!(headers.read_line("\r\n"), HeaderLine::End));
    assert_eq!(headers.content_length(), Ok(7));
    assert_eq!(length_of(&["  CONTENT-length :  +12 \n", "\n"]), Ok(12));
}

#[test]
fn malformed_repeated_missing_and_oversized_headers_are_refused() {
    let mut headers = FrameHeaders::new();
    assert_eq!(
        protocol(&headers.read_line("Broken\r\n")).as_deref(),
        Some("language server sent a malformed response header")
    );
    let mut headers = FrameHeaders::new();
    assert!(matches!(headers.read_line("content-length: 1\r\n"), HeaderLine::More));
    assert_eq!(
        protocol(&headers.read_line("Content-Length: 2\r\n")).as_deref(),
        Some("language server repeated a response header")
    );
    assert_eq!(
        length_of(&["X: y\r\n", "\r\n"]),
        Err(LspError::Protocol("language server omitted Content-Length".to_owned()))
    );
    assert_eq!(
        length_of(&["Content-Length: abc\r\n", "\r\n"]),
        Err(LspError::Protocol("language server sent an invalid Content-Length".to_owned()))
    );
    let oversized = format!("Content-Length: {}\r\n", MAX_MESSAGE_BYTES + 1);
    assert_eq!(
        length_of(&[oversized.as_str(), "\r\n"]),
        Err(LspError::Protocol("language server message exceeded the 8 MiB safety limit".to_owned()))
    );
    let mut headers = FrameHeaders::new();
    assert_eq!(
        protocol(&headers.read_line("")).as_deref(),
        Some("language server closed its output unexpectedly")
    );
    let long = format!("X-Padding: {}\r\n", "a".repeat(16 * 1024));
    let mut headers = FrameHeaders::new();
    assert_eq!(
        protocol(&headers.read_line(&long)).as_deref(),
        Some("language server response headers exceeded the safety limit")
    );
}

#[test]
fn outbound_frames_carry_the_body_length() {
    assert_eq!(frame_header(17), Ok("Content-Length: 17\r\n\r\n".to_owned()));
    assert_eq!(
        frame_header(MAX_MESSAGE_BYTES + 1),
        Err(LspError::Protocol("outbound language server message exceeded the safety limit".to_owned()))
    );
}

#[test]
fn a_written_frame_header_reads_back_its_length() {
    for n in [0usize, 7, 1234, MAX_MESSAGE_BYTES] {
        let header = frame_header(n).unwrap_or_else(|error| panic!("{error:?}"));
        let (line, blank) = header.split_at(header.len() - 2);
        let mut headers = FrameHeaders::new();
        assert!(matches!(headers.read_line(line), HeaderLine::More));
        assert!(matches!(headers.read_line(blank), HeaderLine::End));
        assert_eq!(headers.content_length(), Ok(n));
    }
}
