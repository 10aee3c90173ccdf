//! Output limits, the bounded wait, and failure messages.

use std::path::PathBuf;

use chronogit::app::model::VisibleTreeEntry;
use chronogit::domain::commit::ObjectId;
use chronogit::domain::path::RepoPath;
use chronogit::domain::tree::{TreeEntry, TreeKind};
use chronogit::error::AppError;
use chronogit::git::runner::{keep_chunk, wait_step, GitError, WaitStep, MAX_STDERR_BYTES, MAX_STDOUT_BYTES};
use chronogit::lsp::config::config_error;

#[test]
fn streams_keep_at_most_their_limit() {
    let mut stored = Vec::new();
    assert!(!keep_chunk(&mut stored, b"abc", 5));
    assert_eq!(stored, b"abc");
    assert!(keep_chunk(&mut stored, b"defg", 5));
    assert_eq!(stored, b"abcde");
    assert!(keep_chunk(&mut stored, b"h", 5));
    assert_eq!(stored, b"abcde");
    assert!(!keep_chunk(&mut stored, b"", 5));
    let mut over = b"toolong".to_vec();
    assert!(keep_chunk(&mut over, b"x", 3));
    assert_eq!(over, b"toolong");
    assert_eq!(MAX_STDOUT_BYTES, 8 * 1024 * 1024);
    assert_eq!(MAX_STDERR_BYTES, 64 * 1024);
}

#[test]
fn an_exceeded_limit_stops_before_the_timeout() {
    assert_eq!(wait_step(true, true), WaitStep::StopOverLimit);
    assert_eq!(wait_step(true, false), WaitStep::StopOverLimit);
    assert_eq!(wait_step(false, true), WaitStep::StopTimedOut);
    assert_eq!(wait_step(false, false), WaitStep::Poll);
}

#[test]
fn git_failures_describe_the_operation_and_trimmed_stderr() {
    let failed = GitError::CommandFailed {
        operation: "read worktree status",
        code: Some(128),
        stderr: "  fatal: not a git repository\n".to_string(),
    };
    assert_eq!(
        failed.describe(),
        "could not read worktree status (exit Some(128)): fatal: not a git repository"
    );
    let quiet = GitError::CommandFailed { operation: "check HEAD", code: None, stderr: " \n".to_string() };
    assert_eq!(quiet.describe(), "could not check HEAD (exit None)");
    let negative = GitError::CommandFailed { operation: "x", code: Some(-2147483648), stderr: String::new() };
    assert_eq!(negative.describe(), "could not x (exit Some(-2147483648))");
    assert_eq!(
        GitError::OutputLimit { operation: "read diff" }.describe(),
        "read diff exceeded the output limit"
    );
    assert_eq!(
        GitError::TimedOut { operation: "read diff" }.describe(),
        "read diff exceeded the 30 second time limit"
    );
    assert_eq!(
        GitError::parse("tree", "bad mode".to_string()).describe(),
        "could not parse tree: bad mode"
    );
    assert_eq!(
        GitError::Io { operation: "open file", source: "denied".to_string() }.describe(),
        "could not open file"
    );
    assert_eq!(GitError::Unsupported("nope".to_string()).describe(), "nope");
}

#[test]
fn startup_failures_have_fixed_summaries() {
    assert_eq!(AppError::NonInteractiveTerminal.message(), "an interactive TTY is required; run chronogit in a terminal");
    assert_eq!(AppError::from(GitError::Unsupported("x".to_string())).message(), "Git operation failed");
    assert_eq!(AppError::KeyMap("bad key".to_string()).message(), "keymap configuration failed");
    let config = config_error(Some(PathBuf::from("/etc/lsp.toml")), "unknown field".to_string());
    assert_eq!(config.describe(), "could not load LSP config /etc/lsp.toml: unknown field");
    assert_eq!(config_error(None, "empty".to_string()).describe(), "empty");
    assert_eq!(AppError::from(config).message(), "LSP configuration failed");
    assert_eq!(AppError::from(std::io::Error::other("tty")).message(), "terminal I/O failed");
}

#[test]
fn tree_rows_start_collapsed() {
    let id = ObjectId::parse("a".repeat(40)).unwrap_or_else(|e| panic!("{e}"));
    let name = RepoPath::from_bytes(b"src".to_vec()).unwrap_or_else(|e| panic!("{e}"));
    let entry = TreeEntry::new(id, "040000".to_string(), TreeKind::Directory, name);
    let path = RepoPath::from_bytes(b"src".to_vec()).unwrap_or_else(|e| panic!("{e}"));
    let mut row = VisibleTreeEntry::new(entry, path, 2);
    assert!(!row.expanded());
    assert_eq!(row.depth(), 2);
    assert_eq!(row.path().as_bytes(), b"src");
    assert_eq!(row.entry().mode(), "040000");
    row.set_expanded(true);
    assert!(row.expanded());
}

#[test]
fn a_stream_read_in_chunks_keeps_its_first_bytes_up_to_the_limit() {
    let chunks: [&[u8]; 3] = [b"abc", b"def", b"g"];
    let mut stored = Vec::new();
    let mut cut = false;
    for chunk in chunks {
        cut |= keep_chunk(&mut stored, chunk, 5);
    }
    assert_eq!(stored, b"abcde".to_vec());
    assert!(cut);

    let mut whole = Vec::new();
    let mut cut = false;
    for chunk in chunks {
        cut |= keep_chunk(&mut whole, chunk, 7);
    }
    assert_eq!(whole, b"abcdefg".to_vec());
    assert!(!cut);
}
