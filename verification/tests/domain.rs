//! Domain values: object ids, commit messages, repository paths.

use chronogit::domain::commit::{CommitMessage, ObjectId};
use chronogit::domain::path::RepoPath;
use chronogit::domain::source::SourcePosition;

#[test]
fn object_id_requires_a_full_sha1_or_sha256_value() {
    assert!(ObjectId::parse("a".repeat(40)).is_ok());
    assert!(ObjectId::parse("b".repeat(64)).is_ok());
    assert!(ObjectId::parse("abcd".to_owned()).is_err());
    assert!(ObjectId::parse("z".repeat(40)).is_err());
}

#[test]
fn commit_body_excludes_the_subject_and_separator() {
    let message = CommitMessage::new("Subject\n\nBody line\nTrailer: value\n".to_owned());
    assert_eq!(message.body(), "Body line\nTrailer: value\n");
    assert_eq!(CommitMessage::new("Subject only\n".to_owned()).body(), "");
}

#[test]
fn path_rejects_absolute_and_nul() {
    assert!(RepoPath::from_bytes(b"/tmp/file".to_vec()).is_err());
    assert!(RepoPath::from_bytes(b"bad\0path".to_vec()).is_err());
    assert!(RepoPath::from_bytes(b"../outside".to_vec()).is_err());
    assert!(RepoPath::from_bytes(b"src/../outside".to_vec()).is_err());
}

#[test]
fn path_join_preserves_raw_bytes() {
    let parent = RepoPath::from_bytes(b"src".to_vec()).unwrap_or_else(|error| panic!("{error}"));
    let child = RepoPath::from_bytes(vec![b'f', 0xff]).unwrap_or_else(|error| panic!("{error}"));
    assert_eq!(
        parent.join(&child).as_bytes(),
        &[b's', b'r', b'c', b'/', b'f', 0xff]
    );
}

#[test]
fn the_default_source_position_is_the_document_start() {
    assert_eq!(SourcePosition::default(), SourcePosition::new(0, 0));
}
