//! The repository reader over a scripted process boundary.

use chronogit::git::service::{bare_answer, discovered_root, message_result};
use std::cell::RefCell;

use chronogit::app::action::Event;
use chronogit::app::effect::{effect_event, GitEffect};
use chronogit::app::model::RequestId;
use chronogit::domain::path::{RepoPath, RepositoryRoot};
use chronogit::git::command::GitCommand;
use chronogit::git::runner::{CommandOutput, GitError, GitRunner};
use chronogit::git::service::GitService;

struct Script {
    replies: RefCell<Vec<CommandOutput>>,
    seen: RefCell<Vec<&'static str>>,
}

impl Script {
    fn new(replies: Vec<CommandOutput>) -> Self {
        Self { replies: RefCell::new(replies), seen: RefCell::new(Vec::new()) }
    }
}

impl GitRunner for Script {
    fn run(
        &self,
        _root: Option<&RepositoryRoot>,
        command: &GitCommand,
    ) -> Result<CommandOutput, GitError> {
        self.seen.borrow_mut().push(command.kind());
        let mut replies = self.replies.borrow_mut();
        if replies.is_empty() {
            panic!("unexpected command {}", command.kind());
        }
        Ok(replies.remove(0))
    }
}

fn ok(stdout: &[u8]) -> CommandOutput {
    CommandOutput::for_test(true, Some(0), stdout.to_vec(), Vec::new())
}

#[test]
fn discovery_trims_the_root_and_refuses_bare_repositories() {
    let runner = Script::new(vec![ok(b"/srv/repo\n"), ok(b"false\n")]);
    let service = GitService::discover(runner, b"/srv/repo/src".to_vec())
        .unwrap_or_else(|e| panic!("{e:?}"));
    assert_eq!(service.root().as_path(), b"/srv/repo");

    let bare = Script::new(vec![ok(b"/srv/bare.git\n"), ok(b"true\n")]);
    assert!(matches!(
        GitService::discover(bare, b"/srv/bare.git".to_vec()),
        Err(GitError::Unsupported(_))
    ));

    let empty = Script::new(vec![ok(b"\n")]);
    assert!(matches!(
        GitService::discover(empty, b"/x".to_vec()),
        Err(GitError::Parse { context: "repository root", .. })
    ));
}

#[test]
fn an_unborn_branch_has_no_history() {
    let root = RepositoryRoot::new(b"/r".to_vec()).unwrap_or_else(|e| panic!("{e}"));
    let runner = Script::new(vec![CommandOutput::for_test(false, Some(1), Vec::new(), Vec::new())]);
    let service = GitService::with_root(runner, root);
    let commits = service.commits(0, 50).unwrap_or_else(|e| panic!("{e:?}"));
    assert!(commits.is_empty());
}

#[test]
fn failed_status_reports_the_operation_and_stderr() {
    let root = RepositoryRoot::new(b"/r".to_vec()).unwrap_or_else(|e| panic!("{e}"));
    let runner = Script::new(vec![CommandOutput::for_test(
        false,
        Some(128),
        Vec::new(),
        b"fatal: not a git repository".to_vec(),
    )]);
    let service = GitService::with_root(runner, root);
    match service.changes() {
        Err(GitError::CommandFailed { operation, code, stderr }) => {
            assert_eq!(operation, "read worktree status");
            assert_eq!(code, Some(128));
            assert_eq!(stderr, "fatal: not a git repository");
        }
        other => panic!("unexpected {other:?}"),
    }
}

#[test]
fn truncated_output_is_an_output_limit_error() {
    let root = RepositoryRoot::new(b"/r".to_vec()).unwrap_or_else(|e| panic!("{e}"));
    let runner = Script::new(vec![CommandOutput::new(true, Some(0), b"1 .M".to_vec(), Vec::new(), true, false)]);
    let service = GitService::with_root(runner, root);
    assert!(matches!(service.changes(), Err(GitError::OutputLimit { operation: "read worktree status" })));
}

#[test]
fn file_search_keeps_matching_paths_in_order_with_smart_case() {
    let root = RepositoryRoot::new(b"/r".to_vec()).unwrap_or_else(|e| panic!("{e}"));
    let runner = Script::new(vec![ok(b"src/Main.rs\0README.md\0src/main_test.rs\0")]);
    let service = GitService::with_root(runner, root);
    let hits = service.search_files("main").unwrap_or_else(|e| panic!("{e:?}"));
    let paths: Vec<&[u8]> = hits.iter().map(|h| h.path().as_bytes()).collect();
    assert_eq!(paths, vec![&b"src/Main.rs"[..], &b"src/main_test.rs"[..]]);

    let runner = Script::new(vec![ok(b"src/Main.rs\0src/main_test.rs\0")]);
    let service = GitService::with_root(runner, RepositoryRoot::new(b"/r".to_vec()).unwrap_or_else(|e| panic!("{e}")));
    let hits = service.search_files("Main").unwrap_or_else(|e| panic!("{e:?}"));
    assert_eq!(hits.len(), 1);
}

#[test]
fn an_empty_content_query_runs_nothing() {
    let root = RepositoryRoot::new(b"/r".to_vec()).unwrap_or_else(|e| panic!("{e}"));
    let runner = Script::new(Vec::new());
    let service = GitService::with_root(runner, root);
    assert!(service.search_content("").unwrap_or_else(|e| panic!("{e:?}")).is_empty());
}

#[test]
fn root_output_is_trimmed_and_must_be_absolute() {
    let root = discovered_root(&ok(b"/srv/repo\r\n")).unwrap_or_else(|e| panic!("{e:?}"));
    assert_eq!(root.as_path(), b"/srv/repo");
    assert!(matches!(
        discovered_root(&ok(b"relative\n")),
        Err(GitError::Parse { context: "repository root", .. })
    ));
    assert!(matches!(discovered_root(&ok(b"\n")), Err(GitError::Parse { .. })));
    let failed = CommandOutput::for_test(false, Some(128), Vec::new(), b"fatal".to_vec());
    assert!(matches!(discovered_root(&failed), Err(GitError::CommandFailed { .. })));
}

#[test]
fn bare_answer_reads_true_only() {
    assert!(matches!(bare_answer(&ok(b"true\n")), Ok(true)));
    assert!(matches!(bare_answer(&ok(b"false\n")), Ok(false)));
    assert!(matches!(bare_answer(&ok(b"truest\n")), Ok(false)));
}

#[test]
fn message_output_becomes_the_message_text() {
    let m = message_result(&ok(b"subject\n\nbody\n")).unwrap_or_else(|e| panic!("{e:?}"));
    assert_eq!(m.as_str(), "subject\n\nbody\n");
}

#[test]
fn effects_become_their_completions_and_file_reads_are_handed_back() {
    let root = RepositoryRoot::new(b"/r".to_vec()).unwrap_or_else(|e| panic!("{e}"));
    let runner = Script::new(vec![ok(b"")]);
    let service = GitService::with_root(runner, root);
    match effect_event(&service, GitEffect::LoadChanges { request_id: RequestId(7) }) {
        Ok(Event::ChangesLoaded { request_id, result }) => {
            assert_eq!(request_id, RequestId(7));
            assert!(result.unwrap_or_else(|e| panic!("{e:?}")).is_empty());
        }
        other => panic!("unexpected completion: {other:?}"),
    }
    let path = RepoPath::from_bytes(b"src/lib.rs".to_vec()).unwrap_or_else(|e| panic!("{e}"));
    match effect_event(&service, GitEffect::LoadCodeFile { request_id: RequestId(8), path }) {
        Err(GitEffect::LoadCodeFile { request_id, path }) => {
            assert_eq!(request_id, RequestId(8));
            assert_eq!(path.as_bytes(), b"src/lib.rs");
        }
        other => panic!("unexpected answer: {other:?}"),
    }
}
