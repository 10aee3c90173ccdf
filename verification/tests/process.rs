//! The argument lists and environment of Git invocations.

use chronogit::domain::commit::{CommitBaseline, ObjectId};
use chronogit::domain::path::{RepoPath, RepositoryRoot};
use chronogit::git::command::GitCommand;
use chronogit::git::process::{git_arguments, git_environment};

fn text(args: Vec<Vec<u8>>) -> Vec<String> {
    args.into_iter()
        .map(|a| String::from_utf8(a).unwrap_or_else(|_| panic!("argument is not UTF-8")))
        .collect()
}

fn path(value: &str) -> RepoPath {
    RepoPath::from_bytes(value.as_bytes().to_vec()).unwrap_or_else(|e| panic!("{e}"))
}

fn id(c: char) -> ObjectId {
    ObjectId::parse(std::iter::repeat(c).take(40).collect()).unwrap_or_else(|e| panic!("{e}"))
}

const BASE: [&str; 8] = [
    "--no-pager",
    "--literal-pathspecs",
    "-c",
    "color.ui=false",
    "-c",
    "core.quotePath=false",
    "-c",
    "core.fsmonitor=false",
];

#[test]
fn discovery_runs_rev_parse_in_the_start_directory() {
    let args = text(git_arguments(None, &GitCommand::Discover { start: b"/tmp/work".to_vec() }));
    let mut expected: Vec<&str> = BASE.to_vec();
    expected.extend(["-C", "/tmp/work", "rev-parse", "--show-toplevel"]);
    assert_eq!(args, expected);
}

#[test]
fn repository_reads_run_inside_the_root_and_name_paths_after_the_separator() {
    let root = RepositoryRoot::new(b"/srv/repo".to_vec()).unwrap_or_else(|e| panic!("{e}"));
    let args = text(git_arguments(
        Some(&root),
        &GitCommand::WorktreeDiff { path: path("-n odd name") },
    ));
    let mut expected: Vec<&str> = BASE.to_vec();
    expected.extend([
        "-C",
        "/srv/repo",
        "diff",
        "--no-ext-diff",
        "--no-textconv",
        "--find-renames",
        "--find-copies",
        "--",
        "-n odd name",
    ]);
    assert_eq!(args, expected);
}

#[test]
fn commit_pages_carry_their_decimal_offsets() {
    let root = RepositoryRoot::new(b"/r".to_vec()).unwrap_or_else(|e| panic!("{e}"));
    let args = text(git_arguments(Some(&root), &GitCommand::Commits { skip: 200, limit: 10 }));
    assert_eq!(&args[..10], &[BASE.to_vec(), vec!["-C", "/r"]].concat()[..]);
    assert_eq!(
        &args[10..],
        &[
            "log",
            "-z",
            "--date=iso-strict",
            "--topo-order",
            "--format=%H%x00%P%x00%an%x00%aI%x00%s",
            "--skip=200",
            "--max-count=10",
        ]
    );
    let zero = text(git_arguments(None, &GitCommand::Commits { skip: 0, limit: 7 }));
    assert_eq!(zero[zero.len() - 2], "--skip=0");
    assert_eq!(zero[zero.len() - 1], "--max-count=7");
}

#[test]
fn comparisons_name_the_parent_before_the_commit() {
    let args = text(git_arguments(
        None,
        &GitCommand::ChangedFiles { commit: id('b'), baseline: CommitBaseline::FirstParent(id('a')) },
    ));
    let a: String = std::iter::repeat('a').take(40).collect();
    let b: String = std::iter::repeat('b').take(40).collect();
    assert_eq!(
        &args[8..],
        &["diff", "--name-status", "-z", "--find-renames", "--find-copies", &a, &b, "--"]
    );
    let root_commit = text(git_arguments(
        None,
        &GitCommand::CommitDiff { commit: id('b'), baseline: CommitBaseline::EmptyTree, path: path("src/lib.rs") },
    ));
    assert_eq!(root_commit[8], "show");
    assert_eq!(root_commit[root_commit.len() - 2], "--");
    assert_eq!(root_commit[root_commit.len() - 1], "src/lib.rs");
}

#[test]
fn grep_passes_the_query_as_one_fixed_string_argument() {
    let args = text(git_arguments(None, &GitCommand::Grep { query: "a b; rm -rf".to_string() }));
    assert_eq!(
        &args[8..],
        &["grep", "--untracked", "--exclude-standard", "-z", "-n", "-I", "-F", "-e", "a b; rm -rf", "--"]
    );
}

#[test]
fn untracked_files_are_compared_with_dev_null() {
    let args = text(git_arguments(None, &GitCommand::UntrackedDiff { path: path("new.txt") }));
    assert_eq!(&args[args.len() - 3..], &["--", "/dev/null", "new.txt"]);
}

#[test]
fn every_invocation_disables_prompts_and_pagers() {
    assert_eq!(
        git_environment(),
        vec![("GIT_OPTIONAL_LOCKS", "0"), ("GIT_TERMINAL_PROMPT", "0"), ("GIT_PAGER", "cat"), ("PAGER", "cat")]
    );
    for command in [GitCommand::Status, GitCommand::IsBare, GitCommand::HasHead, GitCommand::RepositoryFiles] {
        let args = text(git_arguments(None, &command));
        assert_eq!(&args[..8], &BASE);
    }
}
