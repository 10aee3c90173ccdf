//! Domain-level repository operations built from typed Git commands.
//!
//! Each operation runs one command through the [`GitRunner`] boundary and
//! hands the captured output to a verified interpreter that decides which
//! outputs are complete, which exit statuses carry domain meaning, and how
//! the bytes parse.

use crate::bytes::{lossy_string, lossy_text};
use crate::domain::change::{ChangedFile, WorktreeChange};
use crate::domain::commit::{baseline_key, CommitBaseline, CommitMessage, CommitSummary, ObjectId};
use crate::domain::diff::{DiffDocument, DiffTarget};
use crate::domain::path::{valid_repo_path, RepoPath, RepositoryRoot};
use crate::domain::search::{FileDocument, SearchHit};
use crate::domain::tree::TreeEntry;
use crate::git::command::{command_kind, GitCommand};
use crate::git::parse::{
    changed_file_view, changed_from, content_hit_view, grep_records, log_fields, log_ok,
    parse_changed_files, parse_commits, parse_file_paths, parse_grep_matches, parse_patch,
    parse_status, parse_tree_entries, patch_document, status_from, summary_matches, tokens,
    tree_entry_view, tree_record, worktree_change_view,
};
use crate::git::runner::{CommandOutput, GitError, GitRunner};
use crate::text::{case_sensitive, has_uppercase};
use crate::unicode::{lowercase_text, to_lowercase_text};
use vstd::prelude::*;

verus! {

/// The failure recorded for an unsuccessful exit status.
pub open spec fn failed_error(output: CommandOutput, operation: &'static str, e: GitError) -> bool {
    e matches GitError::CommandFailed { operation: op, code, stderr } && op == operation && code
        == output.code && stderr@ == lossy_text(output.stderr@)
}

/// Describes an unsuccessful exit status.
pub fn command_failed(output: &CommandOutput, operation: &'static str) -> (e: GitError)
    ensures
        failed_error(*output, operation, e),
{
    GitError::CommandFailed {
        operation,
        code: output.code,
        stderr: lossy_string(output.stderr.as_slice()),
    }
}

/// Accepts only a successful exit status.
pub fn ensure_success(output: &CommandOutput, operation: &'static str) -> (r: Result<(), GitError>)
    ensures
        r is Ok <==> output.success,
        r matches Err(e) ==> failed_error(*output, operation, e),
{
    if output.success {
        Ok(())
    } else {
        Err(command_failed(output, operation))
    }
}

/// Accepts only output that neither stream truncated.
pub fn ensure_complete(output: &CommandOutput, operation: &'static str) -> (r: Result<
    (),
    GitError,
>)
    ensures
        r is Ok <==> !output.stdout_truncated && !output.stderr_truncated,
        r matches Err(e) ==> (e matches GitError::OutputLimit { operation: op } && op == operation),
{
    if output.stdout_truncated || output.stderr_truncated {
        Err(GitError::OutputLimit { operation })
    } else {
        Ok(())
    }
}

/// The bytes without any trailing line feeds or carriage returns.
pub open spec fn trimmed(value: Seq<u8>) -> Seq<u8>
    decreases value.len(),
{
    if value.len() > 0 && (value.last() == 0x0au8 || value.last() == 0x0du8) {
        trimmed(value.drop_last())
    } else {
        value
    }
}

/// Removes trailing line feeds and carriage returns.
pub fn trim_newline(value: &[u8]) -> (t: Vec<u8>)
    ensures
        t@ == trimmed(value@),
{
    let mut end = value.len();
    assert(value@.subrange(0, end as int) =~= value@);
    while end > 0 && (value[end - 1] == 0x0a || value[end - 1] == 0x0d)
        invariant
            end <= value@.len(),
            trimmed(value@) == trimmed(value@.subrange(0, end as int)),
        decreases end,
    {
        assert(value@.subrange(0, end as int).drop_last() =~= value@.subrange(0, end - 1));
        end = end - 1;
    }
    assert(value@.subrange(0, end as int) =~= value@.subrange(0, end as int));
    crate::bytes::copy_range(value, 0, end)
}

/// A complete, successful output; anything else is the boundary error.
pub open spec fn usable(output: CommandOutput) -> bool {
    !output.stdout_truncated && !output.stderr_truncated && output.success
}

/// The boundary error of an output that is not usable: the output limit for
/// a truncated stream, otherwise the failed exit status.
pub open spec fn boundary_error(output: CommandOutput, operation: &'static str, e: GitError) -> bool {
    if output.stdout_truncated || output.stderr_truncated {
        e matches GitError::OutputLimit { operation: op } && op == operation
    } else {
        failed_error(output, operation, e)
    }
}

/// Checks that an output is complete and successful.
pub fn ensure_usable(output: &CommandOutput, operation: &'static str) -> (r: Result<(), GitError>)
    ensures
        r is Ok <==> usable(*output),
        r matches Err(e) ==> boundary_error(*output, operation, e),
{
    match ensure_complete(output, operation) {
        Err(e) => Err(e),
        Ok(()) => ensure_success(output, operation),
    }
}

/// The bytes Git prints for a yes answer.
pub open spec fn yes_answer() -> Seq<u8> {
    seq![0x74u8, 0x72u8, 0x75u8, 0x65u8]
}

/// What `discovered_root` answers for the output `o`.
pub open spec fn root_answer(o: CommandOutput, r: Result<RepositoryRoot, GitError>) -> bool {
    let t = trimmed(o.stdout@);
    &&& r is Ok <==> usable(o) && t.len() > 0 && t[0] == 0x2fu8
    &&& r matches Ok(root) ==> root@ == t
    &&& !usable(o) ==> (r matches Err(e) && boundary_error(o, "discover repository", e))
    &&& usable(o) && t.len() == 0 ==> (r matches Err(e) && e matches GitError::Parse {
        context,
        detail,
    } && context == "repository root" && detail@ == "Git returned an empty path"@)
    &&& usable(o) && t.len() > 0 && t[0] != 0x2fu8 ==> (r matches Err(e) && e matches GitError::Parse {
        context,
        detail,
    } && context == "repository root" && detail@ == "repository root must be absolute"@)
}

/// Interprets the output of the working-tree root query: the printed path
/// without its line ending, which must be absolute.
pub fn discovered_root(output: &CommandOutput) -> (r: Result<RepositoryRoot, GitError>)
    ensures
        root_answer(*output, r),
{
    ensure_usable(output, "discover repository")?;
    let raw = trim_newline(output.stdout.as_slice());
    if raw.len() == 0 {
        return Err(GitError::parse("repository root", String::from_str("Git returned an empty path")));
    }
    match RepositoryRoot::new(raw) {
        Ok(root) => Ok(root),
        Err(detail) => Err(GitError::parse("repository root", String::from_str(detail))),
    }
}

/// What `bare_answer` answers for the output `o`.
pub open spec fn bare_answer_of(o: CommandOutput, r: Result<bool, GitError>) -> bool {
    &&& r is Ok <==> usable(o)
    &&& r matches Ok(b) ==> b == (trimmed(o.stdout@) == yes_answer())
    &&& !usable(o) ==> (r matches Err(e) && boundary_error(o, "check bare repository", e))
}

/// Interprets the output of the bare-repository query: whether Git answered
/// `true`.
pub fn bare_answer(output: &CommandOutput) -> (r: Result<bool, GitError>)
    ensures
        bare_answer_of(*output, r),
{
    ensure_usable(output, "check bare repository")?;
    let answer = trim_newline(output.stdout.as_slice());
    let yes: Vec<u8> = vec![0x74u8, 0x72u8, 0x75u8, 0x65u8];
    proof {
        assert(yes@ =~= yes_answer());
    }
    Ok(crate::bytes::bytes_equal(answer.as_slice(), yes.as_slice()))
}

/// What `message_result` answers for the output `o`.
pub open spec fn message_answer(o: CommandOutput, r: Result<CommitMessage, GitError>) -> bool {
    &&& r is Ok <==> usable(o)
    &&& r matches Ok(m) ==> m.0@ == lossy_text(o.stdout@)
    &&& !usable(o) ==> (r matches Err(e) && boundary_error(o, "read commit message", e))
}

/// Interprets the output of a commit-message read: the message as text.
pub fn message_result(output: &CommandOutput) -> (r: Result<CommitMessage, GitError>)
    ensures
        message_answer(*output, r),
{
    ensure_usable(output, "read commit message")?;
    Ok(CommitMessage::new(lossy_string(output.stdout.as_slice())))
}

/// What `status_result` answers for the output `o`.
pub open spec fn status_answer(o: CommandOutput, r: Result<Vec<WorktreeChange>, GitError>) -> bool {
    let parsed = status_from(crate::bytes::split(o.stdout@, 0u8), 0);
    &&& r is Ok <==> usable(o) && parsed is Some
    &&& r matches Ok(v) ==> v@.map_values(|c: WorktreeChange| worktree_change_view(c)) == parsed->0
    &&& !usable(o) ==> (r matches Err(e) && boundary_error(o, "read worktree status", e))
}

/// Interprets the output of a porcelain status read.
pub fn status_result(output: &CommandOutput) -> (r: Result<Vec<WorktreeChange>, GitError>)
    ensures
        status_answer(*output, r),
{
    match ensure_usable(output, "read worktree status") {
        Err(e) => Err(e),
        Ok(()) => parse_status(output.stdout.as_slice()),
    }
}

/// What `log_result` answers for the output `o`.
pub open spec fn log_answer(o: CommandOutput, operation: &'static str, r: Result<Vec<CommitSummary>, GitError>) -> bool {
    &&& r is Ok <==> usable(o) && log_ok(o.stdout@)
    &&& r matches Ok(v) ==> log_reads(o.stdout@, v@)
    &&& !usable(o) ==> (r matches Err(e) && boundary_error(o, operation, e))
}

/// Interprets the output of a commit-log read.
pub fn log_result(output: &CommandOutput, operation: &'static str) -> (r: Result<
    Vec<CommitSummary>,
    GitError,
>)
    ensures
        log_answer(*output, operation, r),
{
    match ensure_usable(output, operation) {
        Err(e) => Err(e),
        Ok(()) => parse_commits(output.stdout.as_slice()),
    }
}

/// What `head_exists` answers for the output `o`.
pub open spec fn head_answer(o: CommandOutput, r: Result<bool, GitError>) -> bool {
    let complete = !o.stdout_truncated && !o.stderr_truncated;
    &&& !complete ==> (r matches Err(e) && boundary_error(o, "check HEAD", e))
    &&& complete && !o.success && o.code == Some(1i32) ==> r == Ok::<bool, GitError>(false)
    &&& complete && o.success ==> r == Ok::<bool, GitError>(true)
    &&& complete && !o.success && o.code != Some(1i32) ==> (r matches Err(e) && failed_error(
        o,
        "check HEAD",
        e,
    ))
}

/// Decides from the `HEAD` check whether history exists: `Ok(false)` for an
/// unborn branch (exit code 1), `Ok(true)` when `HEAD` resolves.
pub fn head_exists(output: &CommandOutput) -> (r: Result<bool, GitError>)
    ensures
        head_answer(*output, r),
{
    ensure_complete(output, "check HEAD")?;
    if !output.success && output.code == Some(1) {
        return Ok(false);
    }
    ensure_success(output, "check HEAD")?;
    Ok(true)
}

/// Whether `needle` occurs in `hay`.
pub open spec fn contains_text(hay: Seq<char>, needle: Seq<char>) -> bool {
    exists|i: int| crate::text::occurs_at(hay, i, needle)
}

/// Whether a path's display text matches a file-name query (smart case).
pub open spec fn file_matches(display: Seq<char>, query: Seq<char>) -> bool {
    if case_sensitive(query) {
        contains_text(display, query)
    } else {
        contains_text(lowercase_text(display), lowercase_text(query))
    }
}

fn contains_exec(hay: &Vec<char>, needle: &Vec<char>) -> (b: bool)
    ensures
        b == contains_text(hay@, needle@),
{
    if needle.len() == 0 {
        assert(hay@.subrange(0, 0) =~= needle@);
        assert(crate::text::occurs_at(hay@, 0, needle@));
        return true;
    }
    let mut i: usize = 0;
    while i < hay.len()
        invariant
            i <= hay@.len(),
            needle@.len() > 0,
            forall|j: int| 0 <= j < i ==> !crate::text::occurs_at(hay@, j, needle@),
        decreases hay@.len() - i,
    {
        if crate::text::occurs_at_exec(hay, i, needle) {
            return true;
        }
        i = i + 1;
    }
    false
}

/// A file hit whose display path matches `query` (smart case).
pub open spec fn hit_matches(hit: SearchHit, query: Seq<char>) -> bool {
    file_matches(lossy_text(hit.path@), query)
}

/// Keeps, in order, the file hits whose display path matches `query`.
pub fn filter_files(files: Vec<SearchHit>, query: &str) -> (kept: Vec<SearchHit>)
    ensures
        kept@ == files@.filter(|h: SearchHit| hit_matches(h, query@)),
{
    let q = crate::text::chars_of(query);
    let sensitive = has_uppercase(&q);
    let folded_query = crate::text::chars_of(to_lowercase_text(query).as_str());
    let ghost pred = |h: SearchHit| hit_matches(h, query@);
    let ghost all = files@;
    let mut kept: Vec<SearchHit> = Vec::new();
    let mut files = files;
    let n = files.len();
    while files.len() > 0
        invariant
            q@ == query@,
            sensitive == case_sensitive(query@),
            folded_query@ == lowercase_text(query@),
            pred == (|h: SearchHit| hit_matches(h, query@)),
            n == all.len(),
            files@.len() <= n,
            files@ == all.skip(n - files@.len()),
            kept@ == all.take(n - files@.len()).filter(pred),
        decreases files@.len(),
    {
        let ghost done = n - files@.len();
        let hit = files.remove(0);
        proof {
            assert(hit == all[done]);
            assert(all.take(done + 1) =~= all.take(done).push(hit));
            all.take(done).lemma_filter_push(hit, pred);
            assert(files@ =~= all.skip(done + 1));
        }
        let display = hit.path.display();
        let matched = if sensitive {
            contains_exec(&crate::text::chars_of(display.as_str()), &q)
        } else {
            let folded = to_lowercase_text(display.as_str());
            contains_exec(&crate::text::chars_of(folded.as_str()), &folded_query)
        };
        assert(matched == pred(hit));
        if matched {
            kept.push(hit);
        }
    }
    assert(all.take(n as int) =~= all);
    kept
}

/// The Git command that produces the patch for a diff target.
pub open spec fn diff_command_matches(target: DiffTarget, command: GitCommand) -> bool {
    match target {
        DiffTarget::Worktree { path, untracked } => if untracked {
            command matches GitCommand::UntrackedDiff { path: p } && p@ == path@
        } else {
            command matches GitCommand::WorktreeDiff { path: p } && p@ == path@
        },
        DiffTarget::Commit { commit, baseline, path } => command matches GitCommand::CommitDiff {
            commit: c,
            baseline: b,
            path: p,
        } && c@ == commit@ && p@ == path@ && (b is EmptyTree <==> baseline is EmptyTree) && (
        baseline matches CommitBaseline::FirstParent(x) ==> b matches CommitBaseline::FirstParent(
            y,
        ) && y@ == x@),
    }
}

/// Chooses the patch command for a diff target.
pub fn diff_command(target: &DiffTarget) -> (c: GitCommand)
    ensures
        diff_command_matches(*target, c),
{
    match target {
        DiffTarget::Worktree { path, untracked } => if *untracked {
            GitCommand::UntrackedDiff { path: path.duplicate() }
        } else {
            GitCommand::WorktreeDiff { path: path.duplicate() }
        },
        DiffTarget::Commit { commit, baseline, path } => GitCommand::CommitDiff {
            commit: commit.duplicate(),
            baseline: baseline.duplicate(),
            path: path.duplicate(),
        },
    }
}

/// What `diff_result` answers for the output `o`.
pub open spec fn diff_answer(o: CommandOutput, command: GitCommand, r: Result<DiffDocument, GitError>) -> bool {
    let differ = command is UntrackedDiff && o.code == Some(1i32) && o.stderr@.len() == 0;
    &&& o.stderr_truncated ==> (r matches Err(GitError::OutputLimit { operation }) && operation@
        == command_kind(command))
    &&& !o.stderr_truncated && !o.success && !o.stdout_truncated && !differ ==> (r matches Err(e)
        && e matches GitError::CommandFailed { operation, code, stderr } && operation@
        == command_kind(command) && code == o.code && stderr@ == lossy_text(o.stderr@))
    &&& r is Ok <==> !o.stderr_truncated && (o.success || o.stdout_truncated || differ)
    &&& r matches Ok(d) ==> patch_document(o.stdout@, o.stdout_truncated, d)
}

/// Interprets patch output: truncated standard error is a limit failure; an
/// unsuccessful status fails unless it is the no-index "files differ" status
/// or standard output was cut at the limit; otherwise the patch is parsed.
pub fn diff_result(command: &GitCommand, output: &CommandOutput) -> (r: Result<DiffDocument, GitError>)
    ensures
        diff_answer(*output, *command, r),
{
    let operation = command.kind();
    if output.stderr_truncated {
        return Err(GitError::OutputLimit { operation });
    }
    let allowed_no_index_difference = match command {
        GitCommand::UntrackedDiff { .. } => true,
        _ => false,
    } && output.code == Some(1) && output.stderr.len() == 0;
    if !output.success && !allowed_no_index_difference && !output.stdout_truncated {
        return Err(command_failed(output, operation));
    }
    Ok(parse_patch(output.stdout.as_slice(), output.stdout_truncated))
}

/// What `grep_result` answers for the output `o`.
pub open spec fn grep_answer(o: CommandOutput, r: Result<Vec<SearchHit>, GitError>) -> bool {
    let complete = !o.stdout_truncated && !o.stderr_truncated;
    let no_match = !o.success && o.code == Some(1i32) && o.stderr@.len() == 0;
    &&& complete && no_match ==> (r matches Ok(v) && v@.len() == 0)
    &&& complete && o.success ==> (r is Ok <==> grep_records(o.stdout@) is Some)
    &&& r matches Ok(v) ==> (o.success ==> grep_records(o.stdout@) == Some(
        v@.map_values(|h: SearchHit| content_hit_view(h)),
    ))
    &&& (!complete || (!o.success && !no_match)) ==> (r matches Err(e) && boundary_error(
        o,
        "search repository content",
        e,
    ))
}

/// Interprets the output of a content search: exit code 1 with empty
/// standard error means "no matches".
pub fn grep_result(output: &CommandOutput) -> (r: Result<Vec<SearchHit>, GitError>)
    ensures
        grep_answer(*output, r),
{
    match ensure_complete(output, "search repository content") {
        Err(e) => {
            return Err(e);
        },
        Ok(()) => {},
    }
    if !output.success && output.code == Some(1) && output.stderr.len() == 0 {
        return Ok(Vec::new());
    }
    match ensure_success(output, "search repository content") {
        Err(e) => Err(e),
        Ok(()) => parse_grep_matches(output.stdout.as_slice()),
    }
}

/// Builds the text or binary document for bytes read from a working-tree
/// file: bytes holding NUL are binary; others become their text lines.
pub fn file_document(path: &RepoPath, bytes: &[u8], truncated: bool) -> (d: FileDocument)
    ensures
        bytes@.contains(0u8) ==> (d matches FileDocument::Binary { summary } && summary@
            == "Binary file: "@ + lossy_text(path@)),
        !bytes@.contains(0u8) ==> (d matches FileDocument::Text { lines, truncated: t } && t
            == truncated && lines@.map_values(|s: String| s@) == crate::text::text_lines(
            lossy_text(bytes@),
        )),
{
    let mut i: usize = 0;
    while i < bytes.len()
        invariant
            i <= bytes@.len(),
            forall|j: int| 0 <= j < i ==> bytes@[j] != 0u8,
        decreases bytes@.len() - i,
    {
        if bytes[i] == 0 {
            assert(bytes@[i as int] == 0u8);
            let summary = "Binary file: ".to_string().concat(path.display().as_str());
            return FileDocument::Binary { summary };
        }
        i = i + 1;
    }
    assert(!bytes@.contains(0u8));
    let text = lossy_string(bytes);
    let chars = crate::text::chars_of(text.as_str());
    let pieces = crate::text::lines_of(&chars);
    let mut lines: Vec<String> = Vec::new();
    let mut k: usize = 0;
    while k < pieces.len()
        invariant
            k <= pieces@.len(),
            lines@.len() == k,
            forall|j: int| 0 <= j < k ==> #[trigger] lines@[j]@ == pieces@[j]@,
        decreases pieces@.len() - k,
    {
        lines.push(crate::text::string_from_chars(&pieces[k]));
        k = k + 1;
    }
    assert(lines@.map_values(|s: String| s@) =~= pieces@.map_values(|p: Vec<char>| p@));
    FileDocument::Text { lines, truncated }
}

/// A commit log read from `stdout` gives exactly the summaries `v`.
pub open spec fn log_reads(stdout: Seq<u8>, v: Seq<CommitSummary>) -> bool {
    &&& log_ok(stdout)
    &&& v.len() == log_fields(stdout).len() / 5
    &&& forall|c: int| 0 <= c < v.len() ==> #[trigger] summary_matches(v[c], log_fields(stdout), c)
}

/// A tree listing read from `stdout` gives exactly the entries `v`.
pub open spec fn tree_reads(stdout: Seq<u8>, v: Seq<TreeEntry>) -> bool {
    &&& v.len() == tokens(stdout).len()
    &&& forall|i: int|
        0 <= i < v.len() ==> tree_record(tokens(stdout)[i]) == Some(tree_entry_view(#[trigger] v[i]))
}

/// A file listing read from `stdout` gives exactly the hits `files`, one per
/// listed path.
pub open spec fn file_list(stdout: Seq<u8>, files: Seq<SearchHit>) -> bool {
    &&& files.len() == tokens(stdout).len()
    &&& forall|i: int|
        0 <= i < files.len() ==> (#[trigger] files[i]).path@ == tokens(stdout)[i] && files[i].line is None
}

/// The domain-level repository reader bound to one discovered root.
#[derive(Debug)]
pub struct GitService<R> {
    runner: R,
    root: RepositoryRoot,
}

impl<R> GitService<R> {
    /// The working-tree root as path bytes.
    pub closed spec fn root_view(&self) -> Seq<u8> {
        self.root@
    }
}

/// A runner error is passed on unchanged.
pub open spec fn runner_failed<T>(res: Result<CommandOutput, GitError>, r: Result<T, GitError>) -> bool {
    res matches Err(e) && r == Err::<T, GitError>(e)
}

/// Every listed path is a valid repository path.
pub open spec fn paths_valid(stdout: Seq<u8>) -> bool {
    forall|i: int| 0 <= i < tokens(stdout).len() ==> valid_repo_path(#[trigger] tokens(stdout)[i])
}

/// What a repository file listing answers for the output `o`: its paths
/// matching `query`.
pub open spec fn files_answer(o: CommandOutput, query: Seq<char>, r: Result<Vec<SearchHit>, GitError>) -> bool {
    &&& r is Ok <==> usable(o) && paths_valid(o.stdout@)
    &&& r matches Ok(v) ==> exists|files: Seq<SearchHit>|
        #[trigger] file_list(o.stdout@, files) && v@ == files.filter(
            |h: SearchHit| hit_matches(h, query),
        )
    &&& !usable(o) ==> (r matches Err(e) && boundary_error(o, "list repository files", e))
}

/// What a changed-files read answers for the output `o`.
pub open spec fn changed_answer(o: CommandOutput, r: Result<Vec<ChangedFile>, GitError>) -> bool {
    let parsed = changed_from(tokens(o.stdout@), 0);
    &&& r is Ok <==> usable(o) && parsed is Some
    &&& r matches Ok(v) ==> v@.map_values(|f: ChangedFile| changed_file_view(f)) == parsed->0
    &&& !usable(o) ==> (r matches Err(e) && boundary_error(o, "read changed files", e))
}

/// Every listed record is a tree entry.
pub open spec fn records_valid(stdout: Seq<u8>) -> bool {
    forall|i: int| 0 <= i < tokens(stdout).len() ==> (#[trigger] tree_record(tokens(stdout)[i])) is Some
}

/// What a tree listing answers for the output `o`.
pub open spec fn tree_answer(o: CommandOutput, r: Result<Vec<TreeEntry>, GitError>) -> bool {
    &&& r is Ok <==> usable(o) && records_valid(o.stdout@)
    &&& r matches Ok(v) ==> tree_reads(o.stdout@, v@)
    &&& !usable(o) ==> (r matches Err(e) && boundary_error(o, "read tree entries", e))
}

/// The text of the refusal of a bare repository.
pub open spec fn bare_refusal() -> Seq<char> {
    "bare repositories are not supported by ChronoGit v0.1.0"@
}

/// `start` resolved through `runner`: the discovery command for `start`,
/// then, for an absolute root, the bare-repository check in that root; a
/// bare repository is refused, any other is the service's root.
pub open spec fn discovered<R: GitRunner>(runner: R, start: Seq<u8>, r: Result<GitService<R>, GitError>) -> bool {
    exists|c: GitCommand, res: Result<CommandOutput, GitError>|
        #[trigger] runner.produced(None, c, res) && (c matches GitCommand::Discover { start: s }
            && s@ == start) && (runner_failed(res, r) || (res matches Ok(o) && root_found(
            runner,
            o,
            r,
        )))
}

/// The discovery output `o` read by the rest of `discover`.
pub open spec fn root_found<R: GitRunner>(runner: R, o: CommandOutput, r: Result<GitService<R>, GitError>) -> bool {
    let t = trimmed(o.stdout@);
    if usable(o) && t.len() > 0 && t[0] == 0x2fu8 {
        exists|b: Result<CommandOutput, GitError>|
            #[trigger] runner.produced(Some(t), GitCommand::IsBare, b) && (runner_failed(b, r) || (
            b matches Ok(bo) && if !usable(bo) {
                r matches Err(e) && boundary_error(bo, "check bare repository", e)
            } else if trimmed(bo.stdout@) == yes_answer() {
                r matches Err(GitError::Unsupported(m)) && m@ == bare_refusal()
            } else {
                r matches Ok(svc) && svc.root_view() == t
            }))
    } else {
        exists|x: Result<RepositoryRoot, GitError>|
            #[trigger] root_answer(o, x) && (x matches Err(e) && r == Err::<GitService<R>, GitError>(e))
    }
}

impl<R: GitRunner> GitService<R> {
    /// Whether the runner may answer `result` to `command` run in this
    /// repository.
    pub closed spec fn ran(&self, command: GitCommand, result: Result<CommandOutput, GitError>) -> bool {
        self.runner.produced(Some(self.root@), command, result)
    }

    /// What `changes` answers: the status command, read as worktree changes.
    pub open spec fn changes_read(&self, r: Result<Vec<WorktreeChange>, GitError>) -> bool {
        exists|res: Result<CommandOutput, GitError>|
            #[trigger] self.ran(GitCommand::Status, res) && (runner_failed(res, r) || (res matches Ok(
                o,
            ) && status_answer(o, r)))
    }

    /// What `commits` answers: the `HEAD` check, then, when history exists,
    /// the page of `limit` commits after `skip`.
    pub open spec fn commits_read(&self, skip: usize, limit: usize, r: Result<Vec<CommitSummary>, GitError>) -> bool {
        exists|h: Result<CommandOutput, GitError>|
            #[trigger] self.ran(GitCommand::HasHead, h) && (runner_failed(h, r) || (h matches Ok(
                ho,
            ) && exists|b: Result<bool, GitError>|
                #[trigger] head_answer(ho, b) && match b {
                    Err(e) => r == Err::<Vec<CommitSummary>, GitError>(e),
                    Ok(false) => r matches Ok(v) && v@.len() == 0,
                    Ok(true) => self.page_read(skip, limit, r),
                }))
    }

    /// The page of `limit` commits after `skip`, read as summaries.
    pub open spec fn page_read(&self, skip: usize, limit: usize, r: Result<Vec<CommitSummary>, GitError>) -> bool {
        exists|res: Result<CommandOutput, GitError>|
            #[trigger] self.ran(GitCommand::Commits { skip, limit }, res) && (runner_failed(res, r)
                || (res matches Ok(o) && log_answer(o, "read commit history", r)))
    }

    /// What `search_files` answers: the repository file listing, filtered by
    /// `query`.
    pub open spec fn files_read(&self, query: Seq<char>, r: Result<Vec<SearchHit>, GitError>) -> bool {
        exists|res: Result<CommandOutput, GitError>|
            #[trigger] self.ran(GitCommand::RepositoryFiles, res) && (runner_failed(res, r) || (
            res matches Ok(o) && files_answer(o, query, r)))
    }

    /// What `search_content` answers: nothing for an empty query, else the
    /// fixed-text search for `query`.
    pub open spec fn content_read(&self, query: Seq<char>, r: Result<Vec<SearchHit>, GitError>) -> bool {
        if query.len() == 0 {
            r matches Ok(v) && v@.len() == 0
        } else {
            exists|c: GitCommand, res: Result<CommandOutput, GitError>|
                #[trigger] self.ran(c, res) && (c matches GitCommand::Grep { query: q } && q@
                    == query) && (runner_failed(res, r) || (res matches Ok(o) && grep_answer(o, r)))
        }
    }

    /// What `file_history` answers: at most `limit` commits touching `path`.
    pub open spec fn history_read(&self, path: Seq<u8>, limit: usize, r: Result<Vec<CommitSummary>, GitError>) -> bool {
        exists|c: GitCommand, res: Result<CommandOutput, GitError>|
            #[trigger] self.ran(c, res) && (c matches GitCommand::FileHistory { path: p, limit: l }
                && p@ == path && l == limit) && (runner_failed(res, r) || (res matches Ok(o)
                && log_answer(o, "read file history", r)))
    }

    /// What `commit_message` answers: the message of `commit`.
    pub open spec fn message_read(&self, commit: Seq<char>, r: Result<CommitMessage, GitError>) -> bool {
        exists|c: GitCommand, res: Result<CommandOutput, GitError>|
            #[trigger] self.ran(c, res) && (c matches GitCommand::CommitMessage { commit: x } && x@
                == commit) && (runner_failed(res, r) || (res matches Ok(o) && message_answer(o, r)))
    }

    /// What `changed_files` answers: the paths `commit` changed against
    /// `baseline`.
    pub open spec fn changed_read(
        &self,
        commit: Seq<char>,
        baseline: Option<Seq<char>>,
        r: Result<Vec<ChangedFile>, GitError>,
    ) -> bool {
        exists|c: GitCommand, res: Result<CommandOutput, GitError>|
            #[trigger] self.ran(c, res) && (c matches GitCommand::ChangedFiles {
                commit: x,
                baseline: b,
            } && x@ == commit && baseline_key(b) == baseline) && (runner_failed(res, r) || (
            res matches Ok(o) && changed_answer(o, r)))
    }

    /// What `diff` answers: the patch command for `target`, read as a
    /// document.
    pub open spec fn diff_read(&self, target: DiffTarget, r: Result<DiffDocument, GitError>) -> bool {
        exists|c: GitCommand, res: Result<CommandOutput, GitError>|
            #[trigger] self.ran(c, res) && diff_command_matches(target, c) && (runner_failed(res, r)
                || (res matches Ok(o) && diff_answer(o, c, r)))
    }

    /// What `tree_entries` answers: the entries of `treeish`.
    pub open spec fn tree_read(&self, treeish: Seq<char>, r: Result<Vec<TreeEntry>, GitError>) -> bool {
        exists|c: GitCommand, res: Result<CommandOutput, GitError>|
            #[trigger] self.ran(c, res) && (c matches GitCommand::TreeEntries { treeish: x } && x@
                == treeish) && (runner_failed(res, r) || (res matches Ok(o) && tree_answer(o, r)))
    }

    /// Resolves the working tree containing `start`, which the caller has
    /// already resolved to a canonical existing directory, and refuses bare
    /// repositories.
    pub fn discover(runner: R, start: Vec<u8>) -> (r: Result<GitService<R>, GitError>)
        ensures
            discovered(runner, start@, r),
            r matches Ok(s) ==> s.root_view().len() > 0 && s.root_view()[0] == 0x2fu8,
    {
        let ghost sv = start@;
        let command = GitCommand::Discover { start };
        let ghost c = command;
        let found = runner.run(None, &command);
        let ghost fv = found;
        let output = match found {
            Err(e) => {
                return Err(e);
            },
            Ok(o) => o,
        };
        let ghost t = trimmed(output.stdout@);
        let root = match discovered_root(&output) {
            Err(e) => {
                proof {
                    assert(root_answer(output, Err::<RepositoryRoot, GitError>(e)));
                    assert(root_found(runner, output, Err::<GitService<R>, GitError>(e)));
                    assert(runner.produced(None, c, fv));
                }
                return Err(e);
            },
            Ok(root) => root,
        };
        let ghost rt = root@;
        let service = GitService { runner, root };
        let bare = service.runner.run(Some(&service.root), &GitCommand::IsBare);
        let ghost bv = bare;
        proof {
            assert(service.runner.produced(Some(t), GitCommand::IsBare, bv));
        }
        let r = match bare {
            Err(e) => Err(e),
            Ok(bo) => match bare_answer(&bo) {
                Err(e) => Err(e),
                Ok(true) => Err(
                    GitError::Unsupported("bare repositories are not supported by ChronoGit v0.1.0".to_string()),
                ),
                Ok(false) => Ok(service),
            },
        };
        proof {
            assert(root_found(runner, output, r));
            assert(runner.produced(None, c, fv));
        }
        r
    }

    /// Wraps a runner and an already discovered root.
    pub fn with_root(runner: R, root: RepositoryRoot) -> (s: GitService<R>)
        ensures
            s.root_view() == root@,
    {
        GitService { runner, root }
    }

    /// The absolute working-tree root.
    pub fn root(&self) -> (r: &RepositoryRoot)
        ensures
            r@ == self.root_view(),
    {
        &self.root
    }

    /// Unstaged worktree changes.
    pub fn changes(&self) -> (r: Result<Vec<WorktreeChange>, GitError>)
        ensures
            self.changes_read(r),
    {
        let res = self.runner.run(Some(&self.root), &GitCommand::Status);
        let ghost rv = res;
        let r = match res {
            Err(e) => Err(e),
            Ok(output) => status_result(&output),
        };
        proof {
            assert(self.ran(GitCommand::Status, rv));
        }
        r
    }

    /// One page of commit history, or nothing for an unborn branch.
    pub fn commits(&self, skip: usize, limit: usize) -> (r: Result<Vec<CommitSummary>, GitError>)
        ensures
            self.commits_read(skip, limit, r),
    {
        let head = self.runner.run(Some(&self.root), &GitCommand::HasHead);
        let ghost hv = head;
        proof {
            assert(self.ran(GitCommand::HasHead, hv));
        }
        let head_output = match head {
            Err(e) => {
                return Err(e);
            },
            Ok(o) => o,
        };
        let exists = head_exists(&head_output);
        let ghost b = exists;
        proof {
            assert(head_answer(head_output, b));
        }
        match exists {
            Err(e) => {
                return Err(e);
            },
            Ok(false) => {
                return Ok(Vec::new());
            },
            Ok(true) => {},
        }
        let res = self.runner.run(Some(&self.root), &GitCommand::Commits { skip, limit });
        let ghost rv = res;
        let r = match res {
            Err(e) => Err(e),
            Ok(output) => log_result(&output, "read commit history"),
        };
        proof {
            assert(self.ran(GitCommand::Commits { skip, limit }, rv));
            assert(self.page_read(skip, limit, r));
        }
        r
    }

    /// Repository files whose display path matches `query` (smart case).
    pub fn search_files(&self, query: &str) -> (r: Result<Vec<SearchHit>, GitError>)
        ensures
            self.files_read(query@, r),
            r matches Ok(v) ==> forall|i: int|
                0 <= i < v@.len() ==> hit_matches(#[trigger] v@[i], query@),
    {
        let res = self.runner.run(Some(&self.root), &GitCommand::RepositoryFiles);
        let ghost rv = res;
        proof {
            assert(self.ran(GitCommand::RepositoryFiles, rv));
        }
        let output = match res {
            Err(e) => {
                return Err(e);
            },
            Ok(o) => o,
        };
        let r = files_result(&output, query);
        proof {
            assert(files_answer(output, query@, r));
        }
        r
    }

    /// Working-tree lines holding `query` as fixed text; nothing for an empty query.
    pub fn search_content(&self, query: &str) -> (r: Result<Vec<SearchHit>, GitError>)
        ensures
            self.content_read(query@, r),
    {
        if crate::text::chars_of(query).len() == 0 {
            return Ok(Vec::new());
        }
        let command = GitCommand::Grep {
            query: crate::text::string_from_chars(&crate::text::chars_of(query)),
        };
        let ghost c = command;
        let res = self.runner.run(Some(&self.root), &command);
        let ghost rv = res;
        let r = match res {
            Err(e) => Err(e),
            Ok(output) => grep_result(&output),
        };
        proof {
            assert(self.ran(c, rv));
        }
        r
    }

    /// Commits that touched one path.
    pub fn file_history(&self, path: &RepoPath, limit: usize) -> (r: Result<
        Vec<CommitSummary>,
        GitError,
    >)
        ensures
            self.history_read(path@, limit, r),
    {
        let command = GitCommand::FileHistory { path: path.duplicate(), limit };
        let ghost c = command;
        let res = self.runner.run(Some(&self.root), &command);
        let ghost rv = res;
        let r = match res {
            Err(e) => Err(e),
            Ok(output) => log_result(&output, "read file history"),
        };
        proof {
            assert(self.ran(c, rv));
        }
        r
    }

    /// A commit's complete message.
    pub fn commit_message(&self, commit: &ObjectId) -> (r: Result<CommitMessage, GitError>)
        ensures
            self.message_read(commit@, r),
    {
        let command = GitCommand::CommitMessage { commit: commit.duplicate() };
        let ghost c = command;
        let res = self.runner.run(Some(&self.root), &command);
        let ghost rv = res;
        let r = match res {
            Err(e) => Err(e),
            Ok(output) => message_result(&output),
        };
        proof {
            assert(self.ran(c, rv));
        }
        r
    }

    /// Paths changed by a commit relative to its baseline.
    pub fn changed_files(&self, commit: &ObjectId, baseline: &CommitBaseline) -> (r: Result<
        Vec<ChangedFile>,
        GitError,
    >)
        ensures
            self.changed_read(commit@, baseline_key(*baseline), r),
    {
        let command = GitCommand::ChangedFiles { commit: commit.duplicate(), baseline: baseline.duplicate() };
        let ghost c = command;
        let res = self.runner.run(Some(&self.root), &command);
        let ghost rv = res;
        let r = match res {
            Err(e) => Err(e),
            Ok(output) => changed_result(&output),
        };
        proof {
            assert(self.ran(c, rv));
        }
        r
    }

    /// The patch for one diff target.
    pub fn diff(&self, target: &DiffTarget) -> (r: Result<DiffDocument, GitError>)
        ensures
            self.diff_read(*target, r),
    {
        let command = diff_command(target);
        let ghost c = command;
        let res = self.runner.run(Some(&self.root), &command);
        let ghost rv = res;
        let r = match res {
            Err(e) => Err(e),
            Ok(output) => diff_result(&command, &output),
        };
        proof {
            assert(self.ran(c, rv));
        }
        r
    }

    /// The direct entries of one tree object.
    pub fn tree_entries(&self, treeish: &ObjectId) -> (r: Result<Vec<TreeEntry>, GitError>)
        ensures
            self.tree_read(treeish@, r),
    {
        let command = GitCommand::TreeEntries { treeish: treeish.duplicate() };
        let ghost c = command;
        let res = self.runner.run(Some(&self.root), &command);
        let ghost rv = res;
        let r = match res {
            Err(e) => Err(e),
            Ok(output) => tree_result(&output),
        };
        proof {
            assert(self.ran(c, rv));
        }
        r
    }
}

/// Reads a repository file listing and keeps the paths matching `query`.
fn files_result(output: &CommandOutput, query: &str) -> (r: Result<Vec<SearchHit>, GitError>)
    ensures
        files_answer(*output, query@, r),
        r matches Ok(v) ==> forall|i: int| 0 <= i < v@.len() ==> hit_matches(#[trigger] v@[i], query@),
{
    ensure_complete(output, "list repository files")?;
    ensure_success(output, "list repository files")?;
    let files = parse_file_paths(output.stdout.as_slice())?;
    let ghost all = files@;
    let kept = filter_files(files, query);
    proof {
        assert(file_list(output.stdout@, all));
    }
    Ok(kept)
}

/// Reads a changed-files listing.
fn changed_result(output: &CommandOutput) -> (r: Result<Vec<ChangedFile>, GitError>)
    ensures
        changed_answer(*output, r),
{
    ensure_complete(output, "read changed files")?;
    ensure_success(output, "read changed files")?;
    parse_changed_files(output.stdout.as_slice())
}

/// Reads a tree listing.
fn tree_result(output: &CommandOutput) -> (r: Result<Vec<TreeEntry>, GitError>)
    ensures
        tree_answer(*output, r),
{
    ensure_complete(output, "read tree entries")?;
    ensure_success(output, "read tree entries")?;
    parse_tree_entries(output.stdout.as_slice())
}

} // verus!
