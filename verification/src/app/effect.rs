//! Values the effect executor derives from documents for the language server.

use crate::app::action::Event;
use crate::app::model::{RequestId, VisibleTreeEntry};
use crate::git::runner::GitRunner;
use crate::git::service::GitService;
use crate::domain::commit::{baseline_key, CommitBaseline, ObjectId};
use crate::domain::diff::DiffTarget;
use crate::domain::path::RepoPath;
use crate::domain::source::{RepositoryLocation, SemanticNavigationKind, SourcePosition, SourceRange};
use crate::lsp::manager::WireRepositoryLocation;
use crate::lsp::{from_lsp_character, lsp_column, LspError};
use crate::text::{nth_line, nth_line_exec};
use vstd::prelude::*;
use vstd::string::StringExecFns;

verus! {

/// A typed operation at the language-server boundary.
#[derive(Debug)]
pub enum LspEffect {
    /// Synchronize the current document and request semantic locations.
    Navigate {
        request_id: RequestId,
        kind: SemanticNavigationKind,
        path: RepoPath,
        /// The complete text currently displayed.
        text: String,
        position: SourcePosition,
        /// The document generation, used to reject refresh races.
        document_revision: u64,
    },
    /// Synchronize the current document and request hover information.
    Hover {
        request_id: RequestId,
        path: RepoPath,
        text: String,
        position: SourcePosition,
        document_revision: u64,
    },
}

/// Work requested by a transition: a repository read or language-server work.
#[derive(Debug)]
pub enum AppEffect {
    Git(GitEffect),
    Lsp(LspEffect),
}

/// Repository work as application work.
pub open spec fn as_app(e: Seq<GitEffect>) -> Seq<AppEffect> {
    e.map_values(|g: GitEffect| AppEffect::Git(g))
}

/// Wraps repository work as application work, in order.
pub fn git_effects(effects: Vec<GitEffect>) -> (r: Vec<AppEffect>)
    ensures
        r@ == as_app(effects@),
{
    let ghost all = effects@;
    let mut rest = effects;
    let mut r: Vec<AppEffect> = Vec::new();
    while rest.len() > 0
        invariant
            r@ + as_app(rest@) == as_app(all),
        decreases rest@.len(),
    {
        let ghost before = rest@;
        let g = rest.remove(0);
        proof {
            assert(as_app(before) =~= seq![AppEffect::Git(g)] + as_app(rest@));
            assert(r@.push(AppEffect::Git(g)) + as_app(rest@) =~= r@ + as_app(before));
        }
        r.push(AppEffect::Git(g));
    }
    proof {
        assert(as_app(rest@) =~= Seq::<AppEffect>::empty());
        assert(r@ + as_app(rest@) =~= r@);
    }
    r
}

/// `event` is the completion of `effect`: the matching variant, with the
/// effect's request identifier and the values it identifies its resource by.
pub open spec fn answers(effect: GitEffect, event: Event) -> bool {
    match effect {
        GitEffect::LoadChanges { request_id } => event matches Event::ChangesLoaded {
            request_id: r,
            ..
        } && r == request_id,
        GitEffect::LoadCommits { request_id, limit, append, .. } => event matches Event::CommitsLoaded {
            request_id: r,
            append: a,
            limit: l,
            ..
        } && r == request_id && a == append && l == limit,
        GitEffect::LoadFiles { request_id, commit, .. } => event matches Event::FilesLoaded {
            request_id: r,
            commit: c,
            ..
        } && r == request_id && c@ == commit@,
        GitEffect::LoadDiff { request_id, .. } => event matches Event::DiffLoaded {
            request_id: r,
            ..
        } && r == request_id,
        GitEffect::LoadMessage { request_id, commit } => event matches Event::MessageLoaded {
            request_id: r,
            commit: c,
            ..
        } && r == request_id && c@ == commit@,
        GitEffect::LoadTree { request_id, commit, parent, .. } => event matches Event::TreeLoaded {
            request_id: r,
            commit: c,
            parent: p,
            ..
        } && r == request_id && c@ == commit@ && p == parent,
        GitEffect::SearchFiles { request_id, .. } => event matches Event::RepositorySearchLoaded {
            request_id: r,
            ..
        } && r == request_id,
        GitEffect::SearchContent { request_id, .. } => event matches Event::RepositorySearchLoaded {
            request_id: r,
            ..
        } && r == request_id,
        GitEffect::LoadFileHistory { request_id, path, .. } => event matches Event::FileHistoryLoaded {
            request_id: r,
            path: p,
            ..
        } && r == request_id && p@ == path@,
        _ => false,
    }
}

/// `event` carries what `service` loads for `effect`: the result the
/// matching repository read answers.
pub open spec fn loaded<R: GitRunner>(service: GitService<R>, effect: GitEffect, event: Event) -> bool {
    match (effect, event) {
        (GitEffect::LoadChanges { .. }, Event::ChangesLoaded { result, .. }) => service.changes_read(
            result,
        ),
        (
            GitEffect::LoadCommits { skip, limit, .. },
            Event::CommitsLoaded { result, .. },
        ) => service.commits_read(skip, limit, result),
        (GitEffect::LoadFiles { commit, baseline, .. }, Event::FilesLoaded { result, .. }) =>
            service.changed_read(commit@, baseline_key(baseline), result),
        (GitEffect::LoadDiff { target, .. }, Event::DiffLoaded { result, .. }) => service.diff_read(
            target,
            result,
        ),
        (GitEffect::LoadMessage { commit, .. }, Event::MessageLoaded { result, .. }) =>
            service.message_read(commit@, result),
        (GitEffect::LoadTree { treeish, .. }, Event::TreeLoaded { result, .. }) => service.tree_read(
            treeish@,
            result,
        ),
        (
            GitEffect::SearchFiles { query, .. },
            Event::RepositorySearchLoaded { result, .. },
        ) => service.files_read(query@, result),
        (
            GitEffect::SearchContent { query, .. },
            Event::RepositorySearchLoaded { result, .. },
        ) => service.content_read(query@, result),
        (
            GitEffect::LoadFileHistory { path, limit, .. },
            Event::FileHistoryLoaded { result, .. },
        ) => service.history_read(path@, limit, result),
        _ => false,
    }
}

/// Effects that read working-tree files directly rather than through Git.
pub open spec fn reads_files(effect: GitEffect) -> bool {
    ||| effect is LoadFileContent
    ||| effect is LoadCodeTree
    ||| effect is LoadCodeFile
}

/// Performs a repository read through `service` and returns its completion,
/// carrying what the read answered; an effect that reads working-tree files
/// is handed back for the caller, which owns the file system, to perform.
pub fn effect_event<R: GitRunner>(service: &GitService<R>, effect: GitEffect) -> (r: Result<Event, GitEffect>)
    ensures
        reads_files(effect) <==> r is Err,
        r matches Err(back) ==> back == effect,
        r matches Ok(event) ==> answers(effect, event) && loaded(*service, effect, event),
{
    match effect {
        GitEffect::LoadChanges { request_id } => Ok(
            Event::ChangesLoaded { request_id, result: service.changes() },
        ),
        GitEffect::LoadCommits { request_id, skip, limit, append } => Ok(
            Event::CommitsLoaded { request_id, append, limit, result: service.commits(skip, limit) },
        ),
        GitEffect::LoadFiles { request_id, commit, baseline } => {
            let result = service.changed_files(&commit, &baseline);
            Ok(Event::FilesLoaded { request_id, commit, result })
        },
        GitEffect::LoadDiff { request_id, target } => Ok(
            Event::DiffLoaded { request_id, result: service.diff(&target) },
        ),
        GitEffect::LoadMessage { request_id, commit } => {
            let result = service.commit_message(&commit);
            Ok(Event::MessageLoaded { request_id, commit, result })
        },
        GitEffect::LoadTree { request_id, commit, treeish, parent } => {
            let result = service.tree_entries(&treeish);
            Ok(Event::TreeLoaded { request_id, commit, parent, result })
        },
        GitEffect::SearchFiles { request_id, query } => Ok(
            Event::RepositorySearchLoaded { request_id, result: service.search_files(query.as_str()) },
        ),
        GitEffect::SearchContent { request_id, query } => Ok(
            Event::RepositorySearchLoaded {
                request_id,
                result: service.search_content(query.as_str()),
            },
        ),
        GitEffect::LoadFileHistory { request_id, path, limit } => {
            let result = service.file_history(&path, limit);
            Ok(Event::FileHistoryLoaded { request_id, path, result })
        },
        other => Err(other),
    }
}

/// A repository operation requested by an application-state transition.
///
/// Effects carry validated domain values rather than arbitrary Git
/// arguments; their request identifiers let the reducer discard obsolete work.
#[derive(Debug)]
pub enum GitEffect {
    /// Load unstaged worktree changes.
    LoadChanges { request_id: RequestId },
    /// Load one page of commit summaries.
    LoadCommits {
        request_id: RequestId,
        /// Number of leading commits to omit.
        skip: usize,
        /// Maximum number of commits requested.
        limit: usize,
        /// Whether the returned page extends an existing history list.
        append: bool,
    },
    /// Load paths changed by one commit relative to its baseline.
    LoadFiles { request_id: RequestId, commit: ObjectId, baseline: CommitBaseline },
    /// Load a bounded diff document.
    LoadDiff { request_id: RequestId, target: DiffTarget },
    /// Load the complete message for one commit.
    LoadMessage { request_id: RequestId, commit: ObjectId },
    /// Load one directory from a commit tree.
    LoadTree {
        request_id: RequestId,
        /// Commit whose cached tree state owns the result.
        commit: ObjectId,
        /// Tree object whose direct children are requested.
        treeish: ObjectId,
        /// Visible parent to expand, or `None` for the root tree.
        parent: Option<VisibleTreeEntry>,
    },
    /// Search tracked and untracked repository file names.
    SearchFiles { request_id: RequestId, query: String },
    /// Search non-binary working-tree contents for fixed text.
    SearchContent { request_id: RequestId, query: String },
    /// Load commits that touched one repository path.
    LoadFileHistory { request_id: RequestId, path: RepoPath, limit: usize },
    /// Read bounded content from one current working-tree path.
    LoadFileContent { request_id: RequestId, path: RepoPath },
    /// Load the tracked and untracked paths used by the code-viewer tree.
    LoadCodeTree { request_id: RequestId },
    /// Read bounded current content for the selected code-viewer file.
    LoadCodeFile { request_id: RequestId, path: RepoPath },
}

/// Line `line` of a target file named by a server, or a protocol error when
/// the file has no such line.
pub fn source_line(source: &str, line: u32) -> (r: Result<&str, LspError>)
    ensures
        r matches Ok(l) ==> nth_line(source@, line as int) == Some(l@),
        r matches Err(e) ==> nth_line(source@, line as int) is None && e == LspError::Protocol(
            e->Protocol_0,
        ) && e->Protocol_0@ == "language server returned a line outside the target file"@,
{
    match nth_line_exec(source, line as usize) {
        Some(l) => Ok(l),
        None => Err(
            LspError::Protocol(
                String::from_str("language server returned a line outside the target file"),
            ),
        ),
    }
}

/// The message for a line number the target file does not have.
pub open spec fn line_outside_text() -> Seq<char> {
    "language server returned a line outside the target file"@
}

/// The byte columns a server range names in `source`: its start and end
/// lines must exist and each column must land on a character boundary.
pub open spec fn resolved_columns(source: Seq<char>, location: WireRepositoryLocation) -> Result<
    (int, int),
    Seq<char>,
> {
    let sel = location.selection;
    match nth_line(source, sel.start.line as int) {
        None => Err(line_outside_text()),
        Some(start_line) => match nth_line(source, sel.end.line as int) {
            None => Err(line_outside_text()),
            Some(end_line) => match lsp_column(
                start_line,
                sel.start.character as int,
                location.encoding,
            ) {
                Err(m) => Err(m),
                Ok(start) => match lsp_column(
                    end_line,
                    sel.end.character as int,
                    location.encoding,
                ) {
                    Err(m) => Err(m),
                    Ok(end) => Ok((start, end)),
                },
            },
        },
    }
}

/// Converts a server location inside the repository into source byte
/// positions, reading the lines from the target file's text.
pub fn resolve_location(location: &WireRepositoryLocation, source: &str) -> (r: Result<
    RepositoryLocation,
    LspError,
>)
    ensures
        r matches Ok(loc) ==> (resolved_columns(source@, *location) matches Ok(cols) && loc.path@
            == location.path@ && loc.selection == (SourceRange {
            start: (SourcePosition {
                line: location.selection.start.line,
                byte_column: cols.0 as usize,
            }),
            end: (SourcePosition { line: location.selection.end.line, byte_column: cols.1 as usize }),
        })),
        r matches Err(e) ==> (e matches LspError::Protocol(m) && resolved_columns(
            source@,
            *location,
        ) == Err::<(int, int), Seq<char>>(m@)),
        r is Ok <==> resolved_columns(source@, *location) is Ok,
{
    let sel = location.selection;
    let start_line = match source_line(source, sel.start.line) {
        Ok(l) => l,
        Err(e) => {
            return Err(e);
        },
    };
    let end_line = match source_line(source, sel.end.line) {
        Ok(l) => l,
        Err(e) => {
            return Err(e);
        },
    };
    crate::text::str_fits(start_line);
    crate::text::str_fits(end_line);
    let start = match from_lsp_character(start_line, sel.start.character, location.encoding) {
        Ok(b) => b,
        Err(e) => {
            return Err(e);
        },
    };
    let end = match from_lsp_character(end_line, sel.end.character, location.encoding) {
        Ok(b) => b,
        Err(e) => {
            return Err(e);
        },
    };
    Ok(
        RepositoryLocation::new(
            location.path.duplicate(),
            SourceRange::new(
                SourcePosition::new(sel.start.line, start),
                SourcePosition::new(sel.end.line, end),
            ),
        ),
    )
}

} // verus!
