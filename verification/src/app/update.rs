//! The reducer: how actions and completed work change the application state.
//!
//! It preserves selection where possible, rejects stale request identifiers,
//! and returns typed repository work instead of performing it.

use crate::app::code_view::{
    code_edge_selected, code_scrolled, code_selection_moved, content_moved, tree_requested,
};
use crate::app::effect::GitEffect;
use crate::app::model::{
    baseline_of, changes_requested, commit_target, commits_requested, diff_requested, first_row,
    moved, next_id, AppState, AppView, DiffViewState, FocusedPane, HistoryPanel, LoadState,
    MessageState, Overlay, RequestId, Selection, TreeState,
};
use crate::app::repository_search::{file_history_diff_selected, file_scrolled, file_view_loaded};
use crate::app::code_view::file_last;
use crate::domain::change::{ChangeKind, WorktreeChange};
use crate::domain::commit::{baseline_key, message_body, CommitMessage, CommitSummary, ObjectId};
use crate::domain::diff::{DiffDocument, DiffTarget};
use crate::domain::tree::{same_entry, TreeEntry, TreeKind};
use crate::app::model::{same_row, VisibleTreeEntry};
use crate::git::runner::{error_text, GitError};
use crate::app::code_view::{content_opened, code_tree_activated, joined_view, code_content_step};
use crate::app::action::Action;
use crate::app::repository_search::{file_overlay_step, search_opened, search_overlay_step};
use crate::app::search::{confirmed, confirmed_line, deleted, diff_texts, prompt_set, stepped, stepped_line, typed};
use crate::app::model::{
    cache_insert, ErrorNotice, HistoryPageState, RepositorySearchKind, RepositorySearchState, FileViewState,
    MAX_DIFF_CACHE_BYTES,
};
use crate::app::action::Event;
use crate::app::code_view::{code_file_received, code_tree_received};
use crate::domain::change::ChangedFile;
use crate::domain::diff::{document_bytes, same_document, same_target};
use crate::domain::path::RepoPath;
use crate::domain::search::{FileDocument, SearchHit};
use crate::text::text_lines;
use vstd::prelude::*;

verus! {

/// `n` moved by `delta`, stopping at zero and at the largest `usize`.
pub open spec fn step(n: usize, delta: isize) -> usize {
    let r = n + delta;
    if r < 0 {
        0
    } else if r > usize::MAX {
        usize::MAX
    } else {
        r as usize
    }
}

/// The smaller of two offsets.
pub open spec fn at_most(a: usize, b: usize) -> usize {
    if a < b {
        a
    } else {
        b
    }
}

/// Moves `n` by `delta`, saturating at both ends.
pub fn step_exec(n: usize, delta: isize) -> (r: usize)
    ensures
        r == step(n, delta),
{
    if delta < 0 {
        let back: usize = if delta == isize::MIN {
            (isize::MAX as usize) + 1
        } else {
            (-delta) as usize
        };
        if back > n {
            0
        } else {
            n - back
        }
    } else {
        let forward = delta as usize;
        if forward > usize::MAX - n {
            usize::MAX
        } else {
            n + forward
        }
    }
}

/// The pane that `Shift-Tab` focuses from `focus` in `view`.
pub open spec fn previous_pane_of(view: AppView, focus: FocusedPane) -> FocusedPane {
    match view {
        AppView::Changes => FocusedPane::Primary,
        AppView::History | AppView::CommitDetails => match focus {
            FocusedPane::Diff => FocusedPane::Secondary,
            _ => FocusedPane::Primary,
        },
        AppView::Graph => FocusedPane::Primary,
        AppView::GraphDetails => FocusedPane::Secondary,
        AppView::FileHistory | AppView::Code => FocusedPane::Primary,
    }
}

/// The pane that `Tab` focuses from `focus` in `view`.
pub open spec fn next_pane_of(view: AppView, focus: FocusedPane) -> FocusedPane {
    match view {
        AppView::Changes => FocusedPane::Diff,
        AppView::History | AppView::CommitDetails => match focus {
            FocusedPane::Primary => FocusedPane::Secondary,
            _ => FocusedPane::Diff,
        },
        AppView::Graph => FocusedPane::Primary,
        AppView::GraphDetails | AppView::FileHistory | AppView::Code => FocusedPane::Diff,
    }
}

pub fn previous_pane(view: AppView, focus: FocusedPane) -> (p: FocusedPane)
    ensures
        p == previous_pane_of(view, focus),
{
    match (view, focus) {
        (AppView::Changes, _) => FocusedPane::Primary,
        (AppView::History, FocusedPane::Diff) | (AppView::CommitDetails, FocusedPane::Diff) => {
            FocusedPane::Secondary
        },
        (AppView::History, _) | (AppView::CommitDetails, _) => FocusedPane::Primary,
        (AppView::Graph, _) => FocusedPane::Primary,
        (AppView::GraphDetails, _) => FocusedPane::Secondary,
        (AppView::FileHistory, _) | (AppView::Code, _) => FocusedPane::Primary,
    }
}

pub fn next_pane(view: AppView, focus: FocusedPane) -> (p: FocusedPane)
    ensures
        p == next_pane_of(view, focus),
{
    match (view, focus) {
        (AppView::Changes, _) => FocusedPane::Diff,
        (AppView::History, FocusedPane::Primary) | (AppView::CommitDetails, FocusedPane::Primary) => {
            FocusedPane::Secondary
        },
        (AppView::History, _) | (AppView::CommitDetails, _) => FocusedPane::Diff,
        (AppView::Graph, _) => FocusedPane::Primary,
        (AppView::GraphDetails, _) | (AppView::FileHistory, _) | (AppView::Code, _) => FocusedPane::Diff,
    }
}

/// From any pane other than the last, `Tab` then `Shift-Tab` returns to it:
/// in the views with three panes the cycle is Primary, Secondary, Diff.
pub proof fn lemma_tab_round_trip(view: AppView, focus: FocusedPane)
    requires
        view == AppView::History || view == AppView::CommitDetails,
        focus != FocusedPane::Diff,
    ensures
        previous_pane_of(view, next_pane_of(view, focus)) == focus,
{
}

/// Moves the selection to the first or last row; reports a change.
pub fn edge(selection: &mut Selection, len: usize, bottom: bool) -> (changed: bool)
    ensures
        final(selection).index == (if bottom {
            if len > 0 {
                Some((len - 1) as usize)
            } else {
                None
            }
        } else {
            first_row(len)
        }),
        changed == (final(selection).index != old(selection).index),
{
    if bottom {
        selection.bottom(len)
    } else {
        selection.top(len)
    }
}

// ---------------------------------------------------------------------------
// Documents and their scroll offsets.

/// The last line of a diff document: 0 for a summary, else the last patch
/// line, counting the truncation marker as a line.
pub open spec fn diff_last(c: LoadState<DiffDocument>) -> usize {
    match c {
        LoadState::Ready(DiffDocument::Text { lines, .. }) => if lines@.len() > 0 {
            (lines@.len() - 1) as usize
        } else {
            0
        },
        LoadState::Ready(DiffDocument::Truncated { lines, .. }) => lines@.len() as usize,
        _ => 0,
    }
}

/// The diff offset after moving `delta` lines from `v`: kept inside a loaded
/// document, free while it loads, and 0 without one.
pub open spec fn diff_moved(c: LoadState<DiffDocument>, v: usize, delta: isize) -> usize {
    match c {
        LoadState::Loading { .. } => step(v, delta),
        LoadState::Ready(_) => at_most(step(v, delta), diff_last(c)),
        _ => 0,
    }
}

/// `t` is `s` with the diff scrolled to line `vertical`.
pub open spec fn diff_scrolled(s: AppState, t: AppState, vertical: usize) -> bool {
    t == (AppState { diff: DiffViewState { vertical, ..s.diff }, ..s })
}

/// The last line of the current diff.
pub fn diff_last_line(state: &AppState) -> (n: usize)
    ensures
        n == diff_last(state.diff.content),
{
    match &state.diff.content {
        LoadState::Ready(DiffDocument::Text { lines, .. }) => {
            if lines.len() > 0 {
                lines.len() - 1
            } else {
                0
            }
        },
        LoadState::Ready(DiffDocument::Truncated { lines, .. }) => lines.len(),
        _ => 0,
    }
}

/// Moves the diff by `delta` lines.
pub fn move_diff_cursor(state: &mut AppState, delta: isize)
    ensures
        diff_scrolled(
            *old(state),
            *final(state),
            diff_moved(old(state).diff.content, old(state).diff.vertical, delta),
        ),
{
    let next = step_exec(state.diff.vertical, delta);
    let last = diff_last_line(state);
    state.diff.vertical = match &state.diff.content {
        LoadState::Loading { .. } => next,
        LoadState::Ready(_) => if next < last {
            next
        } else {
            last
        },
        _ => 0,
    };
}

/// The number of lines of a text, as `str::lines` counts them.
pub fn line_count(text: &str) -> (n: usize)
    ensures
        n == text_lines(text@).len(),
{
    let chars = crate::text::chars_of(text);
    let lines = crate::text::lines_of(&chars);
    proof {
        assert(lines@.map_values(|p: Vec<char>| p@).len() == lines@.len());
    }
    lines.len()
}

/// The last line of the commit message: of its body, or of the whole
/// message when `full`.
pub open spec fn message_last(c: LoadState<CommitMessage>, full: bool) -> usize {
    match c {
        LoadState::Ready(m) => {
            let n = text_lines(if full { m.0@ } else { message_body(m.0@) }).len();
            if n > 0 {
                (n - 1) as usize
            } else {
                0
            }
        },
        _ => 0,
    }
}

/// The message offset after moving `delta` lines, kept inside the message.
pub open spec fn message_moved(s: AppState, delta: isize, full: bool) -> usize {
    let last = message_last(s.message.content, full);
    at_most(step(at_most(s.message.scroll, last), delta), last)
}

/// `t` is `s` with the message scrolled to line `scroll`.
pub open spec fn message_scrolled(s: AppState, t: AppState, scroll: usize) -> bool {
    t == (AppState { message: MessageState { scroll, ..s.message }, ..s })
}

/// The last line of the commit message's body.
pub fn message_last_line(state: &AppState) -> (n: usize)
    ensures
        n == message_last(state.message.content, false),
{
    match &state.message.content {
        LoadState::Ready(m) => {
            let body = m.body();
            let n = line_count(body.as_str());
            if n > 0 {
                n - 1
            } else {
                0
            }
        },
        _ => 0,
    }
}

/// The last line of the whole commit message.
pub fn full_message_last_line(state: &AppState) -> (n: usize)
    ensures
        n == message_last(state.message.content, true),
{
    match &state.message.content {
        LoadState::Ready(m) => {
            let n = line_count(m.as_str());
            if n > 0 {
                n - 1
            } else {
                0
            }
        },
        _ => 0,
    }
}

/// Moves the message body by `delta` lines.
pub fn move_message_cursor(state: &mut AppState, delta: isize)
    ensures
        message_scrolled(*old(state), *final(state), message_moved(*old(state), delta, false)),
{
    let last = message_last_line(state);
    let start = if state.message.scroll < last {
        state.message.scroll
    } else {
        last
    };
    let next = step_exec(start, delta);
    state.message.scroll = if next < last {
        next
    } else {
        last
    };
}

/// Moves the full message by `delta` lines.
pub fn move_full_message_cursor(state: &mut AppState, delta: isize)
    ensures
        message_scrolled(*old(state), *final(state), message_moved(*old(state), delta, true)),
{
    let last = full_message_last_line(state);
    let start = if state.message.scroll < last {
        state.message.scroll
    } else {
        last
    };
    let next = step_exec(start, delta);
    state.message.scroll = if next < last {
        next
    } else {
        last
    };
}

// ---------------------------------------------------------------------------
// Views and selections.

/// The views that list commits.
pub open spec fn lists_commits(view: AppView) -> bool {
    view == AppView::History || view == AppView::CommitDetails || view == AppView::Graph || view
        == AppView::GraphDetails
}

/// `t` is `s` showing `view` with its first pane focused, loading the view's
/// data when it was never requested.
pub open spec fn switched(s: AppState, t: AppState, view: AppView, e: Seq<GitEffect>) -> bool {
    let m = AppState { view, focus: FocusedPane::Primary, ..s };
    if view == AppView::Changes && s.changes is Idle {
        changes_requested(m, t, e)
    } else if lists_commits(view) && s.commits is Idle {
        commits_requested(m, t, false, e)
    } else if view == AppView::Code && s.code_view.visible is Idle {
        tree_requested(m, t, e)
    } else {
        t == m && e.len() == 0
    }
}

/// Shows `view`.
pub fn switch_view(state: &mut AppState, view: AppView) -> (effects: Vec<GitEffect>)
    ensures
        old(state).next_request <= final(state).next_request,
        switched(*old(state), *final(state), view, effects@),
{
    let changes_idle = match &state.changes {
        LoadState::Idle => true,
        _ => false,
    };
    let commits_idle = match &state.commits {
        LoadState::Idle => true,
        _ => false,
    };
    let code_idle = match &state.code_view.visible {
        LoadState::Idle => true,
        _ => false,
    };
    state.view = view;
    state.focus = FocusedPane::Primary;
    let lists = view == AppView::History || view == AppView::CommitDetails || view == AppView::Graph
        || view == AppView::GraphDetails;
    if view == AppView::Changes && changes_idle {
        state.request_changes()
    } else if lists && commits_idle {
        state.request_commits(false)
    } else if view == AppView::Code && code_idle {
        crate::app::code_view::request_tree(state)
    } else {
        Vec::new()
    }
}

/// The selected commit, if the history has loaded and a row is selected.
pub open spec fn selected_commit(s: AppState) -> Option<CommitSummary> {
    match (s.commits, s.commit_selection.index) {
        (LoadState::Ready(c), Some(i)) if i < c@.len() => Some(c@[i as int]),
        _ => None,
    }
}

fn selected_commit_index(state: &AppState) -> (r: Option<usize>)
    ensures
        r is Some <==> selected_commit(*state) is Some,
        r matches Some(i) ==> state.commits matches LoadState::Ready(c) && i < c@.len()
            && selected_commit(*state) == Some(c@[i as int]),
{
    match (&state.commits, state.commit_selection.index) {
        (LoadState::Ready(c), Some(i)) => if i < c.len() {
            Some(i)
        } else {
            None
        },
        _ => None,
    }
}

/// `t` is `s` showing the message of `commit`: unchanged when it is already
/// loaded, else requested (its scroll offset kept only for the same commit).
pub open spec fn message_requested(s: AppState, t: AppState, commit: Seq<char>, e: Seq<GitEffect>) -> bool {
    let same = s.message.commit matches Some(c) && c@ == commit;
    if same && s.message.content is Ready {
        t == s && e.len() == 0
    } else {
        let id = RequestId(s.next_request);
        &&& t == (AppState {
            message: MessageState {
                commit: t.message.commit,
                content: LoadState::Loading { request_id: id },
                scroll: if same { s.message.scroll } else { 0 },
            },
            next_request: next_id(s.next_request),
            ..s
        })
        &&& t.message.commit matches Some(c) && c@ == commit
        &&& e.len() == 1
        &&& e[0] matches GitEffect::LoadMessage { request_id, commit: c } && request_id == id && c@
            == commit
    }
}

/// Shows the message of `commit`.
pub fn request_message(state: &mut AppState, commit: ObjectId) -> (effects: Vec<GitEffect>)
    ensures
        message_requested(*old(state), *final(state), commit@, effects@),
{
    let same = match &state.message.commit {
        Some(c) => c.same_as(&commit),
        None => false,
    };
    let ready = match &state.message.content {
        LoadState::Ready(_) => true,
        _ => false,
    };
    if same && ready {
        return Vec::new();
    }
    if !same {
        state.message.scroll = 0;
    }
    let request_id = state.request_id();
    state.message.commit = Some(commit.duplicate());
    state.message.content = LoadState::Loading { request_id };
    vec![GitEffect::LoadMessage { request_id, commit }]
}

/// `target` compares the worktree version of `change` with the index.
pub open spec fn worktree_target(target: DiffTarget, change: WorktreeChange) -> bool {
    target matches DiffTarget::Worktree { path, untracked } && path@ == change.path@ && untracked
        == (change.kind == ChangeKind::Untracked)
}

/// `t` is `s` showing the diff of the selected worktree change, if any.
pub open spec fn change_diff_selected(s: AppState, t: AppState, e: Seq<GitEffect>) -> bool {
    match (s.changes, s.change_selection.index) {
        (LoadState::Ready(c), Some(i)) if i < c@.len() => exists|target: DiffTarget|
            #[trigger] worktree_target(target, c@[i as int]) && diff_requested(s, t, target, e),
        _ => t == s && e.len() == 0,
    }
}

/// Shows the diff of the selected worktree change.
pub fn selected_change_diff(state: &mut AppState) -> (effects: Vec<GitEffect>)
    requires
        old(state).wf(),
    ensures
        final(state).wf(),
        change_diff_selected(*old(state), *final(state), effects@),
{
    let target = match (&state.changes, state.change_selection.index) {
        (LoadState::Ready(changes), Some(i)) => if i < changes.len() {
            Some(
                DiffTarget::Worktree {
                    path: changes[i].path.duplicate(),
                    untracked: changes[i].kind == ChangeKind::Untracked,
                },
            )
        } else {
            None
        },
        _ => None,
    };
    match target {
        Some(target) => {
            let ghost g = target;
            proof {
                let c = old(state).changes->Ready_0@[old(state).change_selection.index->0 as int];
                assert(worktree_target(g, c));
            }
            state.request_diff(target)
        },
        None => Vec::new(),
    }
}

/// `t` is `s` loading the root of `c`'s tree, forgetting cached directories.
pub open spec fn tree_reset(s: AppState, t: AppState, c: CommitSummary, e: Seq<GitEffect>) -> bool {
    let id = RequestId(s.next_request);
    &&& t == (AppState {
        tree: TreeState {
            commit: t.tree.commit,
            visible: LoadState::Loading { request_id: id },
            selection: Selection { index: None },
            children: t.tree.children,
            pending: Some(id),
        },
        next_request: next_id(s.next_request),
        ..s
    })
    &&& t.tree.commit matches Some(x) && x@ == c.id@
    &&& t.tree.children@.len() == 0
    &&& e.len() == 1
    &&& e[0] matches GitEffect::LoadTree { request_id, commit, treeish, parent: None } && request_id
        == id && commit@ == c.id@ && treeish@ == c.id@
}

fn reset_and_load_tree(state: &mut AppState, commit: &ObjectId) -> (effects: Vec<GitEffect>)
    ensures
        forall|c: CommitSummary| c.id@ == commit@ ==> tree_reset(*old(state), *final(state), c, effects@),
{
    let request_id = state.request_id();
    state.tree.commit = Some(commit.duplicate());
    state.tree.visible = LoadState::Loading { request_id };
    state.tree.selection = Selection { index: None };
    state.tree.children = Vec::new();
    state.tree.pending = Some(request_id);
    vec![
        GitEffect::LoadTree {
            request_id,
            commit: commit.duplicate(),
            treeish: commit.duplicate(),
            parent: None,
        },
    ]
}

/// `t` is `s` showing the root of the selected commit's tree, loading it
/// unless it is already shown or loading.
pub open spec fn tree_ensured(s: AppState, t: AppState, e: Seq<GitEffect>) -> bool {
    match selected_commit(s) {
        None => t == s && e.len() == 0,
        Some(c) => if (s.tree.commit matches Some(x) && x@ == c.id@) && !(s.tree.visible is Idle) {
            t == s && e.len() == 0
        } else {
            tree_reset(s, t, c, e)
        },
    }
}

fn ensure_tree(state: &mut AppState) -> (effects: Vec<GitEffect>)
    ensures
        tree_ensured(*old(state), *final(state), effects@),
{
    let index = match selected_commit_index(state) {
        Some(i) => i,
        None => return Vec::new(),
    };
    let id = match &state.commits {
        LoadState::Ready(c) => c[index].id.duplicate(),
        _ => return Vec::new(),
    };
    let same = match &state.tree.commit {
        Some(x) => x.same_as(&id),
        None => false,
    };
    let idle = match &state.tree.visible {
        LoadState::Idle => true,
        _ => false,
    };
    if same && !idle {
        Vec::new()
    } else {
        reset_and_load_tree(state, &id)
    }
}

/// `t` is `s` after the selected commit changed: its changed files load, the
/// diff is cleared, and its tree (in the history tree panel) or message (in
/// the detail views) follows. Without a selected commit the file list is
/// empty.
pub open spec fn commit_context(s: AppState, t: AppState, e: Seq<GitEffect>) -> bool {
    match selected_commit(s) {
        None => {
            &&& t == (AppState {
                files: t.files,
                diff: DiffViewState { content: LoadState::Idle, ..s.diff },
                ..s
            })
            &&& t.files matches LoadState::Ready(f) && f@.len() == 0
            &&& e.len() == 0
        },
        Some(c) => {
            let id = RequestId(s.next_request);
            let m = AppState {
                files: LoadState::Loading { request_id: id },
                file_selection: Selection { index: None },
                diff: DiffViewState { target: None, content: LoadState::Idle, ..s.diff },
                next_request: next_id(s.next_request),
                ..s
            };
            &&& e.len() >= 1
            &&& e[0] matches GitEffect::LoadFiles { request_id, commit, baseline } && request_id
                == id && commit@ == c.id@ && baseline_key(baseline) == baseline_of(c)
            &&& if s.view == AppView::History && s.history_panel == HistoryPanel::Tree {
                tree_reset(m, t, c, e.drop_first())
            } else if s.view == AppView::CommitDetails || s.view == AppView::GraphDetails {
                message_requested(m, t, c.id@, e.drop_first())
            } else {
                t == m && e.len() == 1
            }
        },
    }
}

/// Loads the context of the selected commit.
pub fn selected_commit_context(state: &mut AppState) -> (effects: Vec<GitEffect>)
    ensures
        commit_context(*old(state), *final(state), effects@),
{
    let index = match selected_commit_index(state) {
        Some(i) => i,
        None => {
            state.files = LoadState::Ready(Vec::new());
            state.diff.content = LoadState::Idle;
            return Vec::new();
        },
    };
    let (id, baseline) = match &state.commits {
        LoadState::Ready(c) => (c[index].id.duplicate(), c[index].baseline()),
        _ => return Vec::new(),
    };
    let request_id = state.request_id();
    state.files = LoadState::Loading { request_id };
    state.file_selection = Selection { index: None };
    state.diff.target = None;
    state.diff.content = LoadState::Idle;
    let mut effects: Vec<GitEffect> = Vec::new();
    effects.push(GitEffect::LoadFiles { request_id, commit: id.duplicate(), baseline });
    let ghost first = effects@;
    if state.view == AppView::History && state.history_panel == HistoryPanel::Tree {
        let mut more = reset_and_load_tree(state, &id);
        let ghost rest = more@;
        effects.append(&mut more);
        proof {
            assert(effects@.drop_first() =~= rest);
        }
    } else if state.view == AppView::CommitDetails || state.view == AppView::GraphDetails {
        let mut more = request_message(state, id);
        let ghost rest = more@;
        effects.append(&mut more);
        proof {
            assert(effects@.drop_first() =~= rest);
        }
    }
    effects
}

/// `t` is `s` showing the diff of the selected changed file of the selected
/// commit, if both are selected.
pub open spec fn file_diff_selected(s: AppState, t: AppState, e: Seq<GitEffect>) -> bool {
    match (s.files, s.file_selection.index, selected_commit(s)) {
        (LoadState::Ready(f), Some(i), Some(c)) if i < f@.len() => exists|target: DiffTarget|
            #[trigger] commit_target(target, c, f@[i as int].path@) && diff_requested(s, t, target, e),
        _ => t == s && e.len() == 0,
    }
}

/// Shows the diff of the selected changed file.
pub fn selected_file_diff(state: &mut AppState) -> (effects: Vec<GitEffect>)
    requires
        old(state).wf(),
    ensures
        final(state).wf(),
        file_diff_selected(*old(state), *final(state), effects@),
{
    let path = match (&state.files, state.file_selection.index) {
        (LoadState::Ready(files), Some(i)) => if i < files.len() {
            Some(files[i].path.duplicate())
        } else {
            None
        },
        _ => None,
    };
    let index = selected_commit_index(state);
    match (path, index) {
        (Some(path), Some(index)) => {
            let target = match &state.commits {
                LoadState::Ready(c) => DiffTarget::Commit {
                    commit: c[index].id.duplicate(),
                    baseline: c[index].baseline(),
                    path,
                },
                _ => return Vec::new(),
            };
            let ghost g = target;
            proof {
                let c = selected_commit(*old(state))->0;
                let f = old(state).files->Ready_0@[old(state).file_selection.index->0 as int];
                assert(commit_target(g, c, f.path@));
            }
            state.request_diff(target)
        },
        _ => Vec::new(),
    }
}

/// `t` is `s` requesting the next history page when the last loaded commit
/// is selected in a history view's list and more history may follow.
pub open spec fn more_loaded(s: AppState, t: AppState, e: Seq<GitEffect>) -> bool {
    let at_end = s.commits matches LoadState::Ready(c) && s.commit_selection.index == (if c@.len()
        > 0 {
        Some((c@.len() - 1) as usize)
    } else {
        None
    });
    if lists_commits(s.view) && s.focus == FocusedPane::Primary && s.history_page.has_more
        && s.history_page.loading_more is None && at_end {
        commits_requested(s, t, true, e)
    } else {
        t == s && e.len() == 0
    }
}

/// Requests the next history page when the end of the list is selected.
pub fn maybe_load_more(state: &mut AppState) -> (effects: Vec<GitEffect>)
    ensures
        more_loaded(*old(state), *final(state), effects@),
{
    let lists = state.view == AppView::History || state.view == AppView::CommitDetails
        || state.view == AppView::Graph || state.view == AppView::GraphDetails;
    if !lists || state.focus != FocusedPane::Primary || !state.history_page.has_more
        || state.history_page.loading_more.is_some() {
        return Vec::new();
    }
    let at_end = match &state.commits {
        LoadState::Ready(c) => {
            let last = if c.len() > 0 {
                Some(c.len() - 1)
            } else {
                None
            };
            state.commit_selection.index == last
        },
        _ => false,
    };
    if at_end {
        state.request_commits(true)
    } else {
        Vec::new()
    }
}

/// `t` is `s` after the commit context loaded, then the next page if due.
pub open spec fn context_then_more(s: AppState, t: AppState, e: Seq<GitEffect>) -> bool {
    exists|m: AppState, first: Seq<GitEffect>|
        #[trigger] commit_context(s, m, first) && more_loaded(m, t, e.skip(first.len() as int))
            && e.take(first.len() as int) == first
}

fn commit_context_then_more(state: &mut AppState) -> (effects: Vec<GitEffect>)
    ensures
        context_then_more(*old(state), *final(state), effects@),
{
    let mut effects = selected_commit_context(state);
    let ghost m = *state;
    let ghost first = effects@;
    let mut more = maybe_load_more(state);
    let ghost rest = more@;
    effects.append(&mut more);
    proof {
        assert(commit_context(*old(state), m, first));
        assert(effects@.skip(first.len() as int) =~= rest);
        assert(effects@.take(first.len() as int) =~= first);
    }
    effects
}

/// The length of a loaded list.
pub open spec fn list_len<T>(c: LoadState<Vec<T>>) -> Option<usize> {
    match c {
        LoadState::Ready(v) => Some(v@.len() as usize),
        _ => None,
    }
}

/// `t` is `s` with the changed-file selection at `index`, showing the newly
/// selected file's diff when it changed.
pub open spec fn file_row_selected(s: AppState, t: AppState, index: Option<usize>, e: Seq<GitEffect>) -> bool {
    let m = AppState { file_selection: Selection { index }, ..s };
    if index != s.file_selection.index {
        file_diff_selected(m, t, e)
    } else {
        t == m && e.len() == 0
    }
}

/// `t` is `s` with the worktree-change selection at `index`, showing the
/// newly selected change's diff when it changed.
pub open spec fn change_row_selected(s: AppState, t: AppState, index: Option<usize>, e: Seq<GitEffect>) -> bool {
    let m = AppState { change_selection: Selection { index }, ..s };
    if index != s.change_selection.index {
        change_diff_selected(m, t, e)
    } else {
        t == m && e.len() == 0
    }
}

/// `t` is `s` with the commit selection at `index`: a new selection loads
/// its context; either way the next page follows when the end is reached.
pub open spec fn commit_row_selected(s: AppState, t: AppState, index: Option<usize>, e: Seq<GitEffect>) -> bool {
    let m = AppState { commit_selection: Selection { index }, ..s };
    if index != s.commit_selection.index {
        context_then_more(m, t, e)
    } else {
        more_loaded(m, t, e)
    }
}

/// `t` is `s` with the file-history selection at `index`, showing the newly
/// selected commit's diff of the file when it changed.
pub open spec fn history_row_selected(s: AppState, t: AppState, index: Option<usize>, e: Seq<GitEffect>) -> bool {
    let m = AppState {
        file_view: crate::app::model::FileViewState {
            selection: Selection { index },
            ..s.file_view
        },
        ..s
    };
    if index != s.file_view.selection.index {
        file_history_diff_selected(m, t, e)
    } else {
        t == m && e.len() == 0
    }
}

/// `t` is `s` with the commit-tree selection at `index`.
pub open spec fn tree_row_selected(s: AppState, t: AppState, index: Option<usize>, e: Seq<GitEffect>) -> bool {
    t == (AppState { tree: TreeState { selection: Selection { index }, ..s.tree }, ..s }) && e.len()
        == 0
}

/// `t` is `s` after a vertical move by `delta` in the focused pane: the
/// document panes scroll, the lists move their selection and show what is
/// newly selected.
pub open spec fn selection_moved(s: AppState, t: AppState, delta: isize, e: Seq<GitEffect>) -> bool {
    if s.view == AppView::Code {
        if s.focus == FocusedPane::Diff {
            code_scrolled(s, t, content_moved(s.code_view.content, s.code_view.vertical, delta))
                && e.len() == 0
        } else {
            code_selection_moved(s, t, delta, e)
        }
    } else if s.view == AppView::FileHistory && s.focus == FocusedPane::Diff {
        e.len() == 0 && if s.file_view.showing_history_diff {
            diff_scrolled(s, t, diff_moved(s.diff.content, s.diff.vertical, delta))
        } else {
            file_scrolled(
                s,
                t,
                at_most(step(s.file_view.vertical, delta), file_last(s.file_view.content)),
            )
        }
    } else if s.view != AppView::CommitDetails && s.focus == FocusedPane::Diff {
        diff_scrolled(s, t, diff_moved(s.diff.content, s.diff.vertical, delta)) && e.len() == 0
    } else if s.view == AppView::Changes && s.focus == FocusedPane::Primary {
        match list_len(s.changes) {
            Some(n) => change_row_selected(s, t, moved(s.change_selection.index, delta, n), e),
            None => t == s && e.len() == 0,
        }
    } else if (s.view == AppView::History || s.view == AppView::CommitDetails || s.view
        == AppView::Graph) && s.focus == FocusedPane::Primary {
        match list_len(s.commits) {
            Some(n) => commit_row_selected(s, t, moved(s.commit_selection.index, delta, n), e),
            None => more_loaded(s, t, e),
        }
    } else if (s.view == AppView::History && s.focus == FocusedPane::Secondary && s.history_panel
        == HistoryPanel::ChangedFiles) || (s.view == AppView::CommitDetails && s.focus
        == FocusedPane::Diff) || (s.view == AppView::GraphDetails && s.focus
        == FocusedPane::Secondary) {
        match list_len(s.files) {
            Some(n) => file_row_selected(s, t, moved(s.file_selection.index, delta, n), e),
            None => t == s && e.len() == 0,
        }
    } else if s.view == AppView::History && s.focus == FocusedPane::Secondary {
        match list_len(s.tree.visible) {
            Some(n) => tree_row_selected(s, t, moved(s.tree.selection.index, delta, n), e),
            None => t == s && e.len() == 0,
        }
    } else if s.view == AppView::CommitDetails && s.focus == FocusedPane::Secondary {
        message_scrolled(s, t, message_moved(s, delta, false)) && e.len() == 0
    } else if s.view == AppView::FileHistory && s.focus == FocusedPane::Primary {
        match list_len(s.file_view.commits) {
            Some(n) => history_row_selected(s, t, moved(s.file_view.selection.index, delta, n), e),
            None => t == s && e.len() == 0,
        }
    } else {
        t == s && e.len() == 0
    }
}

fn move_files(state: &mut AppState, delta: isize) -> (effects: Vec<GitEffect>)
    requires
        old(state).wf(),
    ensures
        final(state).wf(),
        match list_len(old(state).files) {
            Some(n) => file_row_selected(*old(state), *final(state), moved(old(state).file_selection.index, delta, n), effects@),
            None => *final(state) == *old(state) && effects@.len() == 0,
        },
{
    let changed = match &state.files {
        LoadState::Ready(items) => {
            let n = items.len();
            state.file_selection.move_by(delta, n)
        },
        _ => false,
    };
    if changed {
        selected_file_diff(state)
    } else {
        Vec::new()
    }
}

/// Moves the focused selection or document by `delta`.
pub fn move_selection(state: &mut AppState, delta: isize) -> (effects: Vec<GitEffect>)
    requires
        old(state).wf(),
    ensures
        old(state).next_request <= final(state).next_request,
        final(state).wf(),
        selection_moved(*old(state), *final(state), delta, effects@),
{
    if state.view == AppView::Code {
        return if state.focus == FocusedPane::Diff {
            crate::app::code_view::move_content_cursor(state, delta);
            Vec::new()
        } else {
            crate::app::code_view::move_selection(state, delta)
        };
    }
    if state.view == AppView::FileHistory && state.focus == FocusedPane::Diff {
        if state.file_view.showing_history_diff {
            move_diff_cursor(state, delta);
        } else {
            crate::app::repository_search::move_file_content_cursor(state, delta);
        }
        return Vec::new();
    }
    if state.view != AppView::CommitDetails && state.focus == FocusedPane::Diff {
        move_diff_cursor(state, delta);
        return Vec::new();
    }
    if state.view == AppView::Changes && state.focus == FocusedPane::Primary {
        let changed = match &state.changes {
            LoadState::Ready(items) => {
                let n = items.len();
                state.change_selection.move_by(delta, n)
            },
            _ => false,
        };
        return if changed {
            selected_change_diff(state)
        } else {
            Vec::new()
        };
    }
    if (state.view == AppView::History || state.view == AppView::CommitDetails || state.view
        == AppView::Graph) && state.focus == FocusedPane::Primary {
        let changed = match &state.commits {
            LoadState::Ready(items) => {
                let n = items.len();
                state.commit_selection.move_by(delta, n)
            },
            _ => false,
        };
        return if changed {
            commit_context_then_more(state)
        } else {
            maybe_load_more(state)
        };
    }
    if (state.view == AppView::History && state.focus == FocusedPane::Secondary
        && state.history_panel == HistoryPanel::ChangedFiles) || (state.view
        == AppView::CommitDetails && state.focus == FocusedPane::Diff) || (state.view
        == AppView::GraphDetails && state.focus == FocusedPane::Secondary) {
        return move_files(state, delta);
    }
    if state.view == AppView::History && state.focus == FocusedPane::Secondary {
        match &state.tree.visible {
            LoadState::Ready(items) => {
                let n = items.len();
                let _ = state.tree.selection.move_by(delta, n);
            },
            _ => {},
        }
        return Vec::new();
    }
    if state.view == AppView::CommitDetails && state.focus == FocusedPane::Secondary {
        move_message_cursor(state, delta);
        return Vec::new();
    }
    if state.view == AppView::FileHistory && state.focus == FocusedPane::Primary {
        let changed = match &state.file_view.commits {
            LoadState::Ready(items) => {
                let n = items.len();
                state.file_view.selection.move_by(delta, n)
            },
            _ => false,
        };
        return if changed {
            crate::app::repository_search::selected_file_history_diff(state)
        } else {
            Vec::new()
        };
    }
    Vec::new()
}

/// The first or last row of a list of `n` rows.
pub open spec fn edge_index(n: usize, bottom: bool) -> Option<usize> {
    if bottom {
        if n > 0 {
            Some((n - 1) as usize)
        } else {
            None
        }
    } else {
        first_row(n)
    }
}

/// `t` is `s` after moving to the first or last line or row of the focused
/// pane. A list whose selection did not change may request the next page.
pub open spec fn edge_moved(s: AppState, t: AppState, bottom: bool, e: Seq<GitEffect>) -> bool {
    if s.view == AppView::Code {
        if s.focus == FocusedPane::Diff {
            code_scrolled(s, t, if bottom { file_last(s.code_view.content) } else { 0 }) && e.len()
                == 0
        } else {
            code_edge_selected(s, t, bottom, e)
        }
    } else if s.view == AppView::FileHistory && s.focus == FocusedPane::Diff {
        e.len() == 0 && if s.file_view.showing_history_diff {
            diff_scrolled(s, t, if bottom { diff_last(s.diff.content) } else { 0 })
        } else {
            file_scrolled(s, t, if bottom { file_last(s.file_view.content) } else { 0 })
        }
    } else if s.view != AppView::CommitDetails && s.focus == FocusedPane::Diff {
        diff_scrolled(s, t, if bottom { diff_last(s.diff.content) } else { 0 }) && e.len() == 0
    } else if s.view == AppView::CommitDetails && s.focus == FocusedPane::Secondary {
        message_scrolled(s, t, if bottom { message_last(s.message.content, false) } else { 0 })
            && e.len() == 0
    } else if s.view == AppView::Changes && s.focus == FocusedPane::Primary {
        match list_len(s.changes) {
            Some(n) if edge_index(n, bottom) != s.change_selection.index => change_row_selected(
                s,
                t,
                edge_index(n, bottom),
                e,
            ),
            _ => more_loaded(s, t, e),
        }
    } else if (s.view == AppView::History || s.view == AppView::CommitDetails || s.view
        == AppView::Graph) && s.focus == FocusedPane::Primary {
        match list_len(s.commits) {
            Some(n) if edge_index(n, bottom) != s.commit_selection.index => context_then_more(
                AppState { commit_selection: Selection { index: edge_index(n, bottom) }, ..s },
                t,
                e,
            ),
            _ => more_loaded(s, t, e),
        }
    } else if (s.view == AppView::History && s.focus == FocusedPane::Secondary && s.history_panel
        == HistoryPanel::ChangedFiles) || (s.view == AppView::CommitDetails && s.focus
        == FocusedPane::Diff) || (s.view == AppView::GraphDetails && s.focus
        == FocusedPane::Secondary) {
        match list_len(s.files) {
            Some(n) if edge_index(n, bottom) != s.file_selection.index => file_row_selected(
                s,
                t,
                edge_index(n, bottom),
                e,
            ),
            _ => more_loaded(s, t, e),
        }
    } else if s.view == AppView::History && s.focus == FocusedPane::Secondary {
        match list_len(s.tree.visible) {
            Some(n) if edge_index(n, bottom) != s.tree.selection.index => tree_row_selected(
                s,
                t,
                edge_index(n, bottom),
                e,
            ),
            _ => more_loaded(s, t, e),
        }
    } else if s.view == AppView::FileHistory && s.focus == FocusedPane::Primary {
        match list_len(s.file_view.commits) {
            Some(n) if edge_index(n, bottom) != s.file_view.selection.index => history_row_selected(
                s,
                t,
                edge_index(n, bottom),
                e,
            ),
            _ => more_loaded(s, t, e),
        }
    } else {
        more_loaded(s, t, e)
    }
}

/// Moves the focused pane to its first or last line or row.
pub fn move_to_edge(state: &mut AppState, bottom: bool) -> (effects: Vec<GitEffect>)
    requires
        old(state).wf(),
    ensures
        old(state).next_request <= final(state).next_request,
        final(state).wf(),
        edge_moved(*old(state), *final(state), bottom, effects@),
{
    if state.view == AppView::Code {
        return if state.focus == FocusedPane::Diff {
            state.code_view.vertical = if bottom {
                crate::app::code_view::last_line(state)
            } else {
                0
            };
            Vec::new()
        } else {
            crate::app::code_view::move_to_edge(state, bottom)
        };
    }
    if state.view == AppView::FileHistory && state.focus == FocusedPane::Diff {
        if state.file_view.showing_history_diff {
            state.diff.vertical = if bottom {
                diff_last_line(state)
            } else {
                0
            };
        } else {
            state.file_view.vertical = if bottom {
                crate::app::repository_search::file_content_last_line(state)
            } else {
                0
            };
        }
        return Vec::new();
    }
    if state.view != AppView::CommitDetails && state.focus == FocusedPane::Diff {
        state.diff.vertical = if bottom {
            diff_last_line(state)
        } else {
            0
        };
        return Vec::new();
    }
    if state.view == AppView::CommitDetails && state.focus == FocusedPane::Secondary {
        state.message.scroll = if bottom {
            message_last_line(state)
        } else {
            0
        };
        return Vec::new();
    }
    if state.view == AppView::Changes && state.focus == FocusedPane::Primary {
        let moved = match &state.changes {
            LoadState::Ready(items) => {
                let n = items.len();
                edge(&mut state.change_selection, n, bottom)
            },
            _ => false,
        };
        return if moved {
            selected_change_diff(state)
        } else {
            maybe_load_more(state)
        };
    }
    if (state.view == AppView::History || state.view == AppView::CommitDetails || state.view
        == AppView::Graph) && state.focus == FocusedPane::Primary {
        let moved = match &state.commits {
            LoadState::Ready(items) => {
                let n = items.len();
                edge(&mut state.commit_selection, n, bottom)
            },
            _ => false,
        };
        return if moved {
            commit_context_then_more(state)
        } else {
            maybe_load_more(state)
        };
    }
    if (state.view == AppView::History && state.focus == FocusedPane::Secondary
        && state.history_panel == HistoryPanel::ChangedFiles) || (state.view
        == AppView::CommitDetails && state.focus == FocusedPane::Diff) || (state.view
        == AppView::GraphDetails && state.focus == FocusedPane::Secondary) {
        let moved = match &state.files {
            LoadState::Ready(items) => {
                let n = items.len();
                edge(&mut state.file_selection, n, bottom)
            },
            _ => false,
        };
        return if moved {
            selected_file_diff(state)
        } else {
            maybe_load_more(state)
        };
    }
    if state.view == AppView::History && state.focus == FocusedPane::Secondary {
        let moved = match &state.tree.visible {
            LoadState::Ready(items) => {
                let n = items.len();
                edge(&mut state.tree.selection, n, bottom)
            },
            _ => false,
        };
        return if moved {
            Vec::new()
        } else {
            maybe_load_more(state)
        };
    }
    if state.view == AppView::FileHistory && state.focus == FocusedPane::Primary {
        let moved = match &state.file_view.commits {
            LoadState::Ready(items) => {
                let n = items.len();
                edge(&mut state.file_view.selection, n, bottom)
            },
            _ => false,
        };
        return if moved {
            crate::app::repository_search::selected_file_history_diff(state)
        } else {
            maybe_load_more(state)
        };
    }
    maybe_load_more(state)
}

/// `t` is `s` after a half-page move by `delta` in the focused pane.
pub open spec fn half_paged(s: AppState, t: AppState, delta: isize, e: Seq<GitEffect>) -> bool {
    if s.view == AppView::Code && s.focus == FocusedPane::Diff {
        code_scrolled(s, t, content_moved(s.code_view.content, s.code_view.vertical, delta))
            && e.len() == 0
    } else if s.view == AppView::CommitDetails && s.focus == FocusedPane::Secondary {
        message_scrolled(s, t, message_moved(s, delta, false)) && e.len() == 0
    } else {
        selection_moved(s, t, delta, e)
    }
}

/// Moves the focused pane by half a page.
pub fn move_half_page(state: &mut AppState, delta: isize) -> (effects: Vec<GitEffect>)
    requires
        old(state).wf(),
    ensures
        old(state).next_request <= final(state).next_request,
        final(state).wf(),
        half_paged(*old(state), *final(state), delta, effects@),
{
    if state.view == AppView::Code && state.focus == FocusedPane::Diff {
        crate::app::code_view::move_content_cursor(state, delta);
        Vec::new()
    } else if state.view == AppView::CommitDetails && state.focus == FocusedPane::Secondary {
        move_message_cursor(state, delta);
        Vec::new()
    } else {
        move_selection(state, delta)
    }
}

/// `t` is `s` scrolled horizontally by `delta` columns: the code file, the
/// file view's content, or else the diff.
pub open spec fn scrolled_sideways(s: AppState, t: AppState, delta: isize) -> bool {
    if s.view == AppView::Code {
        t == (AppState {
            code_view: crate::app::model::CodeViewState {
                horizontal: step(s.code_view.horizontal, delta),
                ..s.code_view
            },
            ..s
        })
    } else if s.view == AppView::FileHistory && !s.file_view.showing_history_diff {
        t == (AppState {
            file_view: crate::app::model::FileViewState {
                horizontal: step(s.file_view.horizontal, delta),
                ..s.file_view
            },
            ..s
        })
    } else {
        t == (AppState {
            diff: DiffViewState { horizontal: step(s.diff.horizontal, delta), ..s.diff },
            ..s
        })
    }
}

fn scroll_sideways(state: &mut AppState, delta: isize)
    ensures
        scrolled_sideways(*old(state), *final(state), delta),
{
    if state.view == AppView::Code {
        state.code_view.horizontal = step_exec(state.code_view.horizontal, delta);
    } else if state.view == AppView::FileHistory && !state.file_view.showing_history_diff {
        state.file_view.horizontal = step_exec(state.file_view.horizontal, delta);
    } else {
        state.diff.horizontal = step_exec(state.diff.horizontal, delta);
    }
}

/// `t` is `s` reloading the data of its view. The selected change or commit
/// is remembered so that it stays selected once the data arrives; cached
/// diffs are dropped and the diff pane cleared.
pub open spec fn refreshed(s: AppState, t: AppState, e: Seq<GitEffect>) -> bool {
    if s.view == AppView::Code {
        tree_requested(s, t, e)
    } else if s.view == AppView::FileHistory {
        &&& t.diff_cache.entries@.len() == 0
        &&& match s.file_view.path {
            Some(p) => file_view_loaded(AppState { diff_cache: t.diff_cache, ..s }, t, p@, e),
            None => t == (AppState { diff_cache: t.diff_cache, ..s }) && e.len() == 0,
        }
    } else {
        let m = AppState {
            preferred_change: t.preferred_change,
            preferred_commit: t.preferred_commit,
            diff_cache: t.diff_cache,
            diff: DiffViewState {
                target: None,
                content: LoadState::Idle,
                vertical: 0,
                horizontal: 0,
            },
            ..s
        };
        &&& t.diff_cache.entries@.len() == 0
        &&& if s.view == AppView::Changes {
            &&& t.preferred_commit == s.preferred_commit
            &&& match (s.changes, s.change_selection.index) {
                (LoadState::Ready(c), Some(i)) if i < c@.len() => t.preferred_change matches Some(
                    p,
                ) && p@ == c@[i as int].path@,
                _ => t.preferred_change == s.preferred_change,
            }
            &&& changes_requested(m, t, e)
        } else {
            &&& t.preferred_change == s.preferred_change
            &&& match selected_commit(s) {
                Some(c) => t.preferred_commit matches Some(p) && p@ == c.id@,
                None => t.preferred_commit == s.preferred_commit,
            }
            &&& commits_requested(m, t, false, e)
        }
    }
}

/// Reloads the data of the current view.
pub fn refresh(state: &mut AppState) -> (effects: Vec<GitEffect>)
    requires
        old(state).wf(),
    ensures
        old(state).next_request <= final(state).next_request,
        final(state).wf(),
        refreshed(*old(state), *final(state), effects@),
{
    if state.view == AppView::Code {
        return crate::app::code_view::request_tree(state);
    }
    if state.view == AppView::FileHistory {
        state.clear_cache();
        let path = match &state.file_view.path {
            Some(p) => Some(p.duplicate()),
            None => None,
        };
        return match path {
            Some(p) => crate::app::repository_search::load_file_view(state, p),
            None => Vec::new(),
        };
    }
    if state.view == AppView::Changes {
        let preferred = match (&state.changes, state.change_selection.index) {
            (LoadState::Ready(c), Some(i)) => if i < c.len() {
                Some(c[i].path.duplicate())
            } else {
                None
            },
            _ => None,
        };
        if preferred.is_some() {
            state.preferred_change = preferred;
        }
    } else {
        let preferred = match selected_commit_index(state) {
            Some(i) => match &state.commits {
                LoadState::Ready(c) => Some(c[i].id.duplicate()),
                _ => None,
            },
            None => None,
        };
        if preferred.is_some() {
            state.preferred_commit = preferred;
        }
    }
    state.clear_cache();
    state.diff = DiffViewState { target: None, content: LoadState::Idle, vertical: 0, horizontal: 0 };
    if state.view == AppView::Changes {
        state.request_changes()
    } else {
        state.request_commits(false)
    }
}

/// `t` is `s` after switching between the history and commit-detail
/// layouts: back to the history (reloading its tree panel if shown), or to
/// the details of the selected commit with its message.
pub open spec fn details_toggled(s: AppState, t: AppState, e: Seq<GitEffect>) -> bool {
    if s.view == AppView::CommitDetails {
        let m = AppState { view: AppView::History, focus: FocusedPane::Primary, ..s };
        if s.history_panel == HistoryPanel::Tree {
            tree_ensured(m, t, e)
        } else {
            t == m && e.len() == 0
        }
    } else if s.view != AppView::History {
        t == s && e.len() == 0
    } else {
        match selected_commit(s) {
            None => t == s && e.len() == 0,
            Some(c) => message_requested(
                AppState {
                    view: AppView::CommitDetails,
                    focus: FocusedPane::Primary,
                    message: MessageState { scroll: 0, ..s.message },
                    ..s
                },
                t,
                c.id@,
                e,
            ),
        }
    }
}

/// Switches between the history and commit-detail layouts.
pub fn toggle_details(state: &mut AppState) -> (effects: Vec<GitEffect>)
    ensures
        old(state).next_request <= final(state).next_request,
        details_toggled(*old(state), *final(state), effects@),
{
    if state.view == AppView::CommitDetails {
        state.view = AppView::History;
        state.focus = FocusedPane::Primary;
        return if state.history_panel == HistoryPanel::Tree {
            ensure_tree(state)
        } else {
            Vec::new()
        };
    }
    if state.view != AppView::History {
        return Vec::new();
    }
    let id = match selected_commit_index(state) {
        Some(i) => match &state.commits {
            LoadState::Ready(c) => c[i].id.duplicate(),
            _ => return Vec::new(),
        },
        None => return Vec::new(),
    };
    state.view = AppView::CommitDetails;
    state.focus = FocusedPane::Primary;
    state.message.scroll = 0;
    request_message(state, id)
}

/// `t` is `s` showing the selected commit's full message over a history
/// view.
pub open spec fn message_toggled(s: AppState, t: AppState, e: Seq<GitEffect>) -> bool {
    if !lists_commits(s.view) {
        t == s && e.len() == 0
    } else {
        match selected_commit(s) {
            None => t == s && e.len() == 0,
            Some(c) => message_requested(
                AppState {
                    overlay: Overlay::CommitMessage,
                    message: MessageState { scroll: 0, ..s.message },
                    ..s
                },
                t,
                c.id@,
                e,
            ),
        }
    }
}

/// Opens the selected commit's full message.
pub fn toggle_message(state: &mut AppState) -> (effects: Vec<GitEffect>)
    ensures
        old(state).next_request <= final(state).next_request,
        message_toggled(*old(state), *final(state), effects@),
{
    let lists = state.view == AppView::History || state.view == AppView::CommitDetails
        || state.view == AppView::Graph || state.view == AppView::GraphDetails;
    if !lists {
        return Vec::new();
    }
    let id = match selected_commit_index(state) {
        Some(i) => match &state.commits {
            LoadState::Ready(c) => c[i].id.duplicate(),
            _ => return Vec::new(),
        },
        None => return Vec::new(),
    };
    state.message.scroll = 0;
    state.overlay = Overlay::CommitMessage;
    request_message(state, id)
}

/// `t` is `s` with the history's middle pane switched between changed files
/// and the commit tree, loading the tree when it is shown.
pub open spec fn tree_toggled(s: AppState, t: AppState, e: Seq<GitEffect>) -> bool {
    if s.view != AppView::History {
        t == s && e.len() == 0
    } else if s.history_panel == HistoryPanel::ChangedFiles {
        tree_ensured(AppState { history_panel: HistoryPanel::Tree, ..s }, t, e)
    } else {
        t == (AppState { history_panel: HistoryPanel::ChangedFiles, ..s }) && e.len() == 0
    }
}

/// Switches the history's middle pane.
pub fn toggle_tree(state: &mut AppState) -> (effects: Vec<GitEffect>)
    ensures
        old(state).next_request <= final(state).next_request,
        tree_toggled(*old(state), *final(state), effects@),
{
    if state.view != AppView::History {
        return Vec::new();
    }
    if state.history_panel == HistoryPanel::ChangedFiles {
        state.history_panel = HistoryPanel::Tree;
        ensure_tree(state)
    } else {
        state.history_panel = HistoryPanel::ChangedFiles;
        Vec::new()
    }
}

/// `t` is `s` showing its diff full screen, when a diff was requested.
pub open spec fn diff_overlay_opened(s: AppState, t: AppState) -> bool {
    if s.diff.target is Some {
        t == (AppState { search: t.search, overlay: Overlay::Diff, ..s })
            && crate::app::search::cleared(s.search, t.search)
    } else {
        t == s
    }
}

/// Shows the diff full screen, when a diff was requested.
pub fn open_diff_overlay(state: &mut AppState)
    ensures
        diff_overlay_opened(*old(state), *final(state)),
{
    if state.diff.target.is_some() {
        state.search.clear();
        state.overlay = Overlay::Diff;
    }
}

/// The first cached child list of the tree object `id`.
pub open spec fn cached_children(c: Seq<(ObjectId, Vec<TreeEntry>)>, id: Seq<char>) -> Option<int> {
    if exists|k: int| 0 <= k < c.len() && (#[trigger] c[k]).0@ == id {
        Some(
            choose|k: int|
                0 <= k < c.len() && (#[trigger] c[k]).0@ == id && forall|j: int|
                    0 <= j < k ==> (#[trigger] c[j]).0@ != id,
        )
    } else {
        None
    }
}

fn find_cached(c: &Vec<(ObjectId, Vec<TreeEntry>)>, id: &ObjectId) -> (r: Option<usize>)
    ensures
        r == (match cached_children(c@, id@) {
            Some(k) => Some(k as usize),
            None => None,
        }),
        r matches Some(i) ==> i < c@.len() && c@[i as int].0@ == id@ && cached_children(c@, id@)
            == Some(i as int),
{
    let mut i: usize = 0;
    while i < c.len()
        invariant
            i <= c@.len(),
            forall|j: int| 0 <= j < i ==> (#[trigger] c@[j]).0@ != id@,
        decreases c@.len() - i,
    {
        if c[i].0.same_as(id) {
            proof {
                let k = choose|k: int|
                    0 <= k < c@.len() && (#[trigger] c@[k]).0@ == id@ && forall|j: int|
                        0 <= j < k ==> (#[trigger] c@[j]).0@ != id@;
                assert(c@[i as int].0@ == id@);
                if k < i {
                    assert(c@[k].0@ != id@);
                }
                if k > i {
                    assert(c@[i as int].0@ != id@);
                }
            }
            return Some(i);
        }
        i = i + 1;
    }
    None
}

/// `rows` are the collapsed rows of `children` below the row `parent`.
pub open spec fn child_rows(parent: VisibleTreeEntry, children: Seq<TreeEntry>, rows: Seq<VisibleTreeEntry>) -> bool {
    &&& rows.len() == children.len()
    &&& forall|k: int|
        0 <= k < rows.len() ==> {
            let r = #[trigger] rows[k];
            &&& same_entry(r.entry, children[k])
            &&& r.path@ == joined_view(Some(parent.path@), children[k].name@)
            &&& r.depth == step(parent.depth, 1)
            &&& !r.expanded
        }
}

/// `t` is `s` with `children` listed below the expanded row `i`.
pub open spec fn children_inserted(
    s: AppState,
    t: AppState,
    i: int,
    parent: VisibleTreeEntry,
    children: Seq<TreeEntry>,
) -> bool {
    match s.tree.visible {
        LoadState::Ready(v) if 0 <= i < v@.len() => exists|rows: Seq<VisibleTreeEntry>|
            #[trigger] child_rows(parent, children, rows) && (t.tree.visible matches LoadState::Ready(
                nv,
            ) && nv@ == v@.subrange(0, i).push(VisibleTreeEntry { expanded: true, ..v@[i] }) + rows
                + v@.subrange(i + 1, v@.len() as int)) && t == (AppState {
                tree: TreeState { visible: t.tree.visible, ..s.tree },
                ..s
            }),
        _ => t == s,
    }
}

proof fn lemma_children_inserted_same(
    s: AppState,
    t: AppState,
    i: int,
    p1: VisibleTreeEntry,
    c1: Seq<TreeEntry>,
    p2: VisibleTreeEntry,
    c2: Seq<TreeEntry>,
)
    requires
        children_inserted(s, t, i, p1, c1),
        same_row(p1, p2),
        c1.len() == c2.len(),
        forall|x: int| 0 <= x < c1.len() ==> same_entry(#[trigger] c1[x], c2[x]),
    ensures
        children_inserted(s, t, i, p2, c2),
{
    match s.tree.visible {
        LoadState::Ready(v) => {
            if 0 <= i < v@.len() {
                let rows = choose|rows: Seq<VisibleTreeEntry>|
                    #[trigger] child_rows(p1, c1, rows) && (t.tree.visible matches LoadState::Ready(
                        nv,
                    ) && nv@ == v@.subrange(0, i).push(VisibleTreeEntry { expanded: true, ..v@[i] })
                        + rows + v@.subrange(i + 1, v@.len() as int)) && t == (AppState {
                        tree: TreeState { visible: t.tree.visible, ..s.tree },
                        ..s
                    });
                assert forall|k: int| 0 <= k < rows.len() implies {
                    let r = #[trigger] rows[k];
                    &&& same_entry(r.entry, c2[k])
                    &&& r.path@ == joined_view(Some(p2.path@), c2[k].name@)
                    &&& r.depth == step(p2.depth, 1)
                    &&& !r.expanded
                } by {
                    assert(same_entry(c1[k], c2[k]));
                }
                assert(child_rows(p2, c2, rows));
            }
        },
        _ => {},
    }
}

fn rows_below(parent: &VisibleTreeEntry, children: &Vec<TreeEntry>) -> (rows: Vec<VisibleTreeEntry>)
    ensures
        child_rows(*parent, children@, rows@),
{
    let mut rows: Vec<VisibleTreeEntry> = Vec::new();
    let depth = step_exec(parent.depth, 1);
    let mut k: usize = 0;
    while k < children.len()
        invariant
            k <= children@.len(),
            rows@.len() == k,
            depth == step(parent.depth, 1),
            forall|j: int|
                0 <= j < k ==> {
                    let r = #[trigger] rows@[j];
                    &&& same_entry(r.entry, children@[j])
                    &&& r.path@ == joined_view(Some(parent.path@), children@[j].name@)
                    &&& r.depth == step(parent.depth, 1)
                    &&& !r.expanded
                },
        decreases children@.len() - k,
    {
        let entry = children[k].duplicate();
        let path = parent.path.join(&children[k].name);
        rows.push(VisibleTreeEntry { entry, path, depth, expanded: false });
        k = k + 1;
    }
    rows
}

fn insert_children(state: &mut AppState, index: usize, parent: &VisibleTreeEntry, children: &Vec<TreeEntry>)
    ensures
        children_inserted(*old(state), *final(state), index as int, *parent, children@),
{
    let len = match &state.tree.visible {
        LoadState::Ready(v) => v.len(),
        _ => return ,
    };
    if index >= len {
        return ;
    }
    let mut added = rows_below(parent, children);
    let ghost rows = added@;
    let mut taken: LoadState<Vec<VisibleTreeEntry>> = LoadState::Idle;
    std::mem::swap(&mut state.tree.visible, &mut taken);
    let mut v = match taken {
        LoadState::Ready(v) => v,
        _ => Vec::new(),
    };
    let ghost old_v = v@;
    let mut tail = v.split_off(index + 1);
    let mut entry = v.pop().unwrap();
    entry.expanded = true;
    v.push(entry);
    v.append(&mut added);
    v.append(&mut tail);
    proof {
        assert(v@ =~= old_v.subrange(0, index as int).push(
            VisibleTreeEntry { expanded: true, ..old_v[index as int] },
        ) + rows + old_v.subrange(index + 1, old_v.len() as int));
        assert(child_rows(*parent, children@, rows));
    }
    state.tree.visible = LoadState::Ready(v);
}

/// The end of the subtree of row `i`: the first later row at its depth or
/// shallower, or the end.
pub open spec fn tree_subtree_end(rows: Seq<VisibleTreeEntry>, i: int, j: int) -> int
    decreases rows.len() - j,
{
    if j >= rows.len() || j < 0 {
        rows.len() as int
    } else if rows[j].depth <= rows[i].depth {
        j
    } else {
        tree_subtree_end(rows, i, j + 1)
    }
}

/// `t` is `s` with row `i` collapsed: its subtree's rows removed and the
/// selection kept inside the list.
pub open spec fn tree_collapsed(s: AppState, t: AppState, i: int) -> bool {
    match s.tree.visible {
        LoadState::Ready(v) if 0 <= i < v@.len() => {
            let end = tree_subtree_end(v@, i, i + 1);
            let n = i + 1 + (v@.len() - end);
            exists|nv: Vec<VisibleTreeEntry>|
                nv@ == v@.subrange(0, i).push(VisibleTreeEntry { expanded: false, ..v@[i] })
                    + v@.subrange(end, v@.len() as int) && t == (AppState {
                    tree: TreeState {
                        visible: LoadState::Ready(nv),
                        selection: Selection {
                            index: match s.tree.selection.index {
                                Some(k) => Some(if k < n { k } else { (n - 1) as usize }),
                                None => Some(0),
                            },
                        },
                        ..s.tree
                    },
                    ..s
                })
        },
        _ => t == s,
    }
}

proof fn lemma_tree_subtree_end_range(rows: Seq<VisibleTreeEntry>, i: int, j: int)
    requires
        0 <= j <= rows.len(),
    ensures
        j <= tree_subtree_end(rows, i, j) <= rows.len(),
    decreases rows.len() - j,
{
    if j < rows.len() && rows[j].depth > rows[i].depth {
        lemma_tree_subtree_end_range(rows, i, j + 1);
    }
}

fn collapse_tree(state: &mut AppState, index: usize)
    ensures
        tree_collapsed(*old(state), *final(state), index as int),
{
    let end = match &state.tree.visible {
        LoadState::Ready(rows) => {
            if index >= rows.len() {
                return ;
            }
            let depth = rows[index].depth;
            let mut j = index + 1;
            proof {
                lemma_tree_subtree_end_range(rows@, index as int, j as int);
            }
            while j < rows.len() && rows[j].depth > depth
                invariant
                    index < j <= rows@.len(),
                    depth == rows@[index as int].depth,
                    tree_subtree_end(rows@, index as int, j as int) == tree_subtree_end(
                        rows@,
                        index as int,
                        index + 1,
                    ),
                decreases rows@.len() - j,
            {
                j = j + 1;
            }
            j
        },
        _ => return ,
    };
    let mut taken: LoadState<Vec<VisibleTreeEntry>> = LoadState::Idle;
    std::mem::swap(&mut state.tree.visible, &mut taken);
    let mut rows = match taken {
        LoadState::Ready(rows) => rows,
        _ => Vec::new(),
    };
    let ghost old_rows = rows@;
    let mut rest = rows.split_off(end);
    let _dropped = rows.split_off(index + 1);
    let mut entry = rows.pop().unwrap();
    entry.expanded = false;
    rows.push(entry);
    rows.append(&mut rest);
    let n = rows.len();
    state.tree.visible = LoadState::Ready(rows);
    state.tree.selection.clamp(n);
    proof {
        assert(rows@ =~= old_rows.subrange(0, index as int).push(
            VisibleTreeEntry { expanded: false, ..old_rows[index as int] },
        ) + old_rows.subrange(end as int, old_rows.len() as int));
    }
}

/// `t` is `s` after activating the selected row of the commit tree: a file
/// opens its diff full screen; an expanded directory collapses; a directory
/// whose children are cached expands at once; any other directory requests
/// its children.
pub open spec fn tree_activated(s: AppState, t: AppState, e: Seq<GitEffect>) -> bool {
    if s.view != AppView::History || s.history_panel != HistoryPanel::Tree || s.focus
        != FocusedPane::Secondary {
        t == s && e.len() == 0
    } else {
        match (s.tree.visible, s.tree.selection.index) {
            (LoadState::Ready(v), Some(i)) if i < v@.len() => {
                let r = v@[i as int];
                if r.entry.kind != TreeKind::Directory {
                    match selected_commit(s) {
                        None => t == s && e.len() == 0,
                        Some(c) => exists|target: DiffTarget, m: AppState|
                            commit_target(target, c, r.path@) && #[trigger] diff_requested(
                                s,
                                m,
                                target,
                                e,
                            ) && diff_overlay_opened(m, t),
                    }
                } else if r.expanded {
                    tree_collapsed(s, t, i as int) && e.len() == 0
                } else {
                    match cached_children(s.tree.children@, r.entry.object_id@) {
                        Some(k) => children_inserted(s, t, i as int, r, s.tree.children@[k].1@)
                            && e.len() == 0,
                        None => match selected_commit(s) {
                            None => t == s && e.len() == 0,
                            Some(c) => {
                                let id = RequestId(s.next_request);
                                &&& t == (AppState {
                                    tree: TreeState { pending: Some(id), ..s.tree },
                                    next_request: next_id(s.next_request),
                                    ..s
                                })
                                &&& e.len() == 1
                                &&& e[0] matches GitEffect::LoadTree {
                                    request_id,
                                    commit,
                                    treeish,
                                    parent: Some(p),
                                } && request_id == id && commit@ == c.id@ && treeish@
                                    == r.entry.object_id@ && same_row(p, r)
                            },
                        },
                    }
                }
            },
            _ => t == s && e.len() == 0,
        }
    }
}

/// Activates the selected row of the commit tree.
#[verifier::rlimit(60)]
#[verifier::spinoff_prover]
pub fn activate_tree(state: &mut AppState) -> (effects: Vec<GitEffect>)
    requires
        old(state).wf(),
    ensures
        final(state).wf(),
        tree_activated(*old(state), *final(state), effects@),
{
    if state.view != AppView::History || state.history_panel != HistoryPanel::Tree || state.focus
        != FocusedPane::Secondary {
        return Vec::new();
    }
    let index = match state.tree.selection.index {
        Some(i) => i,
        None => return Vec::new(),
    };
    let selected = match &state.tree.visible {
        LoadState::Ready(v) => if index < v.len() {
            Some(v[index].duplicate())
        } else {
            None
        },
        _ => None,
    };
    let selected = match selected {
        Some(r) => r,
        None => return Vec::new(),
    };
    let commit_index = selected_commit_index(state);
    if selected.entry.kind != TreeKind::Directory {
        let target = match (commit_index, &state.commits) {
            (Some(ci), LoadState::Ready(c)) => DiffTarget::Commit {
                commit: c[ci].id.duplicate(),
                baseline: c[ci].baseline(),
                path: selected.path.duplicate(),
            },
            _ => return Vec::new(),
        };
        let ghost g = target;
        let effects = state.request_diff(target);
        let ghost m = *state;
        open_diff_overlay(state);
        proof {
            let c = selected_commit(*old(state))->0;
            assert(commit_target(g, c, selected.path@));
            assert(diff_requested(*old(state), m, g, effects@));
        }
        return effects;
    }
    if selected.expanded {
        collapse_tree(state, index);
        return Vec::new();
    }
    let cached = find_cached(&state.tree.children, &selected.entry.object_id);
    proof {
        let r = old(state).tree.visible->Ready_0@[index as int];
        assert(*state == *old(state));
        assert(selected.entry.object_id@ == r.entry.object_id@);
        assert(cached == (match cached_children(old(state).tree.children@, r.entry.object_id@) {
            Some(k) => Some(k as usize),
            None => None,
        }));
    }
    match cached {
        Some(k) => {
            let mut children: Vec<TreeEntry> = Vec::new();
            let mut j: usize = 0;
            let ghost source = state.tree.children@[k as int].1@;
            while j < state.tree.children[k].1.len()
                invariant
                    *state == *old(state),
                    k < state.tree.children@.len(),
                    source == state.tree.children@[k as int].1@,
                    j <= source.len(),
                    children@.len() == j,
                    forall|x: int| 0 <= x < j ==> same_entry(#[trigger] children@[x], source[x]),
                decreases source.len() - j,
            {
                children.push(state.tree.children[k].1[j].duplicate());
                j = j + 1;
            }
            let ghost before = *state;
            insert_children(state, index, &selected, &children);
            proof {
                let r = old(state).tree.visible->Ready_0@[index as int];
                assert(before == *old(state));
                assert(same_row(selected, r));
                lemma_children_inserted_same(before, *state, index as int, selected, children@, r, source);
                assert(cached_children(old(state).tree.children@, r.entry.object_id@) == Some(k as int));
            }
            Vec::new()
        },
        None => {
            let commit = match (commit_index, &state.commits) {
                (Some(ci), LoadState::Ready(c)) => c[ci].id.duplicate(),
                _ => return Vec::new(),
            };
            let request_id = state.request_id();
            state.tree.pending = Some(request_id);
            let treeish = selected.entry.object_id.duplicate();
            vec![
                GitEffect::LoadTree { request_id, commit, treeish, parent: Some(selected) },
            ]
        },
    }
}

/// `t` is `s` after activating the focused item: in the code view, the tree
/// row or the open file; a history commit focuses its changed files; a graph
/// commit opens its details; a tree row or changed file or change opens its
/// diff full screen; the file view shows its diff or content full screen.
pub open spec fn activated(s: AppState, t: AppState, e: Seq<GitEffect>) -> bool {
    if s.view == AppView::Code {
        if s.focus == FocusedPane::Diff {
            content_opened(s, t) && e.len() == 0
        } else {
            code_tree_activated(s, t, e)
        }
    } else if s.view == AppView::History && s.focus == FocusedPane::Primary {
        t == (AppState {
            history_panel: HistoryPanel::ChangedFiles,
            focus: FocusedPane::Secondary,
            ..s
        }) && e.len() == 0
    } else if s.view == AppView::CommitDetails && s.focus == FocusedPane::Primary {
        t == (AppState { focus: FocusedPane::Diff, ..s }) && e.len() == 0
    } else if s.view == AppView::Graph && s.focus == FocusedPane::Primary {
        commit_context(
            AppState { view: AppView::GraphDetails, focus: FocusedPane::Secondary, ..s },
            t,
            e,
        )
    } else if s.view == AppView::History && s.focus == FocusedPane::Secondary && s.history_panel
        == HistoryPanel::Tree {
        tree_activated(s, t, e)
    } else if (s.view == AppView::Changes && s.focus != FocusedPane::Secondary) || (s.view
        == AppView::History && s.focus != FocusedPane::Primary) || (s.view
        == AppView::CommitDetails && s.focus == FocusedPane::Diff) || (s.view
        == AppView::GraphDetails && s.focus != FocusedPane::Primary) || (s.view
        == AppView::FileHistory && s.file_view.showing_history_diff) {
        diff_overlay_opened(s, t) && e.len() == 0
    } else if s.view == AppView::FileHistory {
        (if s.file_view.path is Some {
            t == (AppState { overlay: Overlay::FileContent, ..s })
        } else {
            t == s
        }) && e.len() == 0
    } else {
        t == s && e.len() == 0
    }
}

/// Activates the focused item.
pub fn activate(state: &mut AppState) -> (effects: Vec<GitEffect>)
    requires
        old(state).wf(),
    ensures
        old(state).next_request <= final(state).next_request,
        final(state).wf(),
        activated(*old(state), *final(state), effects@),
{
    if state.view == AppView::Code {
        return if state.focus == FocusedPane::Diff {
            crate::app::code_view::open_content(state);
            Vec::new()
        } else {
            crate::app::code_view::activate_tree(state)
        };
    }
    if state.view == AppView::History && state.focus == FocusedPane::Primary {
        state.history_panel = HistoryPanel::ChangedFiles;
        state.focus = FocusedPane::Secondary;
        return Vec::new();
    }
    if state.view == AppView::CommitDetails && state.focus == FocusedPane::Primary {
        state.focus = FocusedPane::Diff;
        return Vec::new();
    }
    if state.view == AppView::Graph && state.focus == FocusedPane::Primary {
        state.view = AppView::GraphDetails;
        state.focus = FocusedPane::Secondary;
        return selected_commit_context(state);
    }
    if state.view == AppView::History && state.focus == FocusedPane::Secondary
        && state.history_panel == HistoryPanel::Tree {
        return activate_tree(state);
    }
    if (state.view == AppView::Changes && state.focus != FocusedPane::Secondary) || (state.view
        == AppView::History && state.focus != FocusedPane::Primary) || (state.view
        == AppView::CommitDetails && state.focus == FocusedPane::Diff) || (state.view
        == AppView::GraphDetails && state.focus != FocusedPane::Primary) || (state.view
        == AppView::FileHistory && state.file_view.showing_history_diff) {
        open_diff_overlay(state);
        return Vec::new();
    }
    if state.view == AppView::FileHistory {
        if state.file_view.path.is_some() {
            state.overlay = Overlay::FileContent;
        }
    }
    Vec::new()
}

/// The lines a diff search runs over: the patch lines, or the summary of a
/// binary or empty comparison.
pub open spec fn diff_search_texts(d: DiffDocument) -> Seq<Seq<char>> {
    match d {
        DiffDocument::Text { lines, .. } => diff_texts(lines@),
        DiffDocument::Truncated { lines, .. } => diff_texts(lines@),
        DiffDocument::Binary { summary } => seq![summary@],
        DiffDocument::Empty { message } => seq![message@],
    }
}

/// `t` is `s` after confirming the search over the diff: the diff moves to
/// the selected match. Without a loaded diff the prompt closes.
pub open spec fn diff_search_confirmed(s: AppState, t: AppState) -> bool {
    match s.diff.content {
        LoadState::Ready(d) => {
            let r = confirmed_line(s.search, t.search);
            confirmed(s.search, t.search, diff_search_texts(d), s.diff.vertical, r) && t == (
            AppState {
                search: t.search,
                diff: DiffViewState {
                    vertical: match r {
                        Some(l) => l,
                        None => s.diff.vertical,
                    },
                    ..s.diff
                },
                ..s
            })
        },
        _ => t == (AppState { search: t.search, ..s }) && prompt_set(s.search, t.search, None),
    }
}

fn confirm_diff_search(state: &mut AppState)
    ensures
        diff_search_confirmed(*old(state), *final(state)),
{
    let anchor = state.diff.vertical;
    let line = match &state.diff.content {
        LoadState::Ready(document) => match document.message() {
            Some(m) => {
                let values = crate::app::search::single_text(m);
                state.search.confirm(values.as_slice(), anchor)
            },
            None => {
                let values = crate::app::search::diff_line_texts(document.lines());
                state.search.confirm(values.as_slice(), anchor)
            },
        },
        _ => {
            state.search.cancel_input();
            None
        },
    };
    if let Some(line) = line {
        state.diff.vertical = line;
    }
}

/// `t` is `s` after the selected diff match moved in `direction`.
pub open spec fn diff_match_stepped(s: AppState, t: AppState, direction: crate::app::search::SearchDirection) -> bool {
    let r = stepped_line(t.search);
    stepped(s.search, t.search, direction, r) && t == (AppState {
        search: t.search,
        diff: DiffViewState {
            vertical: match r {
                Some(l) => l,
                None => s.diff.vertical,
            },
            ..s.diff
        },
        ..s
    })
}

/// `t` is `s` after `action` in the full-screen diff.
pub open spec fn diff_overlay_step(s: AppState, action: Action, t: AppState) -> bool {
    let v = s.diff.vertical;
    let c = s.diff.content;
    match action {
        Action::CloseOverlay | Action::Activate => t == (AppState {
            overlay: Overlay::Closed,
            search: t.search,
            ..s
        }) && crate::app::search::cleared(s.search, t.search),
        Action::MoveUp => diff_scrolled(s, t, diff_moved(c, v, -1isize)),
        Action::MoveDown => diff_scrolled(s, t, diff_moved(c, v, 1isize)),
        Action::MoveTop => diff_scrolled(s, t, 0),
        Action::MoveBottom => diff_scrolled(s, t, diff_last(c)),
        Action::HalfPageUp => diff_scrolled(s, t, diff_moved(c, v, -10isize)),
        Action::HalfPageDown => diff_scrolled(s, t, diff_moved(c, v, 10isize)),
        Action::ScrollLeft => t == (AppState {
            diff: DiffViewState { horizontal: step(s.diff.horizontal, -4isize), ..s.diff },
            ..s
        }),
        Action::ScrollRight => t == (AppState {
            diff: DiffViewState { horizontal: step(s.diff.horizontal, 4isize), ..s.diff },
            ..s
        }),
        Action::StartSearch(d) => t == (AppState { search: t.search, ..s }) && prompt_set(
            s.search,
            t.search,
            Some((d, Seq::empty())),
        ),
        Action::InsertSearch(ch) => t == (AppState { search: t.search, ..s }) && typed(
            s.search,
            t.search,
            ch,
        ),
        Action::DeleteSearch => t == (AppState { search: t.search, ..s }) && deleted(
            s.search,
            t.search,
        ),
        Action::ConfirmSearch => diff_search_confirmed(s, t),
        Action::CancelSearch => t == (AppState { search: t.search, ..s }) && prompt_set(
            s.search,
            t.search,
            None,
        ),
        Action::NextMatch => diff_match_stepped(s, t, s.search.direction_view()),
        Action::PreviousMatch => diff_match_stepped(
            s,
            t,
            crate::app::search::opposite(s.search.direction_view()),
        ),
        _ => t == s,
    }
}

/// Handles an action in the full-screen diff.
pub fn diff_overlay_action(state: &mut AppState, action: Action) -> (effects: Vec<GitEffect>)
    ensures
        diff_overlay_step(*old(state), action, *final(state)),
        effects@.len() == 0,
{
    match action {
        Action::CloseOverlay | Action::Activate => {
            state.overlay = Overlay::Closed;
            state.search.clear();
        },
        Action::MoveUp => move_diff_cursor(state, -1),
        Action::MoveDown => move_diff_cursor(state, 1),
        Action::MoveTop => state.diff.vertical = 0,
        Action::MoveBottom => state.diff.vertical = diff_last_line(state),
        Action::HalfPageUp => move_diff_cursor(state, -10),
        Action::HalfPageDown => move_diff_cursor(state, 10),
        Action::ScrollLeft => state.diff.horizontal = step_exec(state.diff.horizontal, -4),
        Action::ScrollRight => state.diff.horizontal = step_exec(state.diff.horizontal, 4),
        Action::StartSearch(direction) => state.search.begin(direction),
        Action::InsertSearch(character) => state.search.push(character),
        Action::DeleteSearch => state.search.pop(),
        Action::ConfirmSearch => confirm_diff_search(state),
        Action::CancelSearch => state.search.cancel_input(),
        Action::NextMatch => {
            let direction = state.search.direction();
            if let Some(line) = state.search.select_next(direction) {
                state.diff.vertical = line;
            }
        },
        Action::PreviousMatch => {
            let direction = state.search.direction().reversed();
            if let Some(line) = state.search.select_next(direction) {
                state.diff.vertical = line;
            }
        },
        _ => {},
    }
    Vec::new()
}

/// `t` is `s` after `action` in the full-screen commit message.
pub open spec fn message_overlay_step(s: AppState, action: Action, t: AppState) -> bool {
    match action {
        Action::CloseOverlay | Action::ToggleMessage => t == (AppState {
            overlay: Overlay::Closed,
            ..s
        }),
        Action::MoveUp => message_scrolled(s, t, message_moved(s, -1isize, true)),
        Action::MoveDown => message_scrolled(s, t, message_moved(s, 1isize, true)),
        Action::MoveTop => message_scrolled(s, t, 0),
        Action::MoveBottom => message_scrolled(s, t, message_last(s.message.content, true)),
        Action::HalfPageUp => message_scrolled(s, t, message_moved(s, -10isize, true)),
        Action::HalfPageDown => message_scrolled(s, t, message_moved(s, 10isize, true)),
        _ => t == s,
    }
}

/// Handles an action in the full-screen commit message.
pub fn message_overlay_action(state: &mut AppState, action: Action) -> (effects: Vec<GitEffect>)
    ensures
        message_overlay_step(*old(state), action, *final(state)),
        effects@.len() == 0,
{
    match action {
        Action::CloseOverlay | Action::ToggleMessage => state.overlay = Overlay::Closed,
        Action::MoveUp => move_full_message_cursor(state, -1),
        Action::MoveDown => move_full_message_cursor(state, 1),
        Action::MoveTop => state.message.scroll = 0,
        Action::MoveBottom => state.message.scroll = full_message_last_line(state),
        Action::HalfPageUp => move_full_message_cursor(state, -10),
        Action::HalfPageDown => move_full_message_cursor(state, 10),
        _ => {},
    }
    Vec::new()
}

/// `t` and `e` are the outcome of `action` in the open overlay of `s`.
pub open spec fn overlay_step(s: AppState, action: Action, t: AppState, e: Seq<GitEffect>) -> bool {
    match s.overlay {
        Overlay::Diff => diff_overlay_step(s, action, t) && e.len() == 0,
        Overlay::CommitMessage => message_overlay_step(s, action, t) && e.len() == 0,
        Overlay::RepositorySearch => search_overlay_step(s, action, t, e),
        Overlay::FileContent => file_overlay_step(s, action, t) && e.len() == 0,
        Overlay::CodeContent => code_content_step(s, action, t) && e.len() == 0,
        Overlay::Help => (if action == Action::CloseOverlay || action == Action::ToggleHelp {
            t == (AppState { overlay: Overlay::Closed, ..s })
        } else {
            t == s
        }) && e.len() == 0,
        _ => t == s && e.len() == 0,
    }
}

/// Handles an action in the open overlay.
pub fn overlay_action(state: &mut AppState, action: Action) -> (effects: Vec<GitEffect>)
    requires
        old(state).wf(),
    ensures
        old(state).next_request <= final(state).next_request,
        final(state).wf(),
        overlay_step(*old(state), action, *final(state), effects@),
{
    match state.overlay {
        Overlay::Diff => diff_overlay_action(state, action),
        Overlay::CommitMessage => message_overlay_action(state, action),
        Overlay::RepositorySearch => crate::app::repository_search::overlay_action(state, action),
        Overlay::FileContent => crate::app::repository_search::file_content_overlay_action(
            state,
            action,
        ),
        Overlay::CodeContent => crate::app::code_view::content_action(state, action),
        Overlay::Help => {
            if action == Action::CloseOverlay || action == Action::ToggleHelp {
                state.overlay = Overlay::Closed;
            }
            Vec::new()
        },
        _ => Vec::new(),
    }
}

/// `t` is `s` after closing one navigation level with no overlay open: the
/// detail and file views return to the view they were opened from.
pub open spec fn level_closed(s: AppState, t: AppState) -> bool {
    if s.view == AppView::GraphDetails {
        t == (AppState { view: AppView::Graph, focus: FocusedPane::Primary, ..s })
    } else if s.view == AppView::CommitDetails {
        t == (AppState { view: AppView::History, focus: FocusedPane::Primary, ..s })
    } else if s.view == AppView::FileHistory {
        t == (AppState { view: s.file_view.return_view, focus: FocusedPane::Primary, ..s })
    } else {
        t == s
    }
}

/// `t` and `e` are the outcome of the user's `action` on `s`: quitting,
/// opening a repository search, acting in the open overlay, or else acting
/// on the current view.
pub open spec fn action_step(s: AppState, action: Action, t: AppState, e: Seq<GitEffect>) -> bool {
    if action == Action::Quit {
        t == (AppState { should_quit: true, ..s }) && e.len() == 0
    } else if action == Action::OpenFileSearch {
        search_opened(s, t, RepositorySearchKind::Files) && e.len() == 0
    } else if action == Action::OpenContentSearch {
        search_opened(s, t, RepositorySearchKind::Content) && e.len() == 0
    } else if s.overlay != Overlay::Closed {
        overlay_step(s, action, t, e)
    } else {
        match action {
            Action::ShowChanges => switched(s, t, AppView::Changes, e),
            Action::ShowHistory => switched(s, t, AppView::History, e),
            Action::ShowGraph => switched(s, t, AppView::Graph, e),
            Action::ShowCode => switched(s, t, AppView::Code, e),
            Action::FocusLeft => t == (AppState { focus: previous_pane_of(s.view, s.focus), ..s })
                && e.len() == 0,
            Action::FocusRight => t == (AppState { focus: next_pane_of(s.view, s.focus), ..s })
                && e.len() == 0,
            Action::MoveUp => selection_moved(s, t, -1isize, e),
            Action::MoveDown => selection_moved(s, t, 1isize, e),
            Action::MoveTop => edge_moved(s, t, false, e),
            Action::MoveBottom => edge_moved(s, t, true, e),
            Action::HalfPageUp => half_paged(s, t, -10isize, e),
            Action::HalfPageDown => half_paged(s, t, 10isize, e),
            Action::ScrollLeft => scrolled_sideways(s, t, -4isize) && e.len() == 0,
            Action::ScrollRight => scrolled_sideways(s, t, 4isize) && e.len() == 0,
            Action::Refresh => refreshed(s, t, e),
            Action::ToggleMessage => message_toggled(s, t, e),
            Action::ToggleDetails => details_toggled(s, t, e),
            Action::ToggleTree => tree_toggled(s, t, e),
            Action::Activate => activated(s, t, e),
            Action::ToggleHelp => t == (AppState { overlay: Overlay::Help, ..s }) && e.len() == 0,
            Action::CloseOverlay => level_closed(s, t) && e.len() == 0,
            _ => t == s && e.len() == 0,
        }
    }
}

/// Applies a user action, returning the repository work it asks for.
#[verifier::rlimit(60)]
pub fn apply_action(state: &mut AppState, action: Action) -> (effects: Vec<GitEffect>)
    requires
        old(state).wf(),
    ensures
        final(state).wf(),
        action_step(*old(state), action, *final(state), effects@),
        old(state).next_request <= final(state).next_request,
{
    if action == Action::Quit {
        state.should_quit = true;
        return Vec::new();
    }
    if action == Action::OpenFileSearch {
        crate::app::repository_search::open(state, RepositorySearchKind::Files);
        return Vec::new();
    }
    if action == Action::OpenContentSearch {
        crate::app::repository_search::open(state, RepositorySearchKind::Content);
        return Vec::new();
    }
    if state.overlay != Overlay::Closed {
        return overlay_action(state, action);
    }
    match action {
        Action::ShowChanges => switch_view(state, AppView::Changes),
        Action::ShowHistory => switch_view(state, AppView::History),
        Action::ShowGraph => switch_view(state, AppView::Graph),
        Action::ShowCode => switch_view(state, AppView::Code),
        Action::FocusLeft => {
            state.focus = previous_pane(state.view, state.focus);
            Vec::new()
        },
        Action::FocusRight => {
            state.focus = next_pane(state.view, state.focus);
            Vec::new()
        },
        Action::MoveUp => move_selection(state, -1),
        Action::MoveDown => move_selection(state, 1),
        Action::MoveTop => move_to_edge(state, false),
        Action::MoveBottom => move_to_edge(state, true),
        Action::HalfPageUp => move_half_page(state, -10),
        Action::HalfPageDown => move_half_page(state, 10),
        Action::ScrollLeft => {
            scroll_sideways(state, -4);
            Vec::new()
        },
        Action::ScrollRight => {
            scroll_sideways(state, 4);
            Vec::new()
        },
        Action::Refresh => refresh(state),
        Action::ToggleMessage => toggle_message(state),
        Action::ToggleDetails => toggle_details(state),
        Action::ToggleTree => toggle_tree(state),
        Action::Activate => activate(state),
        Action::ToggleHelp => {
            state.overlay = Overlay::Help;
            Vec::new()
        },
        Action::CloseOverlay => {
            if state.view == AppView::GraphDetails {
                state.view = AppView::Graph;
                state.focus = FocusedPane::Primary;
            } else if state.view == AppView::CommitDetails {
                state.view = AppView::History;
                state.focus = FocusedPane::Primary;
            } else if state.view == AppView::FileHistory {
                state.view = state.file_view.return_view;
                state.focus = FocusedPane::Primary;
            }
            Vec::new()
        },
        _ => Vec::new(),
    }
}

// ---------------------------------------------------------------------------
// Completed work.

/// `c` is loading under request `id`.
pub open spec fn loading<T>(c: LoadState<T>, id: RequestId) -> bool {
    c matches LoadState::Loading { request_id } && request_id == id
}

/// `c` shows the failure `err`.
pub open spec fn failed_with<T>(c: LoadState<T>, err: GitError) -> bool {
    c matches LoadState::Failed(n) && n.0@ == error_text(err)
}

/// `n` is a notice of the failure `err`.
pub open spec fn notice_of(n: Option<ErrorNotice>, err: GitError) -> bool {
    n matches Some(x) && x.0@ == error_text(err)
}

/// The selection after a list of `len` rows replaced the old one: the
/// preferred row (the first by default), clamped to the list.
pub open spec fn reset_index(len: usize, preferred: Option<usize>) -> Option<usize> {
    if len == 0 {
        None
    } else {
        let p = match preferred {
            Some(p) => p,
            None => 0,
        };
        Some(if p < len { p } else { (len - 1) as usize })
    }
}

/// The selection `index` kept inside a list of `len` rows.
pub open spec fn clamp_index(index: Option<usize>, len: usize) -> Option<usize> {
    if len == 0 {
        None
    } else {
        match index {
            Some(i) => Some(if i < len { i } else { (len - 1) as usize }),
            None => Some(0),
        }
    }
}

/// The first change at path `p`.
pub open spec fn change_position(changes: Seq<WorktreeChange>, p: Seq<u8>) -> Option<usize> {
    if exists|i: int| 0 <= i < changes.len() && (#[trigger] changes[i]).path@ == p {
        Some(
            (choose|i: int|
                0 <= i < changes.len() && (#[trigger] changes[i]).path@ == p && forall|j: int|
                    0 <= j < i ==> (#[trigger] changes[j]).path@ != p) as usize,
        )
    } else {
        None
    }
}

fn find_change(changes: &Vec<WorktreeChange>, p: &RepoPath) -> (r: Option<usize>)
    ensures
        r == change_position(changes@, p@),
{
    let mut i: usize = 0;
    while i < changes.len()
        invariant
            i <= changes@.len(),
            forall|j: int| 0 <= j < i ==> (#[trigger] changes@[j]).path@ != p@,
        decreases changes@.len() - i,
    {
        if changes[i].path.same_as(p) {
            proof {
                let k = choose|k: int|
                    0 <= k < changes@.len() && (#[trigger] changes@[k]).path@ == p@ && forall|j: int|
                        0 <= j < k ==> (#[trigger] changes@[j]).path@ != p@;
                assert(changes@[i as int].path@ == p@);
                if k < i {
                    assert(changes@[k].path@ != p@);
                }
                if k > i {
                    assert(changes@[i as int].path@ != p@);
                }
            }
            return Some(i);
        }
        i = i + 1;
    }
    None
}

/// The first commit with identifier `id`.
pub open spec fn commit_position(commits: Seq<CommitSummary>, id: Seq<char>) -> Option<usize> {
    if exists|i: int| 0 <= i < commits.len() && (#[trigger] commits[i]).id@ == id {
        Some(
            (choose|i: int|
                0 <= i < commits.len() && (#[trigger] commits[i]).id@ == id && forall|j: int|
                    0 <= j < i ==> (#[trigger] commits[j]).id@ != id) as usize,
        )
    } else {
        None
    }
}

fn find_commit(commits: &Vec<CommitSummary>, id: &ObjectId) -> (r: Option<usize>)
    ensures
        r == commit_position(commits@, id@),
{
    let mut i: usize = 0;
    while i < commits.len()
        invariant
            i <= commits@.len(),
            forall|j: int| 0 <= j < i ==> (#[trigger] commits@[j]).id@ != id@,
        decreases commits@.len() - i,
    {
        if commits[i].id.same_as(id) {
            proof {
                let k = choose|k: int|
                    0 <= k < commits@.len() && (#[trigger] commits@[k]).id@ == id@ && forall|j: int|
                        0 <= j < k ==> (#[trigger] commits@[j]).id@ != id@;
                assert(commits@[i as int].id@ == id@);
                if k < i {
                    assert(commits@[k].id@ != id@);
                }
                if k > i {
                    assert(commits@[i as int].id@ != id@);
                }
            }
            return Some(i);
        }
        i = i + 1;
    }
    None
}

/// `t` and `e` follow the worktree changes `result` for `s`: they replace
/// the list, the remembered change stays selected, and its diff is shown.
pub open spec fn changes_received(s: AppState, result: Result<Vec<WorktreeChange>, GitError>, t: AppState, e: Seq<GitEffect>) -> bool {
    match result {
        Ok(changes) => {
            let pos = match s.preferred_change {
                Some(p) => change_position(changes@, p@),
                None => None,
            };
            change_diff_selected(
                AppState {
                    change_selection: Selection { index: reset_index(changes@.len() as usize, pos) },
                    changes: LoadState::Ready(changes),
                    preferred_change: None,
                    ..s
                },
                t,
                e,
            )
        },
        Err(err) => t == (AppState { changes: t.changes, ..s }) && failed_with(t.changes, err)
            && e.len() == 0,
    }
}

fn changes_loaded(state: &mut AppState, result: Result<Vec<WorktreeChange>, GitError>) -> (effects: Vec<GitEffect>)
    requires
        old(state).wf(),
    ensures
        final(state).wf(),
        changes_received(*old(state), result, *final(state), effects@),
{
    match result {
        Ok(changes) => {
            let pos = match &state.preferred_change {
                Some(p) => find_change(&changes, p),
                None => None,
            };
            state.preferred_change = None;
            state.change_selection.reset_to(changes.len(), pos);
            state.changes = LoadState::Ready(changes);
            selected_change_diff(state)
        },
        Err(error) => {
            state.changes = LoadState::Failed(ErrorNotice::new(error.describe()));
            Vec::new()
        },
    }
}

/// `t` and `e` follow a page of history `result` for `s`: an appended page
/// extends the list; a first page replaces it, keeps the remembered commit
/// selected and loads its context. A full page means more may follow.
pub open spec fn commits_received(
    s: AppState,
    append: bool,
    limit: usize,
    result: Result<Vec<CommitSummary>, GitError>,
    t: AppState,
    e: Seq<GitEffect>,
) -> bool {
    match result {
        Ok(loaded) => {
            let page = HistoryPageState { has_more: loaded@.len() == limit, loading_more: None };
            if append {
                &&& e.len() == 0
                &&& match s.commits {
                    LoadState::Ready(existing) => {
                        &&& t == (AppState {
                            commits: t.commits,
                            commit_selection: Selection {
                                index: clamp_index(
                                    s.commit_selection.index,
                                    (existing@.len() + loaded@.len()) as usize,
                                ),
                            },
                            history_page: page,
                            ..s
                        })
                        &&& t.commits matches LoadState::Ready(c) && c@ == existing@ + loaded@
                    },
                    _ => t == (AppState { history_page: page, ..s }),
                }
            } else {
                let pos = match s.preferred_commit {
                    Some(p) => commit_position(loaded@, p@),
                    None => None,
                };
                commit_context(
                    AppState {
                        history_page: page,
                        commit_selection: Selection {
                            index: reset_index(loaded@.len() as usize, pos),
                        },
                        commits: LoadState::Ready(loaded),
                        preferred_commit: None,
                        ..s
                    },
                    t,
                    e,
                )
            }
        },
        Err(err) => {
            let page = HistoryPageState { loading_more: None, ..s.history_page };
            &&& e.len() == 0
            &&& if append {
                t == (AppState { history_page: page, notice: t.notice, ..s }) && notice_of(
                    t.notice,
                    err,
                )
            } else {
                t == (AppState { history_page: page, commits: t.commits, ..s }) && failed_with(
                    t.commits,
                    err,
                )
            }
        },
    }
}

fn commits_loaded(state: &mut AppState, append: bool, limit: usize, result: Result<Vec<CommitSummary>, GitError>) -> (effects: Vec<GitEffect>)
    ensures
        commits_received(*old(state), append, limit, result, *final(state), effects@),
{
    state.history_page.loading_more = None;
    match result {
        Ok(loaded) => {
            state.history_page.has_more = loaded.len() == limit;
            if append {
                let mut taken: LoadState<Vec<CommitSummary>> = LoadState::Idle;
                std::mem::swap(&mut state.commits, &mut taken);
                match taken {
                    LoadState::Ready(existing) => {
                        let mut existing = existing;
                        let mut loaded = loaded;
                        existing.append(&mut loaded);
                        let n = existing.len();
                        state.commits = LoadState::Ready(existing);
                        state.commit_selection.clamp(n);
                    },
                    other => {
                        state.commits = other;
                    },
                }
                Vec::new()
            } else {
                let pos = match &state.preferred_commit {
                    Some(p) => find_commit(&loaded, p),
                    None => None,
                };
                state.preferred_commit = None;
                state.commit_selection.reset_to(loaded.len(), pos);
                state.commits = LoadState::Ready(loaded);
                selected_commit_context(state)
            }
        },
        Err(error) => {
            let notice = ErrorNotice::new(error.describe());
            if append {
                state.notice = Some(notice);
            } else {
                state.commits = LoadState::Failed(notice);
            }
            Vec::new()
        },
    }
}

/// `t` and `e` follow the changed files `result` of the selected commit:
/// the first file is selected and its diff shown.
pub open spec fn files_received(s: AppState, result: Result<Vec<ChangedFile>, GitError>, t: AppState, e: Seq<GitEffect>) -> bool {
    match result {
        Ok(files) => file_diff_selected(
            AppState {
                file_selection: Selection { index: first_row(files@.len() as usize) },
                files: LoadState::Ready(files),
                ..s
            },
            t,
            e,
        ),
        Err(err) => t == (AppState { files: t.files, ..s }) && failed_with(t.files, err) && e.len()
            == 0,
    }
}

fn files_loaded(state: &mut AppState, result: Result<Vec<ChangedFile>, GitError>) -> (effects: Vec<GitEffect>)
    requires
        old(state).wf(),
    ensures
        final(state).wf(),
        files_received(*old(state), result, *final(state), effects@),
{
    match result {
        Ok(files) => {
            let n = files.len();
            state.file_selection = Selection { index: if n > 0 { Some(0) } else { None } };
            state.files = LoadState::Ready(files);
            selected_file_diff(state)
        },
        Err(error) => {
            state.files = LoadState::Failed(ErrorNotice::new(error.describe()));
            Vec::new()
        },
    }
}

/// The cache after storing a copy of `doc` for `target` in `old`.
pub open spec fn doc_cached(old: Seq<crate::app::model::CachedDiff>, new: Seq<crate::app::model::CachedDiff>, target: DiffTarget, doc: DiffDocument) -> bool {
    let size = document_bytes(doc);
    if size > MAX_DIFF_CACHE_BYTES {
        new == old
    } else {
        exists|x: DiffTarget, d: DiffDocument|
            #[trigger] cache_insert(old, (x, d, size)) == new && same_target(x, target)
                && same_document(d, doc)
    }
}

/// `t` follows the diff `result` for `s`: the document is shown (and cached
/// for its target) with the offset kept inside it; a failure resets it.
pub open spec fn diff_received(s: AppState, result: Result<DiffDocument, GitError>, t: AppState) -> bool {
    match result {
        Ok(doc) => {
            &&& t == (AppState {
                diff: DiffViewState {
                    content: LoadState::Ready(doc),
                    vertical: at_most(s.diff.vertical, diff_last(LoadState::Ready(doc))),
                    ..s.diff
                },
                diff_cache: t.diff_cache,
                ..s
            })
            &&& match s.diff.target {
                Some(target) => doc_cached(s.diff_cache.entries@, t.diff_cache.entries@, target, doc),
                None => t.diff_cache == s.diff_cache,
            }
        },
        Err(err) => t == (AppState {
            diff: DiffViewState { content: t.diff.content, vertical: 0, ..s.diff },
            ..s
        }) && failed_with(t.diff.content, err),
    }
}

proof fn lemma_same_document_bytes(a: DiffDocument, b: DiffDocument)
    requires
        same_document(a, b),
    ensures
        document_bytes(a) == document_bytes(b),
{
}

fn diff_loaded(state: &mut AppState, result: Result<DiffDocument, GitError>)
    requires
        old(state).wf(),
    ensures
        final(state).wf(),
        diff_received(*old(state), result, *final(state)),
{
    match result {
        Ok(document) => {
            let target = match &state.diff.target {
                Some(t) => Some(t.duplicate()),
                None => None,
            };
            match target {
                Some(target) => {
                    let ghost gt = target;
                    let copy = document.duplicate();
                    let ghost gd = copy;
                    proof {
                        lemma_same_document_bytes(copy, document);
                    }
                    state.cache_diff(target, copy);
                    proof {
                        let size = document_bytes(document);
                        if size <= MAX_DIFF_CACHE_BYTES {
                            assert(cache_insert(old(state).diff_cache.entries@, (gt, gd, size))
                                == state.diff_cache.entries@);
                        }
                    }
                },
                None => {},
            }
            state.diff.content = LoadState::Ready(document);
            let last = diff_last_line(state);
            if state.diff.vertical > last {
                state.diff.vertical = last;
            }
        },
        Err(error) => {
            state.diff.content = LoadState::Failed(ErrorNotice::new(error.describe()));
            state.diff.vertical = 0;
        },
    }
}

/// The first visible tree row showing the same entry at the same path as `p`.
pub open spec fn row_index(v: Seq<VisibleTreeEntry>, p: VisibleTreeEntry) -> Option<int> {
    if exists|i: int| 0 <= i < v.len() && (#[trigger] v[i]).path@ == p.path@ && v[i].entry.object_id@
        == p.entry.object_id@ {
        Some(
            choose|i: int|
                0 <= i < v.len() && (#[trigger] v[i]).path@ == p.path@ && v[i].entry.object_id@
                    == p.entry.object_id@ && forall|j: int|
                    0 <= j < i ==> !((#[trigger] v[j]).path@ == p.path@ && v[j].entry.object_id@
                        == p.entry.object_id@),
        )
    } else {
        None
    }
}

fn find_row(v: &Vec<VisibleTreeEntry>, p: &VisibleTreeEntry) -> (r: Option<usize>)
    ensures
        r matches Some(i) ==> row_index(v@, *p) == Some(i as int) && i < v@.len(),
        r is None ==> row_index(v@, *p) is None,
{
    let mut i: usize = 0;
    while i < v.len()
        invariant
            i <= v@.len(),
            forall|j: int|
                0 <= j < i ==> !((#[trigger] v@[j]).path@ == p.path@ && v@[j].entry.object_id@
                    == p.entry.object_id@),
        decreases v@.len() - i,
    {
        if v[i].path.same_as(&p.path) && v[i].entry.object_id.same_as(&p.entry.object_id) {
            proof {
                let k = choose|k: int|
                    0 <= k < v@.len() && (#[trigger] v@[k]).path@ == p.path@
                        && v@[k].entry.object_id@ == p.entry.object_id@ && forall|j: int|
                        0 <= j < k ==> !((#[trigger] v@[j]).path@ == p.path@
                            && v@[j].entry.object_id@ == p.entry.object_id@);
                assert(v@[i as int].path@ == p.path@);
                if k < i {
                    assert(!(v@[k].path@ == p.path@ && v@[k].entry.object_id@
                        == p.entry.object_id@));
                }
                if k > i {
                    assert(!(v@[i as int].path@ == p.path@ && v@[i as int].entry.object_id@
                        == p.entry.object_id@));
                }
            }
            return Some(i);
        }
        i = i + 1;
    }
    None
}

/// `rows` are the collapsed root rows of `entries`.
pub open spec fn root_rows(entries: Seq<TreeEntry>, rows: Seq<VisibleTreeEntry>) -> bool {
    &&& rows.len() == entries.len()
    &&& forall|k: int|
        0 <= k < rows.len() ==> {
            let r = #[trigger] rows[k];
            &&& same_entry(r.entry, entries[k])
            &&& r.path@ == entries[k].name@
            &&& r.depth == 0
            &&& !r.expanded
        }
}

/// `new` is the child cache `old` holding `entries` for the tree `key`: it
/// replaces a cached list for that tree, or is added at the end.
pub open spec fn children_stored(
    old: Seq<(ObjectId, Vec<TreeEntry>)>,
    new: Seq<(ObjectId, Vec<TreeEntry>)>,
    key: Seq<char>,
    entries: Seq<TreeEntry>,
) -> bool {
    let at = match cached_children(old, key) {
        Some(k) => k,
        None => old.len() as int,
    };
    &&& new.len() == (if at == old.len() { old.len() + 1 } else { old.len() + 0 })
    &&& new[at].0@ == key
    &&& new[at].1@.len() == entries.len()
    &&& forall|x: int| 0 <= x < entries.len() ==> same_entry(#[trigger] new[at].1@[x], entries[x])
    &&& forall|j: int| 0 <= j < old.len() && j != at ==> new[j] == old[j]
}

/// `t` follows the tree `result` for the directory `parent` (the root when
/// absent): root rows replace the tree; children are cached and listed below
/// their directory when it is still shown; a failure replaces a loading tree
/// or else becomes the footer notice.
pub open spec fn tree_received(
    s: AppState,
    parent: Option<VisibleTreeEntry>,
    result: Result<Vec<TreeEntry>, GitError>,
    t: AppState,
) -> bool {
    match (parent, result) {
        (None, Ok(entries)) => exists|rows: Seq<VisibleTreeEntry>|
            #[trigger] root_rows(entries@, rows) && (t.tree.visible matches LoadState::Ready(v) && v@
                == rows) && t == (AppState {
                tree: TreeState {
                    visible: t.tree.visible,
                    selection: Selection { index: first_row(entries@.len() as usize) },
                    ..s.tree
                },
                ..s
            }),
        (Some(p), Ok(entries)) => {
            let m = AppState { tree: TreeState { children: t.tree.children, ..s.tree }, ..s };
            &&& children_stored(s.tree.children@, t.tree.children@, p.entry.object_id@, entries@)
            &&& match s.tree.visible {
                LoadState::Ready(v) => match row_index(v@, p) {
                    Some(i) => children_inserted(m, t, i, p, entries@),
                    None => t == m,
                },
                _ => t == m,
            }
        },
        (_, Err(err)) => if s.tree.visible is Loading {
            t == (AppState { tree: TreeState { visible: t.tree.visible, ..s.tree }, ..s })
                && failed_with(t.tree.visible, err)
        } else {
            t == (AppState { notice: t.notice, ..s }) && notice_of(t.notice, err)
        },
    }
}

fn copy_entries(entries: &Vec<TreeEntry>) -> (r: Vec<TreeEntry>)
    ensures
        r@.len() == entries@.len(),
        forall|x: int| 0 <= x < entries@.len() ==> same_entry(#[trigger] r@[x], entries@[x]),
{
    let mut r: Vec<TreeEntry> = Vec::new();
    let mut j: usize = 0;
    while j < entries.len()
        invariant
            j <= entries@.len(),
            r@.len() == j,
            forall|x: int| 0 <= x < j ==> same_entry(#[trigger] r@[x], entries@[x]),
        decreases entries@.len() - j,
    {
        r.push(entries[j].duplicate());
        j = j + 1;
    }
    r
}

fn store_children(children: &mut Vec<(ObjectId, Vec<TreeEntry>)>, key: &ObjectId, entries: &Vec<TreeEntry>)
    ensures
        children_stored(old(children)@, final(children)@, key@, entries@),
{
    let copy = copy_entries(entries);
    match find_cached(children, key) {
        Some(k) => {
            children.set(k, (key.duplicate(), copy));
        },
        None => {
            children.push((key.duplicate(), copy));
        },
    }
}

#[verifier::rlimit(40)]
fn tree_loaded(state: &mut AppState, parent: Option<VisibleTreeEntry>, result: Result<Vec<TreeEntry>, GitError>)
    ensures
        tree_received(*old(state), parent, result, *final(state)),
{
    match (parent, result) {
        (None, Ok(entries)) => {
            let mut rows: Vec<VisibleTreeEntry> = Vec::new();
            let mut k: usize = 0;
            while k < entries.len()
                invariant
                    k <= entries@.len(),
                    rows@.len() == k,
                    forall|j: int|
                        0 <= j < k ==> {
                            let r = #[trigger] rows@[j];
                            &&& same_entry(r.entry, entries@[j])
                            &&& r.path@ == entries@[j].name@
                            &&& r.depth == 0
                            &&& !r.expanded
                        },
                decreases entries@.len() - k,
            {
                let root = RepoPath::root_marker();
                rows.push(
                    VisibleTreeEntry {
                        entry: entries[k].duplicate(),
                        path: root.join(&entries[k].name),
                        depth: 0,
                        expanded: false,
                    },
                );
                k = k + 1;
            }
            let n = entries.len();
            let ghost g = rows@;
            state.tree.selection = Selection { index: if n > 0 { Some(0) } else { None } };
            state.tree.visible = LoadState::Ready(rows);
            proof {
                assert(root_rows(entries@, g));
            }
        },
        (Some(p), Ok(entries)) => {
            store_children(&mut state.tree.children, &p.entry.object_id, &entries);
            let index = match &state.tree.visible {
                LoadState::Ready(v) => find_row(v, &p),
                _ => None,
            };
            match index {
                Some(i) => insert_children(state, i, &p, &entries),
                None => {},
            }
        },
        (_, Err(error)) => {
            let notice = ErrorNotice::new(error.describe());
            let is_loading = match &state.tree.visible {
                LoadState::Loading { .. } => true,
                _ => false,
            };
            if is_loading {
                state.tree.visible = LoadState::Failed(notice);
            } else {
                state.notice = Some(notice);
            }
        },
    }
}

/// `t` and `e` are the outcome of the completion `event` on `s`. A
/// completion is applied only while its request is the one in flight (and,
/// where it names a commit or path, while that is still the one shown);
/// any other completion is stale and changes nothing.
pub open spec fn event_step(s: AppState, event: Event, t: AppState, e: Seq<GitEffect>) -> bool {
    match event {
        Event::ChangesLoaded { request_id, result } => if loading(s.changes, request_id) {
            changes_received(s, result, t, e)
        } else {
            t == s && e.len() == 0
        },
        Event::CommitsLoaded { request_id, append, limit, result } => if (!append && loading(
            s.commits,
            request_id,
        )) || (append && s.history_page.loading_more == Some(request_id)) {
            commits_received(s, append, limit, result, t, e)
        } else {
            t == s && e.len() == 0
        },
        Event::FilesLoaded { request_id, commit, result } => if loading(s.files, request_id) && (
        selected_commit(s) matches Some(c) && c.id@ == commit@) {
            files_received(s, result, t, e)
        } else {
            t == s && e.len() == 0
        },
        Event::DiffLoaded { request_id, result } => (if loading(s.diff.content, request_id) {
            diff_received(s, result, t)
        } else {
            t == s
        }) && e.len() == 0,
        Event::MessageLoaded { request_id, commit, result } => (if loading(
            s.message.content,
            request_id,
        ) && (s.message.commit matches Some(c) && c@ == commit@) {
            t == (AppState { message: MessageState { content: t.message.content, ..s.message }, ..s })
                && match result {
                Ok(m) => t.message.content == LoadState::Ready(m),
                Err(err) => failed_with(t.message.content, err),
            }
        } else {
            t == s
        }) && e.len() == 0,
        Event::TreeLoaded { request_id, commit, parent, result } => (if s.tree.pending == Some(
            request_id,
        ) && (s.tree.commit matches Some(c) && c@ == commit@) {
            tree_received(
                AppState { tree: TreeState { pending: None, ..s.tree }, ..s },
                parent,
                result,
                t,
            )
        } else {
            t == s
        }) && e.len() == 0,
        Event::RepositorySearchLoaded { request_id, result } => (if loading(
            s.repository_search.results,
            request_id,
        ) {
            match result {
                Ok(r) => t == (AppState {
                    repository_search: RepositorySearchState {
                        selection: Selection { index: first_row(r@.len() as usize) },
                        results: LoadState::Ready(r),
                        ..s.repository_search
                    },
                    ..s
                }),
                Err(err) => t == (AppState {
                    repository_search: RepositorySearchState {
                        results: t.repository_search.results,
                        ..s.repository_search
                    },
                    ..s
                }) && failed_with(t.repository_search.results, err),
            }
        } else {
            t == s
        }) && e.len() == 0,
        Event::FileHistoryLoaded { request_id, path, result } => (if loading(
            s.file_view.commits,
            request_id,
        ) && (s.file_view.path matches Some(p) && p@ == path@) {
            match result {
                Ok(c) => t == (AppState {
                    file_view: FileViewState {
                        selection: Selection { index: first_row(c@.len() as usize) },
                        commits: LoadState::Ready(c),
                        ..s.file_view
                    },
                    ..s
                }),
                Err(err) => t == (AppState {
                    file_view: FileViewState { commits: t.file_view.commits, ..s.file_view },
                    ..s
                }) && failed_with(t.file_view.commits, err),
            }
        } else {
            t == s
        }) && e.len() == 0,
        Event::FileContentLoaded { request_id, path, result } => (if loading(
            s.file_view.content,
            request_id,
        ) && (s.file_view.path matches Some(p) && p@ == path@) {
            &&& t == (AppState {
                file_view: FileViewState {
                    content: t.file_view.content,
                    vertical: at_most(s.file_view.vertical, file_last(t.file_view.content)),
                    ..s.file_view
                },
                ..s
            })
            &&& match result {
                Ok(d) => t.file_view.content == LoadState::Ready(d),
                Err(err) => failed_with(t.file_view.content, err),
            }
        } else {
            t == s
        }) && e.len() == 0,
        Event::CodeTreeLoaded { request_id, result } => if loading(s.code_view.visible, request_id) {
            code_tree_received(s, result, t, e)
        } else {
            t == s && e.len() == 0
        },
        Event::CodeFileLoaded { request_id, path, result } => (if loading(
            s.code_view.content,
            request_id,
        ) && (s.code_view.path matches Some(p) && p@ == path@) {
            code_file_received(s, result, t)
        } else {
            t == s
        }) && e.len() == 0,
        _ => t == s && e.len() == 0,
    }
}

fn is_loading<T>(c: &LoadState<T>, id: RequestId) -> (b: bool)
    ensures
        b == loading(*c, id),
{
    match c {
        LoadState::Loading { request_id } => *request_id == id,
        _ => false,
    }
}

fn same_path(p: &Option<RepoPath>, path: &RepoPath) -> (b: bool)
    ensures
        b == (*p matches Some(q) && q@ == path@),
{
    match p {
        Some(q) => q.same_as(path),
        None => false,
    }
}

/// Applies a completed piece of work, returning any follow-up work.
#[verifier::rlimit(40)]
pub fn apply_event(state: &mut AppState, event: Event) -> (effects: Vec<GitEffect>)
    requires
        old(state).wf(),
    ensures
        final(state).wf(),
        event_step(*old(state), event, *final(state), effects@),
        old(state).next_request <= final(state).next_request,
{
    match event {
        Event::ChangesLoaded { request_id, result } => {
            if is_loading(&state.changes, request_id) {
                changes_loaded(state, result)
            } else {
                Vec::new()
            }
        },
        Event::CommitsLoaded { request_id, append, limit, result } => {
            let current = (!append && is_loading(&state.commits, request_id)) || (append
                && state.history_page.loading_more == Some(request_id));
            if current {
                commits_loaded(state, append, limit, result)
            } else {
                Vec::new()
            }
        },
        Event::FilesLoaded { request_id, commit, result } => {
            let selected = match selected_commit_index(state) {
                Some(i) => match &state.commits {
                    LoadState::Ready(c) => c[i].id.same_as(&commit),
                    _ => false,
                },
                None => false,
            };
            if is_loading(&state.files, request_id) && selected {
                files_loaded(state, result)
            } else {
                Vec::new()
            }
        },
        Event::DiffLoaded { request_id, result } => {
            if is_loading(&state.diff.content, request_id) {
                diff_loaded(state, result);
            }
            Vec::new()
        },
        Event::MessageLoaded { request_id, commit, result } => {
            let same = match &state.message.commit {
                Some(c) => c.same_as(&commit),
                None => false,
            };
            if is_loading(&state.message.content, request_id) && same {
                state.message.content = match result {
                    Ok(m) => LoadState::Ready(m),
                    Err(error) => LoadState::Failed(ErrorNotice::new(error.describe())),
                };
            }
            Vec::new()
        },
        Event::TreeLoaded { request_id, commit, parent, result } => {
            let same = match &state.tree.commit {
                Some(c) => c.same_as(&commit),
                None => false,
            };
            if state.tree.pending == Some(request_id) && same {
                state.tree.pending = None;
                tree_loaded(state, parent, result);
            }
            Vec::new()
        },
        Event::RepositorySearchLoaded { request_id, result } => {
            if is_loading(&state.repository_search.results, request_id) {
                match result {
                    Ok(results) => {
                        let n = results.len();
                        state.repository_search.selection = Selection {
                            index: if n > 0 { Some(0) } else { None },
                        };
                        state.repository_search.results = LoadState::Ready(results);
                    },
                    Err(error) => {
                        state.repository_search.results = LoadState::Failed(
                            ErrorNotice::new(error.describe()),
                        );
                    },
                }
            }
            Vec::new()
        },
        Event::FileHistoryLoaded { request_id, path, result } => {
            if is_loading(&state.file_view.commits, request_id) && same_path(
                &state.file_view.path,
                &path,
            ) {
                match result {
                    Ok(commits) => {
                        let n = commits.len();
                        state.file_view.selection = Selection {
                            index: if n > 0 { Some(0) } else { None },
                        };
                        state.file_view.commits = LoadState::Ready(commits);
                    },
                    Err(error) => {
                        state.file_view.commits = LoadState::Failed(
                            ErrorNotice::new(error.describe()),
                        );
                    },
                }
            }
            Vec::new()
        },
        Event::FileContentLoaded { request_id, path, result } => {
            if is_loading(&state.file_view.content, request_id) && same_path(
                &state.file_view.path,
                &path,
            ) {
                state.file_view.content = match result {
                    Ok(d) => LoadState::Ready(d),
                    Err(error) => LoadState::Failed(ErrorNotice::new(error.describe())),
                };
                let last = crate::app::repository_search::file_content_last_line(state);
                if state.file_view.vertical > last {
                    state.file_view.vertical = last;
                }
            }
            Vec::new()
        },
        Event::CodeTreeLoaded { request_id, result } => {
            if is_loading(&state.code_view.visible, request_id) {
                crate::app::code_view::tree_loaded(state, result)
            } else {
                Vec::new()
            }
        },
        Event::CodeFileLoaded { request_id, path, result } => {
            if is_loading(&state.code_view.content, request_id) && same_path(
                &state.code_view.path,
                &path,
            ) {
                crate::app::code_view::file_loaded(state, result)
            } else {
                Vec::new()
            }
        },
        _ => Vec::new(),
    }
}

/// `t` and `e` start loading the data of the view `s` opened with.
pub open spec fn started(s: AppState, t: AppState, e: Seq<GitEffect>) -> bool {
    if s.view == AppView::Changes {
        changes_requested(s, t, e)
    } else if lists_commits(s.view) {
        commits_requested(s, t, false, e)
    } else if s.view == AppView::Code {
        tree_requested(s, t, e)
    } else {
        t == s && e.len() == 0
    }
}

impl AppState {
    /// Starts loading the data of the initial view.
    pub fn start(&mut self) -> (effects: Vec<GitEffect>)
        requires
            old(self).wf(),
        ensures
            final(self).wf(),
            started(*old(self), *final(self), effects@),
        old(self).next_request <= final(self).next_request,
    {
        if self.view == AppView::Changes {
            self.request_changes()
        } else if self.view == AppView::History || self.view == AppView::CommitDetails
            || self.view == AppView::Graph || self.view == AppView::GraphDetails {
            self.request_commits(false)
        } else if self.view == AppView::Code {
            crate::app::code_view::request_tree(self)
        } else {
            Vec::new()
        }
    }

    /// Applies a user action and returns the repository work it asks for.
    pub fn handle_action(&mut self, action: Action) -> (effects: Vec<GitEffect>)
        requires
            old(self).wf(),
        ensures
            final(self).wf(),
            action_step(*old(self), action, *final(self), effects@),
        old(self).next_request <= final(self).next_request,
    {
        apply_action(self, action)
    }

    /// Applies a completion and returns follow-up repository work; stale
    /// completions are ignored.
    pub fn handle_event(&mut self, event: Event) -> (effects: Vec<GitEffect>)
        requires
            old(self).wf(),
        ensures
            final(self).wf(),
            event_step(*old(self), event, *final(self), effects@),
        old(self).next_request <= final(self).next_request,
    {
        apply_event(self, event)
    }
}

/// Whether `event` completes the work `s` is waiting for: its request is
/// the one in flight for its resource and, where it names one, the commit or
/// path is still the one shown.
pub open spec fn event_current(s: AppState, event: Event) -> bool {
    match event {
        Event::ChangesLoaded { request_id, .. } => loading(s.changes, request_id),
        Event::CommitsLoaded { request_id, append, .. } => (!append && loading(s.commits, request_id))
            || (append && s.history_page.loading_more == Some(request_id)),
        Event::FilesLoaded { request_id, commit, .. } => loading(s.files, request_id) && (
        selected_commit(s) matches Some(c) && c.id@ == commit@),
        Event::DiffLoaded { request_id, .. } => loading(s.diff.content, request_id),
        Event::MessageLoaded { request_id, commit, .. } => loading(s.message.content, request_id)
            && (s.message.commit matches Some(c) && c@ == commit@),
        Event::TreeLoaded { request_id, commit, .. } => s.tree.pending == Some(request_id) && (
        s.tree.commit matches Some(c) && c@ == commit@),
        Event::RepositorySearchLoaded { request_id, .. } => loading(
            s.repository_search.results,
            request_id,
        ),
        Event::FileHistoryLoaded { request_id, path, .. } => loading(s.file_view.commits, request_id)
            && (s.file_view.path matches Some(p) && p@ == path@),
        Event::FileContentLoaded { request_id, path, .. } => loading(s.file_view.content, request_id)
            && (s.file_view.path matches Some(p) && p@ == path@),
        Event::CodeTreeLoaded { request_id, .. } => loading(s.code_view.visible, request_id),
        Event::CodeFileLoaded { request_id, path, .. } => loading(s.code_view.content, request_id)
            && (s.code_view.path matches Some(p) && p@ == path@),
        _ => false,
    }
}

/// A stale completion, one for a request that is no longer in flight or for
/// a commit or path no longer shown, changes nothing and asks for no work.
pub proof fn lemma_stale_completion_ignored(s: AppState, event: Event, t: AppState, e: Seq<GitEffect>)
    requires
        event_step(s, event, t, e),
        !event_current(s, event),
    ensures
        t == s,
        e.len() == 0,
{
}

} // verus!
