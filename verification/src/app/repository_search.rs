//! Repository-wide file and content search, and the file view it opens.

use crate::app::action::Action;
use crate::app::effect::GitEffect;
use crate::app::model::{
    diff_requested, first_row, moved, next_id, AppState, AppView, FileViewState, FocusedPane,
    LoadState, Overlay, RepositorySearchKind, RepositorySearchState, RequestId, Selection,
};
use crate::app::code_view::{file_last, last_line_of};
use crate::app::update::{at_most, step, step_exec};
use crate::domain::commit::baseline_key;
use crate::domain::diff::DiffTarget;
use crate::domain::path::RepoPath;
use crate::domain::search::FileDocument;
use vstd::prelude::*;

verus! {

/// Commits requested for the history of one file.
pub const FILE_HISTORY_LIMIT: usize = 200;

/// The view a search returns to: the one it was opened from, or, from a file
/// view, the view that file view returns to.
pub open spec fn search_origin(s: AppState) -> AppView {
    if s.view == AppView::FileHistory {
        s.file_view.return_view
    } else {
        s.view
    }
}

/// `t` is `s` with an empty prompt of `kind` open over the current view.
pub open spec fn search_opened(s: AppState, t: AppState, kind: RepositorySearchKind) -> bool {
    &&& t == (AppState {
        repository_search: RepositorySearchState {
            kind,
            prompt: t.repository_search.prompt,
            query: t.repository_search.query,
            results: LoadState::Idle,
            selection: Selection { index: None },
            return_view: search_origin(s),
        },
        overlay: Overlay::RepositorySearch,
        ..s
    })
    &&& t.repository_search.prompt matches Some(p) && p@.len() == 0
    &&& t.repository_search.query@.len() == 0
}

/// Opens the search prompt of `kind`.
pub fn open(state: &mut AppState, kind: RepositorySearchKind)
    ensures
        old(state).next_request <= final(state).next_request,
        search_opened(*old(state), *final(state), kind),
{
    let return_view = if state.view == AppView::FileHistory {
        state.file_view.return_view
    } else {
        state.view
    };
    state.repository_search.kind = kind;
    state.repository_search.prompt = Some(String::new());
    state.repository_search.query = String::new();
    state.repository_search.results = LoadState::Idle;
    state.repository_search.selection = Selection { index: None };
    state.repository_search.return_view = return_view;
    state.overlay = Overlay::RepositorySearch;
}

/// The text of the prompt, or nothing when the results have focus.
pub open spec fn prompt_text(s: AppState) -> Seq<char> {
    match s.repository_search.prompt {
        Some(p) => p@,
        None => Seq::empty(),
    }
}

/// `t` is `s` searching for the prompt's text as the user types: an empty
/// prompt shows no results, any other starts a search of the current kind.
pub open spec fn live_searched(s: AppState, t: AppState, e: Seq<GitEffect>) -> bool {
    let q = prompt_text(s);
    let id = RequestId(s.next_request);
    &&& t.repository_search.query@ == q
    &&& if q.len() == 0 {
        &&& t == (AppState {
            repository_search: RepositorySearchState {
                query: t.repository_search.query,
                results: LoadState::Idle,
                selection: Selection { index: None },
                ..s.repository_search
            },
            ..s
        })
        &&& e.len() == 0
    } else {
        &&& t == (AppState {
            repository_search: RepositorySearchState {
                query: t.repository_search.query,
                results: LoadState::Loading { request_id: id },
                selection: Selection { index: None },
                ..s.repository_search
            },
            next_request: next_id(s.next_request),
            ..s
        })
        &&& e.len() == 1
        &&& match s.repository_search.kind {
            RepositorySearchKind::Files => e[0] matches GitEffect::SearchFiles { request_id, query }
                && request_id == id && query@ == q,
            RepositorySearchKind::Content => e[0] matches GitEffect::SearchContent {
                request_id,
                query,
            } && request_id == id && query@ == q,
        }
    }
}

fn live_search(state: &mut AppState) -> (effects: Vec<GitEffect>)
    ensures
        live_searched(*old(state), *final(state), effects@),
{
    let query = match &state.repository_search.prompt {
        Some(p) => p.clone(),
        None => String::new(),
    };
    state.repository_search.selection = Selection { index: None };
    if query.as_str().is_empty() {
        state.repository_search.query = query;
        state.repository_search.results = LoadState::Idle;
        return Vec::new();
    }
    state.repository_search.query = query.clone();
    let request_id = state.request_id();
    state.repository_search.results = LoadState::Loading { request_id };
    match state.repository_search.kind {
        RepositorySearchKind::Files => vec![GitEffect::SearchFiles { request_id, query }],
        RepositorySearchKind::Content => vec![GitEffect::SearchContent { request_id, query }],
    }
}

/// The number of results, when they have loaded.
pub open spec fn result_count(s: AppState) -> Option<usize> {
    match s.repository_search.results {
        LoadState::Ready(r) => Some(r@.len() as usize),
        _ => None,
    }
}

/// `t` is `s` with the result selection set to `index`.
pub open spec fn result_selected(s: AppState, t: AppState, index: Option<usize>) -> bool {
    t == (AppState {
        repository_search: RepositorySearchState {
            selection: Selection { index },
            ..s.repository_search
        },
        ..s
    })
}

/// `text` without its last character, if it has one.
pub open spec fn without_last(text: Seq<char>) -> Seq<char> {
    if text.len() > 0 {
        text.drop_last()
    } else {
        text
    }
}

/// `m` is `s` with its prompt replaced by one holding `text`.
pub open spec fn prompt_edited(s: AppState, m: AppState, text: Seq<char>) -> bool {
    &&& m == (AppState {
        repository_search: RepositorySearchState {
            prompt: m.repository_search.prompt,
            ..s.repository_search
        },
        ..s
    })
    &&& m.repository_search.prompt matches Some(q) && q@ == text
}

/// `t` and `e` are the outcome of `action` in the search overlay of `s`.
///
/// While the prompt has focus, typing and deleting search as the user types,
/// confirming or moving right hands focus to the results, and cancelling or
/// closing leaves the search. With the results focused, moving left returns
/// to the prompt holding the last query, the selection moves over loaded
/// results, activating opens the selected hit, and cancelling or closing
/// leaves the search. Any other action changes nothing.
pub open spec fn search_overlay_step(s: AppState, action: Action, t: AppState, e: Seq<GitEffect>) -> bool {
    match s.repository_search.prompt {
        Some(p) => match action {
            Action::InsertSearch(c) => exists|m: AppState|
                #[trigger] prompt_edited(s, m, p@.push(c)) && live_searched(m, t, e),
            Action::DeleteSearch => exists|m: AppState|
                #[trigger] prompt_edited(s, m, without_last(p@)) && live_searched(m, t, e),
            Action::ConfirmSearch | Action::FocusRight => {
                &&& t == (AppState {
                    repository_search: RepositorySearchState { prompt: None, ..s.repository_search },
                    ..s
                })
                &&& e.len() == 0
            },
            Action::CancelSearch | Action::CloseOverlay => {
                &&& t == (AppState {
                    repository_search: RepositorySearchState { prompt: None, ..s.repository_search },
                    overlay: Overlay::Closed,
                    ..s
                })
                &&& e.len() == 0
            },
            _ => t == s && e.len() == 0,
        },
        None => match action {
            Action::FocusLeft => {
                &&& t == (AppState {
                    repository_search: RepositorySearchState {
                        prompt: t.repository_search.prompt,
                        ..s.repository_search
                    },
                    ..s
                })
                &&& t.repository_search.prompt matches Some(q) && q@ == s.repository_search.query@
                &&& e.len() == 0
            },
            Action::MoveUp | Action::MoveDown | Action::MoveTop | Action::MoveBottom => {
                &&& e.len() == 0
                &&& match result_count(s) {
                    Some(n) => result_selected(
                        s,
                        t,
                        match action {
                            Action::MoveUp => moved(s.repository_search.selection.index, -1isize, n),
                            Action::MoveDown => moved(s.repository_search.selection.index, 1isize, n),
                            Action::MoveTop => first_row(n),
                            _ => if n > 0 {
                                Some((n - 1) as usize)
                            } else {
                                None
                            },
                        },
                    ),
                    None => t == s,
                }
            },
            Action::Activate => hit_opened(s, t, e),
            Action::CloseOverlay | Action::CancelSearch => {
                &&& t == (AppState { overlay: Overlay::Closed, ..s })
                &&& e.len() == 0
            },
            _ => t == s && e.len() == 0,
        },
    }
}

/// Handles an action in the search overlay.
pub fn overlay_action(state: &mut AppState, action: Action) -> (effects: Vec<GitEffect>)
    requires
        old(state).wf(),
    ensures
        final(state).wf(),
        search_overlay_step(*old(state), action, *final(state), effects@),
{
    if state.repository_search.prompt.is_some() {
        match action {
            Action::InsertSearch(character) => {
                let next = match &state.repository_search.prompt {
                    Some(p) => {
                        let mut q = p.clone();
                        crate::text::push_char(&mut q, character);
                        q
                    },
                    None => String::new(),
                };
                state.repository_search.prompt = Some(next);
                let ghost mid = *state;
                let effects = live_search(state);
                proof {
                    assert(prompt_edited(*old(state), mid, old(state).repository_search.prompt->0@.push(character)));
                }
                return effects;
            },
            Action::DeleteSearch => {
                let next = match &state.repository_search.prompt {
                    Some(p) => {
                        let mut q = p.clone();
                        let _ = crate::text::pop_char(&mut q);
                        q
                    },
                    None => String::new(),
                };
                state.repository_search.prompt = Some(next);
                let ghost mid = *state;
                let effects = live_search(state);
                proof {
                    assert(prompt_edited(*old(state), mid, without_last(old(state).repository_search.prompt->0@)));
                }
                return effects;
            },
            Action::ConfirmSearch | Action::FocusRight => {
                state.repository_search.prompt = None;
            },
            Action::CancelSearch | Action::CloseOverlay => {
                state.overlay = Overlay::Closed;
                state.repository_search.prompt = None;
            },
            _ => {},
        }
        return Vec::new();
    }
    match action {
        Action::FocusLeft => {
            state.repository_search.prompt = Some(state.repository_search.query.clone());
            Vec::new()
        },
        Action::MoveUp | Action::MoveDown | Action::MoveTop | Action::MoveBottom => {
            let count = match &state.repository_search.results {
                LoadState::Ready(results) => Some(results.len()),
                _ => None,
            };
            if let Some(n) = count {
                let _ = match action {
                    Action::MoveUp => state.repository_search.selection.move_by(-1, n),
                    Action::MoveDown => state.repository_search.selection.move_by(1, n),
                    Action::MoveTop => state.repository_search.selection.top(n),
                    _ => state.repository_search.selection.bottom(n),
                };
            }
            Vec::new()
        },
        Action::Activate => open_selected_file(state),
        Action::CloseOverlay | Action::CancelSearch => {
            state.overlay = Overlay::Closed;
            Vec::new()
        },
        _ => Vec::new(),
    }
}

/// The last line of the file view's current content.
pub fn file_content_last_line(state: &AppState) -> (n: usize)
    ensures
        n == file_last(state.file_view.content),
{
    last_line_of(&state.file_view.content)
}

/// `t` is `s` with the file view scrolled to `vertical`.
pub open spec fn file_scrolled(s: AppState, t: AppState, vertical: usize) -> bool {
    t == (AppState { file_view: FileViewState { vertical, ..s.file_view }, ..s })
}

/// Moves the file view by `delta` lines, within the document.
pub fn move_file_content_cursor(state: &mut AppState, delta: isize)
    ensures
        file_scrolled(
            *old(state),
            *final(state),
            at_most(step(old(state).file_view.vertical, delta), file_last(old(state).file_view.content)),
        ),
{
    let last = file_content_last_line(state);
    let next = step_exec(state.file_view.vertical, delta);
    state.file_view.vertical = if next < last {
        next
    } else {
        last
    };
}

/// `t` is `s` after `action` in the full-screen file overlay.
pub open spec fn file_overlay_step(s: AppState, action: Action, t: AppState) -> bool {
    let v = s.file_view.vertical;
    let last = file_last(s.file_view.content);
    match action {
        Action::CloseOverlay | Action::Activate => t == (AppState { overlay: Overlay::Closed, ..s }),
        Action::MoveUp => file_scrolled(s, t, at_most(step(v, -1isize), last)),
        Action::MoveDown => file_scrolled(s, t, at_most(step(v, 1isize), last)),
        Action::MoveTop => file_scrolled(s, t, 0),
        Action::MoveBottom => file_scrolled(s, t, last),
        Action::HalfPageUp => file_scrolled(s, t, at_most(step(v, -10isize), last)),
        Action::HalfPageDown => file_scrolled(s, t, at_most(step(v, 10isize), last)),
        Action::ScrollLeft => t == (AppState {
            file_view: FileViewState { horizontal: step(s.file_view.horizontal, -4isize), ..s.file_view },
            ..s
        }),
        Action::ScrollRight => t == (AppState {
            file_view: FileViewState { horizontal: step(s.file_view.horizontal, 4isize), ..s.file_view },
            ..s
        }),
        _ => t == s,
    }
}

/// Handles an action in the full-screen file overlay.
pub fn file_content_overlay_action(state: &mut AppState, action: Action) -> (effects: Vec<GitEffect>)
    ensures
        file_overlay_step(*old(state), action, *final(state)),
        effects@.len() == 0,
{
    match action {
        Action::CloseOverlay | Action::Activate => state.overlay = Overlay::Closed,
        Action::MoveUp => move_file_content_cursor(state, -1),
        Action::MoveDown => move_file_content_cursor(state, 1),
        Action::MoveTop => state.file_view.vertical = 0,
        Action::MoveBottom => state.file_view.vertical = file_content_last_line(state),
        Action::HalfPageUp => move_file_content_cursor(state, -10),
        Action::HalfPageDown => move_file_content_cursor(state, 10),
        Action::ScrollLeft => {
            state.file_view.horizontal = step_exec(state.file_view.horizontal, -4);
        },
        Action::ScrollRight => {
            state.file_view.horizontal = step_exec(state.file_view.horizontal, 4);
        },
        _ => {},
    }
    Vec::new()
}

/// `t` is `s` opening the history and current content of `path`.
pub open spec fn file_view_loaded(s: AppState, t: AppState, path: Seq<u8>, e: Seq<GitEffect>) -> bool {
    let h = RequestId(s.next_request);
    let c = RequestId(next_id(s.next_request));
    &&& t == (AppState {
        file_view: FileViewState {
            path: t.file_view.path,
            commits: LoadState::Loading { request_id: h },
            selection: Selection { index: None },
            content: LoadState::Loading { request_id: c },
            showing_history_diff: false,
            horizontal: 0,
            ..s.file_view
        },
        diff: crate::app::model::DiffViewState {
            target: None,
            content: LoadState::Idle,
            ..s.diff
        },
        next_request: next_id(next_id(s.next_request)),
        ..s
    })
    &&& t.file_view.path matches Some(p) && p@ == path
    &&& e.len() == 2
    &&& e[0] matches GitEffect::LoadFileHistory { request_id, path: p, limit } && request_id == h
        && p@ == path && limit == FILE_HISTORY_LIMIT
    &&& e[1] matches GitEffect::LoadFileContent { request_id, path: p } && request_id == c && p@
        == path
}

/// Opens the file view on `path`, requesting its history and content.
pub fn load_file_view(state: &mut AppState, path: RepoPath) -> (effects: Vec<GitEffect>)
    ensures
        file_view_loaded(*old(state), *final(state), path@, effects@),
{
    state.file_view.path = Some(path.duplicate());
    state.file_view.selection = Selection { index: None };
    state.file_view.showing_history_diff = false;
    state.file_view.horizontal = 0;
    state.diff.target = None;
    state.diff.content = LoadState::Idle;
    let history_request = state.request_id();
    state.file_view.commits = LoadState::Loading { request_id: history_request };
    let content_request = state.request_id();
    state.file_view.content = LoadState::Loading { request_id: content_request };
    let mut effects: Vec<GitEffect> = Vec::new();
    effects.push(
        GitEffect::LoadFileHistory {
            request_id: history_request,
            path: path.duplicate(),
            limit: FILE_HISTORY_LIMIT,
        },
    );
    effects.push(GitEffect::LoadFileContent { request_id: content_request, path });
    effects
}

/// `t` is `s` showing the diff of the file view's selected commit for its
/// path, when both are known; else `s` unchanged.
pub open spec fn file_history_diff_selected(s: AppState, t: AppState, e: Seq<GitEffect>) -> bool {
    match (s.file_view.commits, s.file_view.selection.index, s.file_view.path) {
        (LoadState::Ready(commits), Some(i), Some(path)) if i < commits@.len() => {
            let c = commits@[i as int];
            exists|target: DiffTarget|
                #[trigger] crate::app::model::commit_target(target, c, path@) && diff_requested(
                    AppState {
                        file_view: FileViewState { showing_history_diff: true, ..s.file_view },
                        ..s
                    },
                    t,
                    target,
                    e,
                )
        },
        _ => t == s && e.len() == 0,
    }
}

/// Shows the diff of the file view's selected commit.
pub fn selected_file_history_diff(state: &mut AppState) -> (effects: Vec<GitEffect>)
    requires
        old(state).wf(),
    ensures
        final(state).wf(),
        file_history_diff_selected(*old(state), *final(state), effects@),
{
    let target = match (&state.file_view.commits, state.file_view.selection.index, &state.file_view.path) {
        (LoadState::Ready(commits), Some(i), Some(path)) => {
            if i < commits.len() {
                Some(
                    DiffTarget::Commit {
                        commit: commits[i].id.duplicate(),
                        baseline: commits[i].baseline(),
                        path: path.duplicate(),
                    },
                )
            } else {
                None
            }
        },
        _ => None,
    };
    match target {
        Some(target) => {
            state.file_view.showing_history_diff = true;
            let ghost mid = *state;
            let ghost t = target;
            let effects = state.request_diff(target);
            proof {
                let c = old(state).file_view.commits->Ready_0@[old(state).file_view.selection.index->0 as int];
                assert(crate::app::model::commit_target(t, c, old(state).file_view.path->0@));
            }
            effects
        },
        None => Vec::new(),
    }
}

/// `t` is `s` after opening the selected hit: a hit opened from the code view
/// is shown there at its line; any other opens the file view on its path,
/// scrolled to its line.
pub open spec fn hit_opened(s: AppState, t: AppState, e: Seq<GitEffect>) -> bool {
    match (s.repository_search.results, s.repository_search.selection.index) {
        (LoadState::Ready(hits), Some(i)) if i < hits@.len() => {
            let hit = hits@[i as int];
            if s.repository_search.return_view == AppView::Code {
                crate::app::code_view::revealed_and_loaded(
                    AppState { overlay: Overlay::Closed, view: AppView::Code, ..s },
                    t,
                    hit.path@,
                    hit.line,
                    e,
                )
            } else {
                file_view_loaded(
                    AppState {
                        file_view: FileViewState {
                            return_view: s.repository_search.return_view,
                            vertical: crate::app::code_view::line_index(hit.line),
                            ..s.file_view
                        },
                        overlay: Overlay::Closed,
                        view: AppView::FileHistory,
                        focus: FocusedPane::Primary,
                        ..s
                    },
                    t,
                    hit.path@,
                    e,
                )
            }
        },
        _ => t == s && e.len() == 0,
    }
}

fn open_selected_file(state: &mut AppState) -> (effects: Vec<GitEffect>)
    requires
        old(state).wf(),
    ensures
        final(state).wf(),
        hit_opened(*old(state), *final(state), effects@),
{
    let hit = match (&state.repository_search.results, state.repository_search.selection.index) {
        (LoadState::Ready(hits), Some(i)) => {
            if i < hits.len() {
                Some((hits[i].path.duplicate(), hits[i].line))
            } else {
                None
            }
        },
        _ => None,
    };
    let (path, line) = match hit {
        Some(h) => h,
        None => return Vec::new(),
    };
    state.overlay = Overlay::Closed;
    if state.repository_search.return_view == AppView::Code {
        state.view = AppView::Code;
        return crate::app::code_view::reveal_and_load(state, path, line);
    }
    state.file_view.return_view = state.repository_search.return_view;
    state.file_view.vertical = match line {
        Some(l) => if l > 0 {
            (l - 1) as usize
        } else {
            0
        },
        None => 0,
    };
    proof {
        assert(state.file_view.vertical == crate::app::code_view::line_index(line));
    }
    state.view = AppView::FileHistory;
    state.focus = FocusedPane::Primary;
    load_file_view(state, path)
}

} // verus!
