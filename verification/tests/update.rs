use chronogit::app::action::{Action, Event};
use chronogit::app::code_view::{reveal_and_load, request_tree, tree_loaded};
use chronogit::app::effect::GitEffect;
use chronogit::app::model::{
    AppState, AppView, FocusedPane, HistoryPanel, LoadState, Overlay, RepositorySearchKind,
};
use chronogit::app::search::SearchDirection;
use chronogit::app::update::{apply_action, apply_event};
use chronogit::domain::change::{ChangeKind, ChangedFile, WorktreeChange};
use chronogit::domain::commit::{CommitMessage, CommitSummary, ObjectId};
use chronogit::domain::diff::{DiffDocument, DiffLine, DiffLineKind, DiffTarget};
use chronogit::domain::path::{RepoPath, RepositoryRoot};
use chronogit::domain::search::{FileDocument, SearchHit};
use chronogit::domain::tree::{TreeEntry, TreeKind};
use chronogit::git::runner::GitError;

fn state() -> AppState {
    let root = RepositoryRoot::new(b"/tmp/repo".to_vec()).unwrap_or_else(|error| panic!("{error}"));
    AppState::new(root, AppView::Changes)
}

fn path(value: &str) -> RepoPath {
    RepoPath::from_bytes(value.as_bytes().to_vec()).unwrap_or_else(|error| panic!("{error}"))
}

fn commit(value: char, subject: &str) -> CommitSummary {
    CommitSummary::new(
        ObjectId::parse(value.to_string().repeat(40))
            .unwrap_or_else(|error| panic!("invalid fixture object ID: {error}")),
        Vec::new(),
        "Ada".to_owned(),
        "2026-01-01T00:00:00Z".to_owned(),
        subject.to_owned(),
    )
}

fn numbered_commit(value: usize) -> CommitSummary {
    CommitSummary::new(
        ObjectId::parse(format!("{value:040x}"))
            .unwrap_or_else(|error| panic!("invalid numbered object ID: {error}")),
        Vec::new(),
        "Ada".to_owned(),
        "2026-01-01T00:00:00Z".to_owned(),
        format!("commit {value}"),
    )
}

fn tree_entry(value: char, kind: TreeKind, name: &str, mode: &str) -> TreeEntry {
    TreeEntry::new(
        ObjectId::parse(value.to_string().repeat(40))
            .unwrap_or_else(|error| panic!("invalid tree object ID: {error}")),
        mode.to_owned(),
        kind,
        path(name),
    )
}

fn commit_target(c: &CommitSummary, p: RepoPath) -> DiffTarget {
    DiffTarget::Commit { commit: c.id().clone(), baseline: c.baseline(), path: p }
}

#[test]
fn stale_change_response_is_ignored() {
    let mut state = state();
    let first = state.start();
    let request_id = match &first[0] {
        GitEffect::LoadChanges { request_id } => *request_id,
        _ => panic!("expected change request"),
    };
    let _newer = apply_action(&mut state, Action::Refresh);
    let _effects = apply_event(
        &mut state,
        Event::ChangesLoaded {
            request_id,
            result: Ok(vec![WorktreeChange::new(path("old"), None, ChangeKind::Modified)]),
        },
    );
    assert!(matches!(state.changes, LoadState::Loading { .. }));
}

#[test]
fn diff_response_for_current_request_is_applied() {
    let mut state = state();
    let target = DiffTarget::Worktree { path: path("file"), untracked: false };
    let effect = state.request_diff(target);
    let request_id = match &effect[0] {
        GitEffect::LoadDiff { request_id, .. } => *request_id,
        _ => panic!("expected diff request"),
    };
    let _effects = apply_event(
        &mut state,
        Event::DiffLoaded {
            request_id,
            result: Ok(DiffDocument::Empty { message: "none".to_owned() }),
        },
    );
    assert!(matches!(state.diff.content, LoadState::Ready(_)));
}

#[test]
fn switching_views_while_loading_starts_the_other_resource() {
    let mut state = state();
    let _changes = state.start();
    let effects = apply_action(&mut state, Action::ShowHistory);
    assert!(matches!(state.changes, LoadState::Loading { .. }));
    assert!(matches!(state.commits, LoadState::Loading { .. }));
    assert!(matches!(effects.first(), Some(GitEffect::LoadCommits { .. })));
}

#[test]
fn refresh_retries_after_a_loading_error() {
    let mut state = state();
    let effects = state.start();
    let request_id = match &effects[0] {
        GitEffect::LoadChanges { request_id } => *request_id,
        _ => panic!("expected change request"),
    };
    let _none = apply_event(
        &mut state,
        Event::ChangesLoaded {
            request_id,
            result: Err(GitError::Unsupported("failed".to_owned())),
        },
    );
    assert!(matches!(state.changes, LoadState::Failed(_)));
    let retry = apply_action(&mut state, Action::Refresh);
    assert!(matches!(state.changes, LoadState::Loading { .. }));
    assert!(matches!(retry.first(), Some(GitEffect::LoadChanges { .. })));
}

#[test]
fn refresh_preserves_the_selected_change_by_path() {
    let mut state = state();
    state.changes = LoadState::Ready(vec![
        WorktreeChange::new(path("first"), None, ChangeKind::Modified),
        WorktreeChange::new(path("selected"), None, ChangeKind::Modified),
    ]);
    state.change_selection.reset_to(2, Some(1));

    let refresh = apply_action(&mut state, Action::Refresh);
    let request_id = match refresh.first() {
        Some(GitEffect::LoadChanges { request_id }) => *request_id,
        _ => panic!("expected refresh request"),
    };
    let effects = apply_event(
        &mut state,
        Event::ChangesLoaded {
            request_id,
            result: Ok(vec![
                WorktreeChange::new(path("selected"), None, ChangeKind::Modified),
                WorktreeChange::new(path("first"), None, ChangeKind::Modified),
            ]),
        },
    );

    assert_eq!(state.change_selection.index(), Some(0));
    assert!(matches!(
        effects.first(),
        Some(GitEffect::LoadDiff {
            target: DiffTarget::Worktree { path, .. },
            ..
        }) if path.as_bytes() == b"selected"
    ));
}

#[test]
fn history_refresh_preserves_the_selected_commit_by_id() {
    let mut state = state();
    state.view = AppView::History;
    let first = commit('a', "first");
    let selected = commit('b', "selected");
    state.commits = LoadState::Ready(vec![first.duplicate(), selected.duplicate()]);
    state.commit_selection.reset_to(2, Some(1));

    let refresh = apply_action(&mut state, Action::Refresh);
    let request_id = match refresh.first() {
        Some(GitEffect::LoadCommits { request_id, .. }) => *request_id,
        _ => panic!("expected history refresh request"),
    };
    let effects = apply_event(
        &mut state,
        Event::CommitsLoaded {
            request_id,
            append: false,
            limit: 200,
            result: Ok(vec![selected.duplicate(), first]),
        },
    );

    assert_eq!(state.commit_selection.index(), Some(0));
    assert!(matches!(
        effects.first(),
        Some(GitEffect::LoadFiles { commit, .. }) if commit.as_str() == selected.id().as_str()
    ));
}

#[test]
fn help_overlay_does_not_change_commit_body_scroll() {
    let mut state = state();
    state.message.scroll = 7;
    let _none = apply_action(&mut state, Action::ToggleHelp);
    let _none = apply_action(&mut state, Action::HalfPageDown);
    assert_eq!(state.message.scroll, 7);
    let _none = apply_action(&mut state, Action::CloseOverlay);
    assert_eq!(state.overlay, Overlay::Closed);
}

#[test]
fn focus_moves_across_every_history_and_detail_pane() {
    for view in [AppView::History, AppView::CommitDetails] {
        let mut state = state();
        state.view = view;

        let _none = apply_action(&mut state, Action::FocusRight);
        assert_eq!(state.focus, FocusedPane::Secondary);
        let _none = apply_action(&mut state, Action::FocusRight);
        assert_eq!(state.focus, FocusedPane::Diff);
        let _none = apply_action(&mut state, Action::FocusLeft);
        assert_eq!(state.focus, FocusedPane::Secondary);
        let _none = apply_action(&mut state, Action::FocusLeft);
        assert_eq!(state.focus, FocusedPane::Primary);
    }
}

#[test]
fn enter_on_a_history_commit_focuses_changed_files() {
    let mut state = state();
    state.view = AppView::History;
    state.focus = FocusedPane::Primary;
    state.history_panel = HistoryPanel::Tree;

    let effects = apply_action(&mut state, Action::Activate);
    assert!(effects.is_empty());
    assert_eq!(state.history_panel, HistoryPanel::ChangedFiles);
    assert_eq!(state.focus, FocusedPane::Secondary);

    state.view = AppView::CommitDetails;
    state.focus = FocusedPane::Primary;
    let effects = apply_action(&mut state, Action::Activate);
    assert!(effects.is_empty());
    assert_eq!(state.focus, FocusedPane::Diff);
}

#[test]
fn diff_navigation_is_preserved_while_the_diff_loads() {
    let mut state = state();
    let target = DiffTarget::Worktree { path: path("pending.txt"), untracked: false };
    let effects = state.request_diff(target);
    let request_id = match effects.first() {
        Some(GitEffect::LoadDiff { request_id, .. }) => *request_id,
        _ => panic!("expected diff request"),
    };
    state.overlay = Overlay::Diff;

    let _none = apply_action(&mut state, Action::HalfPageDown);
    assert_eq!(state.diff.vertical, 10);
    let _none = apply_action(&mut state, Action::HalfPageUp);
    assert_eq!(state.diff.vertical, 0);
    let _none = apply_action(&mut state, Action::HalfPageDown);
    assert_eq!(state.diff.vertical, 10);

    let _none = apply_event(
        &mut state,
        Event::DiffLoaded {
            request_id,
            result: Ok(DiffDocument::Text {
                lines: (0..30)
                    .map(|index| {
                        DiffLine::new(DiffLineKind::Context, None, None, format!("line {index}"))
                    })
                    .collect(),
                bytes: 210,
            }),
        },
    );
    assert_eq!(state.diff.vertical, 10);
}

#[test]
fn changed_file_opens_a_scrollable_searchable_diff_overlay() {
    let mut state = state();
    state.view = AppView::History;
    state.focus = FocusedPane::Secondary;
    let selected = commit('a', "searchable");
    state.commits = LoadState::Ready(vec![selected.duplicate()]);
    state.commit_selection.reset(1);
    state.files = LoadState::Ready(vec![ChangedFile::new(path("src/lib.rs"), None, ChangeKind::Modified)]);
    state.file_selection.reset(1);
    state.diff.target = Some(commit_target(&selected, path("src/lib.rs")));
    state.diff.content = LoadState::Ready(DiffDocument::Text {
        lines: vec![
            DiffLine::new(DiffLineKind::Context, None, None, "first".to_owned()),
            DiffLine::new(DiffLineKind::Added, None, None, "+search needle".to_owned()),
            DiffLine::new(DiffLineKind::Removed, None, None, "-second needle".to_owned()),
        ],
        bytes: 34,
    });

    let _none = apply_action(&mut state, Action::Activate);
    assert_eq!(state.overlay, Overlay::Diff);

    let _none = apply_action(&mut state, Action::MoveDown);
    assert_eq!(state.diff.vertical, 1);
    let _none = apply_action(&mut state, Action::MoveUp);
    assert_eq!(state.diff.vertical, 0);

    let _none = apply_action(&mut state, Action::StartSearch(SearchDirection::Forward));
    for character in "needle".chars() {
        let _none = apply_action(&mut state, Action::InsertSearch(character));
    }
    let _none = apply_action(&mut state, Action::ConfirmSearch);
    assert_eq!(state.diff.vertical, 1);
    assert_eq!(state.search.match_count(), 2);

    let _none = apply_action(&mut state, Action::NextMatch);
    assert_eq!(state.diff.vertical, 2);
    let _none = apply_action(&mut state, Action::PreviousMatch);
    assert_eq!(state.diff.vertical, 1);

    let _none = apply_action(&mut state, Action::Activate);
    assert_eq!(state.overlay, Overlay::Closed);
    assert!(state.search.query().is_empty());
}

#[test]
fn reaching_the_history_page_end_requests_and_appends_the_next_page() {
    let mut state = state();
    state.view = AppView::History;
    state.commits = LoadState::Ready((0..200).map(numbered_commit).collect());
    state.commit_selection.reset_to(200, Some(198));
    state.history_page.has_more = true;

    let effects = apply_action(&mut state, Action::MoveDown);
    let (request_id, skip, limit) = effects
        .iter()
        .find_map(|effect| match effect {
            GitEffect::LoadCommits { request_id, skip, limit, append: true } => {
                Some((*request_id, *skip, *limit))
            }
            _ => None,
        })
        .unwrap_or_else(|| panic!("expected next history page request"));
    assert_eq!((skip, limit), (200, 200));

    let _none = apply_event(
        &mut state,
        Event::CommitsLoaded {
            request_id,
            append: true,
            limit,
            result: Ok(vec![numbered_commit(200)]),
        },
    );
    assert!(matches!(&state.commits, LoadState::Ready(commits) if commits.len() == 201));
    assert!(!state.history_page.has_more);
    assert!(state.history_page.loading_more.is_none());
}

#[test]
fn tree_expands_collapses_and_selects_a_blob_diff() {
    let mut state = state();
    state.view = AppView::History;
    let selected_commit = commit('a', "tree");
    state.commits = LoadState::Ready(vec![selected_commit.duplicate()]);
    state.commit_selection.reset(1);

    let root_effects = apply_action(&mut state, Action::ToggleTree);
    assert_eq!(state.history_panel, HistoryPanel::Tree);
    let (root_request, commit_id) = match root_effects.first() {
        Some(GitEffect::LoadTree { request_id, commit, parent: None, .. }) => {
            (*request_id, commit.clone())
        }
        _ => panic!("expected root tree request"),
    };
    let directory = tree_entry('b', TreeKind::Directory, "dir", "040000");
    let _none = apply_event(
        &mut state,
        Event::TreeLoaded {
            request_id: root_request,
            commit: commit_id.clone(),
            parent: None,
            result: Ok(vec![directory]),
        },
    );
    let _none = apply_action(&mut state, Action::FocusRight);

    let child_effects = apply_action(&mut state, Action::Activate);
    let (child_request, parent) = match child_effects.first() {
        Some(GitEffect::LoadTree { request_id, parent: Some(parent), .. }) => {
            (*request_id, parent.duplicate())
        }
        _ => panic!("expected child tree request"),
    };
    let file = tree_entry('c', TreeKind::File, "file.txt", "100644");
    let _none = apply_event(
        &mut state,
        Event::TreeLoaded {
            request_id: child_request,
            commit: commit_id,
            parent: Some(parent),
            result: Ok(vec![file]),
        },
    );
    assert!(matches!(
        &state.tree.visible,
        LoadState::Ready(entries) if entries.len() == 2 && entries[0].expanded()
    ));

    let _none = apply_action(&mut state, Action::Activate);
    assert!(matches!(&state.tree.visible, LoadState::Ready(entries) if entries.len() == 1));
    let cached = apply_action(&mut state, Action::Activate);
    assert!(cached.is_empty());
    assert!(matches!(&state.tree.visible, LoadState::Ready(entries) if entries.len() == 2));
    let _none = apply_action(&mut state, Action::MoveDown);
    let diff = apply_action(&mut state, Action::Activate);
    assert!(matches!(
        diff.first(),
        Some(GitEffect::LoadDiff {
            target: DiffTarget::Commit { path, .. },
            ..
        }) if path.display() == "dir/file.txt"
    ));
    assert_eq!(state.overlay, Overlay::Diff);
}

#[test]
fn commit_message_overlay_retries_errors_and_scrolls_the_full_message() {
    let mut state = state();
    state.view = AppView::History;
    let selected = commit('a', "message");
    state.commits = LoadState::Ready(vec![selected.duplicate()]);
    state.commit_selection.reset(1);

    let first = apply_action(&mut state, Action::ToggleMessage);
    assert_eq!(state.overlay, Overlay::CommitMessage);
    let first_request = match first.first() {
        Some(GitEffect::LoadMessage { request_id, .. }) => *request_id,
        _ => panic!("expected message request"),
    };
    let _none = apply_event(
        &mut state,
        Event::MessageLoaded {
            request_id: first_request,
            commit: selected.id().clone(),
            result: Err(GitError::Unsupported("message failed".to_owned())),
        },
    );
    assert!(matches!(state.message.content, LoadState::Failed(_)));
    let _closed = apply_action(&mut state, Action::ToggleMessage);
    assert_eq!(state.overlay, Overlay::Closed);

    let retry = apply_action(&mut state, Action::ToggleMessage);
    let retry_request = match retry.first() {
        Some(GitEffect::LoadMessage { request_id, .. }) => *request_id,
        _ => panic!("expected message retry"),
    };
    let _none = apply_event(
        &mut state,
        Event::MessageLoaded {
            request_id: retry_request,
            commit: selected.id().clone(),
            result: Ok(CommitMessage::new("message\n\nbody one\nbody two\nbody three\n".to_owned())),
        },
    );
    let _none = apply_action(&mut state, Action::HalfPageDown);
    assert_eq!(state.message.scroll, 4);
    assert!(matches!(state.message.content, LoadState::Ready(_)));

    let _closed = apply_action(&mut state, Action::ToggleMessage);
    assert_eq!(state.overlay, Overlay::Closed);
}

#[test]
fn commit_body_view_keeps_the_commit_list_interactive() {
    let mut state = state();
    state.view = AppView::History;
    let first = commit('a', "first");
    let second = commit('b', "second");
    state.commits = LoadState::Ready(vec![first.duplicate(), second.duplicate()]);
    state.commit_selection.reset(2);

    let open = apply_action(&mut state, Action::ToggleDetails);
    assert_eq!(state.view, AppView::CommitDetails);
    let message_request = match open.first() {
        Some(GitEffect::LoadMessage { request_id, commit })
            if commit.as_str() == first.id().as_str() =>
        {
            *request_id
        }
        _ => panic!("expected first commit message request"),
    };
    let _none = apply_event(
        &mut state,
        Event::MessageLoaded {
            request_id: message_request,
            commit: first.id().clone(),
            result: Ok(CommitMessage::new("first\n\nbody one\nbody two\nbody three\n".to_owned())),
        },
    );

    let _none = apply_action(&mut state, Action::FocusRight);
    let _none = apply_action(&mut state, Action::MoveDown);
    assert_eq!(state.message.scroll, 1);
    let _none = apply_action(&mut state, Action::FocusLeft);
    let effects = apply_action(&mut state, Action::MoveDown);
    assert_eq!(state.commit_selection.index(), Some(1));
    assert_eq!(state.message.scroll, 0);
    assert!(effects.iter().any(|effect| matches!(
        effect,
        GitEffect::LoadFiles { commit, .. } if commit.as_str() == second.id().as_str()
    )));
    assert!(effects.iter().any(|effect| matches!(
        effect,
        GitEffect::LoadMessage { commit, .. } if commit.as_str() == second.id().as_str()
    )));

    state.history_panel = HistoryPanel::Tree;
    state.tree.commit = Some(first.id().clone());
    let close = apply_action(&mut state, Action::ToggleDetails);
    assert_eq!(state.view, AppView::History);
    assert!(close.iter().any(|effect| matches!(
        effect,
        GitEffect::LoadTree { commit, .. } if commit.as_str() == second.id().as_str()
    )));
}

#[test]
fn commit_body_view_changed_file_opens_a_diff() {
    let mut state = state();
    state.view = AppView::CommitDetails;
    state.focus = FocusedPane::Diff;
    let selected = commit('a', "details");
    state.commits = LoadState::Ready(vec![selected.duplicate()]);
    state.commit_selection.reset(1);
    state.files = LoadState::Ready(vec![ChangedFile::new(path("src/lib.rs"), None, ChangeKind::Modified)]);
    state.file_selection.reset(1);
    state.diff.target = Some(commit_target(&selected, path("src/lib.rs")));

    let _none = apply_action(&mut state, Action::Activate);
    assert_eq!(state.overlay, Overlay::Diff);
}

#[test]
fn close_action_returns_from_commit_details() {
    let mut state = state();
    state.view = AppView::CommitDetails;
    state.focus = FocusedPane::Diff;

    let effects = apply_action(&mut state, Action::CloseOverlay);

    assert!(effects.is_empty());
    assert_eq!(state.view, AppView::History);
    assert_eq!(state.focus, FocusedPane::Primary);
}

#[test]
fn graph_opens_changed_files_and_diff_then_returns_with_escape() {
    let mut state = state();
    state.view = AppView::Graph;
    let selected = commit('a', "graph commit");
    state.commits = LoadState::Ready(vec![selected.duplicate()]);
    state.commit_selection.reset(1);

    let effects = apply_action(&mut state, Action::Activate);
    assert_eq!(state.view, AppView::GraphDetails);
    assert_eq!(state.focus, FocusedPane::Secondary);
    let files_request = effects
        .iter()
        .find_map(|effect| match effect {
            GitEffect::LoadFiles { request_id, .. } => Some(*request_id),
            _ => None,
        })
        .unwrap_or_else(|| panic!("graph details must request changed files"));
    let diff_effects = apply_event(
        &mut state,
        Event::FilesLoaded {
            request_id: files_request,
            commit: selected.id().clone(),
            result: Ok(vec![ChangedFile::new(path("src/graph.rs"), None, ChangeKind::Modified)]),
        },
    );
    assert!(diff_effects.iter().any(|effect| matches!(effect, GitEffect::LoadDiff { .. })));

    let _none = apply_action(&mut state, Action::Activate);
    assert_eq!(state.overlay, Overlay::Diff);
    let _none = apply_action(&mut state, Action::CloseOverlay);
    assert_eq!(state.overlay, Overlay::Closed);
    let _none = apply_action(&mut state, Action::CloseOverlay);
    assert_eq!(state.view, AppView::Graph);

    let message = apply_action(&mut state, Action::ToggleMessage);
    assert_eq!(state.overlay, Overlay::CommitMessage);
    assert!(message.iter().any(|effect| matches!(effect, GitEffect::LoadMessage { .. })));
}

#[test]
fn global_content_search_opens_current_file_then_history_diff() {
    let mut state = state();
    let _none = apply_action(&mut state, Action::OpenContentSearch);
    assert_eq!(state.overlay, Overlay::RepositorySearch);
    assert_eq!(state.repository_search.kind, RepositorySearchKind::Content);
    let first_search = apply_action(&mut state, Action::InsertSearch('n'));
    let first_request = match first_search.first() {
        Some(GitEffect::SearchContent { request_id, query }) => {
            assert_eq!(query, "n");
            *request_id
        }
        other => panic!("unexpected first live-search effect: {other:?}"),
    };
    for character in "eedle".chars() {
        let _live_search = apply_action(&mut state, Action::InsertSearch(character));
    }
    let delete_search = apply_action(&mut state, Action::DeleteSearch);
    assert!(matches!(
        delete_search.first(),
        Some(GitEffect::SearchContent { query, .. }) if query == "needl"
    ));
    let latest_search = apply_action(&mut state, Action::InsertSearch('e'));
    let search_request = match latest_search.first() {
        Some(GitEffect::SearchContent { request_id, query }) => {
            assert_eq!(query, "needle");
            *request_id
        }
        other => panic!("unexpected latest live-search effect: {other:?}"),
    };
    let _ignored = apply_event(
        &mut state,
        Event::RepositorySearchLoaded {
            request_id: first_request,
            result: Ok(vec![SearchHit::content(path("src/search.rs"), 1, "old result".to_owned())]),
        },
    );
    assert_eq!(
        state.repository_search.results.loading_request(),
        Some(search_request),
        "a result from an earlier query must not replace the live search"
    );
    let confirm = apply_action(&mut state, Action::ConfirmSearch);
    assert!(confirm.is_empty());
    assert!(state.repository_search.prompt.is_none());
    let _none = apply_event(
        &mut state,
        Event::RepositorySearchLoaded {
            request_id: search_request,
            result: Ok(vec![SearchHit::content(path("src/search.rs"), 2, "needle".to_owned())]),
        },
    );
    let file_effects = apply_action(&mut state, Action::Activate);
    assert_eq!(state.view, AppView::FileHistory);
    assert_eq!(state.overlay, Overlay::Closed);
    assert_eq!(state.file_view.vertical, 1);

    let history_request = file_effects
        .iter()
        .find_map(|effect| match effect {
            GitEffect::LoadFileHistory { request_id, .. } => Some(*request_id),
            _ => None,
        })
        .unwrap_or_else(|| panic!("file history must load"));
    let content_request = file_effects
        .iter()
        .find_map(|effect| match effect {
            GitEffect::LoadFileContent { request_id, .. } => Some(*request_id),
            _ => None,
        })
        .unwrap_or_else(|| panic!("file content must load"));
    let first = commit('a', "newer");
    let second = commit('b', "older");
    let _none = apply_event(
        &mut state,
        Event::FileHistoryLoaded {
            request_id: history_request,
            path: path("src/search.rs"),
            result: Ok(vec![first, second.duplicate()]),
        },
    );
    let _none = apply_event(
        &mut state,
        Event::FileContentLoaded {
            request_id: content_request,
            path: path("src/search.rs"),
            result: Ok(FileDocument::Text {
                lines: vec!["one".to_owned(), "needle".to_owned()],
                truncated: false,
            }),
        },
    );
    assert!(!state.file_view.showing_history_diff);
    let _none = apply_action(&mut state, Action::Activate);
    assert_eq!(state.overlay, Overlay::FileContent);
    let _none = apply_action(&mut state, Action::CloseOverlay);

    let diff = apply_action(&mut state, Action::MoveDown);
    assert!(state.file_view.showing_history_diff);
    assert!(diff.iter().any(|effect| matches!(
        effect,
        GitEffect::LoadDiff { target: DiffTarget::Commit { commit, .. }, .. }
            if commit.as_str() == second.id().as_str()
    )));
    let _none = apply_action(&mut state, Action::Activate);
    assert_eq!(state.overlay, Overlay::Diff);
    let _none = apply_action(&mut state, Action::CloseOverlay);
    let _none = apply_action(&mut state, Action::CloseOverlay);
    assert_eq!(state.view, AppView::Changes);
}

#[test]
fn repository_search_can_return_to_the_prompt_and_search_again() {
    let mut state = state();
    let _none = apply_action(&mut state, Action::OpenFileSearch);
    let initial = apply_action(&mut state, Action::InsertSearch('R'));
    assert!(matches!(
        initial.first(),
        Some(GitEffect::SearchFiles { query, .. }) if query == "R"
    ));

    let focus_results = apply_action(&mut state, Action::FocusRight);
    assert!(focus_results.is_empty());
    assert!(state.repository_search.prompt.is_none());

    let focus_search = apply_action(&mut state, Action::FocusLeft);
    assert!(focus_search.is_empty());
    assert_eq!(state.repository_search.prompt.as_deref(), Some("R"));

    let repeated = apply_action(&mut state, Action::InsertSearch('E'));
    assert!(matches!(
        repeated.first(),
        Some(GitEffect::SearchFiles { query, .. }) if query == "RE"
    ));
    assert_eq!(state.repository_search.query, "RE");

    let confirm = apply_action(&mut state, Action::ConfirmSearch);
    assert!(confirm.is_empty());
    assert!(state.repository_search.prompt.is_none());
}

#[test]
fn code_view_expands_files_opens_full_content_and_keeps_search_in_the_workflow() {
    let mut state = state();
    let tree_effects = apply_action(&mut state, Action::ShowCode);
    assert_eq!(state.view, AppView::Code);
    let tree_request = match tree_effects.first() {
        Some(GitEffect::LoadCodeTree { request_id }) => *request_id,
        other => panic!("expected code-tree request, got {other:?}"),
    };
    let preview = apply_event(
        &mut state,
        Event::CodeTreeLoaded {
            request_id: tree_request,
            result: Ok(vec![path("README.md"), path("src/lib.rs")]),
        },
    );
    assert!(preview.is_empty());
    assert!(matches!(
        &state.code_view.visible,
        LoadState::Ready(entries)
            if entries.len() == 2
                && entries[0].path().display() == "src"
                && entries[1].path().display() == "README.md"
    ));

    let _expanded = apply_action(&mut state, Action::Activate);
    assert!(matches!(
        &state.code_view.visible,
        LoadState::Ready(entries) if entries.len() == 3 && entries[0].expanded()
    ));
    let file_effects = apply_action(&mut state, Action::MoveDown);
    let file_request = match file_effects.first() {
        Some(GitEffect::LoadCodeFile { request_id, path }) if path.as_bytes() == b"src/lib.rs" => {
            *request_id
        }
        other => panic!("expected code-file request, got {other:?}"),
    };
    let _none = apply_event(
        &mut state,
        Event::CodeFileLoaded {
            request_id: file_request,
            path: path("src/lib.rs"),
            result: Ok(FileDocument::Text {
                lines: vec!["first".to_owned(), "searchable code".to_owned()],
                truncated: false,
            }),
        },
    );
    let _none = apply_action(&mut state, Action::FocusRight);
    let _none = apply_action(&mut state, Action::Activate);
    assert_eq!(state.overlay, Overlay::CodeContent);

    let _none = apply_action(&mut state, Action::StartSearch(SearchDirection::Forward));
    for character in "searchable".chars() {
        let _none = apply_action(&mut state, Action::InsertSearch(character));
    }
    let _none = apply_action(&mut state, Action::ConfirmSearch);
    assert_eq!(state.code_view.vertical, 1);
    let _none = apply_action(&mut state, Action::CloseOverlay);
    assert_eq!(state.overlay, Overlay::Closed);
    assert_eq!(state.focus, FocusedPane::Diff);
    let _none = apply_action(&mut state, Action::FocusLeft);
    assert_eq!(state.focus, FocusedPane::Primary);
    let _none = apply_action(&mut state, Action::FocusRight);
    assert_eq!(state.focus, FocusedPane::Diff);

    let _none = apply_action(&mut state, Action::OpenContentSearch);
    let search = apply_action(&mut state, Action::InsertSearch('x'));
    let search_request = match search.first() {
        Some(GitEffect::SearchContent { request_id, .. }) => *request_id,
        other => panic!("expected repository search, got {other:?}"),
    };
    let _none = apply_event(
        &mut state,
        Event::RepositorySearchLoaded {
            request_id: search_request,
            result: Ok(vec![SearchHit::content(path("src/lib.rs"), 2, "x".to_owned())]),
        },
    );
    let _none = apply_action(&mut state, Action::ConfirmSearch);
    let opened = apply_action(&mut state, Action::Activate);
    assert_eq!(state.view, AppView::Code);
    assert_eq!(state.focus, FocusedPane::Diff);
    assert_eq!(state.code_view.vertical, 1);
    assert!(matches!(
        opened.first(),
        Some(GitEffect::LoadCodeFile { path, .. }) if path.as_bytes() == b"src/lib.rs"
    ));
}

#[test]
fn defers_revealing_a_search_result_until_the_tree_finishes_loading() {
    let root = RepositoryRoot::new(b"/tmp/repo".to_vec())
        .unwrap_or_else(|error| panic!("invalid fixture root: {error}"));
    let mut state = AppState::new(root, AppView::Code);
    let _loading = request_tree(&mut state);
    let target = path("src/app/model.rs");

    let _file = reveal_and_load(&mut state, target.clone(), Some(3));
    assert!(matches!(state.code_view.visible, LoadState::Loading { .. }));
    assert!(matches!(&state.code_view.pending_reveal, Some(p) if p.as_bytes() == target.as_bytes()));

    let follow_up = tree_loaded(&mut state, Ok(vec![path("README.md"), target.clone()]));
    assert!(follow_up.is_empty());
    assert!(state.code_view.pending_reveal.is_none());
    assert!(matches!(
        &state.code_view.visible,
        LoadState::Ready(entries)
            if state.code_view.selection.index()
                .and_then(|index| entries.get(index))
                .is_some_and(|entry| entry.path().as_bytes() == target.as_bytes())
    ));
    assert_eq!(state.code_view.vertical, 2);
}

#[test]
fn a_completion_for_a_file_no_longer_shown_is_ignored() {
    let mut state = state();
    let effects = chronogit::app::repository_search::load_file_view(&mut state, path("a.txt"));
    let request_id = match effects.get(1) {
        Some(GitEffect::LoadFileContent { request_id, .. }) => *request_id,
        _ => panic!("expected content request"),
    };
    let _none = apply_event(
        &mut state,
        Event::FileContentLoaded {
            request_id,
            path: path("b.txt"),
            result: Ok(FileDocument::Text { lines: vec!["x".to_owned()], truncated: false }),
        },
    );
    assert!(matches!(state.file_view.content, LoadState::Loading { .. }));
}

#[test]
fn cached_diffs_are_reused_without_a_new_request() {
    let mut state = state();
    let effects = state.request_diff(DiffTarget::Worktree { path: path("a"), untracked: false });
    let request_id = match effects.first() {
        Some(GitEffect::LoadDiff { request_id, .. }) => *request_id,
        _ => panic!("expected diff request"),
    };
    let _none = apply_event(
        &mut state,
        Event::DiffLoaded {
            request_id,
            result: Ok(DiffDocument::Binary { summary: "binary".to_owned() }),
        },
    );
    let _other = state.request_diff(DiffTarget::Worktree { path: path("b"), untracked: false });
    let again = state.request_diff(DiffTarget::Worktree { path: path("a"), untracked: false });
    assert!(again.is_empty());
    assert!(matches!(&state.diff.content, LoadState::Ready(DiffDocument::Binary { summary }) if summary == "binary"));
}

#[test]
fn the_terminal_size_is_recorded() {
    let mut state = state();
    assert_eq!((state.terminal_width, state.terminal_height), (80, 24));
    state.set_terminal_size(120, 40);
    assert_eq!((state.terminal_width, state.terminal_height), (120, 40));
}

#[test]
fn request_ids_are_never_reused_across_operations() {
    let mut state = state();
    let first = state.request_id();
    assert_eq!(first.value(), 1);
    let _effects = state.start();
    let _effects = apply_action(&mut state, Action::Refresh);
    let later = state.request_id();
    assert!(later.value() > first.value());
    let next = state.request_id();
    assert_eq!(next.value(), later.value() + 1);
}
