use chronogit::app::action::{Action, Event, VimMotion, VimMotionKind};
use chronogit::app::effect::{AppEffect, GitEffect, LspEffect};
use chronogit::app::model::{AppState, AppView, FocusedPane, LoadState, NavigationOrigin, Overlay};
use chronogit::app::semantic_navigation::{
    apply_semantic_action, apply_semantic_event, code_cursor, current_origin, jump_to_mark,
    jump_to_previous, jump_to_repository, remember_jump, MAX_JUMP_HISTORY,
};
use chronogit::domain::path::{RepoPath, RepositoryRoot};
use chronogit::domain::search::FileDocument;
use chronogit::domain::source::{
    NavigationTarget, RepositoryLocation, SemanticNavigationKind, SourcePosition, SourceRange,
};
use chronogit::lsp::LspError;

fn path(value: &str) -> RepoPath {
    RepoPath::from_bytes(value.as_bytes().to_vec()).unwrap_or_else(|error| panic!("path: {error}"))
}

fn text(lines: &[&str]) -> LoadState<FileDocument> {
    LoadState::Ready(FileDocument::Text {
        lines: lines.iter().map(|line| (*line).to_owned()).collect(),
        truncated: false,
    })
}

fn state() -> AppState {
    let root = RepositoryRoot::new(b"/tmp/repo".to_vec())
        .unwrap_or_else(|error| panic!("root: {error}"));
    let mut state = AppState::new(root, AppView::Code);
    state.focus = FocusedPane::Diff;
    state.overlay = Overlay::CodeContent;
    state.code_view.path = Some(path("src/main.rs"));
    state.code_view.content = text(&["fn main() {}"]);
    state
}

fn set_cursor(state: &mut AppState, line: usize, column: usize) {
    state.code_view.vertical = line;
    state.code_view.cursor_column = column;
}

fn navigate_id(effects: &[AppEffect]) -> chronogit::app::model::RequestId {
    match effects.first() {
        Some(AppEffect::Lsp(LspEffect::Navigate { request_id, .. })) => *request_id,
        other => panic!("unexpected effect: {other:?}"),
    }
}

fn completed(
    state: &AppState,
    request_id: chronogit::app::model::RequestId,
    position: SourcePosition,
    kind: SemanticNavigationKind,
    result: Result<Vec<NavigationTarget>, LspError>,
) -> Event {
    Event::SemanticNavigationCompleted {
        request_id,
        path: path("src/main.rs"),
        position,
        document_revision: state.code_view.document_revision,
        kind,
        result,
    }
}

#[test]
fn hover_opens_scrolls_and_toggles_back_to_code_content() {
    let mut state = state();
    set_cursor(&mut state, 0, 3);
    let effects = apply_semantic_action(&mut state, Action::ToggleLspHover).unwrap_or_default();
    let (request_id, document_revision) = match &effects[0] {
        AppEffect::Lsp(LspEffect::Hover { request_id, document_revision, .. }) => {
            (*request_id, *document_revision)
        }
        _ => panic!("expected hover"),
    };
    assert_eq!(state.overlay, Overlay::LspHover);
    let _none = apply_semantic_event(
        &mut state,
        Event::LspHoverCompleted {
            request_id,
            path: path("src/main.rs"),
            position: SourcePosition::new(0, 3),
            document_revision,
            result: Ok(Some("```rust\nfn main()\n```\n\nEntry point.".to_owned())),
        },
    );
    assert!(matches!(state.lsp_hover.content, LoadState::Ready(Some(_))));
    let _none = apply_semantic_action(&mut state, Action::MoveDown);
    assert_eq!(state.lsp_hover.scroll, 1);
    let _none = apply_semantic_action(&mut state, Action::MoveUp);
    assert_eq!(state.lsp_hover.scroll, 0);
    let _none = apply_semantic_action(&mut state, Action::ToggleLspHover);
    assert_eq!(state.overlay, Overlay::CodeContent);
    assert!(matches!(state.lsp_hover.content, LoadState::Idle));

    state.overlay = Overlay::Closed;
    let _effect = apply_semantic_action(&mut state, Action::ToggleLspHover);
    let _none = apply_semantic_action(&mut state, Action::CloseOverlay);
    assert_eq!(state.overlay, Overlay::Closed);
}

#[test]
fn single_target_jumps_back_and_forward_between_saved_positions() {
    let mut state = state();
    set_cursor(&mut state, 0, 3);
    let effects = apply_semantic_action(
        &mut state,
        Action::GoToSemanticTarget(SemanticNavigationKind::Definition),
    )
    .unwrap_or_else(|| panic!("semantic action was not handled"));
    let request_id = navigate_id(&effects);
    let target = NavigationTarget::Repository(RepositoryLocation::new(
        path("src/lib.rs"),
        SourceRange::new(SourcePosition::new(7, 2), SourcePosition::new(7, 5)),
    ));
    let event = completed(
        &state,
        request_id,
        SourcePosition::new(0, 3),
        SemanticNavigationKind::Definition,
        Ok(vec![target]),
    );
    let effects = apply_semantic_event(&mut state, event);
    assert_eq!(code_cursor(&state), SourcePosition::new(7, 2));
    assert_eq!(effects.len(), 1);
    let back = apply_semantic_action(&mut state, Action::GoBackFromSemanticTarget)
        .unwrap_or_else(|| panic!("back was not handled"));
    assert_eq!(code_cursor(&state), SourcePosition::new(0, 3));
    assert_eq!(back.len(), 1);
    let forward = apply_semantic_action(&mut state, Action::GoForwardFromSemanticTarget)
        .unwrap_or_else(|| panic!("forward was not handled"));
    assert_eq!(code_cursor(&state), SourcePosition::new(7, 2));
    assert_eq!(forward.len(), 1);
}

#[test]
fn a_new_semantic_jump_after_going_back_discards_newer_history() {
    let mut state = state();
    set_cursor(&mut state, 0, 3);
    let first_target = RepositoryLocation::new(
        path("src/lib.rs"),
        SourceRange::new(SourcePosition::new(7, 2), SourcePosition::new(7, 5)),
    );
    assert_eq!(jump_to_repository(&mut state, first_target).len(), 1);
    assert_eq!(
        apply_semantic_action(&mut state, Action::GoBackFromSemanticTarget)
            .unwrap_or_default()
            .len(),
        1
    );
    assert_eq!(state.semantic_navigation.forward_stack.len(), 1);

    let branch_target = RepositoryLocation::new(
        path("src/domain.rs"),
        SourceRange::new(SourcePosition::new(2, 1), SourcePosition::new(2, 4)),
    );
    assert_eq!(jump_to_repository(&mut state, branch_target).len(), 1);
    assert!(state.semantic_navigation.forward_stack.is_empty());
    assert!(
        apply_semantic_action(&mut state, Action::GoForwardFromSemanticTarget)
            .unwrap_or_default()
            .is_empty()
    );
    assert!(state.notice.as_ref().is_some_and(|notice| notice.message().contains("No newer")));
}

#[test]
fn stale_result_does_not_move_a_new_cursor() {
    let mut state = state();
    let effects = apply_semantic_action(
        &mut state,
        Action::GoToSemanticTarget(SemanticNavigationKind::Definition),
    )
    .unwrap_or_default();
    let request_id = navigate_id(&effects);
    set_cursor(&mut state, 0, 1);
    let event = completed(
        &state,
        request_id,
        SourcePosition::new(0, 0),
        SemanticNavigationKind::Definition,
        Ok(Vec::new()),
    );
    let none = apply_semantic_event(&mut state, event);
    assert!(none.is_empty());
    assert_eq!(code_cursor(&state), SourcePosition::new(0, 1));
}

#[test]
fn response_from_before_a_document_refresh_is_discarded() {
    let mut state = state();
    let effects = apply_semantic_action(
        &mut state,
        Action::GoToSemanticTarget(SemanticNavigationKind::Definition),
    )
    .unwrap_or_default();
    let (request_id, document_revision) = match &effects[0] {
        AppEffect::Lsp(LspEffect::Navigate { request_id, document_revision, .. }) => {
            (*request_id, *document_revision)
        }
        _ => panic!("expected navigation"),
    };
    state.code_view.document_revision = state.code_view.document_revision.saturating_add(1);
    let none = apply_semantic_event(
        &mut state,
        Event::SemanticNavigationCompleted {
            request_id,
            path: path("src/main.rs"),
            position: SourcePosition::new(0, 0),
            document_revision,
            kind: SemanticNavigationKind::Definition,
            result: Ok(Vec::new()),
        },
    );
    assert!(none.is_empty());
    assert!(matches!(state.semantic_navigation.targets, LoadState::Idle));
}

#[test]
fn only_the_current_request_updates_bounded_server_status() {
    let mut state = state();
    let effects = apply_semantic_action(
        &mut state,
        Action::GoToSemanticTarget(SemanticNavigationKind::Definition),
    )
    .unwrap_or_default();
    let request_id = navigate_id(&effects);
    apply_semantic_event(
        &mut state,
        Event::LspStatus { request_id, message: "indexing 50%".to_owned() },
    );
    assert_eq!(state.semantic_navigation.status.as_deref(), Some("indexing 50%"));
    let stale_request_id = state.request_id();
    apply_semantic_event(
        &mut state,
        Event::LspStatus { request_id: stale_request_id, message: "stale".to_owned() },
    );
    assert_eq!(state.semantic_navigation.status.as_deref(), Some("indexing 50%"));
}

#[test]
fn multiple_targets_open_a_modal_and_external_target_is_not_opened() {
    let mut state = state();
    let effects = apply_semantic_action(
        &mut state,
        Action::GoToSemanticTarget(SemanticNavigationKind::Implementation),
    )
    .unwrap_or_default();
    let request_id = navigate_id(&effects);
    let internal = NavigationTarget::Repository(RepositoryLocation::new(
        path("src/main.rs"),
        SourceRange::new(SourcePosition::new(0, 0), SourcePosition::new(0, 2)),
    ));
    let external =
        NavigationTarget::External { display_uri: "jdt://contents/String.class".to_owned() };
    let event = completed(
        &state,
        request_id,
        SourcePosition::new(0, 0),
        SemanticNavigationKind::Implementation,
        Ok(vec![internal, external]),
    );
    assert!(apply_semantic_event(&mut state, event).is_empty());
    assert_eq!(state.overlay, Overlay::SemanticTargets);
    let _none = apply_semantic_action(&mut state, Action::MoveDown);
    let no_jump = apply_semantic_action(&mut state, Action::Activate).unwrap_or_default();
    assert!(no_jump.is_empty());
    assert_eq!(state.code_view.path.as_ref().map(|p| p.as_bytes().to_vec()), Some(b"src/main.rs".to_vec()));
    assert!(state.notice.as_ref().is_some_and(|notice| notice.message().contains("unsupported URI")));
}

#[test]
fn counted_jumps_preserve_intermediate_mark_columns_without_loading_them() {
    let mut state = state();
    state.semantic_navigation.back_stack.clear();
    let current = current_origin(&state).unwrap_or_else(|| panic!("missing origin"));
    for (line, first_non_blank_column) in [(1u32, 2usize), (2, 4)] {
        state.semantic_navigation.back_stack.push(NavigationOrigin {
            path: current.path.duplicate(),
            cursor: SourcePosition::new(line, first_non_blank_column + 1),
            first_non_blank_column,
            viewport_vertical: current.viewport_vertical,
            viewport_horizontal: current.viewport_horizontal,
        });
    }
    state.view = AppView::History;
    let effects = state.handle_app_action(Action::JumpListBack(2));
    assert_eq!(effects.len(), 1);
    assert_eq!(state.view, AppView::Code);
    assert_eq!(
        state
            .semantic_navigation
            .forward_stack
            .last()
            .map(|origin| origin.first_non_blank_column),
        Some(4)
    );
}

// The jump list and the cursor keys on concrete values.

#[test]
fn arrow_keys_move_the_cursor_by_characters() {
    let mut state = state();
    state.code_view.content = text(&["héllo"]);
    assert_eq!(apply_semantic_action(&mut state, Action::MoveCursorRight).map(|e| e.len()), Some(0));
    assert_eq!(code_cursor(&state), SourcePosition::new(0, 1));
    let _none = apply_semantic_action(&mut state, Action::MoveCursorRight);
    assert_eq!(code_cursor(&state), SourcePosition::new(0, 3));
    let _none = apply_semantic_action(&mut state, Action::MoveCursorLeft);
    assert_eq!(code_cursor(&state), SourcePosition::new(0, 1));
    state.code_view.horizontal = 5;
    let _none = apply_semantic_action(&mut state, Action::MoveCursorLeft);
    assert_eq!(code_cursor(&state), SourcePosition::new(0, 0));
    assert_eq!(state.code_view.horizontal, 0);
}

#[test]
fn cursor_keys_outside_the_code_document_are_declined() {
    let mut state = state();
    state.view = AppView::History;
    assert!(apply_semantic_action(&mut state, Action::MoveCursorRight).is_none());
    assert!(apply_semantic_action(&mut state, Action::Refresh).is_none());
}

#[test]
fn requests_are_refused_without_a_complete_document() {
    let mut state = state();
    state.view = AppView::Changes;
    let effects = apply_semantic_action(
        &mut state,
        Action::GoToSemanticTarget(SemanticNavigationKind::Definition),
    )
    .unwrap_or_default();
    assert!(effects.is_empty());
    assert_eq!(
        state.notice.as_ref().map(|n| n.message().to_owned()),
        Some("Semantic navigation is available only in the current working-tree Code viewer.".to_owned())
    );

    let mut state = state_without_path();
    let _none = apply_semantic_action(&mut state, Action::ToggleLspHover);
    assert_eq!(
        state.notice.as_ref().map(|n| n.message().to_owned()),
        Some("Select a source file first.".to_owned())
    );

    let mut state = self::state();
    state.code_view.content = LoadState::Ready(FileDocument::Text {
        lines: vec!["partial".to_owned()],
        truncated: true,
    });
    let _none = apply_semantic_action(&mut state, Action::ToggleLspHover);
    assert_eq!(
        state.notice.as_ref().map(|n| n.message().to_owned()),
        Some("LSP hover requires a complete UTF-8 text document.".to_owned())
    );
    assert_eq!(state.overlay, Overlay::CodeContent);
}

fn state_without_path() -> AppState {
    let mut state = state();
    state.code_view.path = None;
    state
}

#[test]
fn the_request_carries_the_whole_document_and_cursor() {
    let mut state = state();
    state.code_view.content = text(&["fn main() {", "    run();", "}"]);
    set_cursor(&mut state, 1, 4);
    let effects = apply_semantic_action(
        &mut state,
        Action::GoToSemanticTarget(SemanticNavigationKind::TypeDefinition),
    )
    .unwrap_or_default();
    match &effects[0] {
        AppEffect::Lsp(LspEffect::Navigate { kind, text, position, path, .. }) => {
            assert_eq!(*kind, SemanticNavigationKind::TypeDefinition);
            assert_eq!(text, "fn main() {\n    run();\n}");
            assert_eq!(*position, SourcePosition::new(1, 4));
            assert_eq!(path.as_bytes(), b"src/main.rs");
        }
        other => panic!("unexpected effect: {other:?}"),
    }
    assert_eq!(
        state.semantic_navigation.status.as_deref(),
        Some("starting or contacting language server")
    );
}

#[test]
fn empty_and_failed_answers_are_reported() {
    let mut state = state();
    let effects = apply_semantic_action(
        &mut state,
        Action::GoToSemanticTarget(SemanticNavigationKind::TypeDefinition),
    )
    .unwrap_or_default();
    let request_id = navigate_id(&effects);
    let event = completed(
        &state,
        request_id,
        SourcePosition::new(0, 0),
        SemanticNavigationKind::TypeDefinition,
        Ok(Vec::new()),
    );
    assert!(apply_semantic_event(&mut state, event).is_empty());
    assert_eq!(
        state.notice.as_ref().map(|n| n.message().to_owned()),
        Some("No type definition target at the current cursor.".to_owned())
    );

    let effects = apply_semantic_action(
        &mut state,
        Action::GoToSemanticTarget(SemanticNavigationKind::Declaration),
    )
    .unwrap_or_default();
    let request_id = navigate_id(&effects);
    let event = completed(
        &state,
        request_id,
        SourcePosition::new(0, 0),
        SemanticNavigationKind::Declaration,
        Err(LspError::Timeout("request timed out".to_owned())),
    );
    assert!(apply_semantic_event(&mut state, event).is_empty());
    assert!(matches!(state.semantic_navigation.targets, LoadState::Failed(_)));
    assert_eq!(
        state.notice.as_ref().map(|n| n.message().to_owned()),
        Some("request timed out".to_owned())
    );
}

#[test]
fn going_back_with_an_empty_history_is_reported() {
    let mut state = state();
    let effects = apply_semantic_action(&mut state, Action::GoBackFromSemanticTarget)
        .unwrap_or_default();
    assert!(effects.is_empty());
    assert_eq!(
        state.notice.as_ref().map(|n| n.message().to_owned()),
        Some("No earlier jump location.".to_owned())
    );
    let none = state.handle_app_action(Action::JumpListForward(3));
    assert!(none.is_empty());
}

#[test]
fn the_back_stack_keeps_the_most_recent_places() {
    let mut state = state();
    for line in 0..(MAX_JUMP_HISTORY + 3) {
        set_cursor(&mut state, line, 0);
        let target = RepositoryLocation::new(
            path("src/lib.rs"),
            SourceRange::new(SourcePosition::new(1, 0), SourcePosition::new(1, 1)),
        );
        let _effects = jump_to_repository(&mut state, target);
    }
    let stack = &state.semantic_navigation.back_stack;
    assert_eq!(stack.len(), MAX_JUMP_HISTORY);
    let newest = u32::try_from(MAX_JUMP_HISTORY + 2).unwrap_or(u32::MAX);
    assert_eq!(stack.last().map(|o| o.cursor), Some(SourcePosition::new(newest, 0)));
    assert_eq!(stack.first().map(|o| o.cursor), Some(SourcePosition::new(3, 0)));
}

#[test]
fn candidate_list_follows_vim_motions_and_closes() {
    let mut state = state();
    let effects = apply_semantic_action(
        &mut state,
        Action::GoToSemanticTarget(SemanticNavigationKind::Implementation),
    )
    .unwrap_or_default();
    let request_id = navigate_id(&effects);
    let targets = (0..3)
        .map(|line| {
            NavigationTarget::Repository(RepositoryLocation::new(
                path("src/main.rs"),
                SourceRange::new(SourcePosition::new(line, 0), SourcePosition::new(line, 1)),
            ))
        })
        .collect();
    let event = completed(
        &state,
        request_id,
        SourcePosition::new(0, 0),
        SemanticNavigationKind::Implementation,
        Ok(targets),
    );
    let _none = apply_semantic_event(&mut state, event);
    assert_eq!(state.semantic_navigation.selection.index(), Some(0));
    let _none = apply_semantic_action(
        &mut state,
        Action::VimMotion(VimMotion::new(VimMotionKind::Down).counted(5, true)),
    );
    assert_eq!(state.semantic_navigation.selection.index(), Some(2));
    let _none = apply_semantic_action(
        &mut state,
        Action::VimMotion(VimMotion::new(VimMotionKind::BufferTop)),
    );
    assert_eq!(state.semantic_navigation.selection.index(), Some(0));
    let effects = apply_semantic_action(&mut state, Action::Activate).unwrap_or_default();
    assert_eq!(effects.len(), 1);
    assert!(matches!(effects[0], AppEffect::Git(GitEffect::LoadCodeFile { .. })));
    assert_eq!(state.overlay, Overlay::CodeContent);
    assert_eq!(state.semantic_navigation.back_stack.len(), 1);
}

#[test]
fn targets_are_labelled_one_based() {
    let target = NavigationTarget::Repository(RepositoryLocation::new(
        path("src/lib.rs"),
        SourceRange::new(SourcePosition::new(7, 2), SourcePosition::new(7, 5)),
    ));
    assert_eq!(target.display(), "src/lib.rs:8:3");
    let external = NavigationTarget::External { display_uri: "jdt://contents/String.class".to_owned() };
    assert_eq!(external.display(), "unsupported: jdt://contents/String.class");
}

fn place(state: &AppState, line: u32, column: usize, first_non_blank_column: usize) -> NavigationOrigin {
    let current = current_origin(state).unwrap_or_else(|| panic!("missing origin"));
    NavigationOrigin {
        path: current.path,
        cursor: SourcePosition::new(line, column),
        first_non_blank_column,
        viewport_vertical: current.viewport_vertical,
        viewport_horizontal: current.viewport_horizontal,
    }
}

#[test]
fn a_linewise_mark_jump_lands_on_the_first_non_blank_and_joins_the_jump_list() {
    let mut state = state();
    state.code_view.content = text(&["zero", "  marked word"]);
    set_cursor(&mut state, 1, 9);
    let mark = current_origin(&state).unwrap_or_else(|| panic!("missing origin"));
    assert_eq!(mark.first_non_blank_column, 2);
    set_cursor(&mut state, 0, 2);
    let effects = jump_to_mark(&mut state, mark, true, true);
    assert_eq!(effects.len(), 1);
    assert_eq!(code_cursor(&state), SourcePosition::new(1, 2));
    assert_eq!(state.semantic_navigation.back_stack.len(), 1);
    assert_eq!(
        state.semantic_navigation.back_stack.last().map(|origin| origin.cursor),
        Some(SourcePosition::new(0, 2))
    );
}

#[test]
fn a_history_free_mark_jump_and_a_jump_to_the_same_place_push_nothing() {
    let mut state = state();
    state.code_view.content = text(&["zero", "  first"]);
    let target = place(&state, 1, 4, 2);
    let _effects = jump_to_mark(&mut state, target, false, false);
    assert_eq!(code_cursor(&state), SourcePosition::new(1, 4));
    assert!(state.semantic_navigation.back_stack.is_empty());
    let here = current_origin(&state).unwrap_or_else(|| panic!("missing origin"));
    remember_jump(&mut state, here);
    assert!(state.semantic_navigation.back_stack.is_empty());
}

#[test]
fn going_back_linewise_uses_the_line_start_of_the_earlier_place() {
    let mut state = state();
    let earlier = place(&state, 3, 7, 4);
    state.semantic_navigation.back_stack.push(earlier);
    let effects = jump_to_previous(&mut state, true);
    assert_eq!(effects.len(), 1);
    assert_eq!(code_cursor(&state), SourcePosition::new(3, 4));
    assert_eq!(state.code_view.horizontal, 0);
    assert_eq!(state.semantic_navigation.forward_stack.len(), 1);
}
