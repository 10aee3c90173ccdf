//! Semantic navigation: language-server requests from the Code cursor, the
//! candidate list, hover information, and the shared jump list.

use crate::app::action::{Action, Event, VimMotionKind};
use crate::app::code_view::{location_revealed, reveal_location};
use crate::app::update::{action_step, event_step};
use crate::app::effect::{as_app, git_effects, AppEffect, GitEffect, LspEffect};
use crate::app::model::{
    first_row, moved, next_id, AppState, AppView, CodeViewState, ErrorNotice, FocusedPane,
    LoadState, LspHoverState, NavigationOrigin, Overlay, RequestId, Selection,
    SemanticNavigationState,
};
use crate::app::vim::{first_non_blank, first_non_blank_exec};
use crate::domain::path::RepoPath;
use crate::domain::search::FileDocument;
use crate::domain::source::{
    navigation_label, NavigationTarget, RepositoryLocation, SemanticNavigationKind, SourcePosition,
};
use crate::lsp::{display_column, next_byte_column, previous_byte_column, LspError};
use crate::text::{display_prefix, floor_index, offset, prev_col, sat, str_fits, Line};
use vstd::prelude::*;
use vstd::string::StringExecFns;

verus! {

/// Most places kept on each side of the jump list.
pub const MAX_JUMP_HISTORY: usize = 64;

/// The Code document has the keyboard: the Code view with its document pane
/// focused or shown full screen.
pub open spec fn code_content_active(s: AppState) -> bool {
    s.view == AppView::Code && (s.focus == FocusedPane::Diff || s.overlay == Overlay::CodeContent)
}

/// A line index as a protocol line number, saturated at `u32::MAX`.
pub open spec fn clipped_line(n: usize) -> u32 {
    if n <= u32::MAX {
        n as u32
    } else {
        u32::MAX
    }
}

/// The Code cursor: the current line and the byte column on it.
pub open spec fn cursor_of(s: AppState) -> SourcePosition {
    SourcePosition { line: clipped_line(s.code_view.vertical), byte_column: s.code_view.cursor_column }
}

/// The path of the open document.
pub open spec fn open_path(s: AppState) -> Option<Seq<u8>> {
    match s.code_view.path {
        Some(p) => Some(p@),
        None => None,
    }
}

/// Lines joined by line feeds.
pub open spec fn joined_lines(lines: Seq<Seq<char>>) -> Seq<char>
    decreases lines.len(),
{
    if lines.len() == 0 {
        Seq::empty()
    } else if lines.len() == 1 {
        lines[0]
    } else {
        joined_lines(lines.drop_last()) + seq!['\n'] + lines.last()
    }
}

/// The text handed to the language server: the whole of an untruncated text
/// document, else none.
pub open spec fn document_text(c: LoadState<FileDocument>) -> Option<Seq<char>> {
    match c {
        LoadState::Ready(FileDocument::Text { lines, truncated }) => if truncated {
            None
        } else {
            Some(joined_lines(lines@.map_values(|l: String| l@)))
        },
        _ => None,
    }
}

/// The text lines of a loaded document.
pub open spec fn loaded_lines(c: LoadState<FileDocument>) -> Option<Seq<String>> {
    match c {
        LoadState::Ready(FileDocument::Text { lines, .. }) => Some(lines@),
        _ => None,
    }
}

/// The byte column of the first non-blank character of line `line`, or zero.
pub open spec fn line_first_non_blank(c: LoadState<FileDocument>, line: int) -> usize {
    match loaded_lines(c) {
        Some(lines) => if 0 <= line < lines.len() {
            offset(lines[line]@, first_non_blank(lines[line]@)) as usize
        } else {
            0
        },
        None => 0,
    }
}

/// A place of the jump list as values: path, cursor, first non-blank column
/// of the cursor line, vertical and horizontal scroll.
pub type OriginView = (Seq<u8>, SourcePosition, usize, usize, usize);

/// A place as values.
pub open spec fn origin_view(o: NavigationOrigin) -> OriginView {
    (o.path@, o.cursor, o.first_non_blank_column, o.viewport_vertical, o.viewport_horizontal)
}

/// The places of a jump stack, oldest first.
pub open spec fn stack_view(v: Seq<NavigationOrigin>) -> Seq<OriginView> {
    v.map_values(|o: NavigationOrigin| origin_view(o))
}

/// The place the Code cursor is at, when a document is open.
pub open spec fn origin_here(s: AppState) -> Option<OriginView> {
    match s.code_view.path {
        Some(p) => Some(
            (
                p@,
                cursor_of(s),
                line_first_non_blank(s.code_view.content, clipped_line(s.code_view.vertical) as int),
                s.code_view.vertical,
                s.code_view.horizontal,
            ),
        ),
        None => None,
    }
}

/// `o` pushed on a jump stack; a full stack forgets its oldest place.
pub open spec fn pushed(stack: Seq<OriginView>, o: OriginView) -> Seq<OriginView> {
    if stack.len() == MAX_JUMP_HISTORY {
        stack.drop_first().push(o)
    } else {
        stack.push(o)
    }
}

/// `o` pushed when there is one.
pub open spec fn pushed_opt(stack: Seq<OriginView>, o: Option<OriginView>) -> Seq<OriginView> {
    match o {
        Some(x) => pushed(stack, x),
        None => stack,
    }
}

/// Each of `items` pushed in turn.
pub open spec fn pushed_all(stack: Seq<OriginView>, items: Seq<OriginView>) -> Seq<OriginView>
    decreases items.len(),
{
    if items.len() == 0 {
        stack
    } else {
        pushed(pushed_all(stack, items.drop_last()), items.last())
    }
}

/// `t` is `s` with a notice reading `msg`.
pub open spec fn notice_set(s: AppState, t: AppState, msg: Seq<char>) -> bool {
    &&& t == (AppState { notice: t.notice, ..s })
    &&& t.notice matches Some(n) && n.0@ == msg
}

/// `m` is `s` with jump stacks whose places are `back` and `forward`.
pub open spec fn stacks_set(
    s: AppState,
    m: AppState,
    back: Seq<OriginView>,
    forward: Seq<OriginView>,
) -> bool {
    &&& m == (AppState {
        semantic_navigation: SemanticNavigationState {
            back_stack: m.semantic_navigation.back_stack,
            forward_stack: m.semantic_navigation.forward_stack,
            ..s.semantic_navigation
        },
        ..s
    })
    &&& stack_view(m.semantic_navigation.back_stack@) == back
    &&& stack_view(m.semantic_navigation.forward_stack@) == forward
}

/// The progress text shown until the server answers.
pub open spec fn contacting_text() -> Seq<char> {
    "starting or contacting language server"@
}

/// `t` is `s` with a semantic request of `kind` in flight for the cursor,
/// and `e` the request.
pub open spec fn navigation_sent(
    s: AppState,
    kind: SemanticNavigationKind,
    t: AppState,
    e: Seq<AppEffect>,
) -> bool {
    let id = RequestId(s.next_request);
    &&& t == (AppState {
        semantic_navigation: SemanticNavigationState {
            targets: LoadState::Loading { request_id: id },
            source_path: t.semantic_navigation.source_path,
            source_position: cursor_of(s),
            source_revision: s.code_view.document_revision,
            kind: Some(kind),
            status: t.semantic_navigation.status,
            ..s.semantic_navigation
        },
        notice: None,
        next_request: next_id(s.next_request),
        ..s
    })
    &&& t.semantic_navigation.source_path matches Some(p) && Some(p@) == open_path(s)
    &&& t.semantic_navigation.status matches Some(m) && m@ == contacting_text()
    &&& e.len() == 1
    &&& e[0] matches AppEffect::Lsp(
        LspEffect::Navigate { request_id, kind: k, path, text, position, document_revision },
    ) && request_id == id && k == kind && Some(path@) == open_path(s) && Some(text@)
        == document_text(s.code_view.content) && position == cursor_of(s) && document_revision
        == s.code_view.document_revision
}

/// A semantic request of `kind`: refused with a notice outside the Code
/// document, without an open file, or without its complete text.
pub open spec fn request_step(
    s: AppState,
    kind: SemanticNavigationKind,
    t: AppState,
    e: Seq<AppEffect>,
) -> bool {
    if !code_content_active(s) {
        notice_set(
            s,
            t,
            "Semantic navigation is available only in the current working-tree Code viewer."@,
        ) && e.len() == 0
    } else if s.code_view.path is None {
        notice_set(s, t, "Select a source file first."@) && e.len() == 0
    } else if document_text(s.code_view.content) is None {
        notice_set(s, t, "Semantic navigation requires a complete UTF-8 text document."@) && e.len()
            == 0
    } else {
        navigation_sent(s, kind, t, e)
    }
}

/// `t` is `s` showing the hover overlay while hover information for the
/// cursor is requested by `e`.
pub open spec fn hover_sent(s: AppState, t: AppState, e: Seq<AppEffect>) -> bool {
    let id = RequestId(s.next_request);
    &&& t == (AppState {
        semantic_navigation: SemanticNavigationState {
            targets: LoadState::Idle,
            status: None,
            ..s.semantic_navigation
        },
        lsp_hover: LspHoverState {
            content: LoadState::Loading { request_id: id },
            source_path: t.lsp_hover.source_path,
            source_position: cursor_of(s),
            source_revision: s.code_view.document_revision,
            scroll: 0,
            status: t.lsp_hover.status,
            return_overlay: s.overlay,
        },
        overlay: Overlay::LspHover,
        notice: None,
        next_request: next_id(s.next_request),
        ..s
    })
    &&& t.lsp_hover.source_path matches Some(p) && Some(p@) == open_path(s)
    &&& t.lsp_hover.status matches Some(m) && m@ == contacting_text()
    &&& e.len() == 1
    &&& e[0] matches AppEffect::Lsp(
        LspEffect::Hover { request_id, path, text, position, document_revision },
    ) && request_id == id && Some(path@) == open_path(s) && Some(text@) == document_text(
        s.code_view.content,
    ) && position == cursor_of(s) && document_revision == s.code_view.document_revision
}

/// A hover request, refused as a semantic request is.
pub open spec fn hover_request_step(s: AppState, t: AppState, e: Seq<AppEffect>) -> bool {
    if !code_content_active(s) {
        notice_set(s, t, "LSP hover is available only in the current working-tree Code viewer."@)
            && e.len() == 0
    } else if s.code_view.path is None {
        notice_set(s, t, "Select a source file first."@) && e.len() == 0
    } else if document_text(s.code_view.content) is None {
        notice_set(s, t, "LSP hover requires a complete UTF-8 text document."@) && e.len() == 0
    } else {
        hover_sent(s, t, e)
    }
}

/// The hover overlay closed: the previous overlay back, the hover cleared.
pub open spec fn hover_closed(s: AppState) -> AppState {
    AppState {
        overlay: s.lsp_hover.return_overlay,
        lsp_hover: LspHoverState {
            content: LoadState::Idle,
            status: None,
            scroll: 0,
            ..s.lsp_hover
        },
        ..s
    }
}

/// `a + b`, saturated at `usize::MAX`.
pub open spec fn sat_add(a: usize, b: usize) -> usize {
    if a + b <= usize::MAX {
        (a + b) as usize
    } else {
        usize::MAX
    }
}

/// `a - b`, saturated at zero.
pub open spec fn sat_sub(a: usize, b: usize) -> usize {
    if a >= b {
        (a - b) as usize
    } else {
        0
    }
}

/// `s` with the hover scrolled to `scroll`.
pub open spec fn hover_scrolled(s: AppState, scroll: usize) -> AppState {
    AppState { lsp_hover: LspHoverState { scroll, ..s.lsp_hover }, ..s }
}

/// Motions that move backward through a list.
pub open spec fn backward_kind(k: VimMotionKind) -> bool {
    k == VimMotionKind::Up || k == VimMotionKind::PreviousLineFirstNonBlank || k
        == VimMotionKind::WordBackward || k == VimMotionKind::BigWordBackward
}

/// Motions that move forward through a list.
pub open spec fn forward_kind(k: VimMotionKind) -> bool {
    k == VimMotionKind::Down || k == VimMotionKind::NextLineFirstNonBlank || k
        == VimMotionKind::WordForward || k == VimMotionKind::BigWordForward
}

/// The state after `action` while the hover overlay is shown: movement
/// scrolls the hover text, the toggle or close key closes it.
pub open spec fn hover_acted(s: AppState, action: Action) -> AppState {
    let scroll = s.lsp_hover.scroll;
    match action {
        Action::MoveUp => hover_scrolled(s, sat_sub(scroll, 1)),
        Action::MoveDown => hover_scrolled(s, sat_add(scroll, 1)),
        Action::VimMotion(m) => if backward_kind(m.kind) || m.kind == VimMotionKind::ScrollLineUp {
            hover_scrolled(s, sat_sub(scroll, m.count))
        } else if forward_kind(m.kind) || m.kind == VimMotionKind::ScrollLineDown {
            hover_scrolled(s, sat_add(scroll, m.count))
        } else if m.kind == VimMotionKind::BufferTop || m.kind == VimMotionKind::LineStart {
            hover_scrolled(s, 0)
        } else {
            s
        },
        Action::ToggleLspHover | Action::CloseOverlay => hover_closed(s),
        _ => s,
    }
}

/// The Code cursor.
pub fn code_cursor(state: &AppState) -> (p: SourcePosition)
    ensures
        p == cursor_of(*state),
{
    let v = state.code_view.vertical;
    let line: u32 = if v <= 0xffff_ffffusize {
        v as u32
    } else {
        u32::MAX
    };
    SourcePosition { line, byte_column: state.code_view.cursor_column }
}

/// Lines joined by line feeds.
fn join_lines(lines: &Vec<String>) -> (s: String)
    ensures
        s@ == joined_lines(lines@.map_values(|l: String| l@)),
{
    let ghost all = lines@.map_values(|l: String| l@);
    let mut s = String::new();
    let mut i: usize = 0;
    while i < lines.len()
        invariant
            i <= lines@.len(),
            all == lines@.map_values(|l: String| l@),
            s@ == joined_lines(all.take(i as int)),
        decreases lines@.len() - i,
    {
        proof {
            assert(all.take(i as int + 1).drop_last() =~= all.take(i as int));
            if i == 0 {
                assert(all.take(1) =~= seq![all[0]]);
            }
        }
        if i > 0 {
            s = s.concat("\n");
            proof {
                reveal_strlit("\n");
            }
        }
        s = s.concat(lines[i].as_str());
        i = i + 1;
    }
    proof {
        assert(all.take(lines@.len() as int) =~= all);
    }
    s
}

/// The document text handed to the language server.
fn document_text_exec(c: &LoadState<FileDocument>) -> (r: Option<String>)
    ensures
        match r {
            Some(t) => document_text(*c) == Some(t@),
            None => document_text(*c) is None,
        },
{
    match c {
        LoadState::Ready(FileDocument::Text { lines, truncated }) => if *truncated {
            None
        } else {
            Some(join_lines(lines))
        },
        _ => None,
    }
}

fn first_non_blank_column(c: &LoadState<FileDocument>, line: u32) -> (r: usize)
    ensures
        r == line_first_non_blank(*c, line as int),
{
    match c {
        LoadState::Ready(FileDocument::Text { lines, .. }) => {
            let i = line as usize;
            if i < lines.len() {
                str_fits(lines[i].as_str());
                let l = Line::new(lines[i].as_str());
                let k = first_non_blank_exec(&l);
                l.offset_of(k)
            } else {
                0
            }
        },
        _ => 0,
    }
}

/// The place the Code cursor is at, when a document is open.
pub fn current_origin(state: &AppState) -> (o: Option<NavigationOrigin>)
    ensures
        match o {
            Some(x) => origin_here(*state) == Some(origin_view(x)),
            None => origin_here(*state) is None,
        },
{
    match &state.code_view.path {
        Some(p) => {
            let cursor = code_cursor(state);
            Some(
                NavigationOrigin {
                    path: p.duplicate(),
                    cursor,
                    first_non_blank_column: first_non_blank_column(
                        &state.code_view.content,
                        cursor.line,
                    ),
                    viewport_vertical: state.code_view.vertical,
                    viewport_horizontal: state.code_view.horizontal,
                },
            )
        },
        None => None,
    }
}

fn push_bounded(stack: &mut Vec<NavigationOrigin>, origin: NavigationOrigin)
    ensures
        stack_view(final(stack)@) == pushed(stack_view(old(stack)@), origin_view(origin)),
{
    let ghost before = stack_view(stack@);
    if stack.len() == MAX_JUMP_HISTORY {
        let ghost v = stack@;
        let _oldest = stack.remove(0);
        proof {
            assert(stack_view(stack@) =~= stack_view(v).drop_first());
        }
    }
    let ghost mid = stack@;
    stack.push(origin);
    proof {
        assert(stack_view(stack@) =~= stack_view(mid).push(origin_view(origin)));
    }
}

fn push_origin(stack: &mut Vec<NavigationOrigin>, origin: Option<NavigationOrigin>)
    ensures
        stack_view(final(stack)@) == pushed_opt(
            stack_view(old(stack)@),
            match origin {
                Some(x) => Some(origin_view(x)),
                None => None,
            },
        ),
{
    match origin {
        Some(o) => push_bounded(stack, o),
        None => {},
    }
}

fn notify(state: &mut AppState, message: &str)
    ensures
        notice_set(*old(state), *final(state), message@),
{
    state.notice = Some(ErrorNotice::new(message.to_string()));
}

fn request(state: &mut AppState, kind: SemanticNavigationKind) -> (effects: Vec<AppEffect>)
    ensures
        request_step(*old(state), kind, *final(state), effects@),
{
    if !(state.view == AppView::Code && (state.focus == FocusedPane::Diff || state.overlay
        == Overlay::CodeContent)) {
        notify(state, "Semantic navigation is available only in the current working-tree Code viewer.");
        return Vec::new();
    }
    let path = match &state.code_view.path {
        Some(p) => p.duplicate(),
        None => {
            notify(state, "Select a source file first.");
            return Vec::new();
        },
    };
    let text = match document_text_exec(&state.code_view.content) {
        Some(t) => t,
        None => {
            notify(state, "Semantic navigation requires a complete UTF-8 text document.");
            return Vec::new();
        },
    };
    let position = code_cursor(state);
    let document_revision = state.code_view.document_revision;
    let request_id = state.request_id();
    state.semantic_navigation.targets = LoadState::Loading { request_id };
    state.semantic_navigation.source_path = Some(path.duplicate());
    state.semantic_navigation.source_position = position;
    state.semantic_navigation.source_revision = document_revision;
    state.semantic_navigation.kind = Some(kind);
    state.semantic_navigation.status = Some("starting or contacting language server".to_string());
    state.notice = None;
    vec![
        AppEffect::Lsp(
            LspEffect::Navigate { request_id, kind, path, text, position, document_revision },
        ),
    ]
}

fn request_hover(state: &mut AppState) -> (effects: Vec<AppEffect>)
    ensures
        hover_request_step(*old(state), *final(state), effects@),
{
    if !(state.view == AppView::Code && (state.focus == FocusedPane::Diff || state.overlay
        == Overlay::CodeContent)) {
        notify(state, "LSP hover is available only in the current working-tree Code viewer.");
        return Vec::new();
    }
    let path = match &state.code_view.path {
        Some(p) => p.duplicate(),
        None => {
            notify(state, "Select a source file first.");
            return Vec::new();
        },
    };
    let text = match document_text_exec(&state.code_view.content) {
        Some(t) => t,
        None => {
            notify(state, "LSP hover requires a complete UTF-8 text document.");
            return Vec::new();
        },
    };
    let position = code_cursor(state);
    let document_revision = state.code_view.document_revision;
    let request_id = state.request_id();
    state.semantic_navigation.targets = LoadState::Idle;
    state.semantic_navigation.status = None;
    state.lsp_hover.content = LoadState::Loading { request_id };
    state.lsp_hover.source_path = Some(path.duplicate());
    state.lsp_hover.source_position = position;
    state.lsp_hover.source_revision = document_revision;
    state.lsp_hover.scroll = 0;
    state.lsp_hover.status = Some("starting or contacting language server".to_string());
    state.lsp_hover.return_overlay = state.overlay;
    state.overlay = Overlay::LspHover;
    state.notice = None;
    vec![AppEffect::Lsp(LspEffect::Hover { request_id, path, text, position, document_revision })]
}

fn close_hover(state: &mut AppState)
    ensures
        *final(state) == hover_closed(*old(state)),
{
    state.overlay = state.lsp_hover.return_overlay;
    state.lsp_hover.content = LoadState::Idle;
    state.lsp_hover.status = None;
    state.lsp_hover.scroll = 0;
}

fn saturating_add(a: usize, b: usize) -> (r: usize)
    ensures
        r == sat_add(a, b),
{
    if a <= usize::MAX - b {
        a + b
    } else {
        usize::MAX
    }
}

fn saturating_sub(a: usize, b: usize) -> (r: usize)
    ensures
        r == sat_sub(a, b),
{
    if a >= b {
        a - b
    } else {
        0
    }
}

fn hover_action(state: &mut AppState, action: Action)
    ensures
        *final(state) == hover_acted(*old(state), action),
{
    let scroll = state.lsp_hover.scroll;
    match action {
        Action::MoveUp => {
            state.lsp_hover.scroll = saturating_sub(scroll, 1);
        },
        Action::MoveDown => {
            state.lsp_hover.scroll = saturating_add(scroll, 1);
        },
        Action::VimMotion(m) => {
            let k = m.kind;
            if k == VimMotionKind::Up || k == VimMotionKind::PreviousLineFirstNonBlank || k
                == VimMotionKind::WordBackward || k == VimMotionKind::BigWordBackward || k
                == VimMotionKind::ScrollLineUp {
                state.lsp_hover.scroll = saturating_sub(scroll, m.count);
            } else if k == VimMotionKind::Down || k == VimMotionKind::NextLineFirstNonBlank || k
                == VimMotionKind::WordForward || k == VimMotionKind::BigWordForward || k
                == VimMotionKind::ScrollLineDown {
                state.lsp_hover.scroll = saturating_add(scroll, m.count);
            } else if k == VimMotionKind::BufferTop || k == VimMotionKind::LineStart {
                state.lsp_hover.scroll = 0;
            }
        },
        Action::ToggleLspHover | Action::CloseOverlay => close_hover(state),
        _ => {},
    }
}

/// Whether two navigation targets name the same place.
pub open spec fn same_navigation_target(a: NavigationTarget, b: NavigationTarget) -> bool {
    match (a, b) {
        (NavigationTarget::Repository(x), NavigationTarget::Repository(y)) => x.path@ == y.path@
            && x.selection == y.selection,
        (
            NavigationTarget::External { display_uri: u },
            NavigationTarget::External { display_uri: v },
        ) => u@ == v@,
        _ => false,
    }
}

/// `t` is `s` revealing the place `o`: the Code view showing its file at
/// its cursor, with its horizontal scroll restored (the vertical position
/// is the cursor line); `e` loads the file.
pub open spec fn origin_revealed(s: AppState, o: OriginView, t: AppState, e: Seq<AppEffect>) -> bool {
    exists|r: AppState, g: Seq<GitEffect>|
        #[trigger] location_revealed(AppState { view: AppView::Code, ..s }, r, o.0, o.1, g) && t
            == (AppState {
            code_view: CodeViewState { horizontal: o.4, ..r.code_view },
            notice: None,
            ..r
        }) && e == as_app(g)
}

/// `m` is `s` with the current place pushed on the back stack, the forward
/// stack emptied and the notice cleared.
pub open spec fn history_recorded(s: AppState, m: AppState) -> bool {
    stacks_set(
        AppState { notice: None, ..s },
        m,
        pushed_opt(stack_view(s.semantic_navigation.back_stack@), origin_here(s)),
        Seq::empty(),
    )
}

/// `t` is `s` after a jump to `position` in the repository file `path`: the
/// place left is remembered and the file is shown there.
pub open spec fn jumped_into(
    s: AppState,
    path: Seq<u8>,
    position: SourcePosition,
    t: AppState,
    e: Seq<AppEffect>,
) -> bool {
    exists|m: AppState, g: Seq<GitEffect>|
        #![trigger history_recorded(s, m), location_revealed(m, t, path, position, g)]
        history_recorded(s, m) && location_revealed(m, t, path, position, g) && e == as_app(g)
}

/// The notice for a target that is not opened.
pub open spec fn unsupported_text(uri: Seq<char>) -> Seq<char> {
    "Target is outside the repository or uses an unsupported URI: "@ + uri
}

/// `t` is `s` after choosing `target`: the document shown full screen, and
/// a repository target jumped to; any other target is reported, not opened.
pub open spec fn jumped_to(s: AppState, target: NavigationTarget, t: AppState, e: Seq<AppEffect>) -> bool {
    let shown = AppState { overlay: Overlay::CodeContent, ..s };
    match target {
        NavigationTarget::External { display_uri } => notice_set(
            shown,
            t,
            unsupported_text(display_uri@),
        ) && e.len() == 0,
        NavigationTarget::Repository(location) => jumped_into(
            shown,
            location.path@,
            location.selection.start,
            t,
            e,
        ),
    }
}

/// Going back: the latest place of the back stack revealed, the current
/// place pushed on the forward stack; a notice when there is none.
pub open spec fn went_back(s: AppState, t: AppState, e: Seq<AppEffect>) -> bool {
    let back = stack_view(s.semantic_navigation.back_stack@);
    let forward = stack_view(s.semantic_navigation.forward_stack@);
    if back.len() == 0 {
        notice_set(s, t, "No earlier jump location."@) && e.len() == 0
    } else {
        exists|m: AppState|
            #[trigger] stacks_set(s, m, back.drop_last(), pushed_opt(forward, origin_here(s)))
                && origin_revealed(m, back.last(), t, e)
    }
}

/// A place as a line jump goes there: the first non-blank column of its
/// line, scrolled to the left edge.
pub open spec fn linewise_origin(o: OriginView) -> OriginView {
    (o.0, SourcePosition { line: o.1.line, byte_column: o.2 }, o.2, o.3, 0)
}

/// The place a jump to `o` reveals: `o` itself, or its line when `linewise`.
pub open spec fn jump_target(o: OriginView, linewise: bool) -> OriginView {
    if linewise {
        linewise_origin(o)
    } else {
        o
    }
}

/// Going back to the latest place of the back stack, at its line when
/// `linewise`; otherwise as going back.
pub open spec fn went_to_previous(s: AppState, linewise: bool, t: AppState, e: Seq<AppEffect>) -> bool {
    let back = stack_view(s.semantic_navigation.back_stack@);
    let forward = stack_view(s.semantic_navigation.forward_stack@);
    if back.len() == 0 {
        notice_set(s, t, "No earlier jump location."@) && e.len() == 0
    } else {
        exists|m: AppState|
            #[trigger] stacks_set(s, m, back.drop_last(), pushed_opt(forward, origin_here(s)))
                && origin_revealed(m, jump_target(back.last(), linewise), t, e)
    }
}

/// A completed jump that left `o` joins the jump list, unless the cursor is
/// still at `o`: `o` is pushed on the back stack and newer places dropped.
pub open spec fn jump_remembered(s: AppState, o: OriginView, t: AppState) -> bool {
    if origin_here(s) == Some(o) {
        t == s
    } else {
        stacks_set(s, t, pushed(stack_view(s.semantic_navigation.back_stack@), o), Seq::empty())
    }
}

/// A jump to the mark place `o` (its line when `linewise`); when
/// `record`, the place left joins the jump list.
pub open spec fn mark_jumped(
    s: AppState,
    o: OriginView,
    linewise: bool,
    record: bool,
    t: AppState,
    e: Seq<AppEffect>,
) -> bool {
    exists|m: AppState|
        #[trigger] origin_revealed(s, jump_target(o, linewise), m, e) && if record
            && origin_here(s) is Some {
            jump_remembered(m, origin_here(s)->0, t)
        } else {
            t == m
        }
}

/// Going forward, the mirror of going back.
pub open spec fn went_forward(s: AppState, t: AppState, e: Seq<AppEffect>) -> bool {
    let back = stack_view(s.semantic_navigation.back_stack@);
    let forward = stack_view(s.semantic_navigation.forward_stack@);
    if forward.len() == 0 {
        notice_set(s, t, "No newer jump location."@) && e.len() == 0
    } else {
        exists|m: AppState|
            #[trigger] stacks_set(s, m, pushed_opt(back, origin_here(s)), forward.drop_last())
                && origin_revealed(m, forward.last(), t, e)
    }
}

/// The number of places a counted jump passes: the count (one when zero),
/// at most the places available.
pub open spec fn jump_steps(count: usize, n: nat) -> int {
    let c: int = if count == 0 {
        1
    } else {
        count as int
    };
    if c < n {
        c
    } else {
        n as int
    }
}

/// The places a counted jump passes over, most recent first.
pub open spec fn passed_over(src: Seq<OriginView>, k: int) -> Seq<OriginView> {
    Seq::new(k as nat, |j: int| src[src.len() - 1 - j])
}

/// The source stack of a counted jump: the forward stack when `forward`.
pub open spec fn jump_source(s: AppState, forward: bool) -> Seq<OriginView> {
    if forward {
        stack_view(s.semantic_navigation.forward_stack@)
    } else {
        stack_view(s.semantic_navigation.back_stack@)
    }
}

/// The other stack of a counted jump.
pub open spec fn jump_destination(s: AppState, forward: bool) -> Seq<OriginView> {
    jump_source(s, !forward)
}

/// The source stack after a counted jump: the places passed removed.
pub open spec fn jump_rest(s: AppState, forward: bool, count: usize) -> Seq<OriginView> {
    let src = jump_source(s, forward);
    src.take(src.len() - jump_steps(count, src.len()))
}

/// The other stack after a counted jump: the current place and the places
/// passed over pushed, in the order they were left.
pub open spec fn jump_passed(s: AppState, forward: bool, count: usize) -> Seq<OriginView> {
    let src = jump_source(s, forward);
    pushed_all(
        pushed_opt(jump_destination(s, forward), origin_here(s)),
        passed_over(src, jump_steps(count, src.len()) - 1),
    )
}

/// The back stack after a counted jump.
pub open spec fn jump_back_after(s: AppState, forward: bool, count: usize) -> Seq<OriginView> {
    if forward {
        jump_passed(s, forward, count)
    } else {
        jump_rest(s, forward, count)
    }
}

/// The forward stack after a counted jump.
pub open spec fn jump_forward_after(s: AppState, forward: bool, count: usize) -> Seq<OriginView> {
    if forward {
        jump_rest(s, forward, count)
    } else {
        jump_passed(s, forward, count)
    }
}

/// A counted jump through the jump list (`forward` from the forward stack,
/// else from the back stack): the current place and each place passed over
/// move to the other stack, and the last place reached is revealed.
pub open spec fn jump_listed(s: AppState, forward: bool, count: usize, t: AppState, e: Seq<AppEffect>) -> bool {
    let src = jump_source(s, forward);
    let n = src.len();
    let steps = jump_steps(count, n);
    if steps == 0 {
        t == s && e.len() == 0
    } else {
        exists|m: AppState|
            #[trigger] stacks_set(
                s,
                m,
                jump_back_after(s, forward, count),
                jump_forward_after(s, forward, count),
            ) && origin_revealed(m, src[n - steps], t, e)
    }
}

/// The number of candidates listed.
pub open spec fn target_count(s: AppState) -> usize {
    match s.semantic_navigation.targets {
        LoadState::Ready(v) => v@.len() as usize,
        _ => 0,
    }
}

/// The selected candidate.
pub open spec fn selected_target(s: AppState) -> Option<NavigationTarget> {
    match (s.semantic_navigation.targets, s.semantic_navigation.selection.index) {
        (LoadState::Ready(v), Some(i)) => if i < v@.len() {
            Some(v@[i as int])
        } else {
            None
        },
        _ => None,
    }
}

/// `s` with candidate `index` selected.
pub open spec fn with_candidate(s: AppState, index: Option<usize>) -> AppState {
    AppState {
        semantic_navigation: SemanticNavigationState {
            selection: Selection { index },
            ..s.semantic_navigation
        },
        ..s
    }
}

/// The last row of a list of `len` rows.
pub open spec fn last_row(len: usize) -> Option<usize> {
    if len > 0 {
        Some((len - 1) as usize)
    } else {
        None
    }
}

/// A motion count as a row offset, saturated at `isize::MAX`.
pub open spec fn count_delta(c: usize) -> isize {
    if c <= isize::MAX {
        c as isize
    } else {
        isize::MAX
    }
}

/// An action while the candidate list is shown: movement selects a
/// candidate, activation jumps to it, closing returns to the document.
pub open spec fn candidate_step(s: AppState, action: Action, t: AppState, e: Seq<AppEffect>) -> bool {
    let len = target_count(s);
    let index = s.semantic_navigation.selection.index;
    match action {
        Action::MoveUp => t == with_candidate(s, moved(index, -1isize, len)) && e.len() == 0,
        Action::MoveDown => t == with_candidate(s, moved(index, 1isize, len)) && e.len() == 0,
        Action::MoveTop => t == with_candidate(s, first_row(len)) && e.len() == 0,
        Action::MoveBottom => t == with_candidate(s, last_row(len)) && e.len() == 0,
        Action::VimMotion(m) => e.len() == 0 && if backward_kind(m.kind) {
            t == with_candidate(s, moved(index, (0 - count_delta(m.count)) as isize, len))
        } else if forward_kind(m.kind) {
            t == with_candidate(s, moved(index, count_delta(m.count), len))
        } else if m.kind == VimMotionKind::BufferTop || m.kind == VimMotionKind::LineStart {
            t == with_candidate(s, first_row(len))
        } else if m.kind == VimMotionKind::BufferBottom || m.kind == VimMotionKind::LineEnd {
            t == with_candidate(s, last_row(len))
        } else {
            t == s
        },
        Action::Activate => match selected_target(s) {
            Some(x) => jumped_to(s, x, t, e),
            None => t == s && e.len() == 0,
        },
        Action::CloseOverlay => t == (AppState { overlay: Overlay::CodeContent, ..s }) && e.len()
            == 0,
        _ => t == s && e.len() == 0,
    }
}

/// The line the Code cursor is on, when a text document is loaded.
pub open spec fn cursor_line(s: AppState) -> Option<Seq<char>> {
    match loaded_lines(s.code_view.content) {
        Some(lines) => {
            let i = clipped_line(s.code_view.vertical) as int;
            if i < lines.len() {
                Some(lines[i]@)
            } else {
                None
            }
        },
        None => None,
    }
}

/// The character boundary after byte `b`, clamped to the line end.
pub open spec fn next_boundary(l: Seq<char>, b: int) -> int {
    let k = floor_index(l, b);
    offset(l, if k < l.len() { k + 1 } else { k }) as int
}

/// The character boundary before byte `b`, clamped to zero.
pub open spec fn previous_boundary(l: Seq<char>, b: int) -> int {
    offset(l, prev_col(floor_index(l, b))) as int
}

/// The cursor moved one character right (or left) on its line, the view
/// scrolled back when the cursor left it on the left; without a line the
/// cursor goes to column zero.
pub open spec fn cursor_moved(s: AppState, right: bool, t: AppState) -> bool {
    match cursor_line(s) {
        None => t == (AppState {
            code_view: CodeViewState { cursor_column: 0, ..s.code_view },
            ..s
        }),
        Some(l) => {
            let c = if right {
                next_boundary(l, s.code_view.cursor_column as int)
            } else {
                previous_boundary(l, s.code_view.cursor_column as int)
            };
            let d = sat(display_prefix(l, floor_index(l, c)));
            t == (AppState {
                code_view: CodeViewState {
                    cursor_column: c as usize,
                    horizontal: if d < s.code_view.horizontal {
                        d as usize
                    } else {
                        s.code_view.horizontal
                    },
                    ..s.code_view
                },
                ..s
            })
        },
    }
}

fn duplicate_target(target: &NavigationTarget) -> (r: NavigationTarget)
    ensures
        same_navigation_target(r, *target),
{
    match target {
        NavigationTarget::Repository(l) => NavigationTarget::Repository(
            RepositoryLocation { path: l.path.duplicate(), selection: l.selection },
        ),
        NavigationTarget::External { display_uri } => NavigationTarget::External {
            display_uri: display_uri.clone(),
        },
    }
}

fn reveal_origin(state: &mut AppState, origin: NavigationOrigin) -> (effects: Vec<AppEffect>)
    ensures
        origin_revealed(*old(state), origin_view(origin), *final(state), effects@),
        final(state).diff_cache == old(state).diff_cache,
{
    let ghost o = origin_view(origin);
    state.view = AppView::Code;
    let ghost s1 = *state;
    let g = reveal_location(state, origin.path, origin.cursor);
    let ghost r = *state;
    let ghost gv = g@;
    state.code_view.horizontal = origin.viewport_horizontal;
    state.notice = None;
    let effects = git_effects(g);
    proof {
        assert(location_revealed(s1, r, o.0, o.1, gv));
    }
    effects
}

/// Jumps to a repository location, remembering the place left.
pub fn jump_to_repository(state: &mut AppState, location: RepositoryLocation) -> (effects: Vec<AppEffect>)
    ensures
        jumped_into(*old(state), location.path@, location.selection.start, *final(state), effects@),
        final(state).diff_cache == old(state).diff_cache,
{
    let ghost s0 = *state;
    let current = current_origin(state);
    push_origin(&mut state.semantic_navigation.back_stack, current);
    state.semantic_navigation.forward_stack = Vec::new();
    state.notice = None;
    let ghost m = *state;
    proof {
        assert(stack_view(m.semantic_navigation.forward_stack@) =~= Seq::<OriginView>::empty());
        assert(history_recorded(s0, m));
    }
    let position = location.selection.start;
    let ghost p = location.path@;
    let g = reveal_location(state, location.path, position);
    let ghost gv = g@;
    let effects = git_effects(g);
    proof {
        assert(location_revealed(m, *state, p, position, gv));
    }
    effects
}

fn jump_to(state: &mut AppState, target: NavigationTarget) -> (effects: Vec<AppEffect>)
    ensures
        jumped_to(*old(state), target, *final(state), effects@),
        final(state).diff_cache == old(state).diff_cache,
{
    state.overlay = Overlay::CodeContent;
    match target {
        NavigationTarget::External { display_uri } => {
            let message = "Target is outside the repository or uses an unsupported URI: ".to_string().concat(
                display_uri.as_str(),
            );
            state.notice = Some(ErrorNotice::new(message));
            Vec::new()
        },
        NavigationTarget::Repository(location) => jump_to_repository(state, location),
    }
}

/// Goes back to the latest place of the back stack, at the first
/// non-blank column of its line when `linewise`.
pub fn jump_to_previous(state: &mut AppState, linewise: bool) -> (effects: Vec<AppEffect>)
    ensures
        went_to_previous(*old(state), linewise, *final(state), effects@),
        final(state).diff_cache == old(state).diff_cache,
{
    let ghost s0 = *state;
    let ghost before = state.semantic_navigation.back_stack@;
    if state.semantic_navigation.back_stack.len() == 0 {
        notify(state, "No earlier jump location.");
        return Vec::new();
    }
    let origin = match state.semantic_navigation.back_stack.pop() {
        Some(o) => o,
        None => {
            return Vec::new();
        },
    };
    proof {
        assert(stack_view(state.semantic_navigation.back_stack@) =~= stack_view(before).drop_last());
    }
    let current = current_origin(state);
    push_origin(&mut state.semantic_navigation.forward_stack, current);
    let ghost m = *state;
    proof {
        assert(stacks_set(
            s0,
            m,
            stack_view(before).drop_last(),
            pushed_opt(stack_view(s0.semantic_navigation.forward_stack@), origin_here(s0)),
        ));
    }
    let origin = line_jump(origin, linewise);
    reveal_origin(state, origin)
}

/// `origin`, or its line's first non-blank column scrolled to the left
/// edge when `linewise`.
fn line_jump(origin: NavigationOrigin, linewise: bool) -> (o: NavigationOrigin)
    ensures
        origin_view(o) == jump_target(origin_view(origin), linewise),
{
    if linewise {
        NavigationOrigin {
            path: origin.path,
            cursor: SourcePosition { line: origin.cursor.line, byte_column: origin.first_non_blank_column },
            first_non_blank_column: origin.first_non_blank_column,
            viewport_vertical: origin.viewport_vertical,
            viewport_horizontal: 0,
        }
    } else {
        origin
    }
}

fn go_back(state: &mut AppState) -> (effects: Vec<AppEffect>)
    ensures
        went_back(*old(state), *final(state), effects@),
        final(state).diff_cache == old(state).diff_cache,
{
    jump_to_previous(state, false)
}

/// Whether two places are the same.
fn same_origin(a: &NavigationOrigin, b: &NavigationOrigin) -> (r: bool)
    ensures
        r == (origin_view(*a) == origin_view(*b)),
{
    a.path.same_as(&b.path) && a.cursor.line == b.cursor.line && a.cursor.byte_column
        == b.cursor.byte_column && a.first_non_blank_column == b.first_non_blank_column
        && a.viewport_vertical == b.viewport_vertical && a.viewport_horizontal
        == b.viewport_horizontal
}

/// Adds a completed jump that left `origin` to the shared jump list, so
/// that Vim jumps and semantic jumps share one back and forward history.
pub fn remember_jump(state: &mut AppState, origin: NavigationOrigin)
    ensures
        jump_remembered(*old(state), origin_view(origin), *final(state)),
{
    let here = current_origin(state);
    match &here {
        Some(h) => {
            if same_origin(h, &origin) {
                return;
            }
        },
        None => {},
    }
    push_bounded(&mut state.semantic_navigation.back_stack, origin);
    state.semantic_navigation.forward_stack = Vec::new();
    proof {
        assert(stack_view(state.semantic_navigation.forward_stack@) =~= Seq::<OriginView>::empty());
    }
}

/// Jumps to a mark's place, at its line when `linewise`; when
/// `record_jump`, the place left joins the jump list.
pub fn jump_to_mark(
    state: &mut AppState,
    origin: NavigationOrigin,
    linewise: bool,
    record_jump: bool,
) -> (effects: Vec<AppEffect>)
    ensures
        mark_jumped(*old(state), origin_view(origin), linewise, record_jump, *final(state), effects@),
{
    let ghost s0 = *state;
    let current = current_origin(state);
    let target = line_jump(origin, linewise);
    let effects = reveal_origin(state, target);
    let ghost m = *state;
    if record_jump {
        match current {
            Some(c) => remember_jump(state, c),
            None => {},
        }
    }
    proof {
        assert(origin_revealed(s0, jump_target(origin_view(origin), linewise), m, effects@));
    }
    effects
}

fn go_forward(state: &mut AppState) -> (effects: Vec<AppEffect>)
    ensures
        went_forward(*old(state), *final(state), effects@),
        final(state).diff_cache == old(state).diff_cache,
{
    let ghost s0 = *state;
    let ghost before = state.semantic_navigation.forward_stack@;
    if state.semantic_navigation.forward_stack.len() == 0 {
        notify(state, "No newer jump location.");
        return Vec::new();
    }
    let origin = match state.semantic_navigation.forward_stack.pop() {
        Some(o) => o,
        None => {
            return Vec::new();
        },
    };
    proof {
        assert(stack_view(state.semantic_navigation.forward_stack@) =~= stack_view(before).drop_last());
    }
    let current = current_origin(state);
    push_origin(&mut state.semantic_navigation.back_stack, current);
    let ghost m = *state;
    proof {
        assert(stacks_set(
            s0,
            m,
            pushed_opt(stack_view(s0.semantic_navigation.back_stack@), origin_here(s0)),
            stack_view(before).drop_last(),
        ));
    }
    reveal_origin(state, origin)
}

fn jump_list(state: &mut AppState, forward: bool, count: usize) -> (effects: Vec<AppEffect>)
    ensures
        jump_listed(*old(state), forward, count, *final(state), effects@),
        final(state).diff_cache == old(state).diff_cache,
{
    let ghost s0 = *state;
    let current = current_origin(state);
    let mut back: Vec<NavigationOrigin> = Vec::new();
    let mut fwd: Vec<NavigationOrigin> = Vec::new();
    std::mem::swap(&mut back, &mut state.semantic_navigation.back_stack);
    std::mem::swap(&mut fwd, &mut state.semantic_navigation.forward_stack);
    let (mut src, mut dst) = if forward {
        (fwd, back)
    } else {
        (back, fwd)
    };
    let want: usize = if count == 0 {
        1
    } else {
        count
    };
    let steps: usize = if want < src.len() {
        want
    } else {
        src.len()
    };
    if steps == 0 {
        if forward {
            state.semantic_navigation.forward_stack = src;
            state.semantic_navigation.back_stack = dst;
        } else {
            state.semantic_navigation.back_stack = src;
            state.semantic_navigation.forward_stack = dst;
        }
        proof {
            assert(state.semantic_navigation == s0.semantic_navigation);
        }
        return Vec::new();
    }
    let ghost src0 = stack_view(src@);
    let ghost dst0 = stack_view(dst@);
    let ghost n = src0.len() as int;
    let ghost cur = origin_here(s0);
    let ghost before = src@;
    let mut target = match src.pop() {
        Some(o) => o,
        None => {
            return Vec::new();
        },
    };
    proof {
        assert(stack_view(src@) =~= src0.take(n - 1));
    }
    push_origin(&mut dst, current);
    proof {
        assert(passed_over(src0, 0) =~= Seq::<OriginView>::empty());
    }
    let mut i: usize = 1;
    while i < steps
        invariant
            1 <= i <= steps,
            steps <= n,
            n == src0.len(),
            steps == jump_steps(count, src0.len()),
            stack_view(src@) == src0.take(n - i),
            origin_view(target) == src0[n - i],
            stack_view(dst@) == pushed_all(pushed_opt(dst0, cur), passed_over(src0, i - 1)),
        decreases steps - i,
    {
        let ghost sv = src@;
        let next = match src.pop() {
            Some(o) => o,
            None => {
                proof {
                    assert(stack_view(sv).len() == n - i);
                }
                return Vec::new();
            },
        };
        proof {
            assert(stack_view(src@) =~= stack_view(sv).drop_last());
            assert(stack_view(src@) =~= src0.take(n - i - 1));
            assert(stack_view(sv)[n - i - 1] == origin_view(next));
            assert(passed_over(src0, i as int).drop_last() =~= passed_over(src0, i - 1));
        }
        push_bounded(&mut dst, target);
        target = next;
        i = i + 1;
    }
    if forward {
        state.semantic_navigation.forward_stack = src;
        state.semantic_navigation.back_stack = dst;
    } else {
        state.semantic_navigation.back_stack = src;
        state.semantic_navigation.forward_stack = dst;
    }
    let ghost m = *state;
    proof {
        assert(stacks_set(
            s0,
            m,
            jump_back_after(s0, forward, count),
            jump_forward_after(s0, forward, count),
        ));
    }
    reveal_origin(state, target)
}

fn target_count_exec(state: &AppState) -> (n: usize)
    ensures
        n == target_count(*state),
{
    match &state.semantic_navigation.targets {
        LoadState::Ready(v) => v.len(),
        _ => 0,
    }
}

fn delta_of(count: usize) -> (d: isize)
    ensures
        d == count_delta(count),
{
    if count <= isize::MAX as usize {
        count as isize
    } else {
        isize::MAX
    }
}

fn candidate_action(state: &mut AppState, action: Action) -> (effects: Vec<AppEffect>)
    ensures
        candidate_step(*old(state), action, *final(state), effects@),
        final(state).diff_cache == old(state).diff_cache,
{
    let len = target_count_exec(state);
    match action {
        Action::MoveUp => {
            state.semantic_navigation.selection.move_by(-1, len);
        },
        Action::MoveDown => {
            state.semantic_navigation.selection.move_by(1, len);
        },
        Action::MoveTop => {
            state.semantic_navigation.selection.top(len);
        },
        Action::MoveBottom => {
            state.semantic_navigation.selection.bottom(len);
        },
        Action::VimMotion(m) => {
            let k = m.kind;
            if k == VimMotionKind::Up || k == VimMotionKind::PreviousLineFirstNonBlank || k
                == VimMotionKind::WordBackward || k == VimMotionKind::BigWordBackward {
                let d = delta_of(m.count);
                state.semantic_navigation.selection.move_by(-d, len);
            } else if k == VimMotionKind::Down || k == VimMotionKind::NextLineFirstNonBlank || k
                == VimMotionKind::WordForward || k == VimMotionKind::BigWordForward {
                state.semantic_navigation.selection.move_by(delta_of(m.count), len);
            } else if k == VimMotionKind::BufferTop || k == VimMotionKind::LineStart {
                state.semantic_navigation.selection.top(len);
            } else if k == VimMotionKind::BufferBottom || k == VimMotionKind::LineEnd {
                state.semantic_navigation.selection.bottom(len);
            }
        },
        Action::Activate => {
            let target = match (&state.semantic_navigation.targets, state.semantic_navigation.selection.index) {
                (LoadState::Ready(v), Some(i)) => if i < v.len() {
                    Some(duplicate_target(&v[i]))
                } else {
                    None
                },
                _ => None,
            };
            match target {
                Some(x) => {
                    return jump_to(state, x);
                },
                None => {},
            }
        },
        Action::CloseOverlay => {
            state.overlay = Overlay::CodeContent;
        },
        _ => {},
    }
    Vec::new()
}

fn move_cursor_horizontally(state: &mut AppState, right: bool)
    ensures
        cursor_moved(*old(state), right, *final(state)),
{
    let line = code_cursor(state).line as usize;
    let text: Option<&str> = match &state.code_view.content {
        LoadState::Ready(FileDocument::Text { lines, .. }) => if line < lines.len() {
            Some(lines[line].as_str())
        } else {
            None
        },
        _ => None,
    };
    match text {
        None => {
            state.code_view.cursor_column = 0;
        },
        Some(l) => {
            str_fits(l);
            let column = if right {
                next_byte_column(l, state.code_view.cursor_column)
            } else {
                previous_byte_column(l, state.code_view.cursor_column)
            };
            let display = display_column(l, column);
            state.code_view.cursor_column = column;
            if display < state.code_view.horizontal {
                state.code_view.horizontal = display;
            }
        },
    }
}

/// Revealing a location leaves the jump list and the pending semantic
/// request as they were.
pub proof fn lemma_location_keeps_navigation(
    s: AppState,
    t: AppState,
    path: Seq<u8>,
    position: SourcePosition,
    g: Seq<GitEffect>,
)
    requires
        location_revealed(s, t, path, position, g),
    ensures
        t.semantic_navigation == s.semantic_navigation,
{
    let m = choose|m: AppState|
        #[trigger] crate::app::code_view::reveal_stage(s, m, path)
            && crate::app::code_view::code_file_opened(
            AppState { focus: FocusedPane::Diff, overlay: Overlay::CodeContent, ..m },
            AppState { code_view: CodeViewState { cursor_column: 0, ..t.code_view }, ..t },
            path,
            position.line as usize,
            g,
        );
    assert(m.semantic_navigation == s.semantic_navigation);
}

/// Revealing a place of the jump list leaves the jump list as it was.
pub proof fn lemma_origin_keeps_navigation(s: AppState, o: OriginView, t: AppState, e: Seq<AppEffect>)
    requires
        origin_revealed(s, o, t, e),
    ensures
        t.semantic_navigation == s.semantic_navigation,
{
    let (r, g) = choose|r: AppState, g: Seq<GitEffect>|
        #[trigger] location_revealed(AppState { view: AppView::Code, ..s }, r, o.0, o.1, g) && t
            == (AppState {
            code_view: CodeViewState { horizontal: o.4, ..r.code_view },
            notice: None,
            ..r
        }) && e == as_app(g);
    lemma_location_keeps_navigation(AppState { view: AppView::Code, ..s }, r, o.0, o.1, g);
}

/// A jump stack never holds more than `MAX_JUMP_HISTORY` places, and a
/// place pushed is the latest one.
pub proof fn lemma_pushed_bounded(stack: Seq<OriginView>, o: OriginView)
    requires
        stack.len() <= MAX_JUMP_HISTORY,
    ensures
        pushed(stack, o).len() <= MAX_JUMP_HISTORY,
        pushed(stack, o).last() == o,
        stack.len() < MAX_JUMP_HISTORY ==> pushed(stack, o).drop_last() == stack,
{
    if stack.len() < MAX_JUMP_HISTORY {
        assert(pushed(stack, o).drop_last() =~= stack);
    }
}

/// A jump remembers the place it left as the latest place of the back
/// stack, and discards every newer place.
pub proof fn lemma_jump_records_origin(
    s: AppState,
    path: Seq<u8>,
    position: SourcePosition,
    t: AppState,
    e: Seq<AppEffect>,
)
    requires
        jumped_into(s, path, position, t, e),
    ensures
        stack_view(t.semantic_navigation.back_stack@) == pushed_opt(
            stack_view(s.semantic_navigation.back_stack@),
            origin_here(s),
        ),
        t.semantic_navigation.forward_stack@.len() == 0,
{
    let (m, g) = choose|m: AppState, g: Seq<GitEffect>|
        #![trigger history_recorded(s, m), location_revealed(m, t, path, position, g)]
        history_recorded(s, m) && location_revealed(m, t, path, position, g) && e == as_app(g);
    lemma_location_keeps_navigation(m, t, path, position, g);
    assert(stack_view(m.semantic_navigation.forward_stack@).len()
        == m.semantic_navigation.forward_stack@.len());
}

/// Going back right after a jump reveals the place the jump left, and the
/// jump target becomes the newer place to go forward to.
pub proof fn lemma_back_after_jump(
    s: AppState,
    path: Seq<u8>,
    position: SourcePosition,
    t: AppState,
    e: Seq<AppEffect>,
    u: AppState,
    e2: Seq<AppEffect>,
)
    requires
        jumped_into(s, path, position, t, e),
        origin_here(s) is Some,
        went_back(t, u, e2),
    ensures
        exists|m: AppState|
            #[trigger] stacks_set(
                t,
                m,
                pushed(stack_view(s.semantic_navigation.back_stack@), origin_here(s)->0).drop_last(),
                pushed_opt(Seq::empty(), origin_here(t)),
            ) && origin_revealed(m, origin_here(s)->0, u, e2),
{
    lemma_jump_records_origin(s, path, position, t, e);
    assert(stack_view(t.semantic_navigation.back_stack@).len() > 0);
    assert(stack_view(t.semantic_navigation.forward_stack@) =~= Seq::<OriginView>::empty());
}

/// Going back and then forward returns to the place going back left.
pub proof fn lemma_back_then_forward(s: AppState, t: AppState, e: Seq<AppEffect>, u: AppState, e2: Seq<AppEffect>)
    requires
        s.semantic_navigation.back_stack@.len() > 0,
        origin_here(s) is Some,
        went_back(s, t, e),
        went_forward(t, u, e2),
    ensures
        exists|m: AppState|
            #[trigger] stacks_set(
                t,
                m,
                pushed_opt(stack_view(t.semantic_navigation.back_stack@), origin_here(t)),
                pushed(stack_view(s.semantic_navigation.forward_stack@), origin_here(s)->0).drop_last(),
            ) && origin_revealed(m, origin_here(s)->0, u, e2),
{
    let back = stack_view(s.semantic_navigation.back_stack@);
    let forward = stack_view(s.semantic_navigation.forward_stack@);
    let m1 = choose|m: AppState|
        #[trigger] stacks_set(s, m, back.drop_last(), pushed_opt(forward, origin_here(s)))
            && origin_revealed(m, back.last(), t, e);
    lemma_origin_keeps_navigation(m1, back.last(), t, e);
    assert(stack_view(t.semantic_navigation.forward_stack@) == pushed(forward, origin_here(s)->0));
}

/// `c` is loading under request `id`.
pub open spec fn loading_id<T>(c: LoadState<T>, id: RequestId) -> bool {
    c matches LoadState::Loading { request_id } && request_id == id
}

/// An answer for `path` at `position` in document generation `revision`
/// still matches both the open document and the request it answers.
pub open spec fn answer_current(
    s: AppState,
    source_path: Option<RepoPath>,
    source_position: SourcePosition,
    source_revision: u64,
    path: Seq<u8>,
    position: SourcePosition,
    revision: u64,
) -> bool {
    &&& open_path(s) == Some(path)
    &&& cursor_of(s) == position
    &&& s.code_view.document_revision == revision
    &&& source_path matches Some(q) && q@ == path
    &&& source_position == position
    &&& source_revision == revision
}

/// Server progress text, kept for the request it belongs to.
pub open spec fn status_step(s: AppState, id: RequestId, message: String, t: AppState) -> bool {
    if loading_id(s.semantic_navigation.targets, id) {
        t == (AppState {
            semantic_navigation: SemanticNavigationState {
                status: Some(message),
                ..s.semantic_navigation
            },
            ..s
        })
    } else if loading_id(s.lsp_hover.content, id) {
        t == (AppState { lsp_hover: LspHoverState { status: Some(message), ..s.lsp_hover }, ..s })
    } else {
        t == s
    }
}

/// A hover answer: ignored unless awaited, closing the hover when the
/// document or cursor moved on, else shown.
pub open spec fn hover_answered(
    s: AppState,
    id: RequestId,
    path: Seq<u8>,
    position: SourcePosition,
    revision: u64,
    result: Result<Option<String>, LspError>,
    t: AppState,
) -> bool {
    let h = s.lsp_hover;
    if !loading_id(h.content, id) {
        t == s
    } else if !answer_current(
        s,
        h.source_path,
        h.source_position,
        h.source_revision,
        path,
        position,
        revision,
    ) {
        t == hover_closed(s)
    } else {
        match result {
            Ok(c) => t == (AppState {
                lsp_hover: LspHoverState { status: None, content: LoadState::Ready(c), ..h },
                ..s
            }),
            Err(err) => {
                &&& t == (AppState {
                    lsp_hover: LspHoverState { status: None, content: t.lsp_hover.content, ..h },
                    ..s
                })
                &&& t.lsp_hover.content matches LoadState::Failed(n) && n.0@ == err.message()
            },
        }
    }
}

/// The notice for an empty answer.
pub open spec fn no_target_text(kind: SemanticNavigationKind) -> Seq<char> {
    "No "@ + navigation_label(kind) + " target at the current cursor."@
}

/// `m` is `s` listing the single candidate `x`.
pub open spec fn single_listed(s: AppState, x: NavigationTarget, m: AppState) -> bool {
    &&& m == (AppState {
        semantic_navigation: SemanticNavigationState {
            targets: m.semantic_navigation.targets,
            ..s.semantic_navigation
        },
        ..s
    })
    &&& m.semantic_navigation.targets matches LoadState::Ready(w) && w@.len() == 1
        && same_navigation_target(w@[0], x)
}

/// A semantic answer: ignored unless awaited, dropped when the document or
/// cursor moved on; an error or an empty answer is reported, a single
/// target is jumped to, several are offered as candidates.
pub open spec fn navigation_answered(
    s: AppState,
    id: RequestId,
    path: Seq<u8>,
    position: SourcePosition,
    revision: u64,
    kind: SemanticNavigationKind,
    result: Result<Vec<NavigationTarget>, LspError>,
    t: AppState,
    e: Seq<AppEffect>,
) -> bool {
    let n = s.semantic_navigation;
    if !loading_id(n.targets, id) {
        t == s && e.len() == 0
    } else if !answer_current(
        s,
        n.source_path,
        n.source_position,
        n.source_revision,
        path,
        position,
        revision,
    ) {
        t == (AppState {
            semantic_navigation: SemanticNavigationState {
                targets: LoadState::Idle,
                status: None,
                ..n
            },
            ..s
        }) && e.len() == 0
    } else {
        let s1 = AppState {
            semantic_navigation: SemanticNavigationState { status: None, ..n },
            ..s
        };
        match result {
            Err(err) => {
                &&& e.len() == 0
                &&& t == (AppState {
                    semantic_navigation: SemanticNavigationState {
                        targets: t.semantic_navigation.targets,
                        ..s1.semantic_navigation
                    },
                    notice: t.notice,
                    ..s1
                })
                &&& t.semantic_navigation.targets matches LoadState::Failed(f) && f.0@
                    == err.message()
                &&& t.notice matches Some(m) && m.0@ == err.message()
            },
            Ok(v) => if v@.len() == 0 {
                &&& e.len() == 0
                &&& t == (AppState {
                    semantic_navigation: SemanticNavigationState {
                        targets: LoadState::Ready(v),
                        ..s1.semantic_navigation
                    },
                    notice: t.notice,
                    ..s1
                })
                &&& t.notice matches Some(m) && m.0@ == no_target_text(kind)
            } else if v@.len() == 1 {
                exists|m: AppState| #[trigger] single_listed(s1, v@[0], m) && jumped_to(m, v@[0], t, e)
            } else {
                &&& e.len() == 0
                &&& t == (AppState {
                    semantic_navigation: SemanticNavigationState {
                        targets: LoadState::Ready(v),
                        selection: Selection { index: Some(0) },
                        ..s1.semantic_navigation
                    },
                    overlay: Overlay::SemanticTargets,
                    notice: None,
                    ..s1
                })
            },
        }
    }
}

/// The events of the language server, and what each does to the state.
pub open spec fn semantic_event_step(s: AppState, event: Event, t: AppState, e: Seq<AppEffect>) -> bool {
    match event {
        Event::LspStatus { request_id, message } => status_step(s, request_id, message, t) && e.len()
            == 0,
        Event::LspHoverCompleted { request_id, path, position, document_revision, result } =>
            hover_answered(s, request_id, path@, position, document_revision, result, t) && e.len()
            == 0,
        Event::SemanticNavigationCompleted {
            request_id,
            path,
            position,
            document_revision,
            kind,
            result,
        } => navigation_answered(s, request_id, path@, position, document_revision, kind, result, t, e),
        _ => t == s && e.len() == 0,
    }
}

/// Whether the semantic layer takes `action` in state `s`: every action
/// while the candidates or the hover are shown, the cursor keys in the Code
/// document, and the hover, semantic and jump-list keys.
pub open spec fn handled_semantically(s: AppState, action: Action) -> bool {
    ||| s.overlay == Overlay::SemanticTargets
    ||| s.overlay == Overlay::LspHover
    ||| match action {
        Action::MoveCursorLeft | Action::MoveCursorRight => code_content_active(s),
        Action::ToggleLspHover
        | Action::GoToSemanticTarget(_)
        | Action::GoBackFromSemanticTarget
        | Action::GoForwardFromSemanticTarget
        | Action::JumpListBack(_)
        | Action::JumpListForward(_) => true,
        _ => false,
    }
}

/// What a semantically handled action does.
pub open spec fn semantic_acted(s: AppState, action: Action, t: AppState, e: Seq<AppEffect>) -> bool {
    if s.overlay == Overlay::SemanticTargets {
        candidate_step(s, action, t, e)
    } else if s.overlay == Overlay::LspHover {
        t == hover_acted(s, action) && e.len() == 0
    } else {
        match action {
            Action::MoveCursorLeft => cursor_moved(s, false, t) && e.len() == 0,
            Action::MoveCursorRight => cursor_moved(s, true, t) && e.len() == 0,
            Action::ToggleLspHover => hover_request_step(s, t, e),
            Action::GoToSemanticTarget(kind) => request_step(s, kind, t, e),
            Action::GoBackFromSemanticTarget => went_back(s, t, e),
            Action::GoForwardFromSemanticTarget => went_forward(s, t, e),
            Action::JumpListBack(c) => jump_listed(s, false, c, t, e),
            Action::JumpListForward(c) => jump_listed(s, true, c, t, e),
            _ => t == s && e.len() == 0,
        }
    }
}

/// An action offered to the semantic layer: taken, with its effects, or
/// declined with the state unchanged.
pub open spec fn semantic_action_step(
    s: AppState,
    action: Action,
    t: AppState,
    e: Option<Vec<AppEffect>>,
) -> bool {
    if handled_semantically(s, action) {
        e matches Some(x) && semantic_acted(s, action, t, x@)
    } else {
        t == s && e is None
    }
}

/// An action through the whole reducer: the semantic layer first, else the
/// repository reducer with its work as application work.
pub open spec fn app_action_step(s: AppState, action: Action, t: AppState, e: Seq<AppEffect>) -> bool {
    if handled_semantically(s, action) {
        semantic_acted(s, action, t, e)
    } else {
        exists|g: Seq<GitEffect>| #[trigger] action_step(s, action, t, g) && e == as_app(g)
    }
}

/// Completions of language-server work.
pub open spec fn lsp_event(event: Event) -> bool {
    ||| event is SemanticNavigationCompleted
    ||| event is LspHoverCompleted
    ||| event is LspStatus
}

/// An event through the whole reducer.
pub open spec fn app_event_step(s: AppState, event: Event, t: AppState, e: Seq<AppEffect>) -> bool {
    if lsp_event(event) {
        semantic_event_step(s, event, t, e)
    } else {
        exists|g: Seq<GitEffect>| #[trigger] event_step(s, event, t, g) && e == as_app(g)
    }
}

fn loading_exec<T>(c: &LoadState<T>, id: RequestId) -> (b: bool)
    ensures
        b == loading_id(*c, id),
{
    match c {
        LoadState::Loading { request_id } => request_id.0 == id.0,
        _ => false,
    }
}

fn answer_current_exec(
    state: &AppState,
    source_path: &Option<RepoPath>,
    source_position: SourcePosition,
    source_revision: u64,
    path: &RepoPath,
    position: SourcePosition,
    revision: u64,
) -> (b: bool)
    ensures
        b == answer_current(
            *state,
            *source_path,
            source_position,
            source_revision,
            path@,
            position,
            revision,
        ),
{
    let open = match &state.code_view.path {
        Some(p) => p.same_as(path),
        None => false,
    };
    let source = match source_path {
        Some(q) => q.same_as(path),
        None => false,
    };
    let cursor = code_cursor(state);
    open && cursor.line == position.line && cursor.byte_column == position.byte_column
        && state.code_view.document_revision == revision && source && source_position.line
        == position.line && source_position.byte_column == position.byte_column
        && source_revision == revision
}

fn hover_completed(
    state: &mut AppState,
    request_id: RequestId,
    path: RepoPath,
    position: SourcePosition,
    document_revision: u64,
    result: Result<Option<String>, LspError>,
)
    ensures
        hover_answered(*old(state), request_id, path@, position, document_revision, result, *final(state)),
{
    if !loading_exec(&state.lsp_hover.content, request_id) {
        return;
    }
    let current = answer_current_exec(
        state,
        &state.lsp_hover.source_path,
        state.lsp_hover.source_position,
        state.lsp_hover.source_revision,
        &path,
        position,
        document_revision,
    );
    if !current {
        close_hover(state);
        return;
    }
    state.lsp_hover.status = None;
    state.lsp_hover.content = match result {
        Ok(content) => LoadState::Ready(content),
        Err(error) => LoadState::Failed(ErrorNotice::new(error.to_message())),
    };
}

fn navigation_completed(
    state: &mut AppState,
    request_id: RequestId,
    path: RepoPath,
    position: SourcePosition,
    document_revision: u64,
    kind: SemanticNavigationKind,
    result: Result<Vec<NavigationTarget>, LspError>,
) -> (effects: Vec<AppEffect>)
    ensures
        navigation_answered(
            *old(state),
            request_id,
            path@,
            position,
            document_revision,
            kind,
            result,
            *final(state),
            effects@,
        ),
        final(state).diff_cache == old(state).diff_cache,
{
    if !loading_exec(&state.semantic_navigation.targets, request_id) {
        return Vec::new();
    }
    let current = answer_current_exec(
        state,
        &state.semantic_navigation.source_path,
        state.semantic_navigation.source_position,
        state.semantic_navigation.source_revision,
        &path,
        position,
        document_revision,
    );
    if !current {
        state.semantic_navigation.targets = LoadState::Idle;
        state.semantic_navigation.status = None;
        return Vec::new();
    }
    state.semantic_navigation.status = None;
    match result {
        Err(error) => {
            state.semantic_navigation.targets = LoadState::Failed(ErrorNotice::new(error.to_message()));
            state.notice = Some(ErrorNotice::new(error.to_message()));
            Vec::new()
        },
        Ok(targets) => {
            if targets.len() == 0 {
                let message = "No ".to_string().concat(kind.label()).concat(
                    " target at the current cursor.",
                );
                state.semantic_navigation.targets = LoadState::Ready(targets);
                state.notice = Some(ErrorNotice::new(message));
                Vec::new()
            } else if targets.len() == 1 {
                let ghost s1 = *state;
                let ghost x = targets@[0];
                let mut targets = targets;
                let target = targets.remove(0);
                let copy = duplicate_target(&target);
                state.semantic_navigation.targets = LoadState::Ready(vec![copy]);
                let ghost m = *state;
                proof {
                    assert(single_listed(s1, x, m));
                }
                jump_to(state, target)
            } else {
                state.semantic_navigation.selection.reset(targets.len());
                state.semantic_navigation.targets = LoadState::Ready(targets);
                state.overlay = Overlay::SemanticTargets;
                state.notice = None;
                Vec::new()
            }
        },
    }
}

/// Offers `action` to the semantic layer; `None` when it does not take it.
pub fn apply_semantic_action(state: &mut AppState, action: Action) -> (e: Option<Vec<AppEffect>>)
    requires
        old(state).wf(),
    ensures
        final(state).wf(),
        semantic_action_step(*old(state), action, *final(state), e),
        old(state).next_request <= final(state).next_request,
{
    if state.overlay == Overlay::SemanticTargets {
        return Some(candidate_action(state, action));
    }
    if state.overlay == Overlay::LspHover {
        hover_action(state, action);
        return Some(Vec::new());
    }
    let active = state.view == AppView::Code && (state.focus == FocusedPane::Diff || state.overlay
        == Overlay::CodeContent);
    match action {
        Action::MoveCursorLeft => if active {
            move_cursor_horizontally(state, false);
            Some(Vec::new())
        } else {
            None
        },
        Action::MoveCursorRight => if active {
            move_cursor_horizontally(state, true);
            Some(Vec::new())
        } else {
            None
        },
        Action::ToggleLspHover => Some(request_hover(state)),
        Action::GoToSemanticTarget(kind) => Some(request(state, kind)),
        Action::GoBackFromSemanticTarget => Some(go_back(state)),
        Action::GoForwardFromSemanticTarget => Some(go_forward(state)),
        Action::JumpListBack(count) => Some(jump_list(state, false, count)),
        Action::JumpListForward(count) => Some(jump_list(state, true, count)),
        _ => None,
    }
}

/// Applies a completion of language-server work.
pub fn apply_semantic_event(state: &mut AppState, event: Event) -> (e: Vec<AppEffect>)
    requires
        old(state).wf(),
    ensures
        final(state).wf(),
        semantic_event_step(*old(state), event, *final(state), e@),
        old(state).next_request <= final(state).next_request,
{
    match event {
        Event::LspStatus { request_id, message } => {
            if loading_exec(&state.semantic_navigation.targets, request_id) {
                state.semantic_navigation.status = Some(message);
            } else if loading_exec(&state.lsp_hover.content, request_id) {
                state.lsp_hover.status = Some(message);
            }
            Vec::new()
        },
        Event::LspHoverCompleted { request_id, path, position, document_revision, result } => {
            hover_completed(state, request_id, path, position, document_revision, result);
            Vec::new()
        },
        Event::SemanticNavigationCompleted {
            request_id,
            path,
            position,
            document_revision,
            kind,
            result,
        } => navigation_completed(state, request_id, path, position, document_revision, kind, result),
        _ => Vec::new(),
    }
}

impl AppState {
    /// Applies a user action through the semantic layer and the repository
    /// reducer, returning all the work it asks for.
    pub fn handle_app_action(&mut self, action: Action) -> (effects: Vec<AppEffect>)
        requires
            old(self).wf(),
        ensures
            final(self).wf(),
            app_action_step(*old(self), action, *final(self), effects@),
        old(self).next_request <= final(self).next_request,
    {
        match apply_semantic_action(self, action) {
            Some(effects) => effects,
            None => {
                let g = self.handle_action(action);
                let ghost gv = g@;
                let effects = git_effects(g);
                proof {
                    assert(action_step(*old(self), action, *self, gv));
                }
                effects
            },
        }
    }

    /// Applies a completion through the semantic layer and the repository
    /// reducer, returning all the work it asks for.
    pub fn handle_app_event(&mut self, event: Event) -> (effects: Vec<AppEffect>)
        requires
            old(self).wf(),
        ensures
            final(self).wf(),
            app_event_step(*old(self), event, *final(self), effects@),
        old(self).next_request <= final(self).next_request,
    {
        let lsp = match &event {
            Event::SemanticNavigationCompleted { .. } | Event::LspHoverCompleted { .. }
            | Event::LspStatus { .. } => true,
            _ => false,
        };
        if lsp {
            apply_semantic_event(self, event)
        } else {
            let ghost ev = event;
            let g = self.handle_event(event);
            let ghost gv = g@;
            let effects = git_effects(g);
            proof {
                assert(event_step(*old(self), ev, *self, gv));
            }
            effects
        }
    }
}

} // verus!
