//! User intent accepted by the reducer: Vim motions and semantic actions.

use crate::app::search::SearchDirection;
use crate::app::model::{RequestId, VisibleTreeEntry};
use crate::domain::change::{ChangedFile, WorktreeChange};
use crate::domain::commit::{CommitMessage, CommitSummary, ObjectId};
use crate::domain::diff::DiffDocument;
use crate::domain::path::RepoPath;
use crate::domain::search::{FileDocument, SearchHit};
use crate::domain::source::{NavigationTarget, SemanticNavigationKind, SourcePosition};
use crate::domain::tree::TreeEntry;
use crate::git::runner::GitError;
use crate::lsp::LspError;
use vstd::prelude::*;

verus! {

/// A Vim normal-mode cursor or viewport movement.
///
/// The key mapper attaches the optional count and character argument before
/// an action reaches the reducer, so documents share one motion
/// implementation without depending on terminal events.
#[derive(Clone, Copy, Debug, PartialEq, Eq, Structural)]
pub struct VimMotion {
    pub kind: VimMotionKind,
    pub count: usize,
    pub explicit_count: bool,
    pub target: Option<char>,
    pub repeated: bool,
}

impl VimMotion {
    /// Creates an uncounted motion template for a key binding.
    pub fn new(kind: VimMotionKind) -> (m: VimMotion)
        ensures
            m == (VimMotion { kind, count: 1, explicit_count: false, target: None, repeated: false }),
    {
        VimMotion { kind, count: 1, explicit_count: false, target: None, repeated: false }
    }

    /// Returns the motion operation.
    pub fn kind(self) -> (k: VimMotionKind)
        ensures
            k == self.kind,
    {
        self.kind
    }

    /// Returns the normalized count.
    pub fn count(self) -> (c: usize)
        ensures
            c == self.count,
    {
        self.count
    }

    /// Reports whether the user supplied a count rather than using the default.
    pub fn has_explicit_count(self) -> (b: bool)
        ensures
            b == self.explicit_count,
    {
        self.explicit_count
    }

    /// Returns the character supplied to `f`, `F`, `t`, or `T`.
    pub fn target(self) -> (t: Option<char>)
        ensures
            t == self.target,
    {
        self.target
    }

    /// Attaches a count; zero means the default count of one.
    pub fn counted(self, count: usize, explicit: bool) -> (m: VimMotion)
        ensures
            m == (VimMotion {
                count: if count == 0 { 1 } else { count },
                explicit_count: explicit,
                ..self
            }),
    {
        VimMotion { count: if count == 0 { 1 } else { count }, explicit_count: explicit, ..self }
    }

    /// Attaches the character argument.
    pub fn targeting(self, target: char) -> (m: VimMotion)
        ensures
            m == (VimMotion { target: Some(target), ..self }),
    {
        VimMotion { target: Some(target), ..self }
    }

    /// Marks a repetition of the latest character search (`;` or `,`).
    pub fn repeating(self) -> (m: VimMotion)
        ensures
            m == (VimMotion { repeated: true, ..self }),
    {
        VimMotion { repeated: true, ..self }
    }

    /// Whether this is a repeated character search.
    pub fn is_repeated(self) -> (b: bool)
        ensures
            b == self.repeated,
    {
        self.repeated
    }
}

/// The movement vocabulary accepted by the read-only Vim normal mode.
#[derive(Clone, Copy, Debug, PartialEq, Eq, Structural)]
pub enum VimMotionKind {
    /// `h` or Left.
    Left,
    /// Backspace or Ctrl-H with Vim's default `'whichwrap'` behavior.
    LeftWrap,
    /// `l` or Right.
    Right,
    /// Space with Vim's default `'whichwrap'` behavior.
    RightWrap,
    /// `k`, Up, or Ctrl-P.
    Up,
    /// `j`, Down, Ctrl-J, Ctrl-N, or newline.
    Down,
    /// `0` or Home.
    LineStart,
    /// `^`.
    FirstNonBlank,
    /// `$` or End.
    LineEnd,
    /// `g_`.
    LastNonBlank,
    /// `g0`.
    ScreenLineStart,
    /// `g^`.
    ScreenFirstNonBlank,
    /// `g$`.
    ScreenLineEnd,
    /// `g<End>`.
    ScreenLastNonBlank,
    /// `gm`.
    ScreenMiddle,
    /// `gM`.
    LineMiddle,
    /// `|`.
    Column,
    /// `go`.
    ByteOffset,
    /// `w`.
    WordForward,
    /// `W`.
    BigWordForward,
    /// `e`.
    WordEndForward,
    /// `E`.
    BigWordEndForward,
    /// `b`.
    WordBackward,
    /// `B`.
    BigWordBackward,
    /// `ge`.
    WordEndBackward,
    /// `gE`.
    BigWordEndBackward,
    /// `f{char}`.
    FindForward,
    /// `F{char}`.
    FindBackward,
    /// `t{char}`.
    TillForward,
    /// `T{char}`.
    TillBackward,
    /// `;` (resolved by the key mapper to the latest character search).
    RepeatCharacterSearch,
    /// `,` (resolved by the key mapper to the reversed character search).
    ReverseCharacterSearch,
    /// `-`.
    PreviousLineFirstNonBlank,
    /// `+` or Enter in a document.
    NextLineFirstNonBlank,
    /// `_`.
    CountedLineFirstNonBlank,
    /// `gg` or Ctrl-Home.
    BufferTop,
    /// `G`.
    BufferBottom,
    /// Ctrl-End.
    BufferBottomEnd,
    /// `{count}%`.
    BufferPercentage,
    /// `H`.
    WindowTop,
    /// `M`.
    WindowMiddle,
    /// `L`.
    WindowBottom,
    /// `(`.
    SentenceBackward,
    /// `)`.
    SentenceForward,
    /// `{`.
    ParagraphBackward,
    /// `}`.
    ParagraphForward,
    /// `[[`.
    SectionStartBackward,
    /// `]]`.
    SectionStartForward,
    /// `[]`.
    SectionEndBackward,
    /// `][`.
    SectionEndForward,
    /// `%` without a count.
    MatchingPair,
    /// `g%`.
    MatchingPairBackward,
    /// `[(` or `[{` with the delimiter supplied as the target.
    UnmatchedOpenBackward,
    /// `])` or `]}` with the delimiter supplied as the target.
    UnmatchedCloseForward,
    /// `[m` / `[M`.
    MethodBackward,
    /// `]m` / `]M`.
    MethodForward,
    /// `[#`.
    PreprocessorBackward,
    /// `]#`.
    PreprocessorForward,
    /// `[*` or `[/`.
    CommentBackward,
    /// `]*` or `]/`.
    CommentForward,
    /// `[c` in a diff.
    DiffChangeBackward,
    /// `]c` in a diff.
    DiffChangeForward,
    /// `n`.
    SearchNext,
    /// `N`.
    SearchPrevious,
    /// `*`.
    SearchWordForward,
    /// `#`.
    SearchWordBackward,
    /// `g*`.
    SearchPartialWordForward,
    /// `g#`.
    SearchPartialWordBackward,
    /// `['`.
    PreviousMarkLine,
    /// `` [` ``.
    PreviousMarkExact,
    /// `]'`.
    NextMarkLine,
    /// `` ]` ``.
    NextMarkExact,
    /// Ctrl-D.
    HalfPageDown,
    /// Ctrl-U.
    HalfPageUp,
    /// Ctrl-F or PageDown.
    PageDown,
    /// Ctrl-B or PageUp.
    PageUp,
    /// Ctrl-E.
    ScrollLineDown,
    /// Ctrl-Y.
    ScrollLineUp,
    /// `zt`.
    CursorToWindowTop,
    /// `z<CR>`.
    CursorToWindowTopFirstNonBlank,
    /// `zz`.
    CursorToWindowMiddle,
    /// `z.`.
    CursorToWindowMiddleFirstNonBlank,
    /// `zb`.
    CursorToWindowBottom,
    /// `z-`.
    CursorToWindowBottomFirstNonBlank,
    /// `z+`.
    NextWindowTop,
    /// `z^`.
    PreviousWindowBottom,
    /// `zh`.
    ScrollColumnLeft,
    /// `zl`.
    ScrollColumnRight,
    /// `zH`.
    ScrollHalfScreenLeft,
    /// `zL`.
    ScrollHalfScreenRight,
    /// `zs`.
    CursorToWindowLeft,
    /// `ze`.
    CursorToWindowRight,
}

/// A semantic input handled by the application state machine.
#[derive(Clone, Copy, Debug, PartialEq, Eq, Structural)]
pub enum Action {
    /// Leave the application event loop.
    Quit,
    /// Switch to unstaged worktree changes.
    ShowChanges,
    /// Switch to the paged commit-history view.
    ShowHistory,
    /// Switch to the commit graph.
    ShowGraph,
    /// Switch to the working-tree code viewer.
    ShowCode,
    /// Move focus to the preceding pane or search input.
    FocusLeft,
    /// Move focus to the following pane or search results.
    FocusRight,
    /// Move the current selection or scroll position up.
    MoveUp,
    /// Move the current selection or scroll position down.
    MoveDown,
    /// Move to the first item or line.
    MoveTop,
    /// Move to the last item or line.
    MoveBottom,
    /// Scroll the active document up by half a page.
    HalfPageUp,
    /// Scroll the active document down by half a page.
    HalfPageDown,
    /// Scroll a diff horizontally to the left.
    ScrollLeft,
    /// Scroll a diff horizontally to the right.
    ScrollRight,
    /// Move the focused Code cursor left, or move to the preceding pane.
    MoveCursorLeft,
    /// Move the focused Code cursor right, or move to the following pane.
    MoveCursorRight,
    /// Apply a count-aware Vim normal-mode movement.
    VimMotion(VimMotion),
    /// Set a Vim mark at the active Code cursor.
    SetVimMark(char),
    /// Jump to a Vim mark, either at its exact column or first non-blank.
    JumpToVimMark {
        /// Mark name supplied after backtick or apostrophe.
        mark: char,
        /// Apostrophe jumps are linewise; backtick jumps retain the column.
        linewise: bool,
        /// Plain mark jumps update the jump list; `g'` / `` g` `` do not.
        record_jump: bool,
    },
    /// Open or close language-server hover information at the Code cursor.
    ToggleLspHover,
    /// Request one standard semantic target from the enabled language server.
    GoToSemanticTarget(SemanticNavigationKind),
    /// Return to the source location preceding the latest semantic jump.
    GoBackFromSemanticTarget,
    /// Revisit the semantic location most recently left by a backward jump.
    GoForwardFromSemanticTarget,
    /// Move backward through the shared Vim/LSP jump list.
    JumpListBack(usize),
    /// Move forward through the shared Vim/LSP jump list.
    JumpListForward(usize),
    /// Reload data owned by the current view.
    Refresh,
    /// Open or close the selected commit's complete message.
    ToggleMessage,
    /// Toggle between history summary and commit-detail layouts.
    ToggleDetails,
    /// Toggle the middle history pane between changed files and the commit tree.
    ToggleTree,
    /// Open repository-wide file-name search.
    OpenFileSearch,
    /// Open repository-wide fixed-text content search.
    OpenContentSearch,
    /// Activate the selected item; open text documents interpret Enter as `+`.
    Activate,
    /// Begin in-document search in the requested direction.
    StartSearch(SearchDirection),
    /// Append one character to an active search prompt.
    InsertSearch(char),
    /// Delete the last character from an active search prompt.
    DeleteSearch,
    /// Accept an active search prompt or move into repository search results.
    ConfirmSearch,
    /// Cancel the active prompt without closing the surrounding document.
    CancelSearch,
    /// Select the next in-document search match.
    NextMatch,
    /// Select the previous in-document search match.
    PreviousMatch,
    /// Open or close the key help overlay.
    ToggleHelp,
    /// Close the topmost overlay or return one navigation level.
    CloseOverlay,
    /// Advance timers used for pending key sequences and deferred work.
    Tick,
}

/// A completion of asynchronous work, handed back to the reducer.
#[derive(Debug)]
pub enum Event {
    /// Completed an unstaged-worktree status request.
    ChangesLoaded { request_id: RequestId, result: Result<Vec<WorktreeChange>, GitError> },
    /// Completed one page of commit history.
    CommitsLoaded {
        request_id: RequestId,
        /// Whether the page extends the list rather than replacing it.
        append: bool,
        /// Requested page size, used to detect the end of history.
        limit: usize,
        result: Result<Vec<CommitSummary>, GitError>,
    },
    /// Completed the changed-file list for a selected commit.
    FilesLoaded {
        request_id: RequestId,
        /// Commit that was selected when loading began.
        commit: ObjectId,
        result: Result<Vec<ChangedFile>, GitError>,
    },
    /// Completed a worktree or commit diff request.
    DiffLoaded { request_id: RequestId, result: Result<DiffDocument, GitError> },
    /// Completed a full commit-message request.
    MessageLoaded {
        request_id: RequestId,
        commit: ObjectId,
        result: Result<CommitMessage, GitError>,
    },
    /// Completed one lazy commit-tree directory request.
    TreeLoaded {
        request_id: RequestId,
        commit: ObjectId,
        /// Visible directory receiving the children, or `None` for the root.
        parent: Option<VisibleTreeEntry>,
        result: Result<Vec<TreeEntry>, GitError>,
    },
    /// Completed the latest repository file or content search.
    RepositorySearchLoaded { request_id: RequestId, result: Result<Vec<SearchHit>, GitError> },
    /// Completed history loading for one repository path.
    FileHistoryLoaded {
        request_id: RequestId,
        path: RepoPath,
        result: Result<Vec<CommitSummary>, GitError>,
    },
    /// Completed a bounded current-file read.
    FileContentLoaded {
        request_id: RequestId,
        path: RepoPath,
        result: Result<FileDocument, GitError>,
    },
    /// Completed the working-tree file list used by the code viewer.
    CodeTreeLoaded { request_id: RequestId, result: Result<Vec<RepoPath>, GitError> },
    /// Completed a bounded code-viewer file read.
    CodeFileLoaded {
        request_id: RequestId,
        path: RepoPath,
        result: Result<FileDocument, GitError>,
    },
    /// Completed the latest semantic navigation request.
    SemanticNavigationCompleted {
        request_id: RequestId,
        path: RepoPath,
        position: SourcePosition,
        document_revision: u64,
        kind: SemanticNavigationKind,
        result: Result<Vec<NavigationTarget>, LspError>,
    },
    /// Completed the latest language-server hover request.
    LspHoverCompleted {
        request_id: RequestId,
        path: RepoPath,
        position: SourcePosition,
        document_revision: u64,
        result: Result<Option<String>, LspError>,
    },
    /// Bounded status text from the server handling the current request.
    LspStatus { request_id: RequestId, message: String },
}

} // verus!
