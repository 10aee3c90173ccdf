//! Application view vocabulary and the bounded list selection shared by panes.

use crate::app::code_view::VisibleCodeEntry;
use crate::app::effect::GitEffect;
use crate::app::search::SearchState;
use crate::domain::change::{ChangedFile, WorktreeChange};
use crate::domain::commit::{CommitMessage, CommitSummary, ObjectId};
use crate::domain::diff::{same_document, same_target, DiffDocument, DiffTarget};
use crate::domain::path::{RepoPath, RepositoryRoot};
use crate::domain::search::{FileDocument, SearchHit};
use crate::domain::source::{NavigationTarget, SemanticNavigationKind, SourcePosition};
use crate::domain::tree::{same_entry, TreeEntry};
use std::collections::VecDeque;
use vstd::prelude::*;

verus! {

/// The main screen currently rendered by the TUI.
#[derive(Clone, Copy, Debug, PartialEq, Eq, Structural)]
pub enum AppView {
    /// Unstaged worktree paths and an index-to-worktree diff.
    Changes,
    /// Commit list, changed files or tree, and selected diff.
    History,
    /// Commit list, full message body, and changed files.
    CommitDetails,
    /// Commit list rendered with parent lanes.
    Graph,
    /// Graph plus changed-file and diff details.
    GraphDetails,
    /// History and current content for one repository path.
    FileHistory,
    /// Expandable working-tree file tree and current source content.
    Code,
}

/// The pane receiving navigation actions in the current view.
#[derive(Clone, Copy, Debug, PartialEq, Eq, Structural)]
pub enum FocusedPane {
    /// The first list or search-input pane.
    Primary,
    /// The second list, body, or search-results pane.
    Secondary,
    /// The diff or document pane.
    Diff,
}

/// Content displayed in the middle section of the history view.
#[derive(Clone, Copy, Debug, PartialEq, Eq, Structural)]
pub enum HistoryPanel {
    /// Paths changed relative to the commit baseline.
    ChangedFiles,
    /// Lazily expandable entries from the selected commit tree.
    Tree,
}

/// A modal surface drawn above a main view.
#[derive(Clone, Copy, Debug, PartialEq, Eq, Structural)]
pub enum Overlay {
    /// No modal surface is active.
    Closed,
    /// Built-in key and navigation help.
    Help,
    /// The selected commit's complete message.
    CommitMessage,
    /// A full-screen diff document.
    Diff,
    /// Repository-wide file-name or content search.
    RepositorySearch,
    /// A full-screen current working-tree file.
    FileContent,
    /// A full-screen file opened from the code viewer.
    CodeContent,
    /// Multiple semantic navigation targets awaiting selection.
    SemanticTargets,
    /// Language-server hover information for the current Code cursor.
    LspHover,
}

/// Repository-wide search mode.
#[derive(Clone, Copy, Debug, PartialEq, Eq, Structural)]
pub enum RepositorySearchKind {
    /// Match fixed text against tracked and untracked path names.
    Files,
    /// Match fixed text within non-binary working-tree files.
    Content,
}

impl RepositorySearchKind {
    /// Returns the lowercase label shown in the search prompt.
    pub fn label(self) -> (s: &'static str)
        ensures
            s@ == (match self {
                RepositorySearchKind::Files => "files"@,
                RepositorySearchKind::Content => "content"@,
            }),
    {
        match self {
            RepositorySearchKind::Files => "files",
            RepositorySearchKind::Content => "content",
        }
    }
}

/// An identifier attached to asynchronous work; a completion is accepted only
/// while its request is the one being loaded.
#[derive(Clone, Copy, Debug, PartialEq, Eq, Hash, Structural)]
pub struct RequestId(pub u64);

impl RequestId {
    /// Returns the numeric identifier.
    pub fn value(self) -> (v: u64)
        ensures
            v == self.0,
    {
        self.0
    }
}

/// A sanitized, display-ready recoverable error message.
#[derive(Clone, Debug)]
pub struct ErrorNotice(pub String);

impl ErrorNotice {
    /// Creates a notice from boundary-provided text.
    pub fn new(message: String) -> (n: ErrorNotice)
        ensures
            n.0@ == message@,
    {
        ErrorNotice(message)
    }

    /// Returns the text shown in the affected pane or footer.
    pub fn message(&self) -> (s: &str)
        ensures
            s@ == self.0@,
    {
        self.0.as_str()
    }
}

/// The lifecycle of one asynchronously loaded resource.
#[derive(Clone, Debug)]
pub enum LoadState<T> {
    /// No request has been issued for the current resource.
    Idle,
    /// A request is in flight.
    Loading {
        /// Identifier required for a completion to be accepted.
        request_id: RequestId,
    },
    /// Data for the current resource is available.
    Ready(T),
    /// The most recent request failed and may be retried by user action.
    Failed(ErrorNotice),
}

impl<T> LoadState<T> {
    /// Returns the current request identifier only while loading.
    pub fn loading_request(&self) -> (r: Option<RequestId>)
        ensures
            r == (match self {
                LoadState::Loading { request_id } => Some(*request_id),
                _ => None,
            }),
    {
        match self {
            LoadState::Loading { request_id } => Some(*request_id),
            _ => None,
        }
    }
}

/// The selected row of a list, if any.
#[derive(Clone, Copy, Debug, PartialEq, Eq, Structural)]
pub struct Selection {
    pub index: Option<usize>,
}

/// The first row of a non-empty list.
pub open spec fn first_row(len: usize) -> Option<usize> {
    if len > 0 {
        Some(0)
    } else {
        None
    }
}

/// `index` moved by `delta` rows, stopping at the first and last row.
pub open spec fn moved(index: Option<usize>, delta: isize, len: usize) -> Option<usize> {
    if len == 0 {
        None
    } else {
        let current: int = match index {
            Some(i) => i as int,
            None => 0,
        };
        let raw = current + delta;
        Some(
            if raw < 0 {
                0
            } else if raw >= len {
                (len - 1) as usize
            } else {
                raw as usize
            },
        )
    }
}

impl Selection {
    /// Nothing selected.
    pub fn new() -> (s: Selection)
        ensures
            s.index is None,
    {
        Selection { index: None }
    }

    pub fn index(&self) -> (i: Option<usize>)
        ensures
            i == self.index,
    {
        self.index
    }

    /// Selects the first row of a list of `len` rows.
    pub fn reset(&mut self, len: usize)
        ensures
            final(self).index == first_row(len),
    {
        self.index = if len > 0 {
            Some(0)
        } else {
            None
        };
    }

    /// Selects the preferred row (the first by default), clamped to the list.
    pub fn reset_to(&mut self, len: usize, preferred: Option<usize>)
        ensures
            final(self).index == (if len == 0 {
                None
            } else {
                let p = match preferred {
                    Some(p) => p,
                    None => 0,
                };
                Some(if p < len { p } else { (len - 1) as usize })
            }),
    {
        self.index = if len == 0 {
            None
        } else {
            let p = match preferred {
                Some(p) => p,
                None => 0,
            };
            Some(
                if p < len {
                    p
                } else {
                    len - 1
                },
            )
        };
    }

    /// Keeps the selection inside a list of `len` rows.
    pub fn clamp(&mut self, len: usize)
        ensures
            final(self).index == (if len == 0 {
                None
            } else {
                match old(self).index {
                    Some(i) => Some(if i < len { i } else { (len - 1) as usize }),
                    None => Some(0),
                }
            }),
    {
        self.index = if len == 0 {
            None
        } else {
            match self.index {
                Some(i) => Some(
                    if i < len {
                        i
                    } else {
                        len - 1
                    },
                ),
                None => Some(0),
            }
        };
    }

    /// Moves by `delta` rows within a list of `len`; reports a change.
    pub fn move_by(&mut self, delta: isize, len: usize) -> (changed: bool)
        ensures
            final(self).index == moved(old(self).index, delta, len),
            changed == (final(self).index != old(self).index),
    {
        let previous = self.index;
        if len == 0 {
            self.index = None;
            return previous.is_some();
        }
        let current = match self.index {
            Some(i) => i,
            None => 0,
        };
        let next = if delta < 0 {
            let back = if delta == isize::MIN {
                (isize::MAX as usize) + 1
            } else {
                (-delta) as usize
            };
            if back > current {
                0
            } else if current - back > len - 1 {
                len - 1
            } else {
                current - back
            }
        } else {
            let forward = delta as usize;
            if current >= len - 1 || forward >= len - 1 - current {
                len - 1
            } else {
                current + forward
            }
        };
        self.index = Some(next);
        match previous {
            Some(p) => p != next,
            None => true,
        }
    }

    /// Selects the first row; reports a change.
    pub fn top(&mut self, len: usize) -> (changed: bool)
        ensures
            final(self).index == first_row(len),
            changed == (final(self).index != old(self).index),
    {
        let previous = self.index;
        self.index = if len > 0 {
            Some(0)
        } else {
            None
        };
        match (previous, self.index) {
            (Some(a), Some(b)) => a != b,
            (None, None) => false,
            _ => true,
        }
    }

    /// Selects the last row; reports a change.
    pub fn bottom(&mut self, len: usize) -> (changed: bool)
        ensures
            final(self).index == (if len > 0 {
                Some((len - 1) as usize)
            } else {
                None
            }),
            changed == (final(self).index != old(self).index),
    {
        let previous = self.index;
        self.index = if len > 0 {
            Some(len - 1)
        } else {
            None
        };
        match (previous, self.index) {
            (Some(a), Some(b)) => a != b,
            (None, None) => false,
            _ => true,
        }
    }
}

/// A selection always lies inside its list after a move.
pub proof fn lemma_move_stays_in_list(index: Option<usize>, delta: isize, len: usize)
    ensures
        len == 0 ==> moved(index, delta, len) is None,
        len > 0 ==> (moved(index, delta, len) matches Some(i) && i < len),
{
}

/// A flattened commit-tree row ready for list rendering.
///
/// The tree entry's name is relative to its direct parent, while `path`
/// holds the complete repository-relative path.
#[derive(Debug)]
pub struct VisibleTreeEntry {
    pub entry: TreeEntry,
    pub path: RepoPath,
    /// Zero-based nesting depth used for indentation.
    pub depth: usize,
    /// Whether a directory's loaded children are shown below it.
    pub expanded: bool,
}

impl VisibleTreeEntry {
    /// A collapsed row at the given depth.
    pub fn new(entry: TreeEntry, path: RepoPath, depth: usize) -> (v: VisibleTreeEntry)
        ensures
            v.entry == entry,
            v.path == path,
            v.depth == depth,
            !v.expanded,
    {
        VisibleTreeEntry { entry, path, depth, expanded: false }
    }

    /// The direct Git tree entry.
    pub fn entry(&self) -> (e: &TreeEntry)
        ensures
            *e == self.entry,
    {
        &self.entry
    }

    /// The complete repository-relative path.
    pub fn path(&self) -> (p: &RepoPath)
        ensures
            *p == self.path,
    {
        &self.path
    }

    /// The zero-based nesting depth.
    pub fn depth(&self) -> (d: usize)
        ensures
            d == self.depth,
    {
        self.depth
    }

    /// Whether a directory's loaded children are currently visible.
    pub fn expanded(&self) -> (b: bool)
        ensures
            b == self.expanded,
    {
        self.expanded
    }

    pub fn set_expanded(&mut self, expanded: bool)
        ensures
            final(self).expanded == expanded,
            final(self).entry == old(self).entry,
            final(self).path == old(self).path,
            final(self).depth == old(self).depth,
    {
        self.expanded = expanded;
    }
}

impl VisibleTreeEntry {
    /// Returns an identical row.
    pub fn duplicate(&self) -> (v: VisibleTreeEntry)
        ensures
            same_row(v, *self),
    {
        VisibleTreeEntry {
            entry: self.entry.duplicate(),
            path: self.path.duplicate(),
            depth: self.depth,
            expanded: self.expanded,
        }
    }
}

/// Two rows that show the same entry in the same way.
pub open spec fn same_row(a: VisibleTreeEntry, b: VisibleTreeEntry) -> bool {
    same_entry(a.entry, b.entry) && a.path@ == b.path@ && a.depth == b.depth && a.expanded
        == b.expanded
}

/// The diff pane: the requested comparison, its document and scroll offsets.
#[derive(Debug)]
pub struct DiffViewState {
    pub target: Option<DiffTarget>,
    pub content: LoadState<DiffDocument>,
    pub vertical: usize,
    pub horizontal: usize,
}

/// The full message of the selected commit and its scroll offset.
#[derive(Debug)]
pub struct MessageState {
    pub commit: Option<ObjectId>,
    pub content: LoadState<CommitMessage>,
    pub scroll: usize,
}

/// Paging of the commit history.
#[derive(Clone, Copy, Debug)]
pub struct HistoryPageState {
    /// Whether the last page was full, so more history may follow.
    pub has_more: bool,
    /// The request appending the next page, while it is in flight.
    pub loading_more: Option<RequestId>,
}

/// The lazily expanded tree of the selected commit.
#[derive(Debug)]
pub struct TreeState {
    pub commit: Option<ObjectId>,
    pub visible: LoadState<Vec<VisibleTreeEntry>>,
    pub selection: Selection,
    /// Loaded children, keyed by the directory's tree object.
    pub children: Vec<(ObjectId, Vec<TreeEntry>)>,
    pub pending: Option<RequestId>,
}

/// Repository-wide search: prompt, last query, results and selection.
#[derive(Debug)]
pub struct RepositorySearchState {
    pub kind: RepositorySearchKind,
    /// The text being typed, while the prompt has focus.
    pub prompt: Option<String>,
    pub query: String,
    pub results: LoadState<Vec<SearchHit>>,
    pub selection: Selection,
    /// The view that opened the search.
    pub return_view: AppView,
}

/// History and current content of one repository path.
#[derive(Debug)]
pub struct FileViewState {
    pub path: Option<RepoPath>,
    pub commits: LoadState<Vec<CommitSummary>>,
    pub selection: Selection,
    pub content: LoadState<FileDocument>,
    /// Whether the document pane shows the selected commit's diff.
    pub showing_history_diff: bool,
    pub vertical: usize,
    pub horizontal: usize,
    pub return_view: AppView,
}

/// The working-tree file tree and the open file.
#[derive(Debug)]
pub struct CodeViewState {
    pub files: Vec<RepoPath>,
    pub visible: LoadState<Vec<VisibleCodeEntry>>,
    pub selection: Selection,
    pub path: Option<RepoPath>,
    pub content: LoadState<FileDocument>,
    pub vertical: usize,
    pub horizontal: usize,
    /// A path to reveal once the tree has loaded.
    pub pending_reveal: Option<RepoPath>,
    /// The byte column of the cursor on line `vertical`.
    pub cursor_column: usize,
    /// The generation of the open document, advanced whenever it reloads.
    pub document_revision: u64,
}

/// A place in the code viewer to return to: the file, the cursor, the
/// cursor line's first non-blank column, and the scroll offsets.
#[derive(Debug)]
pub struct NavigationOrigin {
    pub path: RepoPath,
    pub cursor: SourcePosition,
    pub first_non_blank_column: usize,
    pub viewport_vertical: usize,
    pub viewport_horizontal: usize,
}

/// Semantic navigation: the request in flight, its candidates, and the
/// shared jump list.
#[derive(Debug)]
pub struct SemanticNavigationState {
    pub targets: LoadState<Vec<NavigationTarget>>,
    pub selection: Selection,
    /// The document, cursor and generation the request was sent for.
    pub source_path: Option<RepoPath>,
    pub source_position: SourcePosition,
    pub source_revision: u64,
    pub kind: Option<SemanticNavigationKind>,
    /// Progress text of the server handling the request.
    pub status: Option<String>,
    /// Earlier places, the most recent last.
    pub back_stack: Vec<NavigationOrigin>,
    /// Places left by going back, the most recent last.
    pub forward_stack: Vec<NavigationOrigin>,
}

/// Hover information at the code cursor.
#[derive(Debug)]
pub struct LspHoverState {
    pub content: LoadState<Option<String>>,
    pub source_path: Option<RepoPath>,
    pub source_position: SourcePosition,
    pub source_revision: u64,
    pub scroll: usize,
    pub status: Option<String>,
    /// The overlay to restore when the hover closes.
    pub return_overlay: Overlay,
}

/// Most diffs kept in the cache.
pub const MAX_DIFF_CACHE_ENTRIES: usize = 16;

/// Most document bytes kept in the cache.
pub const MAX_DIFF_CACHE_BYTES: usize = 16777216;

/// A cached diff: its target, document and accounted size.
pub type CachedDiff = (DiffTarget, DiffDocument, usize);

/// Recently used diff documents, most recent first, bounded in count and bytes.
#[derive(Debug)]
pub struct DiffCache {
    pub entries: VecDeque<CachedDiff>,
    pub bytes: usize,
}

/// The accounted bytes of cached entries.
pub open spec fn sizes_sum(e: Seq<CachedDiff>) -> int
    decreases e.len(),
{
    if e.len() == 0 {
        0
    } else {
        e[0].2 + sizes_sum(e.drop_first())
    }
}

/// Entries within both cache bounds.
pub open spec fn within_limits(e: Seq<CachedDiff>) -> bool {
    e.len() <= MAX_DIFF_CACHE_ENTRIES && sizes_sum(e) <= MAX_DIFF_CACHE_BYTES
}

/// The longest prefix of `e` within both bounds: least recently used entries leave first.
pub open spec fn evicted(e: Seq<CachedDiff>) -> Seq<CachedDiff>
    decreases e.len(),
{
    if e.len() == 0 || within_limits(e) {
        e
    } else {
        evicted(e.drop_last())
    }
}

/// The first cached entry for `target`.
pub open spec fn key_index(e: Seq<CachedDiff>, target: DiffTarget) -> Option<int> {
    if exists|i: int| 0 <= i < e.len() && same_target(#[trigger] e[i].0, target) {
        let i = choose|i: int|
            0 <= i < e.len() && same_target(#[trigger] e[i].0, target) && forall|j: int|
                0 <= j < i ==> !same_target(#[trigger] e[j].0, target);
        Some(i)
    } else {
        None
    }
}

/// Entries after storing `entry`: it moves to the front, replacing an entry
/// for the same target, and the bounds are restored.
pub open spec fn cache_insert(e: Seq<CachedDiff>, entry: CachedDiff) -> Seq<CachedDiff> {
    let rest = match key_index(e, entry.0) {
        Some(i) => e.remove(i),
        None => e,
    };
    evicted(seq![entry] + rest)
}

proof fn lemma_sum_concat(a: Seq<CachedDiff>, b: Seq<CachedDiff>)
    ensures
        sizes_sum(a + b) == sizes_sum(a) + sizes_sum(b),
    decreases a.len(),
{
    if a.len() > 0 {
        assert((a + b).drop_first() =~= a.drop_first() + b);
        lemma_sum_concat(a.drop_first(), b);
    } else {
        assert(a + b =~= b);
    }
}

proof fn lemma_sum_nonneg(e: Seq<CachedDiff>)
    ensures
        sizes_sum(e) >= 0,
        forall|i: int| 0 <= i < e.len() ==> #[trigger] e[i].2 <= sizes_sum(e),
    decreases e.len(),
{
    if e.len() > 0 {
        lemma_sum_nonneg(e.drop_first());
        assert forall|i: int| 0 <= i < e.len() implies #[trigger] e[i].2 <= sizes_sum(e) by {
            if i > 0 {
                assert(e[i] == e.drop_first()[i - 1]);
            }
        }
    }
}

proof fn lemma_sum_single(x: CachedDiff)
    ensures
        sizes_sum(seq![x]) == x.2,
{
    assert(seq![x].drop_first() =~= Seq::<CachedDiff>::empty());
    assert(sizes_sum(Seq::<CachedDiff>::empty()) == 0);
}

proof fn lemma_sum_remove(e: Seq<CachedDiff>, i: int)
    requires
        0 <= i < e.len(),
    ensures
        sizes_sum(e.remove(i)) == sizes_sum(e) - e[i].2,
{
    lemma_sum_concat(e.subrange(0, i), e.subrange(i + 1, e.len() as int));
    lemma_sum_concat(e.subrange(0, i), seq![e[i]] + e.subrange(i + 1, e.len() as int));
    lemma_sum_concat(seq![e[i]], e.subrange(i + 1, e.len() as int));
    assert(e.remove(i) =~= e.subrange(0, i) + e.subrange(i + 1, e.len() as int));
    assert(e =~= e.subrange(0, i) + (seq![e[i]] + e.subrange(i + 1, e.len() as int)));
    lemma_sum_single(e[i]);
}

proof fn lemma_sum_drop_last(e: Seq<CachedDiff>)
    requires
        e.len() > 0,
    ensures
        sizes_sum(e.drop_last()) == sizes_sum(e) - e.last().2,
{
    lemma_sum_remove(e, e.len() - 1);
    assert(e.remove(e.len() - 1) =~= e.drop_last());
}

impl DiffCache {
    /// The cache's invariant: `bytes` accounts for the entries, within bounds.
    pub open spec fn wf(&self) -> bool {
        self.bytes == sizes_sum(self.entries@) && within_limits(self.entries@)
    }

    /// An empty cache.
    pub fn new() -> (c: DiffCache)
        ensures
            c.wf(),
            c.entries@.len() == 0,
    {
        DiffCache { entries: VecDeque::new(), bytes: 0 }
    }

    fn position(&self, target: &DiffTarget) -> (r: Option<usize>)
        ensures
            r == (match key_index(self.entries@, *target) {
                Some(i) => Some(i as usize),
                None => None,
            }),
    {
        let mut i: usize = 0;
        while i < self.entries.len()
            invariant
                i <= self.entries@.len(),
                forall|j: int| 0 <= j < i ==> !same_target(#[trigger] self.entries@[j].0, *target),
            decreases self.entries@.len() - i,
        {
            if self.entries[i].0.same_as(target) {
                proof {
                    let k = choose|k: int|
                        0 <= k < self.entries@.len() && same_target(
                            #[trigger] self.entries@[k].0,
                            *target,
                        ) && forall|j: int|
                            0 <= j < k ==> !same_target(#[trigger] self.entries@[j].0, *target);
                    assert(0 <= i && same_target(self.entries@[i as int].0, *target));
                    if k < i {
                        assert(!same_target(self.entries@[k].0, *target));
                    }
                    if k > i {
                        assert(!same_target(self.entries@[i as int].0, *target));
                    }
                }
                return Some(i);
            }
            i = i + 1;
        }
        None
    }

    /// A copy of the document cached for `target`, which becomes the most
    /// recently used entry.
    pub fn get(&mut self, target: &DiffTarget) -> (r: Option<DiffDocument>)
        requires
            old(self).wf(),
        ensures
            final(self).wf(),
            match key_index(old(self).entries@, *target) {
                Some(i) => {
                    &&& r matches Some(d) && same_document(d, old(self).entries@[i].1)
                    &&& final(self).entries@ == seq![old(self).entries@[i]] + old(
                        self,
                    ).entries@.remove(i)
                },
                None => r is None && *final(self) == *old(self),
            },
    {
        let index = match self.position(target) {
            Some(i) => i,
            None => return None,
        };
        let ghost before = self.entries@;
        let entry = self.entries.remove(index);
        match entry {
            Some(entry) => {
                let result = entry.1.duplicate();
                self.entries.push_front(entry);
                proof {
                    lemma_sum_remove(before, index as int);
                    lemma_sum_concat(seq![before[index as int]], before.remove(index as int));
                    lemma_sum_single(before[index as int]);
                }
                Some(result)
            },
            None => None,
        }
    }

    /// Stores `document` for `target` as the most recently used entry, unless
    /// it alone exceeds the byte bound.
    pub fn insert(&mut self, target: DiffTarget, document: DiffDocument)
        requires
            old(self).wf(),
        ensures
            final(self).wf(),
            ({
                let size = crate::domain::diff::document_bytes(document);
                if size > MAX_DIFF_CACHE_BYTES {
                    *final(self) == *old(self)
                } else {
                    final(self).entries@ == cache_insert(old(self).entries@, (target, document, size))
                }
            }),
    {
        let size = document.approximate_bytes();
        if size > MAX_DIFF_CACHE_BYTES {
            return;
        }
        let ghost start = self.entries@;
        proof {
            lemma_sum_nonneg(start);
        }
        match self.position(&target) {
            Some(index) => {
                let removed = self.entries.remove(index);
                proof {
                    lemma_sum_remove(start, index as int);
                }
                match removed {
                    Some(old_entry) => {
                        self.bytes = self.bytes - old_entry.2;
                    },
                    None => {},
                }
            },
            None => {},
        }
        let ghost rest = self.entries@;
        proof {
            lemma_sum_concat(seq![(target, document, size)], rest);
            lemma_sum_single((target, document, size));
        }
        self.bytes = self.bytes + size;
        self.entries.push_front((target, document, size));
        proof {
            assert(self.entries@ =~= seq![(target, document, size)] + rest);
        }
        while self.entries.len() > MAX_DIFF_CACHE_ENTRIES || self.bytes > MAX_DIFF_CACHE_BYTES
            invariant
                self.bytes == sizes_sum(self.entries@),
                evicted(self.entries@) == evicted(seq![(target, document, size)] + rest),
            decreases self.entries@.len(),
        {
            let ghost cur = self.entries@;
            proof {
                lemma_sum_nonneg(cur);
            }
            let last = self.entries.pop_back();
            match last {
                Some(entry) => {
                    proof {
                        lemma_sum_drop_last(cur);
                    }
                    self.bytes = self.bytes - entry.2;
                },
                None => {
                    proof {
                        assert(cur.len() == 0);
                    }
                },
            }
        }
    }

    /// Drops every entry.
    pub fn clear(&mut self)
        ensures
            final(self).wf(),
            final(self).entries@.len() == 0,
    {
        self.entries.clear();
        self.bytes = 0;
    }
}

/// The identifier after `n`; the counter stops at its maximum.
pub open spec fn next_id(n: u64) -> u64 {
    if n < u64::MAX {
        (n + 1) as u64
    } else {
        n
    }
}

/// Commits requested per history page.
pub const PAGE_SIZE: usize = 200;

/// The number of commits already listed, from which the next page starts.
pub open spec fn listed_commits(commits: LoadState<Vec<CommitSummary>>) -> usize {
    match commits {
        LoadState::Ready(c) => c@.len() as usize,
        _ => 0,
    }
}

/// The complete mutable state of the explorer: selections, load lifecycles,
/// overlays, stale-request tracking and the bounded diff cache.
///
/// The reducer drives it through `start`, `handle_action` and `handle_event`;
/// each returns the repository work to perform next.
#[derive(Debug)]
pub struct AppState {
    pub root: RepositoryRoot,
    pub view: AppView,
    pub focus: FocusedPane,
    pub history_panel: HistoryPanel,
    pub overlay: Overlay,
    pub should_quit: bool,
    pub changes: LoadState<Vec<WorktreeChange>>,
    pub change_selection: Selection,
    pub commits: LoadState<Vec<CommitSummary>>,
    pub commit_selection: Selection,
    pub history_page: HistoryPageState,
    pub files: LoadState<Vec<ChangedFile>>,
    pub file_selection: Selection,
    pub diff: DiffViewState,
    pub message: MessageState,
    pub tree: TreeState,
    pub search: SearchState,
    pub repository_search: RepositorySearchState,
    pub file_view: FileViewState,
    pub code_view: CodeViewState,
    pub notice: Option<ErrorNotice>,
    pub preferred_change: Option<RepoPath>,
    pub preferred_commit: Option<ObjectId>,
    pub next_request: u64,
    pub diff_cache: DiffCache,
    pub semantic_navigation: SemanticNavigationState,
    pub lsp_hover: LspHoverState,
    /// The terminal size in cells, as last reported.
    pub terminal_width: u16,
    pub terminal_height: u16,
}

/// The baseline identifier of a commit: none for a root commit, else its
/// first parent.
pub open spec fn baseline_of(c: CommitSummary) -> Option<Seq<char>> {
    if c.parents@.len() == 0 {
        None
    } else {
        Some(c.parents@[0]@)
    }
}

/// `target` compares `path` in commit `c` against the commit's baseline.
pub open spec fn commit_target(target: DiffTarget, c: CommitSummary, path: Seq<u8>) -> bool {
    target matches DiffTarget::Commit { commit, baseline, path: p } && commit@ == c.id@
        && crate::domain::commit::baseline_key(baseline) == baseline_of(c) && p@ == path
}

/// `t` is `s` loading the worktree changes under the next request identifier.
pub open spec fn changes_requested(s: AppState, t: AppState, e: Seq<GitEffect>) -> bool {
    let id = RequestId(s.next_request);
    &&& t == (AppState {
        changes: LoadState::Loading { request_id: id },
        notice: None,
        next_request: next_id(s.next_request),
        ..s
    })
    &&& e =~= seq![GitEffect::LoadChanges { request_id: id }]
}

/// `t` is `s` loading the first history page, or the next one when `append`.
pub open spec fn commits_requested(s: AppState, t: AppState, append: bool, e: Seq<GitEffect>) -> bool {
    let id = RequestId(s.next_request);
    &&& t == (AppState {
        commits: if append {
            s.commits
        } else {
            LoadState::Loading { request_id: id }
        },
        history_page: HistoryPageState {
            has_more: s.history_page.has_more,
            loading_more: if append { Some(id) } else { None },
        },
        notice: None,
        next_request: next_id(s.next_request),
        ..s
    })
    &&& e =~= seq![
        GitEffect::LoadCommits {
            request_id: id,
            skip: if append { listed_commits(s.commits) } else { 0 },
            limit: PAGE_SIZE,
            append,
        },
    ]
}

/// `t` is `s` showing the diff for `target` with reset scroll offsets and a
/// cleared in-document search: the cached document when there is one (which
/// becomes the most recently used), else a new request for it.
pub open spec fn diff_requested(s: AppState, t: AppState, target: DiffTarget, e: Seq<GitEffect>) -> bool {
    &&& crate::app::search::cleared(s.search, t.search)
    &&& match key_index(s.diff_cache.entries@, target) {
        Some(i) => {
            &&& t == (AppState {
                diff: DiffViewState {
                    target: Some(target),
                    content: t.diff.content,
                    vertical: 0,
                    horizontal: 0,
                },
                search: t.search,
                diff_cache: t.diff_cache,
                ..s
            })
            &&& t.diff.content matches LoadState::Ready(d) && same_document(
                d,
                s.diff_cache.entries@[i].1,
            )
            &&& t.diff_cache.entries@ =~= seq![s.diff_cache.entries@[i]]
                + s.diff_cache.entries@.remove(i)
            &&& e.len() == 0
        },
        None => {
            let id = RequestId(s.next_request);
            &&& t == (AppState {
                diff: DiffViewState {
                    target: t.diff.target,
                    content: LoadState::Loading { request_id: id },
                    vertical: 0,
                    horizontal: 0,
                },
                search: t.search,
                next_request: next_id(s.next_request),
                ..s
            })
            &&& t.diff.target matches Some(x) && same_target(x, target)
            &&& e.len() == 1
            &&& e[0] matches GitEffect::LoadDiff { request_id, target: x } && request_id == id
                && same_target(x, target)
        },
    }
}

/// Request identifiers are never reused. `states[0]` hands out its next
/// identifier through `request_id`, giving `states[1]`; after that any run
/// of operations that keep or advance the counter (as `request_id`,
/// `handle_action`, `handle_event`, `start` and the semantic reducer all
/// state) only reaches counters above the identifier handed out.
pub proof fn lemma_request_ids_never_reused(states: Seq<AppState>)
    requires
        states.len() >= 2,
        states[1] == (AppState { next_request: next_id(states[0].next_request), ..states[0] }),
        forall|i: int|
            1 <= i < states.len() - 1 ==> #[trigger] states[i].next_request <= states[i
                + 1].next_request,
        states[0].next_request < u64::MAX,
    ensures
        forall|j: int| 1 <= j < states.len() ==> #[trigger] states[j].next_request > states[0].next_request,
    decreases states.len(),
{
    if states.len() > 2 {
        let shorter = states.drop_last();
        assert forall|i: int| 1 <= i < shorter.len() - 1 implies #[trigger] shorter[i].next_request
            <= shorter[i + 1].next_request by {
            assert(states[i].next_request <= states[i + 1].next_request);
        }
        lemma_request_ids_never_reused(shorter);
        let n = states.len() - 1;
        assert(shorter[n - 1].next_request > states[0].next_request);
        assert(states[n - 1].next_request <= states[n].next_request);
        assert forall|j: int| 1 <= j < states.len() implies #[trigger] states[j].next_request
            > states[0].next_request by {
            if j < n {
                assert(shorter[j] == states[j]);
            }
        }
    }
}

impl AppState {
    /// The state's invariant: the diff cache keeps its accounting and bounds.
    pub open spec fn wf(&self) -> bool {
        self.diff_cache.wf()
    }

    /// An idle explorer for the repository at `root`, showing `view`.
    pub fn new(root: RepositoryRoot, view: AppView) -> (s: AppState)
        ensures
            s.wf(),
            s.root == root,
            s.view == view,
            s.focus == FocusedPane::Primary,
            s.history_panel == HistoryPanel::ChangedFiles,
            s.overlay == Overlay::Closed,
            !s.should_quit,
            s.changes is Idle,
            s.commits is Idle,
            s.files is Idle,
            s.change_selection.index is None,
            s.commit_selection.index is None,
            s.file_selection.index is None,
            !s.history_page.has_more && s.history_page.loading_more is None,
            s.diff.target is None && s.diff.content is Idle,
            s.diff.vertical == 0 && s.diff.horizontal == 0,
            s.message.commit is None && s.message.content is Idle && s.message.scroll == 0,
            s.tree.commit is None && s.tree.visible is Idle && s.tree.pending is None,
            s.tree.children@.len() == 0,
            s.search.prompt_view() is None && s.search.query_view().len() == 0,
            s.search.matches_view().len() == 0 && s.search.current_view() is None,
            s.repository_search.prompt is None && s.repository_search.query@.len() == 0,
            s.repository_search.results is Idle,
            s.repository_search.return_view == view,
            s.file_view.path is None && s.file_view.commits is Idle && s.file_view.content is Idle,
            !s.file_view.showing_history_diff && s.file_view.return_view == view,
            s.code_view.files@.len() == 0 && s.code_view.visible is Idle,
            s.code_view.path is None && s.code_view.content is Idle,
            s.code_view.pending_reveal is None,
            s.notice is None && s.preferred_change is None && s.preferred_commit is None,
            s.next_request == 1,
            s.semantic_navigation.targets is Idle && s.semantic_navigation.back_stack@.len() == 0
                && s.semantic_navigation.forward_stack@.len() == 0,
            s.lsp_hover.content is Idle,
            s.terminal_width == 80 && s.terminal_height == 24,
            s.diff_cache.entries@.len() == 0,
    {
        AppState {
            root,
            view,
            focus: FocusedPane::Primary,
            history_panel: HistoryPanel::ChangedFiles,
            overlay: Overlay::Closed,
            should_quit: false,
            changes: LoadState::Idle,
            change_selection: Selection::new(),
            commits: LoadState::Idle,
            commit_selection: Selection::new(),
            history_page: HistoryPageState { has_more: false, loading_more: None },
            files: LoadState::Idle,
            file_selection: Selection::new(),
            diff: DiffViewState { target: None, content: LoadState::Idle, vertical: 0, horizontal: 0 },
            message: MessageState { commit: None, content: LoadState::Idle, scroll: 0 },
            tree: TreeState {
                commit: None,
                visible: LoadState::Idle,
                selection: Selection::new(),
                children: Vec::new(),
                pending: None,
            },
            search: SearchState::new(),
            repository_search: RepositorySearchState {
                kind: RepositorySearchKind::Files,
                prompt: None,
                query: String::new(),
                results: LoadState::Idle,
                selection: Selection::new(),
                return_view: view,
            },
            file_view: FileViewState {
                path: None,
                commits: LoadState::Idle,
                selection: Selection::new(),
                content: LoadState::Idle,
                showing_history_diff: false,
                vertical: 0,
                horizontal: 0,
                return_view: view,
            },
            code_view: CodeViewState {
                files: Vec::new(),
                visible: LoadState::Idle,
                selection: Selection::new(),
                path: None,
                content: LoadState::Idle,
                vertical: 0,
                horizontal: 0,
                pending_reveal: None,
                cursor_column: 0,
                document_revision: 0,
            },
            notice: None,
            preferred_change: None,
            preferred_commit: None,
            next_request: 1,
            diff_cache: DiffCache::new(),
            semantic_navigation: SemanticNavigationState {
                targets: LoadState::Idle,
                selection: Selection::new(),
                source_path: None,
                source_position: SourcePosition { line: 0, byte_column: 0 },
                source_revision: 0,
                kind: None,
                status: None,
                back_stack: Vec::new(),
                forward_stack: Vec::new(),
            },
            lsp_hover: LspHoverState {
                content: LoadState::Idle,
                source_path: None,
                source_position: SourcePosition { line: 0, byte_column: 0 },
                source_revision: 0,
                scroll: 0,
                status: None,
                return_overlay: Overlay::Closed,
            },
            terminal_width: 80,
            terminal_height: 24,
        }
    }

    /// Records the terminal size reported by the front end.
    pub fn set_terminal_size(&mut self, width: u16, height: u16)
        ensures
            *final(self) == (AppState { terminal_width: width, terminal_height: height, ..*old(self) }),
    {
        self.terminal_width = width;
        self.terminal_height = height;
    }

    /// Whether the event loop should stop.
    pub fn should_quit(&self) -> (b: bool)
        ensures
            b == self.should_quit,
    {
        self.should_quit
    }

    /// The current main view.
    pub fn view(&self) -> (v: AppView)
        ensures
            v == self.view,
    {
        self.view
    }

    /// The pane receiving navigation actions.
    pub fn focus(&self) -> (f: FocusedPane)
        ensures
            f == self.focus,
    {
        self.focus
    }

    /// The active modal overlay.
    pub fn overlay(&self) -> (o: Overlay)
        ensures
            o == self.overlay,
    {
        self.overlay
    }

    /// Whether ordinary character keys edit a search prompt.
    pub fn is_search_input_active(&self) -> (b: bool)
        ensures
            b == (self.search.prompt_view() is Some || (self.overlay == Overlay::RepositorySearch
                && self.repository_search.prompt is Some)),
    {
        self.search.is_input_active() || (self.overlay == Overlay::RepositorySearch
            && self.repository_search.prompt.is_some())
    }

    /// Allocates the next request identifier.
    pub fn request_id(&mut self) -> (id: RequestId)
        ensures
            id == RequestId(old(self).next_request),
            *final(self) == (AppState { next_request: next_id(old(self).next_request), ..*old(self) }),
    {
        let id = RequestId(self.next_request);
        self.next_request = if self.next_request < u64::MAX {
            self.next_request + 1
        } else {
            self.next_request
        };
        id
    }

    /// Starts loading the worktree changes.
    pub fn request_changes(&mut self) -> (effects: Vec<GitEffect>)
        ensures
            changes_requested(*old(self), *final(self), effects@),
    {
        let request_id = self.request_id();
        self.changes = LoadState::Loading { request_id };
        self.notice = None;
        vec![GitEffect::LoadChanges { request_id }]
    }

    /// Starts loading the first history page, or the next one when `append`.
    pub fn request_commits(&mut self, append: bool) -> (effects: Vec<GitEffect>)
        ensures
            commits_requested(*old(self), *final(self), append, effects@),
    {
        let request_id = self.request_id();
        let skip = if append {
            match &self.commits {
                LoadState::Ready(commits) => commits.len(),
                _ => 0,
            }
        } else {
            self.commits = LoadState::Loading { request_id };
            self.history_page.loading_more = None;
            0
        };
        if append {
            self.history_page.loading_more = Some(request_id);
        }
        self.notice = None;
        vec![GitEffect::LoadCommits { request_id, skip, limit: PAGE_SIZE, append }]
    }

    /// Shows the diff for `target`: from the cache when it holds one, else by
    /// requesting it. Scroll offsets and in-document search are reset.
    pub fn request_diff(&mut self, target: DiffTarget) -> (effects: Vec<GitEffect>)
        requires
            old(self).wf(),
        ensures
            final(self).wf(),
            diff_requested(*old(self), *final(self), target, effects@),
    {
        self.diff.vertical = 0;
        self.diff.horizontal = 0;
        self.search.clear();
        match self.diff_cache.get(&target) {
            Some(cached) => {
                self.diff.target = Some(target);
                self.diff.content = LoadState::Ready(cached);
                Vec::new()
            },
            None => {
                let request_id = self.request_id();
                self.diff.target = Some(target.duplicate());
                self.diff.content = LoadState::Loading { request_id };
                vec![GitEffect::LoadDiff { request_id, target }]
            },
        }
    }

    /// Remembers a loaded diff document in the bounded cache.
    pub fn cache_diff(&mut self, target: DiffTarget, document: DiffDocument)
        requires
            old(self).wf(),
        ensures
            final(self).wf(),
            *final(self) == (AppState { diff_cache: final(self).diff_cache, ..*old(self) }),
            ({
                let size = crate::domain::diff::document_bytes(document);
                if size > MAX_DIFF_CACHE_BYTES {
                    final(self).diff_cache == old(self).diff_cache
                } else {
                    final(self).diff_cache.entries@ == cache_insert(
                        old(self).diff_cache.entries@,
                        (target, document, size),
                    )
                }
            }),
    {
        self.diff_cache.insert(target, document);
    }

    /// Forgets every cached diff.
    pub fn clear_cache(&mut self)
        ensures
            final(self).wf(),
            *final(self) == (AppState { diff_cache: final(self).diff_cache, ..*old(self) }),
            final(self).diff_cache.entries@.len() == 0,
    {
        self.diff_cache.clear();
    }
}

} // verus!
