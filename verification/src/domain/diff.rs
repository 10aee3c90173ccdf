//! Typed diff targets and display-oriented unified-diff documents.

use crate::domain::commit::{baseline_key, CommitBaseline, ObjectId};
use crate::domain::path::RepoPath;
use vstd::prelude::*;

verus! {

/// A repository comparison that can be requested from the Git service.
#[derive(Debug)]
pub enum DiffTarget {
    /// Compare the index with one working-tree path.
    Worktree {
        /// Repository-relative path to compare.
        path: RepoPath,
        /// Whether the path has no index entry and must compare from `/dev/null`.
        untracked: bool,
    },
    /// Compare one commit path with its explicit baseline.
    Commit {
        /// Commit shown on the newer side of the comparison.
        commit: ObjectId,
        /// Empty-tree or first-parent older side.
        baseline: CommitBaseline,
        /// Repository-relative path to restrict the comparison to.
        path: RepoPath,
    },
}

/// Two targets that request the same comparison.
pub open spec fn same_target(a: DiffTarget, b: DiffTarget) -> bool {
    match (a, b) {
        (
            DiffTarget::Worktree { path: p, untracked: u },
            DiffTarget::Worktree { path: q, untracked: v },
        ) => p@ == q@ && u == v,
        (
            DiffTarget::Commit { commit: c, baseline: x, path: p },
            DiffTarget::Commit { commit: d, baseline: y, path: q },
        ) => c@ == d@ && baseline_key(x) == baseline_key(y) && p@ == q@,
        _ => false,
    }
}

impl DiffTarget {
    /// Returns a target requesting the same comparison.
    pub fn duplicate(&self) -> (t: DiffTarget)
        ensures
            same_target(t, *self),
    {
        match self {
            DiffTarget::Worktree { path, untracked } => DiffTarget::Worktree {
                path: path.duplicate(),
                untracked: *untracked,
            },
            DiffTarget::Commit { commit, baseline, path } => DiffTarget::Commit {
                commit: commit.duplicate(),
                baseline: baseline.duplicate(),
                path: path.duplicate(),
            },
        }
    }

    /// Whether two targets request the same comparison.
    pub fn same_as(&self, other: &DiffTarget) -> (r: bool)
        ensures
            r == same_target(*self, *other),
    {
        match (self, other) {
            (
                DiffTarget::Worktree { path: p, untracked: u },
                DiffTarget::Worktree { path: q, untracked: v },
            ) => *u == *v && p.same_as(q),
            (
                DiffTarget::Commit { commit: c, baseline: x, path: p },
                DiffTarget::Commit { commit: d, baseline: y, path: q },
            ) => {
                let same_baseline = match (x, y) {
                    (CommitBaseline::EmptyTree, CommitBaseline::EmptyTree) => true,
                    (CommitBaseline::FirstParent(a), CommitBaseline::FirstParent(b)) => a.same_as(b),
                    _ => false,
                };
                same_baseline && c.same_as(d) && p.same_as(q)
            },
            _ => false,
        }
    }
}

/// A one-based source or destination line number from a diff hunk.
#[derive(Clone, Copy, Debug, PartialEq, Eq, Structural)]
pub struct LineNumber(pub u32);

impl LineNumber {
    /// Creates a line number as reported by a unified-diff hunk.
    pub fn new(value: u32) -> (n: LineNumber)
        ensures
            n.0 == value,
    {
        LineNumber(value)
    }

    /// Returns the numeric line value.
    pub fn value(self) -> (v: u32)
        ensures
            v == self.0,
    {
        self.0
    }
}

/// The semantic role of a parsed unified-diff line.
#[derive(Clone, Copy, Debug, PartialEq, Eq, Structural)]
pub enum DiffLineKind {
    /// File header such as `diff --git`, `---`, or `+++`.
    Header,
    /// A hunk range header beginning with `@@`.
    Hunk,
    /// A line present only in the newer file.
    Added,
    /// A line present only in the older file.
    Removed,
    /// An unchanged line included for context.
    Context,
    /// Diff metadata that is not assigned source line numbers.
    Meta,
}

/// One parsed line of a unified diff with optional old and new positions.
#[derive(Debug)]
pub struct DiffLine {
    pub kind: DiffLineKind,
    pub old_line: Option<LineNumber>,
    pub new_line: Option<LineNumber>,
    pub text: String,
}

impl DiffLine {
    /// Creates a classified diff line.
    pub fn new(
        kind: DiffLineKind,
        old_line: Option<LineNumber>,
        new_line: Option<LineNumber>,
        text: String,
    ) -> (d: DiffLine)
        ensures
            d.kind == kind,
            d.old_line == old_line,
            d.new_line == new_line,
            d.text == text,
    {
        DiffLine { kind, old_line, new_line, text }
    }

    /// Returns the line classification used by the renderer.
    pub fn kind(&self) -> (k: DiffLineKind)
        ensures
            k == self.kind,
    {
        self.kind
    }

    /// Returns the position in the older file, when applicable.
    pub fn old_line(&self) -> (n: Option<LineNumber>)
        ensures
            n == self.old_line,
    {
        self.old_line
    }

    /// Returns the position in the newer file, when applicable.
    pub fn new_line(&self) -> (n: Option<LineNumber>)
        ensures
            n == self.new_line,
    {
        self.new_line
    }

    /// Returns the original line text, including its diff marker.
    pub fn text(&self) -> (t: &str)
        ensures
            t@ == self.text@,
    {
        self.text.as_str()
    }
}

/// Two diff lines with the same role, positions and text.
pub open spec fn same_line(a: DiffLine, b: DiffLine) -> bool {
    a.kind == b.kind && a.old_line == b.old_line && a.new_line == b.new_line && a.text@ == b.text@
}

/// Two line lists that agree line by line.
pub open spec fn same_lines(a: Seq<DiffLine>, b: Seq<DiffLine>) -> bool {
    a.len() == b.len() && forall|i: int| 0 <= i < a.len() ==> same_line(#[trigger] a[i], b[i])
}

/// Two documents that render identically.
pub open spec fn same_document(a: DiffDocument, b: DiffDocument) -> bool {
    match (a, b) {
        (DiffDocument::Text { lines: l, bytes: n }, DiffDocument::Text { lines: m, bytes: k }) =>
            same_lines(l@, m@) && n == k,
        (
            DiffDocument::Truncated { lines: l, bytes: n },
            DiffDocument::Truncated { lines: m, bytes: k },
        ) => same_lines(l@, m@) && n == k,
        (DiffDocument::Binary { summary: s }, DiffDocument::Binary { summary: t }) => s@ == t@,
        (DiffDocument::Empty { message: s }, DiffDocument::Empty { message: t }) => s@ == t@,
        _ => false,
    }
}

fn duplicate_lines(lines: &Vec<DiffLine>) -> (r: Vec<DiffLine>)
    ensures
        same_lines(r@, lines@),
{
    let mut r: Vec<DiffLine> = Vec::new();
    let mut i: usize = 0;
    while i < lines.len()
        invariant
            i <= lines@.len(),
            r@.len() == i,
            forall|j: int| 0 <= j < i ==> same_line(#[trigger] r@[j], lines@[j]),
        decreases lines@.len() - i,
    {
        let l = &lines[i];
        r.push(DiffLine { kind: l.kind, old_line: l.old_line, new_line: l.new_line, text: l.text.clone() });
        i = i + 1;
    }
    r
}

/// The memory a document is accounted for in the cache: the recorded patch
/// bytes, or the UTF-8 length of the explanatory text.
pub open spec fn document_bytes(d: DiffDocument) -> usize {
    match d {
        DiffDocument::Text { bytes, .. } => bytes,
        DiffDocument::Truncated { bytes, .. } => bytes,
        DiffDocument::Binary { summary } => crate::text::byte_len(summary@) as usize,
        DiffDocument::Empty { message } => crate::text::byte_len(message@) as usize,
    }
}

/// A bounded result suitable for the diff viewer.
#[derive(Debug)]
pub enum DiffDocument {
    /// A complete text patch.
    Text {
        /// Parsed lines in display order.
        lines: Vec<DiffLine>,
        /// Approximate source bytes retained for cache accounting.
        bytes: usize,
    },
    /// A binary comparison represented by a human-readable summary.
    Binary {
        /// Summary returned to the renderer.
        summary: String,
    },
    /// A valid comparison that produced no patch.
    Empty {
        /// Explanation returned to the renderer.
        message: String,
    },
    /// The prefix of a text patch that crossed the configured output limit.
    Truncated {
        /// Complete parsed lines retained before truncation.
        lines: Vec<DiffLine>,
        /// Approximate retained bytes for cache accounting.
        bytes: usize,
    },
}

impl DiffDocument {
    /// Returns a document that renders identically.
    pub fn duplicate(&self) -> (d: DiffDocument)
        ensures
            same_document(d, *self),
    {
        match self {
            DiffDocument::Text { lines, bytes } => DiffDocument::Text {
                lines: duplicate_lines(lines),
                bytes: *bytes,
            },
            DiffDocument::Truncated { lines, bytes } => DiffDocument::Truncated {
                lines: duplicate_lines(lines),
                bytes: *bytes,
            },
            DiffDocument::Binary { summary } => DiffDocument::Binary { summary: summary.clone() },
            DiffDocument::Empty { message } => DiffDocument::Empty { message: message.clone() },
        }
    }

    /// Returns parsed text lines, or an empty slice for non-text outcomes.
    pub fn lines(&self) -> (l: &[DiffLine])
        ensures
            self matches DiffDocument::Text { lines, .. } ==> l@ == lines@,
            self matches DiffDocument::Truncated { lines, .. } ==> l@ == lines@,
            (self is Binary || self is Empty) ==> l@.len() == 0,
    {
        match self {
            DiffDocument::Text { lines, .. } => lines.as_slice(),
            DiffDocument::Truncated { lines, .. } => lines.as_slice(),
            _ => &[],
        }
    }

    /// Returns the explanatory text for binary or empty outcomes.
    pub fn message(&self) -> (m: Option<&str>)
        ensures
            (self is Text || self is Truncated) <==> m is None,
            self matches DiffDocument::Binary { summary } ==> m matches Some(t) && t@ == summary@,
            self matches DiffDocument::Empty { message } ==> m matches Some(t) && t@ == message@,
    {
        match self {
            DiffDocument::Binary { summary } => Some(summary.as_str()),
            DiffDocument::Empty { message } => Some(message.as_str()),
            _ => None,
        }
    }

    /// Estimates the memory cost used by the bounded application cache.
    pub fn approximate_bytes(&self) -> (n: usize)
        ensures
            n == document_bytes(*self),
    {
        match self {
            DiffDocument::Text { bytes, .. } => *bytes,
            DiffDocument::Truncated { bytes, .. } => *bytes,
            DiffDocument::Binary { summary } => {
                crate::text::str_fits(summary.as_str());
                crate::text::str_byte_len(summary.as_str())
            },
            DiffDocument::Empty { message } => {
                crate::text::str_fits(message.as_str());
                crate::text::str_byte_len(message.as_str())
            },
        }
    }

    /// Reports whether only a bounded prefix of the patch is available.
    pub fn is_truncated(&self) -> (t: bool)
        ensures
            t == (self is Truncated),
    {
        match self {
            DiffDocument::Truncated { .. } => true,
            _ => false,
        }
    }
}

} // verus!
