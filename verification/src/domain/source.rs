//! Source coordinates and repository-contained semantic navigation results.

use crate::bytes::lossy_text;
use crate::domain::path::RepoPath;
use crate::git::process::decimal;
use crate::text::push_char;
use vstd::prelude::*;
use vstd::string::StringExecFns;

verus! {

/// A standard Language Server Protocol semantic navigation operation.
#[derive(Clone, Copy, Debug, PartialEq, Eq, Structural)]
pub enum SemanticNavigationKind {
    /// Find where the symbol is defined.
    Definition,
    /// Find concrete implementations of the symbol.
    Implementation,
    /// Find the definition of the symbol's type.
    TypeDefinition,
    /// Find the symbol's declaration.
    Declaration,
}

pub open spec fn navigation_label(kind: SemanticNavigationKind) -> Seq<char> {
    match kind {
        SemanticNavigationKind::Definition => "definition"@,
        SemanticNavigationKind::Implementation => "implementation"@,
        SemanticNavigationKind::TypeDefinition => "type definition"@,
        SemanticNavigationKind::Declaration => "declaration"@,
    }
}

impl SemanticNavigationKind {
    /// Returns the short operation name used in notices and status text.
    pub fn label(self) -> (s: &'static str)
        ensures
            s@ == navigation_label(self),
    {
        match self {
            SemanticNavigationKind::Definition => "definition",
            SemanticNavigationKind::Implementation => "implementation",
            SemanticNavigationKind::TypeDefinition => "type definition",
            SemanticNavigationKind::Declaration => "declaration",
        }
    }
}

/// A source position using a zero-based line and UTF-8 byte column.
#[derive(Clone, Copy, Debug, PartialEq, Eq, Structural)]
pub struct SourcePosition {
    pub line: u32,
    pub byte_column: usize,
}

impl Default for SourcePosition {
    /// The start of the first line.
    fn default() -> (p: SourcePosition)
        ensures
            p.line == 0,
            p.byte_column == 0,
    {
        SourcePosition { line: 0, byte_column: 0 }
    }
}

impl SourcePosition {
    /// Creates a zero-based source position.
    pub fn new(line: u32, byte_column: usize) -> (p: SourcePosition)
        ensures
            p.line == line,
            p.byte_column == byte_column,
    {
        SourcePosition { line, byte_column }
    }

    /// Returns the zero-based source line.
    pub fn line(self) -> (l: u32)
        ensures
            l == self.line,
    {
        self.line
    }

    /// Returns the zero-based UTF-8 byte column.
    pub fn byte_column(self) -> (c: usize)
        ensures
            c == self.byte_column,
    {
        self.byte_column
    }
}

/// A half-open source range.
#[derive(Clone, Copy, Debug, PartialEq, Eq, Structural)]
pub struct SourceRange {
    pub start: SourcePosition,
    pub end: SourcePosition,
}

impl SourceRange {
    /// Creates a half-open source range.
    pub fn new(start: SourcePosition, end: SourcePosition) -> (r: SourceRange)
        ensures
            r.start == start,
            r.end == end,
    {
        SourceRange { start, end }
    }

    /// Returns the inclusive start position.
    pub fn start(self) -> (p: SourcePosition)
        ensures
            p == self.start,
    {
        self.start
    }

    /// Returns the exclusive end position.
    pub fn end(self) -> (p: SourcePosition)
        ensures
            p == self.end,
    {
        self.end
    }
}

/// A semantic target that is safe to open through the repository-rooted reader.
#[derive(Debug)]
pub struct RepositoryLocation {
    pub path: RepoPath,
    pub selection: SourceRange,
}

impl RepositoryLocation {
    /// Creates a repository-contained location.
    pub fn new(path: RepoPath, selection: SourceRange) -> (l: RepositoryLocation)
        ensures
            l.path == path,
            l.selection == selection,
    {
        RepositoryLocation { path, selection }
    }

    /// Returns the repository-relative target path.
    pub fn path(&self) -> (p: &RepoPath)
        ensures
            *p == self.path,
    {
        &self.path
    }

    /// Returns the server-selected source range.
    pub fn selection(&self) -> (r: SourceRange)
        ensures
            r == self.selection,
    {
        self.selection
    }
}

/// A normalized language-server navigation result.
#[derive(Debug)]
pub enum NavigationTarget {
    /// A regular file contained by the active repository.
    Repository(RepositoryLocation),
    /// A result deliberately not opened.
    External {
        /// Sanitized URI suitable for a short notice or result row.
        display_uri: String,
    },
}

/// `n + 1`, saturated at `max`.
pub open spec fn one_based(n: nat, max: nat) -> nat {
    if n < max {
        n + 1
    } else {
        max
    }
}

/// The short label of a target: `path:line:column`, one-based, for a
/// repository target; the sanitized URI after `unsupported: ` otherwise.
pub open spec fn target_label(t: NavigationTarget) -> Seq<char> {
    match t {
        NavigationTarget::Repository(l) => lossy_text(l.path@) + ":"@ + decimal(
            one_based(l.selection.start.line as nat, u32::MAX as nat),
        ) + ":"@ + decimal(one_based(l.selection.start.byte_column as nat, usize::MAX as nat)),
        NavigationTarget::External { display_uri } => "unsupported: "@ + display_uri@,
    }
}

pub(crate) fn push_decimal(out: &mut String, n: usize)
    ensures
        final(out)@ == old(out)@ + decimal(n as nat),
    decreases n,
{
    let ghost start = out@;
    if n >= 10 {
        push_decimal(out, n / 10);
    }
    let d = (n % 10) as u8;
    let c = (48u8 + d) as char;
    push_char(out, c);
    proof {
        assert(c == (('0' as u32) + (n % 10) as nat) as char);
        if n < 10 {
            assert(decimal(n as nat) == seq![c]);
        } else {
            assert(decimal(n as nat) == decimal((n / 10) as nat).push(c));
        }
        assert(out@ =~= start + decimal(n as nat));
    }
}

impl NavigationTarget {
    /// Returns a short display label without interpreting an external URI as a path.
    pub fn display(&self) -> (s: String)
        ensures
            s@ == target_label(*self),
    {
        match self {
            NavigationTarget::Repository(location) => {
                let start = location.selection.start;
                let line: u32 = if start.line < u32::MAX {
                    start.line + 1
                } else {
                    u32::MAX
                };
                let column: usize = if start.byte_column < usize::MAX {
                    start.byte_column + 1
                } else {
                    usize::MAX
                };
                let mut s = location.path.display();
                s.append(":");
                push_decimal(&mut s, line as usize);
                s.append(":");
                push_decimal(&mut s, column);
                s
            },
            NavigationTarget::External { display_uri } => "unsupported: ".to_string().concat(
                display_uri.as_str(),
            ),
        }
    }
}

} // verus!
