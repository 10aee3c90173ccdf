//! Capabilities and request vocabulary of one language-server session, and
//! the text it reads from synchronized documents.

use crate::domain::source::SemanticNavigationKind;
use crate::text::{nth_line, nth_line_exec, push_char};
use crate::unicode::{control, is_control};
use vstd::prelude::*;

verus! {

/// A position as a server sends it: a zero-based line and a column counted
/// in the negotiated code units.
#[derive(Clone, Copy, Debug, PartialEq, Eq, Structural)]
pub struct WirePosition {
    pub line: u32,
    pub character: u32,
}

/// A range as a server sends it.
#[derive(Clone, Copy, Debug, PartialEq, Eq, Structural)]
pub struct WireRange {
    pub start: WirePosition,
    pub end: WirePosition,
}

/// The operations an initialized server advertises.
#[derive(Clone, Copy, Debug, Default, PartialEq, Eq, Structural)]
pub struct ServerCapabilities {
    pub definition: bool,
    pub implementation: bool,
    pub type_definition: bool,
    pub declaration: bool,
    pub hover: bool,
}

impl ServerCapabilities {
    /// Whether the server answers navigation requests of `kind`.
    pub fn supports(self, kind: SemanticNavigationKind) -> (b: bool)
        ensures
            b == (match kind {
                SemanticNavigationKind::Definition => self.definition,
                SemanticNavigationKind::Implementation => self.implementation,
                SemanticNavigationKind::TypeDefinition => self.type_definition,
                SemanticNavigationKind::Declaration => self.declaration,
            }),
    {
        match kind {
            SemanticNavigationKind::Definition => self.definition,
            SemanticNavigationKind::Implementation => self.implementation,
            SemanticNavigationKind::TypeDefinition => self.type_definition,
            SemanticNavigationKind::Declaration => self.declaration,
        }
    }

    /// Whether the server answers hover requests.
    pub fn supports_hover(self) -> (b: bool)
        ensures
            b == self.hover,
    {
        self.hover
    }
}

/// The protocol method of a navigation request.
pub open spec fn method_name(kind: SemanticNavigationKind) -> Seq<char> {
    match kind {
        SemanticNavigationKind::Definition => "textDocument/definition"@,
        SemanticNavigationKind::Implementation => "textDocument/implementation"@,
        SemanticNavigationKind::TypeDefinition => "textDocument/typeDefinition"@,
        SemanticNavigationKind::Declaration => "textDocument/declaration"@,
    }
}

pub fn method(kind: SemanticNavigationKind) -> (s: &'static str)
    ensures
        s@ == method_name(kind),
{
    match kind {
        SemanticNavigationKind::Definition => "textDocument/definition",
        SemanticNavigationKind::Implementation => "textDocument/implementation",
        SemanticNavigationKind::TypeDefinition => "textDocument/typeDefinition",
        SemanticNavigationKind::Declaration => "textDocument/declaration",
    }
}

/// Line `line` of a document, without its line ending.
pub fn source_line(source: &str, line: u32) -> (r: Option<&str>)
    ensures
        r matches Some(l) ==> nth_line(source@, line as int) == Some(l@),
        r is None ==> nth_line(source@, line as int) is None,
{
    nth_line_exec(source, line as usize)
}

/// The first `limit` characters of `v` that are not control characters.
pub open spec fn sanitized(v: Seq<char>, limit: usize) -> Seq<char> {
    let kept = v.filter(|c: char| !control(c));
    if kept.len() <= limit {
        kept
    } else {
        kept.take(limit as int)
    }
}

/// Drops control characters and keeps at most `limit` characters.
pub fn sanitize(value: &str, limit: usize) -> (s: String)
    ensures
        s@ == sanitized(value@, limit),
{
    let v = crate::text::chars_of(value);
    let ghost pred = |c: char| !control(c);
    let mut out = String::new();
    let mut count: usize = 0;
    let mut i: usize = 0;
    while i < v.len()
        invariant
            v@ == value@,
            i <= v@.len(),
            pred == (|c: char| !control(c)),
            count == out@.len(),
            out@ == (if v@.take(i as int).filter(pred).len() <= limit {
                v@.take(i as int).filter(pred)
            } else {
                v@.take(i as int).filter(pred).take(limit as int)
            }),
        decreases v@.len() - i,
    {
        let c = v[i];
        let ghost before = v@.take(i as int);
        proof {
            assert(v@.take(i + 1) =~= before.push(c));
            before.lemma_filter_push(c, pred);
        }
        if !is_control(c) && count < limit {
            push_char(&mut out, c);
            count = count + 1;
        }
        proof {
            let f = before.filter(pred);
            if !control(c) && f.len() >= limit {
                assert(f.push(c).take(limit as int) =~= (if f.len() <= limit {
                    f
                } else {
                    f.take(limit as int)
                }));
            }
        }
        i = i + 1;
    }
    proof {
        assert(v@.take(v@.len() as int) =~= v@);
    }
    out
}


/// Sanitized text holds no control characters and at most `limit` of them.
pub proof fn lemma_sanitized_bounded(v: Seq<char>, limit: usize)
    ensures
        sanitized(v, limit).len() <= limit,
        forall|i: int| 0 <= i < sanitized(v, limit).len() ==> !control(#[trigger] sanitized(v, limit)[i]),
{
    let pred = |c: char| !control(c);
    let kept = v.filter(pred);
    assert forall|i: int| 0 <= i < kept.len() implies !control(#[trigger] kept[i]) by {
        v.lemma_filter_pred(pred, i);
    }
}
} // verus!
