//! Repository search hits and bounded working-tree file documents.

use crate::domain::path::RepoPath;
use vstd::prelude::*;

verus! {

/// One repository-wide file or content-search result.
#[derive(Debug)]
pub struct SearchHit {
    pub path: RepoPath,
    pub line: Option<u32>,
    pub preview: String,
}

impl SearchHit {
    /// A file-name hit without a line.
    pub fn file(path: RepoPath) -> (h: SearchHit)
        ensures
            h.path == path,
            h.line is None,
            h.preview@ == Seq::<char>::empty(),
    {
        SearchHit { path, line: None, preview: String::new() }
    }

    /// A content hit at a one-based line with its text.
    pub fn content(path: RepoPath, line: u32, preview: String) -> (h: SearchHit)
        ensures
            h.path == path,
            h.line == Some(line),
            h.preview == preview,
    {
        SearchHit { path, line: Some(line), preview }
    }

    pub fn path(&self) -> (p: &RepoPath)
        ensures
            *p == self.path,
    {
        &self.path
    }

    pub fn line(&self) -> (l: Option<u32>)
        ensures
            l == self.line,
    {
        self.line
    }

    pub fn preview(&self) -> (s: &str)
        ensures
            s@ == self.preview@,
    {
        self.preview.as_str()
    }
}

/// Bounded content read from a file in the current working tree.
#[derive(Debug)]
pub enum FileDocument {
    Text { lines: Vec<String>, truncated: bool },
    Binary { summary: String },
    Symlink { target: String },
    Unavailable { summary: String },
}

impl FileDocument {
    /// Text lines, or none for the other outcomes.
    pub fn lines(&self) -> (l: &[String])
        ensures
            self matches FileDocument::Text { lines, .. } ==> l@ == lines@,
            !(self is Text) ==> l@.len() == 0,
    {
        match self {
            FileDocument::Text { lines, .. } => lines.as_slice(),
            _ => &[],
        }
    }

    /// The explanatory text of non-text outcomes.
    pub fn message(&self) -> (m: Option<&str>)
        ensures
            self is Text <==> m is None,
            self matches FileDocument::Binary { summary } ==> m matches Some(t) && t@ == summary@,
            self matches FileDocument::Symlink { target } ==> m matches Some(t) && t@ == target@,
            self matches FileDocument::Unavailable { summary } ==> m matches Some(t) && t@
                == summary@,
    {
        match self {
            FileDocument::Binary { summary } => Some(summary.as_str()),
            FileDocument::Symlink { target } => Some(target.as_str()),
            FileDocument::Unavailable { summary } => Some(summary.as_str()),
            FileDocument::Text { .. } => None,
        }
    }

    /// Whether only a bounded prefix of the file is shown.
    pub fn is_truncated(&self) -> (t: bool)
        ensures
            t == (*self matches FileDocument::Text { truncated, .. } && truncated),
    {
        match self {
            FileDocument::Text { truncated, .. } => *truncated,
            _ => false,
        }
    }
}

} // verus!
