//! Startup values taken from the command line.

use crate::app::model::AppView;
use std::path::PathBuf;
use vstd::prelude::*;

verus! {

/// What the command line asked for: a repository path, the first view, and
/// optional keymap and language-server settings.
#[derive(Debug)]
pub struct Cli {
    /// Repository root or any directory below it.
    pub path: PathBuf,
    /// View to open first.
    pub view: InitialView,
    /// Keymap file, when given.
    pub keymap: Option<PathBuf>,
    /// Explicitly enabled language-server profiles, in order.
    pub lsp: Vec<String>,
    /// Trusted language-server profile file, when given.
    pub lsp_config: Option<PathBuf>,
}

impl Cli {
    /// Returns the repository root candidate supplied by the user.
    pub fn path(&self) -> (p: &PathBuf)
        ensures
            *p == self.path,
    {
        &self.path
    }

    /// The application view the command line chose.
    pub fn initial_view(&self) -> (v: AppView)
        ensures
            v == view_of(self.view),
    {
        AppView::from(self.view)
    }

    /// Returns the explicitly requested keymap path, when supplied.
    pub fn keymap(&self) -> (p: Option<&PathBuf>)
        ensures
            p == (match &self.keymap {
                Some(k) => Some(k),
                None => None::<&PathBuf>,
            }),
    {
        match &self.keymap {
            Some(k) => Some(k),
            None => None,
        }
    }

    /// Returns the explicitly enabled language-server profile identifiers.
    pub fn lsp_profiles(&self) -> (s: &[String])
        ensures
            s@ == self.lsp@,
    {
        self.lsp.as_slice()
    }

    /// Returns the explicitly selected trusted LSP configuration path.
    pub fn lsp_config(&self) -> (p: Option<&PathBuf>)
        ensures
            p == (match &self.lsp_config {
                Some(k) => Some(k),
                None => None::<&PathBuf>,
            }),
    {
        match &self.lsp_config {
            Some(k) => Some(k),
            None => None,
        }
    }
}

/// Main view selected by the `--view` option.
#[derive(Clone, Copy, Debug, PartialEq, Eq, Structural)]
pub enum InitialView {
    /// Show unstaged worktree changes.
    Changes,
    /// Show paged commit history and diffs.
    History,
    /// Show commit parent lanes.
    Graph,
    /// Browse the working-tree file tree and source code.
    Code,
}

/// The application view of a command-line view choice.
pub open spec fn view_of(value: InitialView) -> AppView {
    match value {
        InitialView::Changes => AppView::Changes,
        InitialView::History => AppView::History,
        InitialView::Graph => AppView::Graph,
        InitialView::Code => AppView::Code,
    }
}

impl From<InitialView> for AppView {
    fn from(value: InitialView) -> (v: AppView) {
        match value {
            InitialView::Changes => AppView::Changes,
            InitialView::History => AppView::History,
            InitialView::Graph => AppView::Graph,
            InitialView::Code => AppView::Code,
        }
    }
}

impl vstd::std_specs::convert::FromSpecImpl<InitialView> for AppView {
    open spec fn obeys_from_spec() -> bool {
        true
    }

    open spec fn from_spec(value: InitialView) -> AppView {
        view_of(value)
    }
}

} // verus!
