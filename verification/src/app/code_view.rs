//! The working-tree file tree and cursor columns of the code viewer.

use crate::bytes::{
    bytes_equal, bytes_less, copy_range, find_byte, find_from, lemma_find_suffix,
    lemma_lex_irreflexive, lemma_lex_total, lemma_lex_transitive, lex_lt,
};
use crate::app::action::Action;
use crate::app::effect::GitEffect;
use crate::app::model::{
    first_row, moved, next_id, AppState, CodeViewState, ErrorNotice, FocusedPane, LoadState,
    Overlay, RequestId, Selection,
};
use crate::app::search::{
    cleared, confirmed, confirmed_line, deleted, stepped_line, line_texts, prompt_set, same_search, single_text, stepped,
    string_texts, typed,
};
use crate::app::vim::text_of;
use crate::domain::path::{valid_repo_path, RepoPath};
use crate::domain::search::FileDocument;
use crate::git::runner::{error_text, GitError};
use crate::app::update::{at_most, step, step_exec};
use crate::text::{fits, floor_index, offset, Line};
use vstd::prelude::*;

verus! {

/// The character boundary at or before `requested` (the line end past it).
pub fn clamp_byte_column(line: &str, requested: usize) -> (b: usize)
    requires
        fits(line@),
    ensures
        b == offset(line@, floor_index(line@, requested as int)),
{
    let l = Line::new(line);
    l.offset_of(l.floor_index(requested))
}

/// The part of `file` below the directory `prefix` (the whole file below the
/// root), when `file` lies strictly inside it.
pub open spec fn below(prefix: Seq<u8>, file: Seq<u8>) -> Option<Seq<u8>> {
    if prefix.len() == 0 {
        Some(file)
    } else if file.len() > prefix.len() + 1 && file.subrange(0, prefix.len() as int) == prefix
        && file[prefix.len() as int] == 0x2fu8 {
        Some(file.subrange(prefix.len() + 1int, file.len() as int))
    } else {
        None
    }
}

/// The first component of a relative path.
pub open spec fn head(rest: Seq<u8>) -> Seq<u8> {
    rest.subrange(0, find_from(rest, 0x2fu8, 0))
}

/// Whether a relative path has more than one component.
pub open spec fn deeper(rest: Seq<u8>) -> bool {
    find_from(rest, 0x2fu8, 0) < rest.len()
}

/// `file` lies below `prefix` and its next component is `name`.
pub open spec fn contributes(file: Seq<u8>, prefix: Seq<u8>, name: Seq<u8>) -> bool {
    below(prefix, file) matches Some(rest) && head(rest) == name
}

/// `file` lies below `prefix` inside the directory `name`.
pub open spec fn contributes_dir(file: Seq<u8>, prefix: Seq<u8>, name: Seq<u8>) -> bool {
    below(prefix, file) matches Some(rest) && head(rest) == name && deeper(rest)
}

/// One of the first `upto` files lies below `prefix` under the name `name`.
pub open spec fn child_named(files: Seq<Seq<u8>>, prefix: Seq<u8>, name: Seq<u8>, upto: int) -> bool {
    exists|j: int| 0 <= j < upto && #[trigger] contributes(files[j], prefix, name)
}

/// One of the first `upto` files lies below `prefix` inside the directory `name`.
pub open spec fn dir_named(files: Seq<Seq<u8>>, prefix: Seq<u8>, name: Seq<u8>, upto: int) -> bool {
    exists|j: int| 0 <= j < upto && #[trigger] contributes_dir(files[j], prefix, name)
}

/// The path bytes of a list of repository paths.
pub open spec fn paths_of(files: Seq<RepoPath>) -> Seq<Seq<u8>> {
    files.map_values(|p: RepoPath| p@)
}

proof fn lemma_named_step(files: Seq<Seq<u8>>, prefix: Seq<u8>, name: Seq<u8>, i: int)
    requires
        0 <= i < files.len(),
    ensures
        child_named(files, prefix, name, i + 1) == (child_named(files, prefix, name, i)
            || contributes(files[i], prefix, name)),
        dir_named(files, prefix, name, i + 1) == (dir_named(files, prefix, name, i)
            || contributes_dir(files[i], prefix, name)),
{
    if child_named(files, prefix, name, i + 1) {
        let j = choose|j: int| 0 <= j < i + 1 && #[trigger] contributes(files[j], prefix, name);
        if j < i {
            assert(child_named(files, prefix, name, i));
        }
    }
    if child_named(files, prefix, name, i) {
        let j = choose|j: int| 0 <= j < i && #[trigger] contributes(files[j], prefix, name);
        assert(child_named(files, prefix, name, i + 1));
    }
    if contributes(files[i], prefix, name) {
        assert(child_named(files, prefix, name, i + 1));
    }
    if dir_named(files, prefix, name, i + 1) {
        let j = choose|j: int| 0 <= j < i + 1 && #[trigger] contributes_dir(files[j], prefix, name);
        if j < i {
            assert(dir_named(files, prefix, name, i));
        }
    }
    if dir_named(files, prefix, name, i) {
        let j = choose|j: int| 0 <= j < i && #[trigger] contributes_dir(files[j], prefix, name);
        assert(dir_named(files, prefix, name, i + 1));
    }
    if contributes_dir(files[i], prefix, name) {
        assert(dir_named(files, prefix, name, i + 1));
    }
}

proof fn lemma_dir_is_child(files: Seq<Seq<u8>>, prefix: Seq<u8>, name: Seq<u8>, upto: int)
    ensures
        dir_named(files, prefix, name, upto) ==> child_named(files, prefix, name, upto),
{
    if dir_named(files, prefix, name, upto) {
        let j = choose|j: int| 0 <= j < upto && #[trigger] contributes_dir(files[j], prefix, name);
        assert(contributes(files[j], prefix, name));
    }
}

fn has_prefix(bytes: &[u8], prefix: &[u8]) -> (r: bool)
    ensures
        r == (prefix@.len() <= bytes@.len() && bytes@.subrange(0, prefix@.len() as int)
            == prefix@),
{
    if prefix.len() > bytes.len() {
        return false;
    }
    let mut i: usize = 0;
    while i < prefix.len()
        invariant
            prefix@.len() <= bytes@.len(),
            i <= prefix@.len(),
            forall|j: int| 0 <= j < i ==> bytes@[j] == prefix@[j],
        decreases prefix@.len() - i,
    {
        if bytes[i] != prefix[i] {
            assert(bytes@.subrange(0, prefix@.len() as int)[i as int] != prefix@[i as int]);
            return false;
        }
        i = i + 1;
    }
    assert(bytes@.subrange(0, prefix@.len() as int) =~= prefix@);
    true
}

/// Where the part of `file` below `prefix` starts, if it lies below it.
fn below_start(file: &[u8], prefix: &[u8]) -> (r: Option<usize>)
    ensures
        r is Some <==> below(prefix@, file@) is Some,
        r matches Some(s) ==> s <= file@.len() && below(prefix@, file@) == Some(
            file@.subrange(s as int, file@.len() as int),
        ),
{
    let plen = prefix.len();
    if plen == 0 {
        assert(file@.subrange(0, file@.len() as int) =~= file@);
        return Some(0);
    }
    if file.len() > plen && file.len() - plen > 1 && has_prefix(file, prefix) && file[plen] == 0x2f {
        Some(plen + 1)
    } else {
        None
    }
}

/// Strictly increasing under the byte order.
pub open spec fn sorted_names(names: Seq<Vec<u8>>) -> bool {
    forall|a: int, b: int| 0 <= a < b < names.len() ==> lex_lt(names[a]@, names[b]@)
}

/// The distinct next components below `prefix` of `files`, in byte order,
/// each with whether it is a directory.
fn collect_names(files: &[RepoPath], prefix: &[u8]) -> (r: (Vec<Vec<u8>>, Vec<bool>))
    ensures
        r.0@.len() == r.1@.len(),
        sorted_names(r.0@),
        forall|k: int|
            0 <= k < r.0@.len() ==> child_named(
                paths_of(files@),
                prefix@,
                #[trigger] r.0@[k]@,
                files@.len() as int,
            ),
        forall|k: int|
            0 <= k < r.0@.len() ==> r.1@[k] == dir_named(
                paths_of(files@),
                prefix@,
                #[trigger] r.0@[k]@,
                files@.len() as int,
            ),
        forall|n: Seq<u8>|
            child_named(paths_of(files@), prefix@, n, files@.len() as int) ==> exists|k: int|
                0 <= k < r.0@.len() && #[trigger] r.0@[k]@ == n,
{
    let ghost fs = paths_of(files@);
    let mut names: Vec<Vec<u8>> = Vec::new();
    let mut dirs: Vec<bool> = Vec::new();
    let mut i: usize = 0;
    while i < files.len()
        invariant
            fs == paths_of(files@),
            i <= files@.len(),
            names@.len() == dirs@.len(),
            sorted_names(names@),
            forall|k: int|
                0 <= k < names@.len() ==> child_named(fs, prefix@, #[trigger] names@[k]@, i as int),
            forall|k: int|
                0 <= k < names@.len() ==> dirs@[k] == dir_named(
                    fs,
                    prefix@,
                    #[trigger] names@[k]@,
                    i as int,
                ),
            forall|n: Seq<u8>|
                child_named(fs, prefix@, n, i as int) ==> exists|k: int|
                    0 <= k < names@.len() && #[trigger] names@[k]@ == n,
        decreases files@.len() - i,
    {
        let file = files[i].as_bytes();
        assert(fs[i as int] == file@);
        let ghost old_names = names@;
        let ghost old_dirs = dirs@;
        match below_start(file, prefix) {
            None => {
                proof {
                    assert forall|k: int| 0 <= k < names@.len() implies child_named(
                        fs,
                        prefix@,
                        #[trigger] names@[k]@,
                        i + 1,
                    ) && dirs@[k] == dir_named(fs, prefix@, names@[k]@, i + 1) by {
                        lemma_named_step(fs, prefix@, names@[k]@, i as int);
                    }
                    assert forall|n: Seq<u8>| #[trigger] child_named(fs, prefix@, n, i + 1) implies exists|
                        k: int,
                    | 0 <= k < names@.len() && #[trigger] names@[k]@ == n by {
                        lemma_named_step(fs, prefix@, n, i as int);
                    }
                }
            },
            Some(start) => {
                let sep = find_byte(file, 0x2f, start);
                let name = copy_range(file, start, sep);
                let is_dir = sep < file.len();
                let ghost nm = name@;
                let ghost rest = file@.subrange(start as int, file@.len() as int);
                proof {
                    lemma_find_suffix(file@, 0x2fu8, start as int);
                    assert(head(rest) =~= name@);
                    assert(deeper(rest) == is_dir);
                    assert(contributes(fs[i as int], prefix@, name@));
                    assert forall|n: Seq<u8>| n != name@ implies #[trigger] child_named(
                        fs,
                        prefix@,
                        n,
                        i + 1,
                    ) == child_named(fs, prefix@, n, i as int) && dir_named(fs, prefix@, n, i + 1)
                        == dir_named(fs, prefix@, n, i as int) by {
                        lemma_named_step(fs, prefix@, n, i as int);
                    }
                    lemma_named_step(fs, prefix@, name@, i as int);
                }
                let mut p: usize = 0;
                while p < names.len() && bytes_less(names[p].as_slice(), name.as_slice())
                    invariant
                        names@ == old_names,
                        p <= names@.len(),
                        forall|a: int| 0 <= a < p ==> lex_lt(#[trigger] names@[a]@, name@),
                    decreases names@.len() - p,
                {
                    p = p + 1;
                }
                if p < names.len() && bytes_equal(names[p].as_slice(), name.as_slice()) {
                    let d = dirs[p] || is_dir;
                    dirs.set(p, d);
                    proof {
                        assert forall|k: int| 0 <= k < names@.len() && k != p implies #[trigger] names@[k]@
                            != name@ by {
                            if k < p {
                                lemma_lex_irreflexive(name@);
                            } else {
                                lemma_lex_total(names@[p as int]@, names@[k]@);
                            }
                        }
                        assert forall|k: int| 0 <= k < names@.len() implies child_named(
                            fs,
                            prefix@,
                            #[trigger] names@[k]@,
                            i + 1,
                        ) by {
                            lemma_named_step(fs, prefix@, names@[k]@, i as int);
                        }
                        assert forall|n: Seq<u8>| #[trigger] child_named(fs, prefix@, n, i + 1) implies exists|
                            k: int,
                        | 0 <= k < names@.len() && #[trigger] names@[k]@ == n by {
                            if n == name@ {
                                assert(names@[p as int]@ == n);
                            } else {
                                assert(child_named(fs, prefix@, n, i as int));
                            }
                        }
                    }
                } else {
                    proof {
                        if p < names@.len() {
                            lemma_lex_total(names@[p as int]@, name@);
                        }
                        assert forall|k: int| 0 <= k < names@.len() implies #[trigger] names@[k]@
                            != name@ by {
                            if k < p {
                                lemma_lex_irreflexive(name@);
                            } else if k > p {
                                if names@[k]@ == name@ {
                                    lemma_lex_total(names@[p as int]@, name@);
                                }
                            }
                        }
                        assert(!child_named(fs, prefix@, name@, i as int));
                    }
                    names.insert(p, name);
                    dirs.insert(p, is_dir);
                    proof {
                        assert(names@.len() == old_names.len() + 1);
                        assert(names@[p as int]@ == nm);
                        assert(forall|k: int| 0 <= k < p ==> names@[k] == old_names[k]);
                        assert(forall|k: int| p < k < names@.len() ==> names@[k] == old_names[k - 1]);
                        assert forall|b: int| p < b < names@.len() implies lex_lt(
                            nm,
                            #[trigger] names@[b]@,
                        ) by {
                            if b - 1 > p {
                                lemma_lex_transitive(nm, old_names[p as int]@, old_names[b - 1]@);
                            }
                        }
                        assert forall|a: int, b: int| 0 <= a < b < names@.len() implies lex_lt(
                            names@[a]@,
                            names@[b]@,
                        ) by {
                            if b < p {
                            } else if b == p {
                            } else if a < p {
                                lemma_lex_transitive(names@[a]@, nm, names@[b]@);
                            } else if a == p {
                            } else {
                            }
                        }
                        assert forall|k: int| 0 <= k < names@.len() implies child_named(
                            fs,
                            prefix@,
                            #[trigger] names@[k]@,
                            i + 1,
                        ) && dirs@[k] == dir_named(fs, prefix@, names@[k]@, i + 1) by {
                            lemma_named_step(fs, prefix@, names@[k]@, i as int);
                            if k < p {
                                assert(names@[k] == old_names[k]);
                                assert(dirs@[k] == old_dirs[k]);
                            } else if k > p {
                                assert(names@[k] == old_names[k - 1]);
                                assert(dirs@[k] == old_dirs[k - 1]);
                            } else {
                                lemma_dir_is_child(fs, prefix@, nm, i as int);
                                assert(contributes_dir(fs[i as int], prefix@, nm) == is_dir);
                            }
                        }
                        assert forall|n: Seq<u8>| #[trigger] child_named(fs, prefix@, n, i + 1) implies exists|
                            k: int,
                        | 0 <= k < names@.len() && #[trigger] names@[k]@ == n by {
                            if n == nm {
                                assert(names@[p as int]@ == n);
                            } else {
                                assert(child_named(fs, prefix@, n, i as int));
                                let k = choose|k: int|
                                    0 <= k < old_names.len() && #[trigger] old_names[k]@ == n;
                                if k < p {
                                    assert(names@[k]@ == n);
                                } else {
                                    assert(names@[k + 1]@ == n);
                                }
                            }
                        }
                    }
                }
            },
        }
        i = i + 1;
    }
    (names, dirs)
}

/// Whether a row of the working-tree file tree is a directory or a file.
#[derive(Clone, Copy, Debug, PartialEq, Eq, Structural)]
pub enum CodeEntryKind {
    Directory,
    File,
}

/// One row of the working-tree file tree.
#[derive(Debug)]
pub struct VisibleCodeEntry {
    /// Complete repository-relative path.
    pub path: RepoPath,
    /// Name relative to the parent directory.
    pub name: RepoPath,
    /// Zero-based nesting depth.
    pub depth: usize,
    pub kind: CodeEntryKind,
    /// Whether a directory's children are shown below it.
    pub expanded: bool,
}

impl VisibleCodeEntry {
    /// A collapsed row.
    pub fn new(path: RepoPath, name: RepoPath, depth: usize, kind: CodeEntryKind) -> (e:
        VisibleCodeEntry)
        ensures
            e.path == path,
            e.name == name,
            e.depth == depth,
            e.kind == kind,
            !e.expanded,
    {
        VisibleCodeEntry { path, name, depth, kind, expanded: false }
    }

    pub fn path(&self) -> (p: &RepoPath)
        ensures
            *p == self.path,
    {
        &self.path
    }

    pub fn name(&self) -> (p: &RepoPath)
        ensures
            *p == self.name,
    {
        &self.name
    }

    pub fn depth(&self) -> (d: usize)
        ensures
            d == self.depth,
    {
        self.depth
    }

    pub fn kind(&self) -> (k: CodeEntryKind)
        ensures
            k == self.kind,
    {
        self.kind
    }

    pub fn expanded(&self) -> (b: bool)
        ensures
            b == self.expanded,
    {
        self.expanded
    }

    pub fn set_expanded(&mut self, expanded: bool)
        ensures
            final(self).expanded == expanded,
            final(self).path == old(self).path,
            final(self).name == old(self).name,
            final(self).depth == old(self).depth,
            final(self).kind == old(self).kind,
    {
        self.expanded = expanded;
    }
}

/// The directory whose children are listed: the root when absent.
pub open spec fn prefix_of(parent: Option<&RepoPath>) -> Seq<u8> {
    match parent {
        Some(p) => p@,
        None => Seq::empty(),
    }
}

/// The full path of the child `name` of `parent`.
pub open spec fn joined(parent: Option<&RepoPath>, name: Seq<u8>) -> Seq<u8> {
    match parent {
        Some(p) => if p@.len() == 0 {
            name
        } else {
            p@ + seq![0x2fu8] + name
        },
        None => name,
    }
}

/// Directories are listed before files.
pub open spec fn rank(kind: CodeEntryKind) -> int {
    match kind {
        CodeEntryKind::Directory => 0,
        CodeEntryKind::File => 1,
    }
}

/// The listing order: directories first, then by name bytes.
pub open spec fn listed_before(a: VisibleCodeEntry, b: VisibleCodeEntry) -> bool {
    rank(a.kind) < rank(b.kind) || (rank(a.kind) == rank(b.kind) && lex_lt(a.name@, b.name@))
}

/// The row listed for the child `name` of `parent`.
pub open spec fn row_of(
    e: VisibleCodeEntry,
    name: Seq<u8>,
    directory: bool,
    parent: Option<&RepoPath>,
    depth: usize,
) -> bool {
    &&& e.name@ == name
    &&& valid_repo_path(name)
    &&& e.path@ == joined(parent, name)
    &&& e.depth == depth
    &&& e.kind == (if directory {
        CodeEntryKind::Directory
    } else {
        CodeEntryKind::File
    })
    &&& !e.expanded
}

/// Row `e` is the row of one of the names whose kind is `directory`.
pub open spec fn row_from(
    rows: Seq<VisibleCodeEntry>,
    e: int,
    names: Seq<Vec<u8>>,
    dirs: Seq<bool>,
    directory: bool,
    parent: Option<&RepoPath>,
    depth: usize,
) -> bool {
    exists|k: int|
        0 <= k < names.len() && dirs[k] == directory && #[trigger] row_of(
            rows[e],
            names[k]@,
            directory,
            parent,
            depth,
        )
}

/// Every row from `start` on is the row of a name whose kind is `directory`.
pub open spec fn rows_from(
    rows: Seq<VisibleCodeEntry>,
    start: int,
    names: Seq<Vec<u8>>,
    dirs: Seq<bool>,
    directory: bool,
    parent: Option<&RepoPath>,
    depth: usize,
) -> bool {
    forall|e: int| start <= e < rows.len() ==> #[trigger] row_from(rows, e, names, dirs, directory, parent, depth)
}

/// Appends, in name order, the rows of the names whose kind is `directory`.
#[verifier::rlimit(50)]
#[verifier::spinoff_prover]
fn emit_kind(
    names: &Vec<Vec<u8>>,
    dirs: &Vec<bool>,
    directory: bool,
    parent: Option<&RepoPath>,
    depth: usize,
    out: &mut Vec<VisibleCodeEntry>,
)
    requires
        names@.len() == dirs@.len(),
        sorted_names(names@),
    ensures
        final(out)@.len() >= old(out)@.len(),
        forall|e: int| 0 <= e < old(out)@.len() ==> #[trigger] final(out)@[e] == old(out)@[e],
        rows_from(final(out)@, old(out)@.len() as int, names@, dirs@, directory, parent, depth),
        forall|a: int, b: int|
            old(out)@.len() <= a < b < final(out)@.len() ==> lex_lt(
                final(out)@[a].name@,
                final(out)@[b].name@,
            ),
        forall|k: int|
            0 <= k < names@.len() && dirs@[k] == directory && valid_repo_path(#[trigger] names@[k]@)
                ==> exists|e: int|
                old(out)@.len() <= e < final(out)@.len() && #[trigger] final(out)@[e].name@
                    == names@[k]@,
{
    let ghost start = out@.len() as int;
    let ghost before = out@;
    let ghost mut origin: Seq<int> = Seq::empty();
    let mut k: usize = 0;
    while k < names.len()
        invariant
            names@.len() == dirs@.len(),
            start == before.len(),
            k <= names@.len(),
            out@.len() == start + origin.len(),
            forall|e: int| 0 <= e < start ==> #[trigger] out@[e] == before[e],
            forall|e: int|
                0 <= e < origin.len() ==> 0 <= #[trigger] origin[e] < k && dirs@[origin[e]]
                    == directory && row_of(
                    out@[start + e],
                    names@[origin[e]]@,
                    directory,
                    parent,
                    depth,
                ),
            forall|a: int, b: int| 0 <= a < b < origin.len() ==> origin[a] < origin[b],
            forall|j: int|
                0 <= j < k && dirs@[j] == directory && valid_repo_path(#[trigger] names@[j]@)
                    ==> exists|e: int| 0 <= e < origin.len() && origin[e] == j,
        decreases names@.len() - k,
    {
        if dirs[k] == directory {
            let bytes = copy_range(names[k].as_slice(), 0, names[k].len());
            assert(names@[k as int]@.subrange(0, names@[k as int]@.len() as int) =~= names@[k as int]@);
            match RepoPath::from_bytes(bytes) {
                Ok(name) => {
                    let path = match parent {
                        Some(p) => p.join(&name),
                        None => name.duplicate(),
                    };
                    let kind = if directory {
                        CodeEntryKind::Directory
                    } else {
                        CodeEntryKind::File
                    };
                    let entry = VisibleCodeEntry::new(path, name, depth, kind);
                    let ghost prev = out@;
                    let ghost prev_origin = origin;
                    assert(row_of(entry, names@[k as int]@, directory, parent, depth));
                    out.push(entry);
                    proof {
                        origin = origin.push(k as int);
                        assert forall|e: int| 0 <= e < origin.len() implies 0 <= #[trigger] origin[e]
                            < k + 1 && dirs@[origin[e]] == directory && row_of(
                            out@[start + e],
                            names@[origin[e]]@,
                            directory,
                            parent,
                            depth,
                        ) by {
                            if e < prev_origin.len() {
                                assert(origin[e] == prev_origin[e]);
                                assert(out@[start + e] == prev[start + e]);
                            }
                        }
                        assert forall|j: int|
                            0 <= j < k + 1 && dirs@[j] == directory && valid_repo_path(
                                #[trigger] names@[j]@,
                            ) implies exists|e: int| 0 <= e < origin.len() && origin[e] == j by {
                            if j == k {
                                assert(origin[prev_origin.len() as int] == j);
                            } else {
                                let e = choose|e: int| 0 <= e < prev_origin.len() && prev_origin[e] == j;
                                assert(origin[e] == j);
                            }
                        }
                    }
                },
                Err(_) => {},
            }
        }
        k = k + 1;
    }
    proof {
        assert forall|e: int| start <= e < out@.len() implies row_from(
            out@,
            e,
            names@,
            dirs@,
            directory,
            parent,
            depth,
        ) by {
            let j = origin[e - start];
            assert(0 <= j < names@.len());
            assert(out@[start + (e - start)] == out@[e]);
            assert(row_of(out@[e], names@[j]@, directory, parent, depth));
        }
        assert(rows_from(out@, start, names@, dirs@, directory, parent, depth));
        assert forall|a: int, b: int| start <= a < b < out@.len() implies lex_lt(
            out@[a].name@,
            out@[b].name@,
        ) by {
            assert(out@[start + (a - start)] == out@[a]);
            assert(out@[start + (b - start)] == out@[b]);
            assert(origin[a - start] < origin[b - start]);
        }
        assert forall|j: int|
            0 <= j < names@.len() && dirs@[j] == directory && valid_repo_path(#[trigger] names@[j]@)
                implies exists|e: int| start <= e < out@.len() && #[trigger] out@[e].name@
                == names@[j]@ by {
            let e = choose|e: int| 0 <= e < origin.len() && origin[e] == j;
            assert(out@[start + e].name@ == names@[j]@);
        }
    }
}

/// The view of an optional parent directory.
pub open spec fn parent_view(parent: Option<&RepoPath>) -> Option<Seq<u8>> {
    match parent {
        Some(p) => Some(p@),
        None => None,
    }
}

/// The full path of the child `name` of the directory `parent` (the root
/// when absent).
pub open spec fn joined_view(parent: Option<Seq<u8>>, name: Seq<u8>) -> Seq<u8> {
    match parent {
        Some(p) => if p.len() == 0 {
            name
        } else {
            p + seq![0x2fu8] + name
        },
        None => name,
    }
}

/// `entries` lists the direct children of the directory `parent` (the root
/// when absent) among `files`, as `direct_children` returns them.
pub open spec fn listing(
    files: Seq<RepoPath>,
    parent: Option<Seq<u8>>,
    depth: usize,
    entries: Seq<VisibleCodeEntry>,
) -> bool {
    let pre = match parent {
        Some(p) => p,
        None => Seq::empty(),
    };
    &&& forall|i: int|
        0 <= i < entries.len() ==> {
            let e = #[trigger] entries[i];
            &&& valid_repo_path(e.name@)
            &&& child_named(paths_of(files), pre, e.name@, files.len() as int)
            &&& (e.kind == CodeEntryKind::Directory) == dir_named(
                paths_of(files),
                pre,
                e.name@,
                files.len() as int,
            )
            &&& e.path@ == joined_view(parent, e.name@)
            &&& e.depth == depth
            &&& !e.expanded
        }
    &&& forall|n: Seq<u8>|
        child_named(paths_of(files), pre, n, files.len() as int) && valid_repo_path(n) ==> exists|
            i: int,
        | 0 <= i < entries.len() && #[trigger] entries[i].name@ == n
    &&& forall|a: int, b: int| 0 <= a < b < entries.len() ==> listed_before(entries[a], entries[b])
}

/// The direct children of `parent` (the root when absent) among `files`:
/// one row per distinct next path component, a directory when any file lies
/// deeper below it, directories first and each group in byte order of names.
pub fn direct_children(files: &[RepoPath], parent: Option<&RepoPath>, depth: usize) -> (entries:
    Vec<VisibleCodeEntry>)
    ensures
        forall|i: int|
            0 <= i < entries@.len() ==> {
                let e = #[trigger] entries@[i];
                &&& valid_repo_path(e.name@)
                &&& child_named(
                    paths_of(files@),
                    prefix_of(parent),
                    e.name@,
                    files@.len() as int,
                )
                &&& (e.kind == CodeEntryKind::Directory) == dir_named(
                    paths_of(files@),
                    prefix_of(parent),
                    e.name@,
                    files@.len() as int,
                )
                &&& e.path@ == joined(parent, e.name@)
                &&& e.depth == depth
                &&& !e.expanded
            },
        forall|n: Seq<u8>|
            child_named(paths_of(files@), prefix_of(parent), n, files@.len() as int)
                && valid_repo_path(n) ==> exists|i: int|
                0 <= i < entries@.len() && #[trigger] entries@[i].name@ == n,
        forall|a: int, b: int|
            0 <= a < b < entries@.len() ==> listed_before(entries@[a], entries@[b]),
        listing(files@, parent_view(parent), depth, entries@),
{
    let empty: Vec<u8> = Vec::new();
    let prefix: &[u8] = match parent {
        Some(p) => p.as_bytes(),
        None => empty.as_slice(),
    };
    assert(prefix@ == prefix_of(parent));
    let (names, dirs) = collect_names(files, prefix);
    let mut out: Vec<VisibleCodeEntry> = Vec::new();
    emit_kind(&names, &dirs, true, parent, depth, &mut out);
    let ghost split = out@.len();
    let ghost first = out@;
    emit_kind(&names, &dirs, false, parent, depth, &mut out);
    proof {
        let fs = paths_of(files@);
        let pre = prefix_of(parent);
        let total = files@.len() as int;
        assert forall|i: int| 0 <= i < out@.len() implies {
            let e = #[trigger] out@[i];
            &&& valid_repo_path(e.name@)
            &&& child_named(fs, pre, e.name@, total)
            &&& (e.kind == CodeEntryKind::Directory) == dir_named(fs, pre, e.name@, total)
            &&& e.path@ == joined(parent, e.name@)
            &&& e.depth == depth
            &&& !e.expanded
        } by {
            if i < split {
                assert(out@[i] == first[i]);
                assert(row_from(first, i, names@, dirs@, true, parent, depth));
                let k = choose|k: int|
                    0 <= k < names@.len() && dirs@[k] == true && #[trigger] row_of(
                        first[i],
                        names@[k]@,
                        true,
                        parent,
                        depth,
                    );
                assert(child_named(fs, pre, names@[k]@, total));
            } else {
                assert(row_from(out@, i, names@, dirs@, false, parent, depth));
                let k = choose|k: int|
                    0 <= k < names@.len() && dirs@[k] == false && #[trigger] row_of(
                        out@[i],
                        names@[k]@,
                        false,
                        parent,
                        depth,
                    );
                assert(child_named(fs, pre, names@[k]@, total));
            }
        }
        assert forall|n: Seq<u8>| #[trigger] child_named(fs, pre, n, total) && valid_repo_path(n)
            implies exists|i: int| 0 <= i < out@.len() && #[trigger] out@[i].name@ == n by {
            let k = choose|k: int| 0 <= k < names@.len() && #[trigger] names@[k]@ == n;
            if dirs@[k] {
                let e = choose|e: int| 0 <= e < split && #[trigger] first[e].name@ == names@[k]@;
                assert(out@[e] == first[e]);
            } else {
                let e = choose|e: int|
                    split <= e < out@.len() && #[trigger] out@[e].name@ == names@[k]@;
            }
        }
        assert forall|a: int, b: int| 0 <= a < b < out@.len() implies listed_before(
            out@[a],
            out@[b],
        ) by {
            if a < split {
                assert(out@[a] == first[a]);
                assert(row_from(first, a, names@, dirs@, true, parent, depth));
                let ka = choose|k: int|
                    0 <= k < names@.len() && dirs@[k] == true && #[trigger] row_of(
                        first[a],
                        names@[k]@,
                        true,
                        parent,
                        depth,
                    );
            } else {
                assert(row_from(out@, a, names@, dirs@, false, parent, depth));
                let ka = choose|k: int|
                    0 <= k < names@.len() && dirs@[k] == false && #[trigger] row_of(
                        out@[a],
                        names@[k]@,
                        false,
                        parent,
                        depth,
                    );
            }
            if b < split {
                assert(out@[b] == first[b]);
                assert(row_from(first, b, names@, dirs@, true, parent, depth));
                let kb = choose|k: int|
                    0 <= k < names@.len() && dirs@[k] == true && #[trigger] row_of(
                        first[b],
                        names@[k]@,
                        true,
                        parent,
                        depth,
                    );
            } else {
                assert(row_from(out@, b, names@, dirs@, false, parent, depth));
                let kb = choose|k: int|
                    0 <= k < names@.len() && dirs@[k] == false && #[trigger] row_of(
                        out@[b],
                        names@[k]@,
                        false,
                        parent,
                        depth,
                    );
            }
        }
    }
    out
}

// ---------------------------------------------------------------------------
// State transitions of the code viewer.

/// The last line of a file document: 0 for a summary, else the last text
/// line, counting the truncation marker as a line.
pub open spec fn file_last(c: LoadState<FileDocument>) -> usize {
    match c {
        LoadState::Ready(FileDocument::Text { lines, truncated }) => if truncated {
            lines@.len() as usize
        } else if lines@.len() > 0 {
            (lines@.len() - 1) as usize
        } else {
            0
        },
        _ => 0,
    }
}

/// The last line of a file document.
pub fn last_line_of(content: &LoadState<FileDocument>) -> (n: usize)
    ensures
        n == file_last(*content),
{
    match content {
        LoadState::Ready(FileDocument::Text { lines, truncated }) => {
            if *truncated {
                lines.len()
            } else if lines.len() > 0 {
                lines.len() - 1
            } else {
                0
            }
        },
        _ => 0,
    }
}

/// The last line of the open code file.
pub fn last_line(state: &AppState) -> (n: usize)
    ensures
        n == file_last(state.code_view.content),
{
    last_line_of(&state.code_view.content)
}

/// The lines a document search runs over: the text lines, or the summary of
/// a non-text document.
pub open spec fn searched_texts(d: FileDocument) -> Seq<Seq<char>> {
    match d {
        FileDocument::Text { lines, .. } => string_texts(lines@),
        FileDocument::Binary { summary } => seq![summary@],
        FileDocument::Symlink { target } => seq![target@],
        FileDocument::Unavailable { summary } => seq![summary@],
    }
}

/// `t` is `s` with the code view scrolled to line `vertical`.
pub open spec fn code_scrolled(s: AppState, t: AppState, vertical: usize) -> bool {
    t == (AppState { code_view: CodeViewState { vertical, ..s.code_view }, ..s })
}

/// The document generation after a reload; it stops at its maximum.
pub open spec fn revised(n: u64) -> u64 {
    if n < u64::MAX {
        (n + 1) as u64
    } else {
        n
    }
}

/// Advances the document generation.
pub fn next_revision(n: u64) -> (r: u64)
    ensures
        r == revised(n),
{
    if n < u64::MAX {
        n + 1
    } else {
        n
    }
}

/// `t` is `s` reloading the working-tree file list: the tree, the open file
/// and the document search start over.
pub open spec fn tree_requested(s: AppState, t: AppState, e: Seq<GitEffect>) -> bool {
    let id = RequestId(s.next_request);
    &&& t == (AppState {
        code_view: CodeViewState {
            files: t.code_view.files,
            visible: LoadState::Loading { request_id: id },
            selection: Selection { index: None },
            path: None,
            content: LoadState::Idle,
            vertical: 0,
            horizontal: 0,
            pending_reveal: None,
            cursor_column: 0,
            document_revision: revised(s.code_view.document_revision),
        },
        search: t.search,
        notice: None,
        next_request: next_id(s.next_request),
        ..s
    })
    &&& t.code_view.files@.len() == 0
    &&& cleared(s.search, t.search)
    &&& e =~= seq![GitEffect::LoadCodeTree { request_id: id }]
}

/// Requests the working-tree file list.
pub fn request_tree(state: &mut AppState) -> (effects: Vec<GitEffect>)
    ensures
        tree_requested(*old(state), *final(state), effects@),
{
    let request_id = state.request_id();
    state.code_view.visible = LoadState::Loading { request_id };
    state.code_view.selection = Selection { index: None };
    state.code_view.files = Vec::new();
    state.code_view.path = None;
    state.code_view.content = LoadState::Idle;
    state.code_view.vertical = 0;
    state.code_view.horizontal = 0;
    state.code_view.pending_reveal = None;
    state.code_view.cursor_column = 0;
    state.code_view.document_revision = next_revision(state.code_view.document_revision);
    state.search.clear();
    state.notice = None;
    vec![GitEffect::LoadCodeTree { request_id }]
}

/// `t` is `s` opening `path` in the code view at line `line`.
pub open spec fn code_file_opened(s: AppState, t: AppState, path: Seq<u8>, line: usize, e: Seq<GitEffect>) -> bool {
    let id = RequestId(s.next_request);
    &&& t == (AppState {
        code_view: CodeViewState {
            path: t.code_view.path,
            content: LoadState::Loading { request_id: id },
            vertical: line,
            horizontal: 0,
            cursor_column: 0,
            document_revision: revised(s.code_view.document_revision),
            ..s.code_view
        },
        search: t.search,
        next_request: next_id(s.next_request),
        ..s
    })
    &&& t.code_view.path matches Some(p) && p@ == path
    &&& cleared(s.search, t.search)
    &&& e.len() == 1
    &&& e[0] matches GitEffect::LoadCodeFile { request_id, path: p } && request_id == id && p@
        == path
}

fn load_file(state: &mut AppState, path: RepoPath, line: usize) -> (effects: Vec<GitEffect>)
    ensures
        code_file_opened(*old(state), *final(state), path@, line, effects@),
{
    let request_id = state.request_id();
    state.code_view.path = Some(path.duplicate());
    state.code_view.content = LoadState::Loading { request_id };
    state.code_view.vertical = line;
    state.code_view.horizontal = 0;
    state.code_view.cursor_column = 0;
    state.code_view.document_revision = next_revision(state.code_view.document_revision);
    state.search.clear();
    vec![GitEffect::LoadCodeFile { request_id, path }]
}

/// `t` is `s` opening the selected row when it is a file; else `s` unchanged.
pub open spec fn preview_loaded(s: AppState, t: AppState, e: Seq<GitEffect>) -> bool {
    match (s.code_view.visible, s.code_view.selection.index) {
        (LoadState::Ready(rows), Some(i)) if i < rows@.len() && rows@[i as int].kind
            == CodeEntryKind::File => code_file_opened(s, t, rows@[i as int].path@, 0, e),
        _ => t == s && e.len() == 0,
    }
}

fn preview_selected_file(state: &mut AppState) -> (effects: Vec<GitEffect>)
    ensures
        preview_loaded(*old(state), *final(state), effects@),
{
    let path = match (&state.code_view.visible, state.code_view.selection.index) {
        (LoadState::Ready(rows), Some(i)) => {
            if i < rows.len() && rows[i].kind == CodeEntryKind::File {
                Some(rows[i].path.duplicate())
            } else {
                None
            }
        },
        _ => None,
    };
    match path {
        Some(path) => load_file(state, path, 0),
        None => Vec::new(),
    }
}

/// The subtree of row `i` ends before the first later row at its depth or
/// shallower, or at the end.
pub open spec fn subtree_end(rows: Seq<VisibleCodeEntry>, i: int, j: int) -> int
    decreases rows.len() - j,
{
    if j >= rows.len() || j < 0 {
        rows.len() as int
    } else if rows[j].depth <= rows[i].depth {
        j
    } else {
        subtree_end(rows, i, j + 1)
    }
}

/// `t` is `s` with the directory row `i` expanded: its children listed
/// below it.
pub open spec fn expanded_at(s: AppState, t: AppState, i: int) -> bool {
    match s.code_view.visible {
        LoadState::Ready(rows) if 0 <= i < rows@.len() => {
            let r = rows@[i];
            exists|children: Seq<VisibleCodeEntry>, v: Vec<VisibleCodeEntry>|
                listing(s.code_view.files@, Some(r.path@), step(r.depth, 1), children) && v@
                    == rows@.subrange(0, i).push(VisibleCodeEntry { expanded: true, ..r }) + children
                    + rows@.subrange(i + 1, rows@.len() as int) && t == (AppState {
                    code_view: CodeViewState { visible: LoadState::Ready(v), ..s.code_view },
                    ..s
                })
        },
        _ => t == s,
    }
}

fn expand(state: &mut AppState, index: usize)
    ensures
        expanded_at(*old(state), *final(state), index as int),
{
    let (path, depth) = match &state.code_view.visible {
        LoadState::Ready(rows) => {
            if index < rows.len() {
                (rows[index].path.duplicate(), rows[index].depth)
            } else {
                return ;
            }
        },
        _ => return ,
    };
    let children = direct_children(
        state.code_view.files.as_slice(),
        Some(&path),
        step_exec(depth, 1),
    );
    let ghost s0 = *state;
    let mut taken: LoadState<Vec<VisibleCodeEntry>> = LoadState::Idle;
    std::mem::swap(&mut state.code_view.visible, &mut taken);
    let rows = match taken {
        LoadState::Ready(rows) => rows,
        _ => Vec::new(),
    };
    let ghost old_rows = rows@;
    let mut out: Vec<VisibleCodeEntry> = Vec::new();
    let mut rows = rows;
    let mut tail = rows.split_off(index + 1);
    let mut entry = rows.pop().unwrap();
    entry.expanded = true;
    out.append(&mut rows);
    out.push(entry);
    let mut kids = children;
    out.append(&mut kids);
    out.append(&mut tail);
    state.code_view.visible = LoadState::Ready(out);
    proof {
        let r = old_rows[index as int];
        assert(out@ =~= old_rows.subrange(0, index as int).push(
            VisibleCodeEntry { expanded: true, ..r },
        ) + children@ + old_rows.subrange(index + 1, old_rows.len() as int));
    }
}

/// `t` is `s` with the directory row `i` collapsed: the rows of its subtree
/// removed and the selection kept inside the list.
pub open spec fn collapsed_at(s: AppState, t: AppState, i: int) -> bool {
    match s.code_view.visible {
        LoadState::Ready(rows) if 0 <= i < rows@.len() => {
            let end = subtree_end(rows@, i, i + 1);
            let n = i + 1 + (rows@.len() - end);
            exists|v: Vec<VisibleCodeEntry>|
                v@ == rows@.subrange(0, i).push(VisibleCodeEntry { expanded: false, ..rows@[i] })
                    + rows@.subrange(end, rows@.len() as int) && t == (AppState {
                    code_view: CodeViewState {
                        visible: LoadState::Ready(v),
                        selection: Selection {
                            index: match s.code_view.selection.index {
                                Some(k) => Some(if k < n { k } else { (n - 1) as usize }),
                                None => Some(0),
                            },
                        },
                        ..s.code_view
                    },
                    ..s
                })
        },
        _ => t == s,
    }
}

proof fn lemma_subtree_end_range(rows: Seq<VisibleCodeEntry>, i: int, j: int)
    requires
        0 <= j <= rows.len(),
    ensures
        j <= subtree_end(rows, i, j) <= rows.len(),
        forall|k: int| j <= k < subtree_end(rows, i, j) ==> rows[k].depth > rows[i].depth,
    decreases rows.len() - j,
{
    if j < rows.len() && rows[j].depth > rows[i].depth {
        lemma_subtree_end_range(rows, i, j + 1);
    }
}

fn collapse(state: &mut AppState, index: usize)
    ensures
        collapsed_at(*old(state), *final(state), index as int),
{
    let end = match &state.code_view.visible {
        LoadState::Ready(rows) => {
            if index >= rows.len() {
                return ;
            }
            let depth = rows[index].depth;
            let mut j = index + 1;
            proof {
                lemma_subtree_end_range(rows@, index as int, j as int);
            }
            while j < rows.len() && rows[j].depth > depth
                invariant
                    index < j <= rows@.len(),
                    depth == rows@[index as int].depth,
                    subtree_end(rows@, index as int, j as int) == subtree_end(
                        rows@,
                        index as int,
                        index + 1,
                    ),
                decreases rows@.len() - j,
            {
                j = j + 1;
            }
            j
        },
        _ => return ,
    };
    let mut taken: LoadState<Vec<VisibleCodeEntry>> = LoadState::Idle;
    std::mem::swap(&mut state.code_view.visible, &mut taken);
    let mut rows = match taken {
        LoadState::Ready(rows) => rows,
        _ => Vec::new(),
    };
    let ghost old_rows = rows@;
    let mut rest = rows.split_off(end);
    let _dropped = rows.split_off(index + 1);
    let mut entry = rows.pop().unwrap();
    entry.expanded = false;
    rows.push(entry);
    rows.append(&mut rest);
    let n = rows.len();
    state.code_view.visible = LoadState::Ready(rows);
    state.code_view.selection.clamp(n);
    proof {
        assert(rows@ =~= old_rows.subrange(0, index as int).push(
            VisibleCodeEntry { expanded: false, ..old_rows[index as int] },
        ) + old_rows.subrange(end as int, old_rows.len() as int));
    }
}

/// `t` and `e` are the outcome of the file list `result` arriving for `s`:
/// the root rows are listed and the first selected, then a pending path is
/// revealed, or else the selected file is opened. A failure is shown in
/// place of the tree.
pub open spec fn code_tree_received(
    s: AppState,
    result: Result<Vec<RepoPath>, GitError>,
    t: AppState,
    e: Seq<GitEffect>,
) -> bool {
    match result {
        Ok(files) => exists|roots: Vec<VisibleCodeEntry>|
            #[trigger] listing(files@, None, 0, roots@) && {
                let m = AppState {
                    code_view: CodeViewState {
                        files,
                        visible: LoadState::Ready(roots),
                        selection: Selection { index: first_row(roots@.len() as usize) },
                        pending_reveal: None,
                        ..s.code_view
                    },
                    ..s
                };
                match s.code_view.pending_reveal {
                    Some(p) => revealed(m, t, p@) && e.len() == 0,
                    None => preview_loaded(m, t, e),
                }
            },
        Err(err) => {
            &&& t == (AppState {
                code_view: CodeViewState {
                    files: t.code_view.files,
                    visible: t.code_view.visible,
                    ..s.code_view
                },
                ..s
            })
            &&& t.code_view.files@.len() == 0
            &&& t.code_view.visible matches LoadState::Failed(n) && n.0@ == error_text(err)
            &&& e.len() == 0
        },
    }
}

/// Applies the loaded working-tree file list.
pub fn tree_loaded(state: &mut AppState, result: Result<Vec<RepoPath>, GitError>) -> (effects: Vec<GitEffect>)
    ensures
        code_tree_received(*old(state), result, *final(state), effects@),
{
    match result {
        Ok(files) => {
            let roots = direct_children(files.as_slice(), None, 0);
            let ghost rg = roots;
            let len = roots.len();
            let pending = state.code_view.pending_reveal.take();
            state.code_view.selection = Selection { index: if len > 0 { Some(0) } else { None } };
            state.code_view.files = files;
            state.code_view.visible = LoadState::Ready(roots);
            proof {
                assert(listing(files@, None, 0, rg@));
            }
            match pending {
                Some(path) => {
                    reveal_path(state, &path);
                    Vec::new()
                },
                None => preview_selected_file(state),
            }
        },
        Err(error) => {
            state.code_view.files = Vec::new();
            state.code_view.visible = LoadState::Failed(ErrorNotice::new(error.describe()));
            Vec::new()
        },
    }
}

/// `t` is `s` after the open file's content `result` arrived: it is shown
/// (or its failure), and the scroll offset kept inside it.
pub open spec fn code_file_received(s: AppState, result: Result<FileDocument, GitError>, t: AppState) -> bool {
    &&& t == (AppState {
        code_view: CodeViewState {
            content: t.code_view.content,
            vertical: at_most(s.code_view.vertical, file_last(t.code_view.content)),
            ..s.code_view
        },
        ..s
    })
    &&& match result {
        Ok(d) => t.code_view.content == LoadState::Ready(d),
        Err(err) => t.code_view.content matches LoadState::Failed(n) && n.0@ == error_text(err),
    }
}

/// Applies the loaded content of the open file.
pub fn file_loaded(state: &mut AppState, result: Result<FileDocument, GitError>) -> (effects: Vec<GitEffect>)
    ensures
        code_file_received(*old(state), result, *final(state)),
        effects@.len() == 0,
{
    state.code_view.content = match result {
        Ok(document) => LoadState::Ready(document),
        Err(error) => LoadState::Failed(ErrorNotice::new(error.describe())),
    };
    let last = last_line(state);
    if state.code_view.vertical > last {
        state.code_view.vertical = last;
    }
    Vec::new()
}

/// The number of rows of the file tree, once it has loaded.
pub open spec fn row_count(s: AppState) -> Option<usize> {
    match s.code_view.visible {
        LoadState::Ready(rows) => Some(rows@.len() as usize),
        _ => None,
    }
}

/// `t` is `s` with the tree selection at `index`, then opening the selected
/// file if the selection changed.
pub open spec fn code_row_selected(s: AppState, t: AppState, index: Option<usize>, e: Seq<GitEffect>) -> bool {
    let m = AppState {
        code_view: CodeViewState { selection: Selection { index }, ..s.code_view },
        ..s
    };
    if index != s.code_view.selection.index {
        preview_loaded(m, t, e)
    } else {
        t == m && e.len() == 0
    }
}

/// `t` is `s` with the tree selection moved by `delta` rows.
pub open spec fn code_selection_moved(s: AppState, t: AppState, delta: isize, e: Seq<GitEffect>) -> bool {
    match row_count(s) {
        Some(n) => code_row_selected(s, t, moved(s.code_view.selection.index, delta, n), e),
        None => t == s && e.len() == 0,
    }
}

/// Moves the tree selection, opening a newly selected file.
pub fn move_selection(state: &mut AppState, delta: isize) -> (effects: Vec<GitEffect>)
    ensures
        code_selection_moved(*old(state), *final(state), delta, effects@),
{
    let changed = match &state.code_view.visible {
        LoadState::Ready(rows) => {
            let n = rows.len();
            state.code_view.selection.move_by(delta, n)
        },
        _ => false,
    };
    if changed {
        preview_selected_file(state)
    } else {
        Vec::new()
    }
}

/// `t` is `s` with the tree selection at the first or last row.
pub open spec fn code_edge_selected(s: AppState, t: AppState, bottom: bool, e: Seq<GitEffect>) -> bool {
    match row_count(s) {
        Some(n) => code_row_selected(
            s,
            t,
            if bottom {
                if n > 0 {
                    Some((n - 1) as usize)
                } else {
                    None
                }
            } else {
                first_row(n)
            },
            e,
        ),
        None => t == s && e.len() == 0,
    }
}

/// Selects the first or last row, opening a newly selected file.
pub fn move_to_edge(state: &mut AppState, bottom: bool) -> (effects: Vec<GitEffect>)
    ensures
        code_edge_selected(*old(state), *final(state), bottom, effects@),
{
    let changed = match &state.code_view.visible {
        LoadState::Ready(rows) => {
            let n = rows.len();
            if bottom {
                state.code_view.selection.bottom(n)
            } else {
                state.code_view.selection.top(n)
            }
        },
        _ => false,
    };
    if changed {
        preview_selected_file(state)
    } else {
        Vec::new()
    }
}

/// `t` is `s` after activating the selected row: a file opens full screen
/// (loading it unless it is already open); a directory expands or collapses.
pub open spec fn code_tree_activated(s: AppState, t: AppState, e: Seq<GitEffect>) -> bool {
    match (s.code_view.visible, s.code_view.selection.index) {
        (LoadState::Ready(rows), Some(i)) if i < rows@.len() => {
            let r = rows@[i as int];
            if r.kind == CodeEntryKind::File {
                if s.code_view.path matches Some(p) && p@ == r.path@ {
                    t == (AppState { overlay: Overlay::CodeContent, ..s }) && e.len() == 0
                } else {
                    t.overlay == Overlay::CodeContent && code_file_opened(
                        s,
                        AppState { overlay: s.overlay, ..t },
                        r.path@,
                        0,
                        e,
                    )
                }
            } else if r.expanded {
                collapsed_at(s, t, i as int) && e.len() == 0
            } else {
                expanded_at(s, t, i as int) && e.len() == 0
            }
        },
        _ => t == s && e.len() == 0,
    }
}

/// Activates the selected row of the file tree.
pub fn activate_tree(state: &mut AppState) -> (effects: Vec<GitEffect>)
    ensures
        code_tree_activated(*old(state), *final(state), effects@),
{
    let index = match state.code_view.selection.index {
        Some(i) => i,
        None => return Vec::new(),
    };
    let selected = match &state.code_view.visible {
        LoadState::Ready(rows) => {
            if index < rows.len() {
                Some((rows[index].kind, rows[index].expanded, rows[index].path.duplicate()))
            } else {
                None
            }
        },
        _ => None,
    };
    let (kind, expanded, path) = match selected {
        Some(x) => x,
        None => return Vec::new(),
    };
    if kind == CodeEntryKind::File {
        let already = match &state.code_view.path {
            Some(p) => p.same_as(&path),
            None => false,
        };
        let effects = if already {
            Vec::new()
        } else {
            load_file(state, path, 0)
        };
        state.overlay = Overlay::CodeContent;
        return effects;
    }
    if expanded {
        collapse(state, index);
    } else {
        expand(state, index);
    }
    Vec::new()
}

/// `t` is `s` showing the open file full screen, when one is open.
pub open spec fn content_opened(s: AppState, t: AppState) -> bool {
    if s.code_view.path is Some {
        t == (AppState { search: t.search, overlay: Overlay::CodeContent, ..s }) && cleared(
            s.search,
            t.search,
        )
    } else {
        t == s
    }
}

/// Shows the open file full screen.
pub fn open_content(state: &mut AppState)
    ensures
        content_opened(*old(state), *final(state)),
{
    if state.code_view.path.is_some() {
        state.search.clear();
        state.overlay = Overlay::CodeContent;
    }
}

/// The scroll offset after moving `delta` lines from `v`: kept inside a
/// loaded document, free while it loads, and 0 without one.
pub open spec fn content_moved(c: LoadState<FileDocument>, v: usize, delta: isize) -> usize {
    match c {
        LoadState::Loading { .. } => step(v, delta),
        LoadState::Ready(_) => at_most(step(v, delta), file_last(c)),
        _ => 0,
    }
}

/// Moves the open file by `delta` lines.
pub fn move_content_cursor(state: &mut AppState, delta: isize)
    ensures
        code_scrolled(
            *old(state),
            *final(state),
            content_moved(old(state).code_view.content, old(state).code_view.vertical, delta),
        ),
{
    let next = step_exec(state.code_view.vertical, delta);
    let last = last_line(state);
    state.code_view.vertical = match &state.code_view.content {
        LoadState::Loading { .. } => next,
        LoadState::Ready(_) => if next < last {
            next
        } else {
            last
        },
        _ => 0,
    };
}

/// `t` is `s` after confirming the document search over the open file: the
/// view moves to the selected match. Without a loaded file the prompt closes.
pub open spec fn code_search_confirmed(s: AppState, t: AppState) -> bool {
    match s.code_view.content {
        LoadState::Ready(d) => {
            let r = confirmed_line(s.search, t.search);
            confirmed(s.search, t.search, searched_texts(d), s.code_view.vertical, r) && t == (
            AppState {
                search: t.search,
                code_view: CodeViewState {
                    vertical: match r {
                        Some(l) => at_most(l, file_last(s.code_view.content)),
                        None => s.code_view.vertical,
                    },
                    ..s.code_view
                },
                ..s
            })
        },
        _ => t == (AppState { search: t.search, ..s }) && prompt_set(s.search, t.search, None),
    }
}

fn confirm_search(state: &mut AppState)
    ensures
        code_search_confirmed(*old(state), *final(state)),
{
    let anchor = state.code_view.vertical;
    let last = last_line(state);
    let line = match &state.code_view.content {
        LoadState::Ready(document) => {
            match document.message() {
                Some(m) => {
                    let values = single_text(m);
                    state.search.confirm(values.as_slice(), anchor)
                },
                None => {
                    let values = line_texts(document.lines());
                    state.search.confirm(values.as_slice(), anchor)
                },
            }
        },
        _ => {
            state.search.cancel_input();
            None
        },
    };
    if let Some(line) = line {
        state.code_view.vertical = if line < last {
            line
        } else {
            last
        };
    }
}

/// `t` is `s` after the selected match moved in `direction`: the view
/// follows it.
pub open spec fn code_match_stepped(s: AppState, t: AppState, direction: crate::app::search::SearchDirection) -> bool {
    let r = stepped_line(t.search);
    stepped(s.search, t.search, direction, r) && t == (AppState {
            search: t.search,
            code_view: CodeViewState {
                vertical: match r {
                    Some(l) => at_most(l, file_last(s.code_view.content)),
                    None => s.code_view.vertical,
                },
                ..s.code_view
            },
            ..s
        })
}

/// `t` is `s` after `action` in the full-screen code overlay.
pub open spec fn code_content_step(s: AppState, action: Action, t: AppState) -> bool {
    let v = s.code_view.vertical;
    let c = s.code_view.content;
    match action {
        Action::CloseOverlay | Action::Activate => t == (AppState {
            overlay: Overlay::Closed,
            search: t.search,
            ..s
        }) && cleared(s.search, t.search),
        Action::MoveUp => code_scrolled(s, t, content_moved(c, v, -1isize)),
        Action::MoveDown => code_scrolled(s, t, content_moved(c, v, 1isize)),
        Action::MoveTop => code_scrolled(s, t, 0),
        Action::MoveBottom => code_scrolled(s, t, file_last(c)),
        Action::HalfPageUp => code_scrolled(s, t, content_moved(c, v, -10isize)),
        Action::HalfPageDown => code_scrolled(s, t, content_moved(c, v, 10isize)),
        Action::ScrollLeft => t == (AppState {
            code_view: CodeViewState { horizontal: step(s.code_view.horizontal, -4isize), ..s.code_view },
            ..s
        }),
        Action::ScrollRight => t == (AppState {
            code_view: CodeViewState { horizontal: step(s.code_view.horizontal, 4isize), ..s.code_view },
            ..s
        }),
        Action::StartSearch(d) => t == (AppState { search: t.search, ..s }) && prompt_set(
            s.search,
            t.search,
            Some((d, Seq::empty())),
        ),
        Action::InsertSearch(ch) => t == (AppState { search: t.search, ..s }) && typed(
            s.search,
            t.search,
            ch,
        ),
        Action::DeleteSearch => t == (AppState { search: t.search, ..s }) && deleted(
            s.search,
            t.search,
        ),
        Action::ConfirmSearch => code_search_confirmed(s, t),
        Action::CancelSearch => t == (AppState { search: t.search, ..s }) && prompt_set(
            s.search,
            t.search,
            None,
        ),
        Action::NextMatch => code_match_stepped(s, t, s.search.direction_view()),
        Action::PreviousMatch => code_match_stepped(
            s,
            t,
            crate::app::search::opposite(s.search.direction_view()),
        ),
        _ => t == s,
    }
}

/// Handles an action in the full-screen code overlay.
pub fn content_action(state: &mut AppState, action: Action) -> (effects: Vec<GitEffect>)
    ensures
        code_content_step(*old(state), action, *final(state)),
        effects@.len() == 0,
{
    match action {
        Action::CloseOverlay | Action::Activate => {
            state.overlay = Overlay::Closed;
            state.search.clear();
        },
        Action::MoveUp => move_content_cursor(state, -1),
        Action::MoveDown => move_content_cursor(state, 1),
        Action::MoveTop => state.code_view.vertical = 0,
        Action::MoveBottom => state.code_view.vertical = last_line(state),
        Action::HalfPageUp => move_content_cursor(state, -10),
        Action::HalfPageDown => move_content_cursor(state, 10),
        Action::ScrollLeft => {
            state.code_view.horizontal = step_exec(state.code_view.horizontal, -4);
        },
        Action::ScrollRight => {
            state.code_view.horizontal = step_exec(state.code_view.horizontal, 4);
        },
        Action::StartSearch(direction) => state.search.begin(direction),
        Action::InsertSearch(character) => state.search.push(character),
        Action::DeleteSearch => state.search.pop(),
        Action::ConfirmSearch => confirm_search(state),
        Action::CancelSearch => state.search.cancel_input(),
        Action::NextMatch => {
            let direction = state.search.direction();
            let last = last_line(state);
            if let Some(line) = state.search.select_next(direction) {
                state.code_view.vertical = if line < last {
                    line
                } else {
                    last
                };
            }
        },
        Action::PreviousMatch => {
            let direction = state.search.direction().reversed();
            let last = last_line(state);
            if let Some(line) = state.search.select_next(direction) {
                state.code_view.vertical = if line < last {
                    line
                } else {
                    last
                };
            }
        },
        _ => {},
    }
    Vec::new()
}

/// `t` is `s` with the tree rebuilt from its root rows and the directories
/// leading to `path` expanded; when the selection changes, it selects the row
/// of `path`.
pub open spec fn revealed(s: AppState, t: AppState, path: Seq<u8>) -> bool {
    &&& t == (AppState {
        code_view: CodeViewState {
            visible: t.code_view.visible,
            selection: t.code_view.selection,
            ..s.code_view
        },
        ..s
    })
    &&& t.code_view.visible matches LoadState::Ready(v) && (t.code_view.selection.index
        != s.code_view.selection.index ==> (t.code_view.selection.index matches Some(i) && i
        < v@.len() && v@[i as int].path@ == path))
}

fn row_with_path(rows: &Vec<VisibleCodeEntry>, path: &RepoPath) -> (r: Option<usize>)
    ensures
        r matches Some(i) ==> i < rows@.len() && rows@[i as int].path@ == path@,
        r matches Some(i) ==> forall|j: int| 0 <= j < i ==> (#[trigger] rows@[j]).path@ != path@,
        r is None ==> forall|j: int| 0 <= j < rows@.len() ==> (#[trigger] rows@[j]).path@ != path@,
{
    let mut i: usize = 0;
    while i < rows.len()
        invariant
            i <= rows@.len(),
            forall|j: int| 0 <= j < i ==> (#[trigger] rows@[j]).path@ != path@,
        decreases rows@.len() - i,
    {
        if rows[i].path.same_as(path) {
            return Some(i);
        }
        i = i + 1;
    }
    None
}

/// Rebuilds the tree from its root rows and expands it down to `path`,
/// selecting `path`'s row.
fn reveal_path(state: &mut AppState, path: &RepoPath)
    ensures
        revealed(*old(state), *final(state), path@),
{
    let roots = direct_children(state.code_view.files.as_slice(), None, 0);
    state.code_view.visible = LoadState::Ready(roots);
    let bytes = path.as_bytes();
    let n = bytes.len();
    let mut end: usize = 0;
    while end < n
        invariant
            *state == (AppState {
                code_view: CodeViewState { visible: state.code_view.visible, ..old(state).code_view },
                ..*old(state)
            }),
            state.code_view.visible is Ready,
            end <= n,
            n == bytes@.len(),
            bytes@ == path@,
        decreases n - end,
    {
        end = crate::bytes::find_byte(bytes, 0x2f, end);
        let prefix = copy_range(bytes, 0, end);
        let component = match RepoPath::from_bytes(prefix) {
            Ok(p) => p,
            Err(_) => return ,
        };
        let index = match &state.code_view.visible {
            LoadState::Ready(rows) => row_with_path(rows, &component),
            _ => None,
        };
        let index = match index {
            Some(i) => i,
            None => return ,
        };
        if end == n {
            let len = match &state.code_view.visible {
                LoadState::Ready(rows) => rows.len(),
                _ => 0,
            };
            state.code_view.selection.reset_to(len, Some(index));
            proof {
                assert(component@ =~= path@);
            }
            return ;
        }
        expand(state, index);
        end = end + 1;
    }
}

/// The zero-based line of a one-based line number (the first line when absent).
pub open spec fn line_index(line: Option<u32>) -> usize {
    match line {
        Some(l) => if l > 0 {
            (l - 1) as usize
        } else {
            0
        },
        None => 0,
    }
}

/// `m` is `s` with `path` revealed in the tree, or remembered for when the
/// tree has loaded.
pub open spec fn reveal_stage(s: AppState, m: AppState, path: Seq<u8>) -> bool {
    if s.code_view.visible is Loading {
        m == (AppState {
            code_view: CodeViewState { pending_reveal: m.code_view.pending_reveal, ..s.code_view },
            ..s
        }) && (m.code_view.pending_reveal matches Some(p) && p@ == path)
    } else {
        revealed(s, m, path)
    }
}

/// `t` is `s` showing `path` in the code view at `line`: its row revealed
/// (once the tree has loaded), the document pane focused and the file
/// loading.
pub open spec fn revealed_and_loaded(
    s: AppState,
    t: AppState,
    path: Seq<u8>,
    line: Option<u32>,
    e: Seq<GitEffect>,
) -> bool {
    exists|m: AppState|
        #[trigger] reveal_stage(s, m, path) && code_file_opened(
            AppState { focus: FocusedPane::Diff, ..m },
            t,
            path,
            line_index(line),
            e,
        )
}

/// Shows `path` in the code view at the one-based `line`.
pub fn reveal_and_load(state: &mut AppState, path: RepoPath, line: Option<u32>) -> (effects: Vec<
    GitEffect,
>)
    ensures
        revealed_and_loaded(*old(state), *final(state), path@, line, effects@),
{
    let loading = match &state.code_view.visible {
        LoadState::Loading { .. } => true,
        _ => false,
    };
    if loading {
        state.code_view.pending_reveal = Some(path.duplicate());
    } else {
        reveal_path(state, &path);
    }
    let ghost m = *state;
    state.focus = FocusedPane::Diff;
    let index: usize = match line {
        Some(l) => if l > 0 {
            (l - 1) as usize
        } else {
            0
        },
        None => 0,
    };
    let effects = load_file(state, path, index);
    proof {
        assert(reveal_stage(*old(state), m, path@));
        assert(code_file_opened(AppState { focus: FocusedPane::Diff, ..m }, *state, path@, line_index(line), effects@));
    }
    effects
}

/// `t` is `s` showing `path` full screen at `position`: its row revealed
/// (once the tree has loaded), the document pane focused, the file loading
/// and the cursor placed.
pub open spec fn location_revealed(
    s: AppState,
    t: AppState,
    path: Seq<u8>,
    position: crate::domain::source::SourcePosition,
    e: Seq<GitEffect>,
) -> bool {
    &&& t.code_view.cursor_column == position.byte_column
    &&& exists|m: AppState|
        #[trigger] reveal_stage(s, m, path) && code_file_opened(
            AppState { focus: FocusedPane::Diff, overlay: Overlay::CodeContent, ..m },
            AppState { code_view: CodeViewState { cursor_column: 0, ..t.code_view }, ..t },
            path,
            position.line as usize,
            e,
        )
}

/// Shows `path` full screen with the cursor at `position`.
pub fn reveal_location(state: &mut AppState, path: RepoPath, position: crate::domain::source::SourcePosition) -> (effects: Vec<GitEffect>)
    ensures
        location_revealed(*old(state), *final(state), path@, position, effects@),
        final(state).diff_cache == old(state).diff_cache,
{
    let loading = match &state.code_view.visible {
        LoadState::Loading { .. } => true,
        _ => false,
    };
    if loading {
        state.code_view.pending_reveal = Some(path.duplicate());
    } else {
        reveal_path(state, &path);
    }
    let ghost m = *state;
    state.focus = FocusedPane::Diff;
    state.overlay = Overlay::CodeContent;
    let ghost p = path@;
    let effects = load_file(state, path, position.line as usize);
    let ghost t0 = *state;
    state.code_view.cursor_column = position.byte_column;
    proof {
        assert(reveal_stage(*old(state), m, p));
        assert(t0 == (AppState { code_view: CodeViewState { cursor_column: 0, ..state.code_view }, ..*state }));
    }
    effects
}

} // verus!
