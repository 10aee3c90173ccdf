//! Parsers for the stable, machine-oriented formats the Git commands request.
//!
//! NUL-delimited records preserve repository path bytes. Parsers for
//! structured output reject incomplete records rather than accepting data
//! truncated by the runner's resource limits.

use crate::bytes::{
    find_byte, find_from, lemma_find_from_range, lemma_find_suffix, copy_range, keep_non_empty, lossy_string, lossy_text, non_empty, split, split_bytes,
    strict_utf8, views,
};
use crate::domain::change::{change_label, ChangeKind, ChangedFile, WorktreeChange};
use crate::domain::commit::{valid_object_id, CommitSummary, ObjectId};
use crate::domain::diff::{DiffDocument, DiffLine, DiffLineKind, LineNumber};
use crate::text::{
    chars_of, lines_of, occurs_at, occurs_at_exec, parse_decimal_u32, parse_u32, starts_with,
    starts_with_exec, string_from_chars, text_lines,
};
use crate::unicode::{is_whitespace, whitespace};
use crate::domain::path::{valid_repo_path, RepoPath};
use crate::domain::search::SearchHit;
use crate::domain::tree::{TreeEntry, TreeKind};
use crate::git::runner::GitError;
use vstd::prelude::*;
use vstd::utf8::{decode_utf8, valid_utf8};

verus! {

/// Bytes that decode as UTF-8 to a full object identifier.
pub open spec fn oid_ok(bytes: Seq<u8>) -> bool {
    valid_utf8(bytes) && valid_object_id(decode_utf8(bytes))
}

/// Parses one object-identifier field of machine output.
pub fn parse_oid(bytes: &[u8], context: &'static str) -> (r: Result<ObjectId, GitError>)
    ensures
        r is Ok <==> oid_ok(bytes@),
        r matches Ok(id) ==> id@ == decode_utf8(bytes@),
        r matches Err(e) ==> e matches GitError::Parse { context: c, .. } && c == context,
{
    match strict_utf8(bytes) {
        None => Err(GitError::parse(context, "object ID is not ASCII".to_string())),
        Some(text) => match ObjectId::parse(text) {
            Ok(id) => Ok(id),
            Err(detail) => Err(GitError::parse(context, detail.to_string())),
        },
    }
}

// ---------------------------------------------------------------------------
// Commit log: groups of five NUL-terminated fields.

/// The NUL-separated log fields, without the empty field after a final NUL.
pub open spec fn log_fields(input: Seq<u8>) -> Seq<Seq<u8>> {
    let f = split(input, 0u8);
    if f.len() > 0 && f.last().len() == 0 {
        f.drop_last()
    } else {
        f
    }
}

/// The parent identifiers of a record: its space-separated non-empty words.
pub open spec fn parent_words(field: Seq<u8>) -> Seq<Seq<u8>> {
    non_empty(split(field, 0x20u8))
}

/// Every identifier in one five-field record is well formed.
pub open spec fn record_ok(fields: Seq<Seq<u8>>, c: int) -> bool {
    &&& oid_ok(fields[5 * c])
    &&& forall|w: int|
        0 <= w < parent_words(fields[5 * c + 1]).len() ==> oid_ok(
            #[trigger] parent_words(fields[5 * c + 1])[w],
        )
}

/// Commit-log output that parses: whole records with valid identifiers.
pub open spec fn log_ok(input: Seq<u8>) -> bool {
    let f = log_fields(input);
    f.len() % 5 == 0 && forall|c: int| 0 <= c < f.len() / 5 ==> #[trigger] record_ok(f, c)
}

/// A summary matches record `c` of the log fields.
pub open spec fn summary_matches(s: CommitSummary, fields: Seq<Seq<u8>>, c: int) -> bool {
    let words = parent_words(fields[5 * c + 1]);
    &&& s.id@ == decode_utf8(fields[5 * c])
    &&& s.parents@.len() == words.len()
    &&& forall|w: int| 0 <= w < words.len() ==> #[trigger] s.parents@[w]@ == decode_utf8(words[w])
    &&& s.author@ == lossy_text(fields[5 * c + 2])
    &&& s.authored_at@ == lossy_text(fields[5 * c + 3])
    &&& s.subject@ == lossy_text(fields[5 * c + 4])
}

fn parse_parents(field: &[u8]) -> (r: Result<Vec<ObjectId>, GitError>)
    ensures
        r is Ok <==> forall|w: int|
            0 <= w < parent_words(field@).len() ==> oid_ok(#[trigger] parent_words(field@)[w]),
        r matches Ok(ids) ==> ids@.len() == parent_words(field@).len() && forall|w: int|
            0 <= w < ids@.len() ==> #[trigger] ids@[w]@ == decode_utf8(parent_words(field@)[w]),
        r matches Err(e) ==> e matches GitError::Parse { context: c, .. } && c@ == "commit log"@,
{
    let words = keep_non_empty(split_bytes(field, 0x20));
    let ghost ws = parent_words(field@);
    let mut ids: Vec<ObjectId> = Vec::new();
    let mut i: usize = 0;
    while i < words.len()
        invariant
            views(words@) == ws,
            ws == parent_words(field@),
            i <= words@.len(),
            ids@.len() == i,
            forall|w: int| 0 <= w < i ==> oid_ok(#[trigger] ws[w]),
            forall|w: int| 0 <= w < i ==> #[trigger] ids@[w]@ == decode_utf8(ws[w]),
        decreases words@.len() - i,
    {
        assert(ws[i as int] == words@[i as int]@);
        let id = parse_oid(words[i].as_slice(), "commit log")?;
        ids.push(id);
        i = i + 1;
    }
    Ok(ids)
}

/// Parses `git log -z` output in the five-field summary format.
pub fn parse_commits(input: &[u8]) -> (r: Result<Vec<CommitSummary>, GitError>)
    ensures
        r is Ok <==> log_ok(input@),
        r matches Ok(v) ==> v@.len() == log_fields(input@).len() / 5 && forall|c: int|
            0 <= c < v@.len() ==> #[trigger] summary_matches(v@[c], log_fields(input@), c),
        r matches Err(e) ==> e matches GitError::Parse { context: c, .. } && c@ == "commit log"@,
{
    let mut fields = split_bytes(input, 0);
    let ghost all = views(fields@);
    if fields.len() > 0 && fields[fields.len() - 1].len() == 0 {
        fields.pop();
        assert(views(fields@) =~= all.drop_last());
    }
    let ghost f = log_fields(input@);
    assert(views(fields@) == f);
    let n = fields.len();
    if n == 0 {
        return Ok(Vec::new());
    }
    if n % 5 != 0 {
        return Err(GitError::parse("commit log", "expected groups of 5 fields".to_string()));
    }
    let mut commits: Vec<CommitSummary> = Vec::new();
    let mut c: usize = 0;
    while c < n / 5
        invariant
            n == fields@.len(),
            n % 5 == 0,
            views(fields@) == f,
            f == log_fields(input@),
            c <= n / 5,
            commits@.len() == c,
            forall|k: int| 0 <= k < c ==> #[trigger] record_ok(f, k),
            forall|k: int| 0 <= k < c ==> #[trigger] summary_matches(commits@[k], f, k),
        decreases n / 5 - c,
    {
        let base = 5 * c;
        assert(f[base as int] == fields@[base as int]@);
        assert(f[base + 1] == fields@[base + 1]@);
        assert(f[base + 2] == fields@[base + 2]@);
        assert(f[base + 3] == fields@[base + 3]@);
        assert(f[base + 4] == fields@[base + 4]@);
        let id = match parse_oid(fields[base].as_slice(), "commit log") {
            Ok(id) => id,
            Err(e) => {
                assert(!record_ok(f, c as int));
                return Err(e);
            },
        };
        let parents = match parse_parents(fields[base + 1].as_slice()) {
            Ok(p) => p,
            Err(e) => {
                assert(!record_ok(f, c as int));
                return Err(e);
            },
        };
        let author = lossy_string(fields[base + 2].as_slice());
        let authored_at = lossy_string(fields[base + 3].as_slice());
        let subject = lossy_string(fields[base + 4].as_slice());
        let summary = CommitSummary::new(id, parents, author, authored_at, subject);
        assert(record_ok(f, c as int));
        let ghost prev = commits@;
        commits.push(summary);
        proof {
            assert forall|k: int| 0 <= k < c + 1 implies #[trigger] summary_matches(
                commits@[k],
                f,
                k,
            ) by {
                if k < c {
                    assert(commits@[k] == prev[k]);
                }
            }
        }
        c = c + 1;
    }
    Ok(commits)
}

// ---------------------------------------------------------------------------
// Repository file listings.

/// The non-empty NUL-separated tokens of `input`.
pub open spec fn tokens(input: Seq<u8>) -> Seq<Seq<u8>> {
    non_empty(split(input, 0u8))
}

/// Parses `git ls-files -z` output into file hits.
pub fn parse_file_paths(input: &[u8]) -> (r: Result<Vec<SearchHit>, GitError>)
    ensures
        r is Ok <==> forall|i: int|
            0 <= i < tokens(input@).len() ==> valid_repo_path(#[trigger] tokens(input@)[i]),
        r matches Ok(v) ==> v@.len() == tokens(input@).len() && forall|i: int|
            0 <= i < v@.len() ==> #[trigger] v@[i].path@ == tokens(input@)[i] && v@[i].line is None,
        r matches Err(e) ==> e matches GitError::Parse { context: c, .. } && c@
            == "repository file list"@,
{
    let toks = keep_non_empty(split_bytes(input, 0));
    let ghost ts = tokens(input@);
    let mut hits: Vec<SearchHit> = Vec::new();
    let mut i: usize = 0;
    while i < toks.len()
        invariant
            views(toks@) == ts,
            ts == tokens(input@),
            i <= toks@.len(),
            hits@.len() == i,
            forall|k: int| 0 <= k < i ==> valid_repo_path(#[trigger] ts[k]),
            forall|k: int| 0 <= k < i ==> #[trigger] hits@[k].path@ == ts[k] && hits@[k].line is None,
        decreases toks@.len() - i,
    {
        assert(ts[i as int] == toks@[i as int]@);
        let bytes = copy_range(toks[i].as_slice(), 0, toks[i].len());
        assert(bytes@ =~= ts[i as int]);
        match RepoPath::from_bytes(bytes) {
            Ok(path) => hits.push(SearchHit::file(path)),
            Err(detail) => {
                return Err(GitError::parse("repository file list", detail.to_string()));
            },
        }
        i = i + 1;
    }
    assert(views(toks@).len() == toks@.len());
    assert(hits@.len() == ts.len());
    Ok(hits)
}

// ---------------------------------------------------------------------------
// Committed-file name-status records.

/// The change kind named by a name-status code.
pub open spec fn status_code_kind(code: u8) -> Option<ChangeKind> {
    if code == 0x4du8 {
        Some(ChangeKind::Modified)
    } else if code == 0x41u8 {
        Some(ChangeKind::Added)
    } else if code == 0x44u8 {
        Some(ChangeKind::Deleted)
    } else if code == 0x52u8 {
        Some(ChangeKind::Renamed)
    } else if code == 0x43u8 {
        Some(ChangeKind::Copied)
    } else if code == 0x54u8 {
        Some(ChangeKind::TypeChanged)
    } else if code == 0x55u8 {
        Some(ChangeKind::Unmerged)
    } else {
        None
    }
}

/// The kind read from a status code letter is the one whose label is that
/// letter: `A` is an addition, `D` a deletion, `M` a modification, and so on.
pub proof fn lemma_status_code_label(code: u8)
    ensures
        status_code_kind(code) matches Some(k) ==> change_label(k).len() == 1
            && change_label(k)[0] as u32 == code as u32,
{
    reveal_strlit("M");
    reveal_strlit("A");
    reveal_strlit("D");
    reveal_strlit("R");
    reveal_strlit("C");
    reveal_strlit("T");
    reveal_strlit("U");
}

/// Classifies a status code letter.
pub fn kind_from_status(code: u8, context: &'static str) -> (r: Result<ChangeKind, GitError>)
    ensures
        status_code_kind(code) matches Some(k) ==> r == Ok::<ChangeKind, GitError>(k),
        status_code_kind(code) is None ==> (r matches Err(GitError::Parse { context: c, .. })
            && c == context),
        r matches Ok(k) ==> change_label(k).len() == 1 && change_label(k)[0] as u32 == code as u32,
{
    proof {
        lemma_status_code_label(code);
    }
    if code == 0x4d {
        Ok(ChangeKind::Modified)
    } else if code == 0x41 {
        Ok(ChangeKind::Added)
    } else if code == 0x44 {
        Ok(ChangeKind::Deleted)
    } else if code == 0x52 {
        Ok(ChangeKind::Renamed)
    } else if code == 0x43 {
        Ok(ChangeKind::Copied)
    } else if code == 0x54 {
        Ok(ChangeKind::TypeChanged)
    } else if code == 0x55 {
        Ok(ChangeKind::Unmerged)
    } else {
        Err(GitError::parse(context, "unknown status code".to_string()))
    }
}

/// One change as plain values: destination path, optional source, kind.
pub type ChangeView = (Seq<u8>, Option<Seq<u8>>, ChangeKind);

pub open spec fn changed_file_view(f: ChangedFile) -> ChangeView {
    (
        f.path@,
        match f.original_path {
            Some(p) => Some(p@),
            None => None,
        },
        f.kind,
    )
}

/// The name-status grammar from token `i`: a status token, then one path, or
/// a source and a destination path for renames and copies.
pub open spec fn changed_from(toks: Seq<Seq<u8>>, i: int) -> Option<Seq<ChangeView>>
    decreases toks.len() - i,
{
    if i < 0 || i >= toks.len() {
        Some(Seq::empty())
    } else {
        match status_code_kind(toks[i][0]) {
            None => None,
            Some(kind) => if kind == ChangeKind::Renamed || kind == ChangeKind::Copied {
                if i + 2 < toks.len() && valid_repo_path(toks[i + 1]) && valid_repo_path(
                    toks[i + 2],
                ) {
                    match changed_from(toks, i + 3) {
                        Some(rest) => Some(seq![(toks[i + 2], Some(toks[i + 1]), kind)] + rest),
                        None => None,
                    }
                } else {
                    None
                }
            } else {
                if i + 1 < toks.len() && valid_repo_path(toks[i + 1]) {
                    match changed_from(toks, i + 2) {
                        Some(rest) => Some(seq![(toks[i + 1], None, kind)] + rest),
                        None => None,
                    }
                } else {
                    None
                }
            },
        }
    }
}

fn next_path(toks: &Vec<Vec<u8>>, index: usize, context: &'static str) -> (r: Result<
    RepoPath,
    GitError,
>)
    ensures
        r is Ok <==> index < toks@.len() && valid_repo_path(toks@[index as int]@),
        r matches Ok(p) ==> p@ == toks@[index as int]@,
        r matches Err(e) ==> e matches GitError::Parse { context: c, .. } && c == context,
{
    if index >= toks.len() {
        return Err(GitError::parse(context, "status has no path".to_string()));
    }
    let bytes = copy_range(toks[index].as_slice(), 0, toks[index].len());
    assert(bytes@ =~= toks@[index as int]@);
    match RepoPath::from_bytes(bytes) {
        Ok(p) => Ok(p),
        Err(detail) => Err(GitError::parse(context, detail.to_string())),
    }
}

/// Parses `--name-status -z` output for a commit comparison.
pub fn parse_changed_files(input: &[u8]) -> (r: Result<Vec<ChangedFile>, GitError>)
    ensures
        r is Ok <==> changed_from(tokens(input@), 0) is Some,
        r matches Ok(v) ==> v@.map_values(|f: ChangedFile| changed_file_view(f)) == changed_from(
            tokens(input@),
            0,
        )->0,
        r matches Err(e) ==> e matches GitError::Parse { context: c, .. } && c@
            == "changed files"@,
{
    let toks = keep_non_empty(split_bytes(input, 0));
    let ghost ts = tokens(input@);
    proof {
        crate::bytes::lemma_non_empty_elems(split(input@, 0u8));
    }
    let mut files: Vec<ChangedFile> = Vec::new();
    let mut index: usize = 0;
    while index < toks.len()
        invariant
            views(toks@) == ts,
            ts == tokens(input@),
            index <= toks@.len(),
            forall|k: int| 0 <= k < ts.len() ==> #[trigger] ts[k].len() > 0,
            changed_from(ts, 0) is Some <==> changed_from(ts, index as int) is Some,
            changed_from(ts, 0) is Some ==> changed_from(ts, 0)->0 == files@.map_values(
                |f: ChangedFile| changed_file_view(f),
            ) + changed_from(ts, index as int)->0,
        decreases toks@.len() - index,
    {
        assert(ts[index as int] == toks@[index as int]@);
        let code = toks[index][0];
        let kind = kind_from_status(code, "changed files")?;
        let ghost before = files@.map_values(|f: ChangedFile| changed_file_view(f));
        if kind == ChangeKind::Renamed || kind == ChangeKind::Copied {
            let original = next_path(&toks, index + 1, "changed files")?;
            let path = next_path(&toks, index + 2, "changed files")?;
            files.push(ChangedFile::new(path, Some(original), kind));
            proof {
                assert(files@.map_values(|f: ChangedFile| changed_file_view(f)) =~= before.push(
                    (ts[index + 2], Some(ts[index + 1]), kind),
                ));
            }
            index = index + 3;
        } else {
            let path = next_path(&toks, index + 1, "changed files")?;
            files.push(ChangedFile::new(path, None, kind));
            proof {
                assert(files@.map_values(|f: ChangedFile| changed_file_view(f)) =~= before.push(
                    (ts[index + 1], None, kind),
                ));
            }
            index = index + 2;
        }
    }
    Ok(files)
}

// ---------------------------------------------------------------------------
// Worktree status in porcelain v2 format.

/// The text after the `k`-th space of a record, when it has that many spaces.
pub open spec fn after_spaces(r: Seq<u8>, k: nat) -> Option<Seq<u8>>
    decreases k,
{
    if k == 0 {
        Some(r)
    } else {
        let j = find_from(r, 0x20u8, 0);
        if j >= r.len() || j < 0 {
            None
        } else {
            after_spaces(r.subrange(j + 1, r.len() as int), (k - 1) as nat)
        }
    }
}

/// A status path field: present, non-empty, and a valid repository path.
pub open spec fn status_path(r: Seq<u8>, k: nat) -> Option<Seq<u8>> {
    match after_spaces(r, k) {
        Some(p) => if p.len() > 0 && valid_repo_path(p) {
            Some(p)
        } else {
            None
        },
        None => None,
    }
}

/// The porcelain-v2 grammar from record `i`: ordinary (`1`), rename or copy
/// (`2`, followed by its source record), unmerged (`u`), untracked (`? `), and
/// ignored (`!`) entries; entries without a worktree change are skipped.
pub open spec fn status_from(recs: Seq<Seq<u8>>, i: int) -> Option<Seq<ChangeView>>
    decreases recs.len() + 1 - i,
{
    if i < 0 || i >= recs.len() {
        Some(Seq::empty())
    } else {
        let r = recs[i];
        if r.len() == 0 {
            status_from(recs, i + 1)
        } else if r[0] == 0x31u8 {
            if r.len() < 4 {
                None
            } else if r[3] == 0x2eu8 {
                status_from(recs, i + 1)
            } else {
                match (status_path(r, 8), status_code_kind(r[3])) {
                    (Some(p), Some(kind)) => match status_from(recs, i + 1) {
                        Some(rest) => Some(seq![(p, None, kind)] + rest),
                        None => None,
                    },
                    _ => None,
                }
            }
        } else if r[0] == 0x32u8 {
            if r.len() < 4 {
                None
            } else if r[3] == 0x2eu8 {
                status_from(recs, i + 2)
            } else if i + 1 < recs.len() && valid_repo_path(recs[i + 1]) {
                match (status_path(r, 9), status_code_kind(r[3])) {
                    (Some(p), Some(kind)) => match status_from(recs, i + 2) {
                        Some(rest) => Some(seq![(p, Some(recs[i + 1]), kind)] + rest),
                        None => None,
                    },
                    _ => None,
                }
            } else {
                None
            }
        } else if r[0] == 0x75u8 {
            match status_path(r, 10) {
                Some(p) => match status_from(recs, i + 1) {
                    Some(rest) => Some(seq![(p, None, ChangeKind::Unmerged)] + rest),
                    None => None,
                },
                None => None,
            }
        } else if r[0] == 0x3fu8 && r.len() > 1 && r[1] == 0x20u8 {
            let p = r.subrange(2, r.len() as int);
            if valid_repo_path(p) {
                match status_from(recs, i + 1) {
                    Some(rest) => Some(seq![(p, None, ChangeKind::Untracked)] + rest),
                    None => None,
                }
            } else {
                None
            }
        } else if r[0] == 0x21u8 {
            status_from(recs, i + 1)
        } else {
            None
        }
    }
}

/// Staged-only entries are hidden: an ordinary or rename/copy record whose
/// worktree status is `.` adds no change, and a change's kind is always read
/// from the worktree status.
pub proof fn lemma_staged_only_hidden(recs: Seq<Seq<u8>>, i: int)
    requires
        0 <= i < recs.len(),
        recs[i].len() >= 4,
    ensures
        recs[i][0] == 0x31u8 && recs[i][3] == 0x2eu8 ==> status_from(recs, i) == status_from(
            recs,
            i + 1,
        ),
        recs[i][0] == 0x32u8 && recs[i][3] == 0x2eu8 ==> status_from(recs, i) == status_from(
            recs,
            i + 2,
        ),
        (recs[i][0] == 0x31u8 || recs[i][0] == 0x32u8) && recs[i][3] != 0x2eu8 ==> (status_from(
            recs,
            i,
        ) matches Some(out) ==> out.len() > 0 && Some(out[0].2) == status_code_kind(recs[i][3])),
{
}

pub open spec fn worktree_change_view(c: WorktreeChange) -> ChangeView {
    (
        c.path@,
        match c.original_path {
            Some(p) => Some(p@),
            None => None,
        },
        c.kind,
    )
}

/// Returns the text after the `k`-th space of a record.
fn field_after_spaces(r: &[u8], k: usize) -> (f: Option<Vec<u8>>)
    ensures
        after_spaces(r@, k as nat) matches Some(p) ==> (f matches Some(v) && v@ == p),
        after_spaces(r@, k as nat) is None ==> f is None,
{
    let n = r.len();
    let mut start: usize = 0;
    let mut remaining = k;
    assert(r@.subrange(0, n as int) =~= r@);
    while remaining > 0
        invariant
            n == r@.len(),
            start <= n,
            remaining <= k,
            after_spaces(r@, k as nat) == after_spaces(
                r@.subrange(start as int, n as int),
                remaining as nat,
            ),
        decreases remaining,
    {
        let j = find_byte(r, 0x20, start);
        proof {
            lemma_find_suffix(r@, 0x20u8, start as int);
            let sub = r@.subrange(start as int, n as int);
            if j < n {
                assert(sub.subrange(j - start + 1, sub.len() as int) =~= r@.subrange(
                    j + 1,
                    n as int,
                ));
            }
        }
        if j >= n {
            return None;
        }
        start = j + 1;
        remaining = remaining - 1;
    }
    Some(copy_range(r, start, n))
}

/// A present, non-empty, valid status path after `k` spaces.
fn status_path_exec(r: &[u8], k: usize) -> (p: Result<RepoPath, GitError>)
    ensures
        status_path(r@, k as nat) matches Some(q) ==> (p matches Ok(path) && path@ == q),
        status_path(r@, k as nat) is None ==> (p matches Err(GitError::Parse { context: c, .. })
            && c@ == "status"@),
{
    match field_after_spaces(r, k) {
        None => Err(GitError::parse("status", "missing status path".to_string())),
        Some(bytes) => {
            if bytes.len() == 0 {
                return Err(GitError::parse("status", "missing status path".to_string()));
            }
            match RepoPath::from_bytes(bytes) {
                Ok(path) => Ok(path),
                Err(detail) => Err(GitError::parse("status", detail.to_string())),
            }
        },
    }
}

/// Parses `git status --porcelain=v2 -z` output into unstaged worktree changes.
///
/// Staged-only entries (worktree status `.`) are left out.
pub fn parse_status(input: &[u8]) -> (r: Result<Vec<WorktreeChange>, GitError>)
    ensures
        r is Ok <==> status_from(split(input@, 0u8), 0) is Some,
        r matches Ok(v) ==> v@.map_values(|c: WorktreeChange| worktree_change_view(c))
            == status_from(split(input@, 0u8), 0)->0,
        r matches Err(e) ==> (e matches GitError::Parse { context: c, .. } && c@ == "status"@),
{
    let records = split_bytes(input, 0);
    let ghost recs = split(input@, 0u8);
    let n = records.len();
    let mut changes: Vec<WorktreeChange> = Vec::new();
    let mut index: usize = 0;
    while index < n
        invariant
            n == records@.len(),
            views(records@) == recs,
            recs == split(input@, 0u8),
            index <= n + 1,
            status_from(recs, 0) is Some <==> status_from(recs, index as int) is Some,
            status_from(recs, 0) is Some ==> status_from(recs, 0)->0 == changes@.map_values(
                |c: WorktreeChange| worktree_change_view(c),
            ) + status_from(recs, index as int)->0,
        decreases n + 1 - index,
    {
        let i = index;
        let record = records[i].as_slice();
        assert(record@ == recs[i as int]);
        let ghost before = changes@.map_values(|c: WorktreeChange| worktree_change_view(c));
        index = index + 1;
        if record.len() == 0 {
            continue;
        }
        let tag = record[0];
        if tag == 0x31 {
            if record.len() < 4 {
                return Err(GitError::parse("status", "record does not contain XY status".to_string()));
            }
            if record[3] == 0x2e {
                continue;
            }
            let path = status_path_exec(record, 8)?;
            let kind = kind_from_status(record[3], "status")?;
            changes.push(WorktreeChange::new(path, None, kind));
            proof {
                assert(changes@.map_values(|c: WorktreeChange| worktree_change_view(c)) =~= before.push(
                    (status_path(recs[i as int], 8)->0, None, kind),
                ));
            }
        } else if tag == 0x32 {
            if record.len() < 4 {
                return Err(GitError::parse("status", "record does not contain XY status".to_string()));
            }
            if record[3] == 0x2e {
                if index < n {
                    index = index + 1;
                }
                proof {
                    if i + 2 > n {
                        assert(status_from(recs, i + 2) == Some(Seq::<ChangeView>::empty()));
                    }
                }
                continue;
            }
            let path = status_path_exec(record, 9)?;
            if index >= n {
                return Err(GitError::parse("status", "rename record has no original path".to_string()));
            }
            let original_bytes = copy_range(records[index].as_slice(), 0, records[index].len());
            assert(original_bytes@ =~= recs[index as int]);
            let original = match RepoPath::from_bytes(original_bytes) {
                Ok(p) => p,
                Err(detail) => {
                    return Err(GitError::parse("status", detail.to_string()));
                },
            };
            index = index + 1;
            let kind = kind_from_status(record[3], "status")?;
            changes.push(WorktreeChange::new(path, Some(original), kind));
            proof {
                assert(changes@.map_values(|c: WorktreeChange| worktree_change_view(c)) =~= before.push(
                    (status_path(recs[i as int], 9)->0, Some(recs[i + 1]), kind),
                ));
            }
        } else if tag == 0x75 {
            let path = status_path_exec(record, 10)?;
            changes.push(WorktreeChange::new(path, None, ChangeKind::Unmerged));
            proof {
                assert(changes@.map_values(|c: WorktreeChange| worktree_change_view(c)) =~= before.push(
                    (status_path(recs[i as int], 10)->0, None, ChangeKind::Unmerged),
                ));
            }
        } else if tag == 0x3f && record.len() > 1 && record[1] == 0x20 {
            let bytes = copy_range(record, 2, record.len());
            let path = match RepoPath::from_bytes(bytes) {
                Ok(p) => p,
                Err(detail) => {
                    return Err(GitError::parse("status", detail.to_string()));
                },
            };
            changes.push(WorktreeChange::new(path, None, ChangeKind::Untracked));
            proof {
                assert(changes@.map_values(|c: WorktreeChange| worktree_change_view(c)) =~= before.push(
                    (recs[i as int].subrange(2, recs[i as int].len() as int), None, ChangeKind::Untracked),
                ));
            }
        } else if tag == 0x21 {
        } else {
            return Err(GitError::parse("status", "unknown porcelain v2 record type".to_string()));
        }
    }
    Ok(changes)
}

// ---------------------------------------------------------------------------
// Content-search matches: `path NUL line NUL text LF` records.

/// One content hit as plain values: path, line number, preview.
pub type HitView = (Seq<u8>, u32, Seq<char>);

pub open spec fn content_hit_view(h: SearchHit) -> HitView {
    (h.path@, match h.line {
        Some(l) => l,
        None => 0,
    }, h.preview@)
}

/// The records of `git grep -z -n` output, or `None` when one is incomplete
/// or malformed.
pub open spec fn grep_records(s: Seq<u8>) -> Option<Seq<HitView>>
    decreases s.len(),
{
    if s.len() == 0 {
        Some(Seq::empty())
    } else {
        let p = find_from(s, 0u8, 0);
        if p >= s.len() || p < 0 || !valid_repo_path(s.subrange(0, p)) {
            None
        } else {
            let s1 = s.subrange(p + 1, s.len() as int);
            let q = find_from(s1, 0u8, 0);
            if q >= s1.len() || q < 0 {
                None
            } else {
                let num = s1.subrange(0, q);
                if !valid_utf8(num) {
                    None
                } else {
                    match crate::text::parse_u32(decode_utf8(num)) {
                        None => None,
                        Some(line) => {
                            let s2 = s1.subrange(q + 1, s1.len() as int);
                            let e = find_from(s2, 0x0au8, 0);
                            if e < 0 || e > s2.len() {
                                None
                            } else {
                                let rest = if e >= s2.len() {
                                    Seq::empty()
                                } else {
                                    s2.subrange(e + 1, s2.len() as int)
                                };
                                match grep_records(rest) {
                                    Some(tail) => Some(
                                        seq![(s.subrange(0, p), line, lossy_text(s2.subrange(0, e)))]
                                            + tail,
                                    ),
                                    None => None,
                                }
                            }
                        },
                    }
                }
            }
        }
    }
}

/// Parses `git grep -z -n` output into content hits.
pub fn parse_grep_matches(input: &[u8]) -> (r: Result<Vec<SearchHit>, GitError>)
    ensures
        r is Ok <==> grep_records(input@) is Some,
        r matches Ok(v) ==> v@.map_values(|h: SearchHit| content_hit_view(h)) == grep_records(
            input@,
        )->0,
        r matches Ok(v) ==> forall|i: int| 0 <= i < v@.len() ==> (#[trigger] v@[i]).line is Some,
{
    let n = input.len();
    let mut pos: usize = 0;
    let mut matches: Vec<SearchHit> = Vec::new();
    assert(input@.subrange(0, n as int) =~= input@);
    while pos < n
        invariant
            n == input@.len(),
            pos <= n,
            grep_records(input@) is Some <==> grep_records(input@.subrange(pos as int, n as int)) is Some,
            grep_records(input@) is Some ==> grep_records(input@)->0 == matches@.map_values(
                |h: SearchHit| content_hit_view(h),
            ) + grep_records(input@.subrange(pos as int, n as int))->0,
            forall|i: int| 0 <= i < matches@.len() ==> (#[trigger] matches@[i]).line is Some,
        decreases n - pos,
    {
        let ghost s = input@.subrange(pos as int, n as int);
        let path_end = find_byte(input, 0, pos);
        proof {
            lemma_find_suffix(input@, 0u8, pos as int);
        }
        if path_end >= n {
            return Err(GitError::parse("content search", "result is missing the path separator".to_string()));
        }
        let path_bytes = copy_range(input, pos, path_end);
        assert(path_bytes@ =~= s.subrange(0, path_end - pos));
        let path = match RepoPath::from_bytes(path_bytes) {
            Ok(p) => p,
            Err(detail) => {
                return Err(GitError::parse("content search path", detail.to_string()));
            },
        };
        let ghost s1 = s.subrange(path_end - pos + 1, s.len() as int);
        assert(s1 =~= input@.subrange(path_end + 1, n as int));
        let line_start = path_end + 1;
        let line_end = find_byte(input, 0, line_start);
        proof {
            lemma_find_suffix(input@, 0u8, line_start as int);
        }
        if line_end >= n {
            return Err(GitError::parse("content search", "result is missing the line-number separator".to_string()));
        }
        let num_bytes = copy_range(input, line_start, line_end);
        assert(num_bytes@ =~= s1.subrange(0, line_end - line_start));
        let line = match strict_utf8(num_bytes.as_slice()) {
            None => {
                return Err(GitError::parse("content search", "line number is not ASCII".to_string()));
            },
            Some(text) => {
                let chars = crate::text::chars_of(text.as_str());
                match crate::text::parse_decimal_u32(&chars) {
                    Some(v) => v,
                    None => {
                        return Err(GitError::parse("content search", "line number is invalid".to_string()));
                    },
                }
            },
        };
        let ghost s2 = s1.subrange(line_end - line_start + 1, s1.len() as int);
        assert(s2 =~= input@.subrange(line_end + 1, n as int));
        let preview_start = line_end + 1;
        let preview_end = find_byte(input, 0x0a, preview_start);
        proof {
            lemma_find_suffix(input@, 0x0au8, preview_start as int);
        }
        let preview_bytes = copy_range(input, preview_start, preview_end);
        assert(preview_bytes@ =~= s2.subrange(0, preview_end - preview_start));
        let preview = lossy_string(preview_bytes.as_slice());
        let ghost before = matches@.map_values(|h: SearchHit| content_hit_view(h));
        matches.push(SearchHit::content(path, line, preview));
        assert(matches@.map_values(|h: SearchHit| content_hit_view(h)) =~= before.push(
            (s.subrange(0, path_end - pos), line, lossy_text(s2.subrange(0, preview_end - preview_start))),
        ));
        if preview_end == n {
            pos = n;
            assert(input@.subrange(n as int, n as int) =~= Seq::<u8>::empty());
        } else {
            pos = preview_end + 1;
            assert(s2.subrange(preview_end - preview_start + 1, s2.len() as int) =~= input@.subrange(
                pos as int,
                n as int,
            ));
        }
    }
    Ok(matches)
}

// ---------------------------------------------------------------------------
// Direct tree entries: `mode SP type SP id TAB name` records.

/// The entry role named by an object type and mode, when supported.
pub open spec fn tree_kind_of(object_type: Seq<u8>, mode: Seq<u8>) -> Option<TreeKind> {
    if object_type == seq![0x74u8, 0x72u8, 0x65u8, 0x65u8] {
        Some(TreeKind::Directory)
    } else if object_type == seq![0x63u8, 0x6fu8, 0x6du8, 0x6du8, 0x69u8, 0x74u8] {
        Some(TreeKind::Submodule)
    } else if object_type == seq![0x62u8, 0x6cu8, 0x6fu8, 0x62u8] {
        if mode == seq![0x31u8, 0x32u8, 0x30u8, 0x30u8, 0x30u8, 0x30u8] {
            Some(TreeKind::Symlink)
        } else {
            Some(TreeKind::File)
        }
    } else {
        None
    }
}

/// One tree entry as plain values: object id, mode, kind, name.
pub type EntryView = (Seq<char>, Seq<char>, TreeKind, Seq<u8>);

pub open spec fn tree_entry_view(e: TreeEntry) -> EntryView {
    (e.object_id@, e.mode@, e.kind, e.name@)
}

/// The parse of one `ls-tree` record, or `None` when it is malformed.
pub open spec fn tree_record(r: Seq<u8>) -> Option<EntryView> {
    let tab = find_from(r, 0x09u8, 0);
    if tab >= r.len() || tab < 0 {
        None
    } else {
        let meta = r.subrange(0, tab);
        let fields = split(meta, 0x20u8);
        let name = r.subrange(tab + 1, r.len() as int);
        if !valid_utf8(meta) || fields.len() != 3 || !oid_ok(fields[2]) || !valid_repo_path(name) {
            None
        } else {
            match tree_kind_of(fields[1], fields[0]) {
                Some(kind) => Some((decode_utf8(fields[2]), lossy_text(fields[0]), kind, name)),
                None => None,
            }
        }
    }
}

/// The object type field of an `ls-tree` record: the second space-separated
/// word before the tab.
pub open spec fn record_object_type(r: Seq<u8>) -> Seq<u8> {
    split(r.subrange(0, find_from(r, 0x09u8, 0)), 0x20u8)[1]
}

/// An `ls-tree` record whose object type is `tree` is read as a directory,
/// and a directory entry comes only from such a record.
pub proof fn lemma_tree_records_are_directories(r: Seq<u8>)
    ensures
        tree_record(r) matches Some(e) ==> (e.2 == TreeKind::Directory <==> record_object_type(r)
            == seq![0x74u8, 0x72u8, 0x65u8, 0x65u8]),
{
}

fn bytes_are(v: &Vec<u8>, expected: &Vec<u8>) -> (b: bool)
    ensures
        b == (v@ == expected@),
{
    crate::bytes::bytes_equal(v.as_slice(), expected.as_slice())
}

/// Parses one `ls-tree` record.
fn parse_entry(record: &[u8]) -> (r: Result<TreeEntry, GitError>)
    ensures
        tree_record(record@) matches Some(e) ==> (r matches Ok(t) && tree_entry_view(t) == e),
        tree_record(record@) is None ==> (r matches Err(GitError::Parse { context: c, .. })
            && c@ == "tree"@),
{
    let tab = find_byte(record, 0x09, 0);
    if tab >= record.len() {
        return Err(GitError::parse("tree", "entry has no path separator".to_string()));
    }
    let meta = copy_range(record, 0, tab);
    if strict_utf8(meta.as_slice()).is_none() {
        return Err(GitError::parse("tree", "entry metadata is not ASCII".to_string()));
    }
    let fields = split_bytes(meta.as_slice(), 0x20);
    assert(views(fields@).len() == fields@.len());
    if fields.len() < 3 {
        return Err(GitError::parse("tree", "entry is missing metadata".to_string()));
    }
    if fields.len() > 3 {
        return Err(GitError::parse("tree", "entry has extra metadata".to_string()));
    }
    assert(views(fields@)[0] == fields@[0]@);
    assert(views(fields@)[1] == fields@[1]@);
    assert(views(fields@)[2] == fields@[2]@);
    let tree_word: Vec<u8> = vec![0x74u8, 0x72u8, 0x65u8, 0x65u8];
    let commit_word: Vec<u8> = vec![0x63u8, 0x6fu8, 0x6du8, 0x6du8, 0x69u8, 0x74u8];
    let blob_word: Vec<u8> = vec![0x62u8, 0x6cu8, 0x6fu8, 0x62u8];
    let symlink_mode: Vec<u8> = vec![0x31u8, 0x32u8, 0x30u8, 0x30u8, 0x30u8, 0x30u8];
    let kind = if bytes_are(&fields[1], &tree_word) {
        TreeKind::Directory
    } else if bytes_are(&fields[1], &commit_word) {
        TreeKind::Submodule
    } else if bytes_are(&fields[1], &blob_word) {
        if bytes_are(&fields[0], &symlink_mode) {
            TreeKind::Symlink
        } else {
            TreeKind::File
        }
    } else {
        return Err(GitError::parse("tree", "unsupported object type".to_string()));
    };
    let object_id = parse_oid(fields[2].as_slice(), "tree")?;
    let mode = lossy_string(fields[0].as_slice());
    let name_bytes = copy_range(record, tab + 1, record.len());
    let name = match RepoPath::from_bytes(name_bytes) {
        Ok(p) => p,
        Err(detail) => {
            return Err(GitError::parse("tree", detail.to_string()));
        },
    };
    Ok(TreeEntry::new(object_id, mode, kind, name))
}

/// Parses `git ls-tree -z` output into direct tree entries.
pub fn parse_tree_entries(input: &[u8]) -> (r: Result<Vec<TreeEntry>, GitError>)
    ensures
        r is Ok <==> forall|i: int|
            0 <= i < tokens(input@).len() ==> (#[trigger] tree_record(tokens(input@)[i])) is Some,
        r matches Ok(v) ==> v@.len() == tokens(input@).len() && forall|i: int|
            0 <= i < v@.len() ==> tree_record(tokens(input@)[i]) == Some(
                tree_entry_view(#[trigger] v@[i]),
            ),
        r matches Err(e) ==> (e matches GitError::Parse { context: c, .. } && c@ == "tree"@),
        r matches Ok(v) ==> forall|i: int|
            0 <= i < v@.len() ==> ((#[trigger] v@[i]).kind == TreeKind::Directory <==> record_object_type(
                tokens(input@)[i],
            ) == seq![0x74u8, 0x72u8, 0x65u8, 0x65u8]),
{
    let toks = keep_non_empty(split_bytes(input, 0));
    let ghost ts = tokens(input@);
    let mut entries: Vec<TreeEntry> = Vec::new();
    let mut i: usize = 0;
    while i < toks.len()
        invariant
            views(toks@) == ts,
            ts == tokens(input@),
            i <= toks@.len(),
            entries@.len() == i,
            forall|k: int| 0 <= k < i ==> (#[trigger] tree_record(ts[k])) is Some,
            forall|k: int|
                0 <= k < i ==> tree_record(ts[k]) == Some(tree_entry_view(#[trigger] entries@[k])),
            forall|k: int|
                0 <= k < i ==> ((#[trigger] entries@[k]).kind == TreeKind::Directory
                    <==> record_object_type(ts[k]) == seq![0x74u8, 0x72u8, 0x65u8, 0x65u8]),
        decreases toks@.len() - i,
    {
        assert(ts[i as int] == toks@[i as int]@);
        proof {
            lemma_tree_records_are_directories(ts[i as int]);
        }
        let entry = parse_entry(toks[i].as_slice())?;
        entries.push(entry);
        i = i + 1;
    }
    assert(views(toks@).len() == toks@.len());
    Ok(entries)
}

// ---------------------------------------------------------------------------
// Unified patches.

/// The first index at or after `i` whose character is (or, with `want_ws`
/// false, is not) whitespace; the length if there is none.
pub open spec fn scan_ws(l: Seq<char>, i: int, want_ws: bool) -> int
    decreases l.len() - i,
{
    if i < 0 || i >= l.len() {
        l.len() as int
    } else if whitespace(l[i]) == want_ws {
        i
    } else {
        scan_ws(l, i + 1, want_ws)
    }
}

/// The whitespace-separated word that starts at or after `i`, as a range.
pub open spec fn word_from(l: Seq<char>, i: int) -> (int, int) {
    let start = scan_ws(l, i, false);
    (start, scan_ws(l, start, true))
}

/// The number before the first comma of a hunk range such as `-2,3`.
pub open spec fn range_start(v: Seq<char>, prefix: char) -> Option<u32> {
    if v.len() > 0 && v[0] == prefix {
        let rest = v.drop_first();
        parse_u32(rest.subrange(0, crate::text::find_char_from(rest, ',', 0)))
    } else {
        None
    }
}

/// The old and new start lines of a `@@ -a,b +c,d @@` hunk header.
pub open spec fn hunk_starts(l: Seq<char>) -> Option<(u32, u32)> {
    let (s1, e1) = word_from(l, 0);
    let (s2, e2) = word_from(l, e1);
    let (s3, e3) = word_from(l, e2);
    if s1 < l.len() && l.subrange(s1, e1) == "@@"@ && s2 < l.len() && s3 < l.len() {
        match (range_start(l.subrange(s2, e2), '-'), range_start(l.subrange(s3, e3), '+')) {
            (Some(a), Some(b)) => Some((a, b)),
            _ => None,
        }
    } else {
        None
    }
}

/// A file-header line of a unified patch.
pub open spec fn is_header_line(l: Seq<char>) -> bool {
    starts_with(l, "diff --git"@) || starts_with(l, "index "@) || starts_with(l, "--- "@)
        || starts_with(l, "+++ "@) || starts_with(l, "new file mode "@) || starts_with(
        l,
        "deleted file mode "@,
    ) || starts_with(l, "similarity index "@) || starts_with(l, "rename from "@) || starts_with(
        l,
        "rename to "@,
    )
}

/// The role of a patch line.
pub open spec fn line_kind(l: Seq<char>) -> DiffLineKind {
    if starts_with(l, "@@"@) {
        DiffLineKind::Hunk
    } else if is_header_line(l) {
        DiffLineKind::Header
    } else if l.len() > 0 && l[0] == '\\' {
        DiffLineKind::Meta
    } else if l.len() > 0 && l[0] == '+' {
        DiffLineKind::Added
    } else if l.len() > 0 && l[0] == '-' {
        DiffLineKind::Removed
    } else {
        DiffLineKind::Context
    }
}

/// A counter advanced by one line, saturating.
pub open spec fn bump(c: Option<u32>) -> Option<u32> {
    match c {
        Some(v) => Some(if v == u32::MAX { v } else { (v + 1) as u32 }),
        None => None,
    }
}

/// The old and new line counters before line `k`: set by each parseable hunk
/// header, advanced by the lines that belong to each side.
pub open spec fn counters_before(lines: Seq<Seq<char>>, k: int) -> (Option<u32>, Option<u32>)
    decreases k,
{
    if k <= 0 || k > lines.len() {
        (None, None)
    } else {
        let (o, n) = counters_before(lines, k - 1);
        let l = lines[k - 1];
        match line_kind(l) {
            DiffLineKind::Hunk => match hunk_starts(l) {
                Some((a, b)) => (Some(a), Some(b)),
                None => (o, n),
            },
            DiffLineKind::Added => (o, bump(n)),
            DiffLineKind::Removed => (bump(o), n),
            DiffLineKind::Context => (bump(o), bump(n)),
            _ => (o, n),
        }
    }
}

pub open spec fn as_line_number(c: Option<u32>) -> Option<LineNumber> {
    match c {
        Some(v) => Some(LineNumber(v)),
        None => None,
    }
}

/// The parsed form of line `k`.
pub open spec fn diff_line_at(lines: Seq<Seq<char>>, k: int) -> (DiffLineKind, Option<LineNumber>, Option<LineNumber>, Seq<char>) {
    let (o, n) = counters_before(lines, k);
    let kind = line_kind(lines[k]);
    let old = if kind == DiffLineKind::Removed || kind == DiffLineKind::Context {
        as_line_number(o)
    } else {
        None
    };
    let new = if kind == DiffLineKind::Added || kind == DiffLineKind::Context {
        as_line_number(n)
    } else {
        None
    };
    (kind, old, new, lines[k])
}

/// A line that has a number on the old side: removed or context.
pub open spec fn old_side(kind: DiffLineKind) -> bool {
    kind == DiffLineKind::Removed || kind == DiffLineKind::Context
}

/// A line that has a number on the new side: added or context.
pub open spec fn new_side(kind: DiffLineKind) -> bool {
    kind == DiffLineKind::Added || kind == DiffLineKind::Context
}

/// Lines that are neither hunk headers nor on the old side leave the old
/// counter as it is.
proof fn lemma_old_counter_held(lines: Seq<Seq<char>>, from: int, to: int)
    requires
        0 <= from <= to <= lines.len(),
        forall|m: int|
            from <= m < to ==> !old_side(#[trigger] line_kind(lines[m])) && line_kind(lines[m])
                != DiffLineKind::Hunk,
    ensures
        counters_before(lines, to).0 == counters_before(lines, from).0,
    decreases to - from,
{
    if to > from {
        lemma_old_counter_held(lines, from, to - 1);
        assert(!old_side(line_kind(lines[to - 1])));
    }
}

/// Lines that are neither hunk headers nor on the new side leave the new
/// counter as it is.
proof fn lemma_new_counter_held(lines: Seq<Seq<char>>, from: int, to: int)
    requires
        0 <= from <= to <= lines.len(),
        forall|m: int|
            from <= m < to ==> !new_side(#[trigger] line_kind(lines[m])) && line_kind(lines[m])
                != DiffLineKind::Hunk,
    ensures
        counters_before(lines, to).1 == counters_before(lines, from).1,
    decreases to - from,
{
    if to > from {
        lemma_new_counter_held(lines, from, to - 1);
        assert(!new_side(line_kind(lines[to - 1])));
    }
}

/// Within a hunk the old-side numbers count up by one: a removed or context
/// line is numbered one past the previous removed or context line when no
/// hunk header stands between them, so each removed line advances the old
/// side once.
pub proof fn lemma_old_numbers_consecutive(lines: Seq<Seq<char>>, j: int, k: int)
    requires
        0 <= j < k < lines.len(),
        old_side(diff_line_at(lines, j).0),
        old_side(diff_line_at(lines, k).0),
        forall|m: int|
            j < m < k ==> !old_side(#[trigger] diff_line_at(lines, m).0) && diff_line_at(lines, m).0
                != DiffLineKind::Hunk,
        diff_line_at(lines, j).1 is Some,
        diff_line_at(lines, j).1.unwrap().0 < u32::MAX,
    ensures
        diff_line_at(lines, k).1 == Some(LineNumber((diff_line_at(lines, j).1.unwrap().0 + 1) as u32)),
{
    assert forall|m: int| j + 1 <= m < k implies !old_side(#[trigger] line_kind(lines[m])) && line_kind(lines[m])
        != DiffLineKind::Hunk by {
        assert(diff_line_at(lines, m).0 == line_kind(lines[m]));
    }
    lemma_old_counter_held(lines, j + 1, k);
}

/// Within a hunk the new-side numbers count up by one: an added or context
/// line is numbered one past the previous added or context line when no hunk
/// header stands between them.
pub proof fn lemma_new_numbers_consecutive(lines: Seq<Seq<char>>, j: int, k: int)
    requires
        0 <= j < k < lines.len(),
        new_side(diff_line_at(lines, j).0),
        new_side(diff_line_at(lines, k).0),
        forall|m: int|
            j < m < k ==> !new_side(#[trigger] diff_line_at(lines, m).0) && diff_line_at(lines, m).0
                != DiffLineKind::Hunk,
        diff_line_at(lines, j).2 is Some,
        diff_line_at(lines, j).2.unwrap().0 < u32::MAX,
    ensures
        diff_line_at(lines, k).2 == Some(LineNumber((diff_line_at(lines, j).2.unwrap().0 + 1) as u32)),
{
    assert forall|m: int| j + 1 <= m < k implies !new_side(#[trigger] line_kind(lines[m])) && line_kind(lines[m])
        != DiffLineKind::Hunk by {
        assert(diff_line_at(lines, m).0 == line_kind(lines[m]));
    }
    lemma_new_counter_held(lines, j + 1, k);
}

/// The first removed or context line after a hunk header `@@ -a,.. +b,.. @@`
/// is numbered `a` on the old side, and the first added or context line is
/// numbered `b` on the new side.
pub proof fn lemma_hunk_starts_numbering(lines: Seq<Seq<char>>, h: int, k: int)
    requires
        0 <= h < k < lines.len(),
        diff_line_at(lines, h).0 == DiffLineKind::Hunk,
        hunk_starts(lines[h]) is Some,
        forall|m: int| h < m < k ==> (#[trigger] diff_line_at(lines, m).0) != DiffLineKind::Hunk,
    ensures
        old_side(diff_line_at(lines, k).0) && (forall|m: int|
            h < m < k ==> !old_side(#[trigger] diff_line_at(lines, m).0)) ==> diff_line_at(lines, k).1
            == Some(LineNumber(hunk_starts(lines[h]).unwrap().0)),
        new_side(diff_line_at(lines, k).0) && (forall|m: int|
            h < m < k ==> !new_side(#[trigger] diff_line_at(lines, m).0)) ==> diff_line_at(lines, k).2
            == Some(LineNumber(hunk_starts(lines[h]).unwrap().1)),
{
    if old_side(diff_line_at(lines, k).0) && (forall|m: int|
        h < m < k ==> !old_side(#[trigger] diff_line_at(lines, m).0)) {
        assert forall|m: int| h + 1 <= m < k implies !old_side(#[trigger] line_kind(lines[m]))
            && line_kind(lines[m]) != DiffLineKind::Hunk by {
            assert(diff_line_at(lines, m).0 == line_kind(lines[m]));
        }
        lemma_old_counter_held(lines, h + 1, k);
    }
    if new_side(diff_line_at(lines, k).0) && (forall|m: int|
        h < m < k ==> !new_side(#[trigger] diff_line_at(lines, m).0)) {
        assert forall|m: int| h + 1 <= m < k implies !new_side(#[trigger] line_kind(lines[m]))
            && line_kind(lines[m]) != DiffLineKind::Hunk by {
            assert(diff_line_at(lines, m).0 == line_kind(lines[m]));
        }
        lemma_new_counter_held(lines, h + 1, k);
    }
}

pub open spec fn diff_line_view(d: DiffLine) -> (DiffLineKind, Option<LineNumber>, Option<LineNumber>, Seq<char>) {
    (d.kind, d.old_line, d.new_line, d.text@)
}

/// A line announcing binary content.
pub open spec fn is_binary_marker(l: Seq<char>) -> bool {
    starts_with(l, "Binary files "@) || l == "GIT binary patch"@ || starts_with(l, "Binary file "@)
}

pub open spec fn mentions_binary(l: Seq<char>) -> bool {
    exists|i: int| occurs_at(l, i, "Binary"@)
}

/// The first line that mentions binary content, if any, from line `i`.
pub open spec fn binary_summary_from(lines: Seq<Seq<char>>, i: int) -> Option<Seq<char>>
    decreases lines.len() - i,
{
    if i < 0 || i >= lines.len() {
        None
    } else if mentions_binary(lines[i]) {
        Some(lines[i])
    } else {
        binary_summary_from(lines, i + 1)
    }
}

/// The lines of the lossily decoded patch text.
pub open spec fn patch_lines(input: Seq<u8>) -> Seq<Seq<char>> {
    text_lines(lossy_text(input))
}

fn literal(s: &str) -> (v: Vec<char>)
    ensures
        v@ == s@,
{
    chars_of(s)
}

fn scan_ws_exec(l: &Vec<char>, from: usize, want_ws: bool) -> (i: usize)
    requires
        from <= l@.len(),
    ensures
        i == scan_ws(l@, from as int, want_ws),
        from <= i <= l@.len(),
{
    let mut i = from;
    while i < l.len() && is_whitespace(l[i]) != want_ws
        invariant
            from <= i <= l@.len(),
            scan_ws(l@, from as int, want_ws) == scan_ws(l@, i as int, want_ws),
        decreases l@.len() - i,
    {
        i = i + 1;
    }
    i
}

fn copy_chars(l: &Vec<char>, from: usize, to: usize) -> (v: Vec<char>)
    requires
        from <= to <= l@.len(),
    ensures
        v@ == l@.subrange(from as int, to as int),
{
    let mut v: Vec<char> = Vec::new();
    let mut i = from;
    while i < to
        invariant
            from <= i <= to <= l@.len(),
            v@ == l@.subrange(from as int, i as int),
        decreases to - i,
    {
        v.push(l[i]);
        i = i + 1;
    }
    v
}

fn parse_range(v: &Vec<char>, prefix: char) -> (r: Option<u32>)
    ensures
        r == range_start(v@, prefix),
{
    if v.len() == 0 || v[0] != prefix {
        return None;
    }
    let rest = copy_chars(v, 1, v.len());
    assert(rest@ =~= v@.drop_first());
    let mut end: usize = 0;
    while end < rest.len() && rest[end] != ','
        invariant
            end <= rest@.len(),
            crate::text::find_char_from(rest@, ',', 0) == crate::text::find_char_from(rest@, ',', end as int),
        decreases rest@.len() - end,
    {
        end = end + 1;
    }
    let number = copy_chars(&rest, 0, end);
    parse_decimal_u32(&number)
}

/// Reads the old and new start lines from a hunk header.
pub fn parse_hunk_starts(l: &Vec<char>) -> (r: Option<(u32, u32)>)
    ensures
        r == hunk_starts(l@),
{
    let s1 = scan_ws_exec(l, 0, false);
    let e1 = scan_ws_exec(l, s1, true);
    let s2 = scan_ws_exec(l, e1, false);
    let e2 = scan_ws_exec(l, s2, true);
    let s3 = scan_ws_exec(l, e2, false);
    let e3 = scan_ws_exec(l, s3, true);
    if s1 >= l.len() || s2 >= l.len() || s3 >= l.len() {
        return None;
    }
    let first = copy_chars(l, s1, e1);
    if !crate::text::chars_equal(&first, &literal("@@")) {
        return None;
    }
    let old = parse_range(&copy_chars(l, s2, e2), '-');
    let new = parse_range(&copy_chars(l, s3, e3), '+');
    match (old, new) {
        (Some(a), Some(b)) => Some((a, b)),
        _ => None,
    }
}

fn starts(l: &Vec<char>, prefix: &str) -> (b: bool)
    ensures
        b == starts_with(l@, prefix@),
{
    starts_with_exec(l, &literal(prefix))
}

fn classify(l: &Vec<char>) -> (k: DiffLineKind)
    ensures
        k == line_kind(l@),
{
    if starts(l, "@@") {
        DiffLineKind::Hunk
    } else if starts(l, "diff --git") || starts(l, "index ") || starts(l, "--- ") || starts(l, "+++ ")
        || starts(l, "new file mode ") || starts(l, "deleted file mode ") || starts(
        l,
        "similarity index ",
    ) || starts(l, "rename from ") || starts(l, "rename to ") {
        DiffLineKind::Header
    } else if l.len() > 0 && l[0] == '\\' {
        DiffLineKind::Meta
    } else if l.len() > 0 && l[0] == '+' {
        DiffLineKind::Added
    } else if l.len() > 0 && l[0] == '-' {
        DiffLineKind::Removed
    } else {
        DiffLineKind::Context
    }
}

fn bump_exec(c: Option<u32>) -> (r: Option<u32>)
    ensures
        r == bump(c),
{
    match c {
        Some(v) => Some(if v == 0xffff_ffffu32 { v } else { v + 1 }),
        None => None,
    }
}

fn number_of(c: Option<u32>) -> (r: Option<LineNumber>)
    ensures
        r == as_line_number(c),
{
    match c {
        Some(v) => Some(LineNumber::new(v)),
        None => None,
    }
}

fn mentions_binary_exec(l: &Vec<char>) -> (b: bool)
    ensures
        b == mentions_binary(l@),
{
    let word = literal("Binary");
    let mut i: usize = 0;
    while i < l.len()
        invariant
            word@ == "Binary"@,
            i <= l@.len(),
            forall|j: int| 0 <= j < i ==> !occurs_at(l@, j, "Binary"@),
        decreases l@.len() - i,
    {
        if occurs_at_exec(l, i, &word) {
            return true;
        }
        i = i + 1;
    }
    assert forall|j: int| !occurs_at(l@, j, "Binary"@) by {
        if j >= l@.len() {
            assert(word@.len() > 0) by {
                reveal_strlit("Binary");
            }
        }
    }
    false
}

/// Parses a unified patch into display lines with old and new line numbers.
///
/// Empty output is an empty comparison; a patch that announces binary content
/// becomes a binary summary; otherwise each line is classified, and `truncated`
/// marks a patch cut at the output limit.
/// The document a patch reads as: empty, binary, or its lines, cut short
/// when `truncated`.
pub open spec fn patch_document(input: Seq<u8>, truncated: bool, d: DiffDocument) -> bool {
    &&& (input.len() == 0 ==> (d matches DiffDocument::Empty { message } && message@
            == "No change for this target."@))
    &&& (input.len() > 0 && (exists|i: int|
            0 <= i < patch_lines(input).len() && is_binary_marker(
                #[trigger] patch_lines(input)[i],
            )) ==> (d matches DiffDocument::Binary { summary } && summary@ == match binary_summary_from(
            patch_lines(input),
            0,
        ) {
            Some(l) => l,
            None => "Binary content differs"@,
        }))
    &&& (input.len() > 0 && !(exists|i: int|
            0 <= i < patch_lines(input).len() && is_binary_marker(
                #[trigger] patch_lines(input)[i],
            )) ==> {
            &&& truncated ==> d is Truncated
            &&& !truncated ==> d is Text
            &&& forall|ls: Vec<DiffLine>, b: usize|
                (d == DiffDocument::Text { lines: ls, bytes: b } || d == DiffDocument::Truncated {
                    lines: ls,
                    bytes: b,
                }) ==> {
                    &&& b == input.len()
                    &&& ls@.len() == patch_lines(input).len()
                    &&& forall|k: int|
                        0 <= k < ls@.len() ==> diff_line_view(#[trigger] ls@[k]) == diff_line_at(
                            patch_lines(input),
                            k,
                        )
                }
        })
}

pub fn parse_patch(input: &[u8], truncated: bool) -> (d: DiffDocument)
    ensures
        patch_document(input@, truncated, d),
{
    if input.len() == 0 {
        return DiffDocument::Empty { message: "No change for this target.".to_string() };
    }
    let text = lossy_string(input);
    let chars = chars_of(text.as_str());
    let lines = lines_of(&chars);
    let ghost ls = patch_lines(input@);
    let n = lines.len();
    assert(lines@.map_values(|p: Vec<char>| p@).len() == n);
    let mut i: usize = 0;
    while i < n
        invariant
            n == lines@.len(),
            ls == lines@.map_values(|p: Vec<char>| p@),
            i <= n,
            forall|j: int| 0 <= j < i ==> !is_binary_marker(#[trigger] ls[j]),
            ls == patch_lines(input@),
            input@.len() > 0,
        decreases n - i,
    {
        let l = &lines[i];
        assert(l@ == ls[i as int]);
        if starts(l, "Binary files ") || crate::text::chars_equal(l, &literal("GIT binary patch"))
            || starts(l, "Binary file ") {
            let mut j: usize = 0;
            while j < n
                invariant
                    n == lines@.len(),
                    ls == lines@.map_values(|p: Vec<char>| p@),
                    j <= n,
                    binary_summary_from(ls, 0) == binary_summary_from(ls, j as int),
                    ls == patch_lines(input@),
                    input@.len() > 0,
                    i < n,
                    is_binary_marker(ls[i as int]),
                decreases n - j,
            {
                assert(lines@[j as int]@ == ls[j as int]);
                if mentions_binary_exec(&lines[j]) {
                    let summary = string_from_chars(&lines[j]);
                    return DiffDocument::Binary { summary };
                }
                j = j + 1;
            }
            return DiffDocument::Binary { summary: "Binary content differs".to_string() };
        }
        i = i + 1;
    }
    let mut out: Vec<DiffLine> = Vec::new();
    let mut old: Option<u32> = None;
    let mut new: Option<u32> = None;
    let mut k: usize = 0;
    while k < n
        invariant
            n == lines@.len(),
            ls == lines@.map_values(|p: Vec<char>| p@),
            k <= n,
            out@.len() == k,
            (old, new) == counters_before(ls, k as int),
            ls == patch_lines(input@),
            input@.len() > 0,
            forall|j: int| 0 <= j < k ==> diff_line_view(#[trigger] out@[j]) == diff_line_at(ls, j),
        decreases n - k,
    {
        let l = &lines[k];
        assert(l@ == ls[k as int]);
        let kind = classify(l);
        let text = string_from_chars(l);
        let line = match kind {
            DiffLineKind::Hunk => {
                match parse_hunk_starts(l) {
                    Some((a, b)) => {
                        old = Some(a);
                        new = Some(b);
                    },
                    None => {},
                }
                DiffLine::new(DiffLineKind::Hunk, None, None, text)
            },
            DiffLineKind::Added => {
                let current = number_of(new);
                new = bump_exec(new);
                DiffLine::new(DiffLineKind::Added, None, current, text)
            },
            DiffLineKind::Removed => {
                let current = number_of(old);
                old = bump_exec(old);
                DiffLine::new(DiffLineKind::Removed, current, None, text)
            },
            DiffLineKind::Context => {
                let old_current = number_of(old);
                let new_current = number_of(new);
                old = bump_exec(old);
                new = bump_exec(new);
                DiffLine::new(DiffLineKind::Context, old_current, new_current, text)
            },
            other => DiffLine::new(other, None, None, text),
        };
        out.push(line);
        k = k + 1;
    }
    if truncated {
        DiffDocument::Truncated { lines: out, bytes: input.len() }
    } else {
        DiffDocument::Text { lines: out, bytes: input.len() }
    }
}

} // verus!



