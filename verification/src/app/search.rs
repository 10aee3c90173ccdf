//! Stateful forward and backward search within a loaded document.
//!
//! Matching works on characters: a query matches wherever its (smart-case
//! folded) characters occur, overlapping hits included, and each hit is
//! reported by the byte columns of the original line.

use crate::app::vim::{all_fit, text_of};
use crate::domain::source::SourcePosition;
use crate::text::{case_sensitive, has_uppercase, offset, occurs_at, Line};
use crate::unicode::{alphanumeric, is_alphanumeric, lowercase, lowercase_text, to_lowercase, to_lowercase_text};
use vstd::prelude::*;

verus! {

/// Direction used when finding and repeating in-document matches.
#[derive(Clone, Copy, Debug, PartialEq, Eq, Structural)]
pub enum SearchDirection {
    /// Search toward increasing line numbers, wrapping at the end.
    Forward,
    /// Search toward decreasing line numbers, wrapping at the beginning.
    Backward,
}

impl SearchDirection {
    /// Returns the Vim-style prompt character for this direction.
    pub fn prompt(self) -> (c: char)
        ensures
            c == (match self {
                SearchDirection::Forward => '/',
                SearchDirection::Backward => '?',
            }),
    {
        match self {
            SearchDirection::Forward => '/',
            SearchDirection::Backward => '?',
        }
    }

    /// Returns the opposite search direction.
    pub fn reversed(self) -> (d: SearchDirection)
        ensures
            d == opposite(self),
    {
        match self {
            SearchDirection::Forward => SearchDirection::Backward,
            SearchDirection::Backward => SearchDirection::Forward,
        }
    }
}

pub open spec fn opposite(d: SearchDirection) -> SearchDirection {
    match d {
        SearchDirection::Forward => SearchDirection::Backward,
        SearchDirection::Backward => SearchDirection::Forward,
    }
}

/// Reversing a direction twice gives it back, and never gives it unchanged.
pub proof fn lemma_reversed_involution(d: SearchDirection)
    ensures
        opposite(opposite(d)) == d,
        opposite(d) != d,
{
}

// ---------------------------------------------------------------------------
// Occurrences of a query.

/// Start indices of the occurrences of `q` in `f` at or after `i`, before the
/// end of `f`, in order.
pub open spec fn occurrences_from(f: Seq<char>, q: Seq<char>, i: int) -> Seq<int>
    decreases f.len() - i,
{
    if i < 0 || i >= f.len() {
        Seq::empty()
    } else if occurs_at(f, i, q) {
        seq![i] + occurrences_from(f, q, i + 1)
    } else {
        occurrences_from(f, q, i + 1)
    }
}

/// Overlapping occurrences, each search resuming one character past the last
/// hit; an empty query in an empty text still matches once, at the start.
pub open spec fn overlapping(f: Seq<char>, q: Seq<char>) -> Seq<int> {
    if f.len() == 0 && q.len() == 0 {
        seq![0]
    } else {
        occurrences_from(f, q, 0)
    }
}

proof fn lemma_occurrences_hit(f: Seq<char>, q: Seq<char>, i: int)
    requires
        0 <= i,
    ensures
        forall|k: int|
            0 <= k < occurrences_from(f, q, i).len() ==> {
                let j = #[trigger] occurrences_from(f, q, i)[k];
                &&& i <= j < f.len()
                &&& occurs_at(f, j, q)
            },
    decreases f.len() - i,
{
    if i < 0 || i >= f.len() {
    } else {
        lemma_occurrences_hit(f, q, i + 1);
        if !occurs_at(f, i, q) {
            assert(occurrences_from(f, q, i) == occurrences_from(f, q, i + 1));
        } else {
            let rest = occurrences_from(f, q, i + 1);
            assert forall|k: int| 0 <= k < occurrences_from(f, q, i).len() implies {
                let j = #[trigger] occurrences_from(f, q, i)[k];
                &&& i <= j < f.len()
                &&& occurs_at(f, j, q)
            } by {
                if k > 0 {
                    assert(occurrences_from(f, q, i)[k] == rest[k - 1]);
                }
            }
        }
    }
}

/// Every reported occurrence is a real one that ends inside the text.
proof fn lemma_overlapping_hit(f: Seq<char>, q: Seq<char>)
    ensures
        forall|k: int|
            0 <= k < overlapping(f, q).len() ==> {
                let j = #[trigger] overlapping(f, q)[k];
                &&& 0 <= j
                &&& j + q.len() <= f.len()
            },
{
    lemma_occurrences_hit(f, q, 0);
}

fn overlapping_exec(f: &Vec<char>, q: &Vec<char>) -> (r: Vec<usize>)
    ensures
        r@.map_values(|i: usize| i as int) == overlapping(f@, q@),
{
    let mut out: Vec<usize> = Vec::new();
    if f.len() == 0 && q.len() == 0 {
        out.push(0);
        assert(out@.map_values(|i: usize| i as int) =~= seq![0int]);
        return out;
    }
    let n = f.len();
    let mut i: usize = 0;
    while i < n
        invariant
            n == f@.len(),
            i <= n,
            !(f@.len() == 0 && q@.len() == 0),
            out@.map_values(|x: usize| x as int) + occurrences_from(f@, q@, i as int)
                == overlapping(f@, q@),
        decreases n - i,
    {
        let ghost before = out@;
        if crate::text::occurs_at_exec(f, i, q) {
            out.push(i);
            assert(out@.map_values(|x: usize| x as int) =~= before.map_values(|x: usize| x as int)
                + seq![i as int]);
            assert(out@.map_values(|x: usize| x as int) + occurrences_from(f@, q@, i + 1)
                =~= before.map_values(|x: usize| x as int) + occurrences_from(f@, q@, i as int));
        }
        i = i + 1;
    }
    assert(out@.map_values(|x: usize| x as int) =~= overlapping(f@, q@));
    out
}

// ---------------------------------------------------------------------------
// Case folding.

/// ASCII lowercase of one character.
pub open spec fn ascii_lower(c: char) -> char {
    if 'A' <= c && c <= 'Z' {
        ((c as u32) + 32) as char
    } else {
        c
    }
}

pub open spec fn all_ascii(v: Seq<char>) -> bool {
    forall|i: int| 0 <= i < v.len() ==> (#[trigger] v[i] as u32) < 128
}

/// The lowercase mappings of the first `j` characters, concatenated.
pub open spec fn folded_upto(v: Seq<char>, j: int) -> Seq<char>
    decreases j,
{
    if j <= 0 || j > v.len() {
        Seq::empty()
    } else {
        folded_upto(v, j - 1) + lowercase(v[j - 1])
    }
}

/// Where character `j` starts in the folded text.
pub open spec fn fold_offset(v: Seq<char>, j: int) -> int {
    folded_upto(v, j).len() as int
}

/// The character whose folded form starts at folded index `f` (or `v.len()`
/// for the end of the folded text), if a character starts there.
pub open spec fn unfold_index(v: Seq<char>, f: int) -> Option<int> {
    if exists|j: int| 0 <= j <= v.len() && fold_offset(v, j) == f {
        Some(choose|j: int| 0 <= j <= v.len() && fold_offset(v, j) == f)
    } else {
        None
    }
}

proof fn lemma_fold_strict(v: Seq<char>, i: int, j: int)
    requires
        0 <= i < j <= v.len(),
        forall|k: int| 0 <= k < v.len() ==> (#[trigger] lowercase(v[k])).len() >= 1,
    ensures
        fold_offset(v, i) < fold_offset(v, j),
    decreases j - i,
{
    assert(lowercase(v[j - 1]).len() >= 1);
    if i < j - 1 {
        lemma_fold_strict(v, i, j - 1);
    }
}

/// Matched character spans `(start, end)` of `v`, one per occurrence in
/// `occ`: directly, or through the folded text when `folded` holds (where an
/// occurrence counts only if both of its ends fall between characters).
pub open spec fn spans_of(v: Seq<char>, occ: Seq<int>, qlen: int, folded: bool) -> Seq<(int, int)>
    decreases occ.len(),
{
    if occ.len() == 0 {
        Seq::empty()
    } else {
        let prev = spans_of(v, occ.drop_last(), qlen, folded);
        let i = occ.last();
        if !folded {
            prev.push((i, i + qlen))
        } else {
            match (unfold_index(v, i), unfold_index(v, i + qlen)) {
                (Some(a), Some(b)) => prev.push((a, b)),
                _ => prev,
            }
        }
    }
}

/// Smart-case matches of `q` in `v`, as character spans.
pub open spec fn match_spans(v: Seq<char>, q: Seq<char>, case_sensitive: bool) -> Seq<(int, int)> {
    let folded_query = lowercase_text(q);
    if case_sensitive {
        spans_of(v, overlapping(v, q), q.len() as int, false)
    } else if all_ascii(v) {
        let f = v.map_values(|c: char| ascii_lower(c));
        spans_of(v, overlapping(f, folded_query), folded_query.len() as int, false)
    } else {
        spans_of(
            v,
            overlapping(folded_upto(v, v.len() as int), folded_query),
            folded_query.len() as int,
            true,
        )
    }
}

/// Smart-case matches of `q` in `v`, as byte spans.
pub open spec fn match_starts_spec(v: Seq<char>, q: Seq<char>, case_sensitive: bool) -> Seq<(usize, usize)> {
    match_spans(v, q, case_sensitive).map_values(
        |s: (int, int)| (offset(v, s.0) as usize, offset(v, s.1) as usize),
    )
}

proof fn lemma_spans_bounds(v: Seq<char>, occ: Seq<int>, qlen: int, folded: bool)
    requires
        !folded ==> forall|k: int| 0 <= k < occ.len() ==> 0 <= #[trigger] occ[k] && occ[k] + qlen <= v.len(),
        qlen >= 0,
    ensures
        forall|k: int|
            0 <= k < spans_of(v, occ, qlen, folded).len() ==> {
                let s = #[trigger] spans_of(v, occ, qlen, folded)[k];
                &&& 0 <= s.0 <= v.len()
                &&& 0 <= s.1 <= v.len()
            },
    decreases occ.len(),
{
    if occ.len() > 0 {
        let prev = occ.drop_last();
        assert forall|k: int| 0 <= k < prev.len() && !folded implies 0 <= #[trigger] prev[k]
            && prev[k] + qlen <= v.len() by {
            assert(prev[k] == occ[k]);
        }
        lemma_spans_bounds(v, prev, qlen, folded);
        let i = occ.last();
        let sp = spans_of(v, prev, qlen, folded);
        assert(spans_of(v, occ, qlen, folded).len() >= sp.len());
        assert forall|k: int| 0 <= k < sp.len() implies #[trigger] spans_of(v, occ, qlen, folded)[k] == sp[k] by {}
        if folded {
            if unfold_index(v, i) is Some {
                let a = choose|j: int| 0 <= j <= v.len() && fold_offset(v, j) == i;
            }
            if unfold_index(v, i + qlen) is Some {
                let b = choose|j: int| 0 <= j <= v.len() && fold_offset(v, j) == i + qlen;
            }
        } else {
            assert(occ[occ.len() - 1] == i);
        }
    }
}

proof fn lemma_match_spans_bounds(v: Seq<char>, q: Seq<char>, case_sensitive: bool)
    ensures
        forall|k: int|
            0 <= k < match_spans(v, q, case_sensitive).len() ==> {
                let s = #[trigger] match_spans(v, q, case_sensitive)[k];
                &&& 0 <= s.0 <= v.len()
                &&& 0 <= s.1 <= v.len()
            },
{
    let folded_query = lowercase_text(q);
    if case_sensitive {
        lemma_overlapping_hit(v, q);
        lemma_spans_bounds(v, overlapping(v, q), q.len() as int, false);
    } else if all_ascii(v) {
        let f = v.map_values(|c: char| ascii_lower(c));
        lemma_overlapping_hit(f, folded_query);
        lemma_spans_bounds(v, overlapping(f, folded_query), folded_query.len() as int, false);
    } else {
        lemma_spans_bounds(
            v,
            overlapping(folded_upto(v, v.len() as int), folded_query),
            folded_query.len() as int,
            true,
        );
    }
}

fn ascii_lower_exec(c: char) -> (d: char)
    ensures
        d == ascii_lower(c),
{
    let b = c as u32;
    if 65 <= b && b <= 90 {
        ((b + 32) as u8) as char
    } else {
        c
    }
}

/// The folded text of `v` and, for each folded index up to its end, the
/// character that starts there.
fn fold_text(v: &Vec<char>) -> (r: (Vec<char>, Vec<Option<usize>>))
    ensures
        r.0@ == folded_upto(v@, v@.len() as int),
        r.1@.len() == r.0@.len() + 1,
        forall|f: int|
            0 <= f < r.1@.len() ==> #[trigger] r.1@[f] == (match unfold_index(v@, f) {
                Some(j) => Some(j as usize),
                None => None::<usize>,
            }),
{
    let n = v.len();
    let mut folded: Vec<char> = Vec::new();
    let mut starts: Vec<Option<usize>> = Vec::new();
    let mut j: usize = 0;
    while j < n
        invariant
            n == v@.len(),
            j <= n,
            folded@ == folded_upto(v@, j as int),
            starts@.len() == folded@.len(),
            forall|k: int| 0 <= k < j ==> (#[trigger] lowercase(v@[k])).len() >= 1,
            forall|f: int|
                0 <= f < starts@.len() ==> (#[trigger] starts@[f] matches Some(jj) ==> jj < j
                    && fold_offset(v@, jj as int) == f),
            forall|jj: int|
                0 <= jj < j ==> fold_offset(v@, jj) < starts@.len() && starts@[fold_offset(
                    v@,
                    jj,
                )] == Some(jj as usize),
        decreases n - j,
    {
        let lc = to_lowercase(v[j]);
        let ghost base = folded@;
        let ghost prior = starts@;
        starts.push(Some(j));
        folded.push(lc[0]);
        let mut t: usize = 1;
        while t < lc.len()
            invariant
                1 <= t <= lc@.len(),
                folded@ == base + lc@.take(t as int),
                starts@.len() == folded@.len(),
                base.len() < starts@.len(),
                starts@[base.len() as int] == Some(j),
                forall|f: int|
                    base.len() < f < starts@.len() ==> #[trigger] starts@[f] is None,
                forall|f: int|
                    0 <= f < base.len() ==> #[trigger] starts@[f] == prior[f],
            decreases lc@.len() - t,
        {
            starts.push(None);
            folded.push(lc[t]);
            t = t + 1;
            assert(folded@ =~= base + lc@.take(t as int));
        }
        proof {
            assert(lc@.take(lc@.len() as int) =~= lc@);
            assert(folded_upto(v@, j + 1) == folded_upto(v@, j as int) + lowercase(v@[j as int]));
        }
        j = j + 1;
    }
    let ghost total = folded@.len();
    starts.push(Some(n));
    proof {
        assert(fold_offset(v@, n as int) == total);
        assert forall|f: int| 0 <= f < starts@.len() implies #[trigger] starts@[f] == (match unfold_index(
            v@,
            f,
        ) {
            Some(j) => Some(j as usize),
            None => None::<usize>,
        }) by {
            match starts@[f] {
                Some(jj) => {
                    assert(0 <= jj <= v@.len() && fold_offset(v@, jj as int) == f);
                    let c = choose|c: int| 0 <= c <= v@.len() && fold_offset(v@, c) == f;
                    if c < jj {
                        lemma_fold_strict(v@, c, jj as int);
                    } else if jj < c {
                        lemma_fold_strict(v@, jj as int, c);
                    }
                },
                None => {
                    if exists|c: int| 0 <= c <= v@.len() && fold_offset(v@, c) == f {
                        let c = choose|c: int| 0 <= c <= v@.len() && fold_offset(v@, c) == f;
                        if c < n {
                            assert(starts@[fold_offset(v@, c)] == Some(c as usize));
                        }
                    }
                },
            }
        }
    }
    (folded, starts)
}

fn spans_exec(occ: &Vec<usize>, qlen: usize, starts: &Option<Vec<Option<usize>>>, ghost_v: Ghost<Seq<char>>) -> (r: Vec<(usize, usize)>)
    requires
        ghost_v@.len() <= usize::MAX,
        forall|k: int| 0 <= k < occ@.len() ==> occ@[k] + qlen <= usize::MAX,
        starts matches Some(s) ==> forall|k: int|
            0 <= k < occ@.len() ==> occ@[k] + qlen < s@.len(),
        starts matches Some(s) ==> forall|f: int|
            0 <= f < s@.len() ==> #[trigger] s@[f] == (match unfold_index(ghost_v@, f) {
                Some(j) => Some(j as usize),
                None => None::<usize>,
            }),
    ensures
        r@.map_values(|p: (usize, usize)| (p.0 as int, p.1 as int)) == spans_of(
            ghost_v@,
            occ@.map_values(|i: usize| i as int),
            qlen as int,
            starts is Some,
        ),
{
    let mut out: Vec<(usize, usize)> = Vec::new();
    let mut k: usize = 0;
    let ghost occ_int = occ@.map_values(|i: usize| i as int);
    while k < occ.len()
        invariant
            ghost_v@.len() <= usize::MAX,
            k <= occ@.len(),
            occ_int == occ@.map_values(|i: usize| i as int),
            forall|x: int| 0 <= x < occ@.len() ==> occ@[x] + qlen <= usize::MAX,
            starts matches Some(s) ==> forall|x: int|
                0 <= x < occ@.len() ==> occ@[x] + qlen < s@.len(),
            starts matches Some(s) ==> forall|f: int|
                0 <= f < s@.len() ==> #[trigger] s@[f] == (match unfold_index(ghost_v@, f) {
                    Some(j) => Some(j as usize),
                    None => None::<usize>,
                }),
            out@.map_values(|p: (usize, usize)| (p.0 as int, p.1 as int)) == spans_of(
                ghost_v@,
                occ_int.take(k as int),
                qlen as int,
                starts is Some,
            ),
        decreases occ@.len() - k,
    {
        let ghost before = out@;
        let i = occ[k];
        proof {
            assert(occ_int.take(k + 1).drop_last() =~= occ_int.take(k as int));
            assert(occ_int.take(k + 1).last() == i as int);
        }
        match starts {
            None => {
                out.push((i, i + qlen));
                assert(out@.map_values(|p: (usize, usize)| (p.0 as int, p.1 as int))
                    =~= before.map_values(|p: (usize, usize)| (p.0 as int, p.1 as int)).push(
                    (i as int, i + qlen),
                ));
            },
            Some(s) => {
                match (s[i], s[i + qlen]) {
                    (Some(a), Some(b)) => {
                        out.push((a, b));
                        assert(out@.map_values(|p: (usize, usize)| (p.0 as int, p.1 as int))
                            =~= before.map_values(|p: (usize, usize)| (p.0 as int, p.1 as int)).push(
                            (a as int, b as int),
                        ));
                    },
                    _ => {},
                }
            },
        }
        k = k + 1;
    }
    assert(occ_int.take(occ@.len() as int) =~= occ_int);
    out
}

fn all_ascii_exec(v: &Vec<char>) -> (b: bool)
    ensures
        b == all_ascii(v@),
{
    let mut i: usize = 0;
    while i < v.len()
        invariant
            i <= v@.len(),
            forall|k: int| 0 <= k < i ==> (#[trigger] v@[k] as u32) < 128,
        decreases v@.len() - i,
    {
        if v[i] as u32 >= 128 {
            return false;
        }
        i = i + 1;
    }
    true
}

/// Smart-case matches of `query` in `v`, as character spans.
fn match_spans_exec(v: &Vec<char>, query: &str, case_sensitive: bool) -> (r: Vec<(usize, usize)>)
    ensures
        r@.map_values(|p: (usize, usize)| (p.0 as int, p.1 as int)) == match_spans(
            v@,
            query@,
            case_sensitive,
        ),
{
    let n = v.len();
    if case_sensitive {
        let q = crate::text::chars_of(query);
        let occ = overlapping_exec(v, &q);
        proof {
            lemma_overlapping_hit(v@, q@);
            assert forall|k: int| 0 <= k < occ@.len() implies occ@[k] + q@.len() <= usize::MAX by {
                assert(occ@.map_values(|i: usize| i as int)[k] == occ@[k] as int);
            }
        }
        return spans_exec(&occ, q.len(), &None, Ghost(v@));
    }
    let folded_query = crate::text::chars_of(to_lowercase_text(query).as_str());
    if all_ascii_exec(v) {
        let mut f: Vec<char> = Vec::new();
        let mut i: usize = 0;
        while i < v.len()
            invariant
                i <= v@.len(),
                f@ == v@.take(i as int).map_values(|c: char| ascii_lower(c)),
            decreases v@.len() - i,
        {
            f.push(ascii_lower_exec(v[i]));
            i = i + 1;
            assert(f@ =~= v@.take(i as int).map_values(|c: char| ascii_lower(c)));
        }
        assert(v@.take(v@.len() as int) =~= v@);
        let occ = overlapping_exec(&f, &folded_query);
        proof {
            lemma_overlapping_hit(f@, folded_query@);
            assert forall|k: int| 0 <= k < occ@.len() implies occ@[k] + folded_query@.len() <= usize::MAX by {
                assert(occ@.map_values(|i: usize| i as int)[k] == occ@[k] as int);
            }
        }
        return spans_exec(&occ, folded_query.len(), &None, Ghost(v@));
    }
    let (folded, starts) = fold_text(v);
    let sl = starts.len();
    let occ = overlapping_exec(&folded, &folded_query);
    proof {
        lemma_overlapping_hit(folded@, folded_query@);
        assert forall|k: int| 0 <= k < occ@.len() implies occ@[k] + folded_query@.len() < starts@.len() by {
            assert(occ@.map_values(|i: usize| i as int)[k] == occ@[k] as int);
        }
    }
    let ql = folded_query.len();
    spans_exec(&occ, ql, &Some(starts), Ghost(v@))
}

/// Smart-case overlapping matches of `query` in `value`, as byte spans of
/// `value`: exact when `case_sensitive`, otherwise after lowercasing both.
pub fn match_starts(value: &str, query: &str, case_sensitive: bool) -> (r: Vec<(usize, usize)>)
    requires
        crate::text::fits(value@),
    ensures
        r@ == match_starts_spec(value@, query@, case_sensitive),
{
    let line = Line::new(value);
    proof {
        lemma_match_spans_bounds(value@, query@, case_sensitive);
    }
    let spans = match_spans_exec(&line.chars, query, case_sensitive);
    let ghost sv = spans@.map_values(|p: (usize, usize)| (p.0 as int, p.1 as int));
    let mut out: Vec<(usize, usize)> = Vec::new();
    let mut k: usize = 0;
    while k < spans.len()
        invariant
            line.wf(),
            line.chars@ == value@,
            k <= spans@.len(),
            sv == spans@.map_values(|p: (usize, usize)| (p.0 as int, p.1 as int)),
            sv == match_spans(value@, query@, case_sensitive),
            forall|x: int|
                0 <= x < sv.len() ==> {
                    let s = #[trigger] sv[x];
                    &&& 0 <= s.0 <= value@.len()
                    &&& 0 <= s.1 <= value@.len()
                },
            out@ == sv.take(k as int).map_values(
                |s: (int, int)| (offset(value@, s.0) as usize, offset(value@, s.1) as usize),
            ),
        decreases spans@.len() - k,
    {
        let (a, b) = spans[k];
        proof {
            assert(sv[k as int] == (a as int, b as int));
        }
        let ghost before = out@;
        out.push((line.offset_of(a), line.offset_of(b)));
        k = k + 1;
        assert(out@ =~= sv.take(k as int).map_values(
            |s: (int, int)| (offset(value@, s.0) as usize, offset(value@, s.1) as usize),
        ));
    }
    assert(sv.take(spans@.len() as int) =~= sv);
    out
}


/// Overlapping exact matches of `query` in `value`, as byte spans.
pub fn overlapping_matches(value: &str, query: &str) -> (r: Vec<(usize, usize)>)
    requires
        crate::text::fits(value@),
    ensures
        r@ == match_starts_spec(value@, query@, true),
{
    match_starts(value, query, true)
}

// ---------------------------------------------------------------------------
// Whole words.

/// Letters, digits, and `_`.
pub open spec fn keyword(c: char) -> bool {
    alphanumeric(c) || c == '_'
}

pub fn is_keyword(c: char) -> (b: bool)
    ensures
        b == keyword(c),
{
    is_alphanumeric(c) || c == '_'
}

/// The span `start..end` of `v` (character indices) is not glued to keyword
/// characters on either side.
pub open spec fn whole_word_at(v: Seq<char>, start: int, end: int) -> bool {
    &&& (start <= 0 || !keyword(v[start - 1]))
    &&& (end >= v.len() || !keyword(v[end]))
}

/// Whether the byte span `start..end` of `value` is a whole word.
pub fn is_whole_word(value: &str, start: usize, end: usize) -> (b: bool)
    requires
        crate::text::fits(value@),
        crate::text::is_boundary(value@, start as int),
        crate::text::is_boundary(value@, end as int),
    ensures
        b == whole_word_at(
            value@,
            crate::text::floor_index(value@, start as int),
            crate::text::floor_index(value@, end as int),
        ),
        b ==> {
            let v = value@;
            let s = crate::text::floor_index(v, start as int);
            let e = crate::text::floor_index(v, end as int);
            &&& (s <= 0 || !(alphanumeric(v[s - 1]) || v[s - 1] == '_'))
            &&& (e >= v.len() || !(alphanumeric(v[e]) || v[e] == '_'))
        },
{
    let line = Line::new(value);
    let a = line.floor_index(start);
    let b = line.floor_index(end);
    whole_word_span(&line.chars, a, b)
}

fn whole_word_span(v: &Vec<char>, a: usize, b: usize) -> (r: bool)
    requires
        a <= v@.len(),
    ensures
        r == whole_word_at(v@, a as int, b as int),
{
    let before_ok = a == 0 || !is_keyword(v[a - 1]);
    let after_ok = b >= v.len() || !is_keyword(v[b]);
    before_ok && after_ok
}

// ---------------------------------------------------------------------------
// Matches across lines.

/// A match: its line and the byte column where it starts.
#[derive(Clone, Copy, Debug, PartialEq, Eq, Structural)]
pub struct SearchMatch {
    pub line: usize,
    pub byte_column: usize,
}

/// Reading order of matches.
pub open spec fn match_lt(a: SearchMatch, b: SearchMatch) -> bool {
    a.line < b.line || (a.line == b.line && a.byte_column < b.byte_column)
}

fn match_lt_exec(a: SearchMatch, b: SearchMatch) -> (r: bool)
    ensures
        r == match_lt(a, b),
{
    a.line < b.line || (a.line == b.line && a.byte_column < b.byte_column)
}

/// A line index as an outside line number, saturating at `u32::MAX`.
pub open spec fn line_number(line: usize) -> u32 {
    if line <= u32::MAX {
        line as u32
    } else {
        u32::MAX
    }
}

impl SearchMatch {
    /// The match as a source position.
    pub fn position(self) -> (p: SourcePosition)
        ensures
            p == (SourcePosition { line: line_number(self.line), byte_column: self.byte_column }),
    {
        SourcePosition {
            line: if self.line <= u32::MAX as usize {
                self.line as u32
            } else {
                u32::MAX
            },
            byte_column: self.byte_column,
        }
    }
}

/// The matches of one line, from its spans, in order.
pub open spec fn line_hits(v: Seq<char>, line: int, spans: Seq<(int, int)>, whole_word: bool) -> Seq<
    SearchMatch,
>
    decreases spans.len(),
{
    if spans.len() == 0 {
        Seq::empty()
    } else {
        let prev = line_hits(v, line, spans.drop_last(), whole_word);
        let s = spans.last();
        if !whole_word || whole_word_at(v, s.0, s.1) {
            prev.push(SearchMatch { line: line as usize, byte_column: offset(v, s.0) as usize })
        } else {
            prev
        }
    }
}

/// The matches of the first `n` lines, in reading order.
pub open spec fn hits_upto(vs: Seq<Seq<char>>, q: Seq<char>, cs: bool, whole_word: bool, n: int) -> Seq<
    SearchMatch,
>
    decreases n,
{
    if n <= 0 || n > vs.len() {
        Seq::empty()
    } else {
        hits_upto(vs, q, cs, whole_word, n - 1) + line_hits(
            vs[n - 1],
            n - 1,
            match_spans(vs[n - 1], q, cs),
            whole_word,
        )
    }
}

/// Every match of `q` in the lines `vs`, in reading order (none for an
/// empty query); smart case: exact only if `q` holds an uppercase letter.
pub open spec fn matching(vs: Seq<Seq<char>>, q: Seq<char>, whole_word: bool) -> Seq<SearchMatch> {
    if q.len() == 0 {
        Seq::empty()
    } else {
        hits_upto(vs, q, case_sensitive(q), whole_word, vs.len() as int)
    }
}

/// All matches of `query` in `values`, in reading order.
pub fn matching_positions(values: &[&str], query: &str, whole_word: bool) -> (r: Vec<SearchMatch>)
    requires
        all_fit(text_of(values@)),
    ensures
        r@ == matching(text_of(values@), query@, whole_word),
{
    let ghost vs = text_of(values@);
    let mut out: Vec<SearchMatch> = Vec::new();
    if query.is_empty() {
        return out;
    }
    let q = crate::text::chars_of(query);
    let cs = has_uppercase(&q);
    let n = values.len();
    let mut i: usize = 0;
    while i < n
        invariant
            n == values@.len(),
            vs == text_of(values@),
            vs.len() == n,
            all_fit(vs),
            i <= n,
            q@ == query@,
            q@.len() > 0,
            cs == case_sensitive(query@),
            out@ == hits_upto(vs, query@, cs, whole_word, i as int),
        decreases n - i,
    {
        assert(crate::text::fits(vs[i as int]));
        let line = Line::new(values[i]);
        let spans = match_spans_exec(&line.chars, query, cs);
        proof {
            lemma_match_spans_bounds(line.chars@, query@, cs);
        }
        let ghost sv = spans@.map_values(|p: (usize, usize)| (p.0 as int, p.1 as int));
        let ghost base = out@;
        let mut k: usize = 0;
        while k < spans.len()
            invariant
                line.wf(),
                line.chars@ == vs[i as int],
                i < n,
                k <= spans@.len(),
                sv == spans@.map_values(|p: (usize, usize)| (p.0 as int, p.1 as int)),
                sv == match_spans(line.chars@, query@, cs),
                forall|x: int|
                    0 <= x < sv.len() ==> {
                        let s = #[trigger] sv[x];
                        &&& 0 <= s.0 <= line.chars@.len()
                        &&& 0 <= s.1 <= line.chars@.len()
                    },
                out@ == base + line_hits(line.chars@, i as int, sv.take(k as int), whole_word),
            decreases spans@.len() - k,
        {
            let (a, b) = spans[k];
            proof {
                assert(sv[k as int] == (a as int, b as int));
                assert(sv.take(k + 1).drop_last() =~= sv.take(k as int));
                assert(sv.take(k + 1).last() == (a as int, b as int));
            }
            let ghost prev = out@;
            if !whole_word || whole_word_span(&line.chars, a, b) {
                out.push(SearchMatch { line: i, byte_column: line.offset_of(a) });
                assert(out@ =~= base + line_hits(line.chars@, i as int, sv.take(k + 1), whole_word));
            } else {
                assert(out@ =~= base + line_hits(line.chars@, i as int, sv.take(k + 1), whole_word));
            }
            k = k + 1;
        }
        assert(sv.take(spans@.len() as int) =~= sv);
        i = i + 1;
    }
    out
}

/// The first index whose match satisfies `pred`, scanning from `i`.
pub open spec fn first_index(m: Seq<SearchMatch>, pred: spec_fn(SearchMatch) -> bool, i: int) -> Option<int>
    decreases m.len() - i,
{
    if i < 0 || i >= m.len() {
        None
    } else if pred(m[i]) {
        Some(i)
    } else {
        first_index(m, pred, i + 1)
    }
}

/// The last index below `n` whose match satisfies `pred`.
pub open spec fn last_index(m: Seq<SearchMatch>, pred: spec_fn(SearchMatch) -> bool, n: int) -> Option<int>
    decreases n,
{
    if n <= 0 || n > m.len() {
        None
    } else if pred(m[n - 1]) {
        Some(n - 1)
    } else {
        last_index(m, pred, n - 1)
    }
}

/// A match at or after (strictly after) the anchor.
pub open spec fn at_or_after(anchor: SearchMatch, include_anchor: bool) -> spec_fn(SearchMatch) -> bool {
    |f: SearchMatch| if include_anchor { !match_lt(f, anchor) } else { match_lt(anchor, f) }
}

/// A match at or before (strictly before) the anchor.
pub open spec fn at_or_before(anchor: SearchMatch, include_anchor: bool) -> spec_fn(SearchMatch) -> bool {
    |f: SearchMatch| if include_anchor { !match_lt(anchor, f) } else { match_lt(f, anchor) }
}

/// The match a search starts at: forward, the first at (or, without
/// `include_anchor`, after) the anchor, wrapping to the first match;
/// backward, the last at or before it, wrapping to the last match.
pub open spec fn select(
    m: Seq<SearchMatch>,
    anchor: SearchMatch,
    direction: SearchDirection,
    include_anchor: bool,
) -> Option<int> {
    if m.len() == 0 {
        None
    } else {
        match direction {
            SearchDirection::Forward => match first_index(m, at_or_after(anchor, include_anchor), 0) {
                Some(i) => Some(i),
                None => Some(0),
            },
            SearchDirection::Backward => match last_index(
                m,
                at_or_before(anchor, include_anchor),
                m.len() as int,
            ) {
                Some(i) => Some(i),
                None => Some(m.len() - 1),
            },
        }
    }
}

proof fn lemma_first_index_range(m: Seq<SearchMatch>, pred: spec_fn(SearchMatch) -> bool, i: int)
    ensures
        first_index(m, pred, i) matches Some(j) ==> 0 <= j < m.len(),
    decreases m.len() - i,
{
    if 0 <= i < m.len() && !pred(m[i]) {
        lemma_first_index_range(m, pred, i + 1);
    }
}

proof fn lemma_last_index_range(m: Seq<SearchMatch>, pred: spec_fn(SearchMatch) -> bool, n: int)
    ensures
        last_index(m, pred, n) matches Some(j) ==> 0 <= j < m.len(),
    decreases n,
{
    if 0 < n <= m.len() && !pred(m[n - 1]) {
        lemma_last_index_range(m, pred, n - 1);
    }
}

/// Picks the starting match of a search.
pub fn select_match(
    matches: &Vec<SearchMatch>,
    anchor: SearchMatch,
    direction: SearchDirection,
    include_anchor: bool,
) -> (r: Option<usize>)
    ensures
        r == (match select(matches@, anchor, direction, include_anchor) {
            Some(i) => Some(i as usize),
            None => None::<usize>,
        }),
        r matches Some(i) ==> i < matches@.len(),
        select(matches@, anchor, direction, include_anchor) matches Some(i) ==> 0 <= i < matches@.len(),
{
    let n = matches.len();
    let ghost fwd = at_or_after(anchor, include_anchor);
    let ghost bwd = at_or_before(anchor, include_anchor);
    proof {
        lemma_first_index_range(matches@, fwd, 0);
        lemma_last_index_range(matches@, bwd, n as int);
    }
    if n == 0 {
        return None;
    }
    match direction {
        SearchDirection::Forward => {
            let mut i: usize = 0;
            while i < n
                invariant
                    n == matches@.len(),
                    i <= n,
                    fwd == at_or_after(anchor, include_anchor),
                    direction == SearchDirection::Forward,
                    n > 0,
                    first_index(matches@, fwd, 0) == first_index(matches@, fwd, i as int),
                decreases n - i,
            {
                let found = matches[i];
                let hit = if include_anchor {
                    !match_lt_exec(found, anchor)
                } else {
                    match_lt_exec(anchor, found)
                };
                if hit {
                    assert(fwd(matches@[i as int]));
                    assert(first_index(matches@, fwd, i as int) == Some(i as int));
                    return Some(i);
                }
                i = i + 1;
            }
            Some(0)
        },
        SearchDirection::Backward => {
            let mut e: usize = n;
            while e > 0
                invariant
                    n == matches@.len(),
                    e <= n,
                    bwd == at_or_before(anchor, include_anchor),
                    direction == SearchDirection::Backward,
                    n > 0,
                    last_index(matches@, bwd, n as int) == last_index(matches@, bwd, e as int),
                decreases e,
            {
                let found = matches[e - 1];
                let hit = if include_anchor {
                    !match_lt_exec(anchor, found)
                } else {
                    match_lt_exec(found, anchor)
                };
                if hit {
                    assert(bwd(matches@[e - 1]));
                    assert(last_index(matches@, bwd, e as int) == Some(e - 1));
                    return Some(e - 1);
                }
                e = e - 1;
            }
            Some(n - 1)
        },
    }
}


// ---------------------------------------------------------------------------
// The search state of a document.

/// The query being typed, and the direction it will search in.
#[derive(Debug)]
pub struct SearchPrompt {
    direction: SearchDirection,
    input: String,
}

/// The last confirmed query, its matches, and the selected match.
#[derive(Debug)]
pub struct SearchState {
    prompt: Option<SearchPrompt>,
    query: String,
    direction: SearchDirection,
    whole_word: bool,
    matches: Vec<SearchMatch>,
    current: Option<usize>,
}

/// `new` holds the same prompt, query, matches and selection as `old`.
pub open spec fn same_search(old: SearchState, new: SearchState) -> bool {
    &&& new.prompt_view() == old.prompt_view()
    &&& new.query_view() == old.query_view()
    &&& new.direction_view() == old.direction_view()
    &&& new.whole_word_view() == old.whole_word_view()
    &&& new.matches_view() == old.matches_view()
    &&& new.current_view() == old.current_view()
}

/// `new` is `old` with its prompt replaced by `prompt`.
pub open spec fn prompt_set(
    old: SearchState,
    new: SearchState,
    prompt: Option<(SearchDirection, Seq<char>)>,
) -> bool {
    &&& new.prompt_view() == prompt
    &&& new.query_view() == old.query_view()
    &&& new.direction_view() == old.direction_view()
    &&& new.whole_word_view() == old.whole_word_view()
    &&& new.matches_view() == old.matches_view()
    &&& new.current_view() == old.current_view()
}

/// `new` is `old` after typing `c` into its prompt, if one is open.
pub open spec fn typed(old: SearchState, new: SearchState, c: char) -> bool {
    prompt_set(
        old,
        new,
        match old.prompt_view() {
            Some((d, q)) => Some((d, q.push(c))),
            None => None,
        },
    )
}

/// `new` is `old` after deleting the last typed character, if any.
pub open spec fn deleted(old: SearchState, new: SearchState) -> bool {
    prompt_set(
        old,
        new,
        match old.prompt_view() {
            Some((d, q)) => Some((d, if q.len() > 0 { q.drop_last() } else { q })),
            None => None,
        },
    )
}

/// `new` and `r` are the outcome of confirming the prompt of `old` over the
/// lines `texts`, anchored at line `anchor`.
pub open spec fn confirmed(
    old: SearchState,
    new: SearchState,
    texts: Seq<Seq<char>>,
    anchor: usize,
    r: Option<usize>,
) -> bool {
    match old.prompt_view() {
        None => r is None && same_search(old, new),
        Some((d, input)) => {
            let q = if input.len() > 0 { input } else { old.query_view() };
            let ww = if input.len() > 0 { false } else { old.whole_word_view() };
            let m = matching(texts, q, ww);
            &&& new.prompt_view() is None
            &&& new.direction_view() == d
            &&& new.query_view() == q
            &&& new.whole_word_view() == ww
            &&& new.matches_view() == m
            &&& new.current_view() == as_selection(select(m, line_anchor(anchor, d), d, true))
            &&& r == line_of(m, new.current_view())
        },
    }
}

/// The line a confirmed search moved to, read from the state it left.
pub open spec fn confirmed_line(old: SearchState, new: SearchState) -> Option<usize> {
    match old.prompt_view() {
        None => None,
        Some(_) => line_of(new.matches_view(), new.current_view()),
    }
}

/// The line of the selected match.
pub open spec fn stepped_line(new: SearchState) -> Option<usize> {
    match position_of(new.matches_view(), new.current_view()) {
        Some(p) => Some(p.line as usize),
        None => None,
    }
}

/// `new` and `r` are the outcome of selecting the next match of `old` in
/// `direction`.
pub open spec fn stepped(old: SearchState, new: SearchState, direction: SearchDirection, r: Option<usize>) -> bool {
    &&& new.current_view() == select_from(
        old.matches_view(),
        match position_of(old.matches_view(), old.current_view()) {
            Some(p) => p,
            None => SourcePosition { line: 0, byte_column: 0 },
        },
        direction,
        1,
    )
    &&& r == (match position_of(new.matches_view(), new.current_view()) {
        Some(p) => Some(p.line as usize),
        None => None,
    })
    &&& new.prompt_view() == old.prompt_view()
    &&& new.query_view() == old.query_view()
    &&& new.direction_view() == old.direction_view()
    &&& new.whole_word_view() == old.whole_word_view()
    &&& new.matches_view() == old.matches_view()
}

/// `new` is `old` with the prompt, query and matches forgotten.
pub open spec fn cleared(old: SearchState, new: SearchState) -> bool {
    &&& new.prompt_view() is None
    &&& new.query_view() == Seq::<char>::empty()
    &&& new.direction_view() == old.direction_view()
    &&& !new.whole_word_view()
    &&& new.matches_view() == Seq::<SearchMatch>::empty()
    &&& new.current_view() is None
}

/// The position of the selected match, if any.
pub open spec fn position_of(m: Seq<SearchMatch>, current: Option<usize>) -> Option<SourcePosition> {
    match current {
        Some(i) => if i < m.len() {
            Some(SourcePosition { line: line_number(m[i as int].line), byte_column: m[i as int].byte_column })
        } else {
            None
        },
        None => None,
    }
}

/// The match a repeated search lands on: the first match past the anchor in
/// the direction of travel, then `count - 1` further matches, wrapping around.
pub open spec fn select_from(m: Seq<SearchMatch>, anchor: SourcePosition, direction: SearchDirection, count: usize) -> Option<
    usize,
> {
    let at = SearchMatch { line: anchor.line as usize, byte_column: anchor.byte_column };
    match select(m, at, direction, false) {
        None => None,
        Some(first) => {
            let len = m.len() as int;
            let off = (if count > 0 {
                count - 1
            } else {
                0
            }) % len;
            Some(
                (match direction {
                    SearchDirection::Forward => (first + off) % len,
                    SearchDirection::Backward => (first + len - off) % len,
                }) as usize,
            )
        },
    }
}

impl SearchState {
    #[verifier::type_invariant]
    spec fn inv(&self) -> bool {
        self.current matches Some(i) ==> i < self.matches@.len()
    }

    /// The direction and text of the query being typed.
    pub closed spec fn prompt_view(&self) -> Option<(SearchDirection, Seq<char>)> {
        match self.prompt {
            Some(p) => Some((p.direction, p.input@)),
            None => None,
        }
    }

    /// The last confirmed query.
    pub closed spec fn query_view(&self) -> Seq<char> {
        self.query@
    }

    pub closed spec fn direction_view(&self) -> SearchDirection {
        self.direction
    }

    pub closed spec fn whole_word_view(&self) -> bool {
        self.whole_word
    }

    /// The matches of the last search, in reading order.
    pub closed spec fn matches_view(&self) -> Seq<SearchMatch> {
        self.matches@
    }

    /// The index of the selected match.
    pub closed spec fn current_view(&self) -> Option<usize> {
        self.current
    }

    /// An idle search with no query.
    pub fn new() -> (s: SearchState)
        ensures
            s.prompt_view() is None,
            s.query_view() == Seq::<char>::empty(),
            s.direction_view() == SearchDirection::Forward,
            !s.whole_word_view(),
            s.matches_view() == Seq::<SearchMatch>::empty(),
            s.current_view() is None,
    {
        SearchState {
            prompt: None,
            query: String::new(),
            direction: SearchDirection::Forward,
            whole_word: false,
            matches: Vec::new(),
            current: None,
        }
    }

    /// Opens the prompt for a new query in `direction`.
    pub fn begin(&mut self, direction: SearchDirection)
        ensures
            prompt_set(*old(self), *final(self), Some((direction, Seq::<char>::empty()))),
    {
        proof {
            use_type_invariant(&*self);
        }
        self.prompt = Some(SearchPrompt { direction, input: String::new() });
    }

    /// Types one character into an open prompt.
    pub fn push(&mut self, character: char)
        ensures
            typed(*old(self), *final(self), character),
    {
        proof {
            use_type_invariant(&*self);
        }
        let next = match &self.prompt {
            Some(p) => {
                let mut input = p.input.clone();
                crate::text::push_char(&mut input, character);
                Some(SearchPrompt { direction: p.direction, input })
            },
            None => None,
        };
        self.prompt = next;
    }

    /// Deletes the last typed character of an open prompt.
    pub fn pop(&mut self)
        ensures
            deleted(*old(self), *final(self)),
    {
        proof {
            use_type_invariant(&*self);
        }
        let next = match &self.prompt {
            Some(p) => {
                let mut input = p.input.clone();
                let _ = crate::text::pop_char(&mut input);
                Some(SearchPrompt { direction: p.direction, input })
            },
            None => None,
        };
        self.prompt = next;
    }

    /// Closes the prompt without searching.
    pub fn cancel_input(&mut self)
        ensures
            prompt_set(*old(self), *final(self), None),
    {
        proof {
            use_type_invariant(&*self);
        }
        self.prompt = None;
    }

    /// Forgets the query and its matches; the direction stays.
    pub fn clear(&mut self)
        ensures
            final(self).prompt_view() is None,
            final(self).query_view() == Seq::<char>::empty(),
            final(self).direction_view() == old(self).direction_view(),
            !final(self).whole_word_view(),
            final(self).matches_view() == Seq::<SearchMatch>::empty(),
            final(self).current_view() is None,
    {
        proof {
            use_type_invariant(&*self);
        }
        self.prompt = None;
        self.query = String::new();
        self.whole_word = false;
        self.current = None;
        self.matches = Vec::new();
    }

    pub fn is_input_active(&self) -> (b: bool)
        ensures
            b == self.prompt_view() is Some,
    {
        self.prompt.is_some()
    }

    /// The direction and text of the open prompt.
    pub fn prompt_text(&self) -> (r: Option<(SearchDirection, &str)>)
        ensures
            r matches Some((d, s)) ==> self.prompt_view() == Some((d, s@)),
            r is None ==> self.prompt_view() is None,
    {
        match &self.prompt {
            Some(p) => Some((p.direction, p.input.as_str())),
            None => None,
        }
    }

    /// The last confirmed query.
    pub fn query(&self) -> (q: &str)
        ensures
            q@ == self.query_view(),
    {
        self.query.as_str()
    }

    pub fn direction(&self) -> (d: SearchDirection)
        ensures
            d == self.direction_view(),
    {
        self.direction
    }

    pub fn match_count(&self) -> (n: usize)
        ensures
            n == self.matches_view().len(),
    {
        self.matches.len()
    }

    /// The one-based number of the selected match.
    pub fn current_ordinal(&self) -> (r: Option<usize>)
        ensures
            r == (match self.current_view() {
                Some(i) => Some(i.saturating_add(1)),
                None => None,
            }),
    {
        match self.current {
            Some(i) => Some(i.saturating_add(1)),
            None => None,
        }
    }

    /// The line of the selected match.
    pub fn current_line(&self) -> (r: Option<usize>)
        ensures
            r == (match self.current_view() {
                Some(i) => if i < self.matches_view().len() {
                    Some(self.matches_view()[i as int].line)
                } else {
                    None
                },
                None => None,
            }),
    {
        match self.current {
            Some(i) => if i < self.matches.len() {
                Some(self.matches[i].line)
            } else {
                None
            },
            None => None,
        }
    }

    /// The position of the selected match.
    pub fn current_position(&self) -> (r: Option<SourcePosition>)
        ensures
            r == position_of(self.matches_view(), self.current_view()),
    {
        match self.current {
            Some(i) => if i < self.matches.len() {
                Some(self.matches[i].position())
            } else {
                None
            },
            None => None,
        }
    }

    /// Whether some match lies on `line`.
    pub fn is_match(&self, line: usize) -> (b: bool)
        ensures
            b == exists|i: int| 0 <= i < self.matches_view().len() && #[trigger] self.matches_view()[i].line == line,
    {
        let mut i: usize = 0;
        while i < self.matches.len()
            invariant
                i <= self.matches@.len(),
                forall|j: int| 0 <= j < i ==> #[trigger] self.matches@[j].line != line,
            decreases self.matches@.len() - i,
        {
            if self.matches[i].line == line {
                assert(self.matches_view()[i as int].line == line);
                return true;
            }
            i = i + 1;
        }
        false
    }

    fn select_from(&mut self, anchor: SourcePosition, direction: SearchDirection, count: usize) -> (r: Option<SourcePosition>)
        ensures
            final(self).current_view() == select_from(old(self).matches_view(), anchor, direction, count),
            r == position_of(final(self).matches_view(), final(self).current_view()),
            final(self).prompt_view() == old(self).prompt_view(),
            final(self).query_view() == old(self).query_view(),
            final(self).direction_view() == old(self).direction_view(),
            final(self).whole_word_view() == old(self).whole_word_view(),
            final(self).matches_view() == old(self).matches_view(),
    {
        proof {
            use_type_invariant(&*self);
        }
        let at = SearchMatch { line: anchor.line as usize, byte_column: anchor.byte_column };
        let first = select_match(&self.matches, at, direction, false);
        match first {
            None => {
                self.current = None;
            },
            Some(first) => {
                let len = self.matches.len();
                let wanted: usize = if count > 0 {
                    count - 1
                } else {
                    0
                };
                let off = wanted % len;
                let index = match direction {
                    SearchDirection::Forward => if off < len - first {
                        first + off
                    } else {
                        off - (len - first)
                    },
                    SearchDirection::Backward => if first >= off {
                        first - off
                    } else {
                        first + (len - off)
                    },
                };
                proof {
                    let fi = first as int;
                    let li = len as int;
                    let oi = off as int;
                    if direction == SearchDirection::Forward {
                        if oi < li - fi {
                            assert((fi + oi) % li == fi + oi) by (nonlinear_arith)
                                requires 0 <= fi + oi < li;
                        } else {
                            assert((fi + oi) % li == fi + oi - li) by (nonlinear_arith)
                                requires li <= fi + oi < 2 * li;
                        }
                    } else {
                        if fi >= oi {
                            assert((fi + li - oi) % li == fi - oi) by (nonlinear_arith)
                                requires li <= fi + li - oi < 2 * li;
                        } else {
                            assert((fi + li - oi) % li == fi + li - oi) by (nonlinear_arith)
                                requires 0 <= fi + li - oi < li;
                        }
                    }
                }
                self.current = Some(index);
            },
        }
        self.current_position()
    }
}


/// The start of a search from line `anchor`: the line start going forward,
/// the line end going backward.
pub open spec fn line_anchor(anchor: usize, direction: SearchDirection) -> SearchMatch {
    SearchMatch {
        line: anchor,
        byte_column: if direction == SearchDirection::Backward {
            usize::MAX
        } else {
            0
        },
    }
}

/// A search index as a selection.
pub open spec fn as_selection(i: Option<int>) -> Option<usize> {
    match i {
        Some(j) => Some(j as usize),
        None => None,
    }
}

/// The line of the selected match.
pub open spec fn line_of(m: Seq<SearchMatch>, current: Option<usize>) -> Option<usize> {
    match current {
        Some(i) => if i < m.len() {
            Some(m[i as int].line)
        } else {
            None
        },
        None => None,
    }
}

/// Matches of the test-facing form: every match of `query`, whole words or not.
pub fn matching_indices(values: &[&str], query: &str) -> (r: Vec<SearchMatch>)
    requires
        all_fit(text_of(values@)),
    ensures
        r@ == matching(text_of(values@), query@, false),
{
    matching_positions(values, query, false)
}

impl SearchState {
    /// Runs the typed query (or, if nothing was typed, the previous one) and
    /// selects the first match at or after line `anchor` in the prompt's
    /// direction; returns its line.
    pub fn confirm(&mut self, values: &[&str], anchor: usize) -> (r: Option<usize>)
        requires
            all_fit(text_of(values@)),
        ensures
            match old(self).prompt_view() {
                None => {
                    &&& r is None
                    &&& final(self).prompt_view() == old(self).prompt_view()
                    &&& final(self).query_view() == old(self).query_view()
                    &&& final(self).direction_view() == old(self).direction_view()
                    &&& final(self).whole_word_view() == old(self).whole_word_view()
                    &&& final(self).matches_view() == old(self).matches_view()
                    &&& final(self).current_view() == old(self).current_view()
                },
                Some((d, input)) => {
                    let q = if input.len() > 0 { input } else { old(self).query_view() };
                    let ww = if input.len() > 0 { false } else { old(self).whole_word_view() };
                    let m = matching(text_of(values@), q, ww);
                    &&& final(self).prompt_view() is None
                    &&& final(self).direction_view() == d
                    &&& final(self).query_view() == q
                    &&& final(self).whole_word_view() == ww
                    &&& final(self).matches_view() == m
                    &&& final(self).current_view() == as_selection(select(m, line_anchor(anchor, d), d, true))
                    &&& r == line_of(m, final(self).current_view())
                },
            },
    {
        proof {
            use_type_invariant(&*self);
        }
        let prompt = match &self.prompt {
            Some(p) => SearchPrompt { direction: p.direction, input: p.input.clone() },
            None => {
                return None;
            },
        };
        self.prompt = None;
        self.direction = prompt.direction;
        if !prompt.input.as_str().is_empty() {
            self.query = prompt.input;
            self.whole_word = false;
        }
        self.current = None;
        self.matches = matching_positions(values, self.query.as_str(), self.whole_word);
        let at = SearchMatch {
            line: anchor,
            byte_column: if self.direction == SearchDirection::Backward {
                usize::MAX
            } else {
                0
            },
        };
        self.current = select_match(&self.matches, at, self.direction, true);
        self.current_line()
    }

    /// Runs the typed (or previous) query and selects the first match after
    /// (or before) `anchor` in the prompt's direction; returns its position.
    pub fn confirm_position(&mut self, values: &[&str], anchor: SourcePosition) -> (r: Option<SourcePosition>)
        requires
            all_fit(text_of(values@)),
        ensures
            match old(self).prompt_view() {
                None => {
                    &&& r is None
                    &&& final(self).prompt_view() == old(self).prompt_view()
                    &&& final(self).query_view() == old(self).query_view()
                    &&& final(self).direction_view() == old(self).direction_view()
                    &&& final(self).whole_word_view() == old(self).whole_word_view()
                    &&& final(self).matches_view() == old(self).matches_view()
                    &&& final(self).current_view() == old(self).current_view()
                },
                Some((d, input)) => {
                    let q = if input.len() > 0 { input } else { old(self).query_view() };
                    let ww = if input.len() > 0 { false } else { old(self).whole_word_view() };
                    let m = matching(text_of(values@), q, ww);
                    let at = SearchMatch { line: anchor.line as usize, byte_column: anchor.byte_column };
                    &&& final(self).prompt_view() is None
                    &&& final(self).direction_view() == d
                    &&& final(self).query_view() == q
                    &&& final(self).whole_word_view() == ww
                    &&& final(self).matches_view() == m
                    &&& final(self).current_view() == as_selection(select(m, at, d, false))
                    &&& r == position_of(m, final(self).current_view())
                },
            },
    {
        proof {
            use_type_invariant(&*self);
        }
        let prompt = match &self.prompt {
            Some(p) => SearchPrompt { direction: p.direction, input: p.input.clone() },
            None => {
                return None;
            },
        };
        self.prompt = None;
        self.direction = prompt.direction;
        if !prompt.input.as_str().is_empty() {
            self.query = prompt.input;
            self.whole_word = false;
        }
        self.current = None;
        self.matches = matching_positions(values, self.query.as_str(), self.whole_word);
        let at = SearchMatch { line: anchor.line as usize, byte_column: anchor.byte_column };
        self.current = select_match(&self.matches, at, self.direction, false);
        self.current_position()
    }

    /// Moves to the next match in `direction` from the selected one (or from
    /// the document start); returns its line.
    pub fn select_next(&mut self, direction: SearchDirection) -> (r: Option<usize>)
        ensures
            final(self).current_view() == select_from(
                old(self).matches_view(),
                match position_of(old(self).matches_view(), old(self).current_view()) {
                    Some(p) => p,
                    None => SourcePosition { line: 0, byte_column: 0 },
                },
                direction,
                1,
            ),
            r == (match position_of(final(self).matches_view(), final(self).current_view()) {
                Some(p) => Some(p.line as usize),
                None => None,
            }),
            final(self).prompt_view() == old(self).prompt_view(),
            final(self).query_view() == old(self).query_view(),
            final(self).direction_view() == old(self).direction_view(),
            final(self).whole_word_view() == old(self).whole_word_view(),
            final(self).matches_view() == old(self).matches_view(),
    {
        match self.select_next_position(direction, 1) {
            Some(p) => Some(p.line as usize),
            None => None,
        }
    }

    /// Moves `count` matches in `direction` from the selected one (or from the
    /// document start); returns the new position.
    pub fn select_next_position(&mut self, direction: SearchDirection, count: usize) -> (r: Option<SourcePosition>)
        ensures
            final(self).current_view() == select_from(
                old(self).matches_view(),
                match position_of(old(self).matches_view(), old(self).current_view()) {
                    Some(p) => p,
                    None => SourcePosition { line: 0, byte_column: 0 },
                },
                direction,
                count,
            ),
            r == position_of(final(self).matches_view(), final(self).current_view()),
            final(self).prompt_view() == old(self).prompt_view(),
            final(self).query_view() == old(self).query_view(),
            final(self).direction_view() == old(self).direction_view(),
            final(self).whole_word_view() == old(self).whole_word_view(),
            final(self).matches_view() == old(self).matches_view(),
    {
        let anchor = match self.current_position() {
            Some(p) => p,
            None => SourcePosition { line: 0, byte_column: 0 },
        };
        self.select_from(anchor, direction, count)
    }

    /// Re-runs the last query over `values` and moves `count` matches from
    /// `anchor` in `direction`.
    pub fn repeat_position(
        &mut self,
        values: &[&str],
        anchor: SourcePosition,
        direction: SearchDirection,
        count: usize,
    ) -> (r: Option<SourcePosition>)
        requires
            all_fit(text_of(values@)),
        ensures
            final(self).matches_view() == matching(
                text_of(values@),
                old(self).query_view(),
                old(self).whole_word_view(),
            ),
            final(self).current_view() == select_from(final(self).matches_view(), anchor, direction, count),
            r == position_of(final(self).matches_view(), final(self).current_view()),
            final(self).prompt_view() == old(self).prompt_view(),
            final(self).query_view() == old(self).query_view(),
            final(self).direction_view() == old(self).direction_view(),
            final(self).whole_word_view() == old(self).whole_word_view(),
    {
        proof {
            use_type_invariant(&*self);
        }
        self.current = None;
        self.matches = matching_positions(values, self.query.as_str(), self.whole_word);
        self.select_from(anchor, direction, count)
    }

    /// Searches `values` for `query` (as a whole word if asked) and moves
    /// `count` matches from `anchor` in `direction`.
    pub fn search_word(
        &mut self,
        values: &[&str],
        query: &str,
        whole_word: bool,
        anchor: SourcePosition,
        direction: SearchDirection,
        count: usize,
    ) -> (r: Option<SourcePosition>)
        requires
            all_fit(text_of(values@)),
        ensures
            final(self).prompt_view() is None,
            final(self).query_view() == query@,
            final(self).direction_view() == direction,
            final(self).whole_word_view() == whole_word,
            final(self).matches_view() == matching(text_of(values@), query@, whole_word),
            final(self).current_view() == select_from(final(self).matches_view(), anchor, direction, count),
            r == position_of(final(self).matches_view(), final(self).current_view()),
    {
        proof {
            use_type_invariant(&*self);
        }
        self.prompt = None;
        self.query = query.to_owned();
        self.direction = direction;
        self.whole_word = whole_word;
        self.current = None;
        self.matches = matching_positions(values, query, whole_word);
        self.select_from(anchor, direction, count)
    }
}


// ---------------------------------------------------------------------------
// Laws: matches come in reading order, and `n` then `N` returns.

/// Strictly increasing integers.
pub open spec fn increasing(s: Seq<int>) -> bool {
    forall|a: int, b: int| 0 <= a < b < s.len() ==> s[a] < s[b]
}

/// Matches in strictly increasing reading order.
pub open spec fn sorted_matches(m: Seq<SearchMatch>) -> bool {
    forall|a: int, b: int| 0 <= a < b < m.len() ==> match_lt(m[a], m[b])
}

proof fn lemma_occurrences_increasing(f: Seq<char>, q: Seq<char>, i: int)
    requires
        0 <= i,
    ensures
        increasing(occurrences_from(f, q, i)),
        forall|k: int| 0 <= k < occurrences_from(f, q, i).len() ==> i <= #[trigger] occurrences_from(f, q, i)[k],
    decreases f.len() - i,
{
    if i < f.len() {
        lemma_occurrences_increasing(f, q, i + 1);
        let rest = occurrences_from(f, q, i + 1);
        if occurs_at(f, i, q) {
            let all = seq![i] + rest;
            assert(occurrences_from(f, q, i) == all);
            assert forall|a: int, b: int| 0 <= a < b < all.len() implies all[a] < all[b] by {
                if a == 0 {
                    assert(all[b] == rest[b - 1]);
                } else {
                    assert(all[a] == rest[a - 1] && all[b] == rest[b - 1]);
                }
            }
            assert forall|k: int| 0 <= k < all.len() implies i <= #[trigger] all[k] by {
                if k > 0 {
                    assert(all[k] == rest[k - 1]);
                }
            }
        }
    }
}

proof fn lemma_overlapping_increasing(f: Seq<char>, q: Seq<char>)
    ensures
        increasing(overlapping(f, q)),
        forall|k: int| 0 <= k < overlapping(f, q).len() ==> 0 <= #[trigger] overlapping(f, q)[k],
{
    lemma_occurrences_increasing(f, q, 0);
}

proof fn lemma_fold_offset_mono(v: Seq<char>, i: int, j: int)
    requires
        0 <= i <= j <= v.len(),
    ensures
        fold_offset(v, i) <= fold_offset(v, j),
    decreases j - i,
{
    if i < j {
        lemma_fold_offset_mono(v, i, j - 1);
    }
}

/// The span starts of increasing occurrences increase, and the last one is
/// at most the start of the last occurrence's span.
proof fn lemma_spans_increasing(v: Seq<char>, occ: Seq<int>, qlen: int, folded: bool)
    requires
        qlen >= 0,
        increasing(occ),
        forall|k: int| 0 <= k < occ.len() ==> 0 <= #[trigger] occ[k],
    ensures
        forall|a: int, b: int|
            0 <= a < b < spans_of(v, occ, qlen, folded).len() ==> spans_of(v, occ, qlen, folded)[a].0
                < spans_of(v, occ, qlen, folded)[b].0,
        forall|a: int|
            0 <= a < spans_of(v, occ, qlen, folded).len() && occ.len() > 0 ==> (if folded {
                fold_offset(v, spans_of(v, occ, qlen, folded)[a].0) <= occ.last()
            } else {
                spans_of(v, occ, qlen, folded)[a].0 <= occ.last()
            }),
    decreases occ.len(),
{
    if occ.len() > 0 {
        let init = occ.drop_last();
        assert forall|a: int, b: int| 0 <= a < b < init.len() implies init[a] < init[b] by {
            assert(init[a] == occ[a] && init[b] == occ[b]);
        }
        assert forall|k: int| 0 <= k < init.len() implies 0 <= #[trigger] init[k] by {
            assert(init[k] == occ[k]);
        }
        lemma_spans_increasing(v, init, qlen, folded);
        let prev = spans_of(v, init, qlen, folded);
        let i = occ.last();
        if init.len() > 0 {
            assert(init.last() == occ[occ.len() - 2]);
            assert(init.last() < i);
        }
        let all = spans_of(v, occ, qlen, folded);
        if !folded {
            assert(all == prev.push((i, i + qlen)));
        } else {
            match (unfold_index(v, i), unfold_index(v, i + qlen)) {
                (Some(a0), Some(b0)) => {
                    assert(all == prev.push((a0, b0)));
                    let a0w = choose|j: int| 0 <= j <= v.len() && fold_offset(v, j) == i;
                    assert(a0 == a0w);
                    lemma_spans_bounds(v, init, qlen, true);
                    assert forall|x: int| 0 <= x < prev.len() implies prev[x].0 < a0 by {
                        if prev[x].0 >= a0 {
                            lemma_fold_offset_mono(v, a0, prev[x].0);
                        }
                    }
                },
                _ => {
                    assert(all == prev);
                },
            }
        }
    }
}

proof fn lemma_match_spans_increasing(v: Seq<char>, q: Seq<char>, cs: bool)
    ensures
        forall|a: int, b: int|
            0 <= a < b < match_spans(v, q, cs).len() ==> match_spans(v, q, cs)[a].0 < match_spans(v, q, cs)[b].0,
{
    let folded_query = lowercase_text(q);
    if cs {
        lemma_overlapping_increasing(v, q);
        lemma_spans_increasing(v, overlapping(v, q), q.len() as int, false);
    } else if all_ascii(v) {
        let f = v.map_values(|c: char| ascii_lower(c));
        lemma_overlapping_increasing(f, folded_query);
        lemma_spans_increasing(v, overlapping(f, folded_query), folded_query.len() as int, false);
    } else {
        let f = folded_upto(v, v.len() as int);
        lemma_overlapping_increasing(f, folded_query);
        lemma_spans_increasing(v, overlapping(f, folded_query), folded_query.len() as int, true);
    }
}

/// The matches of one line sit on that line in increasing columns.
proof fn lemma_line_hits_sorted(v: Seq<char>, line: int, spans: Seq<(int, int)>, ww: bool)
    requires
        0 <= line <= usize::MAX,
        crate::text::fits(v),
        forall|a: int, b: int| 0 <= a < b < spans.len() ==> spans[a].0 < spans[b].0,
        forall|a: int| 0 <= a < spans.len() ==> 0 <= #[trigger] spans[a].0 <= v.len(),
    ensures
        sorted_matches(line_hits(v, line, spans, ww)),
        forall|a: int| 0 <= a < line_hits(v, line, spans, ww).len() ==> #[trigger] line_hits(v, line, spans, ww)[a].line == line,
        forall|a: int|
            0 <= a < line_hits(v, line, spans, ww).len() && spans.len() > 0 ==> line_hits(v, line, spans, ww)[a].byte_column
                <= offset(v, spans.last().0),
    decreases spans.len(),
{
    if spans.len() > 0 {
        let init = spans.drop_last();
        assert forall|a: int, b: int| 0 <= a < b < init.len() implies init[a].0 < init[b].0 by {
            assert(init[a] == spans[a] && init[b] == spans[b]);
        }
        assert forall|a: int| 0 <= a < init.len() implies 0 <= #[trigger] init[a].0 <= v.len() by {
            assert(init[a] == spans[a]);
        }
        lemma_line_hits_sorted(v, line, init, ww);
        let prev = line_hits(v, line, init, ww);
        let s = spans.last();
        crate::text::lemma_offset_mono(v, s.0, v.len() as int);
        if init.len() > 0 {
            assert(init.last() == spans[spans.len() - 2]);
            crate::text::lemma_offset_mono(v, init.last().0, s.0);
            crate::text::lemma_offset_mono(v, init.last().0, v.len() as int);
        }
        if !ww || whole_word_at(v, s.0, s.1) {
            let h = SearchMatch { line: line as usize, byte_column: offset(v, s.0) as usize };
            assert(line_hits(v, line, spans, ww) == prev.push(h));
            assert forall|x: int| 0 <= x < prev.len() implies prev[x].byte_column < h.byte_column by {
                assert(init.len() > 0);
            }
        }
    }
}

proof fn lemma_hits_upto_sorted(vs: Seq<Seq<char>>, q: Seq<char>, cs: bool, ww: bool, n: int)
    requires
        0 <= n <= vs.len(),
        vs.len() <= usize::MAX,
        all_fit(vs),
    ensures
        sorted_matches(hits_upto(vs, q, cs, ww, n)),
        forall|a: int| 0 <= a < hits_upto(vs, q, cs, ww, n).len() ==> #[trigger] hits_upto(vs, q, cs, ww, n)[a].line < n,
    decreases n,
{
    if n > 0 {
        lemma_hits_upto_sorted(vs, q, cs, ww, n - 1);
        let prev = hits_upto(vs, q, cs, ww, n - 1);
        let v = vs[n - 1];
        assert(crate::text::fits(v));
        lemma_match_spans_increasing(v, q, cs);
        lemma_match_spans_bounds(v, q, cs);
        let spans = match_spans(v, q, cs);
        assert forall|a: int| 0 <= a < spans.len() implies 0 <= #[trigger] spans[a].0 <= v.len() by {}
        lemma_line_hits_sorted(v, n - 1, spans, ww);
        let h = line_hits(v, n - 1, spans, ww);
        let all = prev + h;
        assert(hits_upto(vs, q, cs, ww, n) == all);
        assert forall|a: int, b: int| 0 <= a < b < all.len() implies match_lt(all[a], all[b]) by {
            if b < prev.len() {
            } else if a < prev.len() {
                assert(all[b] == h[b - prev.len()]);
                assert(h[b - prev.len()].line == n - 1);
            } else {
                assert(all[a] == h[a - prev.len()] && all[b] == h[b - prev.len()]);
            }
        }
        assert forall|a: int| 0 <= a < all.len() implies #[trigger] all[a].line < n by {
            if a >= prev.len() {
                assert(all[a] == h[a - prev.len()]);
                assert(h[a - prev.len()].line == n - 1);
            }
        }
    }
}

/// Every search reports its matches in strictly increasing reading order.
pub proof fn lemma_matching_sorted(vs: Seq<Seq<char>>, q: Seq<char>, whole_word: bool)
    requires
        all_fit(vs),
        vs.len() <= usize::MAX,
    ensures
        sorted_matches(matching(vs, q, whole_word)),
{
    if q.len() > 0 {
        lemma_hits_upto_sorted(vs, q, case_sensitive(q), whole_word, vs.len() as int);
    }
}

/// Each whole-word match of one line comes from one of its spans that is a
/// whole word.
proof fn lemma_line_hits_whole(v: Seq<char>, line: int, spans: Seq<(int, int)>, x: int)
    requires
        0 <= x < line_hits(v, line, spans, true).len(),
    ensures
        exists|s: int|
            0 <= s < spans.len() && line_hits(v, line, spans, true)[x] == (SearchMatch {
                line: line as usize,
                byte_column: offset(v, spans[s].0) as usize,
            }) && whole_word_at(v, spans[s].0, spans[s].1),
    decreases spans.len(),
{
    let init = spans.drop_last();
    let prev = line_hits(v, line, init, true);
    if x < prev.len() {
        if whole_word_at(v, spans.last().0, spans.last().1) {
            assert(line_hits(v, line, spans, true)[x] == prev[x]);
        }
        lemma_line_hits_whole(v, line, init, x);
        let s = choose|s: int|
            0 <= s < init.len() && prev[x] == (SearchMatch {
                line: line as usize,
                byte_column: offset(v, init[s].0) as usize,
            }) && whole_word_at(v, init[s].0, init[s].1);
        assert(init[s] == spans[s]);
    } else {
        assert(spans[spans.len() - 1] == spans.last());
    }
}

/// A whole-word search reports only occurrences that no letter, digit or `_`
/// touches: each match is a span of the query's occurrences on its line whose
/// character before the start, and character at the end, are either past the
/// line's ends or neither alphanumeric nor `_`.
pub proof fn lemma_whole_word_matches_stand_alone(vs: Seq<Seq<char>>, q: Seq<char>, a: int)
    requires
        0 <= a < matching(vs, q, true).len(),
    ensures
        exists|i: int, s: int|
            0 <= i < vs.len() && 0 <= s < match_spans(vs[i], q, case_sensitive(q)).len() && {
                let v = vs[i];
                let span = #[trigger] match_spans(vs[i], q, case_sensitive(q))[s];
                &&& matching(vs, q, true)[a] == (SearchMatch {
                    line: i as usize,
                    byte_column: offset(v, span.0) as usize,
                })
                &&& (span.0 <= 0 || !(alphanumeric(v[span.0 - 1]) || v[span.0 - 1] == '_'))
                &&& (span.1 >= v.len() || !(alphanumeric(v[span.1]) || v[span.1] == '_'))
            },
{
    lemma_hits_upto_whole(vs, q, case_sensitive(q), vs.len() as int, a);
}

proof fn lemma_hits_upto_whole(vs: Seq<Seq<char>>, q: Seq<char>, cs: bool, n: int, a: int)
    requires
        0 <= n <= vs.len(),
        0 <= a < hits_upto(vs, q, cs, true, n).len(),
    ensures
        exists|i: int, s: int|
            0 <= i < vs.len() && 0 <= s < match_spans(vs[i], q, cs).len() && {
                let v = vs[i];
                let span = #[trigger] match_spans(vs[i], q, cs)[s];
                &&& hits_upto(vs, q, cs, true, n)[a] == (SearchMatch {
                    line: i as usize,
                    byte_column: offset(v, span.0) as usize,
                })
                &&& (span.0 <= 0 || !(alphanumeric(v[span.0 - 1]) || v[span.0 - 1] == '_'))
                &&& (span.1 >= v.len() || !(alphanumeric(v[span.1]) || v[span.1] == '_'))
            },
    decreases n,
{
    let prev = hits_upto(vs, q, cs, true, n - 1);
    if a < prev.len() {
        assert(hits_upto(vs, q, cs, true, n)[a] == prev[a]);
        lemma_hits_upto_whole(vs, q, cs, n - 1, a);
    } else {
        let v = vs[n - 1];
        let spans = match_spans(v, q, cs);
        let x = a - prev.len();
        assert(hits_upto(vs, q, cs, true, n)[a] == line_hits(v, n - 1, spans, true)[x]);
        lemma_line_hits_whole(v, n - 1, spans, x);
        let s = choose|s: int|
            0 <= s < spans.len() && line_hits(v, n - 1, spans, true)[x] == (SearchMatch {
                line: (n - 1) as usize,
                byte_column: offset(v, spans[s].0) as usize,
            }) && whole_word_at(v, spans[s].0, spans[s].1);
        assert(0 <= n - 1 < vs.len());
    }
}

proof fn lemma_first_index_skip(m: Seq<SearchMatch>, pred: spec_fn(SearchMatch) -> bool, a: int, b: int)
    requires
        0 <= a <= b <= m.len(),
        forall|x: int| a <= x < b ==> !pred(#[trigger] m[x]),
    ensures
        first_index(m, pred, a) == first_index(m, pred, b),
    decreases b - a,
{
    if a < b {
        lemma_first_index_skip(m, pred, a + 1, b);
    }
}

proof fn lemma_last_index_skip(m: Seq<SearchMatch>, pred: spec_fn(SearchMatch) -> bool, a: int, b: int)
    requires
        0 <= a <= b <= m.len(),
        forall|x: int| a <= x < b ==> !pred(#[trigger] m[x]),
    ensures
        last_index(m, pred, b) == last_index(m, pred, a),
    decreases b - a,
{
    if a < b {
        lemma_last_index_skip(m, pred, a, b - 1);
    }
}

/// On matches in reading order, moving to the next match (`n`) and then to
/// the previous one (`N`) returns to the match one started from, wrapping
/// around at either end.
pub proof fn lemma_next_then_previous(m: Seq<SearchMatch>, i: int)
    requires
        sorted_matches(m),
        0 <= i < m.len(),
        m.len() <= usize::MAX,
        forall|k: int| 0 <= k < m.len() ==> #[trigger] m[k].line <= u32::MAX,
    ensures
        ({
            let j = select_from(m, position_of(m, Some(i as usize))->0, SearchDirection::Forward, 1);
            &&& j is Some
            &&& select_from(m, position_of(m, j)->0, SearchDirection::Backward, 1) == Some(i as usize)
        }),
{
    let len = m.len() as int;
    let here = m[i];
    assert(m[i].line <= u32::MAX);
    let p = position_of(m, Some(i as usize))->0;
    let hl = here.line;
    assert((hl as u32) as usize == hl) by (bit_vector)
        requires
            hl <= 0xffff_ffffusize,
    ;
    assert(p.line as usize == here.line);
    let at = SearchMatch { line: p.line as usize, byte_column: p.byte_column };
    assert(at == here);
    let fwd = at_or_after(here, false);
    assert forall|x: int| 0 <= x < i + 1 implies !fwd(#[trigger] m[x]) by {
        if x < i {
            assert(match_lt(m[x], m[i]));
        }
    }
    lemma_first_index_skip(m, fwd, 0, i + 1);
    let j: int = if i + 1 < len {
        assert(fwd(m[i + 1]));
        i + 1
    } else {
        0
    };
    assert(select(m, here, SearchDirection::Forward, false) == Some(j));
    assert(0int % len == 0) by (nonlinear_arith)
        requires
            0 < len,
    ;
    assert(((1usize - 1) as int) % len == 0);
    assert((j + 0) % len == j) by (nonlinear_arith)
        requires
            0 <= j < len,
    ;
    assert(select_from(m, p, SearchDirection::Forward, 1) == Some(j as usize));
    let q = position_of(m, Some(j as usize))->0;
    assert(m[j].line <= u32::MAX);
    let there = m[j];
    let tl = there.line;
    assert((tl as u32) as usize == tl) by (bit_vector)
        requires
            tl <= 0xffff_ffffusize,
    ;
    let bwd = at_or_before(there, false);
    if j == i + 1 {
        assert forall|x: int| i + 1 <= x < len implies !bwd(#[trigger] m[x]) by {
            if x > i + 1 {
                assert(match_lt(m[i + 1], m[x]));
            }
        }
        lemma_last_index_skip(m, bwd, i + 1, len);
        assert(match_lt(m[i], m[i + 1]));
        assert(bwd(m[i]));
        assert(last_index(m, bwd, i + 1) == Some(i));
        assert(select(m, there, SearchDirection::Backward, false) == Some(i));
        assert((i + len - 0) % len == i) by (nonlinear_arith)
            requires
                0 <= i < len,
        ;
    } else {
        assert forall|x: int| 0 <= x < len implies !bwd(#[trigger] m[x]) by {
            if x > 0 {
                assert(match_lt(m[0], m[x]));
            }
        }
        lemma_last_index_skip(m, bwd, 0, len);
        assert(select(m, there, SearchDirection::Backward, false) == Some(len - 1));
        assert((len - 1 + len - 0) % len == len - 1) by (nonlinear_arith)
            requires
                0 < len,
        ;
    }
}
/// The texts of string lines.
pub open spec fn string_texts(lines: Seq<String>) -> Seq<Seq<char>> {
    lines.map_values(|l: String| l@)
}

/// Borrows each line as a string slice.
pub fn line_texts(lines: &[String]) -> (r: Vec<&str>)
    ensures
        text_of(r@) == string_texts(lines@),
        all_fit(text_of(r@)),
{
    let mut r: Vec<&str> = Vec::new();
    let mut i: usize = 0;
    while i < lines.len()
        invariant
            i <= lines@.len(),
            r@.len() == i,
            forall|j: int| 0 <= j < i ==> (#[trigger] r@[j])@ == lines@[j]@,
            forall|j: int| 0 <= j < i ==> crate::text::fits((#[trigger] r@[j])@),
        decreases lines@.len() - i,
    {
        let t = lines[i].as_str();
        crate::text::str_fits(t);
        r.push(t);
        i = i + 1;
    }
    assert(text_of(r@) =~= string_texts(lines@));
    r
}

/// The texts of diff lines.
pub open spec fn diff_texts(lines: Seq<crate::domain::diff::DiffLine>) -> Seq<Seq<char>> {
    lines.map_values(|l: crate::domain::diff::DiffLine| l.text@)
}

/// Borrows the text of each diff line.
pub fn diff_line_texts(lines: &[crate::domain::diff::DiffLine]) -> (r: Vec<&str>)
    ensures
        text_of(r@) == diff_texts(lines@),
        all_fit(text_of(r@)),
{
    let mut r: Vec<&str> = Vec::new();
    let mut i: usize = 0;
    while i < lines.len()
        invariant
            i <= lines@.len(),
            r@.len() == i,
            forall|j: int| 0 <= j < i ==> (#[trigger] r@[j])@ == lines@[j].text@,
            forall|j: int| 0 <= j < i ==> crate::text::fits((#[trigger] r@[j])@),
        decreases lines@.len() - i,
    {
        let t = lines[i].text.as_str();
        crate::text::str_fits(t);
        r.push(t);
        i = i + 1;
    }
    assert(text_of(r@) =~= diff_texts(lines@));
    r
}

/// A single text as a one-line document.
pub fn single_text(t: &str) -> (r: Vec<&str>)
    ensures
        text_of(r@) == seq![t@],
        all_fit(text_of(r@)),
{
    crate::text::str_fits(t);
    let mut r: Vec<&str> = Vec::new();
    r.push(t);
    assert(text_of(r@) =~= seq![t@]);
    r
}

/// `new` keeps the confirmed search of `old`: its query, direction, word
/// mode, matches and selected match.
pub open spec fn keeps_confirmed(old: SearchState, new: SearchState) -> bool {
    &&& new.query_view() == old.query_view()
    &&& new.direction_view() == old.direction_view()
    &&& new.whole_word_view() == old.whole_word_view()
    &&& new.matches_view() == old.matches_view()
    &&& new.current_view() == old.current_view()
}

/// One edit of an open prompt: typing a character or deleting the last one.
pub open spec fn prompt_edit(old: SearchState, new: SearchState) -> bool {
    deleted(old, new) || exists|c: char| #[trigger] typed(old, new, c)
}

proof fn lemma_edits_keep(states: Seq<SearchState>, n: int)
    requires
        1 <= n < states.len(),
        forall|i: int| 1 <= i < n ==> #[trigger] prompt_edit(states[i], states[i + 1]),
    ensures
        keeps_confirmed(states[1], states[n]),
    decreases n,
{
    if n > 1 {
        lemma_edits_keep(states, n - 1);
        let k = n - 1;
        assert(1 <= k < n);
        assert(prompt_edit(states[k], states[k + 1]));
        assert(states[k + 1] == states[n]);
        if !deleted(states[n - 1], states[n]) {
            let c = choose|c: char| #[trigger] typed(states[n - 1], states[n], c);
        }
    }
}

/// Opening a prompt, editing it in any way and cancelling it keeps the
/// previously confirmed search: its query, direction, matches and selected
/// match, with no prompt left open. `states` are the states after `begin`,
/// any number of `push` and `pop` calls, and `cancel_input`, each step as
/// those methods state it.
pub proof fn lemma_cancel_keeps_confirmed_search(states: Seq<SearchState>, d: SearchDirection)
    requires
        states.len() >= 3,
        prompt_set(states[0], states[1], Some((d, Seq::empty()))),
        forall|i: int| 1 <= i < states.len() - 2 ==> #[trigger] prompt_edit(states[i], states[i + 1]),
        prompt_set(states[states.len() - 2], states[states.len() - 1], None),
    ensures
        keeps_confirmed(states[0], states[states.len() - 1]),
        states[states.len() - 1].prompt_view() is None,
{
    lemma_edits_keep(states, states.len() - 2);
}

} // verus!
