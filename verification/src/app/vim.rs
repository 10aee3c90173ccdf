//! Vim normal-mode cursor motion over read-only display text.
//!
//! Positions carry a line index and a UTF-8 byte column that always lies on a
//! character boundary of its line. Line-local rules are stated over character
//! indices and converted with the byte offsets of `crate::text`.

use crate::app::action::{VimMotion, VimMotionKind};
use crate::domain::source::SourcePosition;
use crate::text::{
    at_display, byte_len, display_prefix, fits, floor_index, last_col, lemma_floor_index,
    lemma_floor_of_offset, lemma_offset_mono, next_col, offset, prev_col, sat, Line,
};
use crate::unicode::{alphanumeric, is_alphanumeric, is_whitespace, terminal_width, whitespace};
use vstd::prelude::*;

verus! {

/// The visible part of a text pane, including any rendered gutter columns.
#[derive(Clone, Copy, Debug, PartialEq, Eq, Structural)]
pub struct Viewport {
    pub top: usize,
    pub left: usize,
    pub height: usize,
    pub width: usize,
    pub gutter: usize,
    pub desired_column: Option<usize>,
}

impl Viewport {
    /// A viewport of at least one row and one column.
    pub fn new(top: usize, left: usize, height: usize, width: usize, gutter: usize) -> (v: Viewport)
        ensures
            v == (Viewport {
                top,
                left,
                height: if height == 0 { 1 } else { height },
                width: if width == 0 { 1 } else { width },
                gutter,
                desired_column: None,
            }),
    {
        Viewport {
            top,
            left,
            height: if height == 0 { 1 } else { height },
            width: if width == 0 { 1 } else { width },
            gutter,
            desired_column: None,
        }
    }

    /// The same viewport remembering a wanted display column.
    pub fn with_desired_column(self, desired_column: Option<usize>) -> (v: Viewport)
        ensures
            v == (Viewport { desired_column, ..self }),
    {
        Viewport { desired_column, ..self }
    }
}

/// A cursor: line index and UTF-8 byte column.
#[derive(Clone, Copy, Debug, PartialEq, Eq, Structural)]
pub struct Position {
    pub line: usize,
    pub column: usize,
}

// ---------------------------------------------------------------------------
// The buffer model.

/// Number of lines; an empty document still has one empty line.
pub open spec fn nlines(t: Seq<Seq<char>>) -> int {
    if t.len() == 0 {
        1
    } else {
        t.len() as int
    }
}

pub open spec fn last_line(t: Seq<Seq<char>>) -> int {
    nlines(t) - 1
}

/// Line `i`, or the empty line past the end.
pub open spec fn line_at(t: Seq<Seq<char>>, i: int) -> Seq<char> {
    if 0 <= i < t.len() {
        t[i]
    } else {
        Seq::empty()
    }
}

/// The character index under a position's byte column.
pub open spec fn index_of(t: Seq<Seq<char>>, p: Position) -> int {
    floor_index(line_at(t, p.line as int), p.column as int)
}

/// The position of character index `k` on `line`.
pub open spec fn pos_at(t: Seq<Seq<char>>, line: int, k: int) -> Position {
    Position { line: line as usize, column: offset(line_at(t, line), k) as usize }
}

/// Every line fits in memory byte offsets.
pub open spec fn all_fit(t: Seq<Seq<char>>) -> bool {
    forall|i: int| 0 <= i < t.len() ==> fits(#[trigger] t[i])
}

/// A cursor on a character of its line (or column zero of an empty line).
pub open spec fn valid_pos(t: Seq<Seq<char>>, p: Position) -> bool {
    &&& p.line <= last_line(t)
    &&& exists|k: int|
        0 <= k <= last_col(line_at(t, p.line as int)) && #[trigger] offset(
            line_at(t, p.line as int),
            k,
        ) == p.column
}

/// The text of a slice of string slices.
pub open spec fn text_of(lines: Seq<&str>) -> Seq<Seq<char>> {
    lines.map_values(|s: &str| s@)
}

/// The document being navigated.
pub struct TextBuffer {
    pub lines: Vec<Line>,
    pub empty: Line,
}

impl TextBuffer {
    pub open spec fn view(&self) -> Seq<Seq<char>> {
        self.lines@.map_values(|l: Line| l.chars@)
    }

    pub open spec fn wf(&self) -> bool {
        &&& forall|i: int| 0 <= i < self.lines@.len() ==> (#[trigger] self.lines@[i]).wf()
        &&& self.empty.wf()
        &&& self.empty.chars@.len() == 0
        &&& all_fit(self.view())
    }

    /// Builds the buffer model of `lines`.
    pub fn new(lines: &[&str]) -> (b: TextBuffer)
        requires
            all_fit(text_of(lines@)),
        ensures
            b.wf(),
            b.view() == text_of(lines@),
    {
        let mut out: Vec<Line> = Vec::new();
        let mut i: usize = 0;
        while i < lines.len()
            invariant
                i <= lines@.len(),
                all_fit(text_of(lines@)),
                out@.len() == i,
                forall|j: int| 0 <= j < i ==> (#[trigger] out@[j]).wf(),
                forall|j: int| 0 <= j < i ==> #[trigger] out@[j].chars@ == lines@[j]@,
            decreases lines@.len() - i,
        {
            assert(fits(text_of(lines@)[i as int]));
            out.push(Line::new(lines[i]));
            i = i + 1;
        }
        let empty = Line::from_chars(Vec::new());
        let b = TextBuffer { lines: out, empty };
        assert(b.view() =~= text_of(lines@));
        b
    }

    /// The number of lines (at least one).
    pub fn len(&self) -> (n: usize)
        requires
            self.wf(),
        ensures
            n == nlines(self.view()),
    {
        if self.lines.len() == 0 {
            1
        } else {
            self.lines.len()
        }
    }

    pub fn last_line(&self) -> (n: usize)
        requires
            self.wf(),
        ensures
            n == last_line(self.view()),
    {
        self.len() - 1
    }

    /// Line `i`, or the empty line past the end.
    pub fn line(&self, i: usize) -> (l: &Line)
        requires
            self.wf(),
        ensures
            l.wf(),
            l.chars@ == line_at(self.view(), i as int),
            fits(l.chars@),
    {
        if i < self.lines.len() {
            assert(self.view()[i as int] == self.lines@[i as int].chars@);
            &self.lines[i]
        } else {
            proof {
                assert(offset(self.empty.chars@, 0) == 0);
            }
            &self.empty
        }
    }

    /// Clamps an outside position onto a character of the buffer.
    pub fn clamp(&self, position: SourcePosition) -> (p: Position)
        requires
            self.wf(),
        ensures
            p == clamp_spec(self.view(), position),
            valid_pos(self.view(), p),
    {
        let last = self.last_line();
        let line = if (position.line as usize) < last {
            position.line as usize
        } else {
            last
        };
        let l = self.line(line);
        let mut k = l.floor_index(position.byte_column);
        if k == l.len() && l.len() > 0 {
            k = l.last_col();
        }
        proof {
            lemma_floor_index(l.chars@, position.byte_column as int);
        }
        let p = Position { line, column: l.offset_of(k) };
        proof {
            lemma_valid_at(self.view(), line as int, k as int);
        }
        p
    }
}

/// The position an outside position clamps to.
pub open spec fn clamp_spec(t: Seq<Seq<char>>, sp: SourcePosition) -> Position {
    let line = if (sp.line as int) < last_line(t) {
        sp.line as int
    } else {
        last_line(t)
    };
    let l = line_at(t, line);
    let k = floor_index(l, sp.byte_column as int);
    let k2 = if k == l.len() && l.len() > 0 {
        last_col(l)
    } else {
        k
    };
    pos_at(t, line, k2)
}

pub proof fn lemma_valid_at(t: Seq<Seq<char>>, line: int, k: int)
    requires
        all_fit(t),
        0 <= line <= last_line(t),
        line <= usize::MAX,
        0 <= k <= last_col(line_at(t, line)),
    ensures
        valid_pos(t, pos_at(t, line, k)),
        index_of(t, pos_at(t, line, k)) == k,
{
    let l = line_at(t, line);
    lemma_offset_mono(l, k, l.len() as int);
    if line < t.len() {
        assert(fits(t[line]));
    } else {
        assert(offset(l, 0) == 0);
    }
    assert(offset(l, k) <= usize::MAX);
    lemma_floor_of_offset(l, k);
    let p = pos_at(t, line, k);
    assert(p.column as int == offset(l, k));
    assert(p.line as int == line);
}

// ---------------------------------------------------------------------------
// Line-local character rules, over character indices.

/// The first index `j >= i` whose character is not whitespace, or the length.
pub open spec fn non_blank_from(l: Seq<char>, i: int) -> int
    decreases l.len() - i,
{
    if i < 0 || i >= l.len() {
        l.len() as int
    } else if !whitespace(l[i]) {
        i
    } else {
        non_blank_from(l, i + 1)
    }
}

/// `^`: the first non-blank character, or the line start.
pub open spec fn first_non_blank(l: Seq<char>) -> int {
    let j = non_blank_from(l, 0);
    if j < l.len() {
        j
    } else {
        0
    }
}

/// `g^` from a screen column: the first non-blank at or after `s`, or the last character.
pub open spec fn first_non_blank_after(l: Seq<char>, s: int) -> int {
    let j = non_blank_from(l, s);
    if j < l.len() {
        j
    } else {
        last_col(l)
    }
}

/// The last index `j < n` whose character is not whitespace, or -1.
pub open spec fn non_blank_below(l: Seq<char>, n: int) -> int
    decreases n,
{
    if n <= 0 || n > l.len() {
        -1
    } else if !whitespace(l[n - 1]) {
        n - 1
    } else {
        non_blank_below(l, n - 1)
    }
}

/// `g_`: the last non-blank character, or the line start.
pub open spec fn last_non_blank(l: Seq<char>) -> int {
    let j = non_blank_below(l, l.len() as int);
    if j >= 0 {
        j
    } else {
        0
    }
}

proof fn lemma_non_blank_from_range(l: Seq<char>, i: int)
    requires
        0 <= i <= l.len(),
    ensures
        i <= non_blank_from(l, i) <= l.len(),
    decreases l.len() - i,
{
    if i < l.len() && whitespace(l[i]) {
        lemma_non_blank_from_range(l, i + 1);
    }
}

proof fn lemma_non_blank_below_range(l: Seq<char>, n: int)
    requires
        0 <= n <= l.len(),
    ensures
        -1 <= non_blank_below(l, n) < n,
    decreases n,
{
    if n > 0 && whitespace(l[n - 1]) {
        lemma_non_blank_below_range(l, n - 1);
    }
}

fn non_blank_from_exec(l: &Line, i: usize) -> (j: usize)
    requires
        i <= l.chars@.len(),
    ensures
        j == non_blank_from(l.chars@, i as int),
        i <= j <= l.chars@.len(),
{
    let mut j = i;
    while j < l.chars.len() && is_whitespace(l.chars[j])
        invariant
            i <= j <= l.chars@.len(),
            non_blank_from(l.chars@, i as int) == non_blank_from(l.chars@, j as int),
        decreases l.chars@.len() - j,
    {
        j = j + 1;
    }
    j
}

pub(crate) fn first_non_blank_exec(l: &Line) -> (k: usize)
    ensures
        k == first_non_blank(l.chars@),
        k <= last_col(l.chars@),
{
    let j = non_blank_from_exec(l, 0);
    if j < l.chars.len() {
        j
    } else {
        0
    }
}

fn first_non_blank_from(l: &Line, s: usize) -> (k: usize)
    requires
        s <= l.chars@.len(),
    ensures
        k == first_non_blank_after(l.chars@, s as int),
        k <= last_col(l.chars@),
{
    let j = non_blank_from_exec(l, s);
    if j < l.chars.len() {
        j
    } else {
        l.last_col()
    }
}

fn last_non_blank_exec(l: &Line) -> (k: usize)
    ensures
        k == last_non_blank(l.chars@),
        k <= last_col(l.chars@),
{
    let mut n = l.chars.len();
    while n > 0 && is_whitespace(l.chars[n - 1])
        invariant
            n <= l.chars@.len(),
            non_blank_below(l.chars@, l.chars@.len() as int) == non_blank_below(l.chars@, n as int),
        decreases n,
    {
        n = n - 1;
    }
    if n > 0 {
        n - 1
    } else {
        0
    }
}

// ---------------------------------------------------------------------------
// Moving between lines.

/// Line `line + delta`, clamped into the buffer.
pub open spec fn shifted_line(t: Seq<Seq<char>>, line: int, delta: int) -> int {
    let raw = line + delta;
    if raw < 0 {
        0
    } else if raw > last_line(t) {
        last_line(t)
    } else {
        raw
    }
}

/// Keeps the byte column when moving to another line, clamped to its last
/// character and rounded down to a character boundary.
pub open spec fn move_to_line_spec(t: Seq<Seq<char>>, cur: Position, line: int) -> Position {
    let target = if line < last_line(t) {
        line
    } else {
        last_line(t)
    };
    let l = line_at(t, target);
    let last_byte = offset(l, last_col(l));
    let b = if (cur.column as int) < last_byte {
        cur.column as int
    } else {
        last_byte as int
    };
    pos_at(t, target, floor_index(l, b))
}

/// Moves to the display column `d` of another line (`usize::MAX` means the
/// line end).
pub open spec fn move_to_line_display_spec(t: Seq<Seq<char>>, line: int, d: usize) -> Position {
    let target = if line < last_line(t) {
        line
    } else {
        last_line(t)
    };
    let l = line_at(t, target);
    let k = if d == usize::MAX {
        last_col(l)
    } else {
        at_display(l, d as int)
    };
    pos_at(t, target, k)
}

/// A count as a signed line delta (saturating at `isize::MAX`).
pub open spec fn count_delta(count: usize) -> int {
    if count > isize::MAX {
        isize::MAX as int
    } else {
        count as int
    }
}

pub fn count_as_isize(count: usize) -> (d: isize)
    ensures
        d == count_delta(count),
{
    if count > isize::MAX as usize {
        isize::MAX
    } else {
        count as isize
    }
}

impl TextBuffer {
    fn shifted_line(&self, line: usize, delta: isize) -> (r: usize)
        requires
            self.wf(),
            delta > isize::MIN,
        ensures
            r == shifted_line(self.view(), line as int, delta as int),
    {
        let last = self.last_line();
        if delta < 0 {
            let back = (-delta) as usize;
            if back > line {
                0
            } else if line - back > last {
                last
            } else {
                line - back
            }
        } else {
            let forward = delta as usize;
            if line > last || forward > last - line {
                last
            } else {
                line + forward
            }
        }
    }

    fn move_to_line(&self, cur: Position, line: usize) -> (p: Position)
        requires
            self.wf(),
        ensures
            p == move_to_line_spec(self.view(), cur, line as int),
            valid_pos(self.view(), p),
    {
        let last = self.last_line();
        let target = if line < last {
            line
        } else {
            last
        };
        let l = self.line(target);
        let last_byte = l.offset_of(l.last_col());
        let b = if cur.column < last_byte {
            cur.column
        } else {
            last_byte
        };
        let k = l.floor_index(b);
        proof {
            lemma_floor_index(l.chars@, b as int);
            lemma_floor_of_offset(l.chars@, last_col(l.chars@));
            if k > last_col(l.chars@) {
                lemma_offset_mono(l.chars@, last_col(l.chars@) + 1, k as int);
            }
            lemma_valid_at(self.view(), target as int, k as int);
        }
        Position { line: target, column: l.offset_of(k) }
    }

    fn move_lines(&self, cur: Position, delta: isize) -> (p: Position)
        requires
            self.wf(),
            delta > isize::MIN,
        ensures
            p == move_to_line_spec(
                self.view(),
                cur,
                shifted_line(self.view(), cur.line as int, delta as int),
            ),
            valid_pos(self.view(), p),
    {
        let line = self.shifted_line(cur.line, delta);
        self.move_to_line(cur, line)
    }

    fn move_to_line_display(&self, line: usize, d: usize) -> (p: Position)
        requires
            self.wf(),
        ensures
            p == move_to_line_display_spec(self.view(), line as int, d),
            valid_pos(self.view(), p),
    {
        let last = self.last_line();
        let target = if line < last {
            line
        } else {
            last
        };
        let l = self.line(target);
        let k = if d == usize::MAX {
            l.last_col()
        } else {
            l.at_display(d)
        };
        proof {
            lemma_valid_at(self.view(), target as int, k as int);
        }
        Position { line: target, column: l.offset_of(k) }
    }

    fn move_lines_to_display(&self, cur: Position, delta: isize, d: usize) -> (p: Position)
        requires
            self.wf(),
            delta > isize::MIN,
        ensures
            p == move_to_line_display_spec(
                self.view(),
                shifted_line(self.view(), cur.line as int, delta as int),
                d,
            ),
            valid_pos(self.view(), p),
    {
        let line = self.shifted_line(cur.line, delta);
        self.move_to_line_display(line, d)
    }
}

// ---------------------------------------------------------------------------
// Single steps of the repeatable motions.

pub open spec fn left_step(t: Seq<Seq<char>>, p: Position) -> Position {
    pos_at(t, p.line as int, prev_col(index_of(t, p)))
}

pub open spec fn right_step(t: Seq<Seq<char>>, p: Position) -> Position {
    pos_at(t, p.line as int, next_col(line_at(t, p.line as int), index_of(t, p)))
}

/// Backspace: at a line start, continue at the end of the previous line.
pub open spec fn left_wrap_step(t: Seq<Seq<char>>, p: Position) -> Position {
    if p.column == 0 && p.line > 0 {
        pos_at(t, p.line - 1, last_col(line_at(t, p.line - 1)))
    } else {
        left_step(t, p)
    }
}

/// Space: at the last character, continue at the start of the next line.
pub open spec fn right_wrap_step(t: Seq<Seq<char>>, p: Position) -> Position {
    if index_of(t, p) >= last_col(line_at(t, p.line as int)) && p.line < last_line(t) {
        pos_at(t, p.line + 1, 0)
    } else {
        right_step(t, p)
    }
}

impl TextBuffer {
    fn left_step(&self, p: Position) -> (q: Position)
        requires
            self.wf(),
            valid_pos(self.view(), p),
        ensures
            q == left_step(self.view(), p),
            valid_pos(self.view(), q),
    {
        let l = self.line(p.line);
        let k = l.floor_index(p.column);
        proof {
            lemma_index_bound(self.view(), p);
        }
        let j = if k > 0 {
            k - 1
        } else {
            0
        };
        proof {
            lemma_valid_at(self.view(), p.line as int, j as int);
        }
        Position { line: p.line, column: l.offset_of(j) }
    }

    fn right_step(&self, p: Position) -> (q: Position)
        requires
            self.wf(),
            valid_pos(self.view(), p),
        ensures
            q == right_step(self.view(), p),
            valid_pos(self.view(), q),
    {
        let l = self.line(p.line);
        let k = l.floor_index(p.column);
        let j = l.next_col(k);
        proof {
            lemma_valid_at(self.view(), p.line as int, j as int);
        }
        Position { line: p.line, column: l.offset_of(j) }
    }

    fn left_wrap_step(&self, p: Position) -> (q: Position)
        requires
            self.wf(),
            valid_pos(self.view(), p),
        ensures
            q == left_wrap_step(self.view(), p),
            valid_pos(self.view(), q),
    {
        if p.column == 0 && p.line > 0 {
            let l = self.line(p.line - 1);
            let j = l.last_col();
            proof {
                lemma_valid_at(self.view(), p.line - 1, j as int);
            }
            Position { line: p.line - 1, column: l.offset_of(j) }
        } else {
            self.left_step(p)
        }
    }

    fn right_wrap_step(&self, p: Position) -> (q: Position)
        requires
            self.wf(),
            valid_pos(self.view(), p),
        ensures
            q == right_wrap_step(self.view(), p),
            valid_pos(self.view(), q),
    {
        let l = self.line(p.line);
        let k = l.floor_index(p.column);
        if k >= l.last_col() && p.line < self.last_line() {
            let next = self.line(p.line + 1);
            proof {
                lemma_valid_at(self.view(), p.line + 1, 0);
            }
            Position { line: p.line + 1, column: next.offset_of(0) }
        } else {
            self.right_step(p)
        }
    }
}

/// The character index of a valid position is on its line.
pub proof fn lemma_index_bound(t: Seq<Seq<char>>, p: Position)
    requires
        all_fit(t),
        valid_pos(t, p),
    ensures
        0 <= index_of(t, p) <= last_col(line_at(t, p.line as int)),
        pos_at(t, p.line as int, index_of(t, p)) == p,
{
    let l = line_at(t, p.line as int);
    let k = choose|k: int| 0 <= k <= last_col(l) && #[trigger] offset(l, k) == p.column;
    lemma_floor_of_offset(l, k);
}

// ---------------------------------------------------------------------------
// Line-structured motions: paragraphs, sections, and diff changes.

pub open spec fn is_empty_line(t: Seq<Seq<char>>, i: int) -> bool {
    line_at(t, i).len() == 0
}

/// The first line `j >= i` whose emptiness equals `empty`, or `nlines`.
pub open spec fn line_run_end(t: Seq<Seq<char>>, i: int, empty: bool) -> int
    decreases nlines(t) - i,
{
    if i < 0 || i >= nlines(t) {
        nlines(t)
    } else if is_empty_line(t, i) == empty {
        i
    } else {
        line_run_end(t, i + 1, empty)
    }
}

/// Moving up from line `i` while the previous line's emptiness equals `empty`.
pub open spec fn line_run_start(t: Seq<Seq<char>>, i: int, empty: bool) -> int
    decreases i,
{
    if i <= 0 {
        0
    } else if is_empty_line(t, i - 1) == empty {
        line_run_start(t, i - 1, empty)
    } else {
        i
    }
}

/// `}`: past the current run of empty lines (if any) and the following
/// paragraph to the next empty line, or to the end of the buffer.
pub open spec fn paragraph_forward(t: Seq<Seq<char>>, p: Position) -> Position {
    let start = if is_empty_line(t, p.line as int) {
        line_run_end(t, p.line as int, false)
    } else {
        p.line + 1
    };
    let stop = line_run_end(t, start, true);
    if stop < nlines(t) {
        pos_at(t, stop, 0)
    } else {
        pos_at(t, last_line(t), last_col(line_at(t, last_line(t))))
    }
}

/// `{`: back over empty lines (if on one) and the previous paragraph to the
/// line after an empty line (or the buffer start); just above when the
/// previous line is empty.
pub open spec fn paragraph_backward(t: Seq<Seq<char>>, p: Position) -> Position {
    let line = p.line as int;
    if is_empty_line(t, line) {
        let above = line_run_start(t, line, true);
        let from = if above > 0 {
            above - 1
        } else {
            0
        };
        pos_at(t, line_run_start(t, from, false), 0)
    } else if line > 0 && is_empty_line(t, line - 1) {
        pos_at(t, line - 1, 0)
    } else {
        pos_at(t, line_run_start(t, line, false), 0)
    }
}

/// Whether a line starts with `c`.
pub open spec fn line_starts_with(t: Seq<Seq<char>>, i: int, c: char) -> bool {
    line_at(t, i).len() > 0 && line_at(t, i)[0] == c
}

/// The first line in `[i, nlines)` starting with `c`, or `nlines`.
pub open spec fn next_line_starting(t: Seq<Seq<char>>, i: int, c: char) -> int
    decreases nlines(t) - i,
{
    if i < 0 || i >= nlines(t) {
        nlines(t)
    } else if line_starts_with(t, i, c) {
        i
    } else {
        next_line_starting(t, i + 1, c)
    }
}

/// The last line in `[0, n)` starting with `c`, or -1.
pub open spec fn prev_line_starting(t: Seq<Seq<char>>, n: int, c: char) -> int
    decreases n,
{
    if n <= 0 {
        -1
    } else if line_starts_with(t, n - 1, c) {
        n - 1
    } else {
        prev_line_starting(t, n - 1, c)
    }
}

/// `[[`, `]]`, `[]`, `][`: the nearest line in a direction that starts with
/// the brace `c`.
pub open spec fn section(t: Seq<Seq<char>>, p: Position, forward: bool, c: char) -> Position {
    if forward {
        let j = next_line_starting(t, p.line + 1, c);
        if j < nlines(t) {
            pos_at(t, j, 0)
        } else {
            p
        }
    } else {
        let j = prev_line_starting(t, p.line as int, c);
        if j >= 0 {
            pos_at(t, j, 0)
        } else {
            p
        }
    }
}

/// An added or removed line of a patch (not a file header).
pub open spec fn is_diff_change(l: Seq<char>) -> bool {
    (l.len() > 0 && l[0] == '+' && !crate::text::starts_with(l, "+++"@)) || (l.len() > 0 && l[0]
        == '-' && !crate::text::starts_with(l, "---"@))
}

/// The first line of a run of changed lines.
pub open spec fn change_start(t: Seq<Seq<char>>, i: int) -> bool {
    is_diff_change(line_at(t, i)) && (i == 0 || !is_diff_change(line_at(t, i - 1)))
}

pub open spec fn next_change(t: Seq<Seq<char>>, i: int) -> int
    decreases nlines(t) - i,
{
    if i < 0 || i >= nlines(t) {
        nlines(t)
    } else if change_start(t, i) {
        i
    } else {
        next_change(t, i + 1)
    }
}

pub open spec fn prev_change(t: Seq<Seq<char>>, n: int) -> int
    decreases n,
{
    if n <= 0 {
        -1
    } else if change_start(t, n - 1) {
        n - 1
    } else {
        prev_change(t, n - 1)
    }
}

/// `]c` / `[c`: the start of the nearest change run in a direction.
pub open spec fn diff_change(t: Seq<Seq<char>>, p: Position, forward: bool) -> Position {
    if forward {
        let j = next_change(t, p.line + 1);
        if j < nlines(t) {
            pos_at(t, j, 0)
        } else {
            p
        }
    } else {
        let j = prev_change(t, p.line as int);
        if j >= 0 {
            pos_at(t, j, 0)
        } else {
            p
        }
    }
}

proof fn lemma_run_end_range(t: Seq<Seq<char>>, i: int, empty: bool)
    requires
        0 <= i <= nlines(t),
    ensures
        i <= line_run_end(t, i, empty) <= nlines(t),
    decreases nlines(t) - i,
{
    if i < nlines(t) && is_empty_line(t, i) != empty {
        lemma_run_end_range(t, i + 1, empty);
    }
}

proof fn lemma_run_start_range(t: Seq<Seq<char>>, i: int, empty: bool)
    requires
        0 <= i,
    ensures
        0 <= line_run_start(t, i, empty) <= i,
    decreases i,
{
    if i > 0 && is_empty_line(t, i - 1) == empty {
        lemma_run_start_range(t, i - 1, empty);
    }
}

proof fn lemma_next_line_starting_range(t: Seq<Seq<char>>, i: int, c: char)
    requires
        0 <= i <= nlines(t),
    ensures
        i <= next_line_starting(t, i, c) <= nlines(t),
    decreases nlines(t) - i,
{
    if i < nlines(t) && !line_starts_with(t, i, c) {
        lemma_next_line_starting_range(t, i + 1, c);
    }
}

proof fn lemma_prev_line_starting_range(t: Seq<Seq<char>>, n: int, c: char)
    requires
        0 <= n,
    ensures
        -1 <= prev_line_starting(t, n, c) < n,
    decreases n,
{
    if n > 0 && !line_starts_with(t, n - 1, c) {
        lemma_prev_line_starting_range(t, n - 1, c);
    }
}

proof fn lemma_next_change_range(t: Seq<Seq<char>>, i: int)
    requires
        0 <= i <= nlines(t),
    ensures
        i <= next_change(t, i) <= nlines(t),
    decreases nlines(t) - i,
{
    if i < nlines(t) && !change_start(t, i) {
        lemma_next_change_range(t, i + 1);
    }
}

proof fn lemma_prev_change_range(t: Seq<Seq<char>>, n: int)
    requires
        0 <= n,
    ensures
        -1 <= prev_change(t, n) < n,
    decreases n,
{
    if n > 0 && !change_start(t, n - 1) {
        lemma_prev_change_range(t, n - 1);
    }
}

impl TextBuffer {
    fn is_empty_line(&self, i: usize) -> (b: bool)
        requires
            self.wf(),
        ensures
            b == is_empty_line(self.view(), i as int),
    {
        self.line(i).len() == 0
    }

    fn run_end(&self, i: usize, empty: bool) -> (j: usize)
        requires
            self.wf(),
            i <= nlines(self.view()),
        ensures
            j == line_run_end(self.view(), i as int, empty),
            i <= j <= nlines(self.view()),
    {
        let n = self.len();
        let mut j = i;
        while j < n && self.is_empty_line(j) != empty
            invariant
                self.wf(),
                n == nlines(self.view()),
                i <= j <= n,
                line_run_end(self.view(), i as int, empty) == line_run_end(self.view(), j as int, empty),
            decreases n - j,
        {
            j = j + 1;
        }
        j
    }

    fn run_start(&self, i: usize, empty: bool) -> (j: usize)
        requires
            self.wf(),
        ensures
            j == line_run_start(self.view(), i as int, empty),
            j <= i,
    {
        let mut j = i;
        while j > 0 && self.is_empty_line(j - 1) == empty
            invariant
                self.wf(),
                j <= i,
                line_run_start(self.view(), i as int, empty) == line_run_start(self.view(), j as int, empty),
            decreases j,
        {
            j = j - 1;
        }
        j
    }

    fn paragraph_forward(&self, p: Position) -> (q: Position)
        requires
            self.wf(),
            valid_pos(self.view(), p),
        ensures
            q == paragraph_forward(self.view(), p),
            valid_pos(self.view(), q),
    {
        let n = self.len();
        let start = if self.is_empty_line(p.line) {
            self.run_end(p.line, false)
        } else {
            p.line + 1
        };
        let stop = self.run_end(start, true);
        if stop < n {
            proof {
                lemma_valid_at(self.view(), stop as int, 0);
            }
            Position { line: stop, column: self.line(stop).offset_of(0) }
        } else {
            let last = self.last_line();
            let l = self.line(last);
            proof {
                lemma_valid_at(self.view(), last as int, last_col(l.chars@));
            }
            Position { line: last, column: l.offset_of(l.last_col()) }
        }
    }

    fn paragraph_backward(&self, p: Position) -> (q: Position)
        requires
            self.wf(),
            valid_pos(self.view(), p),
        ensures
            q == paragraph_backward(self.view(), p),
            valid_pos(self.view(), q),
    {
        let line = p.line;
        let target = if self.is_empty_line(line) {
            let above = self.run_start(line, true);
            let from = if above > 0 {
                above - 1
            } else {
                0
            };
            self.run_start(from, false)
        } else if line > 0 && self.is_empty_line(line - 1) {
            line - 1
        } else {
            self.run_start(line, false)
        };
        proof {
            lemma_valid_at(self.view(), target as int, 0);
        }
        Position { line: target, column: self.line(target).offset_of(0) }
    }

    fn starts_with_char(&self, i: usize, c: char) -> (b: bool)
        requires
            self.wf(),
        ensures
            b == line_starts_with(self.view(), i as int, c),
    {
        let l = self.line(i);
        l.len() > 0 && l.chars[0] == c
    }

    fn section(&self, p: Position, forward: bool, c: char) -> (q: Position)
        requires
            self.wf(),
            valid_pos(self.view(), p),
        ensures
            q == section(self.view(), p, forward, c),
            valid_pos(self.view(), q),
    {
        let n = self.len();
        if forward {
            let mut j = p.line + 1;
            while j < n && !self.starts_with_char(j, c)
                invariant
                    self.wf(),
                    n == nlines(self.view()),
                    p.line + 1 <= j <= n,
                    next_line_starting(self.view(), p.line + 1, c) == next_line_starting(self.view(), j as int, c),
                decreases n - j,
            {
                j = j + 1;
            }
            if j < n {
                proof {
                    lemma_valid_at(self.view(), j as int, 0);
                }
                Position { line: j, column: self.line(j).offset_of(0) }
            } else {
                p
            }
        } else {
            let mut j = p.line;
            while j > 0 && !self.starts_with_char(j - 1, c)
                invariant
                    self.wf(),
                    j <= p.line,
                    prev_line_starting(self.view(), p.line as int, c) == prev_line_starting(self.view(), j as int, c),
                decreases j,
            {
                j = j - 1;
            }
            if j > 0 {
                proof {
                    lemma_valid_at(self.view(), j - 1, 0);
                }
                Position { line: j - 1, column: self.line(j - 1).offset_of(0) }
            } else {
                p
            }
        }
    }

    fn is_change(&self, i: usize) -> (b: bool)
        requires
            self.wf(),
        ensures
            b == is_diff_change(line_at(self.view(), i as int)),
    {
        let l = self.line(i);
        let plus = crate::text::chars_of("+++");
        let minus = crate::text::chars_of("---");
        (l.len() > 0 && l.chars[0] == '+' && !crate::text::starts_with_exec(&l.chars, &plus)) || (
        l.len() > 0 && l.chars[0] == '-' && !crate::text::starts_with_exec(&l.chars, &minus))
    }

    fn is_change_start(&self, i: usize) -> (b: bool)
        requires
            self.wf(),
        ensures
            b == change_start(self.view(), i as int),
    {
        self.is_change(i) && (i == 0 || !self.is_change(i - 1))
    }

    fn diff_change(&self, p: Position, forward: bool) -> (q: Position)
        requires
            self.wf(),
            valid_pos(self.view(), p),
        ensures
            q == diff_change(self.view(), p, forward),
            valid_pos(self.view(), q),
    {
        let n = self.len();
        if forward {
            let mut j = p.line + 1;
            while j < n && !self.is_change_start(j)
                invariant
                    self.wf(),
                    n == nlines(self.view()),
                    p.line + 1 <= j <= n,
                    next_change(self.view(), p.line + 1) == next_change(self.view(), j as int),
                decreases n - j,
            {
                j = j + 1;
            }
            if j < n {
                proof {
                    lemma_valid_at(self.view(), j as int, 0);
                }
                Position { line: j, column: self.line(j).offset_of(0) }
            } else {
                p
            }
        } else {
            let mut j = p.line;
            while j > 0 && !self.is_change_start(j - 1)
                invariant
                    self.wf(),
                    j <= p.line,
                    prev_change(self.view(), p.line as int) == prev_change(self.view(), j as int),
                decreases j,
            {
                j = j - 1;
            }
            if j > 0 {
                proof {
                    lemma_valid_at(self.view(), j - 1, 0);
                }
                Position { line: j - 1, column: self.line(j - 1).offset_of(0) }
            } else {
                p
            }
        }
    }
}

// ---------------------------------------------------------------------------
// Searching the document for fixed text: comments and braces.

/// The first index `j >= i` of `l` where `needle` occurs, or the length.
pub open spec fn occ_in_line(l: Seq<char>, needle: Seq<char>, i: int) -> int
    decreases l.len() - i,
{
    if i < 0 || i >= l.len() {
        l.len() as int
    } else if crate::text::occurs_at(l, i, needle) {
        i
    } else {
        occ_in_line(l, needle, i + 1)
    }
}

/// The last index `j < n` of `l` where `needle` occurs, or -1.
pub open spec fn occ_in_line_before(l: Seq<char>, needle: Seq<char>, n: int) -> int
    decreases n,
{
    if n <= 0 || n > l.len() {
        -1
    } else if crate::text::occurs_at(l, n - 1, needle) {
        n - 1
    } else {
        occ_in_line_before(l, needle, n - 1)
    }
}

/// The first occurrence of `needle` at or after character `i` of `line`, in
/// document order.
pub open spec fn occ_after(t: Seq<Seq<char>>, needle: Seq<char>, line: int, i: int) -> Option<
    Position,
>
    decreases nlines(t) - line,
{
    if line < 0 || line >= nlines(t) {
        None
    } else {
        let l = line_at(t, line);
        let k = occ_in_line(l, needle, i);
        if k < l.len() {
            Some(pos_at(t, line, k))
        } else {
            occ_after(t, needle, line + 1, 0)
        }
    }
}

/// The last occurrence of `needle` before character `n` of `line`, in
/// document order.
pub open spec fn occ_before(t: Seq<Seq<char>>, needle: Seq<char>, line: int, n: int) -> Option<
    Position,
>
    decreases line,
{
    if line < 0 || line >= nlines(t) {
        None
    } else {
        let l = line_at(t, line);
        let k = occ_in_line_before(l, needle, n);
        if k >= 0 {
            Some(pos_at(t, line, k))
        } else if line > 0 {
            occ_before(t, needle, line - 1, line_at(t, line - 1).len() as int)
        } else {
            None
        }
    }
}

/// The nearest occurrence of `needle` strictly after (or before) `p`, or `p`.
pub open spec fn nearest_occurrence(
    t: Seq<Seq<char>>,
    p: Position,
    needle: Seq<char>,
    forward: bool,
) -> Position {
    let found = if forward {
        occ_after(t, needle, p.line as int, index_of(t, p) + 1)
    } else {
        occ_before(t, needle, p.line as int, index_of(t, p))
    };
    match found {
        Some(q) => q,
        None => p,
    }
}

proof fn lemma_occ_in_line_range(l: Seq<char>, needle: Seq<char>, i: int)
    requires
        0 <= i <= l.len(),
    ensures
        i <= occ_in_line(l, needle, i) <= l.len(),
    decreases l.len() - i,
{
    if i < l.len() && !crate::text::occurs_at(l, i, needle) {
        lemma_occ_in_line_range(l, needle, i + 1);
    }
}

proof fn lemma_occ_before_range(l: Seq<char>, needle: Seq<char>, n: int)
    requires
        0 <= n <= l.len(),
    ensures
        -1 <= occ_in_line_before(l, needle, n) < n,
    decreases n,
{
    if n > 0 && !crate::text::occurs_at(l, n - 1, needle) {
        lemma_occ_before_range(l, needle, n - 1);
    }
}

impl TextBuffer {
    fn occ_after(&self, needle: &Vec<char>, line: usize, i: usize) -> (r: Option<Position>)
        requires
            self.wf(),
            line < nlines(self.view()),
        ensures
            r == occ_after(self.view(), needle@, line as int, i as int),
            r matches Some(q) ==> valid_pos(self.view(), q),
    {
        let n = self.len();
        let mut ln = line;
        let mut start = i;
        while ln < n
            invariant
                self.wf(),
                n == nlines(self.view()),
                line <= ln <= n,
                occ_after(self.view(), needle@, line as int, i as int) == occ_after(
                    self.view(),
                    needle@,
                    ln as int,
                    start as int,
                ),
            decreases n - ln,
        {
            let l = self.line(ln);
            let mut k = start;
            if k > l.len() {
                k = l.len();
            }
            assert(occ_in_line(l.chars@, needle@, start as int) == occ_in_line(l.chars@, needle@, k as int));
            while k < l.len() && !crate::text::occurs_at_exec(&l.chars, k, needle)
                invariant
                    k <= l.chars@.len(),
                    occ_in_line(l.chars@, needle@, start as int) == occ_in_line(l.chars@, needle@, k as int),
                decreases l.chars@.len() - k,
            {
                k = k + 1;
            }
            if k < l.len() {
                proof {
                    lemma_valid_at(self.view(), ln as int, k as int);
                }
                return Some(Position { line: ln, column: l.offset_of(k) });
            }
            ln = ln + 1;
            start = 0;
        }
        None
    }

    fn occ_before(&self, needle: &Vec<char>, line: usize, n0: usize) -> (r: Option<Position>)
        requires
            self.wf(),
            line < nlines(self.view()),
            n0 <= line_at(self.view(), line as int).len(),
        ensures
            r == occ_before(self.view(), needle@, line as int, n0 as int),
            r matches Some(q) ==> valid_pos(self.view(), q),
    {
        let mut ln = line;
        let mut n = n0;
        loop
            invariant
                self.wf(),
                ln <= line,
                line < nlines(self.view()),
                n <= line_at(self.view(), ln as int).len(),
                occ_before(self.view(), needle@, line as int, n0 as int) == occ_before(
                    self.view(),
                    needle@,
                    ln as int,
                    n as int,
                ),
            decreases ln,
        {
            let l = self.line(ln);
            let mut k = n;
            while k > 0 && !crate::text::occurs_at_exec(&l.chars, k - 1, needle)
                invariant
                    k <= n,
                    n <= l.chars@.len(),
                    occ_in_line_before(l.chars@, needle@, n as int) == occ_in_line_before(
                        l.chars@,
                        needle@,
                        k as int,
                    ),
                decreases k,
            {
                k = k - 1;
            }
            if k > 0 {
                proof {
                    crate::text::lemma_offset_mono(l.chars@, 0, 0);
                    lemma_valid_at(self.view(), ln as int, k - 1);
                }
                return Some(Position { line: ln, column: l.offset_of(k - 1) });
            }
            if ln == 0 {
                return None;
            }
            ln = ln - 1;
            n = self.line(ln).len();
        }
    }

    fn nearest_occurrence(&self, p: Position, needle: &Vec<char>, forward: bool) -> (q: Position)
        requires
            self.wf(),
            valid_pos(self.view(), p),
        ensures
            q == nearest_occurrence(self.view(), p, needle@, forward),
            valid_pos(self.view(), q),
    {
        let l = self.line(p.line);
        let k = l.floor_index(p.column);
        proof {
            lemma_index_bound(self.view(), p);
        }
        let len = l.len();
        assert(k <= len);
        let found = if forward {
            self.occ_after(needle, p.line, k + 1)
        } else {
            self.occ_before(needle, p.line, k)
        };
        match found {
            Some(q) => q,
            None => p,
        }
    }
}

// ---------------------------------------------------------------------------
// Unmatched delimiters: `[(`, `[{`, `])`, `]}`.

/// A nesting depth increased by one, saturating at `usize::MAX`.
pub open spec fn sat_inc(depth: nat) -> nat {
    if depth < usize::MAX {
        depth + 1
    } else {
        depth
    }
}

/// Scanning backward from just before character `n` of `line`, the first
/// `open` that is not closed by a later `close` (given `depth` pending closes).
pub open spec fn unmatched_back(
    t: Seq<Seq<char>>,
    line: int,
    n: int,
    depth: nat,
    open: char,
    close: char,
) -> Option<Position>
    decreases line, n,
{
    if line < 0 || line >= nlines(t) {
        None
    } else if 0 < n <= line_at(t, line).len() {
        let c = line_at(t, line)[n - 1];
        if c == close {
            unmatched_back(t, line, n - 1, sat_inc(depth), open, close)
        } else if c == open {
            if depth == 0 {
                Some(pos_at(t, line, n - 1))
            } else {
                unmatched_back(t, line, n - 1, (depth - 1) as nat, open, close)
            }
        } else {
            unmatched_back(t, line, n - 1, depth, open, close)
        }
    } else if line > 0 {
        unmatched_back(t, line - 1, line_at(t, line - 1).len() as int, depth, open, close)
    } else {
        None
    }
}

/// Scanning forward from character `i` of `line`, the first `close` that is
/// not opened by an earlier `open`.
pub open spec fn unmatched_fwd(
    t: Seq<Seq<char>>,
    line: int,
    i: int,
    depth: nat,
    open: char,
    close: char,
) -> Option<Position>
    decreases nlines(t) - line, line_at(t, line).len() - i,
{
    if line < 0 || line >= nlines(t) {
        None
    } else if 0 <= i < line_at(t, line).len() {
        let c = line_at(t, line)[i];
        if c == open {
            unmatched_fwd(t, line, i + 1, sat_inc(depth), open, close)
        } else if c == close {
            if depth == 0 {
                Some(pos_at(t, line, i))
            } else {
                unmatched_fwd(t, line, i + 1, (depth - 1) as nat, open, close)
            }
        } else {
            unmatched_fwd(t, line, i + 1, depth, open, close)
        }
    } else {
        unmatched_fwd(t, line + 1, 0, depth, open, close)
    }
}

/// The closing partner of an opening bracket.
pub open spec fn closer_of(c: char) -> Option<char> {
    if c == '(' {
        Some(')')
    } else if c == '{' {
        Some('}')
    } else if c == '[' {
        Some(']')
    } else {
        None
    }
}

/// The opening partner of a closing bracket.
pub open spec fn opener_of(c: char) -> Option<char> {
    if c == ')' {
        Some('(')
    } else if c == '}' {
        Some('{')
    } else if c == ']' {
        Some('[')
    } else {
        None
    }
}

/// `[(` / `[{`: the enclosing unmatched opening bracket before the cursor.
pub open spec fn unmatched_open(t: Seq<Seq<char>>, p: Position, open: char) -> Position {
    match closer_of(open) {
        None => p,
        Some(close) => match unmatched_back(t, p.line as int, index_of(t, p), 0, open, close) {
            Some(q) => q,
            None => p,
        },
    }
}

/// `])` / `]}`: the enclosing unmatched closing bracket after the cursor.
pub open spec fn unmatched_close(t: Seq<Seq<char>>, p: Position, close: char) -> Position {
    match opener_of(close) {
        None => p,
        Some(open) => match unmatched_fwd(t, p.line as int, index_of(t, p) + 1, 0, open, close) {
            Some(q) => q,
            None => p,
        },
    }
}

impl TextBuffer {
    fn unmatched_back(&self, line0: usize, n0: usize, open: char, close: char) -> (r: Option<Position>)
        requires
            self.wf(),
            line0 < nlines(self.view()),
            n0 <= line_at(self.view(), line0 as int).len(),
        ensures
            r == unmatched_back(self.view(), line0 as int, n0 as int, 0, open, close),
            r matches Some(q) ==> valid_pos(self.view(), q),
    {
        let mut line = line0;
        let mut n = n0;
        let mut depth: usize = 0;
        loop
            invariant
                self.wf(),
                line < nlines(self.view()),
                n <= line_at(self.view(), line as int).len(),
                unmatched_back(self.view(), line0 as int, n0 as int, 0, open, close)
                    == unmatched_back(self.view(), line as int, n as int, depth as nat, open, close),
            decreases line, n,
        {
            let l = self.line(line);
            if n > 0 {
                let c = l.chars[n - 1];
                if c == close {
                    if depth < usize::MAX {
                        depth = depth + 1;
                    }
                } else if c == open {
                    if depth == 0 {
                        proof {
                            lemma_valid_at(self.view(), line as int, n - 1);
                        }
                        return Some(Position { line, column: l.offset_of(n - 1) });
                    }
                    depth = depth - 1;
                }
                n = n - 1;
            } else if line > 0 {
                line = line - 1;
                n = self.line(line).len();
            } else {
                return None;
            }
        }
    }

    fn unmatched_fwd(&self, line0: usize, i0: usize, open: char, close: char) -> (r: Option<Position>)
        requires
            self.wf(),
            line0 < nlines(self.view()),
        ensures
            r == unmatched_fwd(self.view(), line0 as int, i0 as int, 0, open, close),
            r matches Some(q) ==> valid_pos(self.view(), q),
    {
        let nl = self.len();
        let mut line = line0;
        let mut i = i0;
        let mut depth: usize = 0;
        while line < nl
            invariant
                self.wf(),
                nl == nlines(self.view()),
                line <= nl,
                unmatched_fwd(self.view(), line0 as int, i0 as int, 0, open, close)
                    == unmatched_fwd(self.view(), line as int, i as int, depth as nat, open, close),
            decreases nl - line, line_at(self.view(), line as int).len() - i,
        {
            let l = self.line(line);
            if i < l.len() {
                let c = l.chars[i];
                if c == open {
                    if depth < usize::MAX {
                        depth = depth + 1;
                    }
                } else if c == close {
                    if depth == 0 {
                        proof {
                            lemma_valid_at(self.view(), line as int, i as int);
                        }
                        return Some(Position { line, column: l.offset_of(i) });
                    }
                    depth = depth - 1;
                }
                i = i + 1;
            } else {
                line = line + 1;
                i = 0;
            }
        }
        None
    }

    fn unmatched_open(&self, p: Position, open: char) -> (q: Position)
        requires
            self.wf(),
            valid_pos(self.view(), p),
        ensures
            q == unmatched_open(self.view(), p, open),
            valid_pos(self.view(), q),
    {
        let close = if open == '(' {
            ')'
        } else if open == '{' {
            '}'
        } else if open == '[' {
            ']'
        } else {
            return p;
        };
        let l = self.line(p.line);
        let k = l.floor_index(p.column);
        proof {
            lemma_index_bound(self.view(), p);
        }
        match self.unmatched_back(p.line, k, open, close) {
            Some(q) => q,
            None => p,
        }
    }

    fn unmatched_close(&self, p: Position, close: char) -> (q: Position)
        requires
            self.wf(),
            valid_pos(self.view(), p),
        ensures
            q == unmatched_close(self.view(), p, close),
            valid_pos(self.view(), q),
    {
        let open = if close == ')' {
            '('
        } else if close == '}' {
            '{'
        } else if close == ']' {
            '['
        } else {
            return p;
        };
        let l = self.line(p.line);
        let k = l.floor_index(p.column);
        proof {
            lemma_index_bound(self.view(), p);
        }
        let len = l.len();
        assert(k <= len);
        match self.unmatched_fwd(p.line, k + 1, open, close) {
            Some(q) => q,
            None => p,
        }
    }
}

// ---------------------------------------------------------------------------
// Preprocessor conditionals: `#if`, `#else` / `#elif`, `#endif`.

/// The kind of a conditional preprocessor line.
#[derive(Clone, Copy, Debug, PartialEq, Eq, Structural)]
pub enum Directive {
    If,
    Else,
    EndIf,
}

/// The directive of a line and the index of its `#`: after leading blanks,
/// `#`, optional blanks, then a word starting `if`, `else`/`elif`, or `endif`.
pub open spec fn directive(l: Seq<char>) -> Option<(int, Directive)> {
    let col = first_non_blank(l);
    if col < l.len() && l[col] == '#' {
        let rest = l.subrange(col + 1, l.len() as int);
        let word = rest.subrange(non_blank_from(rest, 0), rest.len() as int);
        if crate::text::starts_with(word, "if"@) {
            Some((col, Directive::If))
        } else if crate::text::starts_with(word, "else"@) || crate::text::starts_with(word, "elif"@) {
            Some((col, Directive::Else))
        } else if crate::text::starts_with(word, "endif"@) {
            Some((col, Directive::EndIf))
        } else {
            None
        }
    } else {
        None
    }
}

/// Forward from `line`: the first `#endif` or `#else` at nesting depth zero.
pub open spec fn pre_fwd(t: Seq<Seq<char>>, line: int, depth: nat) -> Option<Position>
    decreases nlines(t) - line,
{
    if line < 0 || line >= nlines(t) {
        None
    } else {
        match directive(line_at(t, line)) {
            None => pre_fwd(t, line + 1, depth),
            Some((col, d)) => if d == Directive::If {
                pre_fwd(t, line + 1, sat_inc(depth))
            } else if depth == 0 {
                Some(pos_at(t, line, col))
            } else if d == Directive::EndIf {
                pre_fwd(t, line + 1, (depth - 1) as nat)
            } else {
                pre_fwd(t, line + 1, depth)
            },
        }
    }
}

/// Backward from line `n - 1`: the first `#if` (or, when `stop_at_else`,
/// `#else`) at nesting depth zero.
pub open spec fn pre_back(t: Seq<Seq<char>>, n: int, depth: nat, stop_at_else: bool) -> Option<
    Position,
>
    decreases n,
{
    if n <= 0 || n > nlines(t) {
        None
    } else {
        match directive(line_at(t, n - 1)) {
            None => pre_back(t, n - 1, depth, stop_at_else),
            Some((col, d)) => if d == Directive::EndIf {
                pre_back(t, n - 1, sat_inc(depth), stop_at_else)
            } else if d == Directive::If {
                if depth == 0 {
                    Some(pos_at(t, n - 1, col))
                } else {
                    pre_back(t, n - 1, (depth - 1) as nat, stop_at_else)
                }
            } else if stop_at_else && depth == 0 {
                Some(pos_at(t, n - 1, col))
            } else {
                pre_back(t, n - 1, depth, stop_at_else)
            },
        }
    }
}

/// `]#` / `[#`: the next or previous unmatched conditional directive.
pub open spec fn preprocessor(t: Seq<Seq<char>>, p: Position, forward: bool) -> Position {
    let found = if forward {
        pre_fwd(t, p.line + 1, 0)
    } else {
        pre_back(t, p.line as int, 0, true)
    };
    match found {
        Some(q) => q,
        None => p,
    }
}

proof fn lemma_first_non_blank_bound(l: Seq<char>)
    ensures
        0 <= first_non_blank(l) <= last_col(l),
{
    lemma_non_blank_from_range(l, 0);
}

/// Reads the conditional directive of a line.
pub fn preprocessor_directive(l: &Line) -> (r: Option<(usize, Directive)>)
    ensures
        r matches Some((c, d)) ==> directive(l.chars@) == Some((c as int, d)),
        r is None ==> directive(l.chars@) is None,
{
    let col = first_non_blank_exec(l);
    proof {
        lemma_first_non_blank_bound(l.chars@);
    }
    if col < l.len() && l.chars[col] == '#' {
        let mut rest: Vec<char> = Vec::new();
        let mut i = col + 1;
        while i < l.len()
            invariant
                col + 1 <= i <= l.chars@.len(),
                rest@ == l.chars@.subrange(col + 1, i as int),
            decreases l.chars@.len() - i,
        {
            rest.push(l.chars[i]);
            i = i + 1;
        }
        let rest_line = Line { chars: rest, offsets: Vec::new() };
        let start = non_blank_from_exec(&rest_line, 0);
        let mut word: Vec<char> = Vec::new();
        let mut j = start;
        while j < rest_line.chars.len()
            invariant
                start <= j <= rest_line.chars@.len(),
                word@ == rest_line.chars@.subrange(start as int, j as int),
            decreases rest_line.chars@.len() - j,
        {
            word.push(rest_line.chars[j]);
            j = j + 1;
        }
        if crate::text::starts_with_exec(&word, &crate::text::chars_of("if")) {
            Some((col, Directive::If))
        } else if crate::text::starts_with_exec(&word, &crate::text::chars_of("else"))
            || crate::text::starts_with_exec(&word, &crate::text::chars_of("elif")) {
            Some((col, Directive::Else))
        } else if crate::text::starts_with_exec(&word, &crate::text::chars_of("endif")) {
            Some((col, Directive::EndIf))
        } else {
            None
        }
    } else {
        None
    }
}

impl TextBuffer {
    fn pre_fwd(&self, line0: usize) -> (r: Option<Position>)
        requires
            self.wf(),
        ensures
            r == pre_fwd(self.view(), line0 as int, 0),
            r matches Some(q) ==> valid_pos(self.view(), q),
    {
        let n = self.len();
        let mut line = line0;
        let mut depth: usize = 0;
        while line < n
            invariant
                self.wf(),
                n == nlines(self.view()),
                line0 <= line,
                pre_fwd(self.view(), line0 as int, 0) == pre_fwd(self.view(), line as int, depth as nat),
            decreases n - line,
        {
            let l = self.line(line);
            match preprocessor_directive(l) {
                None => {},
                Some((col, d)) => {
                    if d == Directive::If {
                        if depth < usize::MAX {
                            depth = depth + 1;
                        }
                    } else if depth == 0 {
                        proof {
                            lemma_first_non_blank_bound(l.chars@);
                            lemma_valid_at(self.view(), line as int, col as int);
                        }
                        return Some(Position { line, column: l.offset_of(col) });
                    } else if d == Directive::EndIf {
                        depth = depth - 1;
                    }
                },
            }
            line = line + 1;
        }
        None
    }

    fn pre_back(&self, n0: usize, stop_at_else: bool) -> (r: Option<Position>)
        requires
            self.wf(),
            n0 <= nlines(self.view()),
        ensures
            r == pre_back(self.view(), n0 as int, 0, stop_at_else),
            r matches Some(q) ==> valid_pos(self.view(), q),
    {
        let mut n = n0;
        let mut depth: usize = 0;
        while n > 0
            invariant
                self.wf(),
                n <= n0,
                n0 <= nlines(self.view()),
                pre_back(self.view(), n0 as int, 0, stop_at_else) == pre_back(
                    self.view(),
                    n as int,
                    depth as nat,
                    stop_at_else,
                ),
            decreases n,
        {
            let l = self.line(n - 1);
            match preprocessor_directive(l) {
                None => {},
                Some((col, d)) => {
                    if d == Directive::EndIf {
                        if depth < usize::MAX {
                            depth = depth + 1;
                        }
                    } else if d == Directive::If {
                        if depth == 0 {
                            proof {
                                lemma_first_non_blank_bound(l.chars@);
                                lemma_valid_at(self.view(), n - 1, col as int);
                            }
                            return Some(Position { line: n - 1, column: l.offset_of(col) });
                        }
                        depth = depth - 1;
                    } else if stop_at_else && depth == 0 {
                        proof {
                            lemma_first_non_blank_bound(l.chars@);
                            lemma_valid_at(self.view(), n - 1, col as int);
                        }
                        return Some(Position { line: n - 1, column: l.offset_of(col) });
                    }
                },
            }
            n = n - 1;
        }
        None
    }

    fn preprocessor(&self, p: Position, forward: bool) -> (q: Position)
        requires
            self.wf(),
            valid_pos(self.view(), p),
        ensures
            q == preprocessor(self.view(), p, forward),
            valid_pos(self.view(), q),
    {
        let n = self.len();
        let found = if forward {
            self.pre_fwd(p.line + 1)
        } else {
            self.pre_back(p.line, true)
        };
        match found {
            Some(q) => q,
            None => p,
        }
    }
}


// ---------------------------------------------------------------------------
// Ordering positions and picking the nearest one in a direction.

/// Reading order of positions.
pub open spec fn pos_lt(a: Position, b: Position) -> bool {
    a.line < b.line || (a.line == b.line && a.column < b.column)
}

/// `a` comes before `b` in the direction of travel.
pub open spec fn before(forward: bool, a: Position, b: Position) -> bool {
    if forward {
        pos_lt(a, b)
    } else {
        pos_lt(b, a)
    }
}

/// `best` is the nearest member of `set` beyond `p` in the direction of
/// travel, or `None` when no member lies beyond `p`.
pub open spec fn nearest_in(
    set: spec_fn(Position) -> bool,
    p: Position,
    forward: bool,
    best: Option<Position>,
) -> bool {
    match best {
        None => forall|q: Position| #[trigger] set(q) ==> !before(forward, p, q),
        Some(b) => {
            &&& set(b)
            &&& before(forward, p, b)
            &&& forall|q: Position| #[trigger] set(q) && before(forward, p, q) ==> !before(forward, q, b)
        },
    }
}

/// Keeps the nearer of the current best and a new candidate.
pub open spec fn consider(p: Position, forward: bool, best: Option<Position>, c: Option<Position>) -> Option<
    Position,
> {
    match c {
        None => best,
        Some(q) => if before(forward, p, q) && (match best {
            None => true,
            Some(b) => before(forward, q, b),
        }) {
            Some(q)
        } else {
            best
        },
    }
}

proof fn lemma_consider(
    s: spec_fn(Position) -> bool,
    s2: spec_fn(Position) -> bool,
    p: Position,
    forward: bool,
    best: Option<Position>,
    c: Option<Position>,
)
    requires
        nearest_in(s, p, forward, best),
        forall|q: Position| #[trigger] s2(q) == (s(q) || c == Some(q)),
    ensures
        nearest_in(s2, p, forward, consider(p, forward, best, c)),
{
    let r = consider(p, forward, best, c);
    match r {
        None => {
            assert forall|q: Position| #[trigger] s2(q) implies !before(forward, p, q) by {
                if c == Some(q) {
                } else {
                    assert(s(q));
                }
            }
        },
        Some(b) => {
            assert(s2(b));
            assert forall|q: Position| #[trigger] s2(q) && before(forward, p, q) implies !before(
                forward,
                q,
                b,
            ) by {
                if s(q) {
                    match best {
                        None => {},
                        Some(b0) => {
                            assert(!before(forward, q, b0));
                        },
                    }
                }
            }
        },
    }
}

/// The position a search settles on: the nearest candidate, or `p` itself.
pub open spec fn nearest_or_stay(set: spec_fn(Position) -> bool, p: Position, forward: bool) -> Position {
    if exists|q: Position| nearest_in(set, p, forward, Some(q)) {
        choose|q: Position| nearest_in(set, p, forward, Some(q))
    } else {
        p
    }
}

proof fn lemma_nearest_unique(set: spec_fn(Position) -> bool, p: Position, forward: bool, best: Option<Position>)
    requires
        nearest_in(set, p, forward, best),
    ensures
        nearest_or_stay(set, p, forward) == (match best {
            Some(b) => b,
            None => p,
        }),
{
    match best {
        None => {
            if exists|q: Position| nearest_in(set, p, forward, Some(q)) {
                let q = choose|q: Position| nearest_in(set, p, forward, Some(q));
                assert(set(q));
            }
        },
        Some(b) => {
            assert(nearest_in(set, p, forward, Some(b)));
            let q = choose|q: Position| nearest_in(set, p, forward, Some(q));
            assert(set(q) && before(forward, p, q));
            assert(!before(forward, q, b));
            assert(!before(forward, b, q));
        },
    }
}

fn pos_lt_exec(a: Position, b: Position) -> (r: bool)
    ensures
        r == pos_lt(a, b),
{
    a.line < b.line || (a.line == b.line && a.column < b.column)
}

fn before_exec(forward: bool, a: Position, b: Position) -> (r: bool)
    ensures
        r == before(forward, a, b),
{
    if forward {
        pos_lt_exec(a, b)
    } else {
        pos_lt_exec(b, a)
    }
}

fn consider_exec(p: Position, forward: bool, best: Option<Position>, c: Option<Position>) -> (r: Option<
    Position,
>)
    ensures
        r == consider(p, forward, best, c),
{
    match c {
        None => best,
        Some(q) => {
            let nearer = match best {
                None => true,
                Some(b) => before_exec(forward, q, b),
            };
            if before_exec(forward, p, q) && nearer {
                Some(q)
            } else {
                best
            }
        },
    }
}

// ---------------------------------------------------------------------------
// Sentences: `(` and `)`.

/// A character that may close a sentence after its punctuation.
pub open spec fn is_closer(c: char) -> bool {
    c == ')' || c == ']' || c == '"' || c == '\''
}

/// The first index `j >= i` that is not a closer, or the length.
pub open spec fn closers_end(l: Seq<char>, i: int) -> int
    decreases l.len() - i,
{
    if i < 0 || i >= l.len() {
        l.len() as int
    } else if is_closer(l[i]) {
        closers_end(l, i + 1)
    } else {
        i
    }
}

/// `.`, `!` or `?` at index `k`, then optional closers, then whitespace or
/// the line end.
pub open spec fn ends_sentence(l: Seq<char>, k: int) -> bool {
    &&& 0 <= k < l.len()
    &&& (l[k] == '.' || l[k] == '!' || l[k] == '?')
    &&& (closers_end(l, k + 1) >= l.len() || whitespace(l[closers_end(l, k + 1)]))
}

/// The first non-blank character at or after character `k` of `line`, in
/// reading order.
pub open spec fn next_non_blank(t: Seq<Seq<char>>, line: int, k: int) -> Option<Position>
    decreases nlines(t) - line, line_at(t, line).len() - k,
{
    if line < 0 || line >= nlines(t) || k < 0 {
        None
    } else if k >= line_at(t, line).len() {
        next_non_blank(t, line + 1, 0)
    } else if !whitespace(line_at(t, line)[k]) {
        Some(pos_at(t, line, k))
    } else {
        next_non_blank(t, line, k + 1)
    }
}

/// Where the sentence after the punctuation at index `k` of `line` starts:
/// the first non-blank character after the one following the punctuation.
pub open spec fn sentence_after(t: Seq<Seq<char>>, line: int, k: int) -> Option<Position> {
    next_non_blank(t, line, k + 2)
}

/// Sentence starts: the first non-blank character of the document, the start
/// after each sentence end, and every empty line.
pub open spec fn is_sentence_start(t: Seq<Seq<char>>, q: Position) -> bool {
    ||| next_non_blank(t, 0, 0) == Some(q)
    ||| exists|l: int, k: int|
        0 <= l < nlines(t) && ends_sentence(line_at(t, l), k) && #[trigger] sentence_after(t, l, k)
            == Some(q)
    ||| (q.line < nlines(t) && q.column == 0 && is_empty_line(t, q.line as int))
}

/// Sentence starts found while scanning up to character `k` of `line`.
pub open spec fn starts_seen(t: Seq<Seq<char>>, line: int, k: int, q: Position) -> bool {
    ||| next_non_blank(t, 0, 0) == Some(q)
    ||| exists|l: int, j: int|
        0 <= l < nlines(t) && (l < line || (l == line && j < k)) && ends_sentence(line_at(t, l), j)
            && #[trigger] sentence_after(t, l, j) == Some(q)
    ||| (q.line < line && q.line < nlines(t) && q.column == 0 && is_empty_line(t, q.line as int))
}

/// `(` / `)`: the nearest sentence start before or after the cursor.
pub open spec fn sentence(t: Seq<Seq<char>>, p: Position, forward: bool) -> Position {
    nearest_or_stay(|q: Position| is_sentence_start(t, q), p, forward)
}

proof fn lemma_next_non_blank_skip(t: Seq<Seq<char>>, line: int, k: int)
    requires
        0 <= line < nlines(t),
        0 <= k,
        line_at(t, line).len() <= k,
    ensures
        next_non_blank(t, line, k) == next_non_blank(t, line + 1, 0),
{
}

proof fn lemma_next_non_blank_valid(t: Seq<Seq<char>>, line: int, k: int)
    requires
        all_fit(t),
        nlines(t) <= usize::MAX,
    ensures
        next_non_blank(t, line, k) matches Some(q) ==> valid_pos(t, q),
    decreases nlines(t) - line, line_at(t, line).len() - k,
{
    if line < 0 || line >= nlines(t) || k < 0 {
    } else if k >= line_at(t, line).len() {
        lemma_next_non_blank_valid(t, line + 1, 0);
    } else if !whitespace(line_at(t, line)[k]) {
        lemma_valid_at(t, line, k);
    } else {
        lemma_next_non_blank_valid(t, line, k + 1);
    }
}

impl TextBuffer {
    fn next_non_blank(&self, line0: usize, k0: usize) -> (r: Option<Position>)
        requires
            self.wf(),
        ensures
            r == next_non_blank(self.view(), line0 as int, k0 as int),
            r matches Some(q) ==> valid_pos(self.view(), q),
    {
        let n = self.len();
        let mut line = line0;
        let mut k = k0;
        while line < n
            invariant
                self.wf(),
                n == nlines(self.view()),
                next_non_blank(self.view(), line0 as int, k0 as int) == next_non_blank(
                    self.view(),
                    line as int,
                    k as int,
                ),
            decreases n - line, line_at(self.view(), line as int).len() - k,
        {
            let l = self.line(line);
            if k >= l.len() {
                line = line + 1;
                k = 0;
            } else if !is_whitespace(l.chars[k]) {
                proof {
                    lemma_valid_at(self.view(), line as int, k as int);
                }
                return Some(Position { line, column: l.offset_of(k) });
            } else {
                k = k + 1;
            }
        }
        None
    }
}

fn ends_sentence_exec(l: &Line, k: usize) -> (b: bool)
    requires
        k < l.chars@.len(),
    ensures
        b == ends_sentence(l.chars@, k as int),
{
    let c = l.chars[k];
    if !(c == '.' || c == '!' || c == '?') {
        return false;
    }
    let n = l.chars.len();
    let mut j: usize = k + 1;
    while j < l.chars.len() && (l.chars[j] == ')' || l.chars[j] == ']' || l.chars[j] == '"'
        || l.chars[j] == '\'')
        invariant
            k + 1 <= j <= l.chars@.len(),
            closers_end(l.chars@, k + 1) == closers_end(l.chars@, j as int),
        decreases l.chars@.len() - j,
    {
        j = j + 1;
    }
    j >= l.chars.len() || is_whitespace(l.chars[j])
}

impl TextBuffer {
    fn sentence(&self, p: Position, forward: bool) -> (q: Position)
        requires
            self.wf(),
            valid_pos(self.view(), p),
        ensures
            q == sentence(self.view(), p, forward),
            valid_pos(self.view(), q),
    {
        let ghost t = self.view();
        let n = self.len();
        let first = self.next_non_blank(0, 0);
        let mut best = consider_exec(p, forward, None, first);
        proof {
            let s0 = |q: Position| false;
            let s1 = |q: Position| starts_seen(t, 0, 0, q);
            assert forall|q: Position| #[trigger] s1(q) == (s0(q) || first == Some(q)) by {}
            lemma_consider(s0, s1, p, forward, None, first);
        }
        let mut line: usize = 0;
        while line < n
            invariant
                self.wf(),
                t == self.view(),
                n == nlines(t),
                line <= n,
                valid_pos(t, p),
                nearest_in(|q: Position| starts_seen(t, line as int, 0, q), p, forward, best),
                best matches Some(b) ==> valid_pos(t, b),
            decreases n - line,
        {
            let l = self.line(line);
            let len = l.len();
            let mut k: usize = 0;
            while k < len
                invariant
                    self.wf(),
                    t == self.view(),
                    n == nlines(t),
                    line < n,
                    l.chars@ == line_at(t, line as int),
                    len == l.chars@.len(),
                    k <= len,
                    nearest_in(|q: Position| starts_seen(t, line as int, k as int, q), p, forward, best),
                    best matches Some(b) ==> valid_pos(t, b),
                decreases len - k,
            {
                let ghost old_best = best;
                let ends = ends_sentence_exec(l, k);
                if ends {
                    let c = if k + 1 < len {
                        self.next_non_blank(line, k + 2)
                    } else {
                        proof {
                            lemma_next_non_blank_skip(t, line as int, k + 2);
                        }
                        self.next_non_blank(line + 1, 0)
                    };
                    assert(c == sentence_after(t, line as int, k as int));
                    best = consider_exec(p, forward, best, c);
                    proof {
                        let s = |q: Position| starts_seen(t, line as int, k as int, q);
                        let s2 = |q: Position| starts_seen(t, line as int, k + 1, q);
                        assert forall|q: Position| #[trigger] s2(q) == (s(q) || c == Some(q)) by {
                            if c == Some(q) {
                                assert(sentence_after(t, line as int, k as int) == Some(q));
                            }
                            if s2(q) && !s(q) && next_non_blank(t, 0, 0) != Some(q) {
                                let (l2, j2) = choose|l2: int, j2: int|
                                    0 <= l2 < nlines(t) && (l2 < line || (l2 == line && j2 < k + 1))
                                        && ends_sentence(line_at(t, l2), j2) && #[trigger] sentence_after(
                                        t,
                                        l2,
                                        j2,
                                    ) == Some(q);
                                assert(l2 == line && j2 == k);
                            }
                        }
                        lemma_consider(s, s2, p, forward, old_best, c);
                    }
                } else {
                    proof {
                        let s = |q: Position| starts_seen(t, line as int, k as int, q);
                        let s2 = |q: Position| starts_seen(t, line as int, k + 1, q);
                        assert forall|q: Position| #[trigger] s2(q) == (s(q) || None::<Position> == Some(q)) by {
                            if s2(q) && !s(q) && next_non_blank(t, 0, 0) != Some(q) {
                                let (l2, j2) = choose|l2: int, j2: int|
                                    0 <= l2 < nlines(t) && (l2 < line || (l2 == line && j2 < k + 1))
                                        && ends_sentence(line_at(t, l2), j2) && #[trigger] sentence_after(
                                        t,
                                        l2,
                                        j2,
                                    ) == Some(q);
                                assert(l2 == line && j2 == k);
                            }
                        }
                        lemma_consider(s, s2, p, forward, old_best, None);
                    }
                }
                k = k + 1;
            }
            let ghost old_best = best;
            let c = if len == 0 {
                proof {
                    lemma_valid_at(t, line as int, 0);
                }
                Some(Position { line, column: 0 })
            } else {
                None
            };
            best = consider_exec(p, forward, best, c);
            proof {
                let s = |q: Position| starts_seen(t, line as int, len as int, q);
                let s2 = |q: Position| starts_seen(t, line + 1, 0, q);
                assert forall|q: Position| #[trigger] s2(q) == (s(q) || c == Some(q)) by {
                    if s(q) && !s2(q) && next_non_blank(t, 0, 0) != Some(q) {
                        if q.line < line && q.column == 0 && is_empty_line(t, q.line as int) {
                        } else {
                            let (l2, j2) = choose|l2: int, j2: int|
                                0 <= l2 < nlines(t) && (l2 < line || (l2 == line && j2 < len))
                                    && ends_sentence(line_at(t, l2), j2) && #[trigger] sentence_after(
                                    t,
                                    l2,
                                    j2,
                                ) == Some(q);
                            assert(l2 < line + 1 || (l2 == line + 1 && j2 < 0));
                        }
                    }
                    if s2(q) && !s(q) && next_non_blank(t, 0, 0) != Some(q) {
                        if q.line < line + 1 && q.line < nlines(t) && q.column == 0 && is_empty_line(
                            t,
                            q.line as int,
                        ) {
                            if q.line < line {
                            } else {
                                assert(q == Position { line, column: 0 });
                            }
                        } else {
                            let (l2, j2) = choose|l2: int, j2: int|
                                0 <= l2 < nlines(t) && (l2 < line + 1 || (l2 == line + 1 && j2 < 0))
                                    && ends_sentence(line_at(t, l2), j2) && #[trigger] sentence_after(
                                    t,
                                    l2,
                                    j2,
                                ) == Some(q);
                            assert(l2 < line || (l2 == line && j2 < len));
                        }
                    }
                }
                lemma_consider(s, s2, p, forward, old_best, c);
            }
            line = line + 1;
        }
        proof {
            let s = |q: Position| starts_seen(t, n as int, 0, q);
            let s2 = |q: Position| is_sentence_start(t, q);
            assert forall|q: Position| #[trigger] s2(q) == s(q) by {
                if s2(q) && !s(q) && next_non_blank(t, 0, 0) != Some(q) {
                    if q.line < nlines(t) && q.column == 0 && is_empty_line(t, q.line as int) {
                    } else {
                        let (l2, j2) = choose|l2: int, j2: int|
                            0 <= l2 < nlines(t) && ends_sentence(line_at(t, l2), j2)
                                && #[trigger] sentence_after(t, l2, j2) == Some(q);
                        assert(l2 < n);
                    }
                }
            }
            assert(nearest_in(s2, p, forward, best));
            lemma_nearest_unique(s2, p, forward, best);
        }
        match best {
            Some(b) => b,
            None => p,
        }
    }
}


// ---------------------------------------------------------------------------
// Words: `w`, `W`, `e`, `E`, `b`, `B`, `ge`, `gE`.

/// Character classes of word motions.
#[derive(Clone, Copy, Debug, PartialEq, Eq, Structural)]
pub enum CharClass {
    Space,
    Keyword,
    Other,
}

/// Whitespace; letters, digits and `_` (every non-blank for WORDs); the rest.
pub open spec fn class_of(c: char, big: bool) -> CharClass {
    if whitespace(c) {
        CharClass::Space
    } else if big || alphanumeric(c) || c == '_' {
        CharClass::Keyword
    } else {
        CharClass::Other
    }
}

fn character_class(c: char, big: bool) -> (k: CharClass)
    ensures
        k == class_of(c, big),
{
    if is_whitespace(c) {
        CharClass::Space
    } else if big || is_alphanumeric(c) || c == '_' {
        CharClass::Keyword
    } else {
        CharClass::Other
    }
}

/// The four word motions.
#[derive(Clone, Copy, Debug, PartialEq, Eq, Structural)]
pub enum WordMotion {
    StartForward,
    EndForward,
    StartBackward,
    EndBackward,
}

pub open spec fn word_forward(m: WordMotion) -> bool {
    m == WordMotion::StartForward || m == WordMotion::EndForward
}

pub open spec fn word_ends(m: WordMotion) -> bool {
    m == WordMotion::EndForward || m == WordMotion::EndBackward
}

/// Empty lines count as words, except for `e` / `E`.
pub open spec fn word_empty_lines(m: WordMotion) -> bool {
    m != WordMotion::EndForward
}

/// Index `k` starts (or, with `ends`, ends) a run of one non-blank class.
pub open spec fn is_word_bound(l: Seq<char>, k: int, ends: bool, big: bool) -> bool {
    &&& 0 <= k < l.len()
    &&& !whitespace(l[k])
    &&& if ends {
        k + 1 == l.len() || class_of(l[k + 1], big) != class_of(l[k], big)
    } else {
        k == 0 || class_of(l[k - 1], big) != class_of(l[k], big)
    }
}

/// The word boundaries of `line` before character `k`, in order.
pub open spec fn line_bounds(t: Seq<Seq<char>>, line: int, k: int, ends: bool, big: bool) -> Seq<
    Position,
>
    decreases k,
{
    if k <= 0 {
        Seq::empty()
    } else {
        let prev = line_bounds(t, line, k - 1, ends, big);
        if is_word_bound(line_at(t, line), k - 1, ends, big) {
            prev.push(pos_at(t, line, k - 1))
        } else {
            prev
        }
    }
}

/// The word boundaries of the lines before `n`, in reading order; with
/// `empty`, each empty line is one boundary.
pub open spec fn word_bounds(t: Seq<Seq<char>>, n: int, ends: bool, empty: bool, big: bool) -> Seq<
    Position,
>
    decreases n,
{
    if n <= 0 {
        Seq::empty()
    } else {
        let prev = word_bounds(t, n - 1, ends, empty, big);
        let l = line_at(t, n - 1);
        if l.len() == 0 {
            if empty {
                prev.push(pos_at(t, n - 1, 0))
            } else {
                prev
            }
        } else {
            prev + line_bounds(t, n - 1, l.len() as int, ends, big)
        }
    }
}

/// The document holds a word or an empty line.
pub open spec fn has_words(t: Seq<Seq<char>>) -> bool {
    exists|l: int|
        0 <= l < nlines(t) && (line_at(t, l).len() == 0 || non_blank_from(#[trigger] line_at(t, l), 0)
            < line_at(t, l).len())
}

/// The last character of the document.
pub open spec fn end_of(t: Seq<Seq<char>>) -> Position {
    pos_at(t, last_line(t), last_col(line_at(t, last_line(t))))
}

/// The boundaries a word motion may land on: those beyond `p`.
pub open spec fn word_targets(t: Seq<Seq<char>>, p: Position, m: WordMotion, big: bool) -> Seq<
    Position,
> {
    word_bounds(t, nlines(t), word_ends(m), word_empty_lines(m), big).filter(
        |q: Position| before(word_forward(m), p, q),
    )
}

/// The `count`-th boundary beyond the cursor; past the last one, the end (or
/// start) of the document; a document without words keeps the cursor.
pub open spec fn word_motion(t: Seq<Seq<char>>, p: Position, count: usize, m: WordMotion, big: bool) -> Position {
    let s = word_targets(t, p, m, big);
    let n = if count > 0 {
        count as int
    } else {
        1
    };
    if !has_words(t) {
        p
    } else if word_forward(m) {
        if n <= s.len() {
            s[n - 1]
        } else {
            end_of(t)
        }
    } else {
        if n <= s.len() {
            s[s.len() - n]
        } else {
            pos_at(t, 0, 0)
        }
    }
}

fn is_word_bound_exec(l: &Line, k: usize, ends: bool, big: bool) -> (b: bool)
    requires
        k < l.chars@.len(),
    ensures
        b == is_word_bound(l.chars@, k as int, ends, big),
{
    let n = l.chars.len();
    let c = l.chars[k];
    if is_whitespace(c) {
        return false;
    }
    let here = character_class(c, big);
    if ends {
        k + 1 == n || character_class(l.chars[k + 1], big) != here
    } else {
        k == 0 || character_class(l.chars[k - 1], big) != here
    }
}

impl TextBuffer {
    fn has_words(&self) -> (b: bool)
        requires
            self.wf(),
        ensures
            b == has_words(self.view()),
    {
        let n = self.len();
        let mut line: usize = 0;
        while line < n
            invariant
                self.wf(),
                n == nlines(self.view()),
                line <= n,
                forall|j: int|
                    0 <= j < line ==> !(line_at(self.view(), j).len() == 0 || non_blank_from(
                        #[trigger] line_at(self.view(), j),
                        0,
                    ) < line_at(self.view(), j).len()),
            decreases n - line,
        {
            let l = self.line(line);
            if l.len() == 0 || non_blank_from_exec(l, 0) < l.len() {
                assert(line_at(self.view(), line as int) == l.chars@);
                return true;
            }
            line = line + 1;
        }
        false
    }

    fn word_motion(&self, p: Position, count: usize, m: WordMotion, big: bool) -> (q: Position)
        requires
            self.wf(),
            valid_pos(self.view(), p),
        ensures
            q == word_motion(self.view(), p, count, m, big),
            valid_pos(self.view(), q),
    {
        let ghost t = self.view();
        if !self.has_words() {
            return p;
        }
        let forward = m == WordMotion::StartForward || m == WordMotion::EndForward;
        let ends = m == WordMotion::EndForward || m == WordMotion::EndBackward;
        let empty = m != WordMotion::EndForward;
        let ghost pred = |q: Position| before(forward, p, q);
        let n = self.len();
        let mut found: Vec<Position> = Vec::new();
        let mut line: usize = 0;
        while line < n
            invariant
                self.wf(),
                t == self.view(),
                n == nlines(t),
                line <= n,
                pred == (|q: Position| before(forward, p, q)),
                found@ == word_bounds(t, line as int, ends, empty, big).filter(pred),
                forall|i: int| 0 <= i < found@.len() ==> valid_pos(t, #[trigger] found@[i]),
            decreases n - line,
        {
            let l = self.line(line);
            let len = l.len();
            let ghost w = word_bounds(t, line as int, ends, empty, big);
            if len == 0 {
                let q = Position { line, column: 0 };
                proof {
                    lemma_valid_at(t, line as int, 0);
                    assert(q == pos_at(t, line as int, 0));
                }
                if empty && before_exec(forward, p, q) {
                    found.push(q);
                }
                proof {
                    if empty {
                        w.lemma_filter_push(q, pred);
                    }
                }
            } else {
                let mut k: usize = 0;
                while k < len
                    invariant
                        self.wf(),
                        t == self.view(),
                        n == nlines(t),
                        line < n,
                        l.wf(),
                        l.chars@ == line_at(t, line as int),
                        len == l.chars@.len(),
                        k <= len,
                        w == word_bounds(t, line as int, ends, empty, big),
                        pred == (|q: Position| before(forward, p, q)),
                        found@ == (w + line_bounds(t, line as int, k as int, ends, big)).filter(pred),
                        forall|i: int| 0 <= i < found@.len() ==> valid_pos(t, #[trigger] found@[i]),
                    decreases len - k,
                {
                    let ghost lb = line_bounds(t, line as int, k as int, ends, big);
                    if is_word_bound_exec(l, k, ends, big) {
                        let q = Position { line, column: l.offset_of(k) };
                        proof {
                            lemma_valid_at(t, line as int, k as int);
                            assert((w + lb).push(q) =~= w + lb.push(q));
                            (w + lb).lemma_filter_push(q, pred);
                        }
                        if before_exec(forward, p, q) {
                            found.push(q);
                        }
                    }
                    k = k + 1;
                }
            }
            proof {
                if len > 0 {
                    assert(word_bounds(t, line + 1, ends, empty, big) == w + line_bounds(
                        t,
                        line as int,
                        len as int,
                        ends,
                        big,
                    ));
                }
            }
            line = line + 1;
        }
        let total = found.len();
        let want: usize = if count > 0 {
            count
        } else {
            1
        };
        if forward {
            if want <= total {
                found[want - 1]
            } else {
                let last = self.last_line();
                let l = self.line(last);
                proof {
                    lemma_valid_at(t, last as int, last_col(l.chars@));
                }
                Position { line: last, column: l.offset_of(l.last_col()) }
            }
        } else {
            if want <= total {
                found[total - want]
            } else {
                proof {
                    lemma_valid_at(t, 0, 0);
                }
                Position { line: 0, column: 0 }
            }
        }
    }
}


// ---------------------------------------------------------------------------
// Character search on the cursor line: `f`, `F`, `t`, `T`, `;`, `,`.

/// Index of the `n`-th (from zero) `c` at or after index `i`, never index `skip`.
pub open spec fn nth_after(l: Seq<char>, i: int, c: char, n: nat, skip: int) -> Option<int>
    decreases l.len() - i,
{
    if i < 0 || i >= l.len() {
        None
    } else if l[i] == c && i != skip {
        if n == 0 {
            Some(i)
        } else {
            nth_after(l, i + 1, c, (n - 1) as nat, skip)
        }
    } else {
        nth_after(l, i + 1, c, n, skip)
    }
}

/// Index of the `n`-th (from zero) `c` before index `e`, scanning leftward,
/// never index `skip`.
pub open spec fn nth_before(l: Seq<char>, e: int, c: char, n: nat, skip: int) -> Option<int>
    decreases e,
{
    if e <= 0 || e > l.len() {
        None
    } else if l[e - 1] == c && e - 1 != skip {
        if n == 0 {
            Some(e - 1)
        } else {
            nth_before(l, e - 1, c, (n - 1) as nat, skip)
        }
    } else {
        nth_before(l, e - 1, c, n, skip)
    }
}

/// The character index a find or till motion reaches from index `k`; a
/// repeated till skips a match next to the cursor, which would not move it.
pub open spec fn find_target(
    l: Seq<char>,
    k: int,
    target: char,
    kind: VimMotionKind,
    count: usize,
    repeated: bool,
) -> int {
    let forward = kind == VimMotionKind::FindForward || kind == VimMotionKind::TillForward;
    let till = kind == VimMotionKind::TillForward || kind == VimMotionKind::TillBackward;
    let adjacent = if forward {
        next_col(l, k)
    } else {
        prev_col(k)
    };
    let skip = if repeated && till {
        adjacent
    } else {
        -1
    };
    let n = (if count > 0 {
        count - 1
    } else {
        0
    }) as nat;
    let found = if forward {
        nth_after(l, k + 1, target, n, skip)
    } else {
        nth_before(l, k, target, n, skip)
    };
    match found {
        None => k,
        Some(j) => if !till {
            j
        } else if forward {
            prev_col(j)
        } else {
            next_col(l, j)
        },
    }
}

proof fn lemma_nth_after_range(l: Seq<char>, i: int, c: char, n: nat, skip: int)
    ensures
        nth_after(l, i, c, n, skip) matches Some(j) ==> i <= j < l.len(),
    decreases l.len() - i,
{
    if i < 0 || i >= l.len() {
    } else if l[i] == c && i != skip {
        if n > 0 {
            lemma_nth_after_range(l, i + 1, c, (n - 1) as nat, skip);
        }
    } else {
        lemma_nth_after_range(l, i + 1, c, n, skip);
    }
}

proof fn lemma_nth_before_range(l: Seq<char>, e: int, c: char, n: nat, skip: int)
    ensures
        nth_before(l, e, c, n, skip) matches Some(j) ==> 0 <= j < e,
    decreases e,
{
    if e <= 0 || e > l.len() {
    } else if l[e - 1] == c && e - 1 != skip {
        if n > 0 {
            lemma_nth_before_range(l, e - 1, c, (n - 1) as nat, skip);
        }
    } else {
        lemma_nth_before_range(l, e - 1, c, n, skip);
    }
}

/// The skip index of a search, or -1.
pub open spec fn skip_index(skip: Option<usize>) -> int {
    match skip {
        Some(s) => s as int,
        None => -1,
    }
}

fn nth_after_exec(l: &Line, i0: usize, c: char, n0: usize, skip: Option<usize>) -> (r: Option<usize>)
    ensures
        r == (match nth_after(l.chars@, i0 as int, c, n0 as nat, skip_index(skip)) {
            Some(j) => Some(j as usize),
            None => None::<usize>,
        }),
{
    let len = l.chars.len();
    let mut i = i0;
    let mut n = n0;
    while i < len
        invariant
            len == l.chars@.len(),
            nth_after(l.chars@, i0 as int, c, n0 as nat, skip_index(skip)) == nth_after(
                l.chars@,
                i as int,
                c,
                n as nat,
                skip_index(skip),
            ),
        decreases len - i,
    {
        let skipped = match skip {
            Some(s) => i == s,
            None => false,
        };
        if l.chars[i] == c && !skipped {
            if n == 0 {
                return Some(i);
            }
            n = n - 1;
        }
        i = i + 1;
    }
    None
}

fn nth_before_exec(l: &Line, e0: usize, c: char, n0: usize, skip: Option<usize>) -> (r: Option<usize>)
    ensures
        r == (match nth_before(l.chars@, e0 as int, c, n0 as nat, skip_index(skip)) {
            Some(j) => Some(j as usize),
            None => None::<usize>,
        }),
{
    if e0 > l.chars.len() {
        return None;
    }
    let mut e = e0;
    let mut n = n0;
    while e > 0
        invariant
            e <= l.chars@.len(),
            nth_before(l.chars@, e0 as int, c, n0 as nat, skip_index(skip)) == nth_before(
                l.chars@,
                e as int,
                c,
                n as nat,
                skip_index(skip),
            ),
        decreases e,
    {
        let skipped = match skip {
            Some(s) => e - 1 == s,
            None => false,
        };
        if l.chars[e - 1] == c && !skipped {
            if n == 0 {
                return Some(e - 1);
            }
            n = n - 1;
        }
        e = e - 1;
    }
    None
}

/// Finds the target of a character search on a line, by character index.
pub fn find_character(
    l: &Line,
    k: usize,
    target: char,
    kind: VimMotionKind,
    count: usize,
    repeated: bool,
) -> (r: usize)
    requires
        k <= last_col(l.chars@),
    ensures
        r == find_target(l.chars@, k as int, target, kind, count, repeated),
        r <= last_col(l.chars@),
{
    let len = l.chars.len();
    let forward = kind == VimMotionKind::FindForward || kind == VimMotionKind::TillForward;
    let till = kind == VimMotionKind::TillForward || kind == VimMotionKind::TillBackward;
    let adjacent: usize = if forward {
        l.next_col(k)
    } else if k > 0 {
        k - 1
    } else {
        0
    };
    let skip_adjacent = repeated && till;
    let ghost skip: int = if skip_adjacent {
        adjacent as int
    } else {
        -1
    };
    let n: usize = if count > 0 {
        count - 1
    } else {
        0
    };
    let skip_at: Option<usize> = if skip_adjacent {
        Some(adjacent)
    } else {
        None
    };
    let found = if forward {
        nth_after_exec(l, k + 1, target, n, skip_at)
    } else {
        nth_before_exec(l, k, target, n, skip_at)
    };
    proof {
        lemma_nth_after_range(l.chars@, k + 1, target, (if count > 0 { count - 1 } else { 0 }) as nat, skip);
        lemma_nth_before_range(l.chars@, k as int, target, (if count > 0 { count - 1 } else { 0 }) as nat, skip);
    }
    match found {
        None => k,
        Some(j) => if !till {
            j
        } else if forward {
            if j > 0 {
                j - 1
            } else {
                0
            }
        } else {
            l.next_col(j)
        },
    }
}


// ---------------------------------------------------------------------------
// `%`: brackets, C comments, and preprocessor conditionals.

pub open spec fn is_pair_char(c: char) -> bool {
    c == '(' || c == ')' || c == '[' || c == ']' || c == '{' || c == '}'
}

/// Character `k` of a line is something `%` jumps from: a bracket, the start
/// of `/*` or `*/`, or the `#` of a conditional directive.
pub open spec fn pair_item_at(l: Seq<char>, k: int) -> bool {
    ||| is_pair_char(l[k])
    ||| crate::text::occurs_at(l, k, "/*"@)
    ||| crate::text::occurs_at(l, k, "*/"@)
    ||| (directive(l) matches Some((c, _)) && c == k)
}

/// The first item index `j >= i`, or the length.
pub open spec fn item_from(l: Seq<char>, i: int) -> int
    decreases l.len() - i,
{
    if i < 0 || i >= l.len() {
        l.len() as int
    } else if pair_item_at(l, i) {
        i
    } else {
        item_from(l, i + 1)
    }
}

/// The last item index `j < e`, or -1.
pub open spec fn item_before(l: Seq<char>, e: int) -> int
    decreases e,
{
    if e <= 0 || e > l.len() {
        -1
    } else if pair_item_at(l, e - 1) {
        e - 1
    } else {
        item_before(l, e - 1)
    }
}

/// Where `%` (or its backward form) goes from `p`: the partner of the nearest
/// item on the cursor line at or after (before) the cursor.
pub open spec fn matching_pair(t: Seq<Seq<char>>, p: Position, backward: bool) -> Option<Position> {
    let line = p.line as int;
    let l = line_at(t, line);
    let k0 = index_of(t, p);
    let k = if backward {
        item_before(l, k0 + 1)
    } else {
        item_from(l, k0)
    };
    if k < 0 || k >= l.len() {
        None
    } else if is_pair_char(l[k]) {
        match closer_of(l[k]) {
            Some(close) => unmatched_fwd(t, line, k + 1, 0, l[k], close),
            None => match opener_of(l[k]) {
                Some(open) => unmatched_back(t, line, k, 0, open, l[k]),
                None => None,
            },
        }
    } else if crate::text::occurs_at(l, k, "/*"@) {
        match occ_after(t, "*/"@, line, k + 1) {
            Some(q) => Some(Position { line: q.line, column: (q.column + 1) as usize }),
            None => None,
        }
    } else if crate::text::occurs_at(l, k, "*/"@) {
        occ_before(t, "/*"@, line, k)
    } else {
        match directive(l) {
            Some((_, d)) => if d == Directive::EndIf {
                pre_back(t, line, 0, false)
            } else {
                pre_fwd(t, line + 1, 0)
            },
            None => None,
        }
    }
}

proof fn lemma_occ_in_line_hit(l: Seq<char>, needle: Seq<char>, i: int)
    requires
        0 <= i,
        occ_in_line(l, needle, i) < l.len(),
    ensures
        crate::text::occurs_at(l, occ_in_line(l, needle, i), needle),
        i <= occ_in_line(l, needle, i),
    decreases l.len() - i,
{
    if i < l.len() && !crate::text::occurs_at(l, i, needle) {
        lemma_occ_in_line_hit(l, needle, i + 1);
    }
}

proof fn lemma_occ_after_hit(t: Seq<Seq<char>>, needle: Seq<char>, line: int, i: int)
    requires
        0 <= i,
        all_fit(t),
        nlines(t) <= usize::MAX,
    ensures
        occ_after(t, needle, line, i) matches Some(q) ==> {
            &&& 0 <= q.line < nlines(t)
            &&& q == pos_at(t, q.line as int, index_of(t, q))
            &&& crate::text::occurs_at(line_at(t, q.line as int), index_of(t, q), needle)
        },
    decreases nlines(t) - line,
{
    if line < 0 || line >= nlines(t) {
    } else {
        let l = line_at(t, line);
        let k = occ_in_line(l, needle, i);
        if k < l.len() {
            lemma_occ_in_line_hit(l, needle, i);
            lemma_valid_at(t, line, k);
        } else {
            lemma_occ_after_hit(t, needle, line + 1, 0);
        }
    }
}

fn pair_item_exec(
    l: &Line,
    k: usize,
    dir: Option<(usize, Directive)>,
    open: &Vec<char>,
    close: &Vec<char>,
) -> (b: bool)
    requires
        k < l.chars@.len(),
        open@ == "/*"@,
        close@ == "*/"@,
        dir matches Some((c, d)) ==> directive(l.chars@) == Some((c as int, d)),
        dir is None ==> directive(l.chars@) is None,
    ensures
        b == pair_item_at(l.chars@, k as int),
{
    let c = l.chars[k];
    let at_dir = match dir {
        Some((col, _)) => col == k,
        None => false,
    };
    c == '(' || c == ')' || c == '[' || c == ']' || c == '{' || c == '}'
        || crate::text::occurs_at_exec(&l.chars, k, open) || crate::text::occurs_at_exec(
        &l.chars,
        k,
        close,
    ) || at_dir
}

impl TextBuffer {
    fn matching_pair(&self, p: Position, backward: bool) -> (r: Option<Position>)
        requires
            self.wf(),
            valid_pos(self.view(), p),
        ensures
            r == matching_pair(self.view(), p, backward),
            r matches Some(q) ==> valid_pos(self.view(), q),
    {
        let ghost t = self.view();
        let l = self.line(p.line);
        let k0 = l.floor_index(p.column);
        proof {
            lemma_index_bound(t, p);
        }
        let len = l.len();
        let nl = self.len();
        if len == 0 {
            return None;
        }
        let dir = preprocessor_directive(l);
        let open = crate::text::chars_of("/*");
        let close = crate::text::chars_of("*/");
        let k: usize;
        if backward {
            let mut e: usize = k0 + 1;
            while e > 0 && !pair_item_exec(l, e - 1, dir, &open, &close)
                invariant
                    e <= k0 + 1,
                    k0 < len,
                    len == l.chars@.len(),
                    open@ == "/*"@,
                    close@ == "*/"@,
                    dir matches Some((c, d)) ==> directive(l.chars@) == Some((c as int, d)),
                    dir is None ==> directive(l.chars@) is None,
                    e <= len,
                    item_before(l.chars@, k0 + 1) == item_before(l.chars@, e as int),
                decreases e,
            {
                e = e - 1;
            }
            if e == 0 {
                return None;
            }
            k = e - 1;
        } else {
            let mut i: usize = k0;
            while i < len && !pair_item_exec(l, i, dir, &open, &close)
                invariant
                    k0 <= i <= len,
                    len == l.chars@.len(),
                    open@ == "/*"@,
                    close@ == "*/"@,
                    dir matches Some((c, d)) ==> directive(l.chars@) == Some((c as int, d)),
                    dir is None ==> directive(l.chars@) is None,
                    item_from(l.chars@, k0 as int) == item_from(l.chars@, i as int),
                decreases len - i,
            {
                i = i + 1;
            }
            if i >= len {
                return None;
            }
            k = i;
        }
        assert(k < len);
        let c = l.chars[k];
        if c == '(' || c == ')' || c == '[' || c == ']' || c == '{' || c == '}' {
            if c == '(' {
                self.unmatched_fwd(p.line, k + 1, '(', ')')
            } else if c == '[' {
                self.unmatched_fwd(p.line, k + 1, '[', ']')
            } else if c == '{' {
                self.unmatched_fwd(p.line, k + 1, '{', '}')
            } else if c == ')' {
                self.unmatched_back(p.line, k, '(', ')')
            } else if c == ']' {
                self.unmatched_back(p.line, k, '[', ']')
            } else {
                self.unmatched_back(p.line, k, '{', '}')
            }
        } else if crate::text::occurs_at_exec(&l.chars, k, &open) {
            match self.occ_after(&close, p.line, k + 1) {
                Some(q) => {
                    proof {
                        reveal_strlit("*/");
                        lemma_occ_after_hit(t, "*/"@, p.line as int, k + 1);
                        let kq = index_of(t, q);
                        let lq = line_at(t, q.line as int);
                        assert(lq.subrange(kq, kq + 2) == "*/"@);
                        assert(lq[kq] == lq.subrange(kq, kq + 2)[0]);
                        assert(lq[kq] == '*');
                        crate::text::lemma_offset_step(lq, kq);
                        crate::text::lemma_offset_mono(lq, kq + 1, lq.len() as int);
                        if q.line < t.len() {
                            assert(fits(t[q.line as int]));
                        }
                        assert(offset(lq, kq + 1) == q.column + 1);
                        lemma_valid_at(t, q.line as int, kq + 1);
                    }
                    Some(Position { line: q.line, column: q.column + 1 })
                },
                None => None,
            }
        } else if crate::text::occurs_at_exec(&l.chars, k, &close) {
            self.occ_before(&open, p.line, k)
        } else {
            match dir {
                Some((_, d)) => if d == Directive::EndIf {
                    self.pre_back(p.line, false)
                } else {
                    self.pre_fwd(p.line + 1)
                },
                None => None,
            }
        }
    }
}


// ---------------------------------------------------------------------------
// Repeating a single-step motion.

/// A motion that a count repeats step by step.
#[derive(Clone, Copy, Debug, PartialEq, Eq, Structural)]
pub enum Step {
    Left,
    LeftWrap,
    Right,
    RightWrap,
    Sentence(bool),
    Paragraph(bool),
    Section(bool, char),
    UnmatchedOpen(char),
    UnmatchedClose(char),
    Brace(bool, char),
    Preprocessor(bool),
    Comment(bool),
    DiffChange(bool),
}

/// One step of a repeatable motion.
pub open spec fn step(t: Seq<Seq<char>>, p: Position, s: Step) -> Position {
    match s {
        Step::Left => left_step(t, p),
        Step::LeftWrap => left_wrap_step(t, p),
        Step::Right => right_step(t, p),
        Step::RightWrap => right_wrap_step(t, p),
        Step::Sentence(forward) => sentence(t, p, forward),
        Step::Paragraph(forward) => if forward {
            paragraph_forward(t, p)
        } else {
            paragraph_backward(t, p)
        },
        Step::Section(forward, c) => section(t, p, forward, c),
        Step::UnmatchedOpen(c) => unmatched_open(t, p, c),
        Step::UnmatchedClose(c) => unmatched_close(t, p, c),
        Step::Brace(forward, c) => nearest_occurrence(t, p, seq![c], forward),
        Step::Preprocessor(forward) => preprocessor(t, p, forward),
        Step::Comment(forward) => nearest_occurrence(
            t,
            p,
            if forward {
                "*/"@
            } else {
                "/*"@
            },
            forward,
        ),
        Step::DiffChange(forward) => diff_change(t, p, forward),
    }
}

/// `count` steps, stopping early at the first step that does not move.
pub open spec fn repeat_step(t: Seq<Seq<char>>, p: Position, count: nat, s: Step) -> Position
    decreases count,
{
    if count == 0 {
        p
    } else {
        let q = step(t, p, s);
        if q == p {
            p
        } else {
            repeat_step(t, q, (count - 1) as nat, s)
        }
    }
}

impl TextBuffer {
    fn step(&self, p: Position, s: Step) -> (q: Position)
        requires
            self.wf(),
            valid_pos(self.view(), p),
        ensures
            q == step(self.view(), p, s),
            valid_pos(self.view(), q),
    {
        match s {
            Step::Left => self.left_step(p),
            Step::LeftWrap => self.left_wrap_step(p),
            Step::Right => self.right_step(p),
            Step::RightWrap => self.right_wrap_step(p),
            Step::Sentence(forward) => self.sentence(p, forward),
            Step::Paragraph(forward) => if forward {
                self.paragraph_forward(p)
            } else {
                self.paragraph_backward(p)
            },
            Step::Section(forward, c) => self.section(p, forward, c),
            Step::UnmatchedOpen(c) => self.unmatched_open(p, c),
            Step::UnmatchedClose(c) => self.unmatched_close(p, c),
            Step::Brace(forward, c) => {
                let needle = vec![c];
                assert(needle@ == seq![c]);
                self.nearest_occurrence(p, &needle, forward)
            },
            Step::Preprocessor(forward) => self.preprocessor(p, forward),
            Step::Comment(forward) => {
                let needle = if forward {
                    crate::text::chars_of("*/")
                } else {
                    crate::text::chars_of("/*")
                };
                self.nearest_occurrence(p, &needle, forward)
            },
            Step::DiffChange(forward) => self.diff_change(p, forward),
        }
    }

    fn repeated_boundary(&self, p: Position, count: usize, s: Step) -> (q: Position)
        requires
            self.wf(),
            valid_pos(self.view(), p),
        ensures
            q == repeat_step(self.view(), p, count as nat, s),
            valid_pos(self.view(), q),
    {
        let mut cursor = p;
        let mut i: usize = 0;
        while i < count
            invariant
                self.wf(),
                i <= count,
                valid_pos(self.view(), cursor),
                repeat_step(self.view(), p, count as nat, s) == repeat_step(
                    self.view(),
                    cursor,
                    (count - i) as nat,
                    s,
                ),
            decreases count - i,
        {
            let next = self.step(cursor, s);
            if next == cursor {
                return cursor;
            }
            cursor = next;
            i = i + 1;
        }
        cursor
    }
}

// ---------------------------------------------------------------------------
// `go`: a byte offset into the document.

/// Byte `rem` counted from the start of `line`, each line break being one
/// byte; past the end of the document, its last character.
pub open spec fn byte_offset_from(t: Seq<Seq<char>>, line: int, rem: int) -> Position
    decreases nlines(t) - line,
{
    let l = line_at(t, line);
    if line < 0 || line > last_line(t) {
        end_of(t)
    } else if rem < byte_len(l) {
        pos_at(t, line, floor_index(l, rem))
    } else if line == last_line(t) {
        pos_at(t, line, last_col(l))
    } else {
        let skip = sat(byte_len(l) + 1);
        byte_offset_from(t, line + 1, if rem > skip { rem - skip } else { 0 })
    }
}

/// `[count]go`: the one-based byte `n` of the document.
pub open spec fn byte_offset(t: Seq<Seq<char>>, n: usize) -> Position {
    byte_offset_from(t, 0, if n > 0 { n - 1 } else { 0 })
}

impl TextBuffer {
    fn byte_offset(&self, n: usize) -> (q: Position)
        requires
            self.wf(),
        ensures
            q == byte_offset(self.view(), n),
    {
        let ghost t = self.view();
        let nl = self.len();
        let mut remaining: usize = if n > 0 {
            n - 1
        } else {
            0
        };
        let mut line: usize = 0;
        while line < nl
            invariant
                self.wf(),
                t == self.view(),
                nl == nlines(t),
                byte_offset(t, n) == byte_offset_from(t, line as int, remaining as int),
            decreases nl - line,
        {
            let l = self.line(line);
            let len = l.bytes();
            if remaining < len {
                let k = l.floor_index(remaining);
                return Position { line, column: l.offset_of(k) };
            }
            if line == nl - 1 {
                return Position { line, column: l.offset_of(l.last_col()) };
            }
            let skip: usize = if len < usize::MAX {
                len + 1
            } else {
                usize::MAX
            };
            remaining = if remaining > skip {
                remaining - skip
            } else {
                0
            };
            line = line + 1;
        }
        let last = self.last_line();
        let l = self.line(last);
        Position { line: last, column: l.offset_of(l.last_col()) }
    }
}

// ---------------------------------------------------------------------------
// Screen columns and horizontal scrolling.

/// `a * b` saturated at `usize::MAX`.
pub open spec fn sat_mul(a: usize, b: usize) -> usize {
    if a * b > usize::MAX {
        usize::MAX
    } else {
        (a * b) as usize
    }
}

fn sat_mul_exec(a: usize, b: usize) -> (r: usize)
    ensures
        r == sat_mul(a, b),
{
    match a.checked_mul(b) {
        Some(m) => m,
        None => usize::MAX,
    }
}

pub open spec fn umax(a: usize, b: usize) -> usize {
    if a > b {
        a
    } else {
        b
    }
}

pub open spec fn umin(a: usize, b: usize) -> usize {
    if a < b {
        a
    } else {
        b
    }
}

/// The first source display column shown by a viewport.
pub open spec fn visible_start(vp: Viewport) -> usize {
    vp.left.saturating_sub(vp.gutter)
}

/// One past the last source display column shown by a viewport.
pub open spec fn visible_end(vp: Viewport) -> usize {
    umax(
        vp.left.saturating_add(vp.width).saturating_sub(vp.gutter),
        visible_start(vp).saturating_add(1),
    )
}

fn visible_source_columns(vp: Viewport) -> (r: (usize, usize))
    ensures
        r == (visible_start(vp), visible_end(vp)),
{
    let start = vp.left.saturating_sub(vp.gutter);
    let raw = vp.left.saturating_add(vp.width).saturating_sub(vp.gutter);
    let floor = start.saturating_add(1);
    let end = if raw > floor {
        raw
    } else {
        floor
    };
    (start, end)
}

/// The display column of a character index on a line, saturated.
pub open spec fn display_at(l: Seq<char>, k: int) -> usize {
    sat(display_prefix(l, k)) as usize
}

/// The display column of a position, past the gutter.
pub open spec fn display_with_gutter(t: Seq<Seq<char>>, p: Position, gutter: usize) -> usize {
    display_at(line_at(t, p.line as int), index_of(t, p)).saturating_add(gutter)
}

/// The last non-blank character whose display column lies in the visible
/// source columns, scanning from index `n` leftward; -1 if none.
pub open spec fn visible_non_blank_below(l: Seq<char>, n: int, start: usize, end: usize) -> int
    decreases n,
{
    if n <= 0 || n > l.len() {
        -1
    } else if start <= display_at(l, n - 1) < end && !whitespace(l[n - 1]) {
        n - 1
    } else {
        visible_non_blank_below(l, n - 1, start, end)
    }
}

/// `g<End>`-style last non-blank among the visible columns, or the character
/// at the left edge.
pub open spec fn screen_last_non_blank(l: Seq<char>, vp: Viewport) -> int {
    let j = visible_non_blank_below(l, l.len() as int, visible_start(vp), visible_end(vp));
    if j >= 0 {
        j
    } else {
        at_display(l, visible_start(vp) as int)
    }
}

fn screen_last_non_blank_exec(l: &Line, vp: Viewport) -> (k: usize)
    ensures
        k == screen_last_non_blank(l.chars@, vp),
        k <= last_col(l.chars@),
{
    let (start, end) = visible_source_columns(vp);
    let mut n = l.chars.len();
    while n > 0
        invariant
            n <= l.chars@.len(),
            start == visible_start(vp),
            end == visible_end(vp),
            visible_non_blank_below(l.chars@, l.chars@.len() as int, start, end)
                == visible_non_blank_below(l.chars@, n as int, start, end),
        decreases n,
    {
        let d = l.display_prefix(n - 1);
        if start <= d && d < end && !is_whitespace(l.chars[n - 1]) {
            return n - 1;
        }
        n = n - 1;
    }
    l.at_display(start)
}

/// Display cells the cursor occupies: four for a tab, at least one otherwise.
pub open spec fn cursor_width(l: Seq<char>, k: int) -> usize {
    if 0 <= k < l.len() {
        if l[k] == '\t' {
            4
        } else {
            match terminal_width(l[k]) {
                Some(w) => umax(w, 1),
                None => 1,
            }
        }
    } else {
        1
    }
}

fn cursor_width_exec(l: &Line, k: usize) -> (w: usize)
    ensures
        w == cursor_width(l.chars@, k as int),
{
    if k < l.chars.len() {
        let c = l.chars[k];
        if c == '\t' {
            4
        } else {
            match crate::unicode::width(c) {
                Some(w) => if w > 1 {
                    w
                } else {
                    1
                },
                None => 1,
            }
        }
    } else {
        1
    }
}

/// Motions that only scroll sideways keep their own horizontal placement.
pub open spec fn horizontal_view_motion(kind: VimMotionKind) -> bool {
    ||| kind == VimMotionKind::ScrollColumnLeft
    ||| kind == VimMotionKind::ScrollColumnRight
    ||| kind == VimMotionKind::ScrollHalfScreenLeft
    ||| kind == VimMotionKind::ScrollHalfScreenRight
    ||| kind == VimMotionKind::CursorToWindowLeft
    ||| kind == VimMotionKind::CursorToWindowRight
}

/// Motions that place the viewport rows themselves.
pub open spec fn places_rows(kind: VimMotionKind) -> bool {
    ||| kind == VimMotionKind::CursorToWindowTop
    ||| kind == VimMotionKind::CursorToWindowTopFirstNonBlank
    ||| kind == VimMotionKind::CursorToWindowMiddle
    ||| kind == VimMotionKind::CursorToWindowMiddleFirstNonBlank
    ||| kind == VimMotionKind::CursorToWindowBottom
    ||| kind == VimMotionKind::CursorToWindowBottomFirstNonBlank
    ||| kind == VimMotionKind::NextWindowTop
    ||| kind == VimMotionKind::PreviousWindowBottom
    ||| kind == VimMotionKind::ScrollLineDown
    ||| kind == VimMotionKind::ScrollLineUp
}

fn horizontal_view_motion_exec(kind: VimMotionKind) -> (b: bool)
    ensures
        b == horizontal_view_motion(kind),
{
    match kind {
        VimMotionKind::ScrollColumnLeft | VimMotionKind::ScrollColumnRight
        | VimMotionKind::ScrollHalfScreenLeft | VimMotionKind::ScrollHalfScreenRight
        | VimMotionKind::CursorToWindowLeft | VimMotionKind::CursorToWindowRight => true,
        _ => false,
    }
}

fn places_rows_exec(kind: VimMotionKind) -> (b: bool)
    ensures
        b == places_rows(kind),
{
    match kind {
        VimMotionKind::CursorToWindowTop | VimMotionKind::CursorToWindowTopFirstNonBlank
        | VimMotionKind::CursorToWindowMiddle | VimMotionKind::CursorToWindowMiddleFirstNonBlank
        | VimMotionKind::CursorToWindowBottom | VimMotionKind::CursorToWindowBottomFirstNonBlank
        | VimMotionKind::NextWindowTop | VimMotionKind::PreviousWindowBottom
        | VimMotionKind::ScrollLineDown | VimMotionKind::ScrollLineUp => true,
        _ => false,
    }
}

/// After horizontal scrolling, a cursor outside the shown columns moves to
/// the nearest shown column of its line.
pub open spec fn follow_scroll(t: Seq<Seq<char>>, c: Position, vp: Viewport) -> (Position, Viewport) {
    let l = line_at(t, c.line as int);
    let last_display = display_at(l, last_col(l)).saturating_add(vp.gutter);
    let left = umin(vp.left, last_display);
    let vp2 = Viewport { left, ..vp };
    let display = display_with_gutter(t, c, vp.gutter);
    if display < left {
        (pos_at(t, c.line as int, at_display(l, left.saturating_sub(vp.gutter) as int)), vp2)
    } else if display >= left.saturating_add(vp.width) {
        (
            pos_at(
                t,
                c.line as int,
                at_display(
                    l,
                    left.saturating_add(vp.width.saturating_sub(1)).saturating_sub(vp.gutter) as int,
                ),
            ),
            vp2,
        )
    } else {
        (c, vp2)
    }
}

/// Scrolls the viewport so that the cursor is shown.
pub open spec fn keep_visible(t: Seq<Seq<char>>, c: Position, vp: Viewport, kind: VimMotionKind) -> Viewport {
    let top1 = if places_rows(kind) {
        vp.top
    } else if c.line < vp.top {
        c.line
    } else if c.line >= vp.top.saturating_add(vp.height) {
        c.line.saturating_sub(vp.height.saturating_sub(1))
    } else {
        vp.top
    };
    let top2 = if (top1 as int) < last_line(t) {
        top1
    } else {
        last_line(t) as usize
    };
    let vp2 = Viewport { top: top2, ..vp };
    if horizontal_view_motion(kind) {
        vp2
    } else {
        let display = display_with_gutter(t, c, vp.gutter);
        let end = display.saturating_add(cursor_width(line_at(t, c.line as int), index_of(t, c)));
        if display < vp.left {
            Viewport { left: display, ..vp2 }
        } else if end > vp.left.saturating_add(vp.width) {
            Viewport { left: end.saturating_sub(vp.width), ..vp2 }
        } else {
            vp2
        }
    }
}

impl TextBuffer {
    fn display_with_gutter(&self, p: Position, gutter: usize) -> (d: usize)
        requires
            self.wf(),
            valid_pos(self.view(), p),
        ensures
            d == display_with_gutter(self.view(), p, gutter),
    {
        let l = self.line(p.line);
        let k = l.floor_index(p.column);
        l.display_prefix(k).saturating_add(gutter)
    }

    fn follow_horizontal_scroll(&self, c: Position, vp: Viewport) -> (r: (Position, Viewport))
        requires
            self.wf(),
            valid_pos(self.view(), c),
        ensures
            r == follow_scroll(self.view(), c, vp),
            valid_pos(self.view(), r.0),
    {
        let l = self.line(c.line);
        let last_display = l.display_prefix(l.last_col()).saturating_add(vp.gutter);
        let left = if vp.left < last_display {
            vp.left
        } else {
            last_display
        };
        let vp2 = Viewport { left, ..vp };
        let display = self.display_with_gutter(c, vp.gutter);
        if display < left {
            let k = l.at_display(left.saturating_sub(vp.gutter));
            proof {
                lemma_valid_at(self.view(), c.line as int, k as int);
            }
            (Position { line: c.line, column: l.offset_of(k) }, vp2)
        } else if display >= left.saturating_add(vp.width) {
            let k = l.at_display(
                left.saturating_add(vp.width.saturating_sub(1)).saturating_sub(vp.gutter),
            );
            proof {
                lemma_valid_at(self.view(), c.line as int, k as int);
            }
            (Position { line: c.line, column: l.offset_of(k) }, vp2)
        } else {
            (c, vp2)
        }
    }

    fn keep_visible(&self, c: Position, vp: Viewport, kind: VimMotionKind) -> (r: Viewport)
        requires
            self.wf(),
            valid_pos(self.view(), c),
        ensures
            r == keep_visible(self.view(), c, vp, kind),
    {
        let top1 = if places_rows_exec(kind) {
            vp.top
        } else if c.line < vp.top {
            c.line
        } else if c.line >= vp.top.saturating_add(vp.height) {
            c.line.saturating_sub(vp.height.saturating_sub(1))
        } else {
            vp.top
        };
        let last = self.last_line();
        let top2 = if top1 < last {
            top1
        } else {
            last
        };
        let vp2 = Viewport { top: top2, ..vp };
        if horizontal_view_motion_exec(kind) {
            return vp2;
        }
        let display = self.display_with_gutter(c, vp.gutter);
        let l = self.line(c.line);
        let k = l.floor_index(c.column);
        let end = display.saturating_add(cursor_width_exec(l, k));
        if display < vp.left {
            Viewport { left: display, ..vp2 }
        } else if end > vp.left.saturating_add(vp.width) {
            Viewport { left: end.saturating_sub(vp.width), ..vp2 }
        } else {
            vp2
        }
    }
}


// ---------------------------------------------------------------------------
// Motions that move only the cursor.

/// A line index clamped to the last line.
pub open spec fn clamp_line(t: Seq<Seq<char>>, x: usize) -> usize {
    if (x as int) < last_line(t) {
        x
    } else {
        last_line(t) as usize
    }
}

/// The first non-blank character of a line.
pub open spec fn first_non_blank_on(t: Seq<Seq<char>>, line: int) -> Position {
    pos_at(t, line, first_non_blank(line_at(t, line)))
}

/// The byte column kept while moving `delta` lines.
pub open spec fn line_delta(t: Seq<Seq<char>>, cur: Position, delta: int) -> Position {
    move_to_line_spec(t, cur, shifted_line(t, cur.line as int, delta))
}

/// The display column kept while moving `delta` lines.
pub open spec fn vertical(t: Seq<Seq<char>>, cur: Position, delta: int, desired: usize) -> Position {
    move_to_line_display_spec(t, shifted_line(t, cur.line as int, delta), desired)
}

/// Where a motion that leaves the viewport alone puts the cursor; `count` is
/// at least one and `desired` is the wanted display column.
pub open spec fn cursor_motion(
    t: Seq<Seq<char>>,
    cur: Position,
    vp: Viewport,
    m: VimMotion,
    count: usize,
    desired: usize,
) -> Position {
    let line = cur.line as int;
    let l = line_at(t, line);
    let k = index_of(t, cur);
    let c = count as nat;
    let below = count_delta((count - 1) as usize);
    match m.kind {
        VimMotionKind::Left => repeat_step(t, cur, c, Step::Left),
        VimMotionKind::LeftWrap => repeat_step(t, cur, c, Step::LeftWrap),
        VimMotionKind::Right => repeat_step(t, cur, c, Step::Right),
        VimMotionKind::RightWrap => repeat_step(t, cur, c, Step::RightWrap),
        VimMotionKind::Up => vertical(t, cur, -count_delta(count), desired),
        VimMotionKind::Down => vertical(t, cur, count_delta(count), desired),
        VimMotionKind::LineStart => Position { column: 0, ..cur },
        VimMotionKind::FirstNonBlank => first_non_blank_on(t, line),
        VimMotionKind::LineEnd => {
            let c1 = line_delta(t, cur, below);
            pos_at(t, c1.line as int, last_col(line_at(t, c1.line as int)))
        },
        VimMotionKind::LastNonBlank => {
            let c1 = line_delta(t, cur, below);
            pos_at(t, c1.line as int, last_non_blank(line_at(t, c1.line as int)))
        },
        VimMotionKind::ScreenLineStart => pos_at(t, line, at_display(l, visible_start(vp) as int)),
        VimMotionKind::ScreenFirstNonBlank => pos_at(
            t,
            line,
            first_non_blank_after(l, at_display(l, visible_start(vp) as int)),
        ),
        VimMotionKind::ScreenLineEnd => {
            let c1 = line_delta(t, cur, below);
            let l1 = line_at(t, c1.line as int);
            pos_at(t, c1.line as int, at_display(l1, visible_end(vp).saturating_sub(1) as int))
        },
        VimMotionKind::ScreenLastNonBlank => {
            let c1 = line_delta(t, cur, below);
            pos_at(t, c1.line as int, screen_last_non_blank(line_at(t, c1.line as int), vp))
        },
        VimMotionKind::ScreenMiddle => {
            let s = visible_start(vp);
            let e = visible_end(vp);
            pos_at(t, line, at_display(l, s.saturating_add((e.saturating_sub(s) / 2) as usize) as int))
        },
        VimMotionKind::LineMiddle => {
            let percent: usize = if m.explicit_count {
                umin(count, 100)
            } else {
                50
            };
            pos_at(t, line, at_display(l, (sat_mul(display_at(l, l.len() as int), percent) / 100) as int))
        },
        VimMotionKind::Column => pos_at(t, line, at_display(l, count - 1)),
        VimMotionKind::ByteOffset => byte_offset(t, count),
        VimMotionKind::WordForward => word_motion(t, cur, count, WordMotion::StartForward, false),
        VimMotionKind::BigWordForward => word_motion(t, cur, count, WordMotion::StartForward, true),
        VimMotionKind::WordEndForward => word_motion(t, cur, count, WordMotion::EndForward, false),
        VimMotionKind::BigWordEndForward => word_motion(t, cur, count, WordMotion::EndForward, true),
        VimMotionKind::WordBackward => word_motion(t, cur, count, WordMotion::StartBackward, false),
        VimMotionKind::BigWordBackward => word_motion(t, cur, count, WordMotion::StartBackward, true),
        VimMotionKind::WordEndBackward => word_motion(t, cur, count, WordMotion::EndBackward, false),
        VimMotionKind::BigWordEndBackward => word_motion(t, cur, count, WordMotion::EndBackward, true),
        VimMotionKind::FindForward | VimMotionKind::FindBackward | VimMotionKind::TillForward
        | VimMotionKind::TillBackward => match m.target {
            Some(ch) => pos_at(t, line, find_target(l, k, ch, m.kind, count, m.repeated)),
            None => cur,
        },
        VimMotionKind::PreviousLineFirstNonBlank => first_non_blank_on(
            t,
            line_delta(t, cur, -count_delta(count)).line as int,
        ),
        VimMotionKind::NextLineFirstNonBlank => first_non_blank_on(
            t,
            line_delta(t, cur, count_delta(count)).line as int,
        ),
        VimMotionKind::CountedLineFirstNonBlank => first_non_blank_on(
            t,
            line_delta(t, cur, below).line as int,
        ),
        VimMotionKind::BufferTop => first_non_blank_on(
            t,
            if m.explicit_count {
                clamp_line(t, (count - 1) as usize) as int
            } else {
                0
            },
        ),
        VimMotionKind::BufferBottom => first_non_blank_on(t, last_line(t)),
        VimMotionKind::BufferBottomEnd => {
            let ln: int = if m.explicit_count {
                clamp_line(t, (count - 1) as usize) as int
            } else {
                last_line(t)
            };
            pos_at(t, ln, last_col(line_at(t, ln)))
        },
        VimMotionKind::BufferPercentage => {
            let one_based = sat_mul(umin(count, 100), nlines(t) as usize).saturating_add(99) / 100;
            first_non_blank_on(t, clamp_line(t, one_based.saturating_sub(1)) as int)
        },
        VimMotionKind::WindowTop => first_non_blank_on(
            t,
            clamp_line(t, vp.top.saturating_add((count - 1) as usize)) as int,
        ),
        VimMotionKind::WindowMiddle => first_non_blank_on(
            t,
            clamp_line(t, vp.top.saturating_add((vp.height.saturating_sub(1) / 2) as usize)) as int,
        ),
        VimMotionKind::WindowBottom => first_non_blank_on(
            t,
            clamp_line(t, vp.top.saturating_add(vp.height.saturating_sub(count))) as int,
        ),
        VimMotionKind::SentenceBackward => repeat_step(t, cur, c, Step::Sentence(false)),
        VimMotionKind::SentenceForward => repeat_step(t, cur, c, Step::Sentence(true)),
        VimMotionKind::ParagraphBackward => repeat_step(t, cur, c, Step::Paragraph(false)),
        VimMotionKind::ParagraphForward => repeat_step(t, cur, c, Step::Paragraph(true)),
        VimMotionKind::SectionStartBackward => repeat_step(t, cur, c, Step::Section(false, '{')),
        VimMotionKind::SectionStartForward => repeat_step(t, cur, c, Step::Section(true, '{')),
        VimMotionKind::SectionEndBackward => repeat_step(t, cur, c, Step::Section(false, '}')),
        VimMotionKind::SectionEndForward => repeat_step(t, cur, c, Step::Section(true, '}')),
        VimMotionKind::MatchingPair => match matching_pair(t, cur, false) {
            Some(q) => q,
            None => cur,
        },
        VimMotionKind::MatchingPairBackward => match matching_pair(t, cur, true) {
            Some(q) => q,
            None => cur,
        },
        VimMotionKind::UnmatchedOpenBackward => match m.target {
            Some(ch) => repeat_step(t, cur, c, Step::UnmatchedOpen(ch)),
            None => cur,
        },
        VimMotionKind::UnmatchedCloseForward => match m.target {
            Some(ch) => repeat_step(t, cur, c, Step::UnmatchedClose(ch)),
            None => cur,
        },
        VimMotionKind::MethodBackward => repeat_step(
            t,
            cur,
            c,
            Step::Brace(false, if m.target == Some('M') { '}' } else { '{' }),
        ),
        VimMotionKind::MethodForward => repeat_step(
            t,
            cur,
            c,
            Step::Brace(true, if m.target == Some('M') { '}' } else { '{' }),
        ),
        VimMotionKind::PreprocessorBackward => repeat_step(t, cur, c, Step::Preprocessor(false)),
        VimMotionKind::PreprocessorForward => repeat_step(t, cur, c, Step::Preprocessor(true)),
        VimMotionKind::CommentBackward => repeat_step(t, cur, c, Step::Comment(false)),
        VimMotionKind::CommentForward => repeat_step(t, cur, c, Step::Comment(true)),
        VimMotionKind::DiffChangeBackward => repeat_step(t, cur, c, Step::DiffChange(false)),
        VimMotionKind::DiffChangeForward => repeat_step(t, cur, c, Step::DiffChange(true)),
        VimMotionKind::HalfPageDown => {
            let distance = if m.explicit_count {
                count
            } else {
                umax(vp.height / 2, 1)
            };
            vertical(t, cur, count_delta(distance), desired)
        },
        VimMotionKind::HalfPageUp => {
            let distance = if m.explicit_count {
                count
            } else {
                umax(vp.height / 2, 1)
            };
            vertical(t, cur, -count_delta(distance), desired)
        },
        _ => cur,
    }
}

impl TextBuffer {
    fn clamp_line(&self, x: usize) -> (r: usize)
        requires
            self.wf(),
        ensures
            r == clamp_line(self.view(), x),
    {
        let last = self.last_line();
        if x < last {
            x
        } else {
            last
        }
    }

    fn first_non_blank_on(&self, line: usize) -> (p: Position)
        requires
            self.wf(),
        ensures
            p == first_non_blank_on(self.view(), line as int),
    {
        let l = self.line(line);
        let k = first_non_blank_exec(l);
        Position { line, column: l.offset_of(k) }
    }

    fn cursor_motion(
        &self,
        cur: Position,
        vp: Viewport,
        m: VimMotion,
        count: usize,
        desired: usize,
    ) -> (q: Position)
        requires
            self.wf(),
            valid_pos(self.view(), cur),
            count >= 1,
        ensures
            q == cursor_motion(self.view(), cur, vp, m, count, desired),
    {
        let ghost t = self.view();
        let l = self.line(cur.line);
        let k = l.floor_index(cur.column);
        proof {
            lemma_index_bound(t, cur);
        }
        let below = count_as_isize(count - 1);
        match m.kind {
            VimMotionKind::Left => self.repeated_boundary(cur, count, Step::Left),
            VimMotionKind::LeftWrap => self.repeated_boundary(cur, count, Step::LeftWrap),
            VimMotionKind::Right => self.repeated_boundary(cur, count, Step::Right),
            VimMotionKind::RightWrap => self.repeated_boundary(cur, count, Step::RightWrap),
            VimMotionKind::Up => self.move_lines_to_display(cur, -count_as_isize(count), desired),
            VimMotionKind::Down => self.move_lines_to_display(cur, count_as_isize(count), desired),
            VimMotionKind::LineStart => Position { column: 0, ..cur },
            VimMotionKind::FirstNonBlank => self.first_non_blank_on(cur.line),
            VimMotionKind::LineEnd => {
                let c1 = self.move_lines(cur, below);
                let l1 = self.line(c1.line);
                Position { line: c1.line, column: l1.offset_of(l1.last_col()) }
            },
            VimMotionKind::LastNonBlank => {
                let c1 = self.move_lines(cur, below);
                let l1 = self.line(c1.line);
                Position { line: c1.line, column: l1.offset_of(last_non_blank_exec(l1)) }
            },
            VimMotionKind::ScreenLineStart => {
                let (start, _) = visible_source_columns(vp);
                Position { line: cur.line, column: l.offset_of(l.at_display(start)) }
            },
            VimMotionKind::ScreenFirstNonBlank => {
                let (start, _) = visible_source_columns(vp);
                let screen = l.at_display(start);
                Position { line: cur.line, column: l.offset_of(first_non_blank_from(l, screen)) }
            },
            VimMotionKind::ScreenLineEnd => {
                let c1 = self.move_lines(cur, below);
                let l1 = self.line(c1.line);
                let (_, end) = visible_source_columns(vp);
                Position { line: c1.line, column: l1.offset_of(l1.at_display(end.saturating_sub(1))) }
            },
            VimMotionKind::ScreenLastNonBlank => {
                let c1 = self.move_lines(cur, below);
                let l1 = self.line(c1.line);
                Position { line: c1.line, column: l1.offset_of(screen_last_non_blank_exec(l1, vp)) }
            },
            VimMotionKind::ScreenMiddle => {
                let (start, end) = visible_source_columns(vp);
                let d = start.saturating_add(end.saturating_sub(start) / 2);
                Position { line: cur.line, column: l.offset_of(l.at_display(d)) }
            },
            VimMotionKind::LineMiddle => {
                let percent: usize = if m.explicit_count {
                    if count < 100 {
                        count
                    } else {
                        100
                    }
                } else {
                    50
                };
                let width = l.display_prefix(l.len());
                let d = sat_mul_exec(width, percent) / 100;
                Position { line: cur.line, column: l.offset_of(l.at_display(d)) }
            },
            VimMotionKind::Column => Position {
                line: cur.line,
                column: l.offset_of(l.at_display(count - 1)),
            },
            VimMotionKind::ByteOffset => self.byte_offset(count),
            VimMotionKind::WordForward => self.word_motion(cur, count, WordMotion::StartForward, false),
            VimMotionKind::BigWordForward => self.word_motion(cur, count, WordMotion::StartForward, true),
            VimMotionKind::WordEndForward => self.word_motion(cur, count, WordMotion::EndForward, false),
            VimMotionKind::BigWordEndForward => self.word_motion(cur, count, WordMotion::EndForward, true),
            VimMotionKind::WordBackward => self.word_motion(cur, count, WordMotion::StartBackward, false),
            VimMotionKind::BigWordBackward => self.word_motion(cur, count, WordMotion::StartBackward, true),
            VimMotionKind::WordEndBackward => self.word_motion(cur, count, WordMotion::EndBackward, false),
            VimMotionKind::BigWordEndBackward => self.word_motion(cur, count, WordMotion::EndBackward, true),
            VimMotionKind::FindForward | VimMotionKind::FindBackward | VimMotionKind::TillForward
            | VimMotionKind::TillBackward => match m.target {
                Some(ch) => {
                    let j = find_character(l, k, ch, m.kind, count, m.repeated);
                    Position { line: cur.line, column: l.offset_of(j) }
                },
                None => cur,
            },
            VimMotionKind::PreviousLineFirstNonBlank => {
                let c1 = self.move_lines(cur, -count_as_isize(count));
                self.first_non_blank_on(c1.line)
            },
            VimMotionKind::NextLineFirstNonBlank => {
                let c1 = self.move_lines(cur, count_as_isize(count));
                self.first_non_blank_on(c1.line)
            },
            VimMotionKind::CountedLineFirstNonBlank => {
                let c1 = self.move_lines(cur, below);
                self.first_non_blank_on(c1.line)
            },
            VimMotionKind::BufferTop => {
                let ln = if m.explicit_count {
                    self.clamp_line(count - 1)
                } else {
                    0
                };
                self.first_non_blank_on(ln)
            },
            VimMotionKind::BufferBottom => self.first_non_blank_on(self.last_line()),
            VimMotionKind::BufferBottomEnd => {
                let ln = if m.explicit_count {
                    self.clamp_line(count - 1)
                } else {
                    self.last_line()
                };
                let l1 = self.line(ln);
                Position { line: ln, column: l1.offset_of(l1.last_col()) }
            },
            VimMotionKind::BufferPercentage => {
                let capped: usize = if count < 100 {
                    count
                } else {
                    100
                };
                let one_based = sat_mul_exec(capped, self.len()).saturating_add(99) / 100;
                self.first_non_blank_on(self.clamp_line(one_based.saturating_sub(1)))
            },
            VimMotionKind::WindowTop => self.first_non_blank_on(
                self.clamp_line(vp.top.saturating_add(count - 1)),
            ),
            VimMotionKind::WindowMiddle => self.first_non_blank_on(
                self.clamp_line(vp.top.saturating_add(vp.height.saturating_sub(1) / 2)),
            ),
            VimMotionKind::WindowBottom => self.first_non_blank_on(
                self.clamp_line(vp.top.saturating_add(vp.height.saturating_sub(count))),
            ),
            VimMotionKind::SentenceBackward => self.repeated_boundary(cur, count, Step::Sentence(false)),
            VimMotionKind::SentenceForward => self.repeated_boundary(cur, count, Step::Sentence(true)),
            VimMotionKind::ParagraphBackward => self.repeated_boundary(cur, count, Step::Paragraph(false)),
            VimMotionKind::ParagraphForward => self.repeated_boundary(cur, count, Step::Paragraph(true)),
            VimMotionKind::SectionStartBackward => self.repeated_boundary(cur, count, Step::Section(false, '{')),
            VimMotionKind::SectionStartForward => self.repeated_boundary(cur, count, Step::Section(true, '{')),
            VimMotionKind::SectionEndBackward => self.repeated_boundary(cur, count, Step::Section(false, '}')),
            VimMotionKind::SectionEndForward => self.repeated_boundary(cur, count, Step::Section(true, '}')),
            VimMotionKind::MatchingPair => match self.matching_pair(cur, false) {
                Some(q) => q,
                None => cur,
            },
            VimMotionKind::MatchingPairBackward => match self.matching_pair(cur, true) {
                Some(q) => q,
                None => cur,
            },
            VimMotionKind::UnmatchedOpenBackward => match m.target {
                Some(ch) => self.repeated_boundary(cur, count, Step::UnmatchedOpen(ch)),
                None => cur,
            },
            VimMotionKind::UnmatchedCloseForward => match m.target {
                Some(ch) => self.repeated_boundary(cur, count, Step::UnmatchedClose(ch)),
                None => cur,
            },
            VimMotionKind::MethodBackward | VimMotionKind::MethodForward => {
                let target = match m.target {
                    Some(ch) => if ch == 'M' {
                        '}'
                    } else {
                        '{'
                    },
                    None => '{',
                };
                let forward = m.kind == VimMotionKind::MethodForward;
                self.repeated_boundary(cur, count, Step::Brace(forward, target))
            },
            VimMotionKind::PreprocessorBackward => self.repeated_boundary(cur, count, Step::Preprocessor(false)),
            VimMotionKind::PreprocessorForward => self.repeated_boundary(cur, count, Step::Preprocessor(true)),
            VimMotionKind::CommentBackward => self.repeated_boundary(cur, count, Step::Comment(false)),
            VimMotionKind::CommentForward => self.repeated_boundary(cur, count, Step::Comment(true)),
            VimMotionKind::DiffChangeBackward => self.repeated_boundary(cur, count, Step::DiffChange(false)),
            VimMotionKind::DiffChangeForward => self.repeated_boundary(cur, count, Step::DiffChange(true)),
            VimMotionKind::HalfPageDown | VimMotionKind::HalfPageUp => {
                let distance = if m.explicit_count {
                    count
                } else {
                    let half = vp.height / 2;
                    if half > 1 {
                        half
                    } else {
                        1
                    }
                };
                let delta = count_as_isize(distance);
                if m.kind == VimMotionKind::HalfPageDown {
                    self.move_lines_to_display(cur, delta, desired)
                } else {
                    self.move_lines_to_display(cur, -delta, desired)
                }
            },
            _ => cur,
        }
    }
}


// ---------------------------------------------------------------------------
// Motions that move the viewport.

/// Motions that scroll or place the viewport.
pub open spec fn moves_view(kind: VimMotionKind) -> bool {
    ||| kind == VimMotionKind::PageDown
    ||| kind == VimMotionKind::PageUp
    ||| places_rows(kind)
    ||| horizontal_view_motion(kind)
}

fn moves_view_exec(kind: VimMotionKind) -> (b: bool)
    ensures
        b == moves_view(kind),
{
    kind == VimMotionKind::PageDown || kind == VimMotionKind::PageUp || places_rows_exec(kind)
        || horizontal_view_motion_exec(kind)
}

/// The cursor and viewport after a scrolling or placing motion.
pub open spec fn view_motion(
    t: Seq<Seq<char>>,
    cur: Position,
    vp: Viewport,
    m: VimMotion,
    count: usize,
    desired: usize,
) -> (Position, Viewport) {
    let explicit = m.explicit_count;
    let page = umax(vp.height.saturating_sub(2), 1);
    let above = vp.height.saturating_sub(1);
    let counted = if explicit {
        move_to_line_display_spec(t, (count - 1) as int, desired)
    } else {
        cur
    };
    let counted_first = first_non_blank_on(
        t,
        if explicit {
            clamp_line(t, (count - 1) as usize)
        } else {
            cur.line
        } as int,
    );
    match m.kind {
        VimMotionKind::PageDown => (
            vertical(t, cur, count_delta(sat_mul(page, count)), desired),
            Viewport { top: clamp_line(t, vp.top.saturating_add(sat_mul(page, count))), ..vp },
        ),
        VimMotionKind::PageUp => (
            vertical(t, cur, -count_delta(sat_mul(page, count)), desired),
            Viewport { top: vp.top.saturating_sub(sat_mul(page, count)), ..vp },
        ),
        VimMotionKind::ScrollLineDown => {
            let top = clamp_line(t, vp.top.saturating_add(count));
            (
                if cur.line < top {
                    move_to_line_display_spec(t, top as int, desired)
                } else {
                    cur
                },
                Viewport { top, ..vp },
            )
        },
        VimMotionKind::ScrollLineUp => {
            let top = vp.top.saturating_sub(count);
            let bottom = clamp_line(t, top.saturating_add(above));
            (
                if cur.line > bottom {
                    move_to_line_display_spec(t, bottom as int, desired)
                } else {
                    cur
                },
                Viewport { top, ..vp },
            )
        },
        VimMotionKind::CursorToWindowTop => (counted, Viewport { top: counted.line, ..vp }),
        VimMotionKind::CursorToWindowTopFirstNonBlank => (
            counted_first,
            Viewport { top: counted_first.line, ..vp },
        ),
        VimMotionKind::CursorToWindowMiddle => (
            counted,
            Viewport { top: counted.line.saturating_sub((above / 2) as usize), ..vp },
        ),
        VimMotionKind::CursorToWindowMiddleFirstNonBlank => (
            counted_first,
            Viewport { top: counted_first.line.saturating_sub((above / 2) as usize), ..vp },
        ),
        VimMotionKind::CursorToWindowBottom => (
            counted,
            Viewport { top: counted.line.saturating_sub(above), ..vp },
        ),
        VimMotionKind::CursorToWindowBottomFirstNonBlank => (
            counted_first,
            Viewport { top: counted_first.line.saturating_sub(above), ..vp },
        ),
        VimMotionKind::NextWindowTop => {
            let target = if explicit {
                clamp_line(t, (count - 1) as usize)
            } else {
                clamp_line(t, vp.top.saturating_add(vp.height))
            };
            let c1 = move_to_line_spec(t, cur, target as int);
            (first_non_blank_on(t, c1.line as int), Viewport { top: target, ..vp })
        },
        VimMotionKind::PreviousWindowBottom => {
            let target = if explicit {
                clamp_line(t, count.saturating_sub(vp.height))
            } else {
                vp.top.saturating_sub(1)
            };
            let c1 = move_to_line_spec(t, cur, target as int);
            (first_non_blank_on(t, c1.line as int), Viewport { top: target.saturating_sub(above), ..vp })
        },
        VimMotionKind::ScrollColumnLeft => follow_scroll(
            t,
            cur,
            Viewport { left: vp.left.saturating_sub(count), ..vp },
        ),
        VimMotionKind::ScrollColumnRight => follow_scroll(
            t,
            cur,
            Viewport { left: vp.left.saturating_add(count), ..vp },
        ),
        VimMotionKind::ScrollHalfScreenLeft => follow_scroll(
            t,
            cur,
            Viewport { left: vp.left.saturating_sub(sat_mul(vp.width / 2, count)), ..vp },
        ),
        VimMotionKind::ScrollHalfScreenRight => follow_scroll(
            t,
            cur,
            Viewport { left: vp.left.saturating_add(sat_mul(vp.width / 2, count)), ..vp },
        ),
        VimMotionKind::CursorToWindowLeft => (
            cur,
            Viewport { left: display_with_gutter(t, cur, vp.gutter), ..vp },
        ),
        VimMotionKind::CursorToWindowRight => (
            cur,
            Viewport {
                left: display_with_gutter(t, cur, vp.gutter).saturating_sub(vp.width.saturating_sub(1)),
                ..vp
            },
        ),
        _ => (cur, vp),
    }
}

impl TextBuffer {
    fn view_motion(
        &self,
        cur: Position,
        vp: Viewport,
        m: VimMotion,
        count: usize,
        desired: usize,
    ) -> (r: (Position, Viewport))
        requires
            self.wf(),
            valid_pos(self.view(), cur),
            count >= 1,
        ensures
            r == view_motion(self.view(), cur, vp, m, count, desired),
    {
        let explicit = m.explicit_count;
        let page = {
            let p = vp.height.saturating_sub(2);
            if p > 1 {
                p
            } else {
                1
            }
        };
        let above = vp.height.saturating_sub(1);
        match m.kind {
            VimMotionKind::PageDown => {
                let distance = sat_mul_exec(page, count);
                (
                    self.move_lines_to_display(cur, count_as_isize(distance), desired),
                    Viewport { top: self.clamp_line(vp.top.saturating_add(distance)), ..vp },
                )
            },
            VimMotionKind::PageUp => {
                let distance = sat_mul_exec(page, count);
                (
                    self.move_lines_to_display(cur, -count_as_isize(distance), desired),
                    Viewport { top: vp.top.saturating_sub(distance), ..vp },
                )
            },
            VimMotionKind::ScrollLineDown => {
                let top = self.clamp_line(vp.top.saturating_add(count));
                let c = if cur.line < top {
                    self.move_to_line_display(top, desired)
                } else {
                    cur
                };
                (c, Viewport { top, ..vp })
            },
            VimMotionKind::ScrollLineUp => {
                let top = vp.top.saturating_sub(count);
                let bottom = self.clamp_line(top.saturating_add(above));
                let c = if cur.line > bottom {
                    self.move_to_line_display(bottom, desired)
                } else {
                    cur
                };
                (c, Viewport { top, ..vp })
            },
            VimMotionKind::CursorToWindowTop | VimMotionKind::CursorToWindowMiddle
            | VimMotionKind::CursorToWindowBottom => {
                let c = if explicit {
                    self.move_to_line_display(count - 1, desired)
                } else {
                    cur
                };
                let top = if m.kind == VimMotionKind::CursorToWindowTop {
                    c.line
                } else if m.kind == VimMotionKind::CursorToWindowMiddle {
                    c.line.saturating_sub(above / 2)
                } else {
                    c.line.saturating_sub(above)
                };
                (c, Viewport { top, ..vp })
            },
            VimMotionKind::CursorToWindowTopFirstNonBlank
            | VimMotionKind::CursorToWindowMiddleFirstNonBlank
            | VimMotionKind::CursorToWindowBottomFirstNonBlank => {
                let ln = if explicit {
                    self.clamp_line(count - 1)
                } else {
                    cur.line
                };
                let c = self.first_non_blank_on(ln);
                let top = if m.kind == VimMotionKind::CursorToWindowTopFirstNonBlank {
                    c.line
                } else if m.kind == VimMotionKind::CursorToWindowMiddleFirstNonBlank {
                    c.line.saturating_sub(above / 2)
                } else {
                    c.line.saturating_sub(above)
                };
                (c, Viewport { top, ..vp })
            },
            VimMotionKind::NextWindowTop => {
                let target = if explicit {
                    self.clamp_line(count - 1)
                } else {
                    self.clamp_line(vp.top.saturating_add(vp.height))
                };
                let c1 = self.move_to_line(cur, target);
                (self.first_non_blank_on(c1.line), Viewport { top: target, ..vp })
            },
            VimMotionKind::PreviousWindowBottom => {
                let target = if explicit {
                    self.clamp_line(count.saturating_sub(vp.height))
                } else {
                    vp.top.saturating_sub(1)
                };
                let c1 = self.move_to_line(cur, target);
                (self.first_non_blank_on(c1.line), Viewport { top: target.saturating_sub(above), ..vp })
            },
            VimMotionKind::ScrollColumnLeft => self.follow_horizontal_scroll(
                cur,
                Viewport { left: vp.left.saturating_sub(count), ..vp },
            ),
            VimMotionKind::ScrollColumnRight => self.follow_horizontal_scroll(
                cur,
                Viewport { left: vp.left.saturating_add(count), ..vp },
            ),
            VimMotionKind::ScrollHalfScreenLeft => {
                let shift = sat_mul_exec(vp.width / 2, count);
                self.follow_horizontal_scroll(cur, Viewport { left: vp.left.saturating_sub(shift), ..vp })
            },
            VimMotionKind::ScrollHalfScreenRight => {
                let shift = sat_mul_exec(vp.width / 2, count);
                self.follow_horizontal_scroll(cur, Viewport { left: vp.left.saturating_add(shift), ..vp })
            },
            VimMotionKind::CursorToWindowLeft => (
                cur,
                Viewport { left: self.display_with_gutter(cur, vp.gutter), ..vp },
            ),
            VimMotionKind::CursorToWindowRight => {
                let d = self.display_with_gutter(cur, vp.gutter);
                (cur, Viewport { left: d.saturating_sub(vp.width.saturating_sub(1)), ..vp })
            },
            _ => (cur, vp),
        }
    }
}

// ---------------------------------------------------------------------------
// Applying a motion.

/// Vertical motions keep the wanted display column.
pub open spec fn preserves_desired(kind: VimMotionKind) -> bool {
    ||| kind == VimMotionKind::Up
    ||| kind == VimMotionKind::Down
    ||| kind == VimMotionKind::HalfPageUp
    ||| kind == VimMotionKind::HalfPageDown
    ||| kind == VimMotionKind::PageUp
    ||| kind == VimMotionKind::PageDown
    ||| kind == VimMotionKind::ScrollLineUp
    ||| kind == VimMotionKind::ScrollLineDown
}

/// Viewport placements that leave the wanted display column as it was.
pub open spec fn viewport_only(kind: VimMotionKind) -> bool {
    ||| kind == VimMotionKind::CursorToWindowTop
    ||| kind == VimMotionKind::CursorToWindowMiddle
    ||| kind == VimMotionKind::CursorToWindowBottom
    ||| horizontal_view_motion(kind)
}

/// Whether a motion keeps the wanted display column.
pub fn preserves_desired_column(kind: VimMotionKind) -> (b: bool)
    ensures
        b == preserves_desired(kind),
{
    match kind {
        VimMotionKind::Up | VimMotionKind::Down | VimMotionKind::HalfPageUp
        | VimMotionKind::HalfPageDown | VimMotionKind::PageUp | VimMotionKind::PageDown
        | VimMotionKind::ScrollLineUp | VimMotionKind::ScrollLineDown => true,
        _ => false,
    }
}

/// Whether a motion only moves the viewport around the cursor.
pub fn is_viewport_only_motion(kind: VimMotionKind) -> (b: bool)
    ensures
        b == viewport_only(kind),
{
    match kind {
        VimMotionKind::CursorToWindowTop | VimMotionKind::CursorToWindowMiddle
        | VimMotionKind::CursorToWindowBottom => true,
        _ => horizontal_view_motion_exec(kind),
    }
}

/// A cursor as an outside position; lines past `u32::MAX` saturate.
pub open spec fn to_source(p: Position) -> SourcePosition {
    SourcePosition {
        line: if p.line <= u32::MAX {
            p.line as u32
        } else {
            u32::MAX
        },
        byte_column: p.column,
    }
}

pub fn to_source_position(p: Position) -> (s: SourcePosition)
    ensures
        s == to_source(p),
{
    SourcePosition {
        line: if p.line <= u32::MAX as usize {
            p.line as u32
        } else {
            u32::MAX
        },
        byte_column: p.column,
    }
}

/// The cursor and viewport after one motion of any kind.
pub open spec fn motion_result(
    t: Seq<Seq<char>>,
    cur: Position,
    vp: Viewport,
    m: VimMotion,
    count: usize,
    desired: usize,
) -> (Position, Viewport) {
    if moves_view(m.kind) {
        view_motion(t, cur, vp, m, count, desired)
    } else {
        (cursor_motion(t, cur, vp, m, count, desired), vp)
    }
}

/// The whole effect of a motion: the new cursor and viewport.
pub open spec fn apply_motion(t: Seq<Seq<char>>, sp: SourcePosition, vp: Viewport, m: VimMotion) -> (
    SourcePosition,
    Viewport,
) {
    let cur = clamp_spec(t, sp);
    let count: usize = if m.count > 0 {
        m.count
    } else {
        1
    };
    let desired = match vp.desired_column {
        Some(d) => d,
        None => display_at(line_at(t, cur.line as int), index_of(t, cur)),
    };
    let r = motion_result(t, cur, vp, m, count, desired);
    let c2 = clamp_spec(t, to_source(r.0));
    let wanted = if preserves_desired(m.kind) {
        Some(desired)
    } else if m.kind == VimMotionKind::LineEnd {
        Some(usize::MAX)
    } else if viewport_only(m.kind) {
        r.1.desired_column
    } else {
        Some(display_at(line_at(t, c2.line as int), index_of(t, c2)))
    };
    (to_source(c2), keep_visible(t, c2, Viewport { desired_column: wanted, ..r.1 }, m.kind))
}

/// After any motion the viewport's top row is a line of the document.
pub proof fn lemma_viewport_top_on_a_line(t: Seq<Seq<char>>, sp: SourcePosition, vp: Viewport, m: VimMotion)
    ensures
        apply_motion(t, sp, vp, m).1.top <= last_line(t),
{
}

/// Every line of a slice of string slices fits in memory.
fn slices_fit(lines: &[&str])
    ensures
        all_fit(text_of(lines@)),
{
    let mut i: usize = 0;
    while i < lines.len()
        invariant
            i <= lines@.len(),
            forall|j: int| 0 <= j < i ==> fits(#[trigger] text_of(lines@)[j]),
        decreases lines@.len() - i,
    {
        crate::text::str_fits(lines[i]);
        i = i + 1;
    }
}

/// Applies one completed motion to a document and returns the new cursor;
/// the viewport follows the cursor.
pub fn apply(lines: &[&str], position: SourcePosition, viewport: &mut Viewport, motion: VimMotion) -> (r:
    SourcePosition)
    ensures
        (r, *final(viewport)) == apply_motion(text_of(lines@), position, *old(viewport), motion),
        nlines(text_of(lines@)) <= u32::MAX ==> valid_pos(
            text_of(lines@),
            Position { line: r.line as usize, column: r.byte_column },
        ),
        final(viewport).top <= last_line(text_of(lines@)),
{
    slices_fit(lines);
    let buffer = TextBuffer::new(lines);
    let cursor = buffer.clamp(position);
    let count: usize = if motion.count > 0 {
        motion.count
    } else {
        1
    };
    let desired = match viewport.desired_column {
        Some(d) => d,
        None => {
            let l = buffer.line(cursor.line);
            l.display_prefix(l.floor_index(cursor.column))
        },
    };
    let vp0 = *viewport;
    let moved = if moves_view_exec(motion.kind) {
        buffer.view_motion(cursor, vp0, motion, count, desired)
    } else {
        (buffer.cursor_motion(cursor, vp0, motion, count, desired), vp0)
    };
    let c2 = buffer.clamp(to_source_position(moved.0));
    let wanted = if preserves_desired_column(motion.kind) {
        Some(desired)
    } else if motion.kind == VimMotionKind::LineEnd {
        Some(usize::MAX)
    } else if is_viewport_only_motion(motion.kind) {
        moved.1.desired_column
    } else {
        let l = buffer.line(c2.line);
        Some(l.display_prefix(l.floor_index(c2.column)))
    };
    let vp2 = Viewport { desired_column: wanted, ..moved.1 };
    *viewport = buffer.keep_visible(c2, vp2, motion.kind);
    to_source_position(c2)
}

/// Scrolls a viewport so that an externally chosen position is visible.
pub fn reveal_position(lines: &[&str], position: SourcePosition, viewport: &mut Viewport)
    requires
        all_fit(text_of(lines@)),
    ensures
        *final(viewport) == keep_visible(
            text_of(lines@),
            clamp_spec(text_of(lines@), position),
            *old(viewport),
            VimMotionKind::Left,
        ),
{
    let buffer = TextBuffer::new(lines);
    let cursor = buffer.clamp(position);
    *viewport = buffer.keep_visible(cursor, *viewport, VimMotionKind::Left);
}


// ---------------------------------------------------------------------------
// Laws of the character motions.

/// A wrapping step right (Space) that moves is undone by a wrapping step left
/// (Backspace), and the other way round.
pub proof fn lemma_wrap_steps_undo(t: Seq<Seq<char>>, p: Position)
    requires
        all_fit(t),
        nlines(t) <= usize::MAX,
        valid_pos(t, p),
    ensures
        right_wrap_step(t, p) != p ==> left_wrap_step(t, right_wrap_step(t, p)) == p,
        left_wrap_step(t, p) != p ==> right_wrap_step(t, left_wrap_step(t, p)) == p,
{
    lemma_index_bound(t, p);
    let l = line_at(t, p.line as int);
    let k = index_of(t, p);
    lemma_offset_mono(l, 0, k);
    if k >= last_col(l) && p.line < last_line(t) {
        lemma_valid_at(t, p.line + 1, 0);
    } else if k + 1 < l.len() {
        lemma_valid_at(t, p.line as int, k + 1);
        lemma_offset_mono(l, 0, k + 1);
    }
    if p.column == 0 && p.line > 0 {
        let prev = line_at(t, p.line - 1);
        lemma_valid_at(t, p.line - 1, last_col(prev));
        assert(k == 0);
    } else if k > 0 {
        lemma_valid_at(t, p.line as int, k - 1);
    }
}

/// `h` and `l` never leave the cursor line, whatever the count.
pub proof fn lemma_horizontal_keeps_line(t: Seq<Seq<char>>, p: Position, count: nat)
    requires
        all_fit(t),
        nlines(t) <= usize::MAX,
        valid_pos(t, p),
    ensures
        repeat_step(t, p, count, Step::Left).line == p.line,
        repeat_step(t, p, count, Step::Right).line == p.line,
    decreases count,
{
    if count > 0 {
        lemma_index_bound(t, p);
        let k = index_of(t, p);
        let l = line_at(t, p.line as int);
        let j = prev_col(k);
        lemma_valid_at(t, p.line as int, j);
        lemma_horizontal_keeps_line(t, left_step(t, p), (count - 1) as nat);
        let n = next_col(l, k);
        lemma_valid_at(t, p.line as int, n);
        lemma_horizontal_keeps_line(t, right_step(t, p), (count - 1) as nat);
    }
}
// ---------------------------------------------------------------------------
// `%` on a bracket is symmetric.

/// Characters from character `i` of `line` to the end of the text.
pub open spec fn chars_from(t: Seq<Seq<char>>, line: int, i: int) -> nat
    decreases nlines(t) - line,
{
    if line < 0 || line >= nlines(t) {
        0
    } else {
        let n = line_at(t, line).len() as int;
        (if i <= n { n - i } else { 0 }) as nat + chars_from(t, line + 1, 0)
    }
}

/// Characters of the lines before `line`.
pub open spec fn chars_before(t: Seq<Seq<char>>, line: int) -> nat
    decreases line,
{
    if line <= 0 {
        0
    } else {
        chars_before(t, line - 1) + line_at(t, line - 1).len()
    }
}

proof fn lemma_chars_split(t: Seq<Seq<char>>, line: int)
    requires
        0 <= line < nlines(t),
    ensures
        chars_before(t, line) + chars_from(t, line, 0) == chars_from(t, 0, 0),
    decreases line,
{
    if line > 0 {
        lemma_chars_split(t, line - 1);
    }
}

/// A forward scan that finds a bracket is undone by a backward scan from
/// it: scanning back from the bracket found reaches the start of the
/// forward scan with the depth it began with.
proof fn lemma_fwd_then_back(t: Seq<Seq<char>>, line: int, i: int, d: nat, open: char, close: char) -> (r: (int, int))
    requires
        all_fit(t),
        nlines(t) <= usize::MAX,
        open != close,
        0 <= line < nlines(t),
        0 <= i <= line_at(t, line).len(),
        d + chars_from(t, line, i) < usize::MAX,
    ensures
        unmatched_fwd(t, line, i, d, open, close) matches Some(q) ==> found_at(t, q, r.0, r.1, close)
            && unmatched_back(t, r.0, r.1, 0, open, close) == unmatched_back(t, line, i, d, open, close),
    decreases nlines(t) - line, line_at(t, line).len() - i,
{
    let l = line_at(t, line);
    if i < l.len() {
        let c = l[i];
        if c == open {
            assert(sat_inc(d) == d + 1);
            assert(unmatched_fwd(t, line, i, d, open, close) == unmatched_fwd(t, line, i + 1, d + 1, open, close));
            assert(unmatched_back(t, line, i + 1, d + 1, open, close) == unmatched_back(t, line, i, d, open, close));
            lemma_fwd_then_back(t, line, i + 1, d + 1, open, close)
        } else if c == close {
            if d == 0 {
                lemma_valid_at(t, line, i);
                assert(unmatched_fwd(t, line, i, d, open, close) == Some(pos_at(t, line, i)));
                assert(found_at(t, pos_at(t, line, i), line, i, close));
                (line, i)
            } else {
                assert(sat_inc((d - 1) as nat) == d);
                assert(unmatched_fwd(t, line, i, d, open, close) == unmatched_fwd(t, line, i + 1, (d - 1) as nat, open, close));
                assert(unmatched_back(t, line, i + 1, (d - 1) as nat, open, close) == unmatched_back(t, line, i, d, open, close));
                lemma_fwd_then_back(t, line, i + 1, (d - 1) as nat, open, close)
            }
        } else {
            assert(unmatched_fwd(t, line, i, d, open, close) == unmatched_fwd(t, line, i + 1, d, open, close));
            assert(unmatched_back(t, line, i + 1, d, open, close) == unmatched_back(t, line, i, d, open, close));
            lemma_fwd_then_back(t, line, i + 1, d, open, close)
        }
    } else {
        assert(unmatched_fwd(t, line, i, d, open, close) == unmatched_fwd(t, line + 1, 0, d, open, close));
        if line + 1 < nlines(t) {
            assert(unmatched_back(t, line + 1, 0, d, open, close) == unmatched_back(t, line, l.len() as int, d, open, close));
            lemma_fwd_then_back(t, line + 1, 0, d, open, close)
        } else {
            (0, 0)
        }
    }
}

/// `q` is the position of character `j` of line `lq`, which is `c`.
pub open spec fn found_at(t: Seq<Seq<char>>, q: Position, lq: int, j: int, c: char) -> bool {
    &&& 0 <= lq < nlines(t)
    &&& 0 <= j < line_at(t, lq).len()
    &&& line_at(t, lq)[j] == c
    &&& q == pos_at(t, lq, j)
}

/// A backward scan that finds a bracket is undone by a forward scan from
/// just after it.
proof fn lemma_back_then_fwd(t: Seq<Seq<char>>, line: int, n: int, d: nat, open: char, close: char) -> (r: (int, int))
    requires
        all_fit(t),
        nlines(t) <= usize::MAX,
        open != close,
        0 <= line < nlines(t),
        0 <= n <= line_at(t, line).len(),
        d + chars_before(t, line) + n < usize::MAX,
    ensures
        unmatched_back(t, line, n, d, open, close) matches Some(p) ==> found_at(t, p, r.0, r.1, open)
            && unmatched_fwd(t, r.0, r.1 + 1, 0, open, close) == unmatched_fwd(t, line, n, d, open, close),
    decreases line, n,
{
    let l = line_at(t, line);
    if 0 < n {
        let c = l[n - 1];
        if c == close {
            assert(sat_inc(d) == d + 1);
            assert(unmatched_back(t, line, n, d, open, close) == unmatched_back(t, line, n - 1, d + 1, open, close));
            assert(unmatched_fwd(t, line, n - 1, d + 1, open, close) == unmatched_fwd(t, line, n, d, open, close));
            lemma_back_then_fwd(t, line, n - 1, d + 1, open, close)
        } else if c == open {
            if d == 0 {
                lemma_valid_at(t, line, n - 1);
                assert(unmatched_back(t, line, n, d, open, close) == Some(pos_at(t, line, n - 1)));
                assert(found_at(t, pos_at(t, line, n - 1), line, n - 1, open));
                (line, n - 1)
            } else {
                assert(sat_inc((d - 1) as nat) == d);
                assert(unmatched_back(t, line, n, d, open, close) == unmatched_back(t, line, n - 1, (d - 1) as nat, open, close));
                assert(unmatched_fwd(t, line, n - 1, (d - 1) as nat, open, close) == unmatched_fwd(t, line, n, d, open, close));
                lemma_back_then_fwd(t, line, n - 1, (d - 1) as nat, open, close)
            }
        } else {
            assert(unmatched_back(t, line, n, d, open, close) == unmatched_back(t, line, n - 1, d, open, close));
            assert(unmatched_fwd(t, line, n - 1, d, open, close) == unmatched_fwd(t, line, n, d, open, close));
            lemma_back_then_fwd(t, line, n - 1, d, open, close)
        }
    } else if line > 0 {
        let m = line_at(t, line - 1).len() as int;
        assert(unmatched_back(t, line, n, d, open, close) == unmatched_back(t, line - 1, m, d, open, close));
        assert(unmatched_fwd(t, line - 1, m, d, open, close) == unmatched_fwd(t, line, n, d, open, close));
        lemma_back_then_fwd(t, line - 1, m, d, open, close)
    } else {
        (0, 0)
    }
}

/// `%` on a bracket and then `%` on the bracket it reached comes back: the
/// two brackets match each other (for texts of fewer than `usize::MAX`
/// characters, where nesting depth cannot saturate).
pub proof fn lemma_matching_pair_symmetric(t: Seq<Seq<char>>, c: Position, q: Position)
    requires
        all_fit(t),
        nlines(t) <= usize::MAX,
        chars_from(t, 0, 0) < usize::MAX,
        c.line < nlines(t),
        0 <= index_of(t, c) < line_at(t, c.line as int).len(),
        c == pos_at(t, c.line as int, index_of(t, c)),
        is_pair_char(line_at(t, c.line as int)[index_of(t, c)]),
        matching_pair(t, c, false) == Some(q),
    ensures
        matching_pair(t, q, false) == Some(c),
        q.line < nlines(t),
        0 <= index_of(t, q) < line_at(t, q.line as int).len(),
        q == pos_at(t, q.line as int, index_of(t, q)),
        is_pair_char(line_at(t, q.line as int)[index_of(t, q)]),
{
    let line = c.line as int;
    let l = line_at(t, line);
    let k = index_of(t, c);
    assert(pair_item_at(l, k));
    assert(item_from(l, k) == k);
    lemma_chars_split(t, line);
    let ch = l[k];
    if closer_of(ch) is Some {
        let close = closer_of(ch)->0;
        assert(unmatched_fwd(t, line, k + 1, 0, ch, close) == Some(q));
        let (lq, j) = lemma_fwd_then_back(t, line, k + 1, 0, ch, close);
        lemma_valid_at(t, lq, j);
        let lq_line = line_at(t, lq);
        assert(pair_item_at(lq_line, j));
        assert(item_from(lq_line, j) == j);
        assert(opener_of(close) == Some(ch));
    } else {
        let open = opener_of(ch)->0;
        assert(unmatched_back(t, line, k, 0, open, ch) == Some(q));
        let (lp, j) = lemma_back_then_fwd(t, line, k, 0, open, ch);
        lemma_valid_at(t, lp, j);
        let lp_line = line_at(t, lp);
        assert(pair_item_at(lp_line, j));
        assert(item_from(lp_line, j) == j);
        assert(closer_of(open) == Some(ch));
    }
}

/// The cursor `sp` as a position of the text.
pub open spec fn at_source(sp: SourcePosition) -> Position {
    Position { line: sp.line as usize, column: sp.byte_column }
}

/// `%` pressed on a bracket and pressed again comes back to that bracket:
/// `apply` with a `%` motion, twice, returns the starting cursor (for texts
/// of at most `u32::MAX` lines and fewer than `usize::MAX` characters).
pub proof fn lemma_percent_round_trip(
    t: Seq<Seq<char>>,
    sp: SourcePosition,
    vp: Viewport,
    vp2: Viewport,
    m: VimMotion,
)
    requires
        all_fit(t),
        nlines(t) <= u32::MAX,
        chars_from(t, 0, 0) < usize::MAX,
        m.kind == VimMotionKind::MatchingPair,
        (sp.line as int) < nlines(t),
        0 <= index_of(t, at_source(sp)) < line_at(t, sp.line as int).len(),
        at_source(sp) == pos_at(t, sp.line as int, index_of(t, at_source(sp))),
        is_pair_char(line_at(t, sp.line as int)[index_of(t, at_source(sp))]),
        matching_pair(t, at_source(sp), false) is Some,
    ensures
        apply_motion(t, apply_motion(t, sp, vp, m).0, vp2, m).0 == sp,
{
    let c = at_source(sp);
    let q = matching_pair(t, c, false)->0;
    lemma_matching_pair_symmetric(t, c, q);
    assert(clamp_spec(t, sp) == c);
    let sq = to_source(q);
    assert(at_source(sq) == q);
    assert(clamp_spec(t, sq) == q);
    assert(apply_motion(t, sp, vp, m).0 == sq);
    assert(to_source(c) == sp);
}

/// `q` is column 0 of the nearest line below `p` whose first character is
/// `c`, or `p` itself when no line below starts with `c`.
pub open spec fn at_next_line_starting(t: Seq<Seq<char>>, p: Position, q: Position, c: char) -> bool {
    if exists|i: int| p.line < i < nlines(t) && #[trigger] line_starts_with(t, i, c) {
        &&& p.line < q.line < nlines(t)
        &&& q.column == 0
        &&& line_starts_with(t, q.line as int, c)
        &&& forall|i: int| p.line < i < q.line ==> !#[trigger] line_starts_with(t, i, c)
    } else {
        q == p
    }
}

/// `q` is column 0 of the nearest line above `p` whose first character is
/// `c`, or `p` itself when no line above starts with `c`.
pub open spec fn at_prev_line_starting(t: Seq<Seq<char>>, p: Position, q: Position, c: char) -> bool {
    if exists|i: int| 0 <= i < p.line && #[trigger] line_starts_with(t, i, c) {
        &&& q.line < p.line
        &&& q.column == 0
        &&& line_starts_with(t, q.line as int, c)
        &&& forall|i: int| q.line < i < p.line ==> !#[trigger] line_starts_with(t, i, c)
    } else {
        q == p
    }
}

proof fn lemma_next_line_starting(t: Seq<Seq<char>>, i: int, c: char)
    requires
        0 <= i,
    ensures
        next_line_starting(t, i, c) <= nlines(t),
        next_line_starting(t, i, c) < nlines(t) ==> i <= next_line_starting(t, i, c)
            && line_starts_with(t, next_line_starting(t, i, c), c),
        forall|k: int|
            i <= k < next_line_starting(t, i, c) ==> !#[trigger] line_starts_with(t, k, c),
    decreases nlines(t) - i,
{
    if i < nlines(t) && !line_starts_with(t, i, c) {
        lemma_next_line_starting(t, i + 1, c);
    }
}

proof fn lemma_prev_line_starting(t: Seq<Seq<char>>, n: int, c: char)
    requires
        0 <= n,
    ensures
        prev_line_starting(t, n, c) < n,
        prev_line_starting(t, n, c) >= -1,
        prev_line_starting(t, n, c) >= 0 ==> line_starts_with(t, prev_line_starting(t, n, c), c),
        forall|k: int|
            prev_line_starting(t, n, c) < k < n && 0 <= k ==> !#[trigger] line_starts_with(t, k, c),
    decreases n,
{
    if n > 0 && !line_starts_with(t, n - 1, c) {
        lemma_prev_line_starting(t, n - 1, c);
    }
}

/// Section motions with a count of one: `]]` and `][` go to column 0 of the
/// nearest line below that starts with `{` or `}`, `[[` and `[]` to that of
/// the nearest line above; with no such line the cursor stays.
pub proof fn lemma_section_motions(t: Seq<Seq<char>>, cur: Position, vp: Viewport, m: VimMotion, desired: usize)
    requires
        t.len() <= usize::MAX,
    ensures
        m.kind == VimMotionKind::SectionStartForward ==> at_next_line_starting(
            t,
            cur,
            cursor_motion(t, cur, vp, m, 1, desired),
            '{',
        ),
        m.kind == VimMotionKind::SectionEndForward ==> at_next_line_starting(
            t,
            cur,
            cursor_motion(t, cur, vp, m, 1, desired),
            '}',
        ),
        m.kind == VimMotionKind::SectionStartBackward ==> at_prev_line_starting(
            t,
            cur,
            cursor_motion(t, cur, vp, m, 1, desired),
            '{',
        ),
        m.kind == VimMotionKind::SectionEndBackward ==> at_prev_line_starting(
            t,
            cur,
            cursor_motion(t, cur, vp, m, 1, desired),
            '}',
        ),
{
    if m.kind == VimMotionKind::SectionStartForward {
        lemma_section_forward(t, cur, '{');
    } else if m.kind == VimMotionKind::SectionEndForward {
        lemma_section_forward(t, cur, '}');
    } else if m.kind == VimMotionKind::SectionStartBackward {
        lemma_section_backward(t, cur, '{');
    } else if m.kind == VimMotionKind::SectionEndBackward {
        lemma_section_backward(t, cur, '}');
    }
}

proof fn lemma_section_forward(t: Seq<Seq<char>>, cur: Position, c: char)
    requires
        t.len() <= usize::MAX,
    ensures
        at_next_line_starting(t, cur, repeat_step(t, cur, 1, Step::Section(true, c)), c),
{
    let j = next_line_starting(t, cur.line + 1, c);
    lemma_next_line_starting(t, cur.line + 1, c);
    let q = section(t, cur, true, c);
    assert(repeat_step(t, q, 0, Step::Section(true, c)) == q);
    if exists|i: int| cur.line < i < nlines(t) && #[trigger] line_starts_with(t, i, c) {
        let i = choose|i: int| cur.line < i < nlines(t) && #[trigger] line_starts_with(t, i, c);
        assert(j <= i);
        assert(q == pos_at(t, j, 0));
        assert(q != cur);
    } else {
        if j < nlines(t) {
            assert(line_starts_with(t, j, c));
        }
    }
}

proof fn lemma_section_backward(t: Seq<Seq<char>>, cur: Position, c: char)
    ensures
        at_prev_line_starting(t, cur, repeat_step(t, cur, 1, Step::Section(false, c)), c),
{
    let j = prev_line_starting(t, cur.line as int, c);
    lemma_prev_line_starting(t, cur.line as int, c);
    let q = section(t, cur, false, c);
    assert(repeat_step(t, q, 0, Step::Section(false, c)) == q);
    if exists|i: int| 0 <= i < cur.line && #[trigger] line_starts_with(t, i, c) {
        let i = choose|i: int| 0 <= i < cur.line && #[trigger] line_starts_with(t, i, c);
        assert(j >= i);
        assert(q == pos_at(t, j, 0));
        assert(q != cur);
    } else {
        if j >= 0 {
            assert(line_starts_with(t, j, c));
        }
    }
}

} // verus!





