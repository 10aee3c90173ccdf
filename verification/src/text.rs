//! UTF-8 character columns, display cells, and line models shared by the
//! cursor, search, and language-server position code.
//!
//! A line is modelled by its characters. Byte columns are UTF-8 offsets of
//! character indices; every public byte column returned here lies on a
//! character boundary.

use crate::unicode::{terminal_width, width};
use vstd::prelude::*;

verus! {

/// Number of bytes in the UTF-8 encoding of `c`.
pub open spec fn utf8_width(c: char) -> nat {
    if (c as u32) < 0x80 {
        1
    } else if (c as u32) < 0x800 {
        2
    } else if (c as u32) < 0x10000 {
        3
    } else {
        4
    }
}

/// Number of UTF-16 code units in the encoding of `c`.
pub open spec fn utf16_width(c: char) -> nat {
    if (c as u32) < 0x10000 {
        1
    } else {
        2
    }
}

/// Byte offset of character index `k` (clamped to the line) in `line`.
pub open spec fn offset(line: Seq<char>, k: int) -> nat
    decreases k,
{
    if k <= 0 {
        0
    } else if k > line.len() {
        offset(line, line.len() as int)
    } else {
        offset(line, k - 1) + utf8_width(line[k - 1])
    }
}

/// Length of `line` in UTF-8 bytes.
pub open spec fn byte_len(line: Seq<char>) -> nat {
    offset(line, line.len() as int)
}

/// A line whose byte length is representable as a `usize`.
pub open spec fn fits(line: Seq<char>) -> bool {
    byte_len(line) <= usize::MAX
}

/// Whether `b` is a byte offset that starts a character or ends the line.
pub open spec fn is_boundary(line: Seq<char>, b: int) -> bool {
    exists|k: int| 0 <= k <= line.len() && #[trigger] offset(line, k) == b
}

/// The first character index `j >= k` whose following boundary lies beyond `b`;
/// starting from zero this is the largest index whose offset is at most `b`.
pub open spec fn floor_from(line: Seq<char>, b: int, k: int) -> int
    decreases line.len() - k,
{
    if k >= line.len() || offset(line, k + 1) > b {
        k
    } else {
        floor_from(line, b, k + 1)
    }
}

/// Character index of the nearest boundary at or before byte `b`.
pub open spec fn floor_index(line: Seq<char>, b: int) -> int {
    floor_from(line, b, 0)
}

/// Display cells of one character: four for a tab, otherwise its terminal width.
pub open spec fn cells(c: char) -> nat {
    if c == '\t' {
        4
    } else {
        match terminal_width(c) {
            Some(w) => w as nat,
            None => 0,
        }
    }
}

/// Display cells before character index `k`.
pub open spec fn display_prefix(line: Seq<char>, k: int) -> nat
    decreases k,
{
    if k <= 0 {
        0
    } else if k > line.len() {
        display_prefix(line, line.len() as int)
    } else {
        display_prefix(line, k - 1) + cells(line[k - 1])
    }
}

/// `n` saturated at `usize::MAX`.
pub open spec fn sat(n: nat) -> nat {
    if n > usize::MAX {
        usize::MAX as nat
    } else {
        n
    }
}

/// Index of the last character, or zero for an empty line.
pub open spec fn last_col(line: Seq<char>) -> int {
    if line.len() == 0 {
        0
    } else {
        line.len() - 1
    }
}

/// One character to the left, stopping at the line start.
pub open spec fn prev_col(k: int) -> int {
    if k > 0 {
        k - 1
    } else {
        0
    }
}

/// One character to the right, stopping at the last character.
pub open spec fn next_col(line: Seq<char>, k: int) -> int {
    if k + 1 < line.len() {
        k + 1
    } else {
        last_col(line)
    }
}

/// The last index `i < n` whose display prefix is at most `d`, or zero.
pub open spec fn at_display_below(line: Seq<char>, d: int, n: int) -> int
    decreases n,
{
    if n <= 0 {
        0
    } else if n > line.len() {
        at_display_below(line, d, line.len() as int)
    } else if sat(display_prefix(line, n - 1)) <= d {
        n - 1
    } else {
        at_display_below(line, d, n - 1)
    }
}

/// The character under display cell `d`: the last character that starts at or
/// before that cell.
pub open spec fn at_display(line: Seq<char>, d: int) -> int {
    at_display_below(line, d, line.len() as int)
}

pub proof fn lemma_offset_mono(line: Seq<char>, i: int, j: int)
    requires
        0 <= i <= j <= line.len(),
    ensures
        offset(line, i) <= offset(line, j),
        i < j ==> offset(line, i) < offset(line, j),
    decreases j - i,
{
    if i < j {
        lemma_offset_mono(line, i, j - 1);
    }
}

pub proof fn lemma_offset_step(line: Seq<char>, k: int)
    requires
        0 <= k < line.len(),
    ensures
        offset(line, k + 1) == offset(line, k) + utf8_width(line[k]),
{
}

pub proof fn lemma_display_mono(line: Seq<char>, i: int, j: int)
    requires
        0 <= i <= j <= line.len(),
    ensures
        display_prefix(line, i) <= display_prefix(line, j),
    decreases j - i,
{
    if i < j {
        lemma_display_mono(line, i, j - 1);
    }
}

pub proof fn lemma_floor_from_range(line: Seq<char>, b: int, k: int)
    requires
        0 <= k <= line.len(),
    ensures
        k <= floor_from(line, b, k) <= line.len(),
    decreases line.len() - k,
{
    if !(k >= line.len() || offset(line, k + 1) > b) {
        lemma_floor_from_range(line, b, k + 1);
    }
}

/// The floor index is the largest index whose offset is at most `b`.
pub proof fn lemma_floor_index(line: Seq<char>, b: int)
    requires
        b >= 0,
    ensures
        0 <= floor_index(line, b) <= line.len(),
        offset(line, floor_index(line, b)) <= b,
        floor_index(line, b) < line.len() ==> offset(line, floor_index(line, b) + 1) > b,
{
    lemma_floor_from_range(line, b, 0);
    lemma_floor_from_props(line, b, 0);
}

proof fn lemma_floor_from_props(line: Seq<char>, b: int, k: int)
    requires
        0 <= k <= line.len(),
        offset(line, k) <= b,
    ensures
        offset(line, floor_from(line, b, k)) <= b,
        floor_from(line, b, k) < line.len() ==> offset(line, floor_from(line, b, k) + 1) > b,
    decreases line.len() - k,
{
    if !(k >= line.len() || offset(line, k + 1) > b) {
        lemma_floor_from_props(line, b, k + 1);
    }
}

/// The floor of a boundary offset is its own index.
pub proof fn lemma_floor_of_offset(line: Seq<char>, k: int)
    requires
        0 <= k <= line.len(),
    ensures
        floor_index(line, offset(line, k) as int) == k,
{
    let b = offset(line, k) as int;
    lemma_floor_index(line, b);
    let f = floor_index(line, b);
    if f < k {
        lemma_offset_mono(line, f + 1, k);
    } else if f > k {
        lemma_offset_mono(line, k, f);
    }
}

/// A line stored with its characters and the byte offset of each index.
pub struct Line {
    pub chars: Vec<char>,
    pub offsets: Vec<usize>,
}

impl Line {
    /// The offsets table agrees with the UTF-8 byte offsets of the characters.
    pub open spec fn wf(&self) -> bool {
        &&& self.offsets@.len() == self.chars@.len() + 1
        &&& forall|k: int|
            0 <= k <= self.chars@.len() ==> #[trigger] self.offsets@[k] == offset(
                self.chars@,
                k,
            )
    }

    pub open spec fn view(&self) -> Seq<char> {
        self.chars@
    }

    /// Builds the line model of `s`.
    pub fn new(s: &str) -> (l: Line)
        requires
            fits(s@),
        ensures
            l.wf(),
            l.chars@ == s@,
    {
        let chars = crate::text::chars_of(s);
        Line::from_chars(chars)
    }

    /// Builds the line model of a character vector.
    pub fn from_chars(chars: Vec<char>) -> (l: Line)
        requires
            fits(chars@),
        ensures
            l.wf(),
            l.chars@ == chars@,
    {
        let mut offsets: Vec<usize> = Vec::new();
        offsets.push(0);
        let mut total: usize = 0;
        let n = chars.len();
        let mut i: usize = 0;
        while i < n
            invariant
                n == chars@.len(),
                0 <= i <= n,
                fits(chars@),
                offsets@.len() == i + 1,
                total == offset(chars@, i as int),
                forall|k: int| 0 <= k <= i ==> #[trigger] offsets@[k] == offset(chars@, k),
            decreases n - i,
        {
            proof {
                lemma_offset_mono(chars@, i + 1, n as int);
            }
            let w = char_utf8_width(chars[i]);
            total = total + w;
            offsets.push(total);
            i = i + 1;
        }
        Line { chars, offsets }
    }

    pub fn len(&self) -> (n: usize)
        ensures
            n == self.chars@.len(),
    {
        self.chars.len()
    }

    /// Byte length of the line.
    pub fn bytes(&self) -> (n: usize)
        requires
            self.wf(),
        ensures
            n == byte_len(self.chars@),
    {
        self.offsets[self.chars.len()]
    }

    /// Byte offset of character index `k`.
    pub fn offset_of(&self, k: usize) -> (b: usize)
        requires
            self.wf(),
            k <= self.chars@.len(),
        ensures
            b == offset(self.chars@, k as int),
    {
        self.offsets[k]
    }

    /// Index of the nearest character boundary at or before byte `b`.
    pub fn floor_index(&self, b: usize) -> (k: usize)
        requires
            self.wf(),
        ensures
            k == floor_index(self.chars@, b as int),
            k <= self.chars@.len(),
    {
        let n = self.chars.len();
        let mut k: usize = 0;
        while k < n && self.offsets[k + 1] <= b
            invariant
                self.wf(),
                n == self.chars@.len(),
                k <= n,
                floor_from(self.chars@, b as int, 0) == floor_from(self.chars@, b as int, k as int),
            decreases n - k,
        {
            k = k + 1;
        }
        k
    }

    pub fn last_col(&self) -> (k: usize)
        ensures
            k == last_col(self.chars@),
    {
        if self.chars.len() == 0 {
            0
        } else {
            self.chars.len() - 1
        }
    }

    pub fn next_col(&self, k: usize) -> (r: usize)
        ensures
            r == next_col(self.chars@, k as int),
    {
        if k < self.chars.len() && k + 1 < self.chars.len() {
            k + 1
        } else {
            self.last_col()
        }
    }

    /// Display cells before character index `k`, saturated at `usize::MAX`.
    pub fn display_prefix(&self, k: usize) -> (d: usize)
        requires
            k <= self.chars@.len(),
        ensures
            d == sat(display_prefix(self.chars@, k as int)),
    {
        let mut d: usize = 0;
        let mut i: usize = 0;
        while i < k
            invariant
                k <= self.chars@.len(),
                i <= k,
                d == sat(display_prefix(self.chars@, i as int)),
            decreases k - i,
        {
            let c = cell_count(self.chars[i]);
            if d > usize::MAX - c {
                d = usize::MAX;
            } else {
                d = d + c;
            }
            i = i + 1;
        }
        d
    }

    /// Index of the character under display cell `d`.
    pub fn at_display(&self, d: usize) -> (k: usize)
        ensures
            k == at_display(self.chars@, d as int),
            k <= last_col(self.chars@),
    {
        let n = self.chars.len();
        let mut best: usize = 0;
        let mut cells: usize = 0;
        let mut i: usize = 0;
        let ghost line = self.chars@;
        while i < n
            invariant
                n == line.len(),
                line == self.chars@,
                i <= n,
                cells == sat(display_prefix(line, i as int)),
                i > 0 ==> best == at_display_below(line, d as int, i as int),
                i == 0 ==> best == 0,
                best <= last_col(line),
                forall|j: int| 0 <= j < i ==> sat(display_prefix(line, j)) <= d,
            ensures
                best == at_display(line, d as int),
                best <= last_col(line),
            decreases n - i,
        {
            if cells > d {
                proof {
                    lemma_at_display_stops(line, d as int, i as int);
                }
                break;
            }
            best = i;
            let c = cell_count(self.chars[i]);
            if cells > usize::MAX - c {
                cells = usize::MAX;
            } else {
                cells = cells + c;
            }
            i = i + 1;
        }
        best
    }
}

proof fn lemma_at_display_stops(line: Seq<char>, d: int, i: int)
    requires
        0 < i < line.len(),
        sat(display_prefix(line, i)) > d,
    ensures
        at_display(line, d) == at_display_below(line, d, i),
{
    lemma_at_display_tail(line, d, i, line.len() as int);
}

proof fn lemma_at_display_tail(line: Seq<char>, d: int, i: int, n: int)
    requires
        0 < i < line.len(),
        i <= n <= line.len(),
        sat(display_prefix(line, i)) > d,
    ensures
        at_display_below(line, d, n) == at_display_below(line, d, i),
    decreases n - i,
{
    if n > i {
        lemma_display_mono(line, i, n - 1);
        lemma_at_display_tail(line, d, i, n - 1);
    }
}

/// Display cells of one character.
pub fn cell_count(c: char) -> (n: usize)
    ensures
        n == cells(c),
{
    if c == '\t' {
        4
    } else {
        match width(c) {
            Some(w) => w,
            None => 0,
        }
    }
}

/// Returns the UTF-8 width of one character.
pub fn char_utf8_width(c: char) -> (w: usize)
    ensures
        w == utf8_width(c),
{
    let v = c as u32;
    if v < 0x80 {
        1
    } else if v < 0x800 {
        2
    } else if v < 0x10000 {
        3
    } else {
        4
    }
}

/// Returns the UTF-16 width of one character.
pub fn char_utf16_width(c: char) -> (w: usize)
    ensures
        w == utf16_width(c),
{
    let v = c as u32;
    if v < 0x10000 {
        1
    } else {
        2
    }
}

proof fn lemma_offset_front(s: Seq<char>, k: int)
    requires
        0 <= k < s.len(),
    ensures
        offset(s, k + 1) == utf8_width(s[0]) + offset(s.drop_first(), k),
    decreases k,
{
    let d = s.drop_first();
    if k > 0 {
        lemma_offset_front(s, k - 1);
        assert(d[k - 1] == s[k]);
        assert(offset(s, k + 1) == offset(s, k) + utf8_width(s[k]));
        assert(offset(d, k) == offset(d, k - 1) + utf8_width(d[k - 1]));
    } else {
        assert(offset(s, 0) == 0);
        assert(offset(s, 1) == offset(s, 0) + utf8_width(s[0]));
        assert(offset(d, 0) == 0);
    }
}

/// The modelled byte length is the length of the UTF-8 encoding.
pub proof fn lemma_byte_len_encode(s: Seq<char>)
    ensures
        byte_len(s) == vstd::utf8::encode_utf8(s).len(),
    decreases s.len(),
{
    if s.len() > 0 {
        lemma_offset_front(s, s.len() - 1);
        lemma_byte_len_encode(s.drop_first());
        let c = s[0];
        vstd::utf8::char_is_scalar(c);
    }
}

/// A string slice's byte length is a `usize`.
pub(crate) fn str_fits(s: &str)
    ensures
        fits(s@),
{
    let bytes = s.as_bytes();
    let n = bytes.len();
    proof {
        lemma_byte_len_encode(s@);
        assert(byte_len(s@) == n);
    }
}

/// Byte length of a string slice.
pub fn str_byte_len(s: &str) -> (n: usize)
    ensures
        fits(s@) ==> n == byte_len(s@),
{
    proof {
        lemma_byte_len_encode(s@);
    }
    s.len()
}

/// Builds a `String` from characters, through `String::from_iter`.
#[verifier::external_body]
pub(crate) fn string_from_chars(v: &Vec<char>) -> (s: String)
    ensures
        s@ == v@,
{
    String::from_iter(v.iter())
}

/// Appends one character, through `String::push`.
#[verifier::external_body]
pub(crate) fn push_char(s: &mut String, c: char)
    ensures
        final(s)@ == old(s)@.push(c),
{
    s.push(c)
}

/// Removes and returns the last character, through `String::pop`; an empty
/// string stays empty and gives `None`.
#[verifier::external_body]
pub(crate) fn pop_char(s: &mut String) -> (r: Option<char>)
    ensures
        old(s)@.len() == 0 ==> r is None && final(s)@ == old(s)@,
        old(s)@.len() > 0 ==> r == Some(old(s)@.last()) && final(s)@ == old(s)@.drop_last(),
{
    s.pop()
}

/// Whether two character vectors hold the same characters.
pub fn chars_equal(a: &Vec<char>, b: &Vec<char>) -> (r: bool)
    ensures
        r == (a@ == b@),
{
    if a.len() != b.len() {
        return false;
    }
    let mut i: usize = 0;
    while i < a.len()
        invariant
            a@.len() == b@.len(),
            i <= a@.len(),
            forall|j: int| 0 <= j < i ==> a@[j] == b@[j],
        decreases a@.len() - i,
    {
        if a[i] != b[i] {
            return false;
        }
        i = i + 1;
    }
    assert(a@ =~= b@);
    true
}

/// Whether `s` holds exactly the characters of `t`.
pub fn str_equals(s: &str, t: &str) -> (r: bool)
    ensures
        r == (s@ == t@),
{
    let a = chars_of(s);
    let b = chars_of(t);
    chars_equal(&a, &b)
}

/// Whether `line` begins with `prefix`.
pub open spec fn starts_with(line: Seq<char>, prefix: Seq<char>) -> bool {
    prefix.len() <= line.len() && line.subrange(0, prefix.len() as int) == prefix
}

/// Whether the characters of `line` from index `at` begin with `prefix`.
pub open spec fn occurs_at(line: Seq<char>, at: int, prefix: Seq<char>) -> bool {
    0 <= at && at + prefix.len() <= line.len() && line.subrange(at, at + prefix.len()) == prefix
}

/// Whether `prefix` occurs in `line` at character index `at`.
pub fn occurs_at_exec(line: &Vec<char>, at: usize, prefix: &Vec<char>) -> (r: bool)
    ensures
        r == occurs_at(line@, at as int, prefix@),
{
    if at > line.len() || prefix.len() > line.len() - at {
        return false;
    }
    let n = line.len();
    let mut i: usize = 0;
    while i < prefix.len()
        invariant
            n == line@.len(),
            at + prefix@.len() <= line@.len(),
            i <= prefix@.len(),
            forall|j: int| 0 <= j < i ==> line@[at + j] == prefix@[j],
        decreases prefix@.len() - i,
    {
        if line[at + i] != prefix[i] {
            assert(line@.subrange(at as int, at + prefix@.len())[i as int] != prefix@[i as int]);
            return false;
        }
        i = i + 1;
    }
    assert(line@.subrange(at as int, at + prefix@.len()) =~= prefix@);
    true
}

/// Whether `line` begins with `prefix`.
pub fn starts_with_exec(line: &Vec<char>, prefix: &Vec<char>) -> (r: bool)
    ensures
        r == starts_with(line@, prefix@),
{
    occurs_at_exec(line, 0, prefix)
}

/// Index of the first `c` at or after `i`, or the length.
pub open spec fn find_char_from(s: Seq<char>, c: char, i: int) -> int
    decreases s.len() - i,
{
    if i < 0 || i >= s.len() {
        s.len() as int
    } else if s[i] == c {
        i
    } else {
        find_char_from(s, c, i + 1)
    }
}

/// The pieces of `s` between occurrences of `c`.
pub open spec fn split_chars(s: Seq<char>, c: char) -> Seq<Seq<char>>
    decreases s.len(),
{
    let i = find_char_from(s, c, 0);
    if i >= s.len() || i < 0 {
        seq![s]
    } else {
        seq![s.subrange(0, i)] + split_chars(s.subrange(i + 1, s.len() as int), c)
    }
}

/// A line without the carriage return of a CRLF ending.
pub open spec fn strip_cr(l: Seq<char>) -> Seq<char> {
    if l.len() > 0 && l.last() == '\r' {
        l.drop_last()
    } else {
        l
    }
}

/// The lines of a text as `str::lines` yields them: split at `\n`, a `\r`
/// before a `\n` removed, and no empty line after a final `\n`.
pub open spec fn text_lines(t: Seq<char>) -> Seq<Seq<char>> {
    let pieces = split_chars(t, '\n');
    let n = pieces.len();
    let body = Seq::new((n - 1) as nat, |i: int| strip_cr(pieces[i]));
    if pieces.last().len() == 0 {
        body
    } else {
        body.push(pieces.last())
    }
}

proof fn lemma_find_char_shift(s: Seq<char>, c: char, start: int, j: int)
    requires
        0 <= start <= j <= s.len(),
    ensures
        find_char_from(s.subrange(start, s.len() as int), c, j - start) == find_char_from(s, c, j)
            - start,
    decreases s.len() - j,
{
    if j < s.len() && s[j] != c {
        lemma_find_char_shift(s, c, start, j + 1);
    }
}

proof fn lemma_find_char_skip(s: Seq<char>, c: char, a: int, b: int)
    requires
        0 <= a <= b <= s.len(),
        forall|x: int| a <= x < b ==> s[x] != c,
    ensures
        find_char_from(s, c, a) == find_char_from(s, c, b),
    decreases b - a,
{
    if a < b {
        lemma_find_char_skip(s, c, a + 1, b);
    }
}

proof fn lemma_split_chars_len(s: Seq<char>, c: char)
    ensures
        split_chars(s, c).len() >= 1,
    decreases s.len(),
{
    let i = find_char_from(s, c, 0);
    if !(i >= s.len() || i < 0) {
        lemma_split_chars_len(s.subrange(i + 1, s.len() as int), c);
    }
}

/// Splits characters at every `c`.
pub fn split_chars_exec(s: &Vec<char>, c: char) -> (pieces: Vec<Vec<char>>)
    ensures
        pieces@.map_values(|p: Vec<char>| p@) == split_chars(s@, c),
{
    let n = s.len();
    let mut pieces: Vec<Vec<char>> = Vec::new();
    let mut current: Vec<char> = Vec::new();
    let mut start: usize = 0;
    let mut i: usize = 0;
    assert(s@.subrange(0, n as int) =~= s@);
    assert(pieces@.map_values(|p: Vec<char>| p@) =~= Seq::<Seq<char>>::empty());
    while i < n
        invariant
            n == s@.len(),
            start <= i <= n,
            current@ == s@.subrange(start as int, i as int),
            forall|x: int| start <= x < i ==> s@[x] != c,
            pieces@.map_values(|p: Vec<char>| p@) + split_chars(s@.subrange(start as int, n as int), c)
                == split_chars(s@, c),
        decreases n - i,
    {
        if s[i] == c {
            let ghost rest = s@.subrange(start as int, n as int);
            proof {
                lemma_find_char_shift(s@, c, start as int, start as int);
                lemma_find_char_skip(s@, c, start as int, i as int);
                assert(find_char_from(rest, c, 0) == i - start);
                assert(rest.subrange(0, i - start) =~= current@);
                assert(rest.subrange(i - start + 1, rest.len() as int) =~= s@.subrange(
                    i + 1,
                    n as int,
                ));
            }
            let ghost old_pieces = pieces@.map_values(|p: Vec<char>| p@);
            pieces.push(current);
            proof {
                assert(pieces@.map_values(|p: Vec<char>| p@) =~= old_pieces.push(
                    s@.subrange(start as int, i as int),
                ));
                assert(old_pieces.push(s@.subrange(start as int, i as int)) + split_chars(
                    s@.subrange(i + 1, n as int),
                    c,
                ) =~= old_pieces + split_chars(rest, c));
            }
            current = Vec::new();
            start = i + 1;
            assert(current@ =~= s@.subrange(start as int, start as int));
        } else {
            current.push(s[i]);
        }
        i = i + 1;
    }
    let ghost rest = s@.subrange(start as int, n as int);
    proof {
        lemma_find_char_shift(s@, c, start as int, start as int);
        lemma_find_char_skip(s@, c, start as int, n as int);
        assert(find_char_from(rest, c, 0) == rest.len());
        assert(rest =~= current@);
    }
    let ghost old_pieces = pieces@.map_values(|p: Vec<char>| p@);
    pieces.push(current);
    assert(pieces@.map_values(|p: Vec<char>| p@) =~= old_pieces.push(rest));
    assert(old_pieces + split_chars(rest, c) =~= pieces@.map_values(|p: Vec<char>| p@));
    pieces
}

/// Splits a text into lines with `str::lines` semantics.
pub fn lines_of(t: &Vec<char>) -> (lines: Vec<Vec<char>>)
    ensures
        lines@.map_values(|p: Vec<char>| p@) == text_lines(t@),
{
    let pieces = split_chars_exec(t, '\n');
    let ghost ps = split_chars(t@, '\n');
    proof {
        lemma_split_chars_len(t@, '\n');
    }
    let n = pieces.len();
    assert(pieces@.map_values(|p: Vec<char>| p@).len() == n);
    let mut lines: Vec<Vec<char>> = Vec::new();
    let mut i: usize = 0;
    while i + 1 < n
        invariant
            n == pieces@.len(),
            n >= 1,
            ps == pieces@.map_values(|p: Vec<char>| p@),
            i <= n - 1,
            lines@.len() == i,
            forall|k: int| 0 <= k < i ==> #[trigger] lines@[k]@ == strip_cr(ps[k]),
        decreases n - i,
    {
        let piece = &pieces[i];
        assert(piece@ == ps[i as int]);
        let mut copy: Vec<char> = Vec::new();
        let mut end = piece.len();
        if end > 0 && piece[end - 1] == '\r' {
            end = end - 1;
        }
        let mut j: usize = 0;
        while j < end
            invariant
                end <= piece@.len(),
                j <= end,
                copy@ == piece@.subrange(0, j as int),
            decreases end - j,
        {
            copy.push(piece[j]);
            j = j + 1;
        }
        assert(copy@ =~= strip_cr(ps[i as int]));
        lines.push(copy);
        i = i + 1;
    }
    let last = &pieces[n - 1];
    assert(last@ == ps.last());
    if last.len() > 0 {
        let mut copy: Vec<char> = Vec::new();
        let mut j: usize = 0;
        while j < last.len()
            invariant
                j <= last@.len(),
                copy@ == last@.subrange(0, j as int),
            decreases last@.len() - j,
        {
            copy.push(last[j]);
            j = j + 1;
        }
        assert(copy@ =~= last@);
        lines.push(copy);
    }
    assert(lines@.map_values(|p: Vec<char>| p@) =~= text_lines(t@));
    lines
}

/// Value of a digit character.
pub open spec fn digit_value(c: char) -> nat {
    (c as u32 - '0' as u32) as nat
}

pub open spec fn is_digit(c: char) -> bool {
    '0' <= c && c <= '9'
}

/// The value of a run of decimal digits.
pub open spec fn decimal_value(s: Seq<char>) -> nat
    decreases s.len(),
{
    if s.len() == 0 {
        0
    } else {
        decimal_value(s.drop_last()) * 10 + digit_value(s.last())
    }
}

/// The digits of an unsigned decimal as `u32::from_str` accepts them: an
/// optional leading `+`, then at least one digit and nothing else.
pub open spec fn decimal_digits(s: Seq<char>) -> Seq<char> {
    if s.len() > 0 && s[0] == '+' {
        s.drop_first()
    } else {
        s
    }
}

/// `u32::from_str`: the value, when the text is a decimal that fits.
pub open spec fn parse_u32(s: Seq<char>) -> Option<u32> {
    let d = decimal_digits(s);
    if d.len() > 0 && (forall|i: int| 0 <= i < d.len() ==> is_digit(#[trigger] d[i]))
        && decimal_value(d) <= u32::MAX {
        Some(decimal_value(d) as u32)
    } else {
        None
    }
}

pub(crate) proof fn lemma_decimal_prefix(s: Seq<char>, i: int)
    requires
        0 <= i <= s.len(),
    ensures
        decimal_value(s.take(i)) <= decimal_value(s),
    decreases s.len() - i,
{
    if i < s.len() {
        lemma_decimal_prefix(s, i + 1);
        assert(s.take(i + 1).drop_last() =~= s.take(i));
    } else {
        assert(s.take(i) =~= s);
    }
}

/// Parses an unsigned decimal the way `u32::from_str` does.
pub fn parse_decimal_u32(s: &Vec<char>) -> (r: Option<u32>)
    ensures
        r == parse_u32(s@),
{
    let n = s.len();
    let mut i: usize = 0;
    if n > 0 && s[0] == '+' {
        i = 1;
    }
    let start = i;
    let ghost d = decimal_digits(s@);
    assert(d =~= s@.subrange(start as int, n as int));
    if start == n {
        return None;
    }
    let mut v: u32 = 0;
    while i < n
        invariant
            n == s@.len(),
            start <= i <= n,
            d == s@.subrange(start as int, n as int),
            d == decimal_digits(s@),
            v == decimal_value(d.take(i - start)),
            forall|j: int| 0 <= j < i - start ==> is_digit(#[trigger] d[j]),
        decreases n - i,
    {
        let c = s[i];
        assert(d[i - start] == c);
        if !('0' <= c && c <= '9') {
            assert(!is_digit(d[i - start]));
            return None;
        }
        let digit = (c as u32) - ('0' as u32);
        assert(d.take(i - start + 1).drop_last() =~= d.take(i - start));
        if v > (0xffff_ffffu32 - digit) / 10 {
            proof {
                lemma_decimal_prefix(d, i - start + 1);
                assert(v * 10 + digit > 0xffff_ffff) by (nonlinear_arith)
                    requires
                        v > (0xffff_ffffu32 - digit) / 10,
                        digit <= 9,
                ;
                assert(decimal_value(d.take(i - start + 1)) == v * 10 + digit_value(c));
            }
            return None;
        }
        v = v * 10 + digit;
        i = i + 1;
    }
    assert(d.take(n - start) =~= d);
    Some(v)
}

/// Collects the characters of `s`.
pub fn chars_of(s: &str) -> (v: Vec<char>)
    ensures
        v@ == s@,
{
    let mut v: Vec<char> = Vec::new();
    for c in it: s.chars()
        invariant
            v@ == it.seq().take(it.index() as int),
            it.seq() == s@,
    {
        v.push(c);
    }
    v
}

/// Whether `query` asks for a case-sensitive match (it holds an uppercase letter).
pub open spec fn case_sensitive(query: Seq<char>) -> bool {
    exists|i: int| 0 <= i < query.len() && crate::unicode::uppercase(#[trigger] query[i])
}

pub fn has_uppercase(query: &Vec<char>) -> (b: bool)
    ensures
        b == case_sensitive(query@),
{
    let mut i: usize = 0;
    while i < query.len()
        invariant
            i <= query@.len(),
            forall|j: int| 0 <= j < i ==> !crate::unicode::uppercase(#[trigger] query@[j]),
        decreases query@.len() - i,
    {
        if crate::unicode::is_uppercase(query[i]) {
            return true;
        }
        i = i + 1;
    }
    false
}


/// Where the `n`-th piece of `s[start..]` between occurrences of `c` starts,
/// as an index of `s`; past `s.len()` when there is no such piece.
pub open spec fn piece_from(s: Seq<char>, c: char, start: int, n: nat) -> int
    decreases n,
{
    if n == 0 {
        start
    } else {
        let e = find_char_from(s, c, start);
        if e >= s.len() {
            s.len() as int + 1
        } else {
            piece_from(s, c, e + 1, (n - 1) as nat)
        }
    }
}

pub proof fn lemma_piece_from(s: Seq<char>, c: char, start: int, n: nat)
    requires
        0 <= start <= s.len(),
    ensures
        (n < split_chars(s.subrange(start, s.len() as int), c).len()) == (piece_from(s, c, start, n)
            <= s.len()),
        n < split_chars(s.subrange(start, s.len() as int), c).len() ==> {
            let p = piece_from(s, c, start, n);
            &&& start <= p <= s.len()
            &&& p <= find_char_from(s, c, p) <= s.len()
            &&& split_chars(s.subrange(start, s.len() as int), c)[n as int] == s.subrange(
                p,
                find_char_from(s, c, p),
            )
        },
    decreases n,
{
    let sub = s.subrange(start, s.len() as int);
    lemma_find_char_shift(s, c, start, start);
    let i = find_char_from(sub, c, 0);
    let e = find_char_from(s, c, start);
    lemma_find_char_bound(s, c, start);
    assert(i == e - start);
    if i >= sub.len() || i < 0 {
        assert(split_chars(sub, c) == seq![sub]);
        assert(sub =~= s.subrange(start, e));
    } else {
        let rest = sub.subrange(i + 1, sub.len() as int);
        assert(rest =~= s.subrange(e + 1, s.len() as int));
        lemma_split_chars_len(rest, c);
        assert(split_chars(sub, c) == seq![sub.subrange(0, i)] + split_chars(rest, c));
        if n == 0 {
            assert(sub.subrange(0, i) =~= s.subrange(start, e));
        } else {
            lemma_piece_from(s, c, e + 1, (n - 1) as nat);
            if n - 1 < split_chars(rest, c).len() {
                assert(split_chars(sub, c)[n as int] == split_chars(rest, c)[n - 1]);
            }
        }
    }
}

pub proof fn lemma_find_char_bound(s: Seq<char>, c: char, i: int)
    requires
        0 <= i <= s.len(),
    ensures
        i <= find_char_from(s, c, i) <= s.len(),
        find_char_from(s, c, i) < s.len() ==> s[find_char_from(s, c, i)] == c,
    decreases s.len() - i,
{
    if i < s.len() && s[i] != c {
        lemma_find_char_bound(s, c, i + 1);
    }
}

/// Line `n` of `s` split at `\n`, without a trailing `\r`.
pub open spec fn nth_line(s: Seq<char>, n: int) -> Option<Seq<char>> {
    let pieces = split_chars(s, '\n');
    if 0 <= n < pieces.len() {
        Some(strip_cr(pieces[n]))
    } else {
        None
    }
}

/// Line `n` of `source` split at `\n`, without a trailing `\r`.
pub fn nth_line_exec(source: &str, n: usize) -> (r: Option<&str>)
    ensures
        r matches Some(l) ==> nth_line(source@, n as int) == Some(l@),
        r is None ==> nth_line(source@, n as int) is None,
{
    let v = chars_of(source);
    let len = v.len();
    let mut start: usize = 0;
    let mut k: usize = 0;
    while k < n
        invariant
            v@ == source@,
            len == v@.len(),
            k <= n,
            start <= len,
            piece_from(v@, '\n', 0, n as nat) == piece_from(v@, '\n', start as int, (n - k) as nat),
        decreases n - k,
    {
        let mut e = start;
        while e < len && v[e] != '\n'
            invariant
                start <= e <= len,
                len == v@.len(),
                find_char_from(v@, '\n', start as int) == find_char_from(v@, '\n', e as int),
            decreases len - e,
        {
            e = e + 1;
        }
        if e >= len {
            proof {
                lemma_piece_from(v@, '\n', 0, n as nat);
                assert(v@.subrange(0, len as int) =~= v@);
                assert(piece_from(v@, '\n', start as int, (n - k) as nat) == len + 1);
            }
            return None;
        }
        start = e + 1;
        k = k + 1;
    }
    let mut e = start;
    while e < len && v[e] != '\n'
        invariant
            start <= e <= len,
            len == v@.len(),
            find_char_from(v@, '\n', start as int) == find_char_from(v@, '\n', e as int),
        decreases len - e,
    {
        e = e + 1;
    }
    proof {
        lemma_piece_from(v@, '\n', 0, n as nat);
        lemma_find_char_bound(v@, '\n', e as int);
        assert(v@.subrange(0, len as int) =~= v@);
    }
    let end = if e > start && v[e - 1] == '\r' {
        e - 1
    } else {
        e
    };
    proof {
        let piece = v@.subrange(start as int, e as int);
        if e > start && v@[e - 1] == '\r' {
            assert(piece.drop_last() =~= v@.subrange(start as int, end as int));
        }
    }
    Some(source.substring_char(start, end))
}
/// Index of the first character at or after `i` that is not whitespace.
pub open spec fn lead_end(s: Seq<char>, i: int) -> int
    decreases s.len() - i,
{
    if 0 <= i < s.len() && crate::unicode::whitespace(s[i]) {
        lead_end(s, i + 1)
    } else {
        i
    }
}

/// End of the text before `j` once trailing whitespace down to `lo` is dropped.
pub open spec fn trail_start(s: Seq<char>, j: int, lo: int) -> int
    decreases j - lo,
{
    if j > lo && crate::unicode::whitespace(s[j - 1]) {
        trail_start(s, j - 1, lo)
    } else {
        j
    }
}

/// Text without leading and trailing whitespace, as `str::trim` leaves it.
pub open spec fn trimmed(s: Seq<char>) -> Seq<char> {
    let a = lead_end(s, 0);
    s.subrange(a, trail_start(s, s.len() as int, a))
}

/// The characters of `s` without leading and trailing whitespace.
pub fn trim_text(s: &str) -> (t: String)
    ensures
        t@ == trimmed(s@),
{
    let v = chars_of(s);
    let n = v.len();
    let mut i: usize = 0;
    while i < n && crate::unicode::is_whitespace(v[i])
        invariant
            v@ == s@,
            n == v@.len(),
            i <= n,
            lead_end(s@, 0) == lead_end(s@, i as int),
        decreases n - i,
    {
        i = i + 1;
    }
    let mut j: usize = n;
    while j > i && crate::unicode::is_whitespace(v[j - 1])
        invariant
            v@ == s@,
            n == v@.len(),
            i == lead_end(s@, 0),
            i <= j <= n,
            trail_start(s@, n as int, i as int) == trail_start(s@, j as int, i as int),
        decreases j - i,
    {
        j = j - 1;
    }
    s.substring_char(i, j).to_string()
}

} // verus!
