//! Byte-string helpers: lossy and strict UTF-8 decoding and comparisons.

use bstr::ByteSlice;
use vstd::prelude::*;
use vstd::utf8::{decode_utf8, valid_utf8};

verus! {

/// The text `bstr` produces from arbitrary bytes, replacing each maximal
/// invalid UTF-8 subpart with U+FFFD.
pub uninterp spec fn lossy_text(bytes: Seq<u8>) -> Seq<char>;

/// Decodes bytes through `bstr::ByteSlice::to_str_lossy`.
///
/// The contract names the result and states the one fact `bstr` documents
/// plainly: valid UTF-8 is returned unchanged. How invalid sequences are
/// replaced is left unsaid.
#[verifier::external_body]
pub(crate) fn lossy_string(bytes: &[u8]) -> (s: String)
    ensures
        s@ == lossy_text(bytes@),
        valid_utf8(bytes@) ==> s@ == decode_utf8(bytes@),
{
    bytes.to_str_lossy().into_owned()
}

/// Decodes strictly through `std::str::from_utf8`: `None` exactly for
/// invalid UTF-8.
#[verifier::external_body]
pub(crate) fn strict_utf8(bytes: &[u8]) -> (s: Option<String>)
    ensures
        s is Some <==> valid_utf8(bytes@),
        s matches Some(t) ==> t@ == decode_utf8(bytes@),
{
    std::str::from_utf8(bytes).ok().map(|text| text.to_owned())
}

/// The byte contents of a sequence of byte vectors.
pub open spec fn views(v: Seq<Vec<u8>>) -> Seq<Seq<u8>> {
    v.map_values(|x: Vec<u8>| x@)
}

/// Index of the first `sep` at or after `i`, or the length.
pub open spec fn find_from(s: Seq<u8>, sep: u8, i: int) -> int
    decreases s.len() - i,
{
    if i < 0 || i >= s.len() {
        s.len() as int
    } else if s[i] == sep {
        i
    } else {
        find_from(s, sep, i + 1)
    }
}

/// The fields of `s` separated by `sep`: `n` separators give `n + 1` fields.
pub open spec fn split(s: Seq<u8>, sep: u8) -> Seq<Seq<u8>>
    decreases s.len(),
{
    let i = find_from(s, sep, 0);
    if i >= s.len() || i < 0 {
        seq![s]
    } else {
        seq![s.subrange(0, i)] + split(s.subrange(i + 1, s.len() as int), sep)
    }
}

/// The non-empty fields, in order.
pub open spec fn non_empty(fields: Seq<Seq<u8>>) -> Seq<Seq<u8>>
    decreases fields.len(),
{
    if fields.len() == 0 {
        Seq::empty()
    } else if fields.last().len() > 0 {
        non_empty(fields.drop_last()).push(fields.last())
    } else {
        non_empty(fields.drop_last())
    }
}

/// Every kept field is non-empty.
pub proof fn lemma_non_empty_elems(fields: Seq<Seq<u8>>)
    ensures
        forall|k: int| 0 <= k < non_empty(fields).len() ==> #[trigger] non_empty(fields)[k].len() > 0,
    decreases fields.len(),
{
    if fields.len() > 0 {
        lemma_non_empty_elems(fields.drop_last());
        let r = non_empty(fields.drop_last());
        if fields.last().len() > 0 {
            assert forall|k: int| 0 <= k < r.push(fields.last()).len() implies #[trigger] r.push(
                fields.last(),
            )[k].len() > 0 by {
                if k < r.len() {
                    assert(r.push(fields.last())[k] == r[k]);
                }
            }
        }
    }
}

pub proof fn lemma_find_from_range(s: Seq<u8>, sep: u8, i: int)
    requires
        0 <= i <= s.len(),
    ensures
        i <= find_from(s, sep, i) <= s.len(),
        find_from(s, sep, i) < s.len() ==> s[find_from(s, sep, i)] == sep,
        forall|j: int| i <= j < find_from(s, sep, i) ==> s[j] != sep,
    decreases s.len() - i,
{
    if i < s.len() && s[i] != sep {
        lemma_find_from_range(s, sep, i + 1);
    }
}

proof fn lemma_find_skip(s: Seq<u8>, sep: u8, a: int, b: int)
    requires
        0 <= a <= b <= s.len(),
        forall|x: int| a <= x < b ==> s[x] != sep,
    ensures
        find_from(s, sep, a) == find_from(s, sep, b),
    decreases b - a,
{
    if a < b {
        lemma_find_skip(s, sep, a + 1, b);
    }
}

proof fn lemma_find_shift(s: Seq<u8>, sep: u8, start: int, j: int)
    requires
        0 <= start <= j <= s.len(),
        forall|x: int| start <= x < j ==> s[x] != sep,
    ensures
        find_from(s.subrange(start, s.len() as int), sep, j - start) == find_from(s, sep, j)
            - start,
    decreases s.len() - j,
{
    if j < s.len() && s[j] != sep {
        lemma_find_shift(s, sep, start, j + 1);
    }
}

/// Index of the first `sep` at or after `from`, or the length.
pub fn find_byte(s: &[u8], sep: u8, from: usize) -> (i: usize)
    requires
        from <= s@.len(),
    ensures
        i == find_from(s@, sep, from as int),
        from <= i <= s@.len(),
{
    let mut i = from;
    while i < s.len() && s[i] != sep
        invariant
            from <= i <= s@.len(),
            find_from(s@, sep, from as int) == find_from(s@, sep, i as int),
        decreases s@.len() - i,
    {
        i = i + 1;
    }
    i
}

/// Finding in a suffix is finding in the whole, shifted.
pub proof fn lemma_find_suffix(s: Seq<u8>, sep: u8, start: int)
    requires
        0 <= start <= s.len(),
    ensures
        find_from(s.subrange(start, s.len() as int), sep, 0) == find_from(s, sep, start) - start,
{
    lemma_find_shift(s, sep, start, start);
}

/// Splits `input` at every `sep` byte.
pub fn split_bytes(input: &[u8], sep: u8) -> (fields: Vec<Vec<u8>>)
    ensures
        views(fields@) == split(input@, sep),
{
    let n = input.len();
    let mut fields: Vec<Vec<u8>> = Vec::new();
    let mut current: Vec<u8> = Vec::new();
    let mut start: usize = 0;
    let mut i: usize = 0;
    assert(input@.subrange(0, n as int) =~= input@);
    assert(views(fields@) =~= Seq::<Seq<u8>>::empty());
    while i < n
        invariant
            n == input@.len(),
            start <= i <= n,
            current@ == input@.subrange(start as int, i as int),
            forall|x: int| start <= x < i ==> input@[x] != sep,
            views(fields@) + split(input@.subrange(start as int, n as int), sep) == split(
                input@,
                sep,
            ),
        decreases n - i,
    {
        if input[i] == sep {
            proof {
                let rest = input@.subrange(start as int, n as int);
                lemma_find_shift(input@, sep, start as int, start as int);
                lemma_find_skip(input@, sep, start as int, i as int);
                assert(find_from(input@, sep, i as int) == i);
                assert(find_from(rest, sep, 0) == i - start);
                assert(rest.subrange(0, i - start) =~= current@);
                assert(rest.subrange(i - start + 1, rest.len() as int) =~= input@.subrange(
                    i + 1,
                    n as int,
                ));
            }
            let ghost old_fields = views(fields@);
            fields.push(current);
            proof {
                assert(views(fields@) =~= old_fields.push(input@.subrange(start as int, i as int)));
                assert(old_fields.push(input@.subrange(start as int, i as int)) + split(
                    input@.subrange(i + 1, n as int),
                    sep,
                ) =~= old_fields + split(input@.subrange(start as int, n as int), sep));
            }
            current = Vec::new();
            start = i + 1;
            assert(current@ =~= input@.subrange(start as int, start as int));
        } else {
            current.push(input[i]);
        }
        i = i + 1;
    }
    proof {
        let rest = input@.subrange(start as int, n as int);
        lemma_find_shift(input@, sep, start as int, start as int);
        lemma_find_skip(input@, sep, start as int, n as int);
        assert(find_from(rest, sep, 0) == rest.len());
        assert(rest =~= current@);
    }
    let ghost old_fields = views(fields@);
    fields.push(current);
    assert(views(fields@) =~= old_fields.push(input@.subrange(start as int, n as int)));
    assert(old_fields + split(input@.subrange(start as int, n as int), sep) =~= views(fields@));
    fields
}

/// Keeps the non-empty fields, in order.
pub fn keep_non_empty(fields: Vec<Vec<u8>>) -> (kept: Vec<Vec<u8>>)
    ensures
        views(kept@) == non_empty(views(fields@)),
{
    let mut kept: Vec<Vec<u8>> = Vec::new();
    let n = fields.len();
    assert(views(kept@) =~= non_empty(views(fields@).take(0)));
    let mut i: usize = 0;
    while i < n
        invariant
            n == fields@.len(),
            i <= n,
            views(kept@) == non_empty(views(fields@).take(i as int)),
        decreases n - i,
    {
        proof {
            assert(views(fields@).take(i + 1).drop_last() =~= views(fields@).take(
                i as int,
            ));
        }
        if fields[i].len() > 0 {
            let ghost old_kept = views(kept@);
            let copy = crate::bytes::copy_range(fields[i].as_slice(), 0, fields[i].len());
            assert(fields[i as int]@.subrange(0, fields[i as int]@.len() as int) =~= fields[i as int]@);
            kept.push(copy);
            assert(views(kept@) =~= old_kept.push(views(fields@)[i as int]));
        }
        i = i + 1;
    }
    assert(views(fields@).take(n as int) =~= views(fields@));
    kept
}

/// Whether two byte slices are equal.
pub fn bytes_equal(a: &[u8], b: &[u8]) -> (r: bool)
    ensures
        r == (a@ == b@),
{
    if a.len() != b.len() {
        return false;
    }
    let mut i: usize = 0;
    while i < a.len()
        invariant
            a@.len() == b@.len(),
            i <= a@.len(),
            forall|j: int| 0 <= j < i ==> a@[j] == b@[j],
        decreases a@.len() - i,
    {
        if a[i] != b[i] {
            return false;
        }
        i = i + 1;
    }
    assert(a@ =~= b@);
    true
}

/// Copies a range of bytes.
pub fn copy_range(bytes: &[u8], from: usize, to: usize) -> (v: Vec<u8>)
    requires
        from <= to <= bytes@.len(),
    ensures
        v@ == bytes@.subrange(from as int, to as int),
{
    let mut v: Vec<u8> = Vec::new();
    let mut i = from;
    while i < to
        invariant
            from <= i <= to <= bytes@.len(),
            v@ == bytes@.subrange(from as int, i as int),
        decreases to - i,
    {
        v.push(bytes[i]);
        i = i + 1;
    }
    v
}

/// Byte-wise lexicographic order, as `Ord` orders byte slices.
pub open spec fn lex_lt(a: Seq<u8>, b: Seq<u8>) -> bool
    decreases a.len(),
{
    if a.len() == 0 {
        b.len() > 0
    } else if b.len() == 0 {
        false
    } else if a[0] != b[0] {
        a[0] < b[0]
    } else {
        lex_lt(a.drop_first(), b.drop_first())
    }
}

/// No sequence precedes itself.
pub proof fn lemma_lex_irreflexive(a: Seq<u8>)
    ensures
        !lex_lt(a, a),
    decreases a.len(),
{
    if a.len() > 0 {
        lemma_lex_irreflexive(a.drop_first());
    }
}

/// Of two different sequences, one precedes the other, and never both.
pub proof fn lemma_lex_total(a: Seq<u8>, b: Seq<u8>)
    ensures
        a != b ==> (lex_lt(a, b) || lex_lt(b, a)),
        !(lex_lt(a, b) && lex_lt(b, a)),
    decreases a.len(),
{
    if a.len() > 0 && b.len() > 0 && a[0] == b[0] {
        lemma_lex_total(a.drop_first(), b.drop_first());
        if a.drop_first() == b.drop_first() {
            assert(a =~= seq![a[0]] + a.drop_first());
            assert(b =~= seq![b[0]] + b.drop_first());
        }
    }
    if a.len() == 0 && b.len() == 0 {
        assert(a =~= b);
    }
}

/// The order is transitive.
pub proof fn lemma_lex_transitive(a: Seq<u8>, b: Seq<u8>, c: Seq<u8>)
    requires
        lex_lt(a, b),
        lex_lt(b, c),
    ensures
        lex_lt(a, c),
    decreases a.len(),
{
    if a.len() > 0 && b.len() > 0 && c.len() > 0 && a[0] == b[0] && b[0] == c[0] {
        lemma_lex_transitive(a.drop_first(), b.drop_first(), c.drop_first());
    }
}

proof fn lemma_lex_skip(a: Seq<u8>, b: Seq<u8>, i: int)
    requires
        0 <= i <= a.len(),
        i <= b.len(),
        a.take(i) == b.take(i),
    ensures
        lex_lt(a, b) == lex_lt(a.skip(i), b.skip(i)),
    decreases i,
{
    if i > 0 {
        assert(a[0] == a.take(i)[0]);
        assert(b[0] == b.take(i)[0]);
        assert(a.drop_first().take(i - 1) =~= a.take(i).drop_first());
        assert(b.drop_first().take(i - 1) =~= b.take(i).drop_first());
        lemma_lex_skip(a.drop_first(), b.drop_first(), i - 1);
        assert(a.drop_first().skip(i - 1) =~= a.skip(i));
        assert(b.drop_first().skip(i - 1) =~= b.skip(i));
    } else {
        assert(a.skip(0) =~= a);
        assert(b.skip(0) =~= b);
    }
}

/// Whether `a` sorts strictly before `b`.
pub fn bytes_less(a: &[u8], b: &[u8]) -> (r: bool)
    ensures
        r == lex_lt(a@, b@),
{
    let mut i: usize = 0;
    while i < a.len() && i < b.len() && a[i] == b[i]
        invariant
            i <= a@.len(),
            i <= b@.len(),
            a@.take(i as int) == b@.take(i as int),
        decreases a@.len() - i,
    {
        assert(a@.take(i + 1) =~= a@.take(i as int).push(a@[i as int]));
        assert(b@.take(i + 1) =~= b@.take(i as int).push(b@[i as int]));
        i = i + 1;
    }
    proof {
        lemma_lex_skip(a@, b@, i as int);
        if i < a@.len() {
            assert(a@.skip(i as int)[0] == a@[i as int]);
        }
        if i < b@.len() {
            assert(b@.skip(i as int)[0] == b@[i as int]);
        }
    }
    if i == a.len() {
        i < b.len()
    } else if i == b.len() {
        false
    } else {
        a[i] < b[i]
    }
}

} // verus!
