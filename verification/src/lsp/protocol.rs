//! The `Content-Length` framing of language-server messages: reading the
//! header lines of one message and deciding the length of its body.

use crate::lsp::LspError;
use crate::text::{
    byte_len, chars_of, decimal_digits, lemma_decimal_prefix, offset, decimal_value, digit_value, is_digit, str_byte_len,
    str_fits, string_from_chars, trim_text, trimmed,
};
use crate::domain::source::push_decimal;
use crate::git::process::decimal;
use crate::unicode::ascii_lower;
use vstd::prelude::*;

verus! {

/// Largest message body accepted or sent.
pub const MAX_MESSAGE_BYTES: usize = 8388608;

/// Largest total size of the header lines of one message.
pub const MAX_HEADER_BYTES: usize = 16384;

/// The header lines of one message read so far.
#[derive(Debug)]
pub struct FrameHeaders {
    /// Bytes of the header lines read, saturated at `usize::MAX`.
    pub bytes: usize,
    /// The lowercase names of the headers read, in order.
    pub names: Vec<String>,
    /// The value of the `Content-Length` header, once read.
    pub content_length: Option<String>,
}

/// What one header line means for the message.
#[derive(Debug)]
pub enum HeaderLine {
    /// A header was read; more follow.
    More,
    /// The blank line that ends the headers.
    End,
    /// The stream or the header is unusable.
    Failed(LspError),
}

/// The names of the headers read, as text.
pub open spec fn names_view(h: FrameHeaders) -> Seq<Seq<char>> {
    h.names@.map_values(|s: String| s@)
}

/// The `Content-Length` value read, as text.
pub open spec fn length_view(h: FrameHeaders) -> Option<Seq<char>> {
    match h.content_length {
        Some(v) => Some(v@),
        None => None,
    }
}

/// A line without its trailing carriage returns and line feeds.
pub open spec fn line_body(l: Seq<char>) -> Seq<char>
    decreases l.len(),
{
    if l.len() > 0 && (l.last() == '\r' || l.last() == '\n') {
        line_body(l.drop_last())
    } else {
        l
    }
}

/// The index of the first `:` at or after `i`, if any.
pub open spec fn colon_from(l: Seq<char>, i: int) -> Option<int>
    decreases l.len() - i,
{
    if i < 0 || i >= l.len() {
        None
    } else if l[i] == ':' {
        Some(i)
    } else {
        colon_from(l, i + 1)
    }
}

/// ASCII letters lowered, as `str::to_ascii_lowercase` does.
pub open spec fn ascii_lowered(s: Seq<char>) -> Seq<char> {
    s.map_values(|c: char| ascii_lower(c))
}

/// `a + b`, saturated at `usize::MAX`.
pub open spec fn sat_sum(a: usize, b: nat) -> usize {
    if a + b <= usize::MAX {
        (a + b) as usize
    } else {
        usize::MAX
    }
}

/// `r` is the protocol error reading `m`.
pub open spec fn protocol_error(r: HeaderLine, m: Seq<char>) -> bool {
    r matches HeaderLine::Failed(LspError::Protocol(t)) && t@ == m
}

/// Reading the header line `line` after the headers `h`: an empty read
/// means the server closed its output; too many header bytes, a line
/// without `:` and a repeated header name are errors; a blank line ends the
/// headers; otherwise the header is recorded under its trimmed, lowercase
/// name, with its trimmed value kept for `Content-Length`.
pub open spec fn header_read(h: FrameHeaders, line: Seq<char>, t: FrameHeaders, r: HeaderLine) -> bool {
    let bytes = sat_sum(h.bytes, byte_len(line));
    let body = line_body(line);
    if line.len() == 0 {
        t == h && protocol_error(r, "language server closed its output unexpectedly"@)
    } else if bytes > MAX_HEADER_BYTES {
        t == (FrameHeaders { bytes, ..h }) && protocol_error(
            r,
            "language server response headers exceeded the safety limit"@,
        )
    } else if line == "\r\n"@ || line == "\n"@ {
        t == (FrameHeaders { bytes, ..h }) && r is End
    } else {
        match colon_from(body, 0) {
            None => t == (FrameHeaders { bytes, ..h }) && protocol_error(
                r,
                "language server sent a malformed response header"@,
            ),
            Some(k) => {
                let name = ascii_lowered(trimmed(body.take(k)));
                let value = trimmed(body.skip(k + 1));
                if names_view(h).contains(name) {
                    t == (FrameHeaders { bytes, ..h }) && protocol_error(
                        r,
                        "language server repeated a response header"@,
                    )
                } else {
                    &&& t.bytes == bytes
                    &&& names_view(t) == names_view(h).push(name)
                    &&& length_view(t) == if name == "content-length"@ {
                        Some(value)
                    } else {
                        length_view(h)
                    }
                    &&& r is More
                }
            },
        }
    }
}

/// `usize::from_str`: the value, when the text is a decimal that fits.
pub open spec fn parse_usize(s: Seq<char>) -> Option<usize> {
    let d = decimal_digits(s);
    if d.len() > 0 && (forall|i: int| 0 <= i < d.len() ==> is_digit(#[trigger] d[i]))
        && decimal_value(d) <= usize::MAX {
        Some(decimal_value(d) as usize)
    } else {
        None
    }
}

/// The body length the headers announce: a `Content-Length` that parses and
/// is within `MAX_MESSAGE_BYTES`; otherwise the error text.
pub open spec fn announced_length(v: Option<Seq<char>>) -> Result<usize, Seq<char>> {
    match v {
        None => Err("language server omitted Content-Length"@),
        Some(text) => match parse_usize(text) {
            None => Err("language server sent an invalid Content-Length"@),
            Some(n) => if n > MAX_MESSAGE_BYTES {
                Err("language server message exceeded the 8 MiB safety limit"@)
            } else {
                Ok(n)
            },
        },
    }
}

/// Parses an unsigned decimal the way `usize::from_str` does.
pub fn parse_decimal_usize(s: &Vec<char>) -> (r: Option<usize>)
    ensures
        r == parse_usize(s@),
{
    let n = s.len();
    let mut i: usize = 0;
    if n > 0 && s[0] == '+' {
        i = 1;
    }
    let start = i;
    let ghost d = decimal_digits(s@);
    assert(d =~= s@.subrange(start as int, n as int));
    if start == n {
        return None;
    }
    let mut v: usize = 0;
    while i < n
        invariant
            n == s@.len(),
            start <= i <= n,
            d == s@.subrange(start as int, n as int),
            d == decimal_digits(s@),
            v == decimal_value(d.take(i - start)),
            forall|j: int| 0 <= j < i - start ==> is_digit(#[trigger] d[j]),
        decreases n - i,
    {
        let c = s[i];
        assert(d[i - start] == c);
        if !('0' <= c && c <= '9') {
            assert(!is_digit(d[i - start]));
            return None;
        }
        let digit = ((c as u32) - ('0' as u32)) as usize;
        assert(d.take(i - start + 1).drop_last() =~= d.take(i - start));
        if v > (usize::MAX - digit) / 10 {
            proof {
                lemma_decimal_prefix(d, i - start + 1);
                assert(v * 10 + digit > usize::MAX) by (nonlinear_arith)
                    requires
                        v > (usize::MAX - digit) / 10,
                        digit <= 9,
                ;
                assert(decimal_value(d.take(i - start + 1)) == v * 10 + digit_value(c));
            }
            return None;
        }
        v = v * 10 + digit;
        i = i + 1;
    }
    assert(d.take(n - start) =~= d);
    Some(v)
}

fn line_body_exec(l: &Vec<char>) -> (b: Vec<char>)
    ensures
        b@ == line_body(l@),
{
    let mut end = l.len();
    assert(l@.take(end as int) =~= l@);
    while end > 0 && (l[end - 1] == '\r' || l[end - 1] == '\n')
        invariant
            end <= l@.len(),
            line_body(l@) == line_body(l@.take(end as int)),
        decreases end,
    {
        assert(l@.take(end as int).drop_last() =~= l@.take(end - 1));
        end = end - 1;
    }
    let mut b: Vec<char> = Vec::new();
    let mut i: usize = 0;
    while i < end
        invariant
            end <= l@.len(),
            i <= end,
            b@ == l@.take(i as int),
        decreases end - i,
    {
        b.push(l[i]);
        assert(l@.take(i + 1) =~= l@.take(i as int).push(l@[i as int]));
        i = i + 1;
    }
    b
}

fn colon_index(l: &Vec<char>) -> (r: Option<usize>)
    ensures
        match r {
            Some(k) => colon_from(l@, 0) == Some(k as int) && k < l@.len(),
            None => colon_from(l@, 0) is None,
        },
{
    let mut i: usize = 0;
    while i < l.len()
        invariant
            i <= l@.len(),
            colon_from(l@, 0) == colon_from(l@, i as int),
        decreases l@.len() - i,
    {
        if l[i] == ':' {
            return Some(i);
        }
        i = i + 1;
    }
    None
}

fn part(l: &Vec<char>, from: usize, to: usize) -> (s: String)
    requires
        from <= to <= l@.len(),
    ensures
        s@ == l@.subrange(from as int, to as int),
{
    let mut v: Vec<char> = Vec::new();
    let mut i: usize = from;
    while i < to
        invariant
            from <= i <= to,
            to <= l@.len(),
            v@ == l@.subrange(from as int, i as int),
        decreases to - i,
    {
        v.push(l[i]);
        assert(l@.subrange(from as int, i + 1) =~= l@.subrange(from as int, i as int).push(
            l@[i as int],
        ));
        i = i + 1;
    }
    string_from_chars(&v)
}

fn lowered(s: &str) -> (t: String)
    ensures
        t@ == ascii_lowered(s@),
{
    let cs = chars_of(s);
    let mut v: Vec<char> = Vec::new();
    let mut i: usize = 0;
    while i < cs.len()
        invariant
            i <= cs@.len(),
            cs@ == s@,
            v@ == ascii_lowered(cs@.take(i as int)),
        decreases cs@.len() - i,
    {
        let c = cs[i];
        let d = if 'A' <= c && c <= 'Z' {
            ((c as u8) + 32) as char
        } else {
            c
        };
        proof {
            if 'A' <= c && c <= 'Z' {
                assert((c as u8) + 32 == (c as u32) + 32);
            }
            assert(ascii_lowered(cs@.take(i + 1)) =~= ascii_lowered(cs@.take(i as int)).push(
                ascii_lower(c),
            ));
        }
        v.push(d);
        i = i + 1;
    }
    assert(cs@.take(cs@.len() as int) =~= cs@);
    string_from_chars(&v)
}

fn contains_name(names: &Vec<String>, name: &str) -> (b: bool)
    ensures
        b == names@.map_values(|s: String| s@).contains(name@),
{
    let ghost all = names@.map_values(|s: String| s@);
    let mut i: usize = 0;
    while i < names.len()
        invariant
            i <= names@.len(),
            all == names@.map_values(|s: String| s@),
            forall|j: int| 0 <= j < i ==> all[j] != name@,
        decreases names@.len() - i,
    {
        if crate::text::str_equals(names[i].as_str(), name) {
            assert(all[i as int] == name@);
            return true;
        }
        i = i + 1;
    }
    false
}

impl FrameHeaders {
    /// No header read yet.
    pub fn new() -> (h: FrameHeaders)
        ensures
            h.bytes == 0,
            names_view(h).len() == 0,
            length_view(h) is None,
    {
        FrameHeaders { bytes: 0, names: Vec::new(), content_length: None }
    }

    /// Reads one header line, as `read_line` returns it with its line ending
    /// (empty when the stream ended).
    pub fn read_line(&mut self, line: &str) -> (r: HeaderLine)
        ensures
            header_read(*old(self), line@, *final(self), r),
    {
        let chars = chars_of(line);
        if chars.len() == 0 {
            return HeaderLine::Failed(
                LspError::Protocol("language server closed its output unexpectedly".to_string()),
            );
        }
        str_fits(line);
        let n = str_byte_len(line);
        let bytes: usize = if self.bytes <= usize::MAX - n {
            self.bytes + n
        } else {
            usize::MAX
        };
        self.bytes = bytes;
        if bytes > MAX_HEADER_BYTES {
            return HeaderLine::Failed(
                LspError::Protocol(
                    "language server response headers exceeded the safety limit".to_string(),
                ),
            );
        }
        if crate::text::str_equals(line, "\r\n") || crate::text::str_equals(line, "\n") {
            return HeaderLine::End;
        }
        let body = line_body_exec(&chars);
        let k = match colon_index(&body) {
            None => {
                return HeaderLine::Failed(
                    LspError::Protocol("language server sent a malformed response header".to_string()),
                );
            },
            Some(k) => k,
        };
        let raw_name = part(&body, 0, k);
        let raw_value = part(&body, k + 1, body.len());
        proof {
            assert(body@.take(k as int) =~= body@.subrange(0, k as int));
            assert(body@.skip(k + 1) =~= body@.subrange(k + 1, body@.len() as int));
        }
        let name = lowered(trim_text(raw_name.as_str()).as_str());
        let value = trim_text(raw_value.as_str());
        if contains_name(&self.names, name.as_str()) {
            return HeaderLine::Failed(
                LspError::Protocol("language server repeated a response header".to_string()),
            );
        }
        let is_length = crate::text::str_equals(name.as_str(), "content-length");
        let ghost before = names_view(*self);
        self.names.push(name);
        proof {
            assert(names_view(*self) =~= before.push(name@));
        }
        if is_length {
            self.content_length = Some(value);
        }
        HeaderLine::More
    }

    /// The body length the headers announce.
    pub fn content_length(&self) -> (r: Result<usize, LspError>)
        ensures
            match announced_length(length_view(*self)) {
                Ok(n) => r == Ok::<usize, LspError>(n),
                Err(m) => r matches Err(LspError::Protocol(t)) && t@ == m,
            },
    {
        match &self.content_length {
            None => Err(LspError::Protocol("language server omitted Content-Length".to_string())),
            Some(text) => match parse_decimal_usize(&chars_of(text.as_str())) {
                None => Err(
                    LspError::Protocol("language server sent an invalid Content-Length".to_string()),
                ),
                Some(n) => if n > MAX_MESSAGE_BYTES {
                    Err(
                        LspError::Protocol(
                            "language server message exceeded the 8 MiB safety limit".to_string(),
                        ),
                    )
                } else {
                    Ok(n)
                },
            },
        }
    }
}

/// `10` to the power `k`.
pub open spec fn ten_to(k: nat) -> nat
    decreases k,
{
    if k == 0 {
        1
    } else {
        10 * ten_to((k - 1) as nat)
    }
}

proof fn lemma_decimal_digits(n: nat, k: nat)
    requires
        n < ten_to(k),
    ensures
        1 <= decimal(n).len() <= if k == 0 { 1 } else { k },
        forall|i: int| 0 <= i < decimal(n).len() ==> is_digit(#[trigger] decimal(n)[i]),
        decimal_value(decimal(n)) == n,
    decreases n,
{
    if n >= 10 {
        assert(k >= 1) by {
            if k == 0 {
                assert(ten_to(0) == 1);
            }
        }
        let q = n / 10;
        assert(q < ten_to((k - 1) as nat)) by (nonlinear_arith)
            requires
                n < 10 * ten_to((k - 1) as nat),
                q == n / 10,
        ;
        lemma_decimal_digits(q, (k - 1) as nat);
        let c = (('0' as u32) + n % 10) as char;
        assert(decimal(n) == decimal(q).push(c));
        assert(decimal(n).drop_last() =~= decimal(q));
        assert(n == q * 10 + n % 10) by (nonlinear_arith)
            requires
                q == n / 10,
        ;
        if (k - 1) as nat == 0 {
            assert(ten_to(0) == 1);
        }
        assert(c as u32 == ('0' as u32) + n % 10);
        assert(digit_value(c) == n % 10);
        assert(decimal(n).last() == c);
        assert(decimal_value(decimal(n)) == decimal_value(decimal(q)) * 10 + digit_value(c));
    } else {
        let c = (('0' as u32) + n) as char;
        assert(decimal(n) == seq![c]);
        assert(seq![c].drop_last() =~= Seq::<char>::empty());
        assert(c as u32 == ('0' as u32) + n);
        assert(digit_value(c) == n);
        assert(decimal(n).last() == c);
        assert(decimal_value(Seq::<char>::empty()) == 0);
        assert(decimal_value(decimal(n)) == decimal_value(Seq::<char>::empty()) * 10 + digit_value(c));
    }
}

proof fn lemma_offset_at_most(line: Seq<char>, k: int)
    requires
        0 <= k <= line.len(),
    ensures
        offset(line, k) <= 4 * k,
    decreases k,
{
    if k > 0 {
        lemma_offset_at_most(line, k - 1);
    }
}

/// The header line written for a body of `n` bytes, read back, announces
/// `n`: `frame_header` and `read_line` agree on the framing.
#[verifier::rlimit(60)]
pub proof fn lemma_written_length_read_back(n: usize, h: FrameHeaders, t: FrameHeaders, r: HeaderLine)
    requires
        n <= MAX_MESSAGE_BYTES,
        h.bytes == 0,
        names_view(h).len() == 0,
        length_view(h) is None,
        header_read(h, "Content-Length: "@ + decimal(n as nat) + "\r\n"@, t, r),
    ensures
        r is More,
        announced_length(length_view(t)) == Ok::<usize, Seq<char>>(n),
{
    reveal_strlit("Content-Length: ");
    reveal_strlit("\r\n");
    reveal_strlit("\n");
    reveal_strlit("content-length");
    reveal_with_fuel(ten_to, 8);
    assert(ten_to(7) == 10000000);
    lemma_decimal_digits(n as nat, 7);
    let d = decimal(n as nat);
    let head = "Content-Length: "@;
    let line = head + d + "\r\n"@;
    let body = head + d;
    assert(line.len() == 18 + d.len());
    lemma_offset_at_most(line, line.len() as int);
    assert(byte_len(line) <= 4 * (18 + 7));
    assert(line.drop_last() =~= body + seq!['\r']);
    assert((body + seq!['\r']).drop_last() =~= body);
    assert(is_digit(body.last()));
    assert(line_body(body) == body);
    assert(line_body(body + seq!['\r']) == body);
    assert(line.last() == '\n');
    assert(line_body(line) == body);
    reveal_with_fuel(colon_from, 16);
    assert(colon_from(body, 0) == Some(14int));
    let name_part = body.take(14);
    assert(name_part =~= "Content-Length"@.take(14)) by {
        reveal_strlit("Content-Length");
    }
    assert(crate::text::lead_end(name_part, 0) == 0);
    assert(crate::text::trail_start(name_part, 14, 0) == 14);
    assert(trimmed(name_part) =~= name_part);
    assert(ascii_lowered(name_part) =~= "content-length"@);
    let value_part = body.skip(15);
    assert(value_part =~= seq![' '] + d);
    assert(crate::text::lead_end(value_part, 1) == 1);
    assert(crate::text::lead_end(value_part, 0) == 1);
    assert(crate::text::trail_start(value_part, value_part.len() as int, 1) == value_part.len());
    assert(trimmed(value_part) =~= d);
    assert(decimal_digits(d) == d);
    assert(parse_usize(d) == Some(n));
}

/// The header written before a body of `len` bytes, or the error for a
/// body over `MAX_MESSAGE_BYTES`.
pub fn frame_header(len: usize) -> (r: Result<String, LspError>)
    ensures
        len > MAX_MESSAGE_BYTES ==> (r matches Err(LspError::Protocol(t)) && t@
            == "outbound language server message exceeded the safety limit"@),
        len <= MAX_MESSAGE_BYTES ==> (r matches Ok(h) && h@ == "Content-Length: "@ + decimal(
            len as nat,
        ) + "\r\n\r\n"@),
{
    if len > MAX_MESSAGE_BYTES {
        return Err(
            LspError::Protocol("outbound language server message exceeded the safety limit".to_string()),
        );
    }
    let mut h = "Content-Length: ".to_string();
    push_decimal(&mut h, len);
    h.append("\r\n\r\n");
    Ok(h)
}

} // verus!
