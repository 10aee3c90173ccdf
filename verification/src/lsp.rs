//! Language-server boundary values: errors, negotiated position encodings, and
//! conversions between source byte columns and wire positions.

use crate::text::{
    char_utf16_width, char_utf8_width, fits, floor_index, is_boundary, lemma_floor_index,
    lemma_floor_of_offset, lemma_offset_mono, offset, prev_col, sat, display_prefix, str_equals,
    utf16_width, utf8_width, Line,
};
use vstd::prelude::*;

pub mod config;
pub mod manager;
pub mod profiles;
pub mod protocol;
pub mod session;
pub mod wire;

verus! {

/// A recoverable failure at the optional language-server boundary.
#[derive(Clone, Debug, PartialEq, Eq)]
pub enum LspError {
    /// No profile was explicitly enabled for the current file.
    Disabled(String),
    /// More than one enabled profile claims the current extension.
    AmbiguousProfile(String),
    /// The document cannot safely or completely be synchronized.
    InvalidDocument(String),
    /// The configured server could not be started or communicated with.
    Process(String),
    /// The peer sent invalid or unsupported protocol data.
    Protocol(String),
    /// The server returned a JSON-RPC error for a valid request.
    RequestFailed(String),
    /// The server invalidated a request while its internal document changed.
    ContentModified,
    /// A bounded operation exceeded its deadline.
    Timeout(String),
    /// The initialized server does not advertise the requested operation.
    Unsupported(String),
}

impl LspError {
    /// The text shown to the user for this error.
    pub open spec fn message(self) -> Seq<char> {
        match self {
            LspError::Disabled(d) => d@,
            LspError::AmbiguousProfile(d) => d@,
            LspError::InvalidDocument(d) => d@,
            LspError::Process(d) => d@,
            LspError::Protocol(d) => d@,
            LspError::RequestFailed(d) => d@,
            LspError::Timeout(d) => d@,
            LspError::Unsupported(d) => d@,
            LspError::ContentModified => content_modified_text(),
        }
    }

    /// Returns the text shown to the user for this error.
    pub fn to_message(&self) -> (s: String)
        ensures
            s@ == self.message(),
    {
        match self {
            LspError::Disabled(d) => d.clone(),
            LspError::AmbiguousProfile(d) => d.clone(),
            LspError::InvalidDocument(d) => d.clone(),
            LspError::Process(d) => d.clone(),
            LspError::Protocol(d) => d.clone(),
            LspError::RequestFailed(d) => d.clone(),
            LspError::Timeout(d) => d.clone(),
            LspError::Unsupported(d) => d.clone(),
            LspError::ContentModified => {
                proof {
                    reveal_strlit("language server content changed while resolving the request");
                }
                "language server content changed while resolving the request".to_string()
            },
        }
    }
}

pub open spec fn content_modified_text() -> Seq<char> {
    "language server content changed while resolving the request"@
}

/// A position encoding negotiated with a language server.
#[derive(Clone, Copy, Debug, PartialEq, Eq, Structural)]
pub enum PositionEncoding {
    /// UTF-8 code units (bytes).
    Utf8,
    /// UTF-16 code units, the LSP 3.17 default.
    Utf16,
    /// UTF-32 code units (Unicode scalar values).
    Utf32,
}

impl PositionEncoding {
    /// Chooses the encoding a server announced; anything but `utf-8` or
    /// `utf-32` falls back to the protocol default, UTF-16.
    pub fn from_server(value: Option<&str>) -> (e: PositionEncoding)
        ensures
            e == (match value {
                Some(v) => if v@ == "utf-8"@ {
                    PositionEncoding::Utf8
                } else if v@ == "utf-32"@ {
                    PositionEncoding::Utf32
                } else {
                    PositionEncoding::Utf16
                },
                None => PositionEncoding::Utf16,
            }),
    {
        match value {
            Some(v) => {
                if str_equals(v, "utf-8") {
                    PositionEncoding::Utf8
                } else if str_equals(v, "utf-32") {
                    PositionEncoding::Utf32
                } else {
                    PositionEncoding::Utf16
                }
            },
            None => PositionEncoding::Utf16,
        }
    }
}

/// Code units of one character in an encoding.
pub open spec fn unit_width(c: char, encoding: PositionEncoding) -> nat {
    match encoding {
        PositionEncoding::Utf8 => utf8_width(c),
        PositionEncoding::Utf16 => utf16_width(c),
        PositionEncoding::Utf32 => 1,
    }
}

/// Code units before character index `k`.
pub open spec fn units_before(line: Seq<char>, k: int, encoding: PositionEncoding) -> nat
    decreases k,
{
    if k <= 0 {
        0
    } else if k > line.len() {
        units_before(line, line.len() as int, encoding)
    } else {
        units_before(line, k - 1, encoding) + unit_width(line[k - 1], encoding)
    }
}

pub proof fn lemma_units_mono(line: Seq<char>, i: int, j: int, encoding: PositionEncoding)
    requires
        0 <= i <= j <= line.len(),
    ensures
        units_before(line, i, encoding) <= units_before(line, j, encoding),
        i < j ==> units_before(line, i, encoding) < units_before(line, j, encoding),
        units_before(line, j, encoding) - units_before(line, i, encoding) <= offset(line, j)
            - offset(line, i),
    decreases j - i,
{
    if i < j {
        lemma_units_mono(line, i, j - 1, encoding);
    }
}

pub proof fn lemma_units_utf8(line: Seq<char>, k: int)
    requires
        0 <= k <= line.len(),
    ensures
        units_before(line, k, PositionEncoding::Utf8) == offset(line, k),
    decreases k,
{
    if k > 0 {
        lemma_units_utf8(line, k - 1);
    }
}

/// Whether the byte column is a valid cursor on `line`.
pub proof fn lemma_boundary_floor(line: Seq<char>, b: int)
    requires
        b >= 0,
    ensures
        is_boundary(line, b) <==> offset(line, floor_index(line, b)) == b,
{
    lemma_floor_index(line, b);
    if is_boundary(line, b) {
        let k = choose|k: int| 0 <= k <= line.len() && #[trigger] offset(line, k) == b;
        lemma_floor_of_offset(line, k);
    }
}

/// Counts code units before character index `k`.
fn count_units(line: &Line, k: usize, encoding: PositionEncoding) -> (u: usize)
    requires
        line.wf(),
        k <= line@.len(),
        fits(line@),
    ensures
        u == units_before(line@, k as int, encoding),
{
    let mut u: usize = 0;
    let mut i: usize = 0;
    while i < k
        invariant
            line.wf(),
            k <= line@.len(),
            fits(line@),
            i <= k,
            u == units_before(line@, i as int, encoding),
        decreases k - i,
    {
        proof {
            lemma_units_mono(line@, 0, i + 1, encoding);
            lemma_offset_mono(line@, i + 1, line@.len() as int);
        }
        let c = line.chars[i];
        let w = match encoding {
            PositionEncoding::Utf8 => char_utf8_width(c),
            PositionEncoding::Utf16 => char_utf16_width(c),
            PositionEncoding::Utf32 => 1,
        };
        u = u + w;
        i = i + 1;
    }
    u
}

/// Character index `k` is where the server's code-unit column `character` lands.
pub open spec fn lsp_hit(line: Seq<char>, character: int, encoding: PositionEncoding, k: int) -> bool {
    0 <= k <= line.len() && units_before(line, k, encoding) == character
}

pub open spec fn not_boundary_text() -> Seq<char> {
    "source cursor is not on a UTF-8 character boundary"@
}

pub open spec fn too_long_text() -> Seq<char> {
    "source line is too long for an LSP position"@
}

pub open spec fn non_boundary_utf8_text() -> Seq<char> {
    "language server returned a non-boundary UTF-8 position"@
}

pub open spec fn inside_code_point_text() -> Seq<char> {
    "language server returned a position inside a code point"@
}

pub open spec fn past_end_text() -> Seq<char> {
    "language server returned a position past the end of a line"@
}

/// Converts a UTF-8 byte column into the server's code-unit column.
pub fn to_lsp_character(line: &str, byte_column: usize, encoding: PositionEncoding) -> (r: Result<
    u32,
    LspError,
>)
    ensures
        !is_boundary(line@, byte_column as int) ==> (r matches Err(LspError::InvalidDocument(m))
            && m@ == not_boundary_text()),
        is_boundary(line@, byte_column as int) ==> ({
            let units = units_before(line@, floor_index(line@, byte_column as int), encoding);
            &&& units <= u32::MAX ==> r == Ok::<u32, LspError>(units as u32)
            &&& units > u32::MAX ==> (r matches Err(LspError::InvalidDocument(m)) && m@
                == too_long_text())
        }),
{
    crate::text::str_fits(line);
    let l = Line::new(line);
    let k = l.floor_index(byte_column);
    proof {
        lemma_boundary_floor(line@, byte_column as int);
    }
    if l.offset_of(k) != byte_column {
        return Err(LspError::InvalidDocument("source cursor is not on a UTF-8 character boundary".to_string()));
    }
    let units = count_units(&l, k, encoding);
    if units > 0xffff_ffffusize {
        return Err(LspError::InvalidDocument("source line is too long for an LSP position".to_string()));
    }
    Ok(units as u32)
}

/// The byte column a server's code-unit column names on `line`, or the
/// protocol failure it is.
pub open spec fn lsp_column(line: Seq<char>, character: int, encoding: PositionEncoding) -> Result<
    int,
    Seq<char>,
> {
    if encoding == PositionEncoding::Utf8 {
        if is_boundary(line, character) {
            Ok(character)
        } else {
            Err(non_boundary_utf8_text())
        }
    } else if exists|k: int| #[trigger] lsp_hit(line, character, encoding, k) {
        Ok(offset(line, choose|k: int| #[trigger] lsp_hit(line, character, encoding, k)) as int)
    } else if character < units_before(line, line.len() as int, encoding) {
        Err(inside_code_point_text())
    } else {
        Err(past_end_text())
    }
}

/// Converts a server code-unit column into a UTF-8 byte column on `line`.
pub fn from_lsp_character(line: &str, character: u32, encoding: PositionEncoding) -> (r: Result<
    usize,
    LspError,
>)
    ensures
        encoding == PositionEncoding::Utf8 ==> {
            &&& is_boundary(line@, character as int) ==> r == Ok::<usize, LspError>(
                character as usize,
            )
            &&& !is_boundary(line@, character as int) ==> (r matches Err(LspError::Protocol(m))
                && m@ == non_boundary_utf8_text())
        },
        encoding != PositionEncoding::Utf8 ==> {
            &&& (forall|k: int|
                #[trigger] lsp_hit(line@, character as int, encoding, k) ==> r == Ok::<
                    usize,
                    LspError,
                >(offset(line@, k) as usize))
            &&& (r is Ok ==> exists|k: int|
                #[trigger] lsp_hit(line@, character as int, encoding, k) && r == Ok::<
                    usize,
                    LspError,
                >(offset(line@, k) as usize))
            &&& (character < units_before(line@, line@.len() as int, encoding) && !exists|k: int|
                #[trigger] lsp_hit(line@, character as int, encoding, k)) ==> (r matches Err(
                LspError::Protocol(m),
            ) && m@ == inside_code_point_text())
            &&& character > units_before(line@, line@.len() as int, encoding) ==> (r matches Err(
                LspError::Protocol(m),
            ) && m@ == past_end_text())
        },
        r matches Ok(b) ==> lsp_column(line@, character as int, encoding) == Ok::<int, Seq<char>>(
            b as int,
        ),
        r matches Err(e) ==> (e matches LspError::Protocol(m) && lsp_column(
            line@,
            character as int,
            encoding,
        ) == Err::<int, Seq<char>>(m@)),
{
    crate::text::str_fits(line);
    let l = Line::new(line);
    let requested = character as usize;
    assert(requested as int == character as int);
    if encoding == PositionEncoding::Utf8 {
        let k = l.floor_index(requested);
        proof {
            lemma_boundary_floor(line@, requested as int);
        }
        if l.offset_of(k) == requested {
            return Ok(requested);
        }
        return Err(LspError::Protocol("language server returned a non-boundary UTF-8 position".to_string()));
    }
    let n = l.len();
    let mut units: usize = 0;
    let mut i: usize = 0;
    let ghost s = line@;
    while i < n
        invariant
            l.wf(),
            s == l@,
            s == line@,
            fits(s),
            n == s.len(),
            i <= n,
            encoding != PositionEncoding::Utf8,
            units == units_before(s, i as int, encoding),
            units <= requested,
            requested as int == character as int,
            forall|j: int| 0 <= j < i ==> #[trigger] units_before(s, j, encoding) < requested,
        decreases n - i,
    {
        if units == requested {
            proof {
                assert(lsp_hit(s, character as int, encoding, i as int));
                lemma_units_mono(s, i as int, n as int, encoding);
                assert forall|k: int| #[trigger] lsp_hit(s, character as int, encoding, k) implies k
                    == i by {
                    if k < i {
                        lemma_units_mono(s, k, i as int, encoding);
                    } else if k > i {
                        lemma_units_mono(s, i as int, k, encoding);
                    }
                }
            }
            return Ok(l.offset_of(i));
        }
        proof {
            lemma_units_mono(s, 0, i + 1, encoding);
            lemma_offset_mono(s, i + 1, n as int);
        }
        let c = l.chars[i];
        let w = if encoding == PositionEncoding::Utf16 {
            char_utf16_width(c)
        } else {
            1
        };
        units = units + w;
        if units > requested {
            proof {
                assert forall|k: int| !#[trigger] lsp_hit(s, character as int, encoding, k) by {
                    if 0 <= k <= i {
                        lemma_units_mono(s, k, i as int, encoding);
                    } else if i + 1 <= k <= s.len() {
                        lemma_units_mono(s, i + 1, k, encoding);
                    }
                }
                lemma_units_mono(s, i + 1, n as int, encoding);
            }
            return Err(LspError::Protocol("language server returned a position inside a code point".to_string()));
        }
        i = i + 1;
    }
    if units == requested {
        proof {
            assert(lsp_hit(s, character as int, encoding, n as int));
            assert forall|k: int| #[trigger] lsp_hit(s, character as int, encoding, k) implies k
                == n by {
                if k < n {
                    lemma_units_mono(s, k, n as int, encoding);
                }
            }
        }
        Ok(l.bytes())
    } else {
        proof {
            assert forall|k: int| !#[trigger] lsp_hit(s, character as int, encoding, k) by {
                if 0 <= k <= n {
                    lemma_units_mono(s, k, n as int, encoding);
                }
            }
        }
        Err(LspError::Protocol("language server returned a position past the end of a line".to_string()))
    }
}

/// Returns the next UTF-8 character boundary, clamped to the line end.
pub fn next_byte_column(line: &str, byte_column: usize) -> (b: usize)
    ensures
        ({
            let k = floor_index(line@, byte_column as int);
            b == offset(line@, if k < line@.len() { k + 1 } else { k })
        }),
{
    crate::text::str_fits(line);
    let l = Line::new(line);
    let k = l.floor_index(byte_column);
    if k < l.len() {
        l.offset_of(k + 1)
    } else {
        l.offset_of(k)
    }
}

/// Returns the previous UTF-8 character boundary, clamped to zero.
pub fn previous_byte_column(line: &str, byte_column: usize) -> (b: usize)
    ensures
        b == offset(line@, prev_col(floor_index(line@, byte_column as int))),
{
    crate::text::str_fits(line);
    let l = Line::new(line);
    let k = l.floor_index(byte_column);
    if k > 0 {
        l.offset_of(k - 1)
    } else {
        0
    }
}

/// Returns the nearest UTF-8 character boundary at or before a byte column.
pub fn clamp_boundary(line: &str, byte_column: usize) -> (b: usize)
    ensures
        b == offset(line@, floor_index(line@, byte_column as int)),
        is_boundary(line@, b as int),
        b <= byte_column,
{
    crate::text::str_fits(line);
    let l = Line::new(line);
    let k = l.floor_index(byte_column);
    proof {
        lemma_floor_index(line@, byte_column as int);
    }
    l.offset_of(k)
}

/// Converts a UTF-8 byte column to terminal display cells using four-cell tabs.
pub fn display_column(line: &str, byte_column: usize) -> (d: usize)
    ensures
        d == sat(display_prefix(line@, floor_index(line@, byte_column as int))),
{
    crate::text::str_fits(line);
    let l = Line::new(line);
    let k = l.floor_index(byte_column);
    l.display_prefix(k)
}


/// A boundary converted to the server's column and back returns to where it
/// started: the UTF-8 column is the byte column itself, and in UTF-16 and
/// UTF-32 the only character the column lands on is the original one.
pub proof fn lemma_position_round_trip(line: Seq<char>, b: int, encoding: PositionEncoding)
    requires
        fits(line),
        is_boundary(line, b),
    ensures
        ({
            let k = floor_index(line, b);
            let units = units_before(line, k, encoding);
            &&& offset(line, k) == b
            &&& encoding == PositionEncoding::Utf8 ==> units == b && is_boundary(line, units as int)
            &&& lsp_hit(line, units as int, encoding, k)
            &&& forall|j: int| #[trigger] lsp_hit(line, units as int, encoding, j) ==> j == k
        }),
{
    lemma_boundary_floor(line, b);
    lemma_floor_index(line, b);
    let k = floor_index(line, b);
    lemma_units_utf8(line, k);
    assert forall|j: int| #[trigger] lsp_hit(line, units_before(line, k, encoding) as int, encoding, j) implies j == k by {
        if j < k {
            lemma_units_mono(line, j, k, encoding);
        } else if j > k {
            lemma_units_mono(line, k, j, encoding);
        }
    }
}

/// Stepping right then left returns to a boundary before the line end, and
/// stepping left then right returns to a boundary after the line start.
pub proof fn lemma_step_round_trip(line: Seq<char>, b: int)
    requires
        fits(line),
        is_boundary(line, b),
    ensures
        ({
            let k = floor_index(line, b);
            &&& k < line.len() ==> offset(line, prev_col(floor_index(line, offset(line, k + 1) as int)))
                == b
            &&& k > 0 ==> offset(line, floor_index(line, offset(line, prev_col(k)) as int) + 1) == b
        }),
{
    lemma_boundary_floor(line, b);
    lemma_floor_index(line, b);
    let k = floor_index(line, b);
    if k < line.len() {
        lemma_floor_of_offset(line, k + 1);
    }
    if k > 0 {
        lemma_floor_of_offset(line, k - 1);
    }
}
} // verus!
