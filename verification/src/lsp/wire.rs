//! What language-server messages mean: capabilities, source ranges,
//! locations, status notifications and hover contents, read from JSON
//! values, and the answers to requests the server sends.

use crate::lsp::session::{sanitize, sanitized, ServerCapabilities, WirePosition, WireRange};
use crate::lsp::LspError;
use vstd::prelude::*;
use vstd::string::StringExecFns;

verus! {

/// A JSON value. Integers are held exactly; any other number is only known
/// not to be an integer. An object holds its members in order.
#[derive(Debug)]
pub enum Json {
    Null,
    Bool(bool),
    Integer(i128),
    Fraction,
    Text(String),
    Array(Vec<Json>),
    Object(Vec<(String, Json)>),
}

/// The member `key` among `members` from index `i` on.
pub open spec fn member_from(members: Seq<(String, Json)>, key: Seq<char>, i: int) -> Option<Json>
    decreases members.len() - i,
{
    if i < 0 || i >= members.len() {
        None
    } else if members[i].0@ == key {
        Some(members[i].1)
    } else {
        member_from(members, key, i + 1)
    }
}

/// The member `key` of an object (its first, should a key repeat); none
/// for anything else.
pub open spec fn field(v: Json, key: Seq<char>) -> Option<Json> {
    match v {
        Json::Object(members) => member_from(members@, key, 0),
        _ => None,
    }
}

/// The text of a string value.
pub open spec fn text_value(v: Option<Json>) -> Option<Seq<char>> {
    match v {
        Some(Json::Text(s)) => Some(s@),
        _ => None,
    }
}

/// The value of an integer that fits `u64`, as `Value::as_u64` gives it.
pub open spec fn unsigned_value(v: Option<Json>) -> Option<u64> {
    match v {
        Some(Json::Integer(n)) => if 0 <= n <= u64::MAX {
            Some(n as u64)
        } else {
            None
        },
        _ => None,
    }
}

/// Returns the member `key` of an object.
pub fn get<'a>(v: &'a Json, key: &str) -> (r: Option<&'a Json>)
    ensures
        match r {
            Some(x) => field(*v, key@) == Some(*x),
            None => field(*v, key@) is None,
        },
{
    match v {
        Json::Object(members) => {
            let mut i: usize = 0;
            while i < members.len()
                invariant
                    i <= members@.len(),
                    field(*v, key@) == member_from(members@, key@, i as int),
                decreases members@.len() - i,
            {
                if crate::text::str_equals(members[i].0.as_str(), key) {
                    assert(members@[i as int].0@ == key@);
                    assert(member_from(members@, key@, i as int) == Some(members@[i as int].1));
                    return Some(&members[i].1);
                }
                i = i + 1;
            }
            None
        },
        _ => None,
    }
}

/// Returns the text of a string value.
pub fn as_text(v: Option<&Json>) -> (r: Option<&str>)
    ensures
        match r {
            Some(t) => text_value(match v {
                Some(x) => Some(*x),
                None => None,
            }) == Some(t@),
            None => text_value(match v {
                Some(x) => Some(*x),
                None => None,
            }) is None,
        },
{
    match v {
        Some(Json::Text(s)) => Some(s.as_str()),
        _ => None,
    }
}

/// Returns the value of an integer that fits `u64`.
pub fn as_unsigned(v: Option<&Json>) -> (r: Option<u64>)
    ensures
        r == unsigned_value(match v {
            Some(x) => Some(*x),
            None => None,
        }),
{
    match v {
        Some(Json::Integer(n)) => if 0 <= *n && *n <= 0xffff_ffff_ffff_ffffi128 {
            Some(*n as u64)
        } else {
            None
        },
        _ => None,
    }
}

/// A capability is advertised when its member is present, not `null` and
/// not `false` (a registration object counts).
pub open spec fn advertised(v: Json, name: Seq<char>) -> bool {
    field(v, name) matches Some(p) && !(p is Null) && !(p matches Json::Bool(false))
}

fn enabled(v: &Json, name: &str) -> (b: bool)
    ensures
        b == advertised(*v, name@),
{
    match get(v, name) {
        Some(Json::Null) => false,
        Some(Json::Bool(false)) => false,
        Some(_) => true,
        None => false,
    }
}

/// Reads the operations a server advertises in its capabilities.
pub fn parse_capabilities(value: &Json) -> (c: ServerCapabilities)
    ensures
        c.definition == advertised(*value, "definitionProvider"@),
        c.implementation == advertised(*value, "implementationProvider"@),
        c.type_definition == advertised(*value, "typeDefinitionProvider"@),
        c.declaration == advertised(*value, "declarationProvider"@),
        c.hover == advertised(*value, "hoverProvider"@),
{
    ServerCapabilities {
        definition: enabled(value, "definitionProvider"),
        implementation: enabled(value, "implementationProvider"),
        type_definition: enabled(value, "typeDefinitionProvider"),
        declaration: enabled(value, "declarationProvider"),
        hover: enabled(value, "hoverProvider"),
    }
}

/// The position member `name` of a range: its line and character, each a
/// `u32`; otherwise the error text.
pub open spec fn position_of(v: Json, name: Seq<char>) -> Result<WirePosition, Seq<char>> {
    match field(v, name) {
        None => Err("language server returned an incomplete source range"@),
        Some(p) => match (unsigned_value(field(p, "line"@)), unsigned_value(field(p, "character"@))) {
            (Some(l), Some(c)) => if l > u32::MAX {
                Err("language server returned an oversized line"@)
            } else if c > u32::MAX {
                Err("language server returned an oversized character"@)
            } else {
                Ok(WirePosition { line: l as u32, character: c as u32 })
            },
            _ => Err("language server returned an invalid source position"@),
        },
    }
}

/// A range value: its start, then its end.
pub open spec fn range_of(v: Json) -> Result<WireRange, Seq<char>> {
    match position_of(v, "start"@) {
        Err(m) => Err(m),
        Ok(s) => match position_of(v, "end"@) {
            Err(m) => Err(m),
            Ok(e) => Ok(WireRange { start: s, end: e }),
        },
    }
}

/// `r` answers `expected`, a protocol error reading its text.
pub open spec fn answers_as<T>(r: Result<T, LspError>, expected: Result<T, Seq<char>>) -> bool {
    match expected {
        Ok(x) => r == Ok::<T, LspError>(x),
        Err(m) => r matches Err(LspError::Protocol(t)) && t@ == m,
    }
}

fn protocol(message: &str) -> (e: LspError)
    ensures
        e matches LspError::Protocol(t) && t@ == message@,
{
    LspError::Protocol(message.to_string())
}

fn parse_position(value: &Json, name: &str) -> (r: Result<WirePosition, LspError>)
    ensures
        answers_as(r, position_of(*value, name@)),
{
    let p = match get(value, name) {
        None => {
            return Err(protocol("language server returned an incomplete source range"));
        },
        Some(p) => p,
    };
    let line = as_unsigned(get(p, "line"));
    let character = as_unsigned(get(p, "character"));
    match (line, character) {
        (Some(l), Some(c)) => if l > 0xffff_ffffu64 {
            Err(protocol("language server returned an oversized line"))
        } else if c > 0xffff_ffffu64 {
            Err(protocol("language server returned an oversized character"))
        } else {
            Ok(WirePosition { line: l as u32, character: c as u32 })
        },
        _ => Err(protocol("language server returned an invalid source position")),
    }
}

/// Reads a source range.
pub fn parse_range(value: &Json) -> (r: Result<WireRange, LspError>)
    ensures
        answers_as(r, range_of(*value)),
{
    let start = parse_position(value, "start")?;
    let end = parse_position(value, "end")?;
    Ok(WireRange { start, end })
}

/// A navigation result as the server sends it: a URI and a range.
#[derive(Debug)]
pub struct RawLocation {
    pub uri: String,
    pub selection: WireRange,
}

/// A location as values.
pub open spec fn location_view(l: RawLocation) -> (Seq<char>, WireRange) {
    (l.uri@, l.selection)
}

/// Locations as values.
pub open spec fn locations_view(v: Seq<RawLocation>) -> Seq<(Seq<char>, WireRange)> {
    v.map_values(|l: RawLocation| location_view(l))
}

/// The range member of a location link: its selection range, else its
/// whole target range.
pub open spec fn link_range(item: Json) -> Option<Json> {
    match field(item, "targetSelectionRange"@) {
        Some(r) => Some(r),
        None => field(item, "targetRange"@),
    }
}

/// One `Location` or `LocationLink`: its URI and range; otherwise the
/// error text.
pub open spec fn location_of(item: Json) -> Result<(Seq<char>, WireRange), Seq<char>> {
    let (uri, range) = if text_value(field(item, "uri"@)) is Some {
        (text_value(field(item, "uri"@)), field(item, "range"@))
    } else if text_value(field(item, "targetUri"@)) is Some {
        (text_value(field(item, "targetUri"@)), link_range(item))
    } else {
        (None, None)
    };
    match uri {
        None => Err("language server returned a location without a URI"@),
        Some(u) => match range {
            None => Err("language server returned a location without a range"@),
            Some(r) => match range_of(r) {
                Err(m) => Err(m),
                Ok(w) => Ok((u, w)),
            },
        },
    }
}

/// The locations of `items`, in order; the error of the first item that is
/// not one.
pub open spec fn located(items: Seq<Json>) -> Result<Seq<(Seq<char>, WireRange)>, Seq<char>>
    decreases items.len(),
{
    if items.len() == 0 {
        Ok(Seq::empty())
    } else {
        match located(items.drop_last()) {
            Err(m) => Err(m),
            Ok(ls) => match location_of(items.last()) {
                Err(m) => Err(m),
                Ok(l) => Ok(ls.push(l)),
            },
        }
    }
}

/// `s` with each run of equal neighbours kept once, as `Vec::dedup` leaves it.
pub open spec fn deduped<T>(s: Seq<T>) -> Seq<T>
    decreases s.len(),
{
    if s.len() == 0 {
        s
    } else {
        let r = deduped(s.drop_last());
        if r.len() > 0 && r.last() == s.last() {
            r
        } else {
            r.push(s.last())
        }
    }
}

/// The locations a navigation answer holds: none for `null`, the items of
/// an array or the single value otherwise, with repeated neighbours dropped.
pub open spec fn locations_of(v: Json) -> Result<Seq<(Seq<char>, WireRange)>, Seq<char>> {
    let items = match v {
        Json::Array(a) => a@,
        _ => seq![v],
    };
    if v is Null {
        Ok(Seq::empty())
    } else {
        match located(items) {
            Err(m) => Err(m),
            Ok(ls) => Ok(deduped(ls)),
        }
    }
}

fn location(item: &Json) -> (r: Result<RawLocation, LspError>)
    ensures
        match location_of(*item) {
            Ok(l) => r matches Ok(x) && location_view(x) == l,
            Err(m) => r matches Err(LspError::Protocol(t)) && t@ == m,
        },
{
    let (uri, range) = match as_text(get(item, "uri")) {
        Some(u) => (u, get(item, "range")),
        None => match as_text(get(item, "targetUri")) {
            Some(u) => (
                u,
                match get(item, "targetSelectionRange") {
                    Some(r) => Some(r),
                    None => get(item, "targetRange"),
                },
            ),
            None => {
                return Err(protocol("language server returned a location without a URI"));
            },
        },
    };
    let range = match range {
        None => {
            return Err(protocol("language server returned a location without a range"));
        },
        Some(r) => r,
    };
    let selection = parse_range(range)?;
    Ok(RawLocation { uri: uri.to_string(), selection })
}

fn locate(items: &Vec<Json>) -> (r: Result<Vec<RawLocation>, LspError>)
    ensures
        match located(items@) {
            Ok(ls) => r matches Ok(v) && locations_view(v@) == deduped(
                ls,
            ),
            Err(m) => r matches Err(LspError::Protocol(t)) && t@ == m,
        },
{
    let mut out: Vec<RawLocation> = Vec::new();
    let mut i: usize = 0;
    while i < items.len()
        invariant
            i <= items@.len(),
            located(items@.take(i as int)) is Ok,
            locations_view(out@) == deduped(
                located(items@.take(i as int))->Ok_0,
            ),
        decreases items@.len() - i,
    {
        let ghost prefix = items@.take(i as int);
        assert(items@.take(i + 1).drop_last() =~= prefix);
        assert(items@.take(i + 1).last() == items@[i as int]);
        let l = match location(&items[i]) {
            Err(e) => {
                proof {
                    lemma_located_stops(items@, i as int);
                }
                return Err(e);
            },
            Ok(l) => l,
        };
        let ghost before = locations_view(out@);
        let ghost ls = located(prefix)->Ok_0;
        let ghost x = location_view(l);
        proof {
            assert(located(items@.take(i + 1)) == Ok::<Seq<(Seq<char>, WireRange)>, Seq<char>>(ls.push(x)));
            assert(ls.push(x).drop_last() =~= ls);
            assert(ls.push(x).last() == x);
        }
        let repeated = out.len() > 0 && crate::text::str_equals(
            out[out.len() - 1].uri.as_str(),
            l.uri.as_str(),
        ) && out[out.len() - 1].selection == l.selection;
        if !repeated {
            out.push(l);
            proof {
                assert(locations_view(out@) =~= before.push(x));
            }
        } else {
            proof {
                assert(before.last() == location_view(out@[out@.len() - 1]));
                assert(before.last() == x);
            }
        }
        i = i + 1;
    }
    proof {
        assert(items@.take(items@.len() as int) =~= items@);
    }
    Ok(out)
}

proof fn lemma_located_stops(items: Seq<Json>, i: int)
    requires
        0 <= i < items.len(),
        located(items.take(i)) is Ok,
        location_of(items[i]) is Err,
    ensures
        located(items) == Err::<Seq<(Seq<char>, WireRange)>, Seq<char>>(location_of(items[i])->Err_0),
    decreases items.len(),
{
    if i + 1 == items.len() {
        assert(items.drop_last() =~= items.take(i));
    } else {
        assert(items.drop_last().take(i) =~= items.take(i));
        assert(items.drop_last()[i] == items[i]);
        lemma_located_stops(items.drop_last(), i);
    }
}

/// Reads the locations of a navigation answer.
pub fn normalize_locations(value: Json) -> (r: Result<Vec<RawLocation>, LspError>)
    ensures
        match locations_of(value) {
            Ok(ls) => r matches Ok(v) && locations_view(v@) == ls,
            Err(m) => r matches Err(LspError::Protocol(t)) && t@ == m,
        },
{
    match value {
        Json::Null => {
            let none: Vec<RawLocation> = Vec::new();
            assert(locations_view(none@) =~= Seq::<
                (Seq<char>, WireRange),
            >::empty());
            Ok(none)
        },
        Json::Array(items) => locate(&items),
        other => {
            let items = vec![other];
            proof {
                assert(items@ =~= seq![value]);
            }
            locate(&items)
        },
    }
}

/// Status text is kept to this many characters.
pub const STATUS_LIMIT: usize = 256;

/// The progress text a notification carries: the message of a log, show or
/// status notification; the message, else the title, of a progress value.
pub open spec fn status_text(method: Seq<char>, params: Option<Json>) -> Option<Seq<char>> {
    match params {
        None => None,
        Some(p) => if method == "window/logMessage"@ || method == "window/showMessage"@ || method
            == "language/status"@ {
            text_value(field(p, "message"@))
        } else if method == "$/progress"@ {
            match field(p, "value"@) {
                Some(v) => match field(v, "message"@) {
                    Some(m) => text_value(Some(m)),
                    None => text_value(field(v, "title"@)),
                },
                None => None,
            }
        } else {
            None
        },
    }
}

/// The status shown for a notification: its text sanitized, when not empty.
pub open spec fn status_shown(method: Seq<char>, params: Option<Json>) -> Option<Seq<char>> {
    match status_text(method, params) {
        None => None,
        Some(t) => if sanitized(t, STATUS_LIMIT).len() == 0 {
            None
        } else {
            Some(sanitized(t, STATUS_LIMIT))
        },
    }
}

/// The status text a server notification carries, if any.
pub fn notification_status(method: &str, params: Option<&Json>) -> (r: Option<String>)
    ensures
        match status_shown(
            method@,
            match params {
                Some(p) => Some(*p),
                None => None,
            },
        ) {
            Some(t) => r matches Some(s) && s@ == t,
            None => r is None,
        },
{
    let p = match params {
        None => {
            return None;
        },
        Some(p) => p,
    };
    let text = if crate::text::str_equals(method, "window/logMessage") || crate::text::str_equals(
        method,
        "window/showMessage",
    ) || crate::text::str_equals(method, "language/status") {
        as_text(get(p, "message"))
    } else if crate::text::str_equals(method, "$/progress") {
        match get(p, "value") {
            Some(v) => match get(v, "message") {
                Some(m) => as_text(Some(m)),
                None => as_text(get(v, "title")),
            },
            None => None,
        }
    } else {
        None
    };
    match text {
        None => None,
        Some(t) => {
            let m = sanitize(t, STATUS_LIMIT);
            if crate::text::chars_of(m.as_str()).len() == 0 {
                None
            } else {
                Some(m)
            }
        },
    }
}

/// How many configuration items a `workspace/configuration` request asks
/// for.
pub open spec fn items_asked(params: Option<Json>) -> nat {
    match params {
        Some(p) => match field(p, "items"@) {
            Some(Json::Array(a)) => a@.len(),
            _ => 0,
        },
        None => 0,
    }
}

/// `m` is the member `key` with the string `value`.
pub open spec fn text_member(m: (String, Json), key: Seq<char>, value: Seq<char>) -> bool {
    m.0@ == key && (m.1 matches Json::Text(t) && t@ == value)
}

/// The answer to a request the server sends, with identifier `id`: a
/// `null` for each configuration item asked for, `null` for a progress
/// token, and the "method not found" error for anything else.
pub open spec fn request_answered(id: Json, method: Seq<char>, params: Option<Json>, r: Json) -> bool {
    &&& r matches Json::Object(m)
    &&& m@.len() == 3
    &&& text_member(m@[0], "jsonrpc"@, "2.0"@)
    &&& m@[1].0@ == "id"@ && m@[1].1 == id
    &&& if method == "workspace/configuration"@ {
        &&& m@[2].0@ == "result"@
        &&& m@[2].1 matches Json::Array(a)
        &&& a@.len() == items_asked(params)
        &&& forall|i: int| 0 <= i < a@.len() ==> a@[i] is Null
    } else if method == "window/workDoneProgress/create"@ {
        m@[2].0@ == "result"@ && m@[2].1 is Null
    } else {
        &&& m@[2].0@ == "error"@
        &&& m@[2].1 matches Json::Object(e)
        &&& e@.len() == 2
        &&& e@[0].0@ == "code"@ && e@[0].1 == Json::Integer(-32601i128)
        &&& text_member(e@[1], "message"@, "method not supported by ChronoGit"@)
    }
}

/// Answers a request the server sends.
pub fn server_request_response(id: Json, method: &str, params: Option<&Json>) -> (r: Json)
    ensures
        request_answered(
            id,
            method@,
            match params {
                Some(p) => Some(*p),
                None => None,
            },
            r,
        ),
{
    let answer = if crate::text::str_equals(method, "workspace/configuration") {
        let count: usize = match params {
            Some(p) => match get(p, "items") {
                Some(Json::Array(a)) => a.len(),
                _ => 0,
            },
            None => 0,
        };
        let mut nulls: Vec<Json> = Vec::new();
        let mut i: usize = 0;
        while i < count
            invariant
                i <= count,
                nulls@.len() == i,
                forall|j: int| 0 <= j < i ==> nulls@[j] is Null,
            decreases count - i,
        {
            nulls.push(Json::Null);
            i = i + 1;
        }
        ("result".to_string(), Json::Array(nulls))
    } else if crate::text::str_equals(method, "window/workDoneProgress/create") {
        ("result".to_string(), Json::Null)
    } else {
        (
            "error".to_string(),
            Json::Object(
                vec![
                    ("code".to_string(), Json::Integer(-32601)),
                    ("message".to_string(), Json::Text("method not supported by ChronoGit".to_string())),
                ],
            ),
        )
    };
    Json::Object(vec![("jsonrpc".to_string(), Json::Text("2.0".to_string())), ("id".to_string(), id), answer])
}

/// Hover text is kept to this many characters.
pub const HOVER_LIMIT: usize = 262144;

/// One part of hover contents: a string, or the `value` of a marked-string
/// or markup object.
pub open spec fn hover_part_of(v: Json) -> Result<Seq<char>, Seq<char>> {
    match v {
        Json::Text(s) => Ok(s@),
        _ => match text_value(field(v, "value"@)) {
            Some(t) => Ok(t),
            None => Err("language server returned invalid hover contents"@),
        },
    }
}

/// The parts of an array of hover contents; the error of the first that is
/// not one.
pub open spec fn hover_parts(items: Seq<Json>) -> Result<Seq<Seq<char>>, Seq<char>>
    decreases items.len(),
{
    if items.len() == 0 {
        Ok(Seq::empty())
    } else {
        match hover_parts(items.drop_last()) {
            Err(m) => Err(m),
            Ok(ps) => match hover_part_of(items.last()) {
                Err(m) => Err(m),
                Ok(p) => Ok(ps.push(p)),
            },
        }
    }
}

/// Texts joined with `sep` between neighbours.
pub open spec fn joined_with(parts: Seq<Seq<char>>, sep: Seq<char>) -> Seq<char>
    decreases parts.len(),
{
    if parts.len() == 0 {
        Seq::empty()
    } else if parts.len() == 1 {
        parts[0]
    } else {
        joined_with(parts.drop_last(), sep) + sep + parts.last()
    }
}

/// Characters hover text keeps: all but controls, line feeds and tabs
/// excepted.
pub open spec fn shown_char(c: char) -> bool {
    !crate::unicode::control(c) || c == '\n' || c == '\t'
}

/// Hover contents as text: the non-empty parts joined by blank lines,
/// control characters dropped, cut at `HOVER_LIMIT` characters with a note;
/// none when only whitespace is left.
pub open spec fn hover_text(contents: Json) -> Result<Option<Seq<char>>, Seq<char>> {
    let parts = match contents {
        Json::Array(a) => hover_parts(a@),
        _ => match hover_part_of(contents) {
            Err(m) => Err(m),
            Ok(p) => Ok(seq![p]),
        },
    };
    match parts {
        Err(m) => Err(m),
        Ok(ps) => {
            let combined = joined_with(ps.filter(|p: Seq<char>| p.len() > 0), "\n\n"@);
            let kept = combined.filter(|c: char| shown_char(c));
            let bounded = if kept.len() > HOVER_LIMIT {
                kept.take(HOVER_LIMIT as int) + "\n… hover text truncated …"@
            } else {
                kept
            };
            Ok(
                if crate::text::trimmed(bounded).len() == 0 {
                    None
                } else {
                    Some(bounded)
                },
            )
        },
    }
}

/// A hover answer: none for `null`, else the text of its contents.
pub open spec fn hover_of(v: Json) -> Result<Option<Seq<char>>, Seq<char>> {
    if v is Null {
        Ok(None)
    } else {
        match field(v, "contents"@) {
            None => Err("language server returned hover information without contents"@),
            Some(c) => hover_text(c),
        }
    }
}

fn hover_part(value: &Json) -> (r: Result<String, LspError>)
    ensures
        match hover_part_of(*value) {
            Ok(t) => r matches Ok(s) && s@ == t,
            Err(m) => r matches Err(LspError::Protocol(t)) && t@ == m,
        },
{
    match value {
        Json::Text(s) => {
            return Ok(s.clone());
        },
        _ => {},
    }
    match as_text(get(value, "value")) {
        Some(t) => Ok(t.to_string()),
        None => Err(protocol("language server returned invalid hover contents")),
    }
}

fn collect_parts(items: &Vec<Json>) -> (r: Result<Vec<String>, LspError>)
    ensures
        match hover_parts(items@) {
            Ok(ps) => r matches Ok(v) && v@.map_values(|s: String| s@) == ps,
            Err(m) => r matches Err(LspError::Protocol(t)) && t@ == m,
        },
{
    let mut out: Vec<String> = Vec::new();
    let mut i: usize = 0;
    while i < items.len()
        invariant
            i <= items@.len(),
            hover_parts(items@.take(i as int)) is Ok,
            out@.map_values(|s: String| s@) == hover_parts(items@.take(i as int))->Ok_0,
        decreases items@.len() - i,
    {
        assert(items@.take(i + 1).drop_last() =~= items@.take(i as int));
        let p = match hover_part(&items[i]) {
            Err(e) => {
                proof {
                    lemma_parts_stop(items@, i as int);
                }
                return Err(e);
            },
            Ok(p) => p,
        };
        let ghost before = out@.map_values(|s: String| s@);
        out.push(p);
        assert(out@.map_values(|s: String| s@) =~= before.push(p@));
        i = i + 1;
    }
    assert(items@.take(items@.len() as int) =~= items@);
    Ok(out)
}

proof fn lemma_parts_stop(items: Seq<Json>, i: int)
    requires
        0 <= i < items.len(),
        hover_parts(items.take(i)) is Ok,
        hover_part_of(items[i]) is Err,
    ensures
        hover_parts(items) == Err::<Seq<Seq<char>>, Seq<char>>(hover_part_of(items[i])->Err_0),
    decreases items.len(),
{
    if i + 1 == items.len() {
        assert(items.drop_last() =~= items.take(i));
    } else {
        assert(items.drop_last().take(i) =~= items.take(i));
        assert(items.drop_last()[i] == items[i]);
        lemma_parts_stop(items.drop_last(), i);
    }
}

/// The non-empty parts joined with blank lines.
fn join_parts(parts: &Vec<String>) -> (v: Vec<char>)
    ensures
        v@ == joined_with(
            parts@.map_values(|s: String| s@).filter(|p: Seq<char>| p.len() > 0),
            "\n\n"@,
        ),
{
    let ghost all = parts@.map_values(|s: String| s@);
    let ghost keep = |p: Seq<char>| p.len() > 0;
    let mut v: Vec<char> = Vec::new();
    let mut any = false;
    let mut i: usize = 0;
    proof {
        reveal_strlit("\n\n");
    }
    while i < parts.len()
        invariant
            i <= parts@.len(),
            all == parts@.map_values(|s: String| s@),
            keep == (|p: Seq<char>| p.len() > 0),
            "\n\n"@ == seq!['\n', '\n'],
            v@ == joined_with(all.take(i as int).filter(keep), "\n\n"@),
            any == (all.take(i as int).filter(keep).len() > 0),
        decreases parts@.len() - i,
    {
        let ghost before = all.take(i as int);
        let part = crate::text::chars_of(parts[i].as_str());
        proof {
            assert(all.take(i + 1) =~= before.push(all[i as int]));
            before.lemma_filter_push(all[i as int], keep);
            assert(part@ == all[i as int]);
        }
        if part.len() > 0 {
            let ghost f = before.filter(keep);
            if any {
                v.push('\n');
                v.push('\n');
            }
            let ghost mid = v@;
            let mut j: usize = 0;
            while j < part.len()
                invariant
                    j <= part@.len(),
                    v@ == mid + part@.take(j as int),
                decreases part@.len() - j,
            {
                v.push(part[j]);
                assert(part@.take(j + 1) =~= part@.take(j as int).push(part@[j as int]));
                j = j + 1;
            }
            proof {
                assert(part@.take(part@.len() as int) =~= part@);
                assert(f.push(part@).drop_last() =~= f);
                if f.len() > 0 {
                    assert(v@ =~= joined_with(f, "\n\n"@) + "\n\n"@ + part@);
                } else {
                    assert(f.push(part@) =~= seq![part@]);
                    assert(v@ =~= part@);
                }
            }
            any = true;
        }
        i = i + 1;
    }
    assert(all.take(parts@.len() as int) =~= all);
    v
}

/// Reads the text of a hover answer.
pub fn normalize_hover(value: Json) -> (r: Result<Option<String>, LspError>)
    ensures
        match hover_of(value) {
            Ok(t) => r matches Ok(o) && match o {
                Some(s) => t == Some(s@),
                None => t is None,
            },
            Err(m) => r matches Err(LspError::Protocol(t)) && t@ == m,
        },
{
    if let Json::Null = value {
        return Ok(None);
    }
    let contents = match get(&value, "contents") {
        None => {
            return Err(protocol("language server returned hover information without contents"));
        },
        Some(c) => c,
    };
    let parts = match contents {
        Json::Array(items) => collect_parts(items)?,
        _ => {
            let p = hover_part(contents)?;
            let v = vec![p];
            proof {
                assert(v@.map_values(|s: String| s@) =~= seq![v@[0]@]);
            }
            v
        },
    };
    let combined = join_parts(&parts);
    let ghost shown = |c: char| shown_char(c);
    let mut kept: Vec<char> = Vec::new();
    let mut i: usize = 0;
    while i < combined.len()
        invariant
            i <= combined@.len(),
            shown == (|c: char| shown_char(c)),
            kept@ == combined@.take(i as int).filter(shown),
        decreases combined@.len() - i,
    {
        let c = combined[i];
        proof {
            assert(combined@.take(i + 1) =~= combined@.take(i as int).push(c));
            combined@.take(i as int).lemma_filter_push(c, shown);
        }
        if !crate::unicode::is_control(c) || c == '\n' || c == '\t' {
            kept.push(c);
        }
        i = i + 1;
    }
    assert(combined@.take(combined@.len() as int) =~= combined@);
    let text = if kept.len() > HOVER_LIMIT {
        let mut cut: Vec<char> = Vec::new();
        let mut j: usize = 0;
        while j < HOVER_LIMIT
            invariant
                j <= HOVER_LIMIT,
                HOVER_LIMIT < kept@.len(),
                cut@ == kept@.take(j as int),
            decreases HOVER_LIMIT - j,
        {
            cut.push(kept[j]);
            assert(kept@.take(j + 1) =~= kept@.take(j as int).push(kept@[j as int]));
            j = j + 1;
        }
        let mut s = crate::text::string_from_chars(&cut);
        s.append("\n… hover text truncated …");
        s
    } else {
        crate::text::string_from_chars(&kept)
    };
    let trimmed_text = crate::text::trim_text(text.as_str());
    if crate::text::chars_of(trimmed_text.as_str()).len() == 0 {
        Ok(None)
    } else {
        Ok(Some(text))
    }
}

} // verus!
