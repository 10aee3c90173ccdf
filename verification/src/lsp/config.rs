//! Validation of trusted language-server profile values.

use crate::paths::{path_component_count, path_is_absolute};
use crate::text::{byte_len, fits, Line};
use crate::unicode::{control, is_control};
use std::path::PathBuf;
use vstd::prelude::*;
use vstd::string::StringExecFns;

verus! {

/// At most this many words make up a server command.
pub const MAX_COMMAND_PARTS: usize = 64;

/// At most this many bytes make up one configured value.
pub const MAX_VALUE_BYTES: usize = 4096;

/// A path-qualified language-server configuration failure.
#[derive(Debug)]
pub struct LspConfigError {
    pub path: Option<PathBuf>,
    pub detail: String,
}

impl LspConfigError {
    /// The message shown for this failure: the detail, after the file's path
    /// when there is one.
    pub fn describe(&self) -> (s: String)
        ensures
            self.path is None ==> s@ == self.detail@,
            self.path is Some ==> exists|shown: Seq<char>|
                s@ == "could not load LSP config "@ + shown + ": "@ + self.detail@,
    {
        match &self.path {
            Some(path) => {
                let shown = crate::paths::path_display(path);
                let s = String::from_str("could not load LSP config ").concat(shown.as_str()).concat(
                    ": ",
                ).concat(self.detail.as_str());
                assert(s@ == "could not load LSP config "@ + shown@ + ": "@ + self.detail@);
                s
            },
            None => self.detail.clone(),
        }
    }
}

/// A configuration error for the file at `path` (if any) with `detail`.
pub fn config_error(path: Option<PathBuf>, detail: String) -> (e: LspConfigError)
    ensures
        e.path == path,
        e.detail@ == detail@,
{
    LspConfigError { path, detail }
}

/// A value that is non-empty, at most `MAX_VALUE_BYTES` long, and free of
/// control characters.
pub open spec fn bounded(v: Seq<char>) -> bool {
    &&& v.len() > 0
    &&& byte_len(v) <= MAX_VALUE_BYTES
    &&& forall|i: int| 0 <= i < v.len() ==> !control(#[trigger] v[i])
}

pub open spec fn bounded_error(label: Seq<char>) -> Seq<char> {
    label + " must be non-empty, bounded, and contain no controls"@
}

/// Checks a configured value against `bounded`.
pub fn validate_bounded(value: &str, label: &str) -> (r: Result<(), String>)
    ensures
        r is Ok <==> bounded(value@),
        r matches Err(m) ==> m@ == bounded_error(label@),
{
    crate::text::str_fits(value);
    let line = Line::new(value);
    let mut ok = line.chars.len() > 0 && line.bytes() <= MAX_VALUE_BYTES;
    let mut i: usize = 0;
    while i < line.chars.len()
        invariant
            line.chars@ == value@,
            i <= value@.len(),
            ok == (value@.len() > 0 && byte_len(value@) <= MAX_VALUE_BYTES && forall|j: int|
                0 <= j < i ==> !control(#[trigger] value@[j])),
        decreases value@.len() - i,
    {
        if is_control(line.chars[i]) {
            ok = false;
        }
        i = i + 1;
    }
    if ok {
        Ok(())
    } else {
        let mut m = String::from_str(label);
        m.append(" must be non-empty, bounded, and contain no controls");
        Err(m)
    }
}

/// ASCII letters and digits, `-`, and `_`.
pub open spec fn identifier_char(c: char) -> bool {
    ('a' <= c && c <= 'z') || ('A' <= c && c <= 'Z') || ('0' <= c && c <= '9') || c == '-' || c
        == '_'
}

/// Checks an identifier: a bounded value of identifier characters only.
pub fn validate_identifier(value: &str, label: &str) -> (r: Result<(), String>)
    ensures
        r is Ok <==> (bounded(value@) && forall|i: int|
            0 <= i < value@.len() ==> identifier_char(#[trigger] value@[i])),
        !bounded(value@) ==> (r matches Err(m) && m@ == bounded_error(label@)),
        bounded(value@) ==> (r matches Err(m) ==> m@ == label@ + " contains unsupported characters"@),
{
    crate::text::str_fits(value);
    match validate_bounded(value, label) {
        Err(m) => {
            return Err(m);
        },
        Ok(()) => {},
    }
    let v = crate::text::chars_of(value);
    let mut i: usize = 0;
    while i < v.len()
        invariant
            v@ == value@,
            bounded(value@),
            i <= v@.len(),
            forall|j: int| 0 <= j < i ==> identifier_char(#[trigger] v@[j]),
        decreases v@.len() - i,
    {
        let c = v[i];
        if !(('a' <= c && c <= 'z') || ('A' <= c && c <= 'Z') || ('0' <= c && c <= '9') || c == '-'
            || c == '_') {
            let mut m = String::from_str(label);
            m.append(" contains unsupported characters");
            return Err(m);
        }
        i = i + 1;
    }
    Ok(())
}

/// The placeholders a command word may be.
pub open spec fn placeholder(p: Seq<char>) -> bool {
    ||| p == "{workspace_root}"@
    ||| p == "{workspace_data}"@
    ||| p == "{workspace_config}"@
    ||| p == "{cache_dir}"@
}

/// A word holding a brace that is not exactly a placeholder.
pub open spec fn bad_placeholder(p: Seq<char>) -> bool {
    (p.contains('{') || p.contains('}')) && !placeholder(p)
}

/// The first error among command words `i..`: a word that is not bounded, or
/// one with a partial placeholder.
pub open spec fn words_error(cmd: Seq<Seq<char>>, i: int) -> Option<Seq<char>>
    decreases cmd.len() - i,
{
    if i < 0 || i >= cmd.len() {
        None
    } else if !bounded(cmd[i]) {
        Some(bounded_error("command argument"@))
    } else if bad_placeholder(cmd[i]) {
        Some("unsupported or partial placeholder in "@ + debug_quoted(cmd[i]))
    } else {
        words_error(cmd, i + 1)
    }
}

/// Rust's debug rendering of a string: quoted and escaped.
pub uninterp spec fn debug_quoted(s: Seq<char>) -> Seq<char>;

/// Renders a string as `{:?}` does.
#[verifier::external_body]
pub(crate) fn debug_text(s: &str) -> (r: String)
    ensures
        r@ == debug_quoted(s@),
{
    format!("{s:?}")
}

/// The verdict on a server command: its word count, each word, then the
/// executable (not `.` or `..`; a bare name or an absolute path), given the
/// platform's answers on whether the executable path is absolute and how many
/// components it has.
pub open spec fn command_check(cmd: Seq<Seq<char>>, absolute: bool, components: usize) -> Result<
    (),
    Seq<char>,
> {
    if cmd.len() == 0 || cmd.len() > MAX_COMMAND_PARTS {
        Err("command must contain 1 to 64 arguments"@)
    } else if words_error(cmd, 0) is Some {
        Err(words_error(cmd, 0)->0)
    } else if cmd[0] == "."@ || cmd[0] == ".."@ {
        Err("executable must name a program"@)
    } else if !absolute && components != 1 {
        Err("executable must be a bare PATH name or an absolute path"@)
    } else {
        Ok(())
    }
}

/// The text of each command word.
pub open spec fn words_of(command: Seq<String>) -> Seq<Seq<char>> {
    command.map_values(|s: String| s@)
}

/// The result of a check as text.
pub open spec fn verdict_view(r: Result<(), String>) -> Result<(), Seq<char>> {
    match r {
        Ok(()) => Ok(()),
        Err(m) => Err(m@),
    }
}

fn has_brace(v: &Vec<char>) -> (b: bool)
    ensures
        b == (v@.contains('{') || v@.contains('}')),
{
    let mut i: usize = 0;
    while i < v.len()
        invariant
            i <= v@.len(),
            forall|j: int| 0 <= j < i ==> v@[j] != '{' && v@[j] != '}',
        decreases v@.len() - i,
    {
        if v[i] == '{' || v[i] == '}' {
            assert(v@[i as int] == v[i as int]);
            return true;
        }
        i = i + 1;
    }
    false
}

/// Every string of a slice fits in memory.
fn strings_fit(values: &[String])
    ensures
        forall|i: int| 0 <= i < values@.len() ==> fits(#[trigger] values@[i]@),
{
    let mut i: usize = 0;
    while i < values.len()
        invariant
            i <= values@.len(),
            forall|j: int| 0 <= j < i ==> fits(#[trigger] values@[j]@),
        decreases values@.len() - i,
    {
        crate::text::str_fits(values[i].as_str());
        i = i + 1;
    }
}

/// Checks a server command, given the platform's view of its executable path.
pub fn command_verdict(command: &[String], absolute: bool, components: usize) -> (r: Result<(), String>)
    ensures
        verdict_view(r) == command_check(words_of(command@), absolute, components),
{
    strings_fit(command);
    let ghost cmd = words_of(command@);
    if command.len() == 0 || command.len() > MAX_COMMAND_PARTS {
        return Err(String::from_str("command must contain 1 to 64 arguments"));
    }
    let mut i: usize = 0;
    while i < command.len()
        invariant
            cmd == words_of(command@),
            1 <= command@.len() <= MAX_COMMAND_PARTS,
            i <= command@.len(),
            forall|k: int| 0 <= k < command@.len() ==> fits(#[trigger] command@[k]@),
            words_error(cmd, 0) == words_error(cmd, i as int),
        decreases command@.len() - i,
    {
        let part = command[i].as_str();
        assert(cmd[i as int] == part@);
        match validate_bounded(part, "command argument") {
            Err(m) => {
                return Err(m);
            },
            Ok(()) => {},
        }
        let v = crate::text::chars_of(part);
        if has_brace(&v) {
            let exact = crate::text::str_equals(part, "{workspace_root}")
                || crate::text::str_equals(part, "{workspace_data}")
                || crate::text::str_equals(part, "{workspace_config}")
                || crate::text::str_equals(part, "{cache_dir}");
            if !exact {
                let mut m = String::from_str("unsupported or partial placeholder in ");
                let shown = debug_text(part);
                m.append(shown.as_str());
                return Err(m);
            }
        }
        i = i + 1;
    }
    let first = command[0].as_str();
    assert(cmd[0] == first@);
    if crate::text::str_equals(first, ".") || crate::text::str_equals(first, "..") {
        return Err(String::from_str("executable must name a program"));
    }
    if !absolute && components != 1 {
        return Err(String::from_str("executable must be a bare PATH name or an absolute path"));
    }
    Ok(())
}

/// Checks a server command; the platform decides whether the executable path
/// is absolute and how many components it has.
pub fn validate_command(command: &[String]) -> (r: Result<(), String>)
    ensures
        exists|absolute: bool, components: usize|
            verdict_view(r) == #[trigger] command_check(
                words_of(command@),
                absolute,
                components,
            ),
        command@.len() == 0 ==> verdict_view(r) == command_check(words_of(command@), true, 1),
{
    strings_fit(command);
    if command.len() == 0 {
        return command_verdict(command, true, 1);
    }
    let absolute = path_is_absolute(command[0].as_str());
    let components = path_component_count(command[0].as_str());
    command_verdict(command, absolute, components)
}

} // verus!
