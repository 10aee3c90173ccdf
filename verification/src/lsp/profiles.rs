//! Language-server profiles: the built-in set, and how a file is routed to
//! the one enabled profile that claims its extension.

use crate::bytes::{lossy_string, lossy_text, strict_utf8};
use crate::domain::path::RepoPath;
use crate::lsp::config::{
    bounded, bounded_error, command_check, command_verdict, config_error, debug_quoted, debug_text,
    identifier_char, validate_bounded, validate_identifier, words_of, LspConfigError,
};
use crate::lsp::LspError;
use crate::paths::{path_component_count, path_component_kinds, path_is_absolute, PathComponentKind};
use crate::text::{fits, str_fits};
use std::path::PathBuf;
use vstd::prelude::*;
use vstd::string::StringExecFns;
use vstd::utf8::{decode_utf8, valid_utf8};

verus! {

/// The text of each string.
pub open spec fn strings_view(v: Seq<String>) -> Seq<Seq<char>> {
    v.map_values(|s: String| s@)
}

/// A validated, shell-free command and routing profile for one language server.
#[derive(Debug)]
pub struct ServerProfile {
    /// Stable identifier used by `--lsp`.
    pub id: String,
    /// The `languageId` sent with opened documents.
    pub language_id: String,
    /// Lowercase extensions this profile claims.
    pub extensions: Vec<String>,
    /// Executable and arguments, possibly with workspace placeholders.
    pub command: Vec<String>,
    /// Files whose presence marks a workspace root.
    pub root_markers: Vec<String>,
    /// Initialization options as JSON text.
    pub initialization_options: String,
    /// Whether the server needs a private workspace data directory.
    pub workspace_data: bool,
    /// What to tell a user whose server is missing.
    pub install_hint: String,
}

/// Two profiles with the same text in every field.
pub open spec fn same_profile(a: ServerProfile, b: ServerProfile) -> bool {
    &&& a.id@ == b.id@
    &&& a.language_id@ == b.language_id@
    &&& strings_view(a.extensions@) == strings_view(b.extensions@)
    &&& strings_view(a.command@) == strings_view(b.command@)
    &&& strings_view(a.root_markers@) == strings_view(b.root_markers@)
    &&& a.initialization_options@ == b.initialization_options@
    &&& a.workspace_data == b.workspace_data
    &&& a.install_hint@ == b.install_hint@
}

/// Copies a list of strings.
pub fn copy_strings(v: &Vec<String>) -> (r: Vec<String>)
    ensures
        strings_view(r@) == strings_view(v@),
{
    let mut r: Vec<String> = Vec::new();
    let mut i: usize = 0;
    while i < v.len()
        invariant
            i <= v@.len(),
            r@.len() == i,
            strings_view(r@) == strings_view(v@.take(i as int)),
        decreases v@.len() - i,
    {
        let ghost before = r@;
        let item = v[i].clone();
        r.push(item);
        proof {
            assert forall|k: int| 0 <= k < r@.len() implies #[trigger] strings_view(r@)[k]
                == strings_view(v@.take(i + 1))[k] by {
                if k < before.len() {
                    assert(r@[k] == before[k]);
                    assert(strings_view(before)[k] == strings_view(v@.take(i as int))[k]);
                } else {
                    assert(r@[k] == item);
                    assert(v@.take(i + 1)[k] == v@[i as int]);
                }
            }
        }
        i = i + 1;
        assert(strings_view(r@) =~= strings_view(v@.take(i as int)));
    }
    assert(v@.take(v@.len() as int) =~= v@);
    r
}

/// Owned copies of string slices.
fn owned_strings(parts: &[&str]) -> (r: Vec<String>)
    ensures
        strings_view(r@) == parts@.map_values(|s: &str| s@),
{
    let mut r: Vec<String> = Vec::new();
    let mut i: usize = 0;
    while i < parts.len()
        invariant
            i <= parts@.len(),
            r@.len() == i,
            strings_view(r@) == parts@.take(i as int).map_values(|s: &str| s@),
        decreases parts@.len() - i,
    {
        let ghost before = r@;
        let item = parts[i].to_string();
        proof {
            vstd::string::to_string_from_display_ensures_for_str(parts[i as int], item);
        }
        r.push(item);
        proof {
            assert forall|k: int| 0 <= k < r@.len() implies #[trigger] strings_view(r@)[k]
                == parts@.take(i + 1).map_values(|s: &str| s@)[k] by {
                if k < before.len() {
                    assert(r@[k] == before[k]);
                    assert(strings_view(before)[k] == parts@.take(i as int).map_values(|s: &str| s@)[k]);
                } else {
                    assert(r@[k] == item);
                    assert(parts@.take(i + 1)[k] == parts@[i as int]);
                }
            }
        }
        i = i + 1;
        assert(strings_view(r@) =~= parts@.take(i as int).map_values(|s: &str| s@));
    }
    assert(parts@.take(parts@.len() as int) =~= parts@);
    r
}

impl ServerProfile {
    /// Returns the stable profile identifier used by `--lsp`.
    pub fn id(&self) -> (s: &str)
        ensures
            s@ == self.id@,
    {
        self.id.as_str()
    }

    /// Returns the `languageId` sent with opened documents.
    pub fn language_id(&self) -> (s: &str)
        ensures
            s@ == self.language_id@,
    {
        self.language_id.as_str()
    }

    /// Returns the extensions claimed by this profile.
    pub fn extensions(&self) -> (s: &[String])
        ensures
            s@ == self.extensions@,
    {
        self.extensions.as_slice()
    }

    /// Returns the initialization options as JSON text.
    pub fn initialization_options(&self) -> (s: &str)
        ensures
            s@ == self.initialization_options@,
    {
        self.initialization_options.as_str()
    }

    /// Returns the hint shown when the server cannot be started.
    pub fn install_hint(&self) -> (s: &str)
        ensures
            s@ == self.install_hint@,
    {
        self.install_hint.as_str()
    }

    /// Whether the server needs a private workspace data directory.
    pub fn needs_workspace_data(&self) -> (b: bool)
        ensures
            b == self.workspace_data,
    {
        self.workspace_data
    }

    /// Returns an identical profile.
    pub fn duplicate(&self) -> (p: ServerProfile)
        ensures
            same_profile(p, *self),
    {
        ServerProfile {
            id: self.id.clone(),
            language_id: self.language_id.clone(),
            extensions: copy_strings(&self.extensions),
            command: copy_strings(&self.command),
            root_markers: copy_strings(&self.root_markers),
            initialization_options: self.initialization_options.clone(),
            workspace_data: self.workspace_data,
            install_hint: self.install_hint.clone(),
        }
    }
}

/// A built-in profile from its literal parts.
fn builtin(
    id: &str,
    language_id: &str,
    extensions: &[&str],
    command: &[&str],
    root_markers: &[&str],
    workspace_data: bool,
    install_hint: &str,
) -> (p: ServerProfile)
    ensures
        p.id@ == id@,
        p.language_id@ == language_id@,
        strings_view(p.extensions@) == extensions@.map_values(|s: &str| s@),
        strings_view(p.command@) == command@.map_values(|s: &str| s@),
        strings_view(p.root_markers@) == root_markers@.map_values(|s: &str| s@),
        p.initialization_options@ == "{}"@,
        p.workspace_data == workspace_data,
        p.install_hint@ == install_hint@,
{
    ServerProfile {
        id: id.to_string(),
        language_id: language_id.to_string(),
        extensions: owned_strings(extensions),
        command: owned_strings(command),
        root_markers: owned_strings(root_markers),
        initialization_options: "{}".to_string(),
        workspace_data,
        install_hint: install_hint.to_string(),
    }
}

/// The identifiers of the built-in profiles, in order.
pub open spec fn builtin_ids() -> Seq<Seq<char>> {
    seq!["rust-analyzer"@, "jdtls"@, "pyright"@, "basedpyright"@, "pylsp"@]
}

/// The built-in profiles: rust-analyzer, Eclipse JDT LS, Pyright,
/// basedpyright, and python-lsp-server. None is used unless enabled.
pub fn builtin_profiles() -> (v: Vec<ServerProfile>)
    ensures
        v@.len() == 5,
        forall|i: int| 0 <= i < 5 ==> (#[trigger] v@[i]).id@ == builtin_ids()[i],
        strings_view(v@[0].extensions@) == seq!["rs"@],
        strings_view(v@[1].extensions@) == seq!["java"@],
        strings_view(v@[2].extensions@) == seq!["py"@, "pyi"@],
        strings_view(v@[3].extensions@) == seq!["py"@, "pyi"@],
        strings_view(v@[4].extensions@) == seq!["py"@, "pyi"@],
        strings_view(v@[1].command@) == seq![
            "jdtls"@,
            "-configuration"@,
            "{workspace_config}"@,
            "-data"@,
            "{workspace_data}"@,
        ],
        v@[1].workspace_data,
        !v@[0].workspace_data && !v@[2].workspace_data && !v@[3].workspace_data
            && !v@[4].workspace_data,
{
    let v = vec![
        builtin(
            "rust-analyzer",
            "rust",
            &["rs"],
            &["rust-analyzer"],
            &["Cargo.toml"],
            false,
            "install rust-analyzer and ensure rust-analyzer is on PATH",
        ),
        builtin(
            "jdtls",
            "java",
            &["java"],
            &["jdtls", "-configuration", "{workspace_config}", "-data", "{workspace_data}"],
            &["pom.xml", "build.gradle", "build.gradle.kts", "settings.gradle", ".project"],
            true,
            "install Eclipse JDT LS (Java 21+ runtime) and ensure jdtls is on PATH",
        ),
        builtin(
            "pyright",
            "python",
            &["py", "pyi"],
            &["pyright-langserver", "--stdio"],
            &["pyrightconfig.json", "pyproject.toml", "setup.cfg"],
            false,
            "install Pyright and ensure pyright-langserver is on PATH",
        ),
        builtin(
            "basedpyright",
            "python",
            &["py", "pyi"],
            &["basedpyright-langserver", "--stdio"],
            &["pyrightconfig.json", "pyproject.toml"],
            false,
            "install basedpyright and ensure basedpyright-langserver is on PATH",
        ),
        builtin(
            "pylsp",
            "python",
            &["py", "pyi"],
            &["pylsp"],
            &["pyproject.toml", "setup.cfg", "tox.ini"],
            false,
            "install python-lsp-server and ensure pylsp is on PATH",
        ),
    ];
    v
}

/// Index of the last `b` before `j`.
pub open spec fn last_index(s: Seq<u8>, b: u8, j: int) -> Option<int>
    decreases j,
{
    if j <= 0 {
        None
    } else if s[j - 1] == b {
        Some(j - 1)
    } else {
        last_index(s, b, j - 1)
    }
}

/// The last component of a path.
pub open spec fn file_name(p: Seq<u8>) -> Seq<u8> {
    match last_index(p, 0x2fu8, p.len() as int) {
        Some(i) => p.subrange(i + 1, p.len() as int),
        None => p,
    }
}

/// The text after the last `.` of a path's file name, when it is UTF-8.
pub open spec fn extension_of(p: Seq<u8>) -> Option<Seq<char>> {
    let name = file_name(p);
    match last_index(name, 0x2eu8, name.len() as int) {
        Some(i) => {
            let e = name.subrange(i + 1, name.len() as int);
            if valid_utf8(e) {
                Some(decode_utf8(e))
            } else {
                None
            }
        },
        None => None,
    }
}

proof fn lemma_last_index_range(s: Seq<u8>, b: u8, j: int)
    requires
        j <= s.len(),
    ensures
        last_index(s, b, j) matches Some(i) ==> 0 <= i < j && s[i] == b,
    decreases j,
{
    if j > 0 && s[j - 1] != b {
        lemma_last_index_range(s, b, j - 1);
    }
}

fn last_index_exec(s: &[u8], b: u8) -> (r: Option<usize>)
    ensures
        r matches Some(i) ==> last_index(s@, b, s@.len() as int) == Some(i as int),
        r is None ==> last_index(s@, b, s@.len() as int) is None,
{
    let mut j = s.len();
    while j > 0 && s[j - 1] != b
        invariant
            j <= s@.len(),
            last_index(s@, b, s@.len() as int) == last_index(s@, b, j as int),
        decreases j,
    {
        j = j - 1;
    }
    if j == 0 {
        None
    } else {
        Some(j - 1)
    }
}

/// The extension of a path's file name, when it has one and it is UTF-8.
fn extension(path: &RepoPath) -> (r: Option<String>)
    ensures
        r matches Some(e) ==> extension_of(path@) == Some(e@),
        r is None ==> extension_of(path@) is None,
{
    let bytes = path.as_bytes();
    let n = bytes.len();
    let start = match last_index_exec(bytes, 0x2f) {
        Some(i) => {
            proof {
                lemma_last_index_range(bytes@, 0x2fu8, bytes@.len() as int);
                assert(last_index(bytes@, 0x2fu8, bytes@.len() as int) == Some(i as int));
                assert(i < n);
            }
            i + 1
        },
        None => 0,
    };
    let name = crate::bytes::copy_range(bytes, start, bytes.len());
    assert(name@ == file_name(path@)) by {
        if start == 0 {
            assert(bytes@.subrange(0, bytes@.len() as int) =~= bytes@);
        }
    }
    match last_index_exec(name.as_slice(), 0x2e) {
        Some(i) => {
            proof {
                lemma_last_index_range(name@, 0x2eu8, name@.len() as int);
                assert(last_index(name@, 0x2eu8, name@.len() as int) == Some(i as int));
                assert(i < name@.len());
            }
            let e = crate::bytes::copy_range(name.as_slice(), i + 1, name.len());
            strict_utf8(e.as_slice())
        },
        None => None,
    }
}

/// ASCII letters lowered; everything else kept.
pub open spec fn ascii_lower(s: Seq<char>) -> Seq<char> {
    s.map_values(|c: char| if 'A' <= c && c <= 'Z' {
        ((c as u32) + 32) as char
    } else {
        c
    })
}

fn to_ascii_lower(s: &str) -> (r: String)
    ensures
        r@ == ascii_lower(s@),
{
    let v = crate::text::chars_of(s);
    let mut out = String::new();
    let mut i: usize = 0;
    while i < v.len()
        invariant
            v@ == s@,
            i <= v@.len(),
            out@ == ascii_lower(s@.take(i as int)),
        decreases v@.len() - i,
    {
        let c = v[i];
        let lowered = if 'A' <= c && c <= 'Z' {
            ((c as u8) + 32) as char
        } else {
            c
        };
        crate::text::push_char(&mut out, lowered);
        i = i + 1;
        assert(out@ =~= ascii_lower(s@.take(i as int)));
    }
    assert(s@.take(s@.len() as int) =~= s@);
    out
}

/// Whether a profile claims `ext`.
pub open spec fn claims(p: ServerProfile, ext: Seq<char>) -> bool {
    strings_view(p.extensions@).contains(ext)
}

/// The enabled profiles that claim `ext`, in order.
pub open spec fn claiming(profiles: Seq<ServerProfile>, ext: Seq<char>) -> Seq<ServerProfile> {
    profiles.filter(|p: ServerProfile| claims(p, ext))
}

/// Identifiers joined by `, `.
pub open spec fn joined_ids(ps: Seq<ServerProfile>) -> Seq<char>
    decreases ps.len(),
{
    if ps.len() == 0 {
        Seq::empty()
    } else if ps.len() == 1 {
        ps[0].id@
    } else {
        joined_ids(ps.drop_last()) + ", "@ + ps.last().id@
    }
}

/// The routing answer for a file: its one claiming profile, or why there is
/// none.
pub open spec fn routed(profiles: Seq<ServerProfile>, path: Seq<u8>, r: Result<ServerProfile, LspError>) -> bool {
    match extension_of(path) {
        None => r matches Err(LspError::Disabled(m)) && m@ == "no enabled language server matches "@
            + lossy_text(path),
        Some(e) => {
            let ext = ascii_lower(e);
            let ms = claiming(profiles, ext);
            if ms.len() == 0 {
                r matches Err(LspError::Disabled(m)) && m@ == "no enabled language server matches ."@
                    + ext + " files"@
            } else if ms.len() == 1 {
                r matches Ok(p) && same_profile(p, ms[0])
            } else {
                r matches Err(LspError::AmbiguousProfile(m)) && m@
                    == "multiple enabled language servers match ."@ + ext
                    + "; enable only one of: "@ + joined_ids(ms)
            }
        },
    }
}

fn has_extension(p: &ServerProfile, ext: &str) -> (b: bool)
    ensures
        b == claims(*p, ext@),
{
    let mut i: usize = 0;
    while i < p.extensions.len()
        invariant
            i <= p.extensions@.len(),
            forall|k: int| 0 <= k < i ==> p.extensions@[k]@ != ext@,
        decreases p.extensions@.len() - i,
    {
        if crate::text::str_equals(p.extensions[i].as_str(), ext) {
            assert(strings_view(p.extensions@)[i as int] == ext@);
            return true;
        }
        i = i + 1;
    }
    proof {
        if strings_view(p.extensions@).contains(ext@) {
            let k = choose|k: int| 0 <= k < strings_view(p.extensions@).len() && strings_view(
                p.extensions@,
            )[k] == ext@;
            assert(p.extensions@[k]@ == ext@);
        }
    }
    false
}

/// The explicitly enabled, validated set of language-server profiles.
#[derive(Debug)]
pub struct LspConfig {
    pub profiles: Vec<ServerProfile>,
}

impl LspConfig {
    /// A configuration with no enabled servers.
    pub fn disabled() -> (c: LspConfig)
        ensures
            c.profiles@.len() == 0,
    {
        LspConfig { profiles: Vec::new() }
    }

    /// Whether no language server can be started.
    pub fn is_disabled(&self) -> (b: bool)
        ensures
            b == (self.profiles@.len() == 0),
    {
        self.profiles.len() == 0
    }

    /// The enabled profiles in command-line order.
    pub fn profiles(&self) -> (s: &[ServerProfile])
        ensures
            s@ == self.profiles@,
    {
        self.profiles.as_slice()
    }

    /// The one enabled profile that claims a file's extension (compared in
    /// ASCII lowercase); none, or more than one, is an error.
    pub fn profile_for_path(&self, path: &RepoPath) -> (r: Result<ServerProfile, LspError>)
        ensures
            routed(self.profiles@, path@, r),
    {
        let ext = match extension(path) {
            Some(e) => to_ascii_lower(e.as_str()),
            None => {
                let m = String::from_str("no enabled language server matches ").concat(
                    lossy_string(path.as_bytes()).as_str(),
                );
                return Err(LspError::Disabled(m));
            },
        };
        let ghost all = self.profiles@;
        let ghost pred = |p: ServerProfile| claims(p, ext@);
        let mut found: Vec<usize> = Vec::new();
        let mut i: usize = 0;
        while i < self.profiles.len()
            invariant
                all == self.profiles@,
                pred == (|p: ServerProfile| claims(p, ext@)),
                i <= all.len(),
                found@.map_values(|k: usize| all[k as int]) == all.take(i as int).filter(pred),
                forall|j: int| 0 <= j < found@.len() ==> #[trigger] found@[j] < i,
            decreases all.len() - i,
        {
            proof {
                assert(all.take(i + 1) =~= all.take(i as int).push(all[i as int]));
                all.take(i as int).lemma_filter_push(all[i as int], pred);
            }
            if has_extension(&self.profiles[i], ext.as_str()) {
                found.push(i);
                assert(found@.map_values(|k: usize| all[k as int]) =~= all.take(i + 1).filter(pred));
            }
            i = i + 1;
        }
        assert(all.take(all.len() as int) =~= all);
        let ghost ms = claiming(all, ext@);
        assert(found@.map_values(|k: usize| all[k as int]) == ms);
        if found.len() == 0 {
            let m = String::from_str("no enabled language server matches .").concat(ext.as_str()).concat(
                " files",
            );
            return Err(LspError::Disabled(m));
        }
        if found.len() == 1 {
            assert(ms[0] == all[found@[0] as int]);
            return Ok(self.profiles[found[0]].duplicate());
        }
        let mut m = String::from_str("multiple enabled language servers match .").concat(ext.as_str()).concat(
            "; enable only one of: ",
        );
        let ghost head = m@;
        let mut j: usize = 0;
        while j < found.len()
            invariant
                2 <= found@.len(),
                found@.map_values(|k: usize| all[k as int]) == ms,
                forall|q: int| 0 <= q < found@.len() ==> #[trigger] found@[q] < all.len(),
                all == self.profiles@,
                j <= found@.len(),
                m@ == head + joined_ids(ms.take(j as int)),
            decreases found@.len() - j,
        {
            let ghost before = m@;
            if j > 0 {
                m.append(", ");
            }
            let k = found[j];
            m.append(self.profiles[k].id.as_str());
            proof {
                assert(ms[j as int] == all[k as int]);
                assert(ms.take(j + 1).drop_last() =~= ms.take(j as int));
                if j == 0 {
                    assert(joined_ids(ms.take(0)) == Seq::<char>::empty());
                    assert(m@ =~= head + joined_ids(ms.take(1)));
                } else {
                    assert(m@ =~= head + joined_ids(ms.take(j + 1)));
                }
            }
            j = j + 1;
        }
        assert(ms.take(found@.len() as int) =~= ms);
        Err(LspError::AmbiguousProfile(m))
    }
}

/// At most this many extensions make up a profile.
pub const MAX_EXTENSIONS: usize = 32;

/// At most this many root markers make up a profile.
pub const MAX_ROOT_MARKERS: usize = 64;

/// At most this many profiles may be known.
pub const MAX_PROFILES: usize = 32;

/// A user profile as the configuration file spells it, with its
/// initialization options already rendered as JSON text.
#[derive(Debug)]
pub struct RawProfile {
    pub language_id: String,
    pub extensions: Vec<String>,
    pub command: Vec<String>,
    pub root_markers: Vec<String>,
    pub initialization_options: Option<String>,
    pub workspace_data: bool,
    pub install_hint: Option<String>,
}

/// The first problem with an identifier, if any.
pub open spec fn identifier_problem(v: Seq<char>, label: Seq<char>) -> Option<Seq<char>> {
    if !bounded(v) {
        Some(bounded_error(label))
    } else if !(forall|i: int| 0 <= i < v.len() ==> identifier_char(#[trigger] v[i])) {
        Some(label + " contains unsupported characters"@)
    } else {
        None
    }
}

/// A non-empty extension of lowercase ASCII letters and digits.
pub open spec fn extension_ok(e: Seq<char>) -> bool {
    e.len() > 0 && forall|i: int| 0 <= i < e.len() ==> ('a' <= #[trigger] e[i] && e[i] <= 'z') || (
    '0' <= e[i] && e[i] <= '9')
}

/// The first problem among extensions `i..`: one that is malformed, or one
/// that repeats an earlier one.
pub open spec fn extensions_problem(exts: Seq<Seq<char>>, i: int) -> Option<Seq<char>>
    decreases exts.len() - i,
{
    if i < 0 || i >= exts.len() {
        None
    } else if !extension_ok(exts[i]) {
        Some("invalid extension "@ + debug_quoted(exts[i]))
    } else if exists|j: int| 0 <= j < i && exts[j] == exts[i] {
        Some("duplicate extension "@ + debug_quoted(exts[i]))
    } else {
        extensions_problem(exts, i + 1)
    }
}

/// The first problem among root markers `i..`, given for each whether the
/// platform reads it as leaving the workspace.
pub open spec fn markers_problem(markers: Seq<Seq<char>>, escapes: Seq<bool>, i: int) -> Option<
    Seq<char>,
>
    decreases markers.len() - i,
{
    if i < 0 || i >= markers.len() {
        None
    } else if !bounded(markers[i]) {
        Some(bounded_error("root marker"@))
    } else if escapes[i] {
        Some("root marker "@ + debug_quoted(markers[i]) + " must stay relative"@)
    } else {
        markers_problem(markers, escapes, i + 1)
    }
}

/// The command names a workspace-data placeholder.
pub open spec fn uses_workspace_data(cmd: Seq<Seq<char>>) -> bool {
    exists|i: int| 0 <= i < cmd.len() && (cmd[i] == "{workspace_data}"@ || cmd[i] == "{workspace_config}"@)
}

/// The install hint a profile shows: its own, or one naming the profile.
pub open spec fn hint_of(id: Seq<char>, hint: Option<Seq<char>>) -> Seq<char> {
    match hint {
        Some(h) => h,
        None => "install the "@ + id + " language server and ensure it is on PATH"@,
    }
}

/// The option text of a string option.
pub open spec fn text_option(o: Option<String>) -> Option<Seq<char>> {
    match o {
        Some(s) => Some(s@),
        None => None,
    }
}

/// The verdict on a user profile, given the platform's answers on the
/// command's executable path and on which root markers leave the workspace.
pub open spec fn profile_verdict(
    id: Seq<char>,
    raw: RawProfile,
    absolute: bool,
    components: usize,
    escapes: Seq<bool>,
) -> Result<(), Seq<char>> {
    let exts = strings_view(raw.extensions@);
    let cmd = strings_view(raw.command@);
    let markers = strings_view(raw.root_markers@);
    if identifier_problem(id, "profile id"@) is Some {
        Err(identifier_problem(id, "profile id"@)->0)
    } else if identifier_problem(raw.language_id@, "language id"@) is Some {
        Err(identifier_problem(raw.language_id@, "language id"@)->0)
    } else if exts.len() == 0 || exts.len() > MAX_EXTENSIONS {
        Err("extensions must contain 1 to 32 values"@)
    } else if extensions_problem(exts, 0) is Some {
        Err(extensions_problem(exts, 0)->0)
    } else if command_check(cmd, absolute, components) is Err {
        command_check(cmd, absolute, components)
    } else if uses_workspace_data(cmd) && !raw.workspace_data {
        Err("workspace placeholders require workspace_data = true"@)
    } else if markers.len() > MAX_ROOT_MARKERS {
        Err("root_markers must contain at most 64 values"@)
    } else if markers_problem(markers, escapes, 0) is Some {
        Err(markers_problem(markers, escapes, 0)->0)
    } else if !bounded(hint_of(id, text_option(raw.install_hint))) {
        Err(bounded_error("install hint"@))
    } else {
        Ok(())
    }
}

fn check_extensions(exts: &Vec<String>) -> (r: Result<(), String>)
    requires
        forall|i: int| 0 <= i < exts@.len() ==> fits(#[trigger] exts@[i]@),
    ensures
        r is Ok <==> extensions_problem(strings_view(exts@), 0) is None,
        r matches Err(m) ==> extensions_problem(strings_view(exts@), 0) == Some(m@),
{
    let ghost es = strings_view(exts@);
    let mut i: usize = 0;
    while i < exts.len()
        invariant
            es == strings_view(exts@),
            i <= exts@.len(),
            extensions_problem(es, 0) == extensions_problem(es, i as int),
        decreases exts@.len() - i,
    {
        let e = exts[i].as_str();
        assert(es[i as int] == e@);
        let v = crate::text::chars_of(e);
        let mut ok = v.len() > 0;
        let mut k: usize = 0;
        while k < v.len()
            invariant
                v@ == e@,
                k <= v@.len(),
                ok == (v@.len() > 0 && forall|q: int|
                    0 <= q < k ==> ('a' <= #[trigger] v@[q] && v@[q] <= 'z') || ('0' <= v@[q] && v@[q] <= '9')),
            decreases v@.len() - k,
        {
            let c = v[k];
            if !(('a' <= c && c <= 'z') || ('0' <= c && c <= '9')) {
                ok = false;
            }
            k = k + 1;
        }
        if !ok {
            let mut m = String::from_str("invalid extension ");
            let shown = debug_text(e);
            m.append(shown.as_str());
            return Err(m);
        }
        assert(extension_ok(es[i as int]));
        let mut j: usize = 0;
        while j < i
            invariant
                es == strings_view(exts@),
                i < exts@.len(),
                j <= i,
                e@ == es[i as int],
                extension_ok(es[i as int]),
                extensions_problem(es, 0) == extensions_problem(es, i as int),
                forall|q: int| 0 <= q < j ==> es[q] != es[i as int],
            decreases i - j,
        {
            assert(es[j as int] == exts@[j as int]@);
            if crate::text::str_equals(exts[j].as_str(), e) {
                assert(es[j as int] == es[i as int]);
                assert(exists|q: int| 0 <= q < i && es[q] == es[i as int]);
                let mut m = String::from_str("duplicate extension ");
                let shown = debug_text(e);
                m.append(shown.as_str());
                assert(extensions_problem(es, i as int) == Some(m@));
                return Err(m);
            }
            j = j + 1;
        }
        assert(!exists|q: int| 0 <= q < i && es[q] == es[i as int]);
        i = i + 1;
    }
    Ok(())
}

/// A component that leads out of the directory it is read in.
pub open spec fn leaves_directory(k: PathComponentKind) -> bool {
    k == PathComponentKind::ParentDir || k == PathComponentKind::RootDir || k
        == PathComponentKind::Prefix
}

/// Whether a path leaves the workspace, given the platform's answers about
/// it: it is absolute, or it has a root, prefix, or parent component.
pub fn escape_verdict(absolute: bool, kinds: &Vec<PathComponentKind>) -> (b: bool)
    ensures
        b == (absolute || exists|i: int| 0 <= i < kinds@.len() && leaves_directory(#[trigger] kinds@[i])),
{
    if absolute {
        return true;
    }
    let mut i: usize = 0;
    while i < kinds.len()
        invariant
            i <= kinds@.len(),
            forall|j: int| 0 <= j < i ==> !leaves_directory(#[trigger] kinds@[j]),
        decreases kinds@.len() - i,
    {
        if kinds[i] == PathComponentKind::ParentDir || kinds[i] == PathComponentKind::RootDir
            || kinds[i] == PathComponentKind::Prefix {
            return true;
        }
        i = i + 1;
    }
    false
}

/// Whether the platform reads a root marker as leaving the workspace: an
/// absolute path, or one with a root, prefix, or parent component.
fn marker_escapes(marker: &str) -> (b: bool) {
    if path_is_absolute(marker) {
        return true;
    }
    let kinds = path_component_kinds(marker);
    escape_verdict(false, &kinds)
}

fn check_markers(markers: &Vec<String>, escapes: &Vec<bool>) -> (r: Result<(), String>)
    requires
        escapes@.len() == markers@.len(),
        forall|i: int| 0 <= i < markers@.len() ==> fits(#[trigger] markers@[i]@),
    ensures
        r is Ok <==> markers_problem(strings_view(markers@), escapes@, 0) is None,
        r matches Err(m) ==> markers_problem(strings_view(markers@), escapes@, 0) == Some(m@),
{
    let ghost ms = strings_view(markers@);
    let mut i: usize = 0;
    while i < markers.len()
        invariant
            ms == strings_view(markers@),
            escapes@.len() == markers@.len(),
            forall|q: int| 0 <= q < markers@.len() ==> fits(#[trigger] markers@[q]@),
            i <= markers@.len(),
            markers_problem(ms, escapes@, 0) == markers_problem(ms, escapes@, i as int),
        decreases markers@.len() - i,
    {
        let marker = markers[i].as_str();
        assert(ms[i as int] == marker@);
        match validate_bounded(marker, "root marker") {
            Err(m) => {
                return Err(m);
            },
            Ok(()) => {},
        }
        if escapes[i] {
            let mut m = String::from_str("root marker ");
            let shown = debug_text(marker);
            m.append(shown.as_str());
            m.append(" must stay relative");
            return Err(m);
        }
        i = i + 1;
    }
    Ok(())
}

fn strings_fit(v: &Vec<String>)
    ensures
        forall|i: int| 0 <= i < v@.len() ==> fits(#[trigger] v@[i]@),
{
    let mut i: usize = 0;
    while i < v.len()
        invariant
            i <= v@.len(),
            forall|q: int| 0 <= q < i ==> fits(#[trigger] v@[q]@),
        decreases v@.len() - i,
    {
        str_fits(v[i].as_str());
        i = i + 1;
    }
}

fn has_workspace_placeholder(cmd: &Vec<String>) -> (b: bool)
    ensures
        b == uses_workspace_data(strings_view(cmd@)),
{
    let mut i: usize = 0;
    while i < cmd.len()
        invariant
            i <= cmd@.len(),
            forall|q: int| 0 <= q < i ==> cmd@[q]@ != "{workspace_data}"@ && cmd@[q]@ != "{workspace_config}"@,
        decreases cmd@.len() - i,
    {
        let part = cmd[i].as_str();
        if crate::text::str_equals(part, "{workspace_data}") || crate::text::str_equals(
            part,
            "{workspace_config}",
        ) {
            assert(strings_view(cmd@)[i as int] == part@);
            return true;
        }
        i = i + 1;
    }
    proof {
        if uses_workspace_data(strings_view(cmd@)) {
            let q = choose|q: int| 0 <= q < strings_view(cmd@).len() && (strings_view(cmd@)[q]
                == "{workspace_data}"@ || strings_view(cmd@)[q] == "{workspace_config}"@);
            assert(cmd@[q]@ == strings_view(cmd@)[q]);
        }
    }
    false
}

/// Checks a user profile against the given platform answers.
pub fn profile_verdict_exec(
    id: &str,
    raw: &RawProfile,
    absolute: bool,
    components: usize,
    escapes: &Vec<bool>,
) -> (r: Result<(), String>)
    requires
        escapes@.len() == raw.root_markers@.len(),
    ensures
        match r {
            Ok(()) => profile_verdict(id@, *raw, absolute, components, escapes@) is Ok,
            Err(m) => profile_verdict(id@, *raw, absolute, components, escapes@) == Err::<
                (),
                Seq<char>,
            >(m@),
        },
{
    str_fits(id);
    str_fits(raw.language_id.as_str());
    strings_fit(&raw.extensions);
    strings_fit(&raw.command);
    strings_fit(&raw.root_markers);
    match validate_identifier(id, "profile id") {
        Err(m) => {
            return Err(m);
        },
        Ok(()) => {},
    }
    match validate_identifier(raw.language_id.as_str(), "language id") {
        Err(m) => {
            return Err(m);
        },
        Ok(()) => {},
    }
    if raw.extensions.len() == 0 || raw.extensions.len() > MAX_EXTENSIONS {
        return Err(String::from_str("extensions must contain 1 to 32 values"));
    }
    match check_extensions(&raw.extensions) {
        Err(m) => {
            return Err(m);
        },
        Ok(()) => {},
    }
    proof {
        assert(words_of(raw.command@) =~= strings_view(raw.command@));
    }
    match command_verdict(raw.command.as_slice(), absolute, components) {
        Err(m) => {
            return Err(m);
        },
        Ok(()) => {},
    }
    if has_workspace_placeholder(&raw.command) && !raw.workspace_data {
        return Err(String::from_str("workspace placeholders require workspace_data = true"));
    }
    if raw.root_markers.len() > MAX_ROOT_MARKERS {
        return Err(String::from_str("root_markers must contain at most 64 values"));
    }
    match check_markers(&raw.root_markers, escapes) {
        Err(m) => {
            return Err(m);
        },
        Ok(()) => {},
    }
    let hint = install_hint_for(id, &raw.install_hint);
    str_fits(hint.as_str());
    match validate_bounded(hint.as_str(), "install hint") {
        Err(m) => Err(m),
        Ok(()) => Ok(()),
    }
}

fn install_hint_for(id: &str, hint: &Option<String>) -> (h: String)
    ensures
        h@ == hint_of(
            id@,
            match hint {
                Some(s) => Some(s@),
                None => None,
            },
        ),
{
    match hint {
        Some(s) => s.clone(),
        None => String::from_str("install the ").concat(id).concat(
            " language server and ensure it is on PATH",
        ),
    }
}

/// The profile a valid user profile becomes.
pub open spec fn profile_from(p: ServerProfile, id: Seq<char>, raw: RawProfile) -> bool {
    &&& p.id@ == id
    &&& p.language_id@ == raw.language_id@
    &&& strings_view(p.extensions@) == strings_view(raw.extensions@)
    &&& strings_view(p.command@) == strings_view(raw.command@)
    &&& strings_view(p.root_markers@) == strings_view(raw.root_markers@)
    &&& p.initialization_options@ == match raw.initialization_options {
        Some(o) => o@,
        None => "{}"@,
    }
    &&& p.workspace_data == raw.workspace_data
    &&& p.install_hint@ == hint_of(id, text_option(raw.install_hint))
}

/// Validates a user profile; the platform decides whether the executable
/// path is absolute, how many components it has, and which root markers
/// leave the workspace.
pub fn validate_profile(id: &str, raw: &RawProfile) -> (r: Result<ServerProfile, String>)
    ensures
        exists|absolute: bool, components: usize, escapes: Seq<bool>|
            escapes.len() == raw.root_markers@.len() && #[trigger] profile_verdict(
                id@,
                *raw,
                absolute,
                components,
                escapes,
            ) == match r {
                Ok(_) => Ok::<(), Seq<char>>(()),
                Err(m) => Err(m@),
            },
        r matches Ok(p) ==> profile_from(p, id@, *raw),
{
    let (absolute, components) = if raw.command.len() > 0 {
        (path_is_absolute(raw.command[0].as_str()), path_component_count(raw.command[0].as_str()))
    } else {
        (true, 1)
    };
    let mut escapes: Vec<bool> = Vec::new();
    let mut i: usize = 0;
    while i < raw.root_markers.len()
        invariant
            i <= raw.root_markers@.len(),
            escapes@.len() == i,
        decreases raw.root_markers@.len() - i,
    {
        escapes.push(marker_escapes(raw.root_markers[i].as_str()));
        i = i + 1;
    }
    match profile_verdict_exec(id, raw, absolute, components, &escapes) {
        Err(m) => {
            assert(profile_verdict(id@, *raw, absolute, components, escapes@) == Err::<(), Seq<char>>(m@));
            Err(m)
        },
        Ok(()) => {
            let install_hint = install_hint_for(id, &raw.install_hint);
            let initialization_options = match &raw.initialization_options {
                Some(o) => o.clone(),
                None => "{}".to_string(),
            };
            assert(profile_verdict(id@, *raw, absolute, components, escapes@) == Ok::<(), Seq<char>>(()));
            let p = ServerProfile {
                id: id.to_string(),
                language_id: raw.language_id.clone(),
                extensions: copy_strings(&raw.extensions),
                command: copy_strings(&raw.command),
                root_markers: copy_strings(&raw.root_markers),
                initialization_options,
                workspace_data: raw.workspace_data,
                install_hint,
            };
            proof {
                vstd::string::to_string_from_display_ensures_for_str(id, p.id);
            }
            Ok(p)
        },
    }
}

/// The first profile named `id`.
pub open spec fn profile_named(profiles: Seq<ServerProfile>, id: Seq<char>) -> Option<ServerProfile>
    decreases profiles.len(),
{
    if profiles.len() == 0 {
        None
    } else if profiles[0].id@ == id {
        Some(profiles[0])
    } else {
        profile_named(profiles.drop_first(), id)
    }
}

/// Each identifier once, in order of first appearance.
pub open spec fn distinct_ids(ids: Seq<Seq<char>>) -> Seq<Seq<char>>
    decreases ids.len(),
{
    if ids.len() == 0 {
        Seq::empty()
    } else {
        let d = distinct_ids(ids.drop_last());
        if d.contains(ids.last()) {
            d
        } else {
            d.push(ids.last())
        }
    }
}

/// The first requested identifier that names no profile.
pub open spec fn first_unknown(ids: Seq<Seq<char>>, profiles: Seq<ServerProfile>) -> Option<Seq<char>>
    decreases ids.len(),
{
    if ids.len() == 0 {
        None
    } else {
        match first_unknown(ids.drop_last(), profiles) {
            Some(u) => Some(u),
            None => if profile_named(profiles, ids.last()) is None {
                Some(ids.last())
            } else {
                None
            },
        }
    }
}

/// `p` is the profile `profiles` names `id`.
pub open spec fn selected_as(profiles: Seq<ServerProfile>, id: Seq<char>, p: ServerProfile) -> bool {
    match profile_named(profiles, id) {
        Some(q) => same_profile(p, q),
        None => false,
    }
}

/// The error for a requested profile that does not exist.
pub open spec fn unknown_profile_text(id: Seq<char>) -> Seq<char> {
    "unknown LSP profile "@ + debug_quoted(id) + "; choose a built-in or configured profile"@
}

/// `detail` reports the first requested identifier that names no profile.
pub open spec fn reports_unknown(ids: Seq<Seq<char>>, profiles: Seq<ServerProfile>, detail: Seq<char>) -> bool {
    match first_unknown(ids, profiles) {
        Some(u) => detail == unknown_profile_text(u),
        None => false,
    }
}

fn find_profile(profiles: &Vec<ServerProfile>, id: &str) -> (r: Option<usize>)
    ensures
        r matches Some(k) ==> k < profiles@.len() && profile_named(profiles@, id@) == Some(
            profiles@[k as int],
        ) && profiles@[k as int].id@ == id@ && forall|j: int| 0 <= j < k ==> profiles@[j].id@ != id@,
        r is None ==> profile_named(profiles@, id@) is None,
{
    let mut k: usize = 0;
    assert(profiles@.skip(0) =~= profiles@);
    while k < profiles.len()
        invariant
            k <= profiles@.len(),
            profile_named(profiles@, id@) == profile_named(profiles@.skip(k as int), id@),
            forall|j: int| 0 <= j < k ==> profiles@[j].id@ != id@,
        decreases profiles@.len() - k,
    {
        assert(profiles@.skip(k as int)[0] == profiles@[k as int]);
        assert(profiles@.skip(k as int).drop_first() =~= profiles@.skip(k + 1));
        if crate::text::str_equals(profiles[k].id.as_str(), id) {
            return Some(k);
        }
        k = k + 1;
    }
    false_to_none(profiles, id)
}

fn false_to_none(profiles: &Vec<ServerProfile>, id: &str) -> (r: Option<usize>)
    requires
        profile_named(profiles@.skip(profiles@.len() as int), id@) == profile_named(profiles@, id@),
    ensures
        r is None,
        profile_named(profiles@, id@) is None,
{
    assert(profiles@.skip(profiles@.len() as int).len() == 0);
    None
}

proof fn lemma_distinct_step(ids: Seq<Seq<char>>, i: int)
    requires
        0 <= i < ids.len(),
    ensures
        distinct_ids(ids.take(i + 1)) == if distinct_ids(ids.take(i)).contains(ids[i]) {
            distinct_ids(ids.take(i))
        } else {
            distinct_ids(ids.take(i)).push(ids[i])
        },
{
    assert(ids.take(i + 1).drop_last() =~= ids.take(i));
}

proof fn lemma_unknown_step(ids: Seq<Seq<char>>, profiles: Seq<ServerProfile>, i: int)
    requires
        0 <= i < ids.len(),
    ensures
        first_unknown(ids.take(i + 1), profiles) == match first_unknown(ids.take(i), profiles) {
            Some(u) => Some(u),
            None => if profile_named(profiles, ids[i]) is None {
                Some(ids[i])
            } else {
                None
            },
        },
{
    assert(ids.take(i + 1).drop_last() =~= ids.take(i));
}

/// The enabled profiles, in request order and each once: the profile that
/// `profiles` names for each requested identifier; the first unknown
/// identifier is an error about the configuration file at `path`.
pub fn selected_profiles(enabled: &[String], profiles: &Vec<ServerProfile>, path: Option<PathBuf>) -> (r:
    Result<Vec<ServerProfile>, LspConfigError>)
    ensures
        first_unknown(strings_view(enabled@), profiles@) is None <==> r is Ok,
        r matches Ok(v) ==> v@.len() == distinct_ids(strings_view(enabled@)).len() && forall|k: int|
            0 <= k < v@.len() ==> selected_as(profiles@, distinct_ids(strings_view(enabled@))[k], #[trigger] v@[k]),
        r matches Err(e) ==> e.path == path && reports_unknown(strings_view(enabled@), profiles@, e.detail@),
{
    let ghost ids = strings_view(enabled@);
    let mut selected: Vec<ServerProfile> = Vec::new();
    let mut chosen: Vec<String> = Vec::new();
    let mut i: usize = 0;
    while i < enabled.len()
        invariant
            ids == strings_view(enabled@),
            i <= enabled@.len(),
            first_unknown(ids.take(i as int), profiles@) is None,
            strings_view(chosen@) == distinct_ids(ids.take(i as int)),
            selected@.len() == chosen@.len(),
            forall|k: int|
                0 <= k < selected@.len() ==> selected_as(profiles@, strings_view(chosen@)[k], #[trigger] selected@[k]),
        decreases enabled@.len() - i,
    {
        let id = enabled[i].as_str();
        assert(ids[i as int] == id@);
        proof {
            lemma_distinct_step(ids, i as int);
            lemma_unknown_step(ids, profiles@, i as int);
        }
        let mut seen = false;
        let mut c: usize = 0;
        while c < chosen.len()
            invariant
                c <= chosen@.len(),
                seen == exists|q: int| 0 <= q < c && chosen@[q]@ == id@,
            decreases chosen@.len() - c,
        {
            if crate::text::str_equals(chosen[c].as_str(), id) {
                seen = true;
            }
            c = c + 1;
        }
        proof {
            if seen {
                let q = choose|q: int| 0 <= q < chosen@.len() && chosen@[q]@ == id@;
                assert(strings_view(chosen@)[q] == id@);
                assert(selected_as(profiles@, strings_view(chosen@)[q], selected@[q]));
                assert(profile_named(profiles@, id@) is Some);
            }
            if strings_view(chosen@).contains(id@) {
                let q = choose|q: int| 0 <= q < strings_view(chosen@).len() && strings_view(chosen@)[q]
                    == id@;
                assert(chosen@[q]@ == id@);
            }
        }
        if !seen {
            match find_profile(profiles, id) {
                None => {
                    let mut detail = String::from_str("unknown LSP profile ");
                    let shown = debug_text(id);
                    detail.append(shown.as_str());
                    detail.append("; choose a built-in or configured profile");
                    proof {
                        assert(first_unknown(ids.take(i + 1), profiles@) == Some(id@));
                        lemma_unknown_prefix(ids, profiles@, i + 1);
                    }
                    return Err(config_error(path, detail));
                },
                Some(k) => {
                    let ghost before = selected@;
                    let ghost before_chosen = chosen@;
                    selected.push(profiles[k].duplicate());
                    let owned = id.to_string();
                    proof {
                        vstd::string::to_string_from_display_ensures_for_str(id, owned);
                    }
                    chosen.push(owned);
                    proof {
                        assert(strings_view(chosen@) =~= strings_view(before_chosen).push(id@));
                        assert forall|q: int| 0 <= q < selected@.len() implies selected_as(
                            profiles@,
                            strings_view(chosen@)[q],
                            #[trigger] selected@[q],
                        ) by {
                            if q < before.len() {
                                assert(selected@[q] == before[q]);
                                assert(strings_view(chosen@)[q] == strings_view(before_chosen)[q]);
                            }
                        }
                    }
                },
            }
        }
        i = i + 1;
    }
    assert(ids.take(enabled@.len() as int) =~= ids);
    Ok(selected)
}

proof fn lemma_unknown_prefix(ids: Seq<Seq<char>>, profiles: Seq<ServerProfile>, n: int)
    requires
        0 <= n <= ids.len(),
        first_unknown(ids.take(n), profiles) is Some,
    ensures
        first_unknown(ids, profiles) == first_unknown(ids.take(n), profiles),
    decreases ids.len() - n,
{
    if n < ids.len() {
        lemma_unknown_step(ids, profiles, n);
        lemma_unknown_prefix(ids, profiles, n + 1);
    } else {
        assert(ids.take(n) =~= ids);
    }
}

impl LspConfig {
    /// The configuration that enables the requested profiles, in request
    /// order and each once, from the known `profiles`.
    pub fn select(enabled: &[String], profiles: &Vec<ServerProfile>, path: Option<PathBuf>) -> (r:
        Result<LspConfig, LspConfigError>)
        ensures
            first_unknown(strings_view(enabled@), profiles@) is None <==> r is Ok,
            r matches Ok(c) ==> c.profiles@.len() == distinct_ids(strings_view(enabled@)).len()
                && forall|k: int|
                0 <= k < c.profiles@.len() ==> selected_as(profiles@, distinct_ids(strings_view(enabled@))[k], #[trigger] c.profiles@[k]),
            r matches Err(e) ==> e.path == path && reports_unknown(strings_view(enabled@), profiles@, e.detail@),
    {
        match selected_profiles(enabled, profiles, path) {
            Ok(v) => Ok(LspConfig { profiles: v }),
            Err(e) => Err(e),
        }
    }
}

proof fn lemma_named_update(ps: Seq<ServerProfile>, k: int, p: ServerProfile, x: Seq<char>)
    requires
        0 <= k < ps.len(),
        ps[k].id@ == p.id@,
        forall|j: int| 0 <= j < k ==> ps[j].id@ != p.id@,
    ensures
        profile_named(ps.update(k, p), x) == if x == p.id@ {
            Some(p)
        } else {
            profile_named(ps, x)
        },
    decreases ps.len(),
{
    assert(ps.update(k, p)[0] == if k == 0 { p } else { ps[0] });
    if k > 0 {
        assert(ps[0].id@ != p.id@);
        assert(ps.update(k, p).drop_first() =~= ps.drop_first().update(k - 1, p));
        assert forall|j: int| 0 <= j < k - 1 implies ps.drop_first()[j].id@ != p.id@ by {
            assert(ps.drop_first()[j] == ps[j + 1]);
        }
        lemma_named_update(ps.drop_first(), k - 1, p, x);
    } else {
        assert(ps.update(0, p).drop_first() =~= ps.drop_first());
    }
}

proof fn lemma_named_push(ps: Seq<ServerProfile>, p: ServerProfile, x: Seq<char>)
    ensures
        profile_named(ps.push(p), x) == match profile_named(ps, x) {
            Some(q) => Some(q),
            None => if x == p.id@ {
                Some(p)
            } else {
                None
            },
        },
    decreases ps.len(),
{
    let q = ps.push(p);
    if ps.len() > 0 {
        assert(q[0] == ps[0]);
        assert(q.drop_first() =~= ps.drop_first().push(p));
        lemma_named_push(ps.drop_first(), p, x);
        if ps[0].id@ == x {
            assert(profile_named(q, x) == Some(ps[0]));
            assert(profile_named(ps, x) == Some(ps[0]));
        } else {
            assert(profile_named(q, x) == profile_named(q.drop_first(), x));
            assert(profile_named(ps, x) == profile_named(ps.drop_first(), x));
        }
    } else {
        assert(q[0] == p);
        assert(q.drop_first() =~= Seq::<ServerProfile>::empty());
        assert(profile_named(ps, x) is None);
        if p.id@ != x {
            assert(profile_named(q, x) == profile_named(q.drop_first(), x));
        }
    }
}

/// Adds a profile, replacing the one with the same identifier if any.
fn insert_profile(profiles: &mut Vec<ServerProfile>, p: ServerProfile)
    ensures
        forall|x: Seq<char>|
            #[trigger] profile_named(final(profiles)@, x) == if x == p.id@ {
                Some(p)
            } else {
                profile_named(old(profiles)@, x)
            },
        final(profiles)@.len() == old(profiles)@.len() + if profile_named(old(profiles)@, p.id@) is Some {
            0int
        } else {
            1int
        },
{
    let ghost before = profiles@;
    let ghost pp = p;
    match find_profile(profiles, p.id.as_str()) {
        Some(k) => {
            profiles.set(k, p);
            proof {
                assert forall|x: Seq<char>| #[trigger] profile_named(profiles@, x) == if x == pp.id@ {
                    Some(pp)
                } else {
                    profile_named(before, x)
                } by {
                    lemma_named_update(before, k as int, pp, x);
                }
            }
        },
        None => {
            profiles.push(p);
            proof {
                assert forall|x: Seq<char>| #[trigger] profile_named(profiles@, x) == if x == pp.id@ {
                    Some(pp)
                } else {
                    profile_named(before, x)
                } by {
                    lemma_named_push(before, pp, x);
                }
            }
        },
    }
}

/// Some answers of the platform make the entry `id`, `raw` a valid profile.
pub open spec fn accepted(id: Seq<char>, raw: RawProfile) -> bool {
    exists|absolute: bool, components: usize, escapes: Seq<bool>|
        escapes.len() == raw.root_markers@.len() && #[trigger] profile_verdict(
            id,
            raw,
            absolute,
            components,
            escapes,
        ) == Ok::<(), Seq<char>>(())
}

/// Some answers of the platform reject the entry `id`, `raw` with `m`.
pub open spec fn rejected_with(id: Seq<char>, raw: RawProfile, m: Seq<char>) -> bool {
    exists|absolute: bool, components: usize, escapes: Seq<bool>|
        escapes.len() == raw.root_markers@.len() && #[trigger] profile_verdict(
            id,
            raw,
            absolute,
            components,
            escapes,
        ) == Err::<(), Seq<char>>(m)
}

/// How many identifiers of `ids` name no profile of `start` and none of
/// the identifiers before them: the profiles that merging `ids` adds.
pub open spec fn added_names(start: Seq<ServerProfile>, ids: Seq<Seq<char>>) -> int
    decreases ids.len(),
{
    if ids.len() == 0 {
        0
    } else {
        added_names(start, ids.drop_last()) + if profile_named(start, ids.last()) is Some
            || ids.drop_last().contains(ids.last()) {
            0int
        } else {
            1int
        }
    }
}

/// The number of profiles after merging entries with identifiers `ids`
/// into `start`.
pub open spec fn merged_len(start: Seq<ServerProfile>, ids: Seq<Seq<char>>) -> int {
    start.len() + added_names(start, ids)
}

/// The identifiers of user profile entries.
pub open spec fn entry_ids(servers: Seq<(String, RawProfile)>) -> Seq<Seq<char>> {
    servers.map_values(|e: (String, RawProfile)| e.0@)
}

/// The entry `id`, `raw` is valid whatever the platform answers about its
/// command and root markers.
pub open spec fn surely_accepted(id: Seq<char>, raw: RawProfile) -> bool {
    forall|absolute: bool, components: usize, escapes: Seq<bool>|
        escapes.len() == raw.root_markers@.len() ==> #[trigger] profile_verdict(
            id,
            raw,
            absolute,
            components,
            escapes,
        ) == Ok::<(), Seq<char>>(())
}

/// Merging a prefix of the identifiers adds no more profiles than merging
/// all of them.
pub proof fn lemma_added_names_prefix(start: Seq<ServerProfile>, ids: Seq<Seq<char>>, k: int)
    requires
        0 <= k <= ids.len(),
    ensures
        added_names(start, ids.take(k)) <= added_names(start, ids),
    decreases ids.len(),
{
    if k == ids.len() {
        assert(ids.take(k) =~= ids);
    } else {
        lemma_added_names_prefix(start, ids.drop_last(), k);
        assert(ids.drop_last().take(k) =~= ids.take(k));
    }
}

/// Entries before `k` were valid and kept the total within the limit.
pub open spec fn merged_before(start: Seq<ServerProfile>, servers: Seq<(String, RawProfile)>, k: int) -> bool {
    forall|j: int|
        0 <= j < k ==> accepted(#[trigger] entry_ids(servers)[j], servers[j].1) && merged_len(
            start,
            entry_ids(servers).take(j + 1),
        ) <= MAX_PROFILES
}

/// Merging stopped at entry `k` with `detail`: the entry is invalid, or
/// adding it passed `MAX_PROFILES`.
pub open spec fn merge_failed_at(
    start: Seq<ServerProfile>,
    servers: Seq<(String, RawProfile)>,
    k: int,
    detail: Seq<char>,
) -> bool {
    let id = entry_ids(servers)[k];
    let head = "profile "@ + debug_quoted(id) + ": "@;
    &&& merged_before(start, servers, k)
    &&& ((head.is_prefix_of(detail) && rejected_with(
        id,
        servers[k].1,
        detail.subrange(head.len() as int, detail.len() as int),
    )) || (accepted(id, servers[k].1) && merged_len(start, entry_ids(servers).take(k + 1))
        > MAX_PROFILES && detail == "too many LSP server profiles"@))
}

/// Validates the user profiles of the configuration file at `path`, in
/// order, and adds each to `profiles`, replacing a profile with the same
/// identifier; more than `MAX_PROFILES` profiles in all is an error.
pub fn merge_user_profiles(
    path: &PathBuf,
    servers: &Vec<(String, RawProfile)>,
    profiles: &mut Vec<ServerProfile>,
) -> (r: Result<(), LspConfigError>)
    ensures
        r matches Err(e) ==> e.path == Some(*path) && exists|k: int|
            0 <= k < servers@.len() && #[trigger] merge_failed_at(
                old(profiles)@,
                servers@,
                k,
                e.detail@,
            ),
        (forall|j: int|
            0 <= j < servers@.len() ==> surely_accepted(
                #[trigger] entry_ids(servers@)[j],
                servers@[j].1,
            )) && merged_len(old(profiles)@, entry_ids(servers@)) <= MAX_PROFILES ==> r is Ok,
        r is Ok ==> merged_before(old(profiles)@, servers@, servers@.len() as int),
        r is Ok ==> final(profiles)@.len() == merged_len(old(profiles)@, entry_ids(servers@)),
        r is Ok ==> forall|k: int|
            0 <= k < servers@.len() && (forall|j: int|
                k < j < servers@.len() ==> entry_ids(servers@)[j] != entry_ids(servers@)[k])
                ==> (#[trigger] profile_named(final(profiles)@, entry_ids(servers@)[k]) matches Some(
                p,
            ) && profile_from(p, entry_ids(servers@)[k], servers@[k].1)),
        r is Ok ==> forall|x: Seq<char>|
            !entry_ids(servers@).contains(x) ==> #[trigger] profile_named(final(profiles)@, x)
                == profile_named(old(profiles)@, x),
{
    let ghost ids = entry_ids(servers@);
    let ghost start = profiles@;
    let n = servers.len();
    let mut i: usize = 0;
    assert(ids.take(0) =~= Seq::<Seq<char>>::empty());
    while i < n
        invariant
            n == ids.len(),
            n == servers@.len(),
            ids == entry_ids(servers@),
            start == old(profiles)@,
            i <= n,
            merged_before(start, servers@, i as int),
            profiles@.len() == merged_len(start, ids.take(i as int)),
            forall|k: int| 0 <= k < i ==> #[trigger] profile_named(profiles@, ids[k]) is Some,
            forall|k: int|
                0 <= k < i && (forall|j: int| k < j < i ==> ids[j] != ids[k]) ==> (
                #[trigger] profile_named(profiles@, ids[k]) matches Some(p) && profile_from(
                    p,
                    ids[k],
                    servers@[k].1,
                )),
            forall|x: Seq<char>|
                !ids.take(i as int).contains(x) ==> #[trigger] profile_named(profiles@, x)
                    == profile_named(start, x),
        decreases n - i,
    {
        let id = servers[i].0.as_str();
        let raw = &servers[i].1;
        assert(ids[i as int] == id@);
        let shown = debug_text(id);
        match validate_profile(id, raw) {
            Err(detail) => {
                let mut message = String::from_str("profile ");
                message.append(shown.as_str());
                message.append(": ");
                message.append(detail.as_str());
                proof {
                    let head = "profile "@ + debug_quoted(ids[i as int]) + ": "@;
                    assert(message@ =~= head + detail@);
                    assert(head.is_prefix_of(message@));
                    assert(message@.subrange(head.len() as int, message@.len() as int) =~= detail@);
                    assert(rejected_with(id@, *raw, detail@));
                    assert(merge_failed_at(start, servers@, i as int, message@));
                    assert(!surely_accepted(ids[i as int], servers@[i as int].1));
                }
                let err = config_error(Some(crate::paths::copy_path(path)), message);
                proof {
                    assert(merge_failed_at(start, servers@, i as int, err.detail@));
                }
                return Err(err);
            },
            Ok(profile) => {
                let ghost prev = profiles@;
                let ghost added = profile;
                proof {
                    assert(accepted(id@, *raw));
                    assert(ids.take(i + 1).drop_last() =~= ids.take(i as int));
                    assert(ids.take(i + 1).last() == ids[i as int]);
                    if profile_named(prev, ids[i as int]) is Some {
                        if !ids.take(i as int).contains(ids[i as int]) {
                            assert(profile_named(start, ids[i as int]) is Some);
                        }
                    } else {
                        if ids.take(i as int).contains(ids[i as int]) {
                            let q = choose|q: int| 0 <= q < ids.take(i as int).len() && ids.take(i as int)[q] == ids[i as int];
                            assert(profile_named(prev, ids[q]) is Some);
                        }
                    }
                }
                insert_profile(profiles, profile);
                if profiles.len() > MAX_PROFILES {
                    proof {
                        lemma_added_names_prefix(start, ids, i + 1);
                        assert(merge_failed_at(start, servers@, i as int, "too many LSP server profiles"@));
                    }
                    let err = config_error(
                        Some(crate::paths::copy_path(path)),
                        String::from_str("too many LSP server profiles"),
                    );
                    proof {
                        assert(merge_failed_at(start, servers@, i as int, err.detail@));
                    }
                    return Err(err);
                }
                proof {
                    assert(added.id@ == ids[i as int]);
                    assert forall|k: int| 0 <= k < i + 1 implies #[trigger] profile_named(
                        profiles@,
                        ids[k],
                    ) is Some by {
                        if ids[k] != added.id@ {
                            assert(profile_named(prev, ids[k]) is Some);
                        }
                    }
                    assert forall|k: int|
                        0 <= k < i + 1 && (forall|j: int| k < j < i + 1 ==> ids[j] != ids[k])
                        implies (#[trigger] profile_named(profiles@, ids[k]) matches Some(p)
                        && profile_from(p, ids[k], servers@[k].1)) by {
                        if k < i {
                            assert(ids[i as int] != ids[k]);
                        }
                    }
                    assert forall|x: Seq<char>| !ids.take(i + 1).contains(x) implies #[trigger] profile_named(
                        profiles@,
                        x,
                    ) == profile_named(start, x) by {
                        assert(ids.take(i + 1)[i as int] == ids[i as int]);
                        if ids.take(i as int).contains(x) {
                            let q = choose|q: int| 0 <= q < ids.take(i as int).len() && ids.take(i as int)[q] == x;
                            assert(ids.take(i + 1)[q] == x);
                        }
                    }
                    assert forall|j: int| 0 <= j < i + 1 implies accepted(
                        #[trigger] entry_ids(servers@)[j],
                        servers@[j].1,
                    ) && merged_len(start, entry_ids(servers@).take(j + 1)) <= MAX_PROFILES by {
                        if j < i {
                            assert(merged_before(start, servers@, i as int));
                        }
                    }
                }
            },
        }
        i = i + 1;
    }
    assert(ids.take(n as int) =~= ids);
    Ok(())
}

/// One word of a server command line: literal text, or a path that a
/// placeholder stands for.
#[derive(Debug)]
pub enum CommandPart {
    Text(String),
    Path(PathBuf),
}

/// Whether `part` is what a command word becomes: the workspace
/// configuration directory is the data directory joined with
/// `configuration` by the platform, so only its kind is stated.
pub open spec fn expanded(
    word: Seq<char>,
    workspace_root: PathBuf,
    workspace_data: Option<PathBuf>,
    cache_dir: PathBuf,
    part: CommandPart,
) -> bool {
    if word == "{workspace_root}"@ {
        part == CommandPart::Path(workspace_root)
    } else if word == "{workspace_data}"@ {
        workspace_data matches Some(d) && part == CommandPart::Path(d)
    } else if word == "{workspace_config}"@ {
        workspace_data is Some && part is Path
    } else if word == "{cache_dir}"@ {
        part == CommandPart::Path(cache_dir)
    } else {
        part matches CommandPart::Text(t) && t@ == word
    }
}

/// Whether a word needs workspace data.
pub open spec fn needs_data(word: Seq<char>) -> bool {
    word == "{workspace_data}"@ || word == "{workspace_config}"@
}

fn expand_part(
    word: &str,
    workspace_root: &PathBuf,
    workspace_data: Option<&PathBuf>,
    workspace_config: &Option<PathBuf>,
    cache_dir: &PathBuf,
) -> (r: Result<CommandPart, LspError>)
    requires
        workspace_data is Some <==> workspace_config is Some,
    ensures
        r matches Ok(part) ==> expanded(
            word@,
            *workspace_root,
            match workspace_data {
                Some(d) => Some(*d),
                None => None,
            },
            *cache_dir,
            part,
        ),
        r is Err <==> (needs_data(word@) && workspace_data is None),
        r matches Err(e) ==> e == LspError::Process(e->Process_0) && e->Process_0@
            == "profile requires workspace data"@,
{
    proof {
        reveal_strlit("{workspace_root}");
        reveal_strlit("{workspace_data}");
        reveal_strlit("{workspace_config}");
        reveal_strlit("{cache_dir}");
    }
    if crate::text::str_equals(word, "{workspace_root}") {
        assert("{workspace_root}"@[11] != "{workspace_data}"@[11]);
        assert("{workspace_root}"@.len() != "{workspace_config}"@.len());
        Ok(CommandPart::Path(crate::paths::copy_path(workspace_root)))
    } else if crate::text::str_equals(word, "{workspace_data}") {
        match workspace_data {
            Some(d) => Ok(CommandPart::Path(crate::paths::copy_path(d))),
            None => Err(LspError::Process(String::from_str("profile requires workspace data"))),
        }
    } else if crate::text::str_equals(word, "{workspace_config}") {
        match workspace_config {
            Some(c) => Ok(CommandPart::Path(crate::paths::copy_path(c))),
            None => Err(LspError::Process(String::from_str("profile requires workspace data"))),
        }
    } else if crate::text::str_equals(word, "{cache_dir}") {
        assert("{cache_dir}"@.len() != "{workspace_data}"@.len());
        assert("{cache_dir}"@.len() != "{workspace_config}"@.len());
        Ok(CommandPart::Path(crate::paths::copy_path(cache_dir)))
    } else {
        let t = word.to_string();
        proof {
            vstd::string::to_string_from_display_ensures_for_str(word, t);
        }
        Ok(CommandPart::Text(t))
    }
}

impl ServerProfile {
    /// The executable and arguments with placeholders replaced: the
    /// workspace root, the workspace data directory and its `configuration`
    /// subdirectory, and the cache directory. A profile that names workspace
    /// data fails without it.
    pub fn command_parts(
        &self,
        workspace_root: &PathBuf,
        workspace_data: Option<&PathBuf>,
        cache_dir: &PathBuf,
    ) -> (r: Result<(CommandPart, Vec<CommandPart>), LspError>)
        requires
            self.command@.len() > 0,
        ensures
            r is Err <==> (workspace_data is None && exists|i: int|
                0 <= i < self.command@.len() && needs_data(#[trigger] self.command@[i]@)),
            r matches Ok((exe, args)) ==> args@.len() + 1 == self.command@.len() && expanded(
                self.command@[0]@,
                *workspace_root,
                match workspace_data {
                    Some(d) => Some(*d),
                    None => None,
                },
                *cache_dir,
                exe,
            ) && forall|i: int|
                0 <= i < args@.len() ==> expanded(
                    self.command@[i + 1]@,
                    *workspace_root,
                    match workspace_data {
                        Some(d) => Some(*d),
                        None => None,
                    },
                    *cache_dir,
                    #[trigger] args@[i],
                ),
    {
        let config: Option<PathBuf> = match workspace_data {
            Some(d) => Some(crate::paths::join_path(d, "configuration")),
            None => None,
        };
        let mut parts: Vec<CommandPart> = Vec::new();
        let mut i: usize = 0;
        while i < self.command.len()
            invariant
                i <= self.command@.len(),
                parts@.len() == i,
                config is Some <==> workspace_data is Some,
                forall|k: int|
                    0 <= k < i ==> expanded(
                        self.command@[k]@,
                        *workspace_root,
                        match workspace_data {
                            Some(d) => Some(*d),
                            None => None,
                        },
                        *cache_dir,
                        #[trigger] parts@[k],
                    ),
                forall|k: int| 0 <= k < i ==> !(needs_data(#[trigger] self.command@[k]@) && workspace_data is None),
            decreases self.command@.len() - i,
        {
            match expand_part(self.command[i].as_str(), workspace_root, workspace_data, &config, cache_dir) {
                Ok(part) => {
                    parts.push(part);
                },
                Err(e) => {
                    return Err(e);
                },
            }
            i = i + 1;
        }
        let ghost all = parts@;
        let exe = parts.remove(0);
        proof {
            assert forall|k: int| 0 <= k < parts@.len() implies expanded(
                self.command@[k + 1]@,
                *workspace_root,
                match workspace_data {
                    Some(d) => Some(*d),
                    None => None,
                },
                *cache_dir,
                #[trigger] parts@[k],
            ) by {
                assert(parts@[k] == all[k + 1]);
            }
        }
        Ok((exe, parts))
    }
}

} // verus!
