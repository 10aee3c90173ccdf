//! How the language-server manager treats what servers send back: document
//! URIs are shown sanitized, and only `file:` URIs inside the repository
//! become repository paths.

use crate::domain::path::{valid_repo_path, RepoPath, RepositoryRoot};
use crate::lsp::session::{sanitize, sanitized, WireRange};
use crate::lsp::PositionEncoding;
use bstr::{ByteSlice, ByteVec};
use url::Url;
use vstd::prelude::*;

verus! {

/// A document URI as shown in notices: no control characters, at most 256
/// characters.
pub fn sanitize_uri(uri: &str) -> (s: String)
    ensures
        s@ == sanitized(uri@, 256),
{
    sanitize(uri, 256)
}

/// Whether `url::Url::parse` accepts a string as an absolute URL.
pub uninterp spec fn url_parses(uri: Seq<char>) -> bool;

/// The scheme that `url::Url::scheme` reports for the URL that
/// `url::Url::parse` reads from `uri`.
pub uninterp spec fn scheme_of(uri: Seq<char>) -> Seq<char>;

/// The path bytes of the file that the URL read from `uri` names, as
/// `url::Url::to_file_path` gives it and `bstr::ByteVec::from_path_buf`
/// stores it; `None` when the URL names no local file.
pub uninterp spec fn file_path_of(uri: Seq<char>) -> Option<Seq<u8>>;

/// The bytes of `path` below `root`, as `std::path::Path::strip_prefix`
/// gives them; `None` when `path` does not lie under `root`.
pub uninterp spec fn relative_to(path: Seq<u8>, root: Seq<u8>) -> Option<Seq<u8>>;

/// Calls `url::Url::parse` and then `url::Url::scheme`: `None` when the
/// text is no absolute URL, else its scheme.
#[verifier::external_body]
fn url_scheme(uri: &str) -> (s: Option<String>)
    ensures
        s is Some <==> url_parses(uri@),
        s matches Some(t) ==> t@ == scheme_of(uri@),
{
    Url::parse(uri).ok().map(|url| url.scheme().to_string())
}

/// Calls `url::Url::parse`, `url::Url::to_file_path` and
/// `bstr::ByteVec::from_path_buf`: the path bytes of the local file a URL
/// names.
#[verifier::external_body]
fn url_file_path(uri: &str) -> (p: Option<Vec<u8>>)
    ensures
        !url_parses(uri@) ==> p is None,
        url_parses(uri@) ==> match p {
            Some(b) => file_path_of(uri@) == Some(b@),
            None => file_path_of(uri@) is None,
        },
{
    let url = Url::parse(uri).ok()?;
    let path = url.to_file_path().ok()?;
    <Vec<u8> as ByteVec>::from_path_buf(path).ok()
}

/// Calls `std::path::Path::strip_prefix` on the paths that `path` and
/// `root` hold (through `bstr::ByteSlice::to_path`), and stores the
/// relative path's bytes.
#[verifier::external_body]
fn strip_root(path: &[u8], root: &[u8]) -> (r: Option<Vec<u8>>)
    ensures
        match r {
            Some(b) => relative_to(path@, root@) == Some(b@),
            None => relative_to(path@, root@) is None,
        },
{
    let full = path.to_path().ok()?;
    let base = root.to_path().ok()?;
    let inside = full.strip_prefix(base).ok()?;
    <Vec<u8> as ByteVec>::from_path_buf(inside.to_path_buf()).ok()
}

/// The repository-relative path bytes a server URI names: a `file:` URL
/// whose file lies below `root`.
pub open spec fn contained_path(uri: Seq<char>, root: Seq<u8>) -> Option<Seq<u8>> {
    if url_parses(uri) && scheme_of(uri) == "file"@ {
        match file_path_of(uri) {
            Some(p) => relative_to(p, root),
            None => None,
        }
    } else {
        None
    }
}

/// A navigation result inside the repository.
#[derive(Debug)]
pub struct WireRepositoryLocation {
    pub path: RepoPath,
    pub selection: WireRange,
    pub encoding: PositionEncoding,
}

/// A navigation result: a repository file, or anything else, which is only
/// ever shown by its sanitized URI and never read as a path.
#[derive(Debug)]
pub enum WireNavigationTarget {
    Repository(WireRepositoryLocation),
    External { display_uri: String },
}

/// Classifies a server location from its URI's scheme and, for a `file:`
/// URI, the path bytes relative to the repository root (`None` when the
/// URI names no path inside it).
pub fn classify_location(
    uri: &str,
    scheme: &str,
    relative: Option<Vec<u8>>,
    selection: WireRange,
    encoding: PositionEncoding,
) -> (t: WireNavigationTarget)
    ensures
        (t is Repository) <==> (scheme@ == "file"@ && (relative matches Some(b)
            && valid_repo_path(b@))),
        t matches WireNavigationTarget::Repository(loc) ==> ((relative matches Some(b) && loc.path@
            == b@) && loc.selection == selection && loc.encoding == encoding),
        t matches WireNavigationTarget::External { display_uri } ==> display_uri@ == sanitized(
            uri@,
            256,
        ),
{
    if !crate::text::str_equals(scheme, "file") {
        return WireNavigationTarget::External { display_uri: sanitize_uri(uri) };
    }
    match relative {
        Some(bytes) => match RepoPath::from_bytes(bytes) {
            Ok(path) => WireNavigationTarget::Repository(
                WireRepositoryLocation { path, selection, encoding },
            ),
            Err(_) => WireNavigationTarget::External { display_uri: sanitize_uri(uri) },
        },
        None => WireNavigationTarget::External { display_uri: sanitize_uri(uri) },
    }
}

/// Keeps a server location only when its URI is a `file:` URL naming a
/// valid path below the repository root; anything else is external.
pub fn contain(
    repository: &RepositoryRoot,
    uri: &str,
    selection: WireRange,
    encoding: PositionEncoding,
) -> (t: WireNavigationTarget)
    ensures
        t is Repository <==> (contained_path(uri@, repository@) matches Some(b) && valid_repo_path(
            b,
        )),
        t matches WireNavigationTarget::Repository(loc) ==> contained_path(uri@, repository@)
            == Some(loc.path@) && loc.selection == selection && loc.encoding == encoding,
        t matches WireNavigationTarget::External { display_uri } ==> display_uri@ == sanitized(
            uri@,
            256,
        ),
{
    let scheme = match url_scheme(uri) {
        Some(s) => s,
        None => {
            return WireNavigationTarget::External { display_uri: sanitize_uri(uri) };
        },
    };
    let mut relative: Option<Vec<u8>> = None;
    if crate::text::str_equals(scheme.as_str(), "file") {
        match url_file_path(uri) {
            Some(path) => {
                relative = strip_root(path.as_slice(), repository.as_path());
            },
            None => {},
        }
    }
    classify_location(uri, scheme.as_str(), relative, selection, encoding)
}

} // verus!
