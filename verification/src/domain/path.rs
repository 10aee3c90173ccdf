//! Repository roots and byte-preserving repository-relative paths.

use vstd::prelude::*;

verus! {

/// End of the path component that starts at byte `i`: the next `/` or the end.
pub open spec fn component_end(bytes: Seq<u8>, i: int) -> int
    decreases bytes.len() - i,
{
    if i >= bytes.len() || i < 0 {
        bytes.len() as int
    } else if bytes[i] == 0x2fu8 {
        i
    } else {
        component_end(bytes, i + 1)
    }
}

/// Whether a component starts at byte `i` (at the start or after a `/`).
pub open spec fn starts_component(bytes: Seq<u8>, i: int) -> bool {
    0 <= i <= bytes.len() && (i == 0 || bytes[i - 1] == 0x2fu8)
}

/// Whether the component starting at `i` is empty, `.`, or `..`.
pub open spec fn bad_component_at(bytes: Seq<u8>, i: int) -> bool {
    let c = bytes.subrange(i, component_end(bytes, i));
    c.len() == 0 || c == seq![0x2eu8] || c == seq![0x2eu8, 0x2eu8]
}

/// Some component of the path is empty, `.`, or `..`.
pub open spec fn has_bad_component(bytes: Seq<u8>) -> bool {
    exists|i: int| #[trigger] starts_component(bytes, i) && bad_component_at(bytes, i)
}

/// A non-empty, relative, NUL-free path whose components are all proper names.
pub open spec fn valid_repo_path(bytes: Seq<u8>) -> bool {
    &&& bytes.len() > 0
    &&& !bytes.contains(0u8)
    &&& bytes[0] != 0x2fu8
    &&& !has_bad_component(bytes)
}

pub open spec fn empty_path_error() -> Seq<char> {
    "repository path must not be empty"@
}

pub open spec fn nul_path_error() -> Seq<char> {
    "repository path must not contain NUL"@
}

pub open spec fn absolute_path_error() -> Seq<char> {
    "repository path must be relative"@
}

pub open spec fn component_path_error() -> Seq<char> {
    "repository path must not contain empty, dot, or parent components"@
}

/// The absolute filesystem directory of a discovered working tree, kept as
/// raw path bytes.
#[derive(Debug)]
pub struct RepositoryRoot(Vec<u8>);

impl View for RepositoryRoot {
    type V = Seq<u8>;

    closed spec fn view(&self) -> Seq<u8> {
        self.0@
    }
}

impl RepositoryRoot {
    /// Accepts an absolute path (one that begins with `/`).
    pub fn new(path: Vec<u8>) -> (r: Result<RepositoryRoot, &'static str>)
        ensures
            r is Ok <==> (path@.len() > 0 && path@[0] == 0x2fu8),
            r matches Ok(root) ==> root@ == path@,
            r matches Err(m) ==> m@ == "repository root must be absolute"@,
    {
        if path.len() > 0 && path[0] == 0x2f {
            Ok(RepositoryRoot(path))
        } else {
            Err("repository root must be absolute")
        }
    }

    /// Returns the root directory's path bytes.
    pub fn as_path(&self) -> (s: &[u8])
        ensures
            s@ == self@,
    {
        self.0.as_slice()
    }

    /// Returns an identical root.
    pub fn duplicate(&self) -> (r: RepositoryRoot)
        ensures
            r@ == self@,
    {
        RepositoryRoot(self.0.clone())
    }
}

/// A repository-relative path kept as raw bytes.
///
/// Every value is either a valid path or the empty root marker.
#[derive(Debug)]
pub struct RepoPath(Vec<u8>);

impl View for RepoPath {
    type V = Seq<u8>;

    closed spec fn view(&self) -> Seq<u8> {
        self.0@
    }
}

impl RepoPath {
    /// Validates a repository-relative path.
    pub fn from_bytes(bytes: Vec<u8>) -> (r: Result<RepoPath, &'static str>)
        ensures
            r is Ok <==> valid_repo_path(bytes@),
            r matches Ok(p) ==> p@ == bytes@,
            r matches Err(m) ==> {
                &&& bytes@.len() == 0 ==> m@ == empty_path_error()
                &&& bytes@.len() > 0 && bytes@.contains(0u8) ==> m@ == nul_path_error()
                &&& bytes@.len() > 0 && !bytes@.contains(0u8) && bytes@[0] == 0x2fu8 ==> m@
                    == absolute_path_error()
                &&& bytes@.len() > 0 && !bytes@.contains(0u8) && bytes@[0] != 0x2fu8 ==> m@
                    == component_path_error()
            },
    {
        let n = bytes.len();
        if n == 0 {
            return Err("repository path must not be empty");
        }
        let mut i: usize = 0;
        while i < n
            invariant
                n == bytes@.len(),
                i <= n,
                forall|j: int| 0 <= j < i ==> bytes@[j] != 0u8,
            decreases n - i,
        {
            if bytes[i] == 0 {
                assert(bytes@[i as int] == 0u8);
                return Err("repository path must not contain NUL");
            }
            i = i + 1;
        }
        assert(!bytes@.contains(0u8));
        if bytes[0] == 0x2f {
            return Err("repository path must be relative");
        }
        // Walk the components from left to right.
        let mut start: usize = 0;
        loop
            invariant
                n == bytes@.len(),
                n > 0,
                !bytes@.contains(0u8),
                bytes@[0] != 0x2fu8,
                start <= n,
                starts_component(bytes@, start as int),
                forall|k: int|
                    #![trigger starts_component(bytes@, k)]
                    0 <= k < start && starts_component(bytes@, k) ==> !bad_component_at(
                        bytes@,
                        k,
                    ),
            decreases n - start,
        {
            let mut end = start;
            while end < n && bytes[end] != 0x2f
                invariant
                    n == bytes@.len(),
                    start <= end <= n,
                    component_end(bytes@, start as int) == component_end(bytes@, end as int),
                    forall|x: int| start <= x < end ==> bytes@[x] != 0x2fu8,
                decreases n - end,
            {
                end = end + 1;
            }
            let len = end - start;
            let bad = len == 0 || (len == 1 && bytes[start] == 0x2e) || (len == 2 && bytes[start]
                == 0x2e && bytes[start + 1] == 0x2e);
            proof {
                let c = bytes@.subrange(start as int, end as int);
                if len == 1 {
                    assert(c =~= seq![bytes@[start as int]]);
                }
                if len == 2 {
                    assert(c =~= seq![bytes@[start as int], bytes@[start + 1]]);
                }
                if c == seq![0x2eu8] {
                    assert(c[0] == 0x2eu8);
                }
                if c == seq![0x2eu8, 0x2eu8] {
                    assert(c[0] == 0x2eu8 && c[1] == 0x2eu8);
                }
            }
            assert(component_end(bytes@, end as int) == end);
            assert(component_end(bytes@, start as int) == end);
            if bad {
                assert(starts_component(bytes@, start as int) && bad_component_at(bytes@, start as int));
                return Err("repository path must not contain empty, dot, or parent components");
            }
            proof {
                let c = bytes@.subrange(start as int, end as int);
                assert(c.len() == len);
                if c == seq![0x2eu8] {
                    assert(c.len() == 1);
                    assert(c[0] == 0x2eu8);
                    assert(bytes@[start as int] == c[0]);
                }
                if c == seq![0x2eu8, 0x2eu8] {
                    assert(c.len() == 2);
                    assert(c[0] == 0x2eu8 && c[1] == 0x2eu8);
                    assert(bytes@[start as int] == c[0]);
                    assert(bytes@[start + 1] == c[1]);
                }
            }
            assert(!bad_component_at(bytes@, start as int));
            if end == n {
                proof {
                    assert forall|k: int| #[trigger] starts_component(bytes@, k) implies !bad_component_at(bytes@, k) by {
                        if start < k {
                            assert(bytes@[k - 1] != 0x2fu8);
                        }
                    }
                }
                return Ok(RepoPath(bytes));
            }
            proof {
                assert forall|k: int|
                    #![trigger starts_component(bytes@, k)]
                    0 <= k < end + 1 && starts_component(bytes@, k) implies !bad_component_at(bytes@, k) by {
                    if start < k && k <= end {
                        assert(bytes@[k - 1] != 0x2fu8);
                    }
                }
            }
            start = end + 1;
        }
    }

    /// The empty marker used for the repository root in tree listings.
    pub fn root_marker() -> (p: RepoPath)
        ensures
            p@.len() == 0,
    {
        RepoPath(Vec::new())
    }

    /// Returns the raw path bytes.
    pub fn as_bytes(&self) -> (b: &[u8])
        ensures
            b@ == self@,
    {
        self.0.as_slice()
    }

    /// Returns a lossily decoded display string.
    pub fn display(&self) -> (s: String)
        ensures
            s@ == crate::bytes::lossy_text(self@),
    {
        crate::bytes::lossy_string(self.0.as_slice())
    }

    /// Appends a child path, or returns the child for the root marker.
    pub fn join(&self, child: &RepoPath) -> (p: RepoPath)
        ensures
            self@.len() == 0 ==> p@ == child@,
            self@.len() > 0 ==> p@ == self@ + seq![0x2fu8] + child@,
    {
        if self.0.len() == 0 {
            return child.duplicate();
        }
        let mut bytes = self.0.clone();
        bytes.push(0x2f);
        let mut i: usize = 0;
        let ghost base = bytes@;
        while i < child.0.len()
            invariant
                i <= child.0@.len(),
                bytes@ == base + child.0@.subrange(0, i as int),
            decreases child.0@.len() - i,
        {
            bytes.push(child.0[i]);
            i = i + 1;
        }
        assert(child.0@.subrange(0, child.0@.len() as int) =~= child.0@);
        RepoPath(bytes)
    }

    /// Returns an identical path.
    pub fn duplicate(&self) -> (p: RepoPath)
        ensures
            p@ == self@,
    {
        RepoPath(self.0.clone())
    }

    /// Whether two paths hold the same bytes.
    pub fn same_as(&self, other: &RepoPath) -> (r: bool)
        ensures
            r == (self@ == other@),
    {
        crate::bytes::bytes_equal(self.0.as_slice(), other.0.as_slice())
    }
}

impl Clone for RepoPath {
    fn clone(&self) -> (p: Self)
        ensures
            p@ == self@,
    {
        self.duplicate()
    }
}


proof fn lemma_component_end_range(bytes: Seq<u8>, i: int)
    requires
        0 <= i <= bytes.len(),
    ensures
        i <= component_end(bytes, i) <= bytes.len(),
        component_end(bytes, i) < bytes.len() ==> bytes[component_end(bytes, i)] == 0x2fu8,
        forall|x: int| i <= x < component_end(bytes, i) ==> bytes[x] != 0x2fu8,
    decreases bytes.len() - i,
{
    if i < bytes.len() && bytes[i] != 0x2fu8 {
        lemma_component_end_range(bytes, i + 1);
    }
}

/// Scanning a component inside `a` continues into `b` only past the end of `a`.
proof fn lemma_component_end_concat(a: Seq<u8>, b: Seq<u8>, x: int)
    requires
        0 <= x <= a.len(),
    ensures
        component_end(a + b, x) == (if component_end(a, x) < a.len() {
            component_end(a, x)
        } else {
            a.len() + component_end(b, 0)
        }),
    decreases a.len() - x,
{
    if x < a.len() {
        assert((a + b)[x] == a[x]);
        if a[x] != 0x2fu8 {
            lemma_component_end_concat(a, b, x + 1);
        }
    } else {
        lemma_component_end_shift(a, b, 0);
    }
}

/// A component inside `b` ends at the same place, shifted, in `a + b`.
proof fn lemma_component_end_shift(a: Seq<u8>, b: Seq<u8>, y: int)
    requires
        0 <= y <= b.len(),
    ensures
        component_end(a + b, a.len() + y) == a.len() + component_end(b, y),
    decreases b.len() - y,
{
    if y < b.len() {
        assert((a + b)[a.len() + y] == b[y]);
        if b[y] != 0x2fu8 {
            lemma_component_end_shift(a, b, y + 1);
        }
    }
}

/// Joining two valid repository paths gives a valid repository path.
pub proof fn lemma_join_valid(parent: Seq<u8>, child: Seq<u8>)
    requires
        valid_repo_path(parent),
        valid_repo_path(child),
    ensures
        valid_repo_path(parent + seq![0x2fu8] + child),
{
    let a = parent + seq![0x2fu8];
    let j = a + child;
    let n = parent.len() as int;
    assert(j.len() > 0);
    assert(j[0] == parent[0]);
    assert(!j.contains(0u8)) by {
        if j.contains(0u8) {
            let x = choose|x: int| 0 <= x < j.len() && j[x] == 0u8;
            if x < n {
                assert(parent[x] == 0u8);
            } else if x > n {
                assert(child[x - n - 1] == 0u8);
            }
        }
    }
    assert forall|i: int| #[trigger] starts_component(j, i) implies !bad_component_at(j, i) by {
        if i <= n {
            assert(starts_component(parent, i)) by {
                if i > 0 {
                    assert(j[i - 1] == parent[i - 1]);
                }
            }
            assert(!bad_component_at(parent, i));
            lemma_component_end_range(parent, i);
            lemma_component_end_concat(parent, seq![0x2fu8] + child, i);
            assert(j =~= parent + (seq![0x2fu8] + child));
            assert((seq![0x2fu8] + child)[0] == 0x2fu8);
            assert(component_end(seq![0x2fu8] + child, 0) == 0);
            let e = component_end(parent, i);
            assert(component_end(j, i) == e);
            assert(j.subrange(i, e) =~= parent.subrange(i, e));
        } else {
            let y = i - n - 1;
            assert(0 <= y <= child.len());
            assert(starts_component(child, y)) by {
                if y > 0 {
                    assert(j[i - 1] == child[y - 1]);
                }
            }
            assert(!bad_component_at(child, y));
            lemma_component_end_range(child, y);
            lemma_component_end_shift(a, child, y);
            let e = component_end(child, y);
            assert(component_end(j, i) == n + 1 + e);
            assert(j.subrange(i, n + 1 + e) =~= child.subrange(y, e));
        }
    }
}
} // verus!
