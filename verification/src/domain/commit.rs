//! Commit identifiers, summaries, comparison baselines, and full messages.

use vstd::prelude::*;

verus! {

/// Whether `c` is an ASCII hexadecimal digit.
pub open spec fn is_hex(c: char) -> bool {
    ('0' <= c && c <= '9') || ('a' <= c && c <= 'f') || ('A' <= c && c <= 'F')
}

/// A full 40- or 64-character hexadecimal object identifier.
pub open spec fn valid_object_id(s: Seq<char>) -> bool {
    (s.len() == 40 || s.len() == 64) && forall|i: int| 0 <= i < s.len() ==> is_hex(#[trigger] s[i])
}

/// A complete hexadecimal Git object identifier.
///
/// Both the 40-character SHA-1 and 64-character SHA-256 object formats are
/// accepted. Keeping the full identifier avoids ambiguous revision lookup.
#[derive(Debug)]
pub struct ObjectId(String);

impl View for ObjectId {
    type V = Seq<char>;

    closed spec fn view(&self) -> Seq<char> {
        self.0@
    }
}

impl ObjectId {
    #[verifier::type_invariant]
    closed spec fn inv(self) -> bool {
        valid_object_id(self.0@)
    }

    /// Validates and stores a full Git object identifier.
    ///
    /// Fails when `value` is not exactly 40 or 64 hexadecimal characters.
    pub fn parse(value: String) -> (r: Result<ObjectId, &'static str>)
        ensures
            r is Ok <==> valid_object_id(value@),
            r matches Ok(id) ==> id@ == value@,
            r matches Err(m) ==> m@ == object_id_error(),
    {
        let chars = crate::text::chars_of(value.as_str());
        let n = chars.len();
        if n != 40 && n != 64 {
            return Err("object ID must be a full 40- or 64-character hexadecimal value");
        }
        let mut i: usize = 0;
        while i < n
            invariant
                n == chars@.len(),
                chars@ == value@,
                i <= n,
                forall|j: int| 0 <= j < i ==> is_hex(#[trigger] chars@[j]),
            decreases n - i,
        {
            let c = chars[i];
            if !(('0' <= c && c <= '9') || ('a' <= c && c <= 'f') || ('A' <= c && c <= 'F')) {
                return Err("object ID must be a full 40- or 64-character hexadecimal value");
            }
            i = i + 1;
        }
        Ok(ObjectId(value))
    }

    /// Returns the complete identifier as hexadecimal text.
    pub fn as_str(&self) -> (s: &str)
        ensures
            s@ == self@,
            valid_object_id(s@),
    {
        proof {
            use_type_invariant(self);
        }
        self.0.as_str()
    }

    /// Returns the first ten hexadecimal characters for display.
    ///
    /// The abbreviation is presentation-only and must not be sent back to Git
    /// where an unambiguous full identifier is required.
    pub fn short(&self) -> (s: &str)
        ensures
            s@ == self@.subrange(0, 10),
    {
        proof {
            use_type_invariant(self);
        }
        self.0.as_str().substring_char(0, 10)
    }

    /// Whether two identifiers name the same object.
    pub fn same_as(&self, other: &ObjectId) -> (r: bool)
        ensures
            r == (self@ == other@),
    {
        crate::text::str_equals(self.0.as_str(), other.0.as_str())
    }

    /// Returns an identical identifier.
    pub fn duplicate(&self) -> (o: ObjectId)
        ensures
            o@ == self@,
    {
        proof {
            use_type_invariant(self);
        }
        ObjectId(self.0.clone())
    }
}

impl Clone for ObjectId {
    fn clone(&self) -> (o: Self)
        ensures
            o@ == self@,
    {
        self.duplicate()
    }
}

pub open spec fn object_id_error() -> Seq<char> {
    "object ID must be a full 40- or 64-character hexadecimal value"@
}

/// The commit metadata needed by history, graph, and comparison views.
///
/// Parent order is retained because the first parent defines the comparison
/// baseline for non-root and merge commits.
#[derive(Debug)]
pub struct CommitSummary {
    pub id: ObjectId,
    pub parents: Vec<ObjectId>,
    pub author: String,
    pub authored_at: String,
    pub subject: String,
}

impl CommitSummary {
    /// Creates a summary from one validated machine-output record.
    pub fn new(
        id: ObjectId,
        parents: Vec<ObjectId>,
        author: String,
        authored_at: String,
        subject: String,
    ) -> (c: CommitSummary)
        ensures
            c.id == id,
            c.parents == parents,
            c.author == author,
            c.authored_at == authored_at,
            c.subject == subject,
    {
        CommitSummary { id, parents, author, authored_at, subject }
    }

    /// Returns a summary of the same commit with the same metadata.
    pub fn duplicate(&self) -> (c: CommitSummary)
        ensures
            c.id@ == self.id@,
            c.parents@.len() == self.parents@.len(),
            forall|i: int| 0 <= i < c.parents@.len() ==> (#[trigger] c.parents@[i])@ == self.parents@[i]@,
            c.author == self.author,
            c.authored_at == self.authored_at,
            c.subject == self.subject,
    {
        let mut parents: Vec<ObjectId> = Vec::new();
        let mut i: usize = 0;
        while i < self.parents.len()
            invariant
                i <= self.parents@.len(),
                parents@.len() == i,
                forall|j: int| 0 <= j < i ==> (#[trigger] parents@[j])@ == self.parents@[j]@,
            decreases self.parents@.len() - i,
        {
            parents.push(self.parents[i].duplicate());
            i = i + 1;
        }
        CommitSummary {
            id: self.id.duplicate(),
            parents,
            author: self.author.clone(),
            authored_at: self.authored_at.clone(),
            subject: self.subject.clone(),
        }
    }

    /// Returns the commit object identifier.
    pub fn id(&self) -> (r: &ObjectId)
        ensures
            *r == self.id,
    {
        &self.id
    }

    /// Returns parent identifiers in Git's reported order.
    pub fn parents(&self) -> (r: &[ObjectId])
        ensures
            r@ == self.parents@,
    {
        self.parents.as_slice()
    }

    /// Returns the display-ready author name.
    pub fn author(&self) -> (r: &str)
        ensures
            r@ == self.author@,
    {
        self.author.as_str()
    }

    /// Returns the authored timestamp as emitted by the configured Git format.
    pub fn authored_at(&self) -> (r: &str)
        ensures
            r@ == self.authored_at@,
    {
        self.authored_at.as_str()
    }

    /// Returns the first line of the commit message.
    pub fn subject(&self) -> (r: &str)
        ensures
            r@ == self.subject@,
    {
        self.subject.as_str()
    }

    /// Chooses the comparison baseline: root commits compare against an empty
    /// tree, every other commit (a merge too) against its first parent.
    pub fn baseline(&self) -> (b: CommitBaseline)
        ensures
            self.parents@.len() == 0 ==> b is EmptyTree,
            self.parents@.len() > 0 ==> (b matches CommitBaseline::FirstParent(p) && p@
                == self.parents@[0]@),
    {
        if self.parents.len() == 0 {
            CommitBaseline::EmptyTree
        } else {
            CommitBaseline::FirstParent(self.parents[0].duplicate())
        }
    }
}

/// The identifier of a baseline's older side, if it is a commit.
pub open spec fn baseline_key(b: CommitBaseline) -> Option<Seq<char>> {
    match b {
        CommitBaseline::EmptyTree => None,
        CommitBaseline::FirstParent(p) => Some(p@),
    }
}

/// The tree used as the older side of a commit comparison.
#[derive(Debug)]
pub enum CommitBaseline {
    /// An empty tree, used when displaying a root commit.
    EmptyTree,
    /// The commit's first parent, including for merge commits.
    FirstParent(ObjectId),
}

impl CommitBaseline {
    /// Returns an identical baseline.
    pub fn duplicate(&self) -> (b: CommitBaseline)
        ensures
            b is EmptyTree <==> self is EmptyTree,
            self matches CommitBaseline::FirstParent(p) ==> (b matches CommitBaseline::FirstParent(
                q,
            ) && q@ == p@),
    {
        match self {
            CommitBaseline::EmptyTree => CommitBaseline::EmptyTree,
            CommitBaseline::FirstParent(p) => CommitBaseline::FirstParent(p.duplicate()),
        }
    }

    /// Human-readable description of the baseline.
    pub fn describe(&self) -> (s: String)
        ensures
            self is EmptyTree ==> s@ == "empty tree (root commit)"@,
            self matches CommitBaseline::FirstParent(p) ==> s@ == "first parent "@ + p@.subrange(
                0,
                10,
            ),
    {
        match self {
            CommitBaseline::EmptyTree => "empty tree (root commit)".to_string(),
            CommitBaseline::FirstParent(p) => {
                let s = "first parent ".to_string();
                s.concat(p.short())
            },
        }
    }
}

/// The body of a message: everything after the first line feed, without one
/// following blank separator line.
pub open spec fn message_body(m: Seq<char>) -> Seq<char> {
    if exists|i: int| 0 <= i < m.len() && m[i] == '\n' {
        let i = first_newline(m, 0);
        let rest = m.subrange(i + 1, m.len() as int);
        if rest.len() > 0 && rest[0] == '\n' {
            rest.subrange(1, rest.len() as int)
        } else {
            rest
        }
    } else {
        Seq::empty()
    }
}

/// Index of the first line feed at or after `i`, or the length.
pub open spec fn first_newline(m: Seq<char>, i: int) -> int
    decreases m.len() - i,
{
    if i >= m.len() || i < 0 {
        m.len() as int
    } else if m[i] == '\n' {
        i
    } else {
        first_newline(m, i + 1)
    }
}

/// A complete commit message, including its subject and optional body.
#[derive(Debug)]
pub struct CommitMessage(pub String);

impl CommitMessage {
    /// Wraps the message returned by Git without normalizing its contents.
    pub fn new(value: String) -> (m: CommitMessage)
        ensures
            m.0@ == value@,
    {
        CommitMessage(value)
    }

    /// Returns the complete message.
    pub fn as_str(&self) -> (s: &str)
        ensures
            s@ == self.0@,
    {
        self.0.as_str()
    }

    /// Returns the body after the first subject line and one optional blank line.
    pub fn body(&self) -> (s: String)
        ensures
            s@ == message_body(self.0@),
    {
        let chars = crate::text::chars_of(self.0.as_str());
        let n = chars.len();
        let mut i: usize = 0;
        while i < n && chars[i] != '\n'
            invariant
                n == chars@.len(),
                i <= n,
                first_newline(chars@, 0) == first_newline(chars@, i as int),
                forall|j: int| 0 <= j < i ==> chars@[j] != '\n',
            decreases n - i,
        {
            i = i + 1;
        }
        if i == n {
            return String::new();
        }
        let mut start = i + 1;
        if start < n && chars[start] == '\n' {
            start = start + 1;
        }
        let mut out: Vec<char> = Vec::new();
        let mut j = start;
        while j < n
            invariant
                n == chars@.len(),
                start <= j <= n,
                out@ == chars@.subrange(start as int, j as int),
            decreases n - j,
        {
            out.push(chars[j]);
            j = j + 1;
        }
        crate::text::string_from_chars(&out)
    }
}

} // verus!
