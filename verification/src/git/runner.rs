//! Captured command output, Git boundary errors, and the substitutable
//! process boundary.

use crate::domain::path::RepositoryRoot;
use crate::git::command::GitCommand;
use crate::git::process::decimal;
use crate::text::{push_char, trim_text, trimmed};
use vstd::string::StringExecFns;
use vstd::prelude::*;

verus! {

/// Captured status and bounded byte streams from one Git invocation.
///
/// Output is kept as bytes so machine-oriented parsers can preserve non-UTF-8
/// repository paths. Truncation flags distinguish a complete stream from a
/// prefix retained up to the runner limit.
#[derive(Debug)]
pub struct CommandOutput {
    pub success: bool,
    pub code: Option<i32>,
    pub stdout: Vec<u8>,
    pub stderr: Vec<u8>,
    pub stdout_truncated: bool,
    pub stderr_truncated: bool,
}

impl CommandOutput {
    /// Records the outcome of one process run.
    pub fn new(
        success: bool,
        code: Option<i32>,
        stdout: Vec<u8>,
        stderr: Vec<u8>,
        stdout_truncated: bool,
        stderr_truncated: bool,
    ) -> (o: CommandOutput)
        ensures
            o.success == success,
            o.code == code,
            o.stdout == stdout,
            o.stderr == stderr,
            o.stdout_truncated == stdout_truncated,
            o.stderr_truncated == stderr_truncated,
    {
        CommandOutput { success, code, stdout, stderr, stdout_truncated, stderr_truncated }
    }

    /// A complete (untruncated) output, as fixtures build it.
    pub fn for_test(success: bool, code: Option<i32>, stdout: Vec<u8>, stderr: Vec<u8>) -> (o:
        CommandOutput)
        ensures
            o.success == success,
            o.code == code,
            o.stdout == stdout,
            o.stderr == stderr,
            !o.stdout_truncated,
            !o.stderr_truncated,
    {
        CommandOutput {
            success,
            code,
            stdout,
            stderr,
            stdout_truncated: false,
            stderr_truncated: false,
        }
    }

    /// Reports whether Git returned a successful exit status.
    pub fn success(&self) -> (b: bool)
        ensures
            b == self.success,
    {
        self.success
    }

    /// Returns the numeric exit code, or `None` when the process ended by signal.
    pub fn code(&self) -> (c: Option<i32>)
        ensures
            c == self.code,
    {
        self.code
    }

    /// Returns captured standard-output bytes.
    pub fn stdout(&self) -> (b: &[u8])
        ensures
            b@ == self.stdout@,
    {
        self.stdout.as_slice()
    }

    /// Returns captured standard-error bytes.
    pub fn stderr(&self) -> (b: &[u8])
        ensures
            b@ == self.stderr@,
    {
        self.stderr.as_slice()
    }

    /// Reports whether standard output crossed its configured byte limit.
    pub fn stdout_truncated(&self) -> (b: bool)
        ensures
            b == self.stdout_truncated,
    {
        self.stdout_truncated
    }

    /// Reports whether standard error crossed its configured byte limit.
    pub fn stderr_truncated(&self) -> (b: bool)
        ensures
            b == self.stderr_truncated,
    {
        self.stderr_truncated
    }
}

/// A failure at the repository discovery, subprocess, or parsing boundary.
#[derive(Debug)]
pub enum GitError {
    /// The operating system prevented a process or filesystem operation.
    Io {
        /// Stable human-readable operation context.
        operation: &'static str,
        /// Description of the underlying operating-system error.
        source: String,
    },
    /// Git completed with an unsuccessful exit status.
    CommandFailed {
        /// Stable human-readable operation context.
        operation: &'static str,
        /// Numeric exit code, absent when the process ended by signal.
        code: Option<i32>,
        /// Bounded, lossy-decoded standard-error text.
        stderr: String,
    },
    /// Structured output exceeded its safe capture limit.
    OutputLimit {
        /// Stable human-readable operation context.
        operation: &'static str,
    },
    /// Git did not complete within the runner's duration limit.
    TimedOut {
        /// Stable human-readable operation context.
        operation: &'static str,
    },
    /// Complete machine output did not satisfy the expected grammar.
    Parse {
        /// Name of the data format being decoded.
        context: &'static str,
        /// Specific malformed-record detail.
        detail: String,
    },
    /// Repository or platform state falls outside the supported boundary.
    Unsupported(String),
}

impl GitError {
    /// Constructs a machine-output parsing error with stable context.
    pub fn parse(context: &'static str, detail: String) -> (e: GitError)
        ensures
            e matches GitError::Parse { context: c, detail: d } && c == context && d == detail,
    {
        GitError::Parse { context, detail }
    }
}

/// An exit code as `{:?}` renders it.
pub open spec fn code_text(code: Option<i32>) -> Seq<char> {
    match code {
        Some(c) => "Some("@ + (if c < 0 {
            seq!['-'] + decimal((-c) as nat)
        } else {
            decimal(c as nat)
        }) + ")"@,
        None => "None"@,
    }
}

/// The message shown for each Git failure.
pub open spec fn error_text(e: GitError) -> Seq<char> {
    match e {
        GitError::Io { operation, .. } => "could not "@ + operation@,
        GitError::CommandFailed { operation, code, stderr } => "could not "@ + operation@
            + " (exit "@ + code_text(code) + ")"@ + (if trimmed(stderr@).len() == 0 {
            Seq::empty()
        } else {
            ": "@ + trimmed(stderr@)
        }),
        GitError::OutputLimit { operation } => operation@ + " exceeded the output limit"@,
        GitError::TimedOut { operation } => operation@ + " exceeded the 30 second time limit"@,
        GitError::Parse { context, detail } => "could not parse "@ + context@ + ": "@ + detail@,
        GitError::Unsupported(detail) => detail@,
    }
}

fn push_decimal_text(out: &mut String, n: u32)
    ensures
        final(out)@ == old(out)@ + decimal(n as nat),
    decreases n,
{
    let ghost start = out@;
    if n >= 10 {
        push_decimal_text(out, n / 10);
    }
    let d = (n % 10) as u8;
    let c = (48u8 + d) as char;
    push_char(out, c);
    proof {
        assert(c == (('0' as u32) + (n % 10) as nat) as char);
        if n < 10 {
            assert(decimal(n as nat) == seq![c]);
        } else {
            assert(decimal(n as nat) == decimal((n / 10) as nat).push(c));
        }
        assert(out@ =~= start + decimal(n as nat));
    }
}

fn push_code_text(out: &mut String, code: Option<i32>)
    ensures
        final(out)@ == old(out)@ + code_text(code),
{
    match code {
        Some(c) => {
            let ghost start = out@;
            out.append("Some(");
            if c < 0 {
                push_char(out, '-');
                let magnitude: u32 = if c == i32::MIN {
                    2147483648u32
                } else {
                    (-c) as u32
                };
                push_decimal_text(out, magnitude);
            } else {
                push_decimal_text(out, c as u32);
            }
            out.append(")");
            proof {
                reveal_strlit("Some(");
                reveal_strlit(")");
                assert(out@ =~= start + code_text(code));
            }
        },
        None => {
            out.append("None");
        },
    }
}

impl GitError {
    /// The message shown for this failure.
    pub fn describe(&self) -> (s: String)
        ensures
            s@ == error_text(*self),
    {
        match self {
            GitError::Io { operation, .. } => String::from_str("could not ").concat(operation),
            GitError::CommandFailed { operation, code, stderr } => {
                let mut s = String::from_str("could not ").concat(operation);
                s.append(" (exit ");
                push_code_text(&mut s, *code);
                s.append(")");
                let detail = trim_text(stderr.as_str());
                if detail.as_str().unicode_len() > 0 {
                    s.append(": ");
                    s.append(detail.as_str());
                }
                proof {
                    if detail@.len() == 0 {
                        assert(s@ =~= error_text(*self));
                    } else {
                        assert(s@ =~= error_text(*self));
                    }
                }
                s
            },
            GitError::OutputLimit { operation } => String::from_str(operation).concat(
                " exceeded the output limit",
            ),
            GitError::TimedOut { operation } => String::from_str(operation).concat(
                " exceeded the 30 second time limit",
            ),
            GitError::Parse { context, detail } => String::from_str("could not parse ").concat(
                context,
            ).concat(": ").concat(detail.as_str()),
            GitError::Unsupported(detail) => detail.clone(),
        }
    }
}

/// Executes typed [`GitCommand`] values for a [`crate::git::service::GitService`].
///
/// The trait is the deliberate test and substitution boundary for slow,
/// stateful subprocess I/O. Implementations must not reinterpret commands as
/// mutating operations or concatenate repository paths into shell text.
pub trait GitRunner {
    /// Whether running `command` within `root` (none during discovery) may
    /// answer `result`. An implementation may narrow this to what it knows
    /// of the process it runs; by default any answer is possible.
    open spec fn produced(
        &self,
        root: Option<Seq<u8>>,
        command: GitCommand,
        result: Result<CommandOutput, GitError>,
    ) -> bool {
        true
    }

    /// Executes one command, optionally within a discovered repository root.
    ///
    /// `root` is `None` during discovery and present for repository-local reads.
    /// A successful `Result` preserves Git's exit status in [`CommandOutput`];
    /// service methods decide which non-zero statuses have domain meaning.
    fn run(&self, root: Option<&RepositoryRoot>, command: &GitCommand) -> (r: Result<
        CommandOutput,
        GitError,
    >)
        ensures
            self.produced(root_bytes(root), *command, r),
    ;
}


/// The root handed to a command, as path bytes.
pub open spec fn root_bytes(root: Option<&RepositoryRoot>) -> Option<Seq<u8>> {
    match root {
        Some(r) => Some(r@),
        None => None,
    }
}

/// At most this many bytes of standard output are kept from one invocation.
pub const MAX_STDOUT_BYTES: usize = 8 * 1024 * 1024;

/// At most this many bytes of standard error are kept from one invocation.
pub const MAX_STDERR_BYTES: usize = 64 * 1024;

/// At most this many seconds are allowed for one invocation.
pub const MAX_COMMAND_SECONDS: u64 = 30;

/// How many bytes may still be kept under `limit`.
pub open spec fn room(kept: nat, limit: usize) -> nat {
    if kept >= limit {
        0
    } else {
        (limit - kept) as nat
    }
}

/// How many bytes of a chunk of `len` bytes are kept.
pub open spec fn kept_of(kept: nat, len: nat, limit: usize) -> nat {
    if len <= room(kept, limit) {
        len
    } else {
        room(kept, limit)
    }
}

/// Appends as much of a chunk read from a stream as fits under `limit`;
/// reports whether anything was dropped.
pub fn keep_chunk(stored: &mut Vec<u8>, chunk: &[u8], limit: usize) -> (truncated: bool)
    ensures
        final(stored)@ == old(stored)@ + chunk@.take(
            kept_of(old(stored)@.len(), chunk@.len(), limit) as int,
        ),
        truncated == (kept_of(old(stored)@.len(), chunk@.len(), limit) < chunk@.len()),
{
    let remaining: usize = if stored.len() >= limit {
        0
    } else {
        limit - stored.len()
    };
    let keep: usize = if chunk.len() <= remaining {
        chunk.len()
    } else {
        remaining
    };
    let ghost start = stored@;
    let mut i: usize = 0;
    while i < keep
        invariant
            keep <= chunk@.len(),
            i <= keep,
            stored@ == start + chunk@.take(i as int),
        decreases keep - i,
    {
        stored.push(chunk[i]);
        i = i + 1;
        assert(stored@ =~= start + chunk@.take(i as int));
    }
    keep < chunk.len()
}

/// Whatever is appended, a stream kept under `limit` stays within it.
pub proof fn lemma_kept_within_limit(kept: nat, len: nat, limit: usize)
    requires
        kept <= limit,
    ensures
        kept + kept_of(kept, len, limit) <= limit,
{
}

/// Chunks read from a stream, joined in order.
pub open spec fn joined_chunks(chunks: Seq<Seq<u8>>) -> Seq<u8>
    decreases chunks.len(),
{
    if chunks.len() == 0 {
        Seq::empty()
    } else {
        joined_chunks(chunks.drop_last()) + chunks.last()
    }
}

/// What keeping each chunk in turn with `keep_chunk` leaves: the stored
/// bytes, and whether any chunk was cut.
pub open spec fn kept_stream(chunks: Seq<Seq<u8>>, limit: usize) -> (Seq<u8>, bool)
    decreases chunks.len(),
{
    if chunks.len() == 0 {
        (Seq::empty(), false)
    } else {
        let (stored, cut) = kept_stream(chunks.drop_last(), limit);
        let k = kept_of(stored.len(), chunks.last().len(), limit);
        (stored + chunks.last().take(k as int), cut || k < chunks.last().len())
    }
}

/// Reading a whole stream chunk by chunk through `keep_chunk` keeps exactly
/// its first `limit` bytes (all of it when shorter), and reports truncation
/// exactly when the stream was longer than `limit`.
pub proof fn lemma_stream_kept(chunks: Seq<Seq<u8>>, limit: usize)
    ensures
        kept_stream(chunks, limit).0 == joined_chunks(chunks).take(
            if joined_chunks(chunks).len() <= limit {
                joined_chunks(chunks).len() as int
            } else {
                limit as int
            },
        ),
        kept_stream(chunks, limit).1 == (joined_chunks(chunks).len() > limit),
    decreases chunks.len(),
{
    if chunks.len() > 0 {
        let rest = chunks.drop_last();
        lemma_stream_kept(rest, limit);
        let s = joined_chunks(rest);
        let c = chunks.last();
        let all = joined_chunks(chunks);
        assert(all == s + c);
        if s.len() >= limit {
            assert(all.take(limit as int) =~= s.take(limit as int));
            assert(kept_stream(rest, limit).0.len() == limit);
            assert(kept_stream(chunks, limit).0 =~= all.take(limit as int));
        } else {
            assert(kept_stream(rest, limit).0 =~= s);
            let k = kept_of(s.len(), c.len(), limit);
            assert(kept_stream(chunks, limit).0 =~= all.take((s.len() + k) as int));
        }
    }
}

/// What a wait for a running invocation does next.
#[derive(Clone, Copy, Debug, PartialEq, Eq, Structural)]
pub enum WaitStep {
    /// An output stream crossed its limit: stop the process and report its status.
    StopOverLimit,
    /// The time limit passed: stop the process and report a timeout.
    StopTimedOut,
    /// Check whether the process has finished, and wait a moment if not.
    Poll,
}

/// Decides the next step of a bounded wait; an exceeded output limit is
/// acted on before the time limit.
pub fn wait_step(output_exceeded: bool, timed_out: bool) -> (step: WaitStep)
    ensures
        output_exceeded ==> step == WaitStep::StopOverLimit,
        !output_exceeded && timed_out ==> step == WaitStep::StopTimedOut,
        !output_exceeded && !timed_out ==> step == WaitStep::Poll,
{
    if output_exceeded {
        WaitStep::StopOverLimit
    } else if timed_out {
        WaitStep::StopTimedOut
    } else {
        WaitStep::Poll
    }
}

} // verus!
