//! The exact argument list and environment of each Git invocation.
//!
//! Every invocation disables the pager, colour, path quoting, and the
//! filesystem monitor, reads paths literally, and names repository paths only
//! after `--`.

use crate::domain::commit::{CommitBaseline, ObjectId};
use crate::domain::path::RepositoryRoot;
use crate::git::command::GitCommand;
use vstd::prelude::*;
use vstd::utf8::encode_utf8;

verus! {

/// ASCII text as bytes.
pub open spec fn ascii(s: Seq<char>) -> Seq<u8> {
    s.map_values(|c: char| c as u8)
}

/// The bytes of a literal argument.
fn ascii_arg(s: &str) -> (v: Vec<u8>)
    ensures
        v@ == ascii(s@),
{
    let chars = crate::text::chars_of(s);
    let mut v: Vec<u8> = Vec::new();
    let mut i: usize = 0;
    while i < chars.len()
        invariant
            chars@ == s@,
            i <= chars@.len(),
            v@ == ascii(s@.take(i as int)),
        decreases chars@.len() - i,
    {
        v.push(chars[i] as u8);
        i = i + 1;
        assert(v@ =~= ascii(s@.take(i as int)));
    }
    assert(s@.take(s@.len() as int) =~= s@);
    v
}

fn owned_bytes(b: &[u8]) -> (v: Vec<u8>)
    ensures
        v@ == b@,
{
    let v = crate::bytes::copy_range(b, 0, b.len());
    assert(b@.subrange(0, b@.len() as int) =~= b@);
    v
}

/// Decimal digits of `n`, without leading zeros (`0` for zero).
pub open spec fn decimal(n: nat) -> Seq<char>
    decreases n,
{
    if n < 10 {
        seq![(('0' as u32) + n) as char]
    } else {
        decimal(n / 10).push((('0' as u32) + n % 10) as char)
    }
}

fn push_decimal(out: &mut Vec<u8>, n: usize)
    ensures
        final(out)@ == old(out)@ + ascii(decimal(n as nat)),
    decreases n,
{
    let ghost start = out@;
    if n >= 10 {
        push_decimal(out, n / 10);
    }
    let d = (n % 10) as u8;
    let digit: u8 = 48 + d;
    out.push(digit);
    proof {
        let c = (('0' as u32) + (n % 10) as nat) as char;
        assert(c as u8 == digit);
        if n < 10 {
            assert(decimal(n as nat) == seq![c]);
            assert(ascii(seq![c]) =~= seq![digit]);
        } else {
            assert(decimal(n as nat) == decimal((n / 10) as nat).push(c));
            assert(ascii(decimal((n / 10) as nat).push(c)) =~= ascii(decimal((n / 10) as nat)).push(c as u8));
        }
        assert(out@ =~= start + ascii(decimal(n as nat)));
    }
}

/// `prefix` followed by the decimal digits of `n`, as one argument.
fn numbered_arg(prefix: &str, n: usize) -> (v: Vec<u8>)
    ensures
        v@ == ascii(prefix@) + ascii(decimal(n as nat)),
{
    let mut v = ascii_arg(prefix);
    push_decimal(&mut v, n);
    v
}

/// Options given to every invocation.
pub open spec fn base_args() -> Seq<Seq<u8>> {
    seq![
        ascii("--no-pager"@),
        ascii("--literal-pathspecs"@),
        ascii("-c"@),
        ascii("color.ui=false"@),
        ascii("-c"@),
        ascii("core.quotePath=false"@),
        ascii("-c"@),
        ascii("core.fsmonitor=false"@),
    ]
}

/// Runs inside the discovered root when there is one.
pub open spec fn root_args(root: Option<Seq<u8>>) -> Seq<Seq<u8>> {
    match root {
        Some(r) => seq![ascii("-C"@), r],
        None => Seq::empty(),
    }
}

/// The commit-log format: full id, parents, author, date, subject.
pub open spec fn log_format() -> Seq<char> {
    "--format=%H%x00%P%x00%an%x00%aI%x00%s"@
}

/// The subcommand and arguments of each read.
pub open spec fn command_args(command: GitCommand) -> Seq<Seq<u8>> {
    match command {
        GitCommand::Discover { start } => seq![
            ascii("-C"@),
            start@,
            ascii("rev-parse"@),
            ascii("--show-toplevel"@),
        ],
        GitCommand::IsBare => seq![ascii("rev-parse"@), ascii("--is-bare-repository"@)],
        GitCommand::HasHead => seq![
            ascii("rev-parse"@),
            ascii("--verify"@),
            ascii("--quiet"@),
            ascii("HEAD"@),
        ],
        GitCommand::Status => seq![
            ascii("status"@),
            ascii("--porcelain=v2"@),
            ascii("-z"@),
            ascii("--untracked-files=all"@),
        ],
        GitCommand::WorktreeDiff { path } => seq![
            ascii("diff"@),
            ascii("--no-ext-diff"@),
            ascii("--no-textconv"@),
            ascii("--find-renames"@),
            ascii("--find-copies"@),
            ascii("--"@),
            path@,
        ],
        GitCommand::UntrackedDiff { path } => seq![
            ascii("diff"@),
            ascii("--no-index"@),
            ascii("--no-ext-diff"@),
            ascii("--no-textconv"@),
            ascii("--"@),
            ascii("/dev/null"@),
            path@,
        ],
        GitCommand::Commits { skip, limit } => seq![
            ascii("log"@),
            ascii("-z"@),
            ascii("--date=iso-strict"@),
            ascii("--topo-order"@),
            ascii(log_format()),
            ascii("--skip="@) + ascii(decimal(skip as nat)),
            ascii("--max-count="@) + ascii(decimal(limit as nat)),
        ],
        GitCommand::RepositoryFiles => seq![
            ascii("ls-files"@),
            ascii("-z"@),
            ascii("--cached"@),
            ascii("--others"@),
            ascii("--exclude-standard"@),
            ascii("--"@),
        ],
        GitCommand::Grep { query } => seq![
            ascii("grep"@),
            ascii("--untracked"@),
            ascii("--exclude-standard"@),
            ascii("-z"@),
            ascii("-n"@),
            ascii("-I"@),
            ascii("-F"@),
            ascii("-e"@),
            encode_utf8(query@),
            ascii("--"@),
        ],
        GitCommand::FileHistory { path, limit } => seq![
            ascii("log"@),
            ascii("-z"@),
            ascii("--date=iso-strict"@),
            ascii(log_format()),
            ascii("--max-count="@) + ascii(decimal(limit as nat)),
            ascii("--"@),
            path@,
        ],
        GitCommand::CommitMessage { commit } => seq![
            ascii("show"@),
            ascii("-s"@),
            ascii("--format=%B"@),
            ascii(commit@),
        ],
        GitCommand::ChangedFiles { commit, baseline } => match baseline {
            CommitBaseline::EmptyTree => seq![
                ascii("diff-tree"@),
                ascii("--root"@),
                ascii("--no-commit-id"@),
                ascii("--name-status"@),
                ascii("-r"@),
                ascii("-z"@),
                ascii("--find-renames"@),
                ascii("--find-copies"@),
                ascii(commit@),
                ascii("--"@),
            ],
            CommitBaseline::FirstParent(parent) => seq![
                ascii("diff"@),
                ascii("--name-status"@),
                ascii("-z"@),
                ascii("--find-renames"@),
                ascii("--find-copies"@),
                ascii(parent@),
                ascii(commit@),
                ascii("--"@),
            ],
        },
        GitCommand::CommitDiff { commit, baseline, path } => match baseline {
            CommitBaseline::EmptyTree => seq![
                ascii("show"@),
                ascii("--format="@),
                ascii("--no-ext-diff"@),
                ascii("--no-textconv"@),
                ascii("--find-renames"@),
                ascii("--find-copies"@),
                ascii(commit@),
                ascii("--"@),
                path@,
            ],
            CommitBaseline::FirstParent(parent) => seq![
                ascii("diff"@),
                ascii("--no-ext-diff"@),
                ascii("--no-textconv"@),
                ascii("--find-renames"@),
                ascii("--find-copies"@),
                ascii(parent@),
                ascii(commit@),
                ascii("--"@),
                path@,
            ],
        },
        GitCommand::TreeEntries { treeish } => seq![
            ascii("ls-tree"@),
            ascii("-z"@),
            ascii(treeish@),
        ],
    }
}

/// The whole argument list of an invocation, after the program name.
pub open spec fn git_args(root: Option<Seq<u8>>, command: GitCommand) -> Seq<Seq<u8>> {
    base_args() + root_args(root) + command_args(command)
}

/// The argument values of a built list.
pub open spec fn args_view(args: Seq<Vec<u8>>) -> Seq<Seq<u8>> {
    args.map_values(|a: Vec<u8>| a@)
}

fn id_arg(id: &ObjectId) -> (v: Vec<u8>)
    ensures
        v@ == ascii(id@),
{
    ascii_arg(id.as_str())
}

fn push_all(args: &mut Vec<Vec<u8>>, more: Vec<Vec<u8>>)
    ensures
        args_view(final(args)@) == args_view(old(args)@) + args_view(more@),
{
    let ghost start = args_view(args@);
    let ghost all = args_view(more@);
    let mut more = more;
    let n = more.len();
    while more.len() > 0
        invariant
            n == all.len(),
            more@.len() <= n,
            args_view(more@) == all.skip(n - more@.len()),
            args_view(args@) == start + all.take(n - more@.len()),
        decreases more@.len(),
    {
        let ghost done = n - more@.len();
        let ghost rest = more@;
        let a = more.remove(0);
        proof {
            assert(args_view(rest) =~= all.skip(done));
            assert(a == rest[0]);
            assert(args_view(rest)[0] == a@);
            assert(a@ == all[done]);
            assert(more@ =~= rest.subrange(1, rest.len() as int));
            assert forall|k: int| 0 <= k < more@.len() implies #[trigger] args_view(more@)[k]
                == all.skip(done + 1)[k] by {
                assert(more@[k] == rest[k + 1]);
                assert(args_view(rest)[k + 1] == all.skip(done)[k + 1]);
            }
            assert(args_view(more@) =~= all.skip(done + 1));
        }
        let ghost before = args@;
        args.push(a);
        proof {
            assert(args_view(before) == start + all.take(done));
            assert(args_view(before).len() == before.len());
            assert(0 <= done < all.len());
            assert(args_view(args@).len() == (start + all.take(done + 1)).len());
            assert forall|k: int| 0 <= k < args@.len() implies #[trigger] args_view(args@)[k]
                == (start + all.take(done + 1))[k] by {
                if k < before.len() {
                    assert(args@[k] == before[k]);
                    assert(args_view(before)[k] == (start + all.take(done))[k]);
                } else {
                    assert(args@[k] == a);
                }
            }
            assert(args_view(args@) =~= start + all.take(done + 1));
        }
    }
    assert(all.take(n as int) =~= all);
}

/// Builds the subcommand and arguments of one read.
fn command_arguments(command: &GitCommand) -> (args: Vec<Vec<u8>>)
    ensures
        args_view(args@) == command_args(*command),
{
    let args: Vec<Vec<u8>> = match command {
        GitCommand::Discover { start } => vec![
            ascii_arg("-C"),
            start.clone(),
            ascii_arg("rev-parse"),
            ascii_arg("--show-toplevel"),
        ],
        GitCommand::IsBare => vec![ascii_arg("rev-parse"), ascii_arg("--is-bare-repository")],
        GitCommand::HasHead => vec![
            ascii_arg("rev-parse"),
            ascii_arg("--verify"),
            ascii_arg("--quiet"),
            ascii_arg("HEAD"),
        ],
        GitCommand::Status => vec![
            ascii_arg("status"),
            ascii_arg("--porcelain=v2"),
            ascii_arg("-z"),
            ascii_arg("--untracked-files=all"),
        ],
        GitCommand::WorktreeDiff { path } => vec![
            ascii_arg("diff"),
            ascii_arg("--no-ext-diff"),
            ascii_arg("--no-textconv"),
            ascii_arg("--find-renames"),
            ascii_arg("--find-copies"),
            ascii_arg("--"),
            owned_bytes(path.as_bytes()),
        ],
        GitCommand::UntrackedDiff { path } => vec![
            ascii_arg("diff"),
            ascii_arg("--no-index"),
            ascii_arg("--no-ext-diff"),
            ascii_arg("--no-textconv"),
            ascii_arg("--"),
            ascii_arg("/dev/null"),
            owned_bytes(path.as_bytes()),
        ],
        GitCommand::Commits { skip, limit } => vec![
            ascii_arg("log"),
            ascii_arg("-z"),
            ascii_arg("--date=iso-strict"),
            ascii_arg("--topo-order"),
            ascii_arg("--format=%H%x00%P%x00%an%x00%aI%x00%s"),
            numbered_arg("--skip=", *skip),
            numbered_arg("--max-count=", *limit),
        ],
        GitCommand::RepositoryFiles => vec![
            ascii_arg("ls-files"),
            ascii_arg("-z"),
            ascii_arg("--cached"),
            ascii_arg("--others"),
            ascii_arg("--exclude-standard"),
            ascii_arg("--"),
        ],
        GitCommand::Grep { query } => vec![
            ascii_arg("grep"),
            ascii_arg("--untracked"),
            ascii_arg("--exclude-standard"),
            ascii_arg("-z"),
            ascii_arg("-n"),
            ascii_arg("-I"),
            ascii_arg("-F"),
            ascii_arg("-e"),
            owned_bytes(query.as_str().as_bytes()),
            ascii_arg("--"),
        ],
        GitCommand::FileHistory { path, limit } => vec![
            ascii_arg("log"),
            ascii_arg("-z"),
            ascii_arg("--date=iso-strict"),
            ascii_arg("--format=%H%x00%P%x00%an%x00%aI%x00%s"),
            numbered_arg("--max-count=", *limit),
            ascii_arg("--"),
            owned_bytes(path.as_bytes()),
        ],
        GitCommand::CommitMessage { commit } => vec![
            ascii_arg("show"),
            ascii_arg("-s"),
            ascii_arg("--format=%B"),
            id_arg(commit),
        ],
        GitCommand::ChangedFiles { commit, baseline } => match baseline {
            CommitBaseline::EmptyTree => vec![
                ascii_arg("diff-tree"),
                ascii_arg("--root"),
                ascii_arg("--no-commit-id"),
                ascii_arg("--name-status"),
                ascii_arg("-r"),
                ascii_arg("-z"),
                ascii_arg("--find-renames"),
                ascii_arg("--find-copies"),
                id_arg(commit),
                ascii_arg("--"),
            ],
            CommitBaseline::FirstParent(parent) => vec![
                ascii_arg("diff"),
                ascii_arg("--name-status"),
                ascii_arg("-z"),
                ascii_arg("--find-renames"),
                ascii_arg("--find-copies"),
                id_arg(parent),
                id_arg(commit),
                ascii_arg("--"),
            ],
        },
        GitCommand::CommitDiff { commit, baseline, path } => match baseline {
            CommitBaseline::EmptyTree => vec![
                ascii_arg("show"),
                ascii_arg("--format="),
                ascii_arg("--no-ext-diff"),
                ascii_arg("--no-textconv"),
                ascii_arg("--find-renames"),
                ascii_arg("--find-copies"),
                id_arg(commit),
                ascii_arg("--"),
                owned_bytes(path.as_bytes()),
            ],
            CommitBaseline::FirstParent(parent) => vec![
                ascii_arg("diff"),
                ascii_arg("--no-ext-diff"),
                ascii_arg("--no-textconv"),
                ascii_arg("--find-renames"),
                ascii_arg("--find-copies"),
                id_arg(parent),
                id_arg(commit),
                ascii_arg("--"),
                owned_bytes(path.as_bytes()),
            ],
        },
        GitCommand::TreeEntries { treeish } => vec![
            ascii_arg("ls-tree"),
            ascii_arg("-z"),
            id_arg(treeish),
        ],
    };
    assert(args_view(args@) =~= command_args(*command));
    args
}

/// The argument list of one invocation, after the program name `git`.
pub fn git_arguments(root: Option<&RepositoryRoot>, command: &GitCommand) -> (args: Vec<Vec<u8>>)
    ensures
        args_view(args@) == git_args(
            match root {
                Some(r) => Some(r@),
                None => None,
            },
            *command,
        ),
{
    let mut args: Vec<Vec<u8>> = vec![
        ascii_arg("--no-pager"),
        ascii_arg("--literal-pathspecs"),
        ascii_arg("-c"),
        ascii_arg("color.ui=false"),
        ascii_arg("-c"),
        ascii_arg("core.quotePath=false"),
        ascii_arg("-c"),
        ascii_arg("core.fsmonitor=false"),
    ];
    assert(args_view(args@) =~= base_args());
    match root {
        Some(r) => {
            push_all(&mut args, vec![ascii_arg("-C"), owned_bytes(r.as_path())]);
        },
        None => {},
    }
    let ghost before = args_view(args@);
    assert(before =~= base_args() + root_args(
        match root {
            Some(r) => Some(r@),
            None => None,
        },
    ));
    push_all(&mut args, command_arguments(command));
    args
}

/// The environment every invocation runs with: no optional locks, no
/// credential prompts, and `cat` as the pager.
pub open spec fn git_env() -> Seq<(Seq<char>, Seq<char>)> {
    seq![
        ("GIT_OPTIONAL_LOCKS"@, "0"@),
        ("GIT_TERMINAL_PROMPT"@, "0"@),
        ("GIT_PAGER"@, "cat"@),
        ("PAGER"@, "cat"@),
    ]
}

pub fn git_environment() -> (env: Vec<(&'static str, &'static str)>)
    ensures
        env@.map_values(|p: (&'static str, &'static str)| (p.0@, p.1@)) == git_env(),
{
    let env = vec![("GIT_OPTIONAL_LOCKS", "0"), ("GIT_TERMINAL_PROMPT", "0"), ("GIT_PAGER", "cat"), ("PAGER", "cat")];
    assert(env@.map_values(|p: (&'static str, &'static str)| (p.0@, p.1@)) =~= git_env());
    env
}

} // verus!

verus! {

/// Git subcommands that only read repository state.
pub open spec fn read_only_subcommand(arg: Seq<u8>) -> bool {
    ||| arg == ascii("rev-parse"@)
    ||| arg == ascii("status"@)
    ||| arg == ascii("diff"@)
    ||| arg == ascii("log"@)
    ||| arg == ascii("ls-files"@)
    ||| arg == ascii("grep"@)
    ||| arg == ascii("show"@)
    ||| arg == ascii("diff-tree"@)
    ||| arg == ascii("ls-tree"@)
}

/// Where the subcommand stands in an argument list: after the common
/// options, the optional `-C root`, and for discovery its own `-C start`.
pub open spec fn subcommand_index(root: Option<Seq<u8>>, command: GitCommand) -> int {
    base_args().len() + root_args(root).len() + match command {
        GitCommand::Discover { .. } => 2int,
        _ => 0int,
    }
}

/// The repository path a command reads, if it names one.
pub open spec fn command_path(command: GitCommand) -> Option<Seq<u8>> {
    match command {
        GitCommand::WorktreeDiff { path } => Some(path@),
        GitCommand::UntrackedDiff { path } => Some(path@),
        GitCommand::FileHistory { path, .. } => Some(path@),
        GitCommand::CommitDiff { path, .. } => Some(path@),
        _ => None,
    }
}

/// Every invocation starts with the options that turn off the pager,
/// colour, path quoting and the filesystem monitor, and reads paths
/// literally.
pub proof fn lemma_protections_first(root: Option<Seq<u8>>, command: GitCommand)
    ensures
        git_args(root, command).len() >= base_args().len(),
        git_args(root, command).take(base_args().len() as int) == base_args(),
{
    assert(git_args(root, command).take(base_args().len() as int) =~= base_args());
}

/// Every invocation runs a subcommand that only reads.
pub proof fn lemma_subcommand_reads_only(root: Option<Seq<u8>>, command: GitCommand)
    ensures
        0 <= subcommand_index(root, command) < git_args(root, command).len(),
        read_only_subcommand(git_args(root, command)[subcommand_index(root, command)]),
{
    let pre = base_args() + root_args(root);
    assert(git_args(root, command) == pre + command_args(command));
    let k = subcommand_index(root, command) - pre.len();
    assert(command_args(command).len() > k);
    assert(git_args(root, command)[subcommand_index(root, command)] == command_args(command)[k]);
}

/// A repository path is passed whole, as the last argument, and only after
/// the `--` that ends option parsing.
pub proof fn lemma_path_after_separator(root: Option<Seq<u8>>, command: GitCommand)
    requires
        command_path(command) is Some,
    ensures
        ({
            let args = git_args(root, command);
            &&& args.last() == command_path(command)->0
            &&& exists|i: int| 0 <= i < args.len() - 1 && args[i] == ascii("--"@)
        }),
{
    let pre = base_args() + root_args(root);
    let c = command_args(command);
    let args = git_args(root, command);
    assert(args == pre + c);
    let sep: int = match command {
        GitCommand::UntrackedDiff { .. } => c.len() - 3,
        _ => c.len() - 2,
    };
    assert(c[sep] == ascii("--"@));
    assert(args[pre.len() + sep] == c[sep]);
    assert(args.last() == c.last());
}

} // verus!
