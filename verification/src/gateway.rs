//! The questions that the checks put to Git, and what comes back.
//!
//! Nothing here starts a process. The caller runs `git` with the arguments
//! of `command_line` and hands the outcome to `git_command`, which turns it
//! into the reply that the checks read.

use crate::text::{join, joined, trim, trimmed};
use vstd::prelude::*;

verus! {

/// One of the five fixed questions that a check puts to Git.
#[derive(Debug, Clone, Copy, PartialEq, Eq, Structural)]
pub enum Query {
    /// The state of the working tree and the index, one entry per line.
    Status,
    /// The stash, one entry per line.
    StashList,
    /// The names of the configured remotes.
    Remotes,
    /// The names of the remote-tracking refs.
    RemoteRefs,
    /// The commits that some local branch reaches and no remote-tracking
    /// ref does, one per line.
    LocalOnlyLog,
}

impl Query {
    /// The arguments that put this question.
    pub open spec fn spec_args(self) -> Seq<Seq<char>> {
        match self {
            Query::Status => seq!["status"@, "--porcelain"@],
            Query::StashList => seq!["stash"@, "list"@],
            Query::Remotes => seq!["remote"@],
            Query::RemoteRefs => seq!["for-each-ref"@, "--format=%(refname)"@, "refs/remotes/"@],
            Query::LocalOnlyLog => seq![
                "log"@,
                "--oneline"@,
                "--branches"@,
                "--not"@,
                "--remotes"@,
            ],
        }
    }

    /// The arguments that put this question to Git.
    pub fn args(&self) -> (args: Vec<String>)
        ensures
            args.deep_view() == self.spec_args(),
    {
        let mut args: Vec<String> = Vec::new();
        match self {
            Query::Status => {
                args.push("status".to_string());
                args.push("--porcelain".to_string());
            },
            Query::StashList => {
                args.push("stash".to_string());
                args.push("list".to_string());
            },
            Query::Remotes => {
                args.push("remote".to_string());
            },
            Query::RemoteRefs => {
                args.push("for-each-ref".to_string());
                args.push("--format=%(refname)".to_string());
                args.push("refs/remotes/".to_string());
            },
            Query::LocalOnlyLog => {
                args.push("log".to_string());
                args.push("--oneline".to_string());
                args.push("--branches".to_string());
                args.push("--not".to_string());
                args.push("--remotes".to_string());
            },
        }
        assert(args.deep_view() =~= self.spec_args());
        args
    }
}

/// Why a Git invocation gave no output to read.
#[derive(Debug, Clone, PartialEq, Eq)]
pub struct GatewayError {
    /// What went wrong, for the reader of a report.
    pub message: String,
}

impl View for GatewayError {
    type V = Seq<char>;

    open spec fn view(&self) -> Seq<char> {
        self.message@
    }
}

/// What a started process left behind.
#[derive(Debug, Clone, PartialEq, Eq)]
pub struct ProcessOutput {
    /// Whether the process exited with code zero.
    pub success: bool,
    /// What it wrote to standard output.
    pub stdout: String,
    /// What it wrote to standard error.
    pub stderr: String,
}

/// The answer to a query: the text that Git printed, or the failure.
pub type Reply = Result<String, GatewayError>;

/// The mathematical value of a `Reply`: the text printed, or the message
/// of the failure.
pub type ReplyView = Result<Seq<char>, Seq<char>>;

/// The mathematical value of `reply`.
pub open spec fn reply_view(reply: Reply) -> ReplyView {
    match reply {
        Ok(output) => Ok(output@),
        Err(error) => Err(error@),
    }
}

/// The arguments of the process that runs `args` on the repository at
/// `repo_path`.
pub open spec fn spec_command_line(repo_path: Seq<char>, args: Seq<Seq<char>>) -> Seq<Seq<char>> {
    seq!["-C"@, repo_path] + args
}

/// The message of an invocation with `args` that exited with a code other
/// than zero and wrote `stderr`.
pub open spec fn failure_message(args: Seq<Seq<char>>, stderr: Seq<char>) -> Seq<char> {
    "git "@ + joined(args) + " failed: "@ + trimmed(stderr)
}

/// The reply that stands for the outcome of an invocation with `args`:
/// the output of a process that exited with code zero; else the failure
/// message; and the launch error where no process ran.
pub open spec fn spec_git_command(
    args: Seq<Seq<char>>,
    outcome: Result<ProcessOutput, String>,
) -> ReplyView {
    match outcome {
        Ok(output) => if output.success {
            Ok(output.stdout@)
        } else {
            Err(failure_message(args, output.stderr@))
        },
        Err(launch_error) => Err(launch_error@),
    }
}

/// The arguments to start `git` with, so that it runs `args` on the
/// repository at `repo_path`.
pub fn command_line(repo_path: &str, args: &Vec<String>) -> (line: Vec<String>)
    ensures
        line.deep_view() == spec_command_line(repo_path@, args.deep_view()),
{
    let mut line: Vec<String> = Vec::new();
    line.push("-C".to_string());
    line.push(repo_path.to_string());
    let mut i: usize = 0;
    while i < args.len()
        invariant
            i <= args@.len(),
            line.deep_view() == seq!["-C"@, repo_path@] + args.deep_view().take(i as int),
        decreases args@.len() - i,
    {
        let ghost before = line.deep_view();
        line.push(args[i].clone());
        assert(line.deep_view() =~= before.push(args@[i as int]@));
        assert(before.push(args@[i as int]@) =~= seq!["-C"@, repo_path@] + args.deep_view().take(
            i + 1,
        ));
        i += 1;
    }
    assert(args.deep_view().take(args@.len() as int) =~= args.deep_view());
    line
}

/// Turns the outcome of an invocation of `git` with `args` into a reply.
///
/// `outcome` is what the process left behind, or the text of the error that
/// kept it from starting. Only an exit with code zero is a success.
pub fn git_command(args: &Vec<String>, outcome: Result<ProcessOutput, String>) -> (reply: Reply)
    ensures
        reply_view(reply) == spec_git_command(args.deep_view(), outcome),
{
    match outcome {
        Ok(output) => {
            if output.success {
                Ok(output.stdout)
            } else {
                let mut message = "git ".to_string();
                message.append(join(args).as_str());
                message.append(" failed: ");
                message.append(trim(output.stderr.as_str()).as_str());
                Err(GatewayError { message })
            }
        },
        Err(launch_error) => Err(GatewayError { message: launch_error }),
    }
}

} // verus!
