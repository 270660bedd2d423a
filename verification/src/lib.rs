//! Tells which local Git repositories can be deleted without losing work.
//!
//! A repository is `Safe` to delete if its working tree is clean, its
//! stash is empty and every commit of its branches is known to a remote;
//! `Unsafe` if any of this fails; `Unknown` if it could not be found out.
//!
//! The library decides; it never runs Git, reads a directory or deletes
//! anything. The caller does that and hands over what it met with:
//!
//! - [`gateway`]: the five queries, their arguments, and the reply that
//!   stands for what a process left behind;
//! - [`checker`]: the three checks and the verdict, as a function of the
//!   replies and as a sequence of steps that asks for them;
//! - [`scanner`]: which entries of a directory listing are repositories,
//!   and the scan of all of them;
//! - [`order`]: the order of paths, in which everything is reported;
//! - [`delete`]: which results may be deleted, and the run of deletions,
//!   each guarded by a recheck;
//! - [`output`]: what a report says;
//! - [`cli`]: the options of a run;
//! - [`text`]: lines, white space and joining;
//! - [`types`]: verdicts, findings and results.
//!
//! Every function has a contract over the mathematical value of its
//! arguments, and the laws that relate the functions are proved beside
//! them.

pub mod checker;
pub mod cli;
pub mod delete;
pub mod gateway;
pub mod order;
pub mod output;
pub mod scanner;
mod seqs;
pub mod text;
pub mod types;
