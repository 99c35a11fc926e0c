//! Error type of the git engine, with a stable code per variant for the
//! frontend and the text the user sees.

use vstd::prelude::*;

use crate::text::{join, push_str};

verus! {

/// The I/O error of `std`, carried through unchanged.
#[verifier::external_type_specification]
#[verifier::external_body]
pub struct ExIoError(std::io::Error);

/// The error of the `git2` library, carried through unchanged.
#[verifier::external_type_specification]
#[verifier::external_body]
pub struct ExGitError(git2::Error);

/// Errors of the git engine.
#[derive(Debug)]
pub enum GitEngineError {
    NotARepository(String),
    BranchNotFound(String),
    BranchNotMerged(String),
    EmptyCommitMessage,
    NothingToAmend,
    Sidecar { message: String },
    Cancelled,
    /// Classified remote error (fetch/pull/push/clone) with a stable,
    /// action-oriented code (e.g. `non_fast_forward`).
    Remote { code: &'static str, message: String },
    /// SSH error with a stable code (`ssh_no_home`, `ssh_key_exists`, …).
    Ssh { code: &'static str, message: String },
    /// The branch no longer sits on the recorded tip: an undo would throw away
    /// someone else's commits.
    UndoStale,
    InvalidOperation(String),
    /// A checkout that would overwrite uncommitted changes in these files.
    CheckoutWouldOverwrite { files: Vec<String> },
    Io(std::io::Error),
    Git(git2::Error),
}

/// The stable code of an error.
pub open spec fn error_code(e: GitEngineError) -> Seq<char> {
    match e {
        GitEngineError::NotARepository(_) => "not_a_repository"@,
        GitEngineError::BranchNotFound(_) => "branch_not_found"@,
        GitEngineError::BranchNotMerged(_) => "branch_not_merged"@,
        GitEngineError::EmptyCommitMessage => "empty_commit_message"@,
        GitEngineError::NothingToAmend => "nothing_to_amend"@,
        GitEngineError::Sidecar { .. } => "sidecar_failed"@,
        GitEngineError::Cancelled => "cancelled"@,
        GitEngineError::Remote { code, .. } => code@,
        GitEngineError::Ssh { code, .. } => code@,
        GitEngineError::UndoStale => "undo_stale"@,
        GitEngineError::InvalidOperation(_) => "invalid_operation"@,
        GitEngineError::CheckoutWouldOverwrite { .. } => "checkout_would_overwrite"@,
        GitEngineError::Io(_) => "io_error"@,
        GitEngineError::Git(_) => "git_error"@,
    }
}

/// The text of an error, for every variant that does not carry an error of
/// another library.
pub open spec fn error_message(e: GitEngineError) -> Seq<char> {
    match e {
        GitEngineError::NotARepository(s) => "Not a Git repository: "@ + s@,
        GitEngineError::BranchNotFound(s) => "Branch not found: "@ + s@,
        GitEngineError::BranchNotMerged(s) => "Branch “"@ + s@
            + "” is not merged — deleting it has to be forced"@,
        GitEngineError::EmptyCommitMessage => "The commit message must not be empty"@,
        GitEngineError::NothingToAmend => "There is no commit to amend"@,
        GitEngineError::Sidecar { message } => "git command failed: "@ + message@,
        GitEngineError::Cancelled => "Operation cancelled"@,
        GitEngineError::Remote { message, .. } => message@,
        GitEngineError::Ssh { message, .. } => message@,
        GitEngineError::UndoStale => "The branch has changed in the meantime — undo/redo of this step is no longer safe"@,
        GitEngineError::InvalidOperation(s) => s@,
        GitEngineError::CheckoutWouldOverwrite { files } => join(
            Seq::new(files@.len(), |i: int| files@[i]@),
            ", "@,
        ),
        GitEngineError::Io(_) => "I/O error: "@,
        GitEngineError::Git(_) => Seq::empty(),
    }
}

/// The `Display` text of an I/O error (`std::io::Error`'s `Display`). It
/// depends on the operating system's message for the error, so nothing is
/// stated of it.
#[verifier::external_body]
fn io_error_text(e: &std::io::Error) -> String {
    format!("{e}")
}

/// The `Display` text of a `git2::Error` (its message, followed by class and
/// code where they are set). The message comes from libgit2, so nothing is
/// stated of it.
#[verifier::external_body]
fn git_error_text(e: &git2::Error) -> String {
    format!("{e}")
}

/// `a` followed by `b`.
fn concat(a: &str, b: &str) -> (r: String)
    ensures
        r@ == a@ + b@,
{
    let mut s = String::new();
    push_str(&mut s, a);
    push_str(&mut s, b);
    assert(s@ =~= a@ + b@);
    s
}

/// The strings of `parts` joined with `sep`.
pub fn join_strings(parts: &Vec<String>, sep: &str) -> (r: String)
    ensures
        r@ == join(Seq::new(parts@.len(), |i: int| parts@[i]@), sep@),
{
    let ghost all = Seq::new(parts@.len(), |i: int| parts@[i]@);
    let mut s = String::new();
    let mut i: usize = 0;
    while i < parts.len()
        invariant
            i <= parts@.len(),
            all == Seq::new(parts@.len(), |k: int| parts@[k]@),
            s@ == join(all.take(i as int), sep@),
        decreases parts@.len() - i,
    {
        if i > 0 {
            push_str(&mut s, sep);
        }
        push_str(&mut s, parts[i].as_str());
        proof {
            let t = all.take(i + 1);
            assert(t.drop_last() =~= all.take(i as int));
            if i == 0 {
                assert(s@ =~= t[0]);
            } else {
                assert(s@ =~= join(t.drop_last(), sep@) + sep@ + t.last());
            }
        }
        i = i + 1;
    }
    assert(all.take(parts@.len() as int) =~= all);
    s
}

impl GitEngineError {
    /// Stable error code for the frontend (independent of the message text).
    pub fn code(&self) -> (r: &'static str)
        ensures
            r@ == error_code(*self),
    {
        match self {
            GitEngineError::NotARepository(_) => "not_a_repository",
            GitEngineError::BranchNotFound(_) => "branch_not_found",
            GitEngineError::BranchNotMerged(_) => "branch_not_merged",
            GitEngineError::EmptyCommitMessage => "empty_commit_message",
            GitEngineError::NothingToAmend => "nothing_to_amend",
            GitEngineError::Sidecar { .. } => "sidecar_failed",
            GitEngineError::Cancelled => "cancelled",
            GitEngineError::Remote { code, .. } => code,
            GitEngineError::Ssh { code, .. } => code,
            GitEngineError::UndoStale => "undo_stale",
            GitEngineError::InvalidOperation(_) => "invalid_operation",
            GitEngineError::CheckoutWouldOverwrite { .. } => "checkout_would_overwrite",
            GitEngineError::Io(_) => "io_error",
            GitEngineError::Git(_) => "git_error",
        }
    }

    /// The text shown to the user. For an I/O error it is `I/O error: `
    /// followed by the system's text; for a library error, that library's
    /// text.
    pub fn message(&self) -> (r: String)
        ensures
            match *self {
                GitEngineError::Io(_) => r@.len() >= error_message(*self).len()
                    && r@.take(error_message(*self).len() as int) == error_message(*self),
                GitEngineError::Git(_) => true,
                _ => r@ == error_message(*self),
            },
    {
        match self {
            GitEngineError::NotARepository(s) => concat("Not a Git repository: ", s.as_str()),
            GitEngineError::BranchNotFound(s) => concat("Branch not found: ", s.as_str()),
            GitEngineError::BranchNotMerged(s) => {
                let mut r = concat("Branch “", s.as_str());
                push_str(&mut r, "” is not merged — deleting it has to be forced");
                r
            },
            GitEngineError::EmptyCommitMessage => String::from_str(
                "The commit message must not be empty",
            ),
            GitEngineError::NothingToAmend => String::from_str("There is no commit to amend"),
            GitEngineError::Sidecar { message } => concat(
                "git command failed: ",
                message.as_str(),
            ),
            GitEngineError::Cancelled => String::from_str("Operation cancelled"),
            GitEngineError::Remote { message, .. } => message.clone(),
            GitEngineError::Ssh { message, .. } => message.clone(),
            GitEngineError::UndoStale => String::from_str(
                "The branch has changed in the meantime — undo/redo of this step is no longer safe",
            ),
            GitEngineError::InvalidOperation(s) => s.clone(),
            GitEngineError::CheckoutWouldOverwrite { files } => join_strings(files, ", "),
            GitEngineError::Io(e) => {
                let t = io_error_text(e);
                let r = concat("I/O error: ", t.as_str());
                assert(r@.take("I/O error: "@.len() as int) =~= "I/O error: "@);
                r
            },
            GitEngineError::Git(e) => git_error_text(e),
        }
    }
}

} // verus!
