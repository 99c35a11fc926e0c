//! Decisions around history operations: how a commit is made, when an
//! uncommit, a squash or an undo step is refused, how the stash of an undo
//! step is found again, and which commits a log search keeps.

use vstd::prelude::*;

use crate::domain::{CommitInfo, StashInfo};
use crate::error::GitEngineError;
use crate::ops::{commit_hex_ok, validate_commit_hex, RepoState};
use crate::sidecar::{plain, GitCommand, SIDECAR_TIMEOUT_SECS};
use crate::text::{
    chars_of, first_where, has_infix, has_prefix, is_char, lemma_first_where, push_str,
    starts_with_str, string_from_range, trim, trimmed, contains_str,
};

verus! {

/// `r` is the refusal with message `m`.
pub open spec fn refused<T>(r: Result<T, GitEngineError>, m: Seq<char>) -> bool {
    r matches Err(GitEngineError::InvalidOperation(x)) && x@ == m
}

// ---------------------------------------------------------------------------
// Committing
// ---------------------------------------------------------------------------

/// What looking up HEAD's commit gave: a commit, an unborn branch (no
/// commit yet), or another failure.
#[derive(Debug, PartialEq, Eq, Structural)]
pub enum HeadLookup {
    Commit,
    Unborn,
    Failed,
}

/// How a commit is made.
#[derive(Debug, PartialEq, Eq, Structural)]
pub enum CommitWay {
    /// Through the system git, which signs: see [`signed_commit_command`].
    Signed,
    /// HEAD's commit is amended with the message and the index tree.
    Amend,
    /// A new commit on HEAD (no parent on an unborn branch), with the
    /// merge heads as further parents during a merge, the cherry-picked
    /// commit's author during a cherry-pick, and the operation state cleaned
    /// up afterwards during a merge, cherry-pick or revert.
    New { merge_parents: bool, author_from_cherry_pick: bool, cleanup_state: bool },
    /// The failure of looking up HEAD is the result.
    HeadError,
}

/// The plan of a commit: whether HEAD is backed up first (an amend rewrites
/// history), and the way.
#[derive(Debug, PartialEq, Eq, Structural)]
pub struct CommitPlan {
    pub backup: bool,
    pub way: CommitWay,
}

pub open spec fn is_cherry_pick(s: RepoState) -> bool {
    s == RepoState::CherryPick || s == RepoState::CherryPickSequence
}

pub open spec fn is_sequencing(s: RepoState) -> bool {
    is_cherry_pick(s) || s == RepoState::Revert || s == RepoState::RevertSequence
}

/// Why a commit is refused.
pub enum CommitRefusal {
    /// The message is blank.
    EmptyMessage,
    /// An amend during an operation would put the operation's result into
    /// our own predecessor commit.
    AmendDuringOperation,
    /// There is no commit to amend.
    NothingToAmend,
}

pub const MSG_AMEND_DURING_OPERATION: &'static str =
    "Cannot amend while an operation is in progress — continue or abort it first";

/// The plan of a commit with `message` (an amend when `amend`), in a
/// repository in `state` whose HEAD lookup gave `head`, with signing
/// configured or not.
pub open spec fn commit_plan_model(
    message: Seq<char>,
    amend: bool,
    state: RepoState,
    head: HeadLookup,
    signing: bool,
) -> Result<CommitPlan, CommitRefusal> {
    if trim(message).len() == 0 {
        Err(CommitRefusal::EmptyMessage)
    } else {
        let backup = amend && state != RepoState::Merge && head == HeadLookup::Commit;
        if signing {
            Ok(CommitPlan { backup, way: CommitWay::Signed })
        } else if amend {
            if state != RepoState::Clean {
                Err(CommitRefusal::AmendDuringOperation)
            } else {
                match head {
                    HeadLookup::Commit => Ok(CommitPlan { backup, way: CommitWay::Amend }),
                    HeadLookup::Unborn => Err(CommitRefusal::NothingToAmend),
                    HeadLookup::Failed => Ok(CommitPlan { backup, way: CommitWay::HeadError }),
                }
            }
        } else if head == HeadLookup::Failed {
            Ok(CommitPlan { backup, way: CommitWay::HeadError })
        } else {
            Ok(
                CommitPlan {
                    backup,
                    way: CommitWay::New {
                        merge_parents: state == RepoState::Merge,
                        author_from_cherry_pick: is_cherry_pick(state),
                        cleanup_state: state == RepoState::Merge || is_sequencing(state),
                    },
                },
            )
        }
    }
}

/// The first check of a commit, before the repository is opened: a blank
/// message is refused (the same refusal that [`plan_commit`] gives).
pub fn commit_message_check(message: &str) -> (r: Result<(), GitEngineError>)
    ensures
        trim(message@).len() == 0 ==> r matches Err(GitEngineError::EmptyCommitMessage),
        trim(message@).len() > 0 ==> r is Ok,
{
    let t = trimmed(chars_of(message).as_slice());
    if t.len() == 0 {
        return Err(GitEngineError::EmptyCommitMessage);
    }
    Ok(())
}

/// Decides how a commit is made (see [`commit_plan_model`]); the refusal of
/// an amend during an operation carries the message git gives.
pub fn plan_commit(message: &str, amend: bool, state: RepoState, head: HeadLookup, signing: bool) -> (r:
    Result<CommitPlan, GitEngineError>)
    ensures
        match commit_plan_model(message@, amend, state, head, signing) {
            Ok(p) => r == Ok::<CommitPlan, GitEngineError>(p),
            Err(CommitRefusal::EmptyMessage) => r matches Err(GitEngineError::EmptyCommitMessage),
            Err(CommitRefusal::AmendDuringOperation) => r matches Err(
                GitEngineError::Sidecar { message: m },
            ) && m@ == MSG_AMEND_DURING_OPERATION@,
            Err(CommitRefusal::NothingToAmend) => r matches Err(GitEngineError::NothingToAmend),
        },
{
    let t = trimmed(chars_of(message).as_slice());
    if t.len() == 0 {
        return Err(GitEngineError::EmptyCommitMessage);
    }
    let head_ok = match head {
        HeadLookup::Commit => true,
        _ => false,
    };
    let not_merge = match state {
        RepoState::Merge => false,
        _ => true,
    };
    let backup = amend && not_merge && head_ok;
    if signing {
        return Ok(CommitPlan { backup, way: CommitWay::Signed });
    }
    if amend {
        let clean = match state {
            RepoState::Clean => true,
            _ => false,
        };
        if !clean {
            return Err(GitEngineError::Sidecar { message: String::from_str(MSG_AMEND_DURING_OPERATION) });
        }
        return match head {
            HeadLookup::Commit => Ok(CommitPlan { backup, way: CommitWay::Amend }),
            HeadLookup::Unborn => Err(GitEngineError::NothingToAmend),
            HeadLookup::Failed => Ok(CommitPlan { backup, way: CommitWay::HeadError }),
        };
    }
    match head {
        HeadLookup::Failed => {
            return Ok(CommitPlan { backup, way: CommitWay::HeadError });
        },
        _ => {},
    }
    let merging = !not_merge;
    let picking = match state {
        RepoState::CherryPick | RepoState::CherryPickSequence => true,
        _ => false,
    };
    let sequencing = match state {
        RepoState::CherryPick | RepoState::CherryPickSequence | RepoState::Revert
        | RepoState::RevertSequence => true,
        _ => false,
    };
    Ok(
        CommitPlan {
            backup,
            way: CommitWay::New {
                merge_parents: merging,
                author_from_cherry_pick: picking,
                cleanup_state: merging || sequencing,
            },
        },
    )
}

/// The signed commit through the system git: `git commit -F <file>`, with
/// `--amend` for an amend; the message waits in `msg_file`.
pub fn signed_commit_command(msg_file: &str, amend: bool) -> (r: GitCommand)
    ensures
        r.model() == plain(
            if amend {
                seq!["commit"@, "-F"@, msg_file@, "--amend"@]
            } else {
                seq!["commit"@, "-F"@, msg_file@]
            },
            SIDECAR_TIMEOUT_SECS as nat,
            true,
        ),
{
    if amend {
        let a = ["commit", "-F", msg_file, "--amend"];
        let r = crate::sidecar::run_git(&a);
        assert(crate::sidecar::str_views(a@) =~= seq!["commit"@, "-F"@, msg_file@, "--amend"@]);
        r
    } else {
        let a = ["commit", "-F", msg_file];
        let r = crate::sidecar::run_git(&a);
        assert(crate::sidecar::str_views(a@) =~= seq!["commit"@, "-F"@, msg_file@]);
        r
    }
}

// ---------------------------------------------------------------------------
// Uncommit and squash
// ---------------------------------------------------------------------------

/// Whether the last commit may be taken back (a soft reset to its parent):
/// not during an operation, not a merge commit (that would silently drop
/// its other side) and not the first commit.
pub fn uncommit_check(clean: bool, parents: usize) -> (r: Result<(), GitEngineError>)
    ensures
        !clean ==> refused(r, "Undo is not possible during a running operation"@),
        clean && parents > 1 ==> refused(r, "A merge commit cannot be undone via uncommit"@),
        clean && parents == 0 ==> refused(r, "The first commit cannot be undone"@),
        clean && parents == 1 ==> r is Ok,
{
    if !clean {
        return Err(
            GitEngineError::InvalidOperation(
                String::from_str("Undo is not possible during a running operation"),
            ),
        );
    }
    if parents > 1 {
        return Err(
            GitEngineError::InvalidOperation(
                String::from_str("A merge commit cannot be undone via uncommit"),
            ),
        );
    }
    if parents == 0 {
        return Err(
            GitEngineError::InvalidOperation(String::from_str("The first commit cannot be undone")),
        );
    }
    Ok(())
}

/// The checks of a squash before anything is read from the repository: a
/// message, and no operation in progress.
pub fn squash_precheck(message: &str, clean: bool) -> (r: Result<(), GitEngineError>)
    ensures
        trim(message@).len() == 0 ==> r == Err::<(), GitEngineError>(
            GitEngineError::EmptyCommitMessage,
        ),
        trim(message@).len() > 0 && !clean ==> refused(r, "Squash is not possible during a running operation"@),
        trim(message@).len() > 0 && clean ==> r is Ok,
{
    let t = trimmed(chars_of(message).as_slice());
    if t.len() == 0 {
        return Err(GitEngineError::EmptyCommitMessage);
    }
    if !clean {
        return Err(
            GitEngineError::InvalidOperation(
                String::from_str("Squash is not possible during a running operation"),
            ),
        );
    }
    Ok(())
}

/// The checks of a squash of everything since the oldest chosen commit: its
/// parent `base` (none for the first commit) must differ from HEAD `head`
/// and be one of HEAD's ancestors (`descends`).
pub fn squash_base_check(base: Option<&str>, head: &str, descends: bool) -> (r: Result<
    (),
    GitEngineError,
>)
    ensures
        base is None ==> refused(r, "The first commit cannot be part of a squash"@),
        (base matches Some(b) && b@ == head@) ==> refused(r, "There is nothing to squash"@),
        (base matches Some(b) && b@ != head@ && !descends) ==> refused(r, "The squash base is not an ancestor of the current commit"@),
        (base matches Some(b) && b@ != head@ && descends) ==> r is Ok,
{
    let b = match base {
        Some(b) => b,
        None => {
            return Err(
                GitEngineError::InvalidOperation(
                    String::from_str("The first commit cannot be part of a squash"),
                ),
            );
        },
    };
    let bc = chars_of(b);
    if crate::text::chars_eq_str(bc.as_slice(), head) {
        return Err(GitEngineError::InvalidOperation(String::from_str("There is nothing to squash")));
    }
    if !descends {
        return Err(
            GitEngineError::InvalidOperation(
                String::from_str("The squash base is not an ancestor of the current commit"),
            ),
        );
    }
    Ok(())
}

// ---------------------------------------------------------------------------
// Undo steps
// ---------------------------------------------------------------------------

/// The checks before an undo step resets `branch`: no operation in
/// progress, HEAD still on that branch (`head_branch` is HEAD's branch, none
/// when detached), and, when the caller recorded the tip it expects, the
/// branch still there (`head_tip`), or someone else's commit would be lost.
pub fn reset_branch_check(
    clean: bool,
    head_branch: Option<&str>,
    branch: &str,
    expected_tip: Option<&str>,
    head_tip: Option<&str>,
) -> (r: Result<(), GitEngineError>)
    ensures
        !clean ==> refused(r, "Finish or abort the running operation first"@),
        (clean && !(head_branch matches Some(h) && h@ == branch@)) ==> refused(r, "Undo is only possible on the original branch: "@ + branch@),
        (clean && (head_branch matches Some(h) && h@ == branch@)) ==> match expected_tip {
            Some(e) => if head_tip matches Some(t) && t@ == e@ {
                r is Ok
            } else {
                r == Err::<(), GitEngineError>(GitEngineError::UndoStale)
            },
            None => r is Ok,
        },
{
    if !clean {
        return Err(
            GitEngineError::InvalidOperation(
                String::from_str("Finish or abort the running operation first"),
            ),
        );
    }
    let on_branch = match head_branch {
        Some(h) => crate::text::chars_eq_str(chars_of(h).as_slice(), branch),
        None => false,
    };
    if !on_branch {
        let mut m = String::from_str("Undo is only possible on the original branch: ");
        push_str(&mut m, branch);
        return Err(GitEngineError::InvalidOperation(m));
    }
    match expected_tip {
        Some(e) => {
            let same = match head_tip {
                Some(t) => crate::text::chars_eq_str(chars_of(t).as_slice(), e),
                None => false,
            };
            if !same {
                return Err(GitEngineError::UndoStale);
            }
        },
        None => {},
    }
    Ok(())
}

/// A hard reset overwrites index and worktree: only when nothing unsaved is
/// lost, i.e. the tree is clean (untracked files stay) or index and
/// worktree already match the target commit.
pub fn hard_reset_check(tree_clean: bool, matches_target: bool) -> (r: Result<(), GitEngineError>)
    ensures
        tree_clean || matches_target ==> r is Ok,
        !tree_clean && !matches_target ==> refused(r, "Uncommitted changes in the working directory — stash or discard them first"@),
{
    if !tree_clean && !matches_target {
        return Err(
            GitEngineError::InvalidOperation(
                String::from_str(
                    "Uncommitted changes in the working directory — stash or discard them first",
                ),
            ),
        );
    }
    Ok(())
}

/// A deleted branch is recreated only under a free name.
pub fn recreate_branch_check(name: &str, exists: bool) -> (r: Result<(), GitEngineError>)
    ensures
        !exists ==> r is Ok,
        exists ==> refused(r, "Branch \u{201c}"@
            + name@ + "\u{201d} already exists"@),
{
    if exists {
        let mut m = String::from_str("Branch \u{201c}");
        push_str(&mut m, name);
        push_str(&mut m, "\u{201d} already exists");
        return Err(GitEngineError::InvalidOperation(m));
    }
    Ok(())
}

/// The stash entry that belongs to a commit id: ids may be abbreviated on
/// either side, so one is a prefix of the other.
pub open spec fn stash_matches(id: Seq<char>, commit: Seq<char>) -> bool {
    has_prefix(id, commit) || has_prefix(commit, id)
}

/// The position of the first stash entry that matches, if any.
pub open spec fn first_stash_match(list: Seq<StashInfo>, commit: Seq<char>) -> Option<int>
    decreases list.len(),
{
    if list.len() == 0 {
        None
    } else {
        match first_stash_match(list.drop_last(), commit) {
            Some(i) => Some(i),
            None => if stash_matches(list.last().id@, commit) {
                Some(list.len() - 1)
            } else {
                None
            },
        }
    }
}

/// The stack index of the stash that the undo step recorded by its commit
/// (indices shift, commit ids stay): a malformed id is refused first.
pub fn find_stash_by_commit(list: &[StashInfo], commit: &str) -> (r: Result<usize, GitEngineError>)
    ensures
        !commit_hex_ok(commit@) ==> refused(r, "Invalid commit id: "@ + commit@),
        commit_hex_ok(commit@) ==> match first_stash_match(list@, commit@) {
            Some(i) => r == Ok::<usize, GitEngineError>(list@[i].index),
            None => refused(r, "Stash no longer exists"@),
        },
{
    match validate_commit_hex(commit) {
        Ok(()) => {},
        Err(e) => {
            return Err(e);
        },
    }
    let c = chars_of(commit);
    let mut i: usize = 0;
    assert(list@.take(0) =~= Seq::<StashInfo>::empty());
    while i < list.len()
        invariant
            i <= list@.len(),
            c@ == commit@,
            commit_hex_ok(commit@),
            first_stash_match(list@.take(i as int), commit@) is None,
        decreases list@.len() - i,
    {
        assert(list@.take(i + 1).drop_last() =~= list@.take(i as int));
        assert(list@.take(i + 1).last() == list@[i as int]);
        let id = chars_of(list[i].id.as_str());
        if starts_with_str(id.as_slice(), commit) || starts_with_str(c.as_slice(), list[i].id.as_str()) {
            proof {
                lemma_stash_match_stays(list@, commit@, i + 1);
            }
            return Ok(list[i].index);
        }
        i = i + 1;
    }
    assert(list@.take(list@.len() as int) =~= list@);
    Err(GitEngineError::InvalidOperation(String::from_str("Stash no longer exists")))
}

proof fn lemma_stash_match_stays(list: Seq<StashInfo>, commit: Seq<char>, k: int)
    requires
        0 <= k <= list.len(),
        first_stash_match(list.take(k), commit) is Some,
    ensures
        first_stash_match(list, commit) == first_stash_match(list.take(k), commit),
    decreases list.len() - k,
{
    if k < list.len() {
        assert(list.take(k + 1).drop_last() =~= list.take(k));
        lemma_stash_match_stays(list, commit, k + 1);
    } else {
        assert(list.take(k) =~= list);
    }
}

// ---------------------------------------------------------------------------
// Commit messages
// ---------------------------------------------------------------------------

/// The body of a commit message: everything after the first line, trimmed
/// (nothing for a one-line message).
pub open spec fn message_body_model(m: Seq<char>) -> Seq<char> {
    let i = first_where(m, is_char('\n'));
    if i < m.len() {
        trim(m.subrange(i as int + 1, m.len() as int))
    } else {
        Seq::empty()
    }
}

/// The body of a commit message (see [`message_body_model`]).
pub fn message_body(message: &str) -> (r: String)
    ensures
        r@ == message_body_model(message@),
{
    let c = chars_of(message);
    let s = c.as_slice();
    let mut i: usize = 0;
    while i < s.len() && s[i] != '\n'
        invariant
            i <= s@.len(),
            forall|j: int| 0 <= j < i ==> s@[j] != '\n',
        decreases s@.len() - i,
    {
        i = i + 1;
    }
    proof {
        lemma_first_where(s@, is_char('\n'), i as int);
    }
    if i == s.len() {
        return String::new();
    }
    let rest = crate::text::vec_from_range(s, i + 1, s.len());
    let t = trimmed(rest.as_slice());
    crate::text::string_from(t.as_slice())
}

// ---------------------------------------------------------------------------
// Log search
// ---------------------------------------------------------------------------

/// The most commits a search looks at, however large the history.
pub const SEARCH_SCAN_CAP: usize = 100000;

/// What `str::to_lowercase` gives (full Unicode case mapping).
pub uninterp spec fn lowercase(s: Seq<char>) -> Seq<char>;

/// `str::to_lowercase`.
#[verifier::external_body]
pub(crate) fn to_lowercase(s: &str) -> (r: String)
    ensures
        r@ == lowercase(s@),
{
    s.to_lowercase()
}

/// What a search for `query` looks for: the query lowercased, as the
/// subjects and authors it is compared with are (see [`commit_matches`]).
pub fn search_needle(query: &str) -> (r: String)
    ensures
        r@ == lowercase(query@),
{
    to_lowercase(query)
}

/// A commit matches the lowercased query `needle` when its subject, author
/// name or author mail contains it (case-insensitively), or its id starts
/// with it.
pub open spec fn commit_matches(c: CommitInfo, needle: Seq<char>) -> bool {
    has_infix(lowercase(c.summary@), needle) || has_infix(lowercase(c.author_name@), needle)
        || has_infix(lowercase(c.author_email@), needle) || has_prefix(c.id@, needle)
}

/// A search keeps a commit exactly when the lowercased query `needle`
/// occurs in its lowercased subject, author name or author e-mail, or
/// begins its id; a match in any one of these alone is enough.
pub proof fn lemma_search_match_fields(c: CommitInfo, needle: Seq<char>)
    ensures
        has_infix(lowercase(c.summary@), needle) ==> commit_matches(c, needle),
        has_infix(lowercase(c.author_name@), needle) ==> commit_matches(c, needle),
        has_infix(lowercase(c.author_email@), needle) ==> commit_matches(c, needle),
        has_prefix(c.id@, needle) ==> commit_matches(c, needle),
        commit_matches(c, needle) ==> has_infix(lowercase(c.summary@), needle) || has_infix(
            lowercase(c.author_name@),
            needle,
        ) || has_infix(lowercase(c.author_email@), needle) || has_prefix(c.id@, needle),
{
}

fn matches_commit(c: &CommitInfo, needle: &str) -> (r: bool)
    ensures
        r == commit_matches(*c, needle@),
{
    let s = to_lowercase(c.summary.as_str());
    if contains_str(chars_of(s.as_str()).as_slice(), needle) {
        return true;
    }
    let n = to_lowercase(c.author_name.as_str());
    if contains_str(chars_of(n.as_str()).as_slice(), needle) {
        return true;
    }
    let e = to_lowercase(c.author_email.as_str());
    if contains_str(chars_of(e.as_str()).as_slice(), needle) {
        return true;
    }
    starts_with_str(chars_of(c.id.as_str()).as_slice(), needle)
}

/// One commit of a search through the history (newest first): it is kept
/// when it matches, and the search goes on while fewer than `limit` commits
/// were kept and fewer than [`SEARCH_SCAN_CAP`] looked at.
pub fn search_step(
    found: &mut Vec<CommitInfo>,
    scanned: &mut usize,
    c: CommitInfo,
    needle: &str,
    limit: usize,
) -> (go_on: bool)
    requires
        *old(scanned) < usize::MAX,
    ensures
        final(found)@ == if commit_matches(c, needle@) {
            old(found)@.push(c)
        } else {
            old(found)@
        },
        *final(scanned) == *old(scanned) + 1,
        go_on == (final(found)@.len() < limit && *final(scanned) < SEARCH_SCAN_CAP),
{
    *scanned = *scanned + 1;
    if matches_commit(&c, needle) {
        found.push(c);
    }
    found.len() < limit && *scanned < SEARCH_SCAN_CAP
}

} // verus!
