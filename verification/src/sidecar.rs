//! The system-git sidecar: remote and multi-step operations run through the
//! installed `git`, so that its credential helpers apply.
//!
//! This module holds what the sidecar decides: the command lines it runs (see
//! [`GitCommand`]), how it reads progress and log output, how it classifies a
//! failed remote operation, and which inputs it refuses. Running the process
//! is left to the caller, who hands the outcome back to [`finish`].

use vstd::prelude::*;

use crate::domain::{CloneOptions, CommitInfo, GitProgress};
use crate::error::GitEngineError;
use crate::status_fast::opt_string_view;
use crate::text::{
    all_hex, ascii_lower, is_char, ascii_lowercase, chars_of, contains_str, digits_value, first_where,
    find_from, has_infix, is_hex, piece, piece_of, after_char, skip_pieces, split_whitespace,
    string_views, words, join, has_prefix, i32_to_string, is_alnum, is_alnum_char, is_digit,
    is_digit_char, is_ws, is_whitespace, lemma_first_where, lemma_last_where, last_where,
    occurs_at, parse_i64, parse_unsigned, push_str, replace_char, replace_chars, signed_decimal,
    signed_value, split_chars, split_on, starts_with_str, string_from, strip_prefix_str, trim,
    trimmed, u64_to_string, decimal, vec_from_range, views,
};

verus! {

// ---------------------------------------------------------------------------
// Progress lines
// ---------------------------------------------------------------------------

/// Phase names the frontend translates, in the order they are tested.
pub open spec fn phase_model(raw: Seq<char>) -> Seq<char> {
    let low = ascii_lower(raw);
    if has_infix(low, "receiving"@) {
        "receiving"@
    } else if has_infix(low, "resolving"@) {
        "resolving"@
    } else if has_infix(low, "compressing"@) {
        "compressing"@
    } else if has_infix(low, "counting"@) {
        "counting"@
    } else if has_infix(low, "writing"@) {
        "writing"@
    } else if has_infix(low, "enumerating"@) {
        "enumerating"@
    } else {
        "other"@
    }
}

/// Number of trailing ASCII digits of `s`.
pub open spec fn digit_suffix_len(s: Seq<char>) -> nat
    decreases s.len(),
{
    if s.len() > 0 && is_digit(s.last()) {
        1 + digit_suffix_len(s.drop_last())
    } else {
        0
    }
}

/// What `parse_progress(line)` returns, as (phase, percent): the line is
/// trimmed and loses an optional `remote:` prefix; the phase is the text
/// before the first `:`, the percentage the digits right before the first `%`
/// after it (at most 255, capped at 100).
pub open spec fn progress_model(line: Seq<char>) -> Option<(Seq<char>, nat)> {
    let t1 = trim(line);
    let t2 = if has_prefix(t1, "remote:"@) {
        trim(t1.skip("remote:"@.len() as int))
    } else {
        t1
    };
    let c = first_where(t2, is_char(':'));
    if c >= t2.len() {
        None
    } else {
        let rest = t2.skip(c as int + 1);
        let pct = first_where(rest, is_char('%'));
        if pct >= rest.len() {
            None
        } else {
            let head = rest.take(pct as int);
            let n = digit_suffix_len(head);
            let value = digits_value(head.skip(head.len() - n));
            if n == 0 || value > 255 {
                None
            } else {
                Some(
                    (
                        phase_model(t2.take(c as int)),
                        if value > 100 {
                            100
                        } else {
                            value
                        },
                    ),
                )
            }
        }
    }
}

pub open spec fn progress_view(p: Option<GitProgress>) -> Option<(Seq<char>, nat)> {
    match p {
        Some(g) => Some((g.phase@, g.percent as nat)),
        None => None,
    }
}

/// Normalizes a progress phase to one of the names the frontend knows.
fn normalize_phase(raw: &str) -> (r: String)
    ensures
        r@ == phase_model(raw@),
{
    let cs = chars_of(raw);
    let low = ascii_lowercase(cs.as_slice());
    let l = low.as_slice();
    if contains_str(l, "receiving") {
        String::from_str("receiving")
    } else if contains_str(l, "resolving") {
        String::from_str("resolving")
    } else if contains_str(l, "compressing") {
        String::from_str("compressing")
    } else if contains_str(l, "counting") {
        String::from_str("counting")
    } else if contains_str(l, "writing") {
        String::from_str("writing")
    } else if contains_str(l, "enumerating") {
        String::from_str("enumerating")
    } else {
        String::from_str("other")
    }
}

/// Index of the first `c` in `s` (or the length).
fn index_of(s: &[char], c: char) -> (r: usize)
    ensures
        r == first_where(s@, is_char(c)),
        r <= s@.len(),
{
    let mut i: usize = 0;
    while i < s.len() && s[i] != c
        invariant
            i <= s@.len(),
            forall|j: int| 0 <= j < i ==> s@[j] != c,
        decreases s@.len() - i,
    {
        i = i + 1;
    }
    proof {
        lemma_first_where(s@, is_char(c), i as int);
    }
    i
}

proof fn lemma_digit_suffix(s: Seq<char>, k: int)
    requires
        0 <= k <= s.len(),
        forall|j: int| k <= j < s.len() ==> is_digit(s[j]),
        k == 0 || !is_digit(s[k - 1]),
    ensures
        digit_suffix_len(s) == s.len() - k,
    decreases s.len(),
{
    if s.len() > k {
        lemma_digit_suffix(s.drop_last(), k);
    }
}

/// Parses a `git --progress` line (`Receiving objects:  45% (450/1000)`)
/// into phase and percent; `None` when the line carries no progress.
pub fn parse_progress(line: &str) -> (r: Option<GitProgress>)
    ensures
        progress_view(r) == progress_model(line@),
{
    let cs = chars_of(line);
    let t1 = trimmed(cs.as_slice());
    let t2 = match strip_prefix_str(t1.as_slice(), "remote:") {
        Some(rest) => trimmed(rest.as_slice()),
        None => t1,
    };
    let s = t2.as_slice();
    let c = index_of(s, ':');
    if c >= s.len() {
        return None;
    }
    let rest = vec_from_range(s, c + 1, s.len());
    assert(rest@ =~= s@.skip(c + 1));
    let r = rest.as_slice();
    let pct = index_of(r, '%');
    if pct >= r.len() {
        return None;
    }
    let mut k = pct;
    while k > 0 && is_digit_char(r[k - 1])
        invariant
            k <= pct < r@.len(),
            forall|j: int| k <= j < pct ==> is_digit(r@[j]),
        decreases k,
    {
        k = k - 1;
    }
    let ghost head = r@.take(pct as int);
    proof {
        lemma_digit_suffix(head, k as int);
    }
    let digits = vec_from_range(r, k, pct);
    assert(digits@ =~= head.skip(head.len() - digit_suffix_len(head)));
    if k == pct {
        return None;
    }
    assert(forall|j: int| 0 <= j < digits@.len() ==> is_digit(digits@[j]));
    assert(digits@[0] != '+');
    let value = match parse_unsigned(digits.as_slice(), 255) {
        Some(v) => v,
        None => {
            return None;
        },
    };
    let percent: u8 = if value > 100 {
        100
    } else {
        value as u8
    };
    let phase_raw = string_from_slice(s, 0, c);
    Some(GitProgress { phase: normalize_phase(phase_raw.as_str()), percent })
}

/// The string for `s[from..to]`.
fn string_from_slice(s: &[char], from: usize, to: usize) -> (r: String)
    requires
        from <= to <= s@.len(),
    ensures
        r@ == s@.subrange(from as int, to as int),
{
    let v = vec_from_range(s, from, to);
    string_from(v.as_slice())
}

// ---------------------------------------------------------------------------
// Remote errors
// ---------------------------------------------------------------------------

pub const MSG_HOST_KEY: &'static str = "SSH host key not verified or changed. Check the system's known_hosts entries (remove the old entry if the server key changed).";

pub const MSG_SSH_AUTH: &'static str = "SSH authentication failed (no matching key). Is the right key loaded in the SSH agent and registered with the remote?";

pub const MSG_FORCE_LEASE_STALE: &'static str = "Force push rejected: the remote branch has changed since the last fetch. Fetch first and review the new commits before overwriting.";

pub const MSG_NON_FAST_FORWARD: &'static str = "Push rejected: the remote branch has commits you do not have locally. Pull first (merge/rebase) — or deliberately overwrite with a force push.";

pub const MSG_FORBIDDEN: &'static str = "Rejected by the server (missing permission or a protected branch). Check your repository rights and the branch protection rules.";

pub const MSG_AUTH_FAILED: &'static str = "Authentication failed. Check the credentials (credential manager / is the token valid?) — terra-git uses the system credentials.";

pub const MSG_REPO_NOT_FOUND: &'static str = "Repository not found on the remote. Check the URL (and whether you have access).";

pub const MSG_NO_UPSTREAM: &'static str = "No upstream set for this branch. The first push creates one automatically; otherwise pick a remote target.";

pub const MSG_DIVERGENT: &'static str = "The local and remote branch have diverged. Reconcile them with a pull using merge or rebase.";

pub const MSG_MERGE_CONFLICT: &'static str = "The pull created conflicts. Resolve them in the conflict view and continue the operation afterwards.";

pub const MSG_NETWORK: &'static str = "Network error: the remote is unreachable. Check the connection, the URL and any proxy/VPN.";

/// `p` occurs in `t` at `i` and is not followed by a letter or digit.
pub open spec fn status_code_at_index(t: Seq<char>, p: Seq<char>, i: int) -> bool {
    occurs_at(t, p, i) && (i + p.len() >= t.len() || !is_alnum(t[i + p.len()]))
}

/// `p` occurs in `t` and is not followed by a letter or digit: an HTTP status
/// rather than part of a counter or an object name.
pub open spec fn status_at(t: Seq<char>, p: Seq<char>) -> bool {
    exists|i: int| #[trigger] status_code_at_index(t, p, i)
}

/// The output reports an HTTP 403.
pub open spec fn http_403(t: Seq<char>) -> bool {
    status_at(t, "http 403"@) || status_at(t, "error: 403"@) || status_at(t, "status code: 403"@)
        || has_infix(t, "403 forbidden"@)
}

/// The classification of the lower-cased output `t` of a failed remote
/// operation, from the most specific signature to the most general.
pub open spec fn classify_lower(t: Seq<char>) -> Option<(Seq<char>, Seq<char>)> {
    if has_infix(t, "host key verification failed"@) || has_infix(
        t,
        "remote host identification has changed"@,
    ) {
        Some(("host_key"@, MSG_HOST_KEY@))
    } else if has_infix(t, "permission denied (publickey"@) || has_infix(
        t,
        "no matching host key"@,
    ) {
        Some(("ssh_auth"@, MSG_SSH_AUTH@))
    } else if has_infix(t, "stale info"@) || (has_infix(t, "force-with-lease"@) && has_infix(
        t,
        "reject"@,
    )) {
        Some(("force_lease_stale"@, MSG_FORCE_LEASE_STALE@))
    } else if has_infix(t, "non-fast-forward"@) || has_infix(t, "fetch first"@) || (has_infix(
        t,
        "[rejected]"@,
    ) && has_infix(t, "behind"@)) || has_infix(t, "tip of your current branch is behind"@) {
        Some(("non_fast_forward"@, MSG_NON_FAST_FORWARD@))
    } else if has_infix(t, "pre-receive hook declined"@) || has_infix(t, "protected branch"@)
        || has_infix(t, "you are not allowed"@) || http_403(t) || has_infix(t, "access denied"@) {
        Some(("forbidden"@, MSG_FORBIDDEN@))
    } else if has_infix(t, "authentication failed"@) || has_infix(t, "could not read username"@)
        || has_infix(t, "invalid username or password"@) || has_infix(
        t,
        "terminal prompts disabled"@,
    ) || has_infix(t, "http basic: access denied"@) {
        Some(("auth_failed"@, MSG_AUTH_FAILED@))
    } else if (has_infix(t, "repository"@) && has_infix(t, "not found"@)) || has_infix(
        t,
        "does not appear to be a git repository"@,
    ) {
        Some(("repo_not_found"@, MSG_REPO_NOT_FOUND@))
    } else if has_infix(t, "no tracking information"@) || has_infix(t, "no upstream"@)
        || has_infix(t, "has no upstream branch"@) {
        Some(("no_upstream"@, MSG_NO_UPSTREAM@))
    } else if has_infix(t, "need to specify how to reconcile"@) || has_infix(
        t,
        "divergent branches"@,
    ) {
        Some(("divergent"@, MSG_DIVERGENT@))
    } else if has_infix(t, "conflict"@) || has_infix(t, "automatic merge failed"@) {
        Some(("merge_conflict"@, MSG_MERGE_CONFLICT@))
    } else if has_infix(t, "could not resolve host"@) || has_infix(t, "failed to connect"@)
        || has_infix(t, "unable to access"@) || has_infix(t, "connection timed out"@)
        || has_infix(t, "could not read from remote repository"@) || has_infix(
        t,
        "operation timed out"@,
    ) {
        Some(("network"@, MSG_NETWORK@))
    } else {
        None
    }
}

/// The classification of the output `text` of a failed remote operation.
pub open spec fn classify_model(text: Seq<char>) -> Option<(Seq<char>, Seq<char>)> {
    classify_lower(ascii_lower(text))
}

/// The output reports that the local and remote branch have diverged.
pub open spec fn divergence_reported(text: Seq<char>) -> bool {
    has_infix(ascii_lower(text), "need to specify how to reconcile"@) || has_infix(
        ascii_lower(text),
        "divergent branches"@,
    )
}

/// The signatures tested before that of diverged branches: host key, SSH
/// key, stale lease, non-fast-forward, refusal, authentication, missing
/// repository, missing upstream (`t` lower-cased).
pub open spec fn signature_before_divergence(t: Seq<char>) -> bool {
    has_infix(t, "host key verification failed"@) || has_infix(
        t,
        "remote host identification has changed"@,
    ) || has_infix(t, "permission denied (publickey"@) || has_infix(t, "no matching host key"@)
        || has_infix(t, "stale info"@) || (has_infix(t, "force-with-lease"@) && has_infix(
        t,
        "reject"@,
    )) || has_infix(t, "non-fast-forward"@) || has_infix(t, "fetch first"@) || (has_infix(
        t,
        "[rejected]"@,
    ) && has_infix(t, "behind"@)) || has_infix(t, "tip of your current branch is behind"@)
        || has_infix(t, "pre-receive hook declined"@) || has_infix(t, "protected branch"@)
        || has_infix(t, "you are not allowed"@) || http_403(t) || has_infix(t, "access denied"@)
        || has_infix(t, "authentication failed"@) || has_infix(t, "could not read username"@)
        || has_infix(t, "invalid username or password"@) || has_infix(
        t,
        "terminal prompts disabled"@,
    ) || has_infix(t, "http basic: access denied"@) || (has_infix(t, "repository"@) && has_infix(
        t,
        "not found"@,
    )) || has_infix(t, "does not appear to be a git repository"@) || has_infix(
        t,
        "no tracking information"@,
    ) || has_infix(t, "no upstream"@) || has_infix(t, "has no upstream branch"@)
}

/// Output that reports diverged branches is classified as `divergent`, with
/// the advice to reconcile by a pull with merge or rebase, unless a more
/// specific signature that is tested before it (host key, SSH key, stale
/// lease, non-fast-forward, refusal, authentication, missing repository,
/// missing upstream) is present too: it is never taken for a merge conflict,
/// a network error or an unknown failure.
pub proof fn lemma_divergence_classified(text: Seq<char>)
    ensures
        divergence_reported(text) ==> (classify_model(text) matches Some((code, msg)) && (code
            == "divergent"@ && msg == MSG_DIVERGENT@ || code == "host_key"@ || code == "ssh_auth"@
            || code == "force_lease_stale"@ || code == "non_fast_forward"@ || code == "forbidden"@
            || code == "auth_failed"@ || code == "repo_not_found"@ || code == "no_upstream"@)),
        divergence_reported(text) && !signature_before_divergence(ascii_lower(text))
            ==> classify_model(text) == Some(("divergent"@, MSG_DIVERGENT@)),
{
}

/// Each code of a classified remote error always comes with its own advice.
pub proof fn lemma_classification_advice(text: Seq<char>)
    ensures
        classify_model(text) matches Some((code, msg)) ==> (code == "host_key"@ ==> msg == MSG_HOST_KEY@),
        classify_model(text) matches Some((code, msg)) ==> (code == "ssh_auth"@ ==> msg == MSG_SSH_AUTH@),
        classify_model(text) matches Some((code, msg)) ==> (code == "force_lease_stale"@ ==> msg == MSG_FORCE_LEASE_STALE@),
        classify_model(text) matches Some((code, msg)) ==> (code == "non_fast_forward"@ ==> msg == MSG_NON_FAST_FORWARD@),
        classify_model(text) matches Some((code, msg)) ==> (code == "forbidden"@ ==> msg == MSG_FORBIDDEN@),
        classify_model(text) matches Some((code, msg)) ==> (code == "auth_failed"@ ==> msg == MSG_AUTH_FAILED@),
        classify_model(text) matches Some((code, msg)) ==> (code == "repo_not_found"@ ==> msg == MSG_REPO_NOT_FOUND@),
        classify_model(text) matches Some((code, msg)) ==> (code == "no_upstream"@ ==> msg == MSG_NO_UPSTREAM@),
        classify_model(text) matches Some((code, msg)) ==> (code == "divergent"@ ==> msg == MSG_DIVERGENT@),
        classify_model(text) matches Some((code, msg)) ==> (code == "merge_conflict"@ ==> msg == MSG_MERGE_CONFLICT@),
        classify_model(text) matches Some((code, msg)) ==> (code == "network"@ ==> msg == MSG_NETWORK@),
{
    reveal_strlit("host_key");
    reveal_strlit("ssh_auth");
    reveal_strlit("force_lease_stale");
    reveal_strlit("non_fast_forward");
    reveal_strlit("forbidden");
    reveal_strlit("auth_failed");
    reveal_strlit("repo_not_found");
    reveal_strlit("no_upstream");
    reveal_strlit("divergent");
    reveal_strlit("merge_conflict");
    reveal_strlit("network");
    assert("host_key"@.len() == 8);
    assert("ssh_auth"@.len() == 8);
    assert("force_lease_stale"@.len() == 17);
    assert("non_fast_forward"@.len() == 16);
    assert("forbidden"@.len() == 9);
    assert("auth_failed"@.len() == 11);
    assert("repo_not_found"@.len() == 14);
    assert("no_upstream"@.len() == 11);
    assert("divergent"@.len() == 9);
    assert("merge_conflict"@.len() == 14);
    assert("network"@.len() == 7);
    assert("host_key"@[0] != "ssh_auth"@[0]);
    assert("forbidden"@[0] != "divergent"@[0]);
    assert("auth_failed"@[0] != "no_upstream"@[0]);
    assert("repo_not_found"@[0] != "merge_conflict"@[0]);
}

pub open spec fn classification_view(c: Option<(&'static str, String)>) -> Option<
    (Seq<char>, Seq<char>),
> {
    match c {
        Some((code, msg)) => Some((code@, msg@)),
        None => None,
    }
}

/// Whether `p` occurs in `t` without a letter or digit right after it.
fn status_code_at(t: &[char], p: &str) -> (r: bool)
    ensures
        r == status_at(t@, p@),
{
    let pv = chars_of(p);
    let ps = pv.as_slice();
    let mut from: usize = 0;
    loop
        invariant
            ps@ == p@,
            from <= t@.len() + 1,
            forall|i: int| 0 <= i < from ==> !#[trigger] status_code_at_index(t@, p@, i),
        decreases t@.len() + 1 - from,
    {
        if from > t.len() {
            assert forall|i: int| #[trigger] status_code_at_index(t@, p@, i) implies false by {
                assert(i + p@.len() <= t@.len());
            }
            return false;
        }
        match find_from(t, ps, from) {
            None => {
                assert forall|i: int| #[trigger] status_code_at_index(t@, p@, i) implies false by {
                    if i >= from {
                        assert(!occurs_at(t@, ps@, i));
                    }
                }
                return false;
            },
            Some(j) => {
                let end = j + ps.len();
                if end >= t.len() || !is_alnum_char(t[end]) {
                    assert(status_code_at_index(t@, p@, j as int));
                    return true;
                }
                assert(!status_code_at_index(t@, p@, j as int));
                assert forall|i: int| 0 <= i < j + 1 implies !#[trigger] status_code_at_index(
                    t@,
                    p@,
                    i,
                ) by {
                    if from <= i < j {
                        assert(!occurs_at(t@, ps@, i));
                    }
                }
                from = j + 1;
            },
        }
    }
}

/// Classifies a failed remote operation from the git output into a stable
/// code and an action-oriented message; `None` for an unknown signature.
pub fn classify_remote_error(text: &str) -> (r: Option<(&'static str, String)>)
    ensures
        classification_view(r) == classify_model(text@),
{
    let cs = chars_of(text);
    let low = ascii_lowercase(cs.as_slice());
    let t = low.as_slice();
    if contains_str(t, "host key verification failed") || contains_str(
        t,
        "remote host identification has changed",
    ) {
        return Some(("host_key", String::from_str(MSG_HOST_KEY)));
    }
    if contains_str(t, "permission denied (publickey") || contains_str(t, "no matching host key") {
        return Some(("ssh_auth", String::from_str(MSG_SSH_AUTH)));
    }
    if contains_str(t, "stale info") || (contains_str(t, "force-with-lease") && contains_str(
        t,
        "reject",
    )) {
        return Some(("force_lease_stale", String::from_str(MSG_FORCE_LEASE_STALE)));
    }
    if contains_str(t, "non-fast-forward") || contains_str(t, "fetch first") || (contains_str(
        t,
        "[rejected]",
    ) && contains_str(t, "behind")) || contains_str(t, "tip of your current branch is behind") {
        return Some(("non_fast_forward", String::from_str(MSG_NON_FAST_FORWARD)));
    }
    let forbidden_status = status_code_at(t, "http 403") || status_code_at(t, "error: 403")
        || status_code_at(t, "status code: 403") || contains_str(t, "403 forbidden");
    if contains_str(t, "pre-receive hook declined") || contains_str(t, "protected branch")
        || contains_str(t, "you are not allowed") || forbidden_status || contains_str(
        t,
        "access denied",
    ) {
        return Some(("forbidden", String::from_str(MSG_FORBIDDEN)));
    }
    if contains_str(t, "authentication failed") || contains_str(t, "could not read username")
        || contains_str(t, "invalid username or password") || contains_str(
        t,
        "terminal prompts disabled",
    ) || contains_str(t, "http basic: access denied") {
        return Some(("auth_failed", String::from_str(MSG_AUTH_FAILED)));
    }
    if (contains_str(t, "repository") && contains_str(t, "not found")) || contains_str(
        t,
        "does not appear to be a git repository",
    ) {
        return Some(("repo_not_found", String::from_str(MSG_REPO_NOT_FOUND)));
    }
    if contains_str(t, "no tracking information") || contains_str(t, "no upstream")
        || contains_str(t, "has no upstream branch") {
        return Some(("no_upstream", String::from_str(MSG_NO_UPSTREAM)));
    }
    if contains_str(t, "need to specify how to reconcile") || contains_str(
        t,
        "divergent branches",
    ) {
        return Some(("divergent", String::from_str(MSG_DIVERGENT)));
    }
    if contains_str(t, "conflict") || contains_str(t, "automatic merge failed") {
        return Some(("merge_conflict", String::from_str(MSG_MERGE_CONFLICT)));
    }
    if contains_str(t, "could not resolve host") || contains_str(t, "failed to connect")
        || contains_str(t, "unable to access") || contains_str(t, "connection timed out")
        || contains_str(t, "could not read from remote repository") || contains_str(
        t,
        "operation timed out",
    ) {
        return Some(("network", String::from_str(MSG_NETWORK)));
    }
    None
}

/// Classifies the error of a remote operation into a stable,
/// action-oriented [`GitEngineError::Remote`].
pub fn remote_op(res: Result<String, GitEngineError>) -> (r: Result<String, GitEngineError>)
    ensures
        match res {
            Ok(v) => r == Ok::<String, GitEngineError>(v),
            Err(GitEngineError::Sidecar { message }) => match classify_model(message@) {
                Some((code, msg)) => r matches Err(GitEngineError::Remote { code: c, message: m })
                    && c@ == code && m@ == msg,
                None => r matches Err(GitEngineError::Sidecar { message: m }) && m@ == message@,
            },
            Err(e) => r == Err::<String, GitEngineError>(e),
        },
{
    match res {
        Ok(v) => Ok(v),
        Err(GitEngineError::Sidecar { message }) => match classify_remote_error(message.as_str()) {
            Some((code, msg)) => Err(GitEngineError::Remote { code, message: msg }),
            None => Err(GitEngineError::Sidecar { message }),
        },
        Err(e) => Err(e),
    }
}

// ---------------------------------------------------------------------------
// Hosts with TLS verification turned off
// ---------------------------------------------------------------------------

pub open spec fn is_authority_end(c: char) -> bool {
    c == '/' || c == '?' || c == '#'
}

pub open spec fn authority_end() -> spec_fn(char) -> bool {
    |c: char| is_authority_end(c)
}

/// Host of an HTTPS (or HTTP) URL, lower-cased, without userinfo and port;
/// `None` for anything without an http(s) scheme (SSH uses no TLS).
pub open spec fn https_host_model(url: Seq<char>) -> Option<Seq<char>> {
    let rest = if has_prefix(url, "https://"@) {
        Some(url.skip("https://"@.len() as int))
    } else if has_prefix(url, "http://"@) {
        Some(url.skip("http://"@.len() as int))
    } else {
        None
    };
    match rest {
        None => None,
        Some(rest) => {
            let authority = rest.take(first_where(rest, authority_end()) as int);
            let hostport = authority.skip(last_where(authority, is_char('@')) + 1);
            let host = hostport.take(first_where(hostport, is_char(':')) as int);
            if host.len() == 0 {
                None
            } else {
                Some(ascii_lower(host))
            }
        },
    }
}

/// Host of an HTTPS (or HTTP) remote URL (see [`https_host_model`]).
pub fn https_host(url: &str) -> (r: Option<String>)
    ensures
        opt_string_view(r) == https_host_model(url@),
{
    let cs = chars_of(url);
    let rest = match strip_prefix_str(cs.as_slice(), "https://") {
        Some(r) => r,
        None => match strip_prefix_str(cs.as_slice(), "http://") {
            Some(r) => r,
            None => {
                return None;
            },
        },
    };
    let rs = rest.as_slice();
    let mut a: usize = 0;
    while a < rs.len() && !(rs[a] == '/' || rs[a] == '?' || rs[a] == '#')
        invariant
            a <= rs@.len(),
            forall|j: int| 0 <= j < a ==> !is_authority_end(rs@[j]),
        decreases rs@.len() - a,
    {
        a = a + 1;
    }
    proof {
        lemma_first_where(rs@, authority_end(), a as int);
    }
    let ghost authority = rs@.take(a as int);
    let mut b: usize = a;
    while b > 0 && rs[b - 1] != '@'
        invariant
            b <= a <= rs@.len(),
            forall|j: int| b <= j < a ==> rs@[j] != '@',
        decreases b,
    {
        b = b - 1;
    }
    proof {
        assert forall|j: int| b - 1 < j < authority.len() implies !(is_char('@'))(
            #[trigger] authority[j],
        ) by {
            assert(authority[j] == rs@[j]);
        }
        lemma_last_where(authority, is_char('@'), b - 1);
    }
    let ghost hostport = authority.skip(b as int);
    let mut c: usize = b;
    while c < a && rs[c] != ':'
        invariant
            b <= c <= a <= rs@.len(),
            forall|j: int| b <= j < c ==> rs@[j] != ':',
        decreases a - c,
    {
        c = c + 1;
    }
    proof {
        assert forall|j: int| 0 <= j < c - b implies !(is_char(':'))(#[trigger] hostport[j]) by {
            assert(hostport[j] == rs@[b + j]);
        }
        if c < a {
            assert(hostport[c - b] == rs@[c as int]);
        }
        lemma_first_where(hostport, is_char(':'), c - b);
        assert(hostport.take(c - b) =~= rs@.subrange(b as int, c as int));
    }
    if c == b {
        return None;
    }
    let host = vec_from_range(rs, b, c);
    let low = ascii_lowercase(host.as_slice());
    Some(string_from(low.as_slice()))
}

/// The host-bound setting that turns TLS verification off for `host`.
pub open spec fn insecure_config_for(host: Seq<char>) -> Seq<char> {
    "http.https://"@ + host + "/.sslVerify=false"@
}

/// The settings for the remote URLs whose host is an opt-in host, in the
/// order of the URLs, each once.
pub open spec fn select_model(urls: Seq<Seq<char>>, hosts: Seq<Seq<char>>) -> Seq<Seq<char>>
    decreases urls.len(),
{
    if urls.len() == 0 {
        Seq::empty()
    } else {
        let out = select_model(urls.drop_last(), hosts);
        match https_host_model(urls.last()) {
            Some(h) => if hosts.contains(h) && !out.contains(insecure_config_for(h)) {
                out.push(insecure_config_for(h))
            } else {
                out
            },
            None => out,
        }
    }
}

/// Every setting is bound to one opt-in host, and none comes twice.
pub proof fn lemma_select_model(urls: Seq<Seq<char>>, hosts: Seq<Seq<char>>)
    ensures
        select_model(urls, hosts).no_duplicates(),
        forall|k: int|
            0 <= k < select_model(urls, hosts).len() ==> exists|h: Seq<char>|
                hosts.contains(h) && #[trigger] select_model(urls, hosts)[k]
                    == insecure_config_for(h),
    decreases urls.len(),
{
    if urls.len() > 0 {
        lemma_select_model(urls.drop_last(), hosts);
        let out = select_model(urls.drop_last(), hosts);
        let r = select_model(urls, hosts);
        assert forall|k: int| 0 <= k < r.len() implies exists|h: Seq<char>|
            hosts.contains(h) && #[trigger] r[k] == insecure_config_for(h) by {
            if k < out.len() {
                assert(r[k] == out[k]);
            }
        }
    }
}

/// Whether the string `s` is among `v`.
fn contains_string(v: &[String], s: &String) -> (r: bool)
    ensures
        r == string_views(v@).contains(s@),
{
    let mut i: usize = 0;
    while i < v.len()
        invariant
            i <= v@.len(),
            forall|j: int| 0 <= j < i ==> v@[j]@ != s@,
        decreases v@.len() - i,
    {
        if v[i] == *s {
            assert(string_views(v@)[i as int] == s@);
            return true;
        }
        i = i + 1;
    }
    assert forall|j: int| 0 <= j < string_views(v@).len() implies string_views(v@)[j] != s@ by {
        assert(string_views(v@)[j] == v@[j]@);
    }
    false
}

/// The setting that turns TLS verification off for `host`.
fn insecure_config(host: &str) -> (r: String)
    ensures
        r@ == insecure_config_for(host@),
{
    let mut r = String::from_str("http.https://");
    push_str(&mut r, host);
    push_str(&mut r, "/.sslVerify=false");
    r
}

/// Host-bound `http.https://<host>/.sslVerify=false` settings for every
/// remote URL whose host is an opt-in host (rather than a global
/// `http.sslVerify=false`, so that other hosts stay verified); each once.
pub fn select_insecure_configs(remote_urls: &[String], insecure_hosts: &[String]) -> (r: Vec<
    String,
>)
    ensures
        string_views(r@) == select_model(string_views(remote_urls@), string_views(insecure_hosts@)),
        string_views(r@).no_duplicates(),
{
    let ghost urls = string_views(remote_urls@);
    let ghost hosts = string_views(insecure_hosts@);
    let mut out: Vec<String> = Vec::new();
    let mut i: usize = 0;
    assert(string_views(out@) =~= select_model(urls.take(0), hosts));
    while i < remote_urls.len()
        invariant
            i <= remote_urls@.len(),
            urls == string_views(remote_urls@),
            hosts == string_views(insecure_hosts@),
            string_views(out@) == select_model(urls.take(i as int), hosts),
        decreases remote_urls@.len() - i,
    {
        assert(urls.take(i + 1).drop_last() =~= urls.take(i as int));
        assert(urls.take(i + 1).last() == remote_urls@[i as int]@);
        if let Some(host) = https_host(remote_urls[i].as_str()) {
            if contains_string(insecure_hosts, &host) {
                let cfg = insecure_config(host.as_str());
                if !contains_string(out.as_slice(), &cfg) {
                    let ghost old_out = out@;
                    out.push(cfg);
                    assert(string_views(out@) =~= string_views(old_out).push(cfg@));
                }
            }
        }
        i = i + 1;
    }
    assert(urls.take(remote_urls@.len() as int) =~= urls);
    proof {
        lemma_select_model(urls, hosts);
    }
    out
}

/// `-c` followed by each setting.
pub open spec fn config_pairs(cfgs: Seq<Seq<char>>) -> Seq<Seq<char>>
    decreases cfgs.len(),
{
    if cfgs.len() == 0 {
        Seq::empty()
    } else {
        config_pairs(cfgs.drop_last()) + seq!["-c"@, cfgs.last()]
    }
}

/// The leading `-c key=value` arguments of a remote operation: the credential
/// helper first (so system helpers keep priority), then the TLS opt-outs.
pub open spec fn lead_model(cred: Option<Seq<char>>, insecure: Seq<Seq<char>>) -> Seq<Seq<char>> {
    match cred {
        Some(c) => seq!["-c"@, c] + config_pairs(insecure),
        None => config_pairs(insecure),
    }
}

/// Leading `-c key=value` pairs for a remote operation (see [`lead_model`]).
pub fn leading_config(cred: &Option<String>, insecure: &[String]) -> (r: Vec<String>)
    ensures
        string_views(r@) == lead_model(opt_string_view(*cred), string_views(insecure@)),
{
    let mut out: Vec<String> = Vec::new();
    if let Some(c) = cred {
        out.push(String::from_str("-c"));
        out.push(c.clone());
    }
    let ghost head = string_views(out@);
    assert(head =~= match opt_string_view(*cred) {
        Some(c) => seq!["-c"@, c],
        None => Seq::<Seq<char>>::empty(),
    });
    let ghost cfgs = string_views(insecure@);
    let mut i: usize = 0;
    assert(string_views(out@) =~= head + config_pairs(cfgs.take(0)));
    while i < insecure.len()
        invariant
            i <= insecure@.len(),
            cfgs == string_views(insecure@),
            string_views(out@) == head + config_pairs(cfgs.take(i as int)),
        decreases insecure@.len() - i,
    {
        let ghost old_out = out@;
        out.push(String::from_str("-c"));
        out.push(insecure[i].clone());
        assert(cfgs.take(i + 1).drop_last() =~= cfgs.take(i as int));
        assert(string_views(out@) =~= string_views(old_out) + seq!["-c"@, cfgs[i as int]]);
        i = i + 1;
    }
    assert(cfgs.take(insecure@.len() as int) =~= cfgs);
    out
}

/// Hosts trimmed and lower-cased, empty ones left out.
pub open spec fn normalize_hosts(hs: Seq<Seq<char>>) -> Seq<Seq<char>>
    decreases hs.len(),
{
    if hs.len() == 0 {
        Seq::empty()
    } else {
        let r = normalize_hosts(hs.drop_last());
        let h = ascii_lower(trim(hs.last()));
        if h.len() == 0 {
            r
        } else {
            r.push(h)
        }
    }
}

fn normalize_host_list(hosts: &[String]) -> (r: Vec<String>)
    ensures
        string_views(r@) == normalize_hosts(string_views(hosts@)),
{
    let ghost hs = string_views(hosts@);
    let mut out: Vec<String> = Vec::new();
    let mut i: usize = 0;
    assert(string_views(out@) =~= normalize_hosts(hs.take(0)));
    while i < hosts.len()
        invariant
            i <= hosts@.len(),
            hs == string_views(hosts@),
            string_views(out@) == normalize_hosts(hs.take(i as int)),
        decreases hosts@.len() - i,
    {
        assert(hs.take(i + 1).drop_last() =~= hs.take(i as int));
        assert(hs.take(i + 1).last() == hosts@[i as int]@);
        let cs = chars_of(hosts[i].as_str());
        let t = trimmed(cs.as_slice());
        let low = ascii_lowercase(t.as_slice());
        if low.len() > 0 {
            let ghost old_out = out@;
            let h = string_from(low.as_slice());
            out.push(h);
            assert(string_views(out@) =~= string_views(old_out).push(h@));
        }
        i = i + 1;
    }
    assert(hs.take(hosts@.len() as int) =~= hs);
    out
}

/// Sets the opt-in hosts with TLS verification turned off (trimmed,
/// lower-cased, without empty entries). An empty list means "no such hosts":
/// the environment fallback of [`insecure_hosts`] no longer applies.
pub fn set_insecure_tls_hosts(state: &mut Option<Vec<String>>, hosts: Vec<String>)
    ensures
        match *final(state) {
            Some(h) => string_views(h@) == normalize_hosts(string_views(hosts@)),
            None => false,
        },
{
    *state = Some(normalize_host_list(hosts.as_slice()));
}

/// The opt-in hosts: the state set by [`set_insecure_tls_hosts`] if it was
/// ever set, otherwise the comma-separated fallback value (normalized the
/// same way), otherwise none.
pub fn insecure_hosts(state: &Option<Vec<String>>, fallback: Option<&str>) -> (r: Vec<String>)
    ensures
        string_views(r@) == match *state {
            Some(h) => string_views(h@),
            None => match fallback {
                Some(f) => normalize_hosts(split_on(f@, ',')),
                None => Seq::empty(),
            },
        },
{
    match state {
        Some(h) => {
            let mut out: Vec<String> = Vec::new();
            let mut i: usize = 0;
            while i < h.len()
                invariant
                    i <= h@.len(),
                    string_views(out@) == string_views(h@).take(i as int),
                decreases h@.len() - i,
            {
                let ghost old_out = out@;
                let c = h[i].clone();
                out.push(c);
                assert(string_views(out@) =~= string_views(old_out).push(h@[i as int]@));
                assert(string_views(h@).take(i + 1) =~= string_views(h@).take(i as int).push(
                    h@[i as int]@,
                ));
                i = i + 1;
            }
            assert(string_views(h@).take(h@.len() as int) =~= string_views(h@));
            out
        },
        None => match fallback {
            Some(f) => {
                let cs = chars_of(f);
                let parts = split_chars(cs.as_slice(), ',');
                let mut strs: Vec<String> = Vec::new();
                let mut i: usize = 0;
                while i < parts.len()
                    invariant
                        i <= parts@.len(),
                        string_views(strs@) == views(parts@).take(i as int),
                    decreases parts@.len() - i,
                {
                    let ghost old = strs@;
                    let st = string_from(parts[i].as_slice());
                    strs.push(st);
                    assert(string_views(strs@) =~= string_views(old).push(parts@[i as int]@));
                    assert(views(parts@).take(i + 1) =~= views(parts@).take(i as int).push(
                        parts@[i as int]@,
                    ));
                    i = i + 1;
                }
                assert(views(parts@).take(parts@.len() as int) =~= views(parts@));
                normalize_host_list(strs.as_slice())
            },
            None => {
                let out: Vec<String> = Vec::new();
                assert(string_views(out@) =~= Seq::<Seq<char>>::empty());
                out
            },
        },
    }
}

// ---------------------------------------------------------------------------
// Input checks
// ---------------------------------------------------------------------------

/// The complaint about a clone URL, if any: empty, a leading `-` (it would
/// be read as an option), or a transport that runs programs (`ext::`,
/// `fd::`).
pub open spec fn url_complaint(url: Seq<char>) -> Option<Seq<char>> {
    let u = trim(url);
    if u.len() == 0 {
        Some("Empty repository URL"@)
    } else if u[0] == '-' {
        Some("Invalid URL (starts with '-'): "@ + u)
    } else if has_prefix(ascii_lower(u), "ext::"@) || has_prefix(ascii_lower(u), "fd::"@) {
        Some("Unsupported transport scheme (possible attack vector)"@)
    } else {
        None
    }
}

/// `r` is the sidecar error with message `m`, or success where there is none.
pub open spec fn refused_with(r: Result<(), GitEngineError>, m: Option<Seq<char>>) -> bool {
    match m {
        None => r is Ok,
        Some(msg) => r matches Err(GitEngineError::Sidecar { message }) && message@ == msg,
    }
}

fn sidecar_error(a: &str, b: &[char]) -> (e: GitEngineError)
    ensures
        e matches GitEngineError::Sidecar { message } && message@ == a@ + b@,
{
    let mut m = String::from_str(a);
    let t = string_from(b);
    push_str(&mut m, t.as_str());
    GitEngineError::Sidecar { message: m }
}

/// Validates a clone URL against option and transport injection.
pub fn validate_remote_url(url: &str) -> (r: Result<(), GitEngineError>)
    ensures
        refused_with(r, url_complaint(url@)),
{
    let cs = chars_of(url);
    let u = trimmed(cs.as_slice());
    if u.len() == 0 {
        return Err(GitEngineError::Sidecar { message: String::from_str("Empty repository URL") });
    }
    if u[0] == '-' {
        return Err(sidecar_error("Invalid URL (starts with '-'): ", u.as_slice()));
    }
    let lower = ascii_lowercase(u.as_slice());
    if starts_with_str(lower.as_slice(), "ext::") || starts_with_str(lower.as_slice(), "fd::") {
        return Err(
            GitEngineError::Sidecar {
                message: String::from_str("Unsupported transport scheme (possible attack vector)"),
            },
        );
    }
    Ok(())
}

/// Refuses a remote name that starts with `-` (it would be read as an
/// option of `git push`).
pub fn reject_remote_option(remote: &str) -> (r: Result<(), GitEngineError>)
    ensures
        refused_with(
            r,
            if remote@.len() > 0 && remote@[0] == '-' {
                Some("Invalid remote (starts with '-'): "@ + remote@)
            } else {
                None
            },
        ),
{
    let cs = chars_of(remote);
    if cs.len() > 0 && cs[0] == '-' {
        return Err(sidecar_error("Invalid remote (starts with '-'): ", cs.as_slice()));
    }
    Ok(())
}

/// A character that has no place in a branch name to clone.
pub open spec fn bad_branch_char(c: char) -> bool {
    is_ws(c) || (c as u32) < 0x20 || c == ':' || c == '~' || c == '^' || c == '?' || c == '*' || c
        == '[' || c == '\\' || c == '\u{7f}'
}

/// A branch name is acceptable: not empty, no leading `-`, no `..`, and none
/// of the characters that break a refspec or act as globs.
pub open spec fn branch_name_ok(b: Seq<char>) -> bool {
    &&& b.len() > 0
    &&& b[0] != '-'
    &&& !has_infix(b, ".."@)
    &&& forall|i: int| 0 <= i < b.len() ==> !bad_branch_char(#[trigger] b[i])
}

/// Whether `s` holds a character that has no place in a branch name.
fn has_bad_branch_char(s: &[char]) -> (r: bool)
    ensures
        r == exists|i: int| 0 <= i < s@.len() && bad_branch_char(#[trigger] s@[i]),
{
    let mut i: usize = 0;
    while i < s.len()
        invariant
            i <= s@.len(),
            forall|j: int| 0 <= j < i ==> !bad_branch_char(#[trigger] s@[j]),
        decreases s@.len() - i,
    {
        let c = s[i];
        let code: u32 = c as u32;
        if is_whitespace(c) || code < 0x20 || c == ':' || c == '~' || c == '^' || c == '?' || c
            == '*' || c == '[' || c == '\\' || c == '\u{7f}' {
            assert(bad_branch_char(s@[i as int]));
            return true;
        }
        i = i + 1;
    }
    false
}

/// Validates a branch name from the frontend for cloning.
pub fn validate_branch_name(branch: &str) -> (r: Result<(), GitEngineError>)
    ensures
        refused_with(
            r,
            if branch_name_ok(branch@) {
                None
            } else {
                Some("Invalid branch name: "@ + branch@)
            },
        ),
{
    let cs = chars_of(branch);
    let s = cs.as_slice();
    if s.len() == 0 || s[0] == '-' || contains_str(s, "..") || has_bad_branch_char(s) {
        return Err(sidecar_error("Invalid branch name: ", s));
    }
    Ok(())
}

// ---------------------------------------------------------------------------
// Quoting
// ---------------------------------------------------------------------------

/// The body of a single-quoted sh word: every `'` becomes `'\''`.
pub open spec fn sh_quote_body(s: Seq<char>) -> Seq<char>
    decreases s.len(),
{
    if s.len() == 0 {
        Seq::empty()
    } else {
        sh_quote_body(s.drop_last()) + if s.last() == '\'' {
            seq!['\'', '\\', '\'', '\'']
        } else {
            seq![s.last()]
        }
    }
}

/// Quotes a string for a POSIX sh single-quote context, so that a path with
/// an apostrophe cannot escape the command line.
pub fn sh_single_quote(s: &str) -> (r: String)
    ensures
        r@ == seq!['\''] + sh_quote_body(s@) + seq!['\''],
{
    let cs = chars_of(s);
    let mut out: Vec<char> = Vec::new();
    out.push('\'');
    let mut i: usize = 0;
    while i < cs.len()
        invariant
            i <= cs@.len(),
            cs@ == s@,
            out@ == seq!['\''] + sh_quote_body(s@.take(i as int)),
        decreases cs@.len() - i,
    {
        assert(s@.take(i + 1).drop_last() =~= s@.take(i as int));
        if cs[i] == '\'' {
            out.push('\'');
            out.push('\\');
            out.push('\'');
            out.push('\'');
        } else {
            out.push(cs[i]);
        }
        i = i + 1;
        assert(out@ =~= seq!['\''] + sh_quote_body(s@.take(i as int)));
    }
    assert(s@.take(s@.len() as int) =~= s@);
    out.push('\'');
    string_from(out.as_slice())
}

/// Literal pathspec (keeps git from globbing the path).
pub fn literal_pathspec(file: &str) -> (r: String)
    ensures
        r@ == ":(literal)"@ + file@,
{
    let mut r = String::from_str(":(literal)");
    push_str(&mut r, file);
    r
}

/// The setting that adds this program as a further credential helper, for
/// the program path `exe` (where the app provides one): forward slashes,
/// single-quoted, after a `!` (git runs the value as a shell command only
/// then). A path with an apostrophe gets no setting at all.
pub open spec fn credential_helper_model(exe: Option<Seq<char>>) -> Option<Seq<char>> {
    match exe {
        None => None,
        Some(e) => {
            let f = replace_char(e, '\\', '/');
            if f.len() == 0 || f.contains('\'') {
                None
            } else {
                Some("credential.helper=!'"@ + f + "' __credential"@)
            }
        },
    }
}

/// The credential helper setting (see [`credential_helper_model`]).
pub fn credential_helper_config(exe: Option<&str>) -> (r: Option<String>)
    ensures
        opt_string_view(r) == credential_helper_model(
            match exe {
                Some(e) => Some(e@),
                None => None,
            },
        ),
{
    let e = match exe {
        Some(e) => e,
        None => {
            return None;
        },
    };
    let cs = chars_of(e);
    let f = replace_chars(cs.as_slice(), '\\', '/');
    let mut i: usize = 0;
    while i < f.len()
        invariant
            i <= f@.len(),
            f@ == replace_char(e@, '\\', '/'),
            exe == Some(e),
            forall|j: int| 0 <= j < i ==> f@[j] != '\'',
        decreases f@.len() - i,
    {
        if f[i] == '\'' {
            assert(f@.contains('\''));
            return None;
        }
        i = i + 1;
    }
    if f.len() == 0 {
        return None;
    }
    let mut r = String::from_str("credential.helper=!'");
    let fs = string_from(f.as_slice());
    push_str(&mut r, fs.as_str());
    push_str(&mut r, "' __credential");
    Some(r)
}

// ---------------------------------------------------------------------------
// Log records
// ---------------------------------------------------------------------------

/// A commit of the history as plain values.
pub struct CommitModel {
    pub id: Seq<char>,
    pub short_id: Seq<char>,
    pub summary: Seq<char>,
    pub author_name: Seq<char>,
    pub author_email: Seq<char>,
    pub time: int,
    pub parent_ids: Seq<Seq<char>>,
}

/// The field separator of the log format (ASCII unit separator).
pub open spec fn unit_sep() -> char {
    '\u{1f}'
}

/// What `parse_log_record(rec)` returns for a record of the log format
/// `%H␟%an␟%ae␟%at␟%P␟%s`: the subject is the rest after the fifth separator
/// (empty without one), the id at least 7 hex digits, the short id its first
/// 8 characters, the parents the whitespace-separated words.
pub open spec fn log_record_model(rec: Seq<char>) -> Option<CommitModel> {
    let us = unit_sep();
    match (piece(rec, us, 0), piece(rec, us, 1), piece(rec, us, 2), piece(rec, us, 3), piece(
        rec,
        us,
        4,
    )) {
        (Some(id), Some(name), Some(email), Some(time_s), Some(parents)) => {
            match signed_value(time_s) {
                Some(t) => if t < i64::MIN || t > i64::MAX || id.len() < 7 || !(forall|i: int|
                    0 <= i < id.len() ==> is_hex(#[trigger] id[i])) {
                    None
                } else {
                    Some(
                        CommitModel {
                            id,
                            short_id: if id.len() > 8 {
                                id.take(8)
                            } else {
                                id
                            },
                            summary: match after_char(rec, us, 5) {
                                Some(s) => s,
                                None => Seq::empty(),
                            },
                            author_name: name,
                            author_email: email,
                            time: t,
                            parent_ids: words(parents),
                        },
                    )
                },
                None => None,
            }
        },
        _ => None,
    }
}

pub open spec fn commit_view(c: CommitInfo) -> CommitModel {
    CommitModel {
        id: c.id@,
        short_id: c.short_id@,
        summary: c.summary@,
        author_name: c.author_name@,
        author_email: c.author_email@,
        time: c.time as int,
        parent_ids: string_views(c.parent_ids@),
    }
}

/// Parses one record of the sidecar's `git log` output.
pub fn parse_log_record(rec: &str) -> (r: Option<CommitInfo>)
    ensures
        match r {
            Some(c) => log_record_model(rec@) == Some(commit_view(c)),
            None => log_record_model(rec@) is None,
        },
{
    let cs = chars_of(rec);
    let s = cs.as_slice();
    let us = '\u{1f}';
    let id = match piece_of(s, us, 0) {
        Some(v) => v,
        None => {
            return None;
        },
    };
    let name = match piece_of(s, us, 1) {
        Some(v) => v,
        None => {
            return None;
        },
    };
    let email = match piece_of(s, us, 2) {
        Some(v) => v,
        None => {
            return None;
        },
    };
    let time_s = match piece_of(s, us, 3) {
        Some(v) => v,
        None => {
            return None;
        },
    };
    let parents = match piece_of(s, us, 4) {
        Some(v) => v,
        None => {
            return None;
        },
    };
    let time = match parse_i64(time_s.as_slice()) {
        Some(t) => t,
        None => {
            return None;
        },
    };
    if id.len() < 7 || !all_hex(id.as_slice()) {
        return None;
    }
    let summary = match skip_pieces(s, us, 5) {
        Some(k) => string_from_slice(s, k, s.len()),
        None => String::new(),
    };
    let short_len: usize = if id.len() > 8 {
        8
    } else {
        id.len()
    };
    let short_id = string_from_slice(id.as_slice(), 0, short_len);
    let words = split_whitespace(parents.as_slice());
    let mut parent_ids: Vec<String> = Vec::new();
    let mut i: usize = 0;
    while i < words.len()
        invariant
            i <= words@.len(),
            string_views(parent_ids@) == views(words@).take(i as int),
        decreases words@.len() - i,
    {
        let ghost old = parent_ids@;
        let w = string_from(words[i].as_slice());
        parent_ids.push(w);
        assert(string_views(parent_ids@) =~= string_views(old).push(words@[i as int]@));
        assert(views(words@).take(i + 1) =~= views(words@).take(i as int).push(
            words@[i as int]@,
        ));
        i = i + 1;
    }
    assert(views(words@).take(words@.len() as int) =~= views(words@));
    let c = CommitInfo {
        id: string_from(id.as_slice()),
        short_id,
        summary,
        author_name: string_from(name.as_slice()),
        author_email: string_from(email.as_slice()),
        time,
        parent_ids,
    };
    assert(c.short_id@ =~= (if id@.len() > 8 {
        id@.take(8)
    } else {
        id@
    }));
    Some(c)
}

// ---------------------------------------------------------------------------
// Command lines
// ---------------------------------------------------------------------------

/// Hard limit for normal operations: a hanging git process (dead network, a
/// waiting credential dialog) must never block the app.
pub const SIDECAR_TIMEOUT_SECS: u64 = 120;

/// Generous limit for clones, remote operations and multi-step operations on
/// large repositories (a kill halfway would leave half a state behind).
pub const CLONE_TIMEOUT_SECS: u64 = 3600;

/// A git invocation the sidecar decided on. It is run as
/// `git -c protocol.ext.allow=never -C <dir> <args…>` (see [`process_args`]),
/// with stdin closed and the environment of [`base_envs`] plus `envs` (see
/// [`process_envs`]).
#[derive(Debug)]
pub struct GitCommand {
    pub args: Vec<String>,
    pub envs: Vec<(String, String)>,
    /// Hard limit in seconds.
    pub timeout_secs: u64,
    /// The output is stdout and stderr together, trimmed (otherwise stdout
    /// only, untouched: patch data needs its trailing newline).
    pub trim: bool,
    /// Errors are classified as remote errors (see [`remote_op`]).
    pub remote: bool,
    /// Progress is read from stderr while the process runs, and the run can
    /// be cancelled.
    pub streaming: bool,
}

/// A command as plain values.
pub struct CommandModel {
    pub args: Seq<Seq<char>>,
    pub envs: Seq<(Seq<char>, Seq<char>)>,
    pub timeout_secs: nat,
    pub trim: bool,
    pub remote: bool,
    pub streaming: bool,
}

pub open spec fn env_views(e: Seq<(String, String)>) -> Seq<(Seq<char>, Seq<char>)> {
    Seq::new(e.len(), |i: int| (e[i].0@, e[i].1@))
}

impl GitCommand {
    pub open spec fn model(&self) -> CommandModel {
        CommandModel {
            args: string_views(self.args@),
            envs: env_views(self.envs@),
            timeout_secs: self.timeout_secs as nat,
            trim: self.trim,
            remote: self.remote,
            streaming: self.streaming,
        }
    }
}

/// The views of string slices.
pub open spec fn str_views(s: Seq<&str>) -> Seq<Seq<char>> {
    Seq::new(s.len(), |i: int| s[i]@)
}

/// A plain command: standard or given limit, no extra environment.
pub open spec fn plain(args: Seq<Seq<char>>, timeout_secs: nat, trim: bool) -> CommandModel {
    CommandModel { args, envs: Seq::empty(), timeout_secs, trim, remote: false, streaming: false }
}

/// The arguments before `-C <dir>` of every sidecar call: a `-c` on the
/// command line overrides a repository's own `protocol.ext.allow=always`,
/// which would let a shipped `.git/config` run programs through `ext::`.
pub fn guard_args() -> (r: Vec<String>)
    ensures
        string_views(r@) == seq!["-c"@, "protocol.ext.allow=never"@],
{
    let mut r: Vec<String> = Vec::new();
    r.push(String::from_str("-c"));
    r.push(String::from_str("protocol.ext.allow=never"));
    assert(string_views(r@) =~= seq!["-c"@, "protocol.ext.allow=never"@]);
    r
}

/// The environment of every sidecar call: no terminal credential prompt, and
/// no interactive editor (one that would never appear in a GUI).
pub fn base_envs() -> (r: Vec<(String, String)>)
    ensures
        env_views(r@) == seq![("GIT_TERMINAL_PROMPT"@, "0"@), ("GIT_EDITOR"@, "true"@)],
{
    let mut r: Vec<(String, String)> = Vec::new();
    r.push((String::from_str("GIT_TERMINAL_PROMPT"), String::from_str("0")));
    r.push((String::from_str("GIT_EDITOR"), String::from_str("true")));
    assert(env_views(r@) =~= seq![("GIT_TERMINAL_PROMPT"@, "0"@), ("GIT_EDITOR"@, "true"@)]);
    r
}

/// The arguments in front of the working directory of every sidecar call:
/// the guard of [`guard_args`], then `-C`.
pub open spec fn dir_prefix_model() -> Seq<Seq<char>> {
    seq!["-c"@, "protocol.ext.allow=never"@, "-C"@]
}

/// The environment a command runs with: the base environment, then the
/// command's own variables (a later entry wins).
pub open spec fn process_envs_model(c: CommandModel) -> Seq<(Seq<char>, Seq<char>)> {
    seq![("GIT_TERMINAL_PROMPT"@, "0"@), ("GIT_EDITOR"@, "true"@)] + c.envs
}

/// The arguments in front of the working directory (see [`dir_prefix_model`]).
fn dir_prefix() -> (r: Vec<String>)
    ensures
        string_views(r@) == dir_prefix_model(),
{
    let mut r = guard_args();
    let ghost g = string_views(r@);
    r.push(String::from_str("-C"));
    assert(string_views(r@) =~= g.push("-C"@));
    r
}

/// The command line of `cmd` around its working directory: the process is
/// `git <before> <dir> <after>`, `before` the guard and `-C`, `after` the
/// command's own arguments.
pub fn process_args(cmd: &GitCommand) -> (r: (Vec<String>, Vec<String>))
    ensures
        string_views(r.0@) == dir_prefix_model(),
        string_views(r.1@) == cmd.model().args,
{
    let before = dir_prefix();
    let mut after: Vec<String> = Vec::new();
    let ghost av = string_views(cmd.args@);
    let mut i: usize = 0;
    while i < cmd.args.len()
        invariant
            i <= cmd.args@.len(),
            av == string_views(cmd.args@),
            string_views(after@) == av.take(i as int),
        decreases cmd.args@.len() - i,
    {
        let ghost old = after@;
        after.push(cmd.args[i].clone());
        assert(string_views(after@) =~= string_views(old).push(cmd.args@[i as int]@));
        assert(av.take(i + 1) =~= av.take(i as int).push(cmd.args@[i as int]@));
        i = i + 1;
    }
    assert(av.take(cmd.args@.len() as int) =~= av);
    (before, after)
}

/// The environment `cmd` runs with (see [`process_envs_model`]).
pub fn process_envs(cmd: &GitCommand) -> (r: Vec<(String, String)>)
    ensures
        env_views(r@) == process_envs_model(cmd.model()),
{
    let mut r = base_envs();
    let ghost base = env_views(r@);
    let ghost ev = env_views(cmd.envs@);
    let mut i: usize = 0;
    while i < cmd.envs.len()
        invariant
            i <= cmd.envs@.len(),
            ev == env_views(cmd.envs@),
            base == seq![("GIT_TERMINAL_PROMPT"@, "0"@), ("GIT_EDITOR"@, "true"@)],
            env_views(r@) == base + ev.take(i as int),
        decreases cmd.envs@.len() - i,
    {
        let ghost old = r@;
        let k = cmd.envs[i].0.clone();
        let v = cmd.envs[i].1.clone();
        r.push((k, v));
        assert(env_views(r@) =~= env_views(old).push((cmd.envs@[i as int].0@, cmd.envs@[i as int].1@)));
        assert(ev.take(i + 1) =~= ev.take(i as int).push((cmd.envs@[i as int].0@, cmd.envs@[i as int].1@)));
        i = i + 1;
    }
    assert(ev.take(cmd.envs@.len() as int) =~= ev);
    r
}

/// The strings of `args`.
fn to_strings(args: &[&str]) -> (r: Vec<String>)
    ensures
        string_views(r@) == str_views(args@),
{
    let mut r: Vec<String> = Vec::new();
    let mut i: usize = 0;
    while i < args.len()
        invariant
            i <= args@.len(),
            string_views(r@) == str_views(args@).take(i as int),
        decreases args@.len() - i,
    {
        let ghost old = r@;
        r.push(String::from_str(args[i]));
        assert(string_views(r@) =~= string_views(old).push(args@[i as int]@));
        assert(str_views(args@).take(i + 1) =~= str_views(args@).take(i as int).push(
            args@[i as int]@,
        ));
        i = i + 1;
    }
    assert(str_views(args@).take(args@.len() as int) =~= str_views(args@));
    r
}

/// Appends `more` to `v`.
fn push_all(v: &mut Vec<String>, more: &[&str])
    ensures
        string_views(final(v)@) == string_views(old(v)@) + str_views(more@),
{
    let ghost start = string_views(v@);
    let mut i: usize = 0;
    while i < more.len()
        invariant
            i <= more@.len(),
            string_views(v@) == start + str_views(more@).take(i as int),
        decreases more@.len() - i,
    {
        let ghost old = v@;
        v.push(String::from_str(more[i]));
        assert(string_views(v@) =~= string_views(old).push(more@[i as int]@));
        assert(str_views(more@).take(i + 1) =~= str_views(more@).take(i as int).push(
            more@[i as int]@,
        ));
        i = i + 1;
    }
    assert(str_views(more@).take(more@.len() as int) =~= str_views(more@));
}

pub(crate) fn command(args: Vec<String>, timeout_secs: u64, trim: bool) -> (r: GitCommand)
    ensures
        r.model() == plain(string_views(args@), timeout_secs as nat, trim),
{
    let envs: Vec<(String, String)> = Vec::new();
    assert(env_views(envs@) =~= Seq::<(Seq<char>, Seq<char>)>::empty());
    GitCommand { args, envs, timeout_secs, trim, remote: false, streaming: false }
}

/// `git <args…>` with the standard limit, output trimmed.
pub fn run_git(args: &[&str]) -> (r: GitCommand)
    ensures
        r.model() == plain(str_views(args@), SIDECAR_TIMEOUT_SECS as nat, true),
{
    command(to_strings(args), SIDECAR_TIMEOUT_SECS, true)
}

/// Like [`run_git`], but the output is stdout untouched (patch output, whose
/// trailing newline `git apply` needs).
pub fn run_git_raw(args: &[&str]) -> (r: GitCommand)
    ensures
        r.model() == plain(str_views(args@), SIDECAR_TIMEOUT_SECS as nat, false),
{
    command(to_strings(args), SIDECAR_TIMEOUT_SECS, false)
}

/// `git <args…>` with the given limit, output trimmed.
pub fn run_git_in(args: &[&str], timeout_secs: u64) -> (r: GitCommand)
    ensures
        r.model() == plain(str_views(args@), timeout_secs as nat, true),
{
    command(to_strings(args), timeout_secs, true)
}

/// Like [`run_git`], but with the generous limit: local multi-step operations
/// whose worktree update may legitimately take long on large repositories.
pub fn run_git_long(args: &[&str]) -> (r: GitCommand)
    ensures
        r.model() == plain(str_views(args@), CLONE_TIMEOUT_SECS as nat, true),
{
    run_git_in(args, CLONE_TIMEOUT_SECS)
}

/// Like [`run_git_long`], with additional environment variables.
pub fn run_git_long_env(args: &[&str], envs: &[(&str, &str)]) -> (r: GitCommand)
    ensures
        r.model() == (CommandModel {
            envs: Seq::new(envs@.len(), |i: int| (envs@[i].0@, envs@[i].1@)),
            ..plain(str_views(args@), CLONE_TIMEOUT_SECS as nat, true)
        }),
{
    let mut ev: Vec<(String, String)> = Vec::new();
    let mut i: usize = 0;
    while i < envs.len()
        invariant
            i <= envs@.len(),
            env_views(ev@) == Seq::new(envs@.len(), |k: int| (envs@[k].0@, envs@[k].1@)).take(
                i as int,
            ),
        decreases envs@.len() - i,
    {
        let (k, v) = envs[i];
        let ghost old = ev@;
        ev.push((String::from_str(k), String::from_str(v)));
        assert(env_views(ev@) =~= env_views(old).push((envs@[i as int].0@, envs@[i as int].1@)));
        assert(Seq::new(envs@.len(), |k: int| (envs@[k].0@, envs@[k].1@)).take(i + 1) =~= Seq::new(
            envs@.len(),
            |k: int| (envs@[k].0@, envs@[k].1@),
        ).take(i as int).push((envs@[i as int].0@, envs@[i as int].1@)));
        i = i + 1;
    }
    assert(Seq::new(envs@.len(), |k: int| (envs@[k].0@, envs@[k].1@)).take(envs@.len() as int)
        =~= Seq::new(envs@.len(), |k: int| (envs@[k].0@, envs@[k].1@)));
    GitCommand {
        args: to_strings(args),
        envs: ev,
        timeout_secs: CLONE_TIMEOUT_SECS,
        trim: true,
        remote: false,
        streaming: false,
    }
}

/// The status accelerators for large worktrees: the builtin fsmonitor, the
/// untracked cache setting, and the untracked cache in the index. Each is
/// best effort: a git without them is harmless.
pub fn enable_status_accelerators() -> (r: Vec<GitCommand>)
    ensures
        r@.len() == 3,
        r@[0].model() == plain(
            seq!["config"@, "core.fsmonitor"@, "true"@],
            SIDECAR_TIMEOUT_SECS as nat,
            true,
        ),
        r@[1].model() == plain(
            seq!["config"@, "core.untrackedCache"@, "true"@],
            SIDECAR_TIMEOUT_SECS as nat,
            true,
        ),
        r@[2].model() == plain(
            seq!["update-index"@, "--untracked-cache"@],
            SIDECAR_TIMEOUT_SECS as nat,
            true,
        ),
{
    let mut r: Vec<GitCommand> = Vec::new();
    let a = ["config", "core.fsmonitor", "true"];
    let c0 = run_git(&a);
    assert(str_views(a@) =~= seq!["config"@, "core.fsmonitor"@, "true"@]);
    r.push(c0);
    let b = ["config", "core.untrackedCache", "true"];
    let c1 = run_git(&b);
    assert(str_views(b@) =~= seq!["config"@, "core.untrackedCache"@, "true"@]);
    r.push(c1);
    let c = ["update-index", "--untracked-cache"];
    let c2 = run_git(&c);
    assert(str_views(c@) =~= seq!["update-index"@, "--untracked-cache"@]);
    r.push(c2);
    r
}

/// Writes or updates the commit graph (`--split` keeps follow-up runs
/// incremental); the generous limit, because the first run on a huge
/// repository may take minutes.
pub fn write_commit_graph() -> (r: GitCommand)
    ensures
        r.model() == plain(
            seq!["commit-graph"@, "write"@, "--reachable"@, "--split"@, "--no-progress"@],
            CLONE_TIMEOUT_SECS as nat,
            true,
        ),
{
    let a = ["commit-graph", "write", "--reachable", "--split", "--no-progress"];
    assert(str_views(a@) =~= seq![
        "commit-graph"@,
        "write"@,
        "--reachable"@,
        "--split"@,
        "--no-progress"@,
    ]);
    run_git_in(&a, CLONE_TIMEOUT_SECS)
}

/// The commit graph upkeep after operations that bring in new objects
/// (best effort: a failure aborts nothing).
pub fn maintain_commit_graph() -> (r: GitCommand)
    ensures
        r.model() == write_commit_graph_model(),
{
    write_commit_graph()
}

/// What follows a fetch, pull or clone fetch: on success the commit graph
/// upkeep (see [`maintain_commit_graph`]), after a failure nothing.
pub fn maintenance_after(outcome: &Result<String, GitEngineError>) -> (r: Option<GitCommand>)
    ensures
        outcome is Ok <==> r is Some,
        r matches Some(c) ==> c.model() == write_commit_graph_model(),
{
    match outcome {
        Ok(_) => Some(maintain_commit_graph()),
        Err(_) => None,
    }
}

pub open spec fn write_commit_graph_model() -> CommandModel {
    plain(
        seq!["commit-graph"@, "write"@, "--reachable"@, "--split"@, "--no-progress"@],
        CLONE_TIMEOUT_SECS as nat,
        true,
    )
}

/// Registers an existing stash commit in the stash stack again. The commit
/// must be a validated hex id (it goes positionally to git); the message is
/// its own argument of `-m`.
pub fn stash_store(message: &str, commit: &str) -> (r: GitCommand)
    ensures
        r.model() == plain(
            seq!["stash"@, "store"@, "-m"@, message@, commit@],
            SIDECAR_TIMEOUT_SECS as nat,
            true,
        ),
{
    let a = ["stash", "store", "-m", message, commit];
    assert(str_views(a@) =~= seq!["stash"@, "store"@, "-m"@, message@, commit@]);
    run_git(&a)
}

/// Lists the active sparse-checkout entries.
pub fn sparse_checkout_list() -> (r: GitCommand)
    ensures
        r.model() == plain(seq!["sparse-checkout"@, "list"@], SIDECAR_TIMEOUT_SECS as nat, true),
{
    let a = ["sparse-checkout", "list"];
    assert(str_views(a@) =~= seq!["sparse-checkout"@, "list"@]);
    run_git(&a)
}

/// Sets the sparse-checkout selection in cone mode to exactly `dirs` (the
/// caller has validated them; `--` stops option injection). The generous
/// limit: the worktree rebuild may take long.
pub fn sparse_checkout_set(dirs: &[String]) -> (r: GitCommand)
    ensures
        r.model() == plain(
            seq!["sparse-checkout"@, "set"@, "--cone"@, "--"@] + string_views(dirs@),
            CLONE_TIMEOUT_SECS as nat,
            true,
        ),
{
    let mut args: Vec<String> = Vec::new();
    push_all(&mut args, &["sparse-checkout", "set", "--cone", "--"]);
    let ghost head = string_views(args@);
    let mut i: usize = 0;
    while i < dirs.len()
        invariant
            i <= dirs@.len(),
            string_views(args@) == head + string_views(dirs@).take(i as int),
        decreases dirs@.len() - i,
    {
        let ghost old = args@;
        args.push(dirs[i].clone());
        assert(string_views(args@) =~= string_views(old).push(dirs@[i as int]@));
        assert(string_views(dirs@).take(i + 1) =~= string_views(dirs@).take(i as int).push(
            dirs@[i as int]@,
        ));
        i = i + 1;
    }
    assert(string_views(dirs@).take(dirs@.len() as int) =~= string_views(dirs@));
    assert(head =~= seq!["sparse-checkout"@, "set"@, "--cone"@, "--"@]);
    command(args, CLONE_TIMEOUT_SECS, true)
}

/// Turns sparse checkout off and restores the full worktree.
pub fn sparse_checkout_disable() -> (r: GitCommand)
    ensures
        r.model() == plain(seq!["sparse-checkout"@, "disable"@], CLONE_TIMEOUT_SECS as nat, true),
{
    let a = ["sparse-checkout", "disable"];
    assert(str_views(a@) =~= seq!["sparse-checkout"@, "disable"@]);
    run_git_long(&a)
}

// ---------------------------------------------------------------------------
// Remote operations
// ---------------------------------------------------------------------------

/// What a remote operation needs to know about its setting: the credential
/// helper setting (see [`credential_helper_config`]) and the TLS opt-outs
/// for this repository's remotes (see [`select_insecure_configs`]).
pub struct RemoteSetup {
    pub credential_helper: Option<String>,
    pub insecure_configs: Vec<String>,
}

impl RemoteSetup {
    /// The leading arguments of every remote operation of this setting.
    pub open spec fn lead(&self) -> Seq<Seq<char>> {
        lead_model(opt_string_view(self.credential_helper), string_views(self.insecure_configs@))
    }
}

/// A remote operation: classified errors, streamed progress, the generous
/// limit.
pub open spec fn remote_command(args: Seq<Seq<char>>) -> CommandModel {
    CommandModel {
        args,
        envs: Seq::empty(),
        timeout_secs: CLONE_TIMEOUT_SECS as nat,
        trim: true,
        remote: true,
        streaming: true,
    }
}

fn remote_cmd(args: Vec<String>) -> (r: GitCommand)
    ensures
        r.model() == remote_command(string_views(args@)),
{
    let envs: Vec<(String, String)> = Vec::new();
    assert(env_views(envs@) =~= Seq::<(Seq<char>, Seq<char>)>::empty());
    GitCommand {
        args,
        envs,
        timeout_secs: CLONE_TIMEOUT_SECS,
        trim: true,
        remote: true,
        streaming: true,
    }
}

/// `git fetch --prune --progress` with the setting's leading arguments.
pub fn fetch_streaming(setup: &RemoteSetup) -> (r: GitCommand)
    ensures
        r.model() == remote_command(setup.lead() + seq!["fetch"@, "--prune"@, "--progress"@]),
{
    let mut args = leading_config(&setup.credential_helper, setup.insecure_configs.as_slice());
    let a = ["fetch", "--prune", "--progress"];
    push_all(&mut args, &a);
    assert(str_views(a@) =~= seq!["fetch"@, "--prune"@, "--progress"@]);
    remote_cmd(args)
}

/// A fetch (see [`fetch_streaming`]); a successful one is followed by
/// [`maintain_commit_graph`].
pub fn fetch(setup: &RemoteSetup) -> (r: GitCommand)
    ensures
        r.model() == remote_command(setup.lead() + seq!["fetch"@, "--prune"@, "--progress"@]),
{
    fetch_streaming(setup)
}

/// `git pull [--prune] --progress` with the setting's leading arguments; a
/// successful one is followed by [`maintain_commit_graph`].
pub fn pull_streaming(setup: &RemoteSetup, prune: bool) -> (r: GitCommand)
    ensures
        r.model() == remote_command(
            setup.lead() + if prune {
                seq!["pull"@, "--prune"@, "--progress"@]
            } else {
                seq!["pull"@, "--progress"@]
            },
        ),
{
    let mut args = leading_config(&setup.credential_helper, setup.insecure_configs.as_slice());
    if prune {
        let a = ["pull", "--prune", "--progress"];
        push_all(&mut args, &a);
        assert(str_views(a@) =~= seq!["pull"@, "--prune"@, "--progress"@]);
    } else {
        let a = ["pull", "--progress"];
        push_all(&mut args, &a);
        assert(str_views(a@) =~= seq!["pull"@, "--progress"@]);
    }
    remote_cmd(args)
}

/// A pull without `--prune` (see [`pull_streaming`]).
pub fn pull(setup: &RemoteSetup) -> (r: GitCommand)
    ensures
        r.model() == remote_command(setup.lead() + seq!["pull"@, "--progress"@]),
{
    pull_streaming(setup, false)
}

/// The arguments of a push: `--force-with-lease` for a forced push (safer
/// than `--force`); without an upstream and with a known branch, the branch
/// is pushed to `remote` with `--set-upstream`, after `--`.
pub open spec fn push_args(
    lead: Seq<Seq<char>>,
    remote: Seq<char>,
    branch: Option<Seq<char>>,
    has_upstream: bool,
    force: bool,
) -> Seq<Seq<char>> {
    let base = lead + seq!["push"@, "--progress"@] + if force {
        seq!["--force-with-lease"@]
    } else {
        Seq::empty()
    };
    match branch {
        Some(name) => if !has_upstream {
            base + seq!["--set-upstream"@, "--"@, remote, name]
        } else {
            base
        },
        None => base,
    }
}

pub open spec fn opt_str_view(o: Option<&str>) -> Option<Seq<char>> {
    match o {
        Some(s) => Some(s@),
        None => None,
    }
}

/// The remote name is used positionally only when the upstream is set up;
/// then one starting with `-` is refused.
pub open spec fn push_refused(remote: Seq<char>, branch: Option<Seq<char>>, has_upstream: bool) -> bool {
    !has_upstream && branch is Some && remote.len() > 0 && remote[0] == '-'
}

/// A push to the upstream, or to `<remote>/<branch>` with `--set-upstream`
/// where there is no upstream yet.
pub fn push_streaming(
    setup: &RemoteSetup,
    remote: &str,
    branch: Option<&str>,
    has_upstream: bool,
    force: bool,
) -> (r: Result<GitCommand, GitEngineError>)
    ensures
        push_refused(remote@, opt_str_view(branch), has_upstream) <==> r is Err,
        match r {
            Ok(c) => c.model() == remote_command(
                push_args(setup.lead(), remote@, opt_str_view(branch), has_upstream, force),
            ),
            Err(e) => refused_with(Err(e), Some("Invalid remote (starts with '-'): "@ + remote@)),
        },
{
    let mut args = leading_config(&setup.credential_helper, setup.insecure_configs.as_slice());
    let a = ["push", "--progress"];
    push_all(&mut args, &a);
    assert(str_views(a@) =~= seq!["push"@, "--progress"@]);
    let ghost before_force = string_views(args@);
    if force {
        let f = ["--force-with-lease"];
        push_all(&mut args, &f);
        assert(str_views(f@) =~= seq!["--force-with-lease"@]);
    } else {
        assert(string_views(args@) =~= before_force + Seq::<Seq<char>>::empty());
    }
    if let Some(name) = branch {
        if !has_upstream {
            match reject_remote_option(remote) {
                Ok(()) => {},
                Err(e) => {
                    return Err(e);
                },
            }
            let t = ["--set-upstream", "--", remote, name];
            push_all(&mut args, &t);
            assert(str_views(t@) =~= seq!["--set-upstream"@, "--"@, remote@, name@]);
        }
    }
    Ok(remote_cmd(args))
}

/// The arguments of a push to an explicit remote: the remote (which must not
/// start with `-`) and the branch, or `HEAD`, after `--`.
pub open spec fn push_to_args(
    lead: Seq<Seq<char>>,
    remote: Seq<char>,
    branch: Option<Seq<char>>,
    force: bool,
) -> Seq<Seq<char>> {
    lead + seq!["push"@, "--progress"@] + (if force {
        seq!["--force-with-lease"@]
    } else {
        Seq::empty()
    }) + seq![
        "--"@,
        remote,
        match branch {
            Some(b) => b,
            None => "HEAD"@,
        },
    ]
}

/// A push to an explicit remote (not the upstream).
pub fn push_to_streaming(setup: &RemoteSetup, remote: &str, branch: Option<&str>, force: bool) -> (r:
    Result<GitCommand, GitEngineError>)
    ensures
        (remote@.len() > 0 && remote@[0] == '-') <==> r is Err,
        match r {
            Ok(c) => c.model() == remote_command(
                push_to_args(setup.lead(), remote@, opt_str_view(branch), force),
            ),
            Err(e) => refused_with(Err(e), Some("Invalid remote (starts with '-'): "@ + remote@)),
        },
{
    let mut args = leading_config(&setup.credential_helper, setup.insecure_configs.as_slice());
    let a = ["push", "--progress"];
    push_all(&mut args, &a);
    assert(str_views(a@) =~= seq!["push"@, "--progress"@]);
    let ghost before_force = string_views(args@);
    if force {
        let f = ["--force-with-lease"];
        push_all(&mut args, &f);
        assert(str_views(f@) =~= seq!["--force-with-lease"@]);
    } else {
        assert(string_views(args@) =~= before_force + Seq::<Seq<char>>::empty());
    }
    match reject_remote_option(remote) {
        Ok(()) => {},
        Err(e) => {
            return Err(e);
        },
    }
    let target = match branch {
        Some(b) => b,
        None => "HEAD",
    };
    let t = ["--", remote, target];
    let ghost before_target = string_views(args@);
    push_all(&mut args, &t);
    assert(str_views(t@) =~= seq!["--"@, remote@, target@]);
    assert(target@ == match opt_str_view(branch) {
        Some(b) => b,
        None => "HEAD"@,
    });
    assert(before_target == setup.lead() + seq!["push"@, "--progress"@] + (if force {
        seq!["--force-with-lease"@]
    } else {
        Seq::empty()
    }));
    assert(string_views(args@) =~= push_to_args(setup.lead(), remote@, opt_str_view(branch), force));
    Ok(remote_cmd(args))
}

/// A push to an explicit remote (see [`push_to_streaming`]).
pub fn push_to(setup: &RemoteSetup, remote: &str, branch: Option<&str>, force: bool) -> (r: Result<
    GitCommand,
    GitEngineError,
>)
    ensures
        (remote@.len() > 0 && remote@[0] == '-') <==> r is Err,
        match r {
            Ok(c) => c.model() == remote_command(
                push_to_args(setup.lead(), remote@, opt_str_view(branch), force),
            ),
            Err(e) => refused_with(Err(e), Some("Invalid remote (starts with '-'): "@ + remote@)),
        },
{
    push_to_streaming(setup, remote, branch, force)
}

/// The branch a clone is limited to: the chosen one, unless empty.
pub open spec fn clone_branch_model(options: CloneOptions) -> Option<Seq<char>> {
    match options.branch {
        Some(b) => if b@.len() > 0 {
            Some(b@)
        } else {
            None
        },
        None => None,
    }
}

/// The arguments of the clone's fetch: `fetch origin --progress`, a depth of
/// at least 1, the blob filter of a blobless clone, and for a single-branch
/// clone the refspec of that branch.
pub open spec fn clone_fetch_args(lead: Seq<Seq<char>>, options: CloneOptions) -> Seq<Seq<char>> {
    lead + seq!["fetch"@, "origin"@, "--progress"@] + (match options.depth {
        Some(d) => seq!["--depth"@, decimal(if d == 0 {
            1
        } else {
            d as nat
        })],
        None => Seq::empty(),
    }) + (if options.blobless {
        seq!["--filter=blob:none"@]
    } else {
        Seq::empty()
    }) + match clone_branch_model(options) {
        Some(b) => seq!["+refs/heads/"@ + b + ":refs/remotes/origin/"@ + b],
        None => Seq::empty(),
    }
}

/// The branch a clone is limited to (see [`clone_branch_model`]).
pub fn clone_branch(options: &CloneOptions) -> (r: Option<String>)
    ensures
        opt_string_view(r) == clone_branch_model(*options),
{
    match &options.branch {
        Some(b) => {
            if !b.as_str().is_empty() {
                Some(b.clone())
            } else {
                None
            }
        },
        None => None,
    }
}

/// The fetch stage of a clone (after the repository was created with its
/// `origin`); a chosen branch must pass [`validate_branch_name`]. After it
/// come [`maintain_commit_graph`] and the checkout of the chosen branch or,
/// without one, of the remote's default branch (see [`clone_checkout`]).
pub fn clone_fetch(setup: &RemoteSetup, options: &CloneOptions) -> (r: Result<
    GitCommand,
    GitEngineError,
>)
    ensures
        match clone_branch_model(*options) {
            Some(b) => !branch_name_ok(b) <==> r is Err,
            None => r is Ok,
        },
        match r {
            Ok(c) => c.model() == remote_command(clone_fetch_args(setup.lead(), *options)),
            Err(e) => refused_with(
                Err(e),
                Some("Invalid branch name: "@ + clone_branch_model(*options)->0),
            ),
        },
{
    let mut args = leading_config(&setup.credential_helper, setup.insecure_configs.as_slice());
    let a = ["fetch", "origin", "--progress"];
    push_all(&mut args, &a);
    assert(str_views(a@) =~= seq!["fetch"@, "origin"@, "--progress"@]);
    let ghost s1 = string_views(args@);
    match options.depth {
        Some(d) => {
            let n: u32 = if d == 0 {
                1
            } else {
                d
            };
            let ds = u64_to_string(n as u64);
            let ghost old = args@;
            args.push(String::from_str("--depth"));
            args.push(ds);
            assert(string_views(args@) =~= string_views(old) + seq!["--depth"@, ds@]);
        },
        None => {
            assert(string_views(args@) =~= s1 + Seq::<Seq<char>>::empty());
        },
    }
    let ghost s2 = string_views(args@);
    if options.blobless {
        let f = ["--filter=blob:none"];
        push_all(&mut args, &f);
        assert(str_views(f@) =~= seq!["--filter=blob:none"@]);
    } else {
        assert(string_views(args@) =~= s2 + Seq::<Seq<char>>::empty());
    }
    let ghost s3 = string_views(args@);
    match clone_branch(options) {
        Some(b) => {
            match validate_branch_name(b.as_str()) {
                Ok(()) => {},
                Err(e) => {
                    return Err(e);
                },
            }
            let mut rs = String::from_str("+refs/heads/");
            push_str(&mut rs, b.as_str());
            push_str(&mut rs, ":refs/remotes/origin/");
            push_str(&mut rs, b.as_str());
            let ghost old = args@;
            args.push(rs);
            assert(string_views(args@) =~= string_views(old) + seq![rs@]);
        },
        None => {
            assert(string_views(args@) =~= s3 + Seq::<Seq<char>>::empty());
        },
    }
    Ok(remote_cmd(args))
}

/// The checkout that ends a clone: with the setting's leading arguments (a
/// blobless clone fetches the blobs here), the generous limit and classified
/// errors, without progress.
pub fn clone_checkout(setup: &RemoteSetup, target: &str) -> (r: GitCommand)
    ensures
        r.model() == (CommandModel {
            streaming: false,
            ..remote_command(setup.lead() + seq!["checkout"@, target@])
        }),
{
    let mut args = leading_config(&setup.credential_helper, setup.insecure_configs.as_slice());
    let a = ["checkout", target];
    push_all(&mut args, &a);
    assert(str_views(a@) =~= seq!["checkout"@, target@]);
    let envs: Vec<(String, String)> = Vec::new();
    assert(env_views(envs@) =~= Seq::<(Seq<char>, Seq<char>)>::empty());
    GitCommand {
        args,
        envs,
        timeout_secs: CLONE_TIMEOUT_SECS,
        trim: true,
        remote: true,
        streaming: false,
    }
}

/// Sets `refs/remotes/origin/HEAD` from the remote (which it contacts, hence
/// the setting's leading arguments); best effort.
pub fn set_origin_head(setup: &RemoteSetup) -> (r: GitCommand)
    ensures
        r.model() == plain(
            setup.lead() + seq!["remote"@, "set-head"@, "origin"@, "--auto"@],
            SIDECAR_TIMEOUT_SECS as nat,
            true,
        ),
{
    let mut args = leading_config(&setup.credential_helper, setup.insecure_configs.as_slice());
    let a = ["remote", "set-head", "origin", "--auto"];
    push_all(&mut args, &a);
    assert(str_views(a@) =~= seq!["remote"@, "set-head"@, "origin"@, "--auto"@]);
    command(args, SIDECAR_TIMEOUT_SECS, true)
}

/// Reads `refs/remotes/origin/HEAD` (see [`detect_default_branch`]).
pub fn read_origin_head() -> (r: GitCommand)
    ensures
        r.model() == plain(
            seq!["symbolic-ref"@, "--short"@, "refs/remotes/origin/HEAD"@],
            SIDECAR_TIMEOUT_SECS as nat,
            true,
        ),
{
    let a = ["symbolic-ref", "--short", "refs/remotes/origin/HEAD"];
    assert(str_views(a@) =~= seq!["symbolic-ref"@, "--short"@, "refs/remotes/origin/HEAD"@]);
    run_git(&a)
}

/// The remote's default branch from the output of [`read_origin_head`]:
/// `origin/<name>`, where the name is not empty and does not start with `-`.
pub open spec fn default_branch_model(head: Seq<char>) -> Option<Seq<char>> {
    let t = trim(head);
    if has_prefix(t, "origin/"@) {
        let name = t.skip("origin/"@.len() as int);
        if name.len() > 0 && name[0] != '-' {
            Some(name)
        } else {
            None
        }
    } else {
        None
    }
}

/// The default branch named by the output of [`read_origin_head`].
pub fn detect_default_branch(head: &str) -> (r: Option<String>)
    ensures
        opt_string_view(r) == default_branch_model(head@),
{
    let cs = chars_of(head);
    let t = trimmed(cs.as_slice());
    match strip_prefix_str(t.as_slice(), "origin/") {
        Some(name) => {
            if name.len() > 0 && name[0] != '-' {
                Some(string_from(name.as_slice()))
            } else {
                None
            }
        },
        None => None,
    }
}

// ---------------------------------------------------------------------------
// Outcome of a run
// ---------------------------------------------------------------------------

/// How a git process ended.
pub enum ProcessEnd {
    /// It exited, successfully or with the given code (`None`: killed by a
    /// signal).
    Exited { success: bool, code: Option<i32> },
    /// It ran past its limit and was killed.
    TimedOut,
    /// The user cancelled it and it was killed.
    Cancelled,
}

/// One look at a running git process: it `exited` (with its success and
/// code), or else the user `cancelled`, or else it ran `past_deadline`; the
/// first of these that holds ends the wait (`None`: wait on).
pub fn process_wait_step(exited: Option<(bool, Option<i32>)>, cancelled: bool, past_deadline: bool) -> (r:
    Option<ProcessEnd>)
    ensures
        exited matches Some((success, code)) ==> r == Some(ProcessEnd::Exited { success, code }),
        exited is None && cancelled ==> r == Some(ProcessEnd::Cancelled),
        exited is None && !cancelled && past_deadline ==> r == Some(ProcessEnd::TimedOut),
        exited is None && !cancelled && !past_deadline ==> r is None,
{
    match exited {
        Some((success, code)) => Some(ProcessEnd::Exited { success, code }),
        None => {
            if cancelled {
                Some(ProcessEnd::Cancelled)
            } else if past_deadline {
                Some(ProcessEnd::TimedOut)
            } else {
                None
            }
        },
    }
}

/// What a finished git process left: how it ended and its output, decoded.
pub struct ProcessOutcome {
    pub end: ProcessEnd,
    pub stdout: String,
    pub stderr: String,
}

/// `{:?}` of an exit code.
pub open spec fn exit_code_text(code: Option<i32>) -> Seq<char> {
    match code {
        Some(n) => "Some("@ + signed_decimal(n as int) + ")"@,
        None => "None"@,
    }
}

/// What a run amounts to before remote errors are classified.
pub enum RunModel {
    Output(Seq<char>),
    Failed(Seq<char>),
    Cancelled,
}

/// The output of a run: stdout and stderr together and trimmed (or stdout as
/// is), or the failure message: the trimmed output, or a message naming the
/// command and its exit code where there is none; after the limit, a message
/// naming the command and the limit.
pub open spec fn run_model(c: CommandModel, end: ProcessEnd, out: Seq<char>, err: Seq<char>) -> RunModel {
    match end {
        ProcessEnd::Cancelled => RunModel::Cancelled,
        ProcessEnd::TimedOut => RunModel::Failed(
            "git "@ + join(c.args, " "@) + " aborted after "@ + decimal(c.timeout_secs)
                + " s (timeout) — check the network/remote"@,
        ),
        ProcessEnd::Exited { success, code } => if success {
            if c.trim {
                RunModel::Output(trim(out + err))
            } else {
                RunModel::Output(out)
            }
        } else if trim(out + err).len() > 0 {
            RunModel::Failed(trim(out + err))
        } else {
            RunModel::Failed(
                "git "@ + join(c.args, " "@) + " failed (exit code "@ + exit_code_text(code) + ")"@,
            )
        },
    }
}

/// `r` is what a run amounts to: the output, the cancellation, or the
/// failure as a sidecar error, which for a remote operation is classified
/// (see [`remote_op`]).
pub open spec fn finished(c: CommandModel, run: RunModel, r: Result<String, GitEngineError>) -> bool {
    match run {
        RunModel::Output(o) => r matches Ok(s) && s@ == o,
        RunModel::Cancelled => r matches Err(GitEngineError::Cancelled),
        RunModel::Failed(m) => if c.remote {
            match classify_model(m) {
                Some((code, msg)) => r matches Err(GitEngineError::Remote { code: k, message: t })
                    && k@ == code && t@ == msg,
                None => r matches Err(GitEngineError::Sidecar { message: t }) && t@ == m,
            }
        } else {
            r matches Err(GitEngineError::Sidecar { message: t }) && t@ == m
        },
    }
}

/// The arguments of `c` joined with spaces.
fn args_text(args: &Vec<String>) -> (r: String)
    ensures
        r@ == join(string_views(args@), " "@),
{
    let r = crate::error::join_strings(args, " ");
    assert(Seq::new(args@.len(), |i: int| args@[i]@) =~= string_views(args@));
    r
}

/// The result of a finished git run of `cmd`.
pub fn finish(cmd: &GitCommand, outcome: ProcessOutcome) -> (r: Result<String, GitEngineError>)
    ensures
        finished(cmd.model(), run_model(cmd.model(), outcome.end, outcome.stdout@, outcome.stderr@), r),
{
    let ghost c = cmd.model();
    let ghost run = run_model(c, outcome.end, outcome.stdout@, outcome.stderr@);
    let raw: Result<String, GitEngineError> = match outcome.end {
        ProcessEnd::Cancelled => {
            return Err(GitEngineError::Cancelled);
        },
        ProcessEnd::TimedOut => {
            let mut m = String::from_str("git ");
            let a = args_text(&cmd.args);
            push_str(&mut m, a.as_str());
            push_str(&mut m, " aborted after ");
            let secs = u64_to_string(cmd.timeout_secs);
            push_str(&mut m, secs.as_str());
            push_str(&mut m, " s (timeout) — check the network/remote");
            assert(run == RunModel::Failed(m@));
            Err(GitEngineError::Sidecar { message: m })
        },
        ProcessEnd::Exited { success, code } => {
            let mut both = outcome.stdout.clone();
            push_str(&mut both, outcome.stderr.as_str());
            let bc = chars_of(both.as_str());
            let combined = trimmed(bc.as_slice());
            assert(combined@ == trim(outcome.stdout@ + outcome.stderr@));
            if success {
                if cmd.trim {
                    let o = string_from(combined.as_slice());
                    assert(run == RunModel::Output(o@));
                    Ok(o)
                } else {
                    assert(run == RunModel::Output(outcome.stdout@));
                    Ok(outcome.stdout)
                }
            } else if combined.len() > 0 {
                let m = string_from(combined.as_slice());
                assert(run == RunModel::Failed(m@));
                Err(GitEngineError::Sidecar { message: m })
            } else {
                let mut m = String::from_str("git ");
                let a = args_text(&cmd.args);
                push_str(&mut m, a.as_str());
                push_str(&mut m, " failed (exit code ");
                let ghost before = m@;
                match code {
                    Some(n) => {
                        push_str(&mut m, "Some(");
                        let t = i32_to_string(n);
                        push_str(&mut m, t.as_str());
                        push_str(&mut m, ")");
                        assert(m@ =~= before + exit_code_text(code));
                    },
                    None => {
                        push_str(&mut m, "None");
                        assert(m@ =~= before + exit_code_text(code));
                    },
                }
                push_str(&mut m, ")");
                assert(run == RunModel::Failed(m@));
                Err(GitEngineError::Sidecar { message: m })
            }
        },
    };
    if cmd.remote {
        remote_op(raw)
    } else {
        raw
    }
}

// ---------------------------------------------------------------------------
// History, patches, interactive rebase
// ---------------------------------------------------------------------------

/// The machine-readable log format: fields separated by the unit separator,
/// the subject last (a separator inside it stays part of it).
pub const LOG_FORMAT: &'static str = "--format=%H%x1f%an%x1f%ae%x1f%at%x1f%P%x1f%s";

pub open spec fn is_nl(c: char) -> bool {
    c == '\n' || c == '\r'
}

/// `s` without line ends at its start.
pub open spec fn trim_nl_start(s: Seq<char>) -> Seq<char>
    decreases s.len(),
{
    if s.len() > 0 && is_nl(s[0]) {
        trim_nl_start(s.drop_first())
    } else {
        s
    }
}

/// `s` without line ends at its end.
pub open spec fn trim_nl_end(s: Seq<char>) -> Seq<char>
    decreases s.len(),
{
    if s.len() > 0 && is_nl(s.last()) {
        trim_nl_end(s.drop_last())
    } else {
        s
    }
}

/// A raw record of the streamed log without the line ends around it: an
/// empty one is skipped, any other is parsed (see [`log_record_model`]).
pub open spec fn stream_record_model(raw: Seq<char>) -> Option<CommitModel> {
    let t = trim_nl_end(trim_nl_start(raw));
    if t.len() == 0 {
        None
    } else {
        log_record_model(t)
    }
}

/// The commit of one raw record of the streamed log, if it holds one (see
/// [`stream_record_model`]).
pub fn stream_record(raw: &str) -> (r: Option<CommitInfo>)
    ensures
        match r {
            Some(c) => stream_record_model(raw@) == Some(commit_view(c)),
            None => stream_record_model(raw@) is None,
        },
{
    let cs = chars_of(raw);
    let s = cs.as_slice();
    let mut a: usize = 0;
    assert(s@.skip(0) =~= s@);
    while a < s.len() && (s[a] == '\n' || s[a] == '\r')
        invariant
            a <= s@.len(),
            trim_nl_start(s@) == trim_nl_start(s@.skip(a as int)),
        decreases s@.len() - a,
    {
        assert(s@.skip(a as int).drop_first() =~= s@.skip(a + 1));
        a = a + 1;
    }
    assert(s@.skip(0) =~= s@);
    let ghost head = s@.skip(a as int);
    assert(trim_nl_start(head) == head);
    let mut b: usize = s.len();
    assert(head.take(head.len() as int) =~= head);
    while b > a && (s[b - 1] == '\n' || s[b - 1] == '\r')
        invariant
            a <= b <= s@.len(),
            head == s@.skip(a as int),
            trim_nl_end(head) == trim_nl_end(s@.subrange(a as int, b as int)),
        decreases b,
    {
        assert(s@.subrange(a as int, b as int).drop_last() =~= s@.subrange(a as int, b - 1));
        b = b - 1;
    }
    if a == b {
        assert(s@.subrange(a as int, b as int) =~= Seq::<char>::empty());
        return None;
    }
    let t = crate::text::string_from_range(s, a, b);
    assert(s@.subrange(a as int, b as int).last() == s@[b - 1]);
    assert(t@ == trim_nl_end(trim_nl_start(raw@)));
    parse_log_record(t.as_str())
}

/// What the wait for the next record of a streamed `git log` brought: a
/// record, which the reader took and after which it wants more (`go_on`) or
/// not; a short wait without data; or the end of the output.
pub enum LogWait {
    Record { go_on: bool },
    Quiet,
    Closed,
}

/// What the stream does next: wait again, stop the process early (because
/// the reader has enough, or because it waited past the limit without
/// data), or finish with the process's own end.
#[derive(Debug, PartialEq, Eq, Structural)]
pub enum LogNext {
    Wait,
    Stop { timed_out: bool },
    Finish,
}

/// One step of a streamed `git log`, given how many seconds have passed
/// since the last record (or the start): the limit of
/// [`SIDECAR_TIMEOUT_SECS`] applies to waiting without data, so a flowing
/// stream may run for as long as it runs.
pub fn log_wait_step(event: LogWait, quiet_secs: u64) -> (r: LogNext)
    ensures
        r == match event {
            LogWait::Record { go_on } => if go_on {
                LogNext::Wait
            } else {
                LogNext::Stop { timed_out: false }
            },
            LogWait::Quiet => if quiet_secs >= SIDECAR_TIMEOUT_SECS {
                LogNext::Stop { timed_out: true }
            } else {
                LogNext::Wait
            },
            LogWait::Closed => LogNext::Finish,
        },
{
    match event {
        LogWait::Record { go_on } => if go_on {
            LogNext::Wait
        } else {
            LogNext::Stop { timed_out: false }
        },
        LogWait::Quiet => if quiet_secs >= SIDECAR_TIMEOUT_SECS {
            LogNext::Stop { timed_out: true }
        } else {
            LogNext::Wait
        },
        LogWait::Closed => LogNext::Finish,
    }
}

/// One byte of a streamed process's stderr added to the progress segment
/// being read: a `\r` or `\n` ends the segment, which is handed out when it
/// is not empty; any other byte is appended.
pub fn progress_byte(seg: &mut Vec<u8>, byte: u8) -> (done: Option<Vec<u8>>)
    ensures
        (byte == 13 || byte == 10) ==> final(seg)@.len() == 0 && (if old(seg)@.len() == 0 {
            done is None
        } else {
            done matches Some(d) && d@ == old(seg)@
        }),
        !(byte == 13 || byte == 10) ==> final(seg)@ == old(seg)@.push(byte) && done is None,
{
    if byte == 13 || byte == 10 {
        if seg.len() == 0 {
            return None;
        }
        let mut out: Vec<u8> = Vec::new();
        std::mem::swap(&mut out, seg);
        Some(out)
    } else {
        seg.push(byte);
        None
    }
}

/// How a streamed `git log` ended: after a wait without data past the
/// limit, with a message naming the limit; stopped early by the reader, or
/// successful, fine; otherwise with a message naming the exit code.
pub fn stream_log_end(timed_out: bool, stopped: bool, success: bool, code: Option<i32>) -> (r: Result<
    (),
    GitEngineError,
>)
    ensures
        timed_out ==> (r matches Err(GitEngineError::Sidecar { message: m }) && m@
            == "git log aborted after "@ + decimal(SIDECAR_TIMEOUT_SECS as nat)
            + " s without data (hung?)"@),
        !timed_out && (stopped || success) ==> r is Ok,
        !timed_out && !stopped && !success ==> (r matches Err(GitEngineError::Sidecar { message: m })
            && m@ == "git log failed (exit code "@ + exit_code_text(code) + ")"@),
{
    if timed_out {
        let mut m = String::from_str("git log aborted after ");
        let secs = u64_to_string(SIDECAR_TIMEOUT_SECS);
        push_str(&mut m, secs.as_str());
        push_str(&mut m, " s without data (hung?)");
        return Err(GitEngineError::Sidecar { message: m });
    }
    if stopped || success {
        return Ok(());
    }
    let mut m = String::from_str("git log failed (exit code ");
    let ghost before = m@;
    match code {
        Some(n) => {
            push_str(&mut m, "Some(");
            let t = i32_to_string(n);
            push_str(&mut m, t.as_str());
            push_str(&mut m, ")");
            assert(m@ =~= before + exit_code_text(code));
        },
        None => {
            push_str(&mut m, "None");
            assert(m@ =~= before + exit_code_text(code));
        },
    }
    push_str(&mut m, ")");
    Err(GitEngineError::Sidecar { message: m })
}

/// The arguments of the streamed `git log` in topological order (children
/// before parents), NUL-separated records, followed by `extra`. It runs with
/// `LC_ALL=C` and without a terminal prompt.
pub open spec fn log_args_model(extra: Seq<Seq<char>>) -> Seq<Seq<char>> {
    seq!["log"@, "--topo-order"@, "-z"@, LOG_FORMAT@] + extra
}

pub fn log_args(extra: Vec<String>) -> (r: Vec<String>)
    ensures
        string_views(r@) == log_args_model(string_views(extra@)),
{
    let mut args: Vec<String> = Vec::new();
    let a = ["log", "--topo-order", "-z", LOG_FORMAT];
    push_all(&mut args, &a);
    assert(str_views(a@) =~= seq!["log"@, "--topo-order"@, "-z"@, LOG_FORMAT@]);
    let ghost head = string_views(args@);
    let ghost ev = string_views(extra@);
    let mut i: usize = 0;
    while i < extra.len()
        invariant
            i <= extra@.len(),
            ev == string_views(extra@),
            string_views(args@) == head + ev.take(i as int),
        decreases extra@.len() - i,
    {
        let ghost old = args@;
        args.push(extra[i].clone());
        assert(string_views(args@) =~= string_views(old).push(extra@[i as int]@));
        assert(ev.take(i + 1) =~= ev.take(i as int).push(extra@[i as int]@));
        i = i + 1;
    }
    assert(ev.take(extra@.len() as int) =~= ev);
    args
}

/// The environment of the streamed `git log`: no terminal prompt, and the C
/// locale for the records that are parsed.
pub fn log_envs() -> (r: Vec<(String, String)>)
    ensures
        env_views(r@) == seq![("GIT_TERMINAL_PROMPT"@, "0"@), ("LC_ALL"@, "C"@)],
{
    let mut r: Vec<(String, String)> = Vec::new();
    r.push((String::from_str("GIT_TERMINAL_PROMPT"), String::from_str("0")));
    r.push((String::from_str("LC_ALL"), String::from_str("C")));
    assert(env_views(r@) =~= seq![("GIT_TERMINAL_PROMPT"@, "0"@), ("LC_ALL"@, "C"@)]);
    r
}

/// The command line of the streamed `git log` around its working directory:
/// `git <before> <dir> <after>`, `before` the guard and `-C`, `after` the log
/// arguments with `extra` (see [`log_args_model`]).
pub fn log_process_args(extra: Vec<String>) -> (r: (Vec<String>, Vec<String>))
    ensures
        string_views(r.0@) == dir_prefix_model(),
        string_views(r.1@) == log_args_model(string_views(extra@)),
{
    (dir_prefix(), log_args(extra))
}

fn number_arg(prefix: &str, n: u64) -> (r: String)
    ensures
        r@ == prefix@ + decimal(n as nat),
{
    let mut r = String::from_str(prefix);
    let d = u64_to_string(n);
    push_str(&mut r, d.as_str());
    r
}

/// The log arguments of one history page (skip/limit) of the current branch.
pub fn log_page(skip: u64, limit: u64) -> (r: Vec<String>)
    ensures
        string_views(r@) == log_args_model(
            seq!["--skip="@ + decimal(skip as nat), "--max-count="@ + decimal(limit as nat)],
        ),
{
    let mut extra: Vec<String> = Vec::new();
    extra.push(number_arg("--skip=", skip));
    extra.push(number_arg("--max-count=", limit));
    assert(string_views(extra@) =~= seq![
        "--skip="@ + decimal(skip as nat),
        "--max-count="@ + decimal(limit as nat),
    ]);
    log_args(extra)
}

/// The log arguments of one history page across all local and remote
/// branches, tags and `HEAD` (named explicitly: `--all` would bring in the
/// stash as noise).
pub fn log_page_all(skip: u64, limit: u64) -> (r: Vec<String>)
    ensures
        string_views(r@) == log_args_model(
            seq![
                "--branches"@,
                "--remotes"@,
                "--tags"@,
                "HEAD"@,
                "--skip="@ + decimal(skip as nat),
                "--max-count="@ + decimal(limit as nat),
            ],
        ),
{
    let mut extra: Vec<String> = Vec::new();
    let b = ["--branches", "--remotes", "--tags", "HEAD"];
    push_all(&mut extra, &b);
    assert(str_views(b@) =~= seq!["--branches"@, "--remotes"@, "--tags"@, "HEAD"@]);
    let ghost e0 = string_views(extra@);
    let s1 = number_arg("--skip=", skip);
    extra.push(s1);
    let s2 = number_arg("--max-count=", limit);
    extra.push(s2);
    assert(string_views(extra@) =~= e0 + seq![s1@, s2@]);
    assert(string_views(extra@) =~= seq![
        "--branches"@,
        "--remotes"@,
        "--tags"@,
        "HEAD"@,
        "--skip="@ + decimal(skip as nat),
        "--max-count="@ + decimal(limit as nat),
    ]);
    log_args(extra)
}

/// `git apply` of the patch in `file`, to the index (`cached`) and/or
/// reversed.
pub fn apply_patch(file: &str, cached: bool, reverse: bool) -> (r: GitCommand)
    ensures
        r.model() == plain(
            seq!["apply"@, "--whitespace=nowarn"@] + (if cached {
                seq!["--cached"@]
            } else {
                Seq::empty()
            }) + (if reverse {
                seq!["--reverse"@]
            } else {
                Seq::empty()
            }) + seq![file@],
            SIDECAR_TIMEOUT_SECS as nat,
            true,
        ),
{
    let mut args: Vec<String> = Vec::new();
    let a = ["apply", "--whitespace=nowarn"];
    push_all(&mut args, &a);
    assert(str_views(a@) =~= seq!["apply"@, "--whitespace=nowarn"@]);
    let ghost s0 = string_views(args@);
    if cached {
        args.push(String::from_str("--cached"));
    }
    let ghost s1 = string_views(args@);
    assert(s1 =~= s0 + (if cached {
        seq!["--cached"@]
    } else {
        Seq::<Seq<char>>::empty()
    }));
    if reverse {
        args.push(String::from_str("--reverse"));
    }
    let ghost s2 = string_views(args@);
    assert(s2 =~= s1 + (if reverse {
        seq!["--reverse"@]
    } else {
        Seq::<Seq<char>>::empty()
    }));
    args.push(String::from_str(file));
    assert(string_views(args@) =~= s2 + seq![file@]);
    assert(s0 =~= seq!["apply"@, "--whitespace=nowarn"@]);
    assert(string_views(args@) =~= seq!["apply"@, "--whitespace=nowarn"@] + (if cached {
        seq!["--cached"@]
    } else {
        Seq::<Seq<char>>::empty()
    }) + (if reverse {
        seq!["--reverse"@]
    } else {
        Seq::<Seq<char>>::empty()
    }) + seq![file@]);
    command(args, SIDECAR_TIMEOUT_SECS, true)
}

/// A path in sh single quotes, with forward slashes.
pub open spec fn quoted_posix(p: Seq<char>) -> Seq<char> {
    seq!['\''] + sh_quote_body(replace_char(p, '\\', '/')) + seq!['\'']
}

fn quote_posix(p: &str) -> (r: String)
    ensures
        r@ == quoted_posix(p@),
{
    let cs = chars_of(p);
    let f = replace_chars(cs.as_slice(), '\\', '/');
    let fs = string_from(f.as_slice());
    sh_single_quote(fs.as_str())
}

/// The copies of the reword message files next to git's todo file.
pub open spec fn copy_messages(msgs: Seq<(Seq<char>, Seq<char>)>) -> Seq<char>
    decreases msgs.len(),
{
    if msgs.len() == 0 {
        Seq::empty()
    } else {
        copy_messages(msgs.drop_last()) + " && cp -p "@ + quoted_posix(msgs.last().0)
            + " \"${1%/*}/"@ + msgs.last().1 + "\""@
    }
}

/// The sequence editor of the non-interactive interactive rebase: it copies
/// our todo list over git's (and, with reword messages, the message files
/// next to it, chained with `&&` so that a failed copy stops the rebase).
pub open spec fn sequence_editor_model(plan: Seq<char>, msgs: Seq<(Seq<char>, Seq<char>)>) -> Seq<
    char,
> {
    if msgs.len() == 0 {
        "cp "@ + quoted_posix(plan)
    } else {
        "f() { "@ + "cp -p "@ + quoted_posix(plan) + " \"$1\""@ + copy_messages(msgs) + "; }; f"@
    }
}

pub open spec fn pair_views(m: Seq<(String, String)>) -> Seq<(Seq<char>, Seq<char>)> {
    Seq::new(m.len(), |i: int| (m[i].0@, m[i].1@))
}

/// The sequence editor (see [`sequence_editor_model`]) for the todo list in
/// `plan` and the reword messages `(source file, target name)`.
pub fn sequence_editor(plan: &str, msgs: &[(String, String)]) -> (r: String)
    ensures
        r@ == sequence_editor_model(plan@, pair_views(msgs@)),
{
    let q = quote_posix(plan);
    if msgs.len() == 0 {
        let mut r = String::from_str("cp ");
        push_str(&mut r, q.as_str());
        return r;
    }
    let ghost mv = pair_views(msgs@);
    let mut cmd = String::from_str("cp -p ");
    push_str(&mut cmd, q.as_str());
    push_str(&mut cmd, " \"$1\"");
    let ghost head = cmd@;
    let mut i: usize = 0;
    assert(mv.take(0) =~= Seq::<(Seq<char>, Seq<char>)>::empty());
    while i < msgs.len()
        invariant
            i <= msgs@.len(),
            mv == pair_views(msgs@),
            cmd@ == head + copy_messages(mv.take(i as int)),
        decreases msgs@.len() - i,
    {
        let ghost old = cmd@;
        let (src, name) = &msgs[i];
        push_str(&mut cmd, " && cp -p ");
        let qs = quote_posix(src.as_str());
        push_str(&mut cmd, qs.as_str());
        push_str(&mut cmd, " \"${1%/*}/");
        push_str(&mut cmd, name.as_str());
        push_str(&mut cmd, "\"");
        assert(mv.take(i + 1).drop_last() =~= mv.take(i as int));
        assert(mv.take(i + 1).last() == (src@, name@));
        assert(cmd@ =~= head + copy_messages(mv.take(i + 1)));
        i = i + 1;
    }
    assert(mv.take(msgs@.len() as int) =~= mv);
    let mut r = String::from_str("f() { ");
    push_str(&mut r, cmd.as_str());
    push_str(&mut r, "; }; f");
    assert(r@ =~= "f() { "@ + "cp -p "@ + quoted_posix(plan@) + " \"$1\""@ + copy_messages(mv)
        + "; }; f"@);
    r
}

/// The interactive rebase onto `base` with our todo list in `plan`, without
/// an interactive editor: the sequence editor copies the list over git's.
/// `--autostash` keeps local changes safe, `rebase.autosquash=false` leaves
/// the todo list to us; the generous limit, because replaying many commits
/// may take long.
pub fn rebase_interactive(base: &str, plan: &str, msgs: &[(String, String)]) -> (r: GitCommand)
    ensures
        r.model() == (CommandModel {
            envs: seq![("GIT_SEQUENCE_EDITOR"@, sequence_editor_model(plan@, pair_views(msgs@)))],
            ..plain(
                seq![
                    "-c"@,
                    "rebase.autosquash=false"@,
                    "rebase"@,
                    "-i"@,
                    "--autostash"@,
                    base@,
                ],
                CLONE_TIMEOUT_SECS as nat,
                true,
            )
        }),
{
    let editor = sequence_editor(plan, msgs);
    let a = ["-c", "rebase.autosquash=false", "rebase", "-i", "--autostash", base];
    let e = [("GIT_SEQUENCE_EDITOR", editor.as_str())];
    let r = run_git_long_env(&a, &e);
    assert(str_views(a@) =~= seq![
        "-c"@,
        "rebase.autosquash=false"@,
        "rebase"@,
        "-i"@,
        "--autostash"@,
        base@,
    ]);
    assert(Seq::new(e@.len(), |i: int| (e@[i].0@, e@[i].1@)) =~= seq![
        ("GIT_SEQUENCE_EDITOR"@, editor@),
    ]);
    r
}

// ---------------------------------------------------------------------------
// Repository-local credential hooks
// ---------------------------------------------------------------------------

/// Setting keys whose repository-local value makes git run a command during
/// a remote operation (`credential.helper` is multi-valued: a local entry
/// would still run, and first; `core.askPass` is started for a password).
pub fn local_credential_hooks() -> (r: [&'static str; 2])
    ensures
        r@[0]@ == "credential.helper"@,
        r@[1]@ == "core.askpass"@,
{
    ["credential.helper", "core.askpass"]
}

/// The refusal of a remote operation in a repository whose own
/// `.git/config` defines the credential hook `key`: such a `.git` from
/// someone else would run its command on the first fetch.
pub fn credential_hook_refusal(key: &str) -> (e: GitEngineError)
    ensures
        e matches GitEngineError::Remote { code, message } && code@ == "local_credential_hook"@
            && message@ == "This repository carries its own `"@ + key@
            + "` in .git/config. git would run that as a command during the transfer, so terra-git refuses the remote operation. Remove the entry (git config --unset "@
            + key@ + ") or set the credential helper in your global git configuration."@,
{
    let mut m = String::from_str("This repository carries its own `");
    push_str(&mut m, key);
    push_str(
        &mut m,
        "` in .git/config. git would run that as a command during the transfer, so terra-git refuses the remote operation. Remove the entry (git config --unset ",
    );
    push_str(&mut m, key);
    push_str(&mut m, ") or set the credential helper in your global git configuration.");
    GitEngineError::Remote { code: "local_credential_hook", message: m }
}

} // verus!
