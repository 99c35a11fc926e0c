//! The plan of a non-interactive interactive rebase: checking the steps and
//! writing git's todo list.
//!
//! The todo list must cover exactly the commits of the rebase range (no
//! commit lost, none twice). A reword, or a pick with a new author, becomes a
//! pick followed by an `exec git commit --amend`, whose message comes from a
//! file next to git's own todo file.

use vstd::prelude::*;

use crate::domain::RebaseStep;
use crate::error::GitEngineError;
use crate::sidecar::pair_views;
use crate::text::{
    ascii_lower, chars_eq, chars_eq_str, chars_of, decimal, first_where, is_char, is_hex,
    lemma_first_where, push_str, string_from, string_from_range, string_views, trim, trim_start,
    trimmed, u64_to_string,
};

verus! {

/// A rebase step as plain values.
pub struct StepModel {
    pub action: Seq<char>,
    pub commit_id: Seq<char>,
    pub message: Option<Seq<char>>,
    pub author: Option<Seq<char>>,
}

pub open spec fn step_view(s: RebaseStep) -> StepModel {
    StepModel {
        action: s.action@,
        commit_id: s.commit_id@,
        message: match s.message {
            Some(m) => Some(m@),
            None => None,
        },
        author: match s.author {
            Some(a) => Some(a@),
            None => None,
        },
    }
}

pub open spec fn steps_view(s: Seq<RebaseStep>) -> Seq<StepModel> {
    Seq::new(s.len(), |i: int| step_view(s[i]))
}

pub open spec fn valid_action(a: Seq<char>) -> bool {
    a == "pick"@ || a == "reword"@ || a == "squash"@ || a == "fixup"@ || a == "drop"@
}

/// What is wrong with one step on its own, if anything.
pub open spec fn step_problem(s: StepModel) -> Option<Seq<char>> {
    if !valid_action(s.action) {
        Some("Unknown rebase action: "@ + s.action)
    } else if s.action == "reword"@ && match s.message {
        Some(m) => trim(m).len() == 0,
        None => true,
    } {
        Some("Reword needs a new commit message."@)
    } else {
        None
    }
}

/// The problem of the first step that has one.
pub open spec fn steps_problem(steps: Seq<StepModel>) -> Option<Seq<char>>
    decreases steps.len(),
{
    if steps.len() == 0 {
        None
    } else {
        match steps_problem(steps.drop_last()) {
            Some(p) => Some(p),
            None => step_problem(steps.last()),
        }
    }
}

/// The first step that is not dropped.
pub open spec fn first_kept(steps: Seq<StepModel>) -> Option<StepModel>
    decreases steps.len(),
{
    if steps.len() == 0 {
        None
    } else {
        match first_kept(steps.drop_last()) {
            Some(k) => Some(k),
            None => if steps.last().action != "drop"@ {
                Some(steps.last())
            } else {
                None
            },
        }
    }
}

/// The refusal of a plan on its own, if any: it is empty, a step has an
/// unknown action or a reword without message, or the first kept step is a
/// squash or fixup (which needs a predecessor to fall into).
pub open spec fn plan_problem(steps: Seq<StepModel>) -> Option<Seq<char>> {
    if steps.len() == 0 {
        Some("Empty rebase plan"@)
    } else {
        match steps_problem(steps) {
            Some(p) => Some(p),
            None => match first_kept(steps) {
                Some(k) => if k.action != "pick"@ && k.action != "reword"@ {
                    Some(
                        "The first kept commit has to be 'pick' or 'reword' (squash/fixup needs a predecessor)."@,
                    )
                } else {
                    None
                },
                None => None,
            },
        }
    }
}

fn opt_view(o: &Option<String>) -> (r: Option<Vec<char>>)
    ensures
        match r {
            Some(v) => *o matches Some(s) && v@ == s@,
            None => o is None,
        },
{
    match o {
        Some(s) => Some(chars_of(s.as_str())),
        None => None,
    }
}

fn step_problem_exec(s: &RebaseStep) -> (r: Option<String>)
    ensures
        match r {
            Some(m) => step_problem(step_view(*s)) == Some(m@),
            None => step_problem(step_view(*s)) is None,
        },
{
    let a = chars_of(s.action.as_str());
    let aa = a.as_slice();
    if !(chars_eq_str(aa, "pick") || chars_eq_str(aa, "reword") || chars_eq_str(aa, "squash")
        || chars_eq_str(aa, "fixup") || chars_eq_str(aa, "drop")) {
        let mut m = String::from_str("Unknown rebase action: ");
        push_str(&mut m, s.action.as_str());
        return Some(m);
    }
    if chars_eq_str(aa, "reword") {
        let blank = match &s.message {
            Some(m) => {
                let t = trimmed(chars_of(m.as_str()).as_slice());
                t.len() == 0
            },
            None => true,
        };
        if blank {
            return Some(String::from_str("Reword needs a new commit message."));
        }
    }
    None
}

/// Checks a rebase plan on its own (see [`plan_problem`]).
pub fn validate_rebase_steps(steps: &[RebaseStep]) -> (r: Result<(), GitEngineError>)
    ensures
        match plan_problem(steps_view(steps@)) {
            None => r is Ok,
            Some(m) => r matches Err(GitEngineError::InvalidOperation(x)) && x@ == m,
        },
{
    let ghost sv = steps_view(steps@);
    if steps.len() == 0 {
        return Err(GitEngineError::InvalidOperation(String::from_str("Empty rebase plan")));
    }
    let mut i: usize = 0;
    assert(sv.take(0) =~= Seq::<StepModel>::empty());
    while i < steps.len()
        invariant
            i <= steps@.len(),
            sv == steps_view(steps@),
            steps_problem(sv.take(i as int)) is None,
        decreases steps@.len() - i,
    {
        assert(sv.take(i + 1).drop_last() =~= sv.take(i as int));
        assert(sv.take(i + 1).last() == step_view(steps@[i as int]));
        match step_problem_exec(&steps[i]) {
            Some(m) => {
                proof {
                    lemma_problem_stays(sv, i + 1);
                }
                return Err(GitEngineError::InvalidOperation(m));
            },
            None => {},
        }
        i = i + 1;
    }
    assert(sv.take(steps@.len() as int) =~= sv);
    // The first kept step.
    let mut k: usize = 0;
    assert(sv.take(0) =~= Seq::<StepModel>::empty());
    while k < steps.len()
        invariant
            k <= steps@.len(),
            sv == steps_view(steps@),
            steps@.len() > 0,
            steps_problem(sv) is None,
            first_kept(sv.take(k as int)) is None,
        decreases steps@.len() - k,
    {
        assert(sv.take(k + 1).drop_last() =~= sv.take(k as int));
        assert(sv.take(k + 1).last() == step_view(steps@[k as int]));
        let a = chars_of(steps[k].action.as_str());
        if !chars_eq_str(a.as_slice(), "drop") {
            proof {
                lemma_kept_stays(sv, k + 1);
            }
            if !chars_eq_str(a.as_slice(), "pick") && !chars_eq_str(a.as_slice(), "reword") {
                return Err(
                    GitEngineError::InvalidOperation(
                        String::from_str(
                            "The first kept commit has to be 'pick' or 'reword' (squash/fixup needs a predecessor).",
                        ),
                    ),
                );
            }
            return Ok(());
        }
        k = k + 1;
    }
    assert(sv.take(steps@.len() as int) =~= sv);
    Ok(())
}

proof fn lemma_problem_stays(sv: Seq<StepModel>, k: int)
    requires
        0 <= k <= sv.len(),
        steps_problem(sv.take(k)) is Some,
    ensures
        steps_problem(sv) == steps_problem(sv.take(k)),
    decreases sv.len() - k,
{
    if k < sv.len() {
        assert(sv.take(k + 1).drop_last() =~= sv.take(k));
        lemma_problem_stays(sv, k + 1);
    } else {
        assert(sv.take(k) =~= sv);
    }
}

proof fn lemma_kept_stays(sv: Seq<StepModel>, k: int)
    requires
        0 <= k <= sv.len(),
        first_kept(sv.take(k)) is Some,
    ensures
        first_kept(sv) == first_kept(sv.take(k)),
    decreases sv.len() - k,
{
    if k < sv.len() {
        assert(sv.take(k + 1).drop_last() =~= sv.take(k));
        lemma_kept_stays(sv, k + 1);
    } else {
        assert(sv.take(k) =~= sv);
    }
}

// ---------------------------------------------------------------------------
// Authors
// ---------------------------------------------------------------------------

pub open spec fn is_ascii_control(c: char) -> bool {
    (c as u32) < 0x20 || (c as u32) == 0x7f
}

/// Number of `c` in `s`.
pub open spec fn count_char(s: Seq<char>, c: char) -> nat
    decreases s.len(),
{
    if s.len() == 0 {
        0
    } else {
        count_char(s.drop_last(), c) + if s.last() == c {
            1nat
        } else {
            0nat
        }
    }
}

/// A well-formed ident `Name <email>` (after trimming): one `<`, one `>` at
/// the end, a name before and an address between them.
pub open spec fn ident_ok(t: Seq<char>) -> bool {
    let i = first_where(t, is_char('<'));
    &&& i < t.len()
    &&& t.len() > 0
    &&& t.last() == '>'
    &&& count_char(t, '<') == 1
    &&& count_char(t, '>') == 1
    &&& trim(t.take(i as int)).len() > 0
    &&& trim(t.subrange(i as int + 1, t.len() - 1)).len() > 0
}

/// The `--author` argument of the amend for a new author (nothing without
/// one), or the refusal: the exec line runs in sh, so no quotes, no leading
/// `-` and no control characters, and a well-formed ident.
pub open spec fn author_arg_model(author: Option<Seq<char>>) -> Result<Seq<char>, Seq<char>> {
    match author {
        None => Ok(Seq::empty()),
        Some(a) => if a.contains('\'') || (trim_start(a).len() > 0 && trim_start(a)[0] == '-')
            || (exists|i: int| 0 <= i < a.len() && is_ascii_control(#[trigger] a[i])) {
            Err("Invalid author (quotes / leading '-' / control characters)"@)
        } else if !ident_ok(trim(a)) {
            Err("Invalid author: expected \"Name <email>\""@)
        } else {
            Ok(" --author='"@ + a + "'"@)
        },
    }
}

fn count_chars(s: &[char], c: char) -> (r: usize)
    ensures
        r == count_char(s@, c),
{
    let mut n: usize = 0;
    let mut i: usize = 0;
    while i < s.len()
        invariant
            i <= s@.len(),
            n == count_char(s@.take(i as int), c),
            n <= i,
        decreases s@.len() - i,
    {
        assert(s@.take(i + 1).drop_last() =~= s@.take(i as int));
        if s[i] == c {
            n = n + 1;
        }
        i = i + 1;
    }
    assert(s@.take(s@.len() as int) =~= s@);
    n
}

/// The `--author` argument for a new author (see [`author_arg_model`]).
pub fn author_argument(author: Option<&str>) -> (r: Result<String, GitEngineError>)
    ensures
        match author_arg_model(
            match author {
                Some(a) => Some(a@),
                None => None,
            },
        ) {
            Ok(t) => r matches Ok(s) && s@ == t,
            Err(m) => r matches Err(GitEngineError::InvalidOperation(x)) && x@ == m,
        },
{
    let a = match author {
        Some(a) => a,
        None => {
            let e = String::new();
            return Ok(e);
        },
    };
    let cs = chars_of(a);
    let s = cs.as_slice();
    let mut bad = false;
    let mut i: usize = 0;
    while i < s.len()
        invariant
            i <= s@.len(),
            bad == exists|j: int| 0 <= j < i && (s@[j] == '\'' || is_ascii_control(#[trigger] s@[j])),
        decreases s@.len() - i,
    {
        let code: u32 = s[i] as u32;
        if s[i] == '\'' || code < 0x20 || code == 0x7f {
            bad = true;
        }
        i = i + 1;
    }
    let ts = crate::text::trim_bounds(s);
    let lead_dash = ts.0 < s.len() && s[ts.0] == '-';
    assert(trim_start(s@) =~= s@.subrange(ts.0 as int, s@.len() as int));
    proof {
        if s@.contains('\'') {
            let j = choose|j: int| 0 <= j < s@.len() && s@[j] == '\'';
            assert(s@[j] == '\'' || is_ascii_control(s@[j]));
        }
    }
    if bad || lead_dash {
        return Err(
            GitEngineError::InvalidOperation(
                String::from_str("Invalid author (quotes / leading '-' / control characters)"),
            ),
        );
    }
    let t = crate::text::vec_from_range(s, ts.0, ts.1);
    let tv = t.as_slice();
    assert(tv@ == trim(s@));
    let mut p: usize = 0;
    while p < tv.len() && tv[p] != '<'
        invariant
            p <= tv@.len(),
            forall|j: int| 0 <= j < p ==> tv@[j] != '<',
        decreases tv@.len() - p,
    {
        p = p + 1;
    }
    proof {
        lemma_first_where(tv@, is_char('<'), p as int);
    }
    let ok = p < tv.len() && tv.len() > 0 && tv[tv.len() - 1] == '>' && count_chars(tv, '<') == 1
        && count_chars(tv, '>') == 1 && {
        let name = trimmed(crate::text::vec_from_range(tv, 0, p).as_slice());
        name.len() > 0
    } && {
        let mail = trimmed(crate::text::vec_from_range(tv, p + 1, tv.len() - 1).as_slice());
        mail.len() > 0
    };
    if !ok {
        return Err(
            GitEngineError::InvalidOperation(
                String::from_str("Invalid author: expected \"Name <email>\""),
            ),
        );
    }
    let mut r = String::from_str(" --author='");
    push_str(&mut r, a);
    push_str(&mut r, "'");
    Ok(r)
}

// ---------------------------------------------------------------------------
// Commit ids
// ---------------------------------------------------------------------------

/// A string that parses as an object id: 1 to 40 hex digits.
pub open spec fn oid_ok(s: Seq<char>) -> bool {
    0 < s.len() <= 40 && forall|i: int| 0 <= i < s.len() ==> is_hex(#[trigger] s[i])
}

/// The full lowercase hex form of a parsed (possibly abbreviated) object id:
/// the digits, lowercased, padded with zeros to 40.
pub open spec fn oid_text(s: Seq<char>) -> Seq<char> {
    ascii_lower(s) + Seq::new((40 - s.len()) as nat, |i: int| '0')
}

/// `git2::Oid::from_str`, then the id's hex form (`Display`). The crate
/// documents the errors (empty, more than 40 hex digits, a non-hex
/// character); libgit2's `git_oid_fromstrn` fills the missing digits with
/// zeros, and `git_oid_tostr` writes lowercase hex.
#[verifier::external_body]
fn parse_oid(s: &str) -> (r: Result<String, git2::Error>)
    ensures
        r is Ok <==> oid_ok(s@),
        r matches Ok(h) ==> h@ == oid_text(s@),
{
    match git2::Oid::from_str(s) {
        Ok(o) => Ok(o.to_string()),
        Err(e) => Err(e),
    }
}

// ---------------------------------------------------------------------------
// The todo list
// ---------------------------------------------------------------------------

/// Why a plan cannot be turned into a todo list: a commit id that does not
/// parse, or a refusal with its message.
pub enum PlanFail {
    BadId,
    Refused(Seq<char>),
}

/// The todo list built so far: the commits already planned (full ids), the
/// lines, and the reword messages `(file name, text)`.
pub struct PlanState {
    pub seen: Seq<Seq<char>>,
    pub todo: Seq<char>,
    pub msgs: Seq<(Seq<char>, Seq<char>)>,
}

/// A reword, or a pick with a new author, is written as pick + amend.
pub open spec fn wants_amend(s: StepModel) -> bool {
    s.action == "reword"@ || (s.author is Some && s.action == "pick"@)
}

/// The step brings a new message (one that is not blank).
pub open spec fn has_message(s: StepModel) -> bool {
    s.message matches Some(m) && trim(m).len() > 0
}

/// The name of the `k`-th message file (counted from 1).
pub open spec fn msg_name(k: nat) -> Seq<char> {
    "terra-msg-"@ + decimal(k) + ".txt"@
}

/// The lines of one step with full id `o`, `k` messages before it and the
/// `--author` argument `aa`.
pub open spec fn step_text(s: StepModel, o: Seq<char>, k: nat, aa: Seq<char>) -> Seq<char> {
    if wants_amend(s) {
        "pick "@ + o + "\n"@ + "exec git commit --amend "@ + (if has_message(s) {
            "-F \"$(git rev-parse --git-path rebase-merge/"@ + msg_name(k + 1) + ")\""@
        } else {
            "--no-edit"@
        }) + aa + "\n"@
    } else {
        s.action + " "@ + o + "\n"@
    }
}

/// The short form of a commit id in messages: its first 8 characters.
pub open spec fn short_commit(c: Seq<char>) -> Seq<char> {
    if c.len() <= 8 {
        c
    } else {
        c.take(8)
    }
}

/// One step added to the todo list, or why it cannot be.
pub open spec fn plan_step(st: PlanState, s: StepModel, range: Seq<Seq<char>>) -> Result<
    PlanState,
    PlanFail,
> {
    if !oid_ok(s.commit_id) {
        Err(PlanFail::BadId)
    } else {
        let o = oid_text(s.commit_id);
        if !range.contains(o) {
            Err(
                PlanFail::Refused(
                    "Commit "@ + short_commit(s.commit_id) + " is not in the rebase range"@,
                ),
            )
        } else if st.seen.contains(o) {
            Err(PlanFail::Refused("A commit appears twice in the plan"@))
        } else if s.author is Some && s.action != "pick"@ && s.action != "reword"@ {
            Err(PlanFail::Refused("Author is only allowed with pick/reword"@))
        } else if wants_amend(s) {
            match author_arg_model(s.author) {
                Err(m) => Err(PlanFail::Refused(m)),
                Ok(aa) => Ok(
                    PlanState {
                        seen: st.seen.push(o),
                        todo: st.todo + step_text(s, o, st.msgs.len(), aa),
                        msgs: if has_message(s) {
                            st.msgs.push((msg_name(st.msgs.len() + 1), s.message->0))
                        } else {
                            st.msgs
                        },
                    },
                ),
            }
        } else {
            Ok(
                PlanState {
                    seen: st.seen.push(o),
                    todo: st.todo + step_text(s, o, st.msgs.len(), Seq::empty()),
                    msgs: st.msgs,
                },
            )
        }
    }
}

/// The steps added one after the other, stopping at the first that fails.
pub open spec fn plan_fold(steps: Seq<StepModel>, range: Seq<Seq<char>>) -> Result<
    PlanState,
    PlanFail,
>
    decreases steps.len(),
{
    if steps.len() == 0 {
        Ok(PlanState { seen: Seq::empty(), todo: Seq::empty(), msgs: Seq::empty() })
    } else {
        match plan_fold(steps.drop_last(), range) {
            Err(e) => Err(e),
            Ok(st) => plan_step(st, steps.last(), range),
        }
    }
}

/// The todo list of a plan over the commits of `range` (full ids): every
/// step names a commit of the range, none twice, and every commit of the
/// range is planned (no commit may get lost).
pub open spec fn plan_model(steps: Seq<StepModel>, range: Seq<Seq<char>>) -> Result<
    PlanState,
    PlanFail,
> {
    match plan_fold(steps, range) {
        Err(e) => Err(e),
        Ok(st) => if forall|j: int| 0 <= j < range.len() ==> st.seen.contains(#[trigger] range[j]) {
            Ok(st)
        } else {
            Err(
                PlanFail::Refused(
                    "The plan does not cover exactly all commits of the range (data-loss protection)."@,
                ),
            )
        },
    }
}

/// A todo list for git and the messages of its rewords, `(file name, text)`:
/// each message goes to a file of that name next to git's todo list.
#[derive(Debug)]
pub struct TodoPlan {
    pub todo: String,
    pub messages: Vec<(String, String)>,
}

/// Whether `s` is among the strings of `v`.
fn in_list(v: &[String], s: &str) -> (r: bool)
    ensures
        r == string_views(v@).contains(s@),
{
    let t = chars_of(s);
    let mut i: usize = 0;
    while i < v.len()
        invariant
            i <= v@.len(),
            t@ == s@,
            forall|j: int| 0 <= j < i ==> v@[j]@ != s@,
        decreases v@.len() - i,
    {
        let c = chars_of(v[i].as_str());
        if chars_eq(c.as_slice(), t.as_slice()) {
            assert(string_views(v@)[i as int] == s@);
            return true;
        }
        i = i + 1;
    }
    proof {
        if string_views(v@).contains(s@) {
            let j = choose|j: int| 0 <= j < string_views(v@).len() && string_views(v@)[j] == s@;
            assert(v@[j]@ == s@);
        }
    }
    false
}

/// The lines of one step (see [`step_text`]) and its message, if any, or
/// the refusal of its author.
fn step_lines(s: &RebaseStep, o: &str, k: usize) -> (r: Result<(String, Option<(String, String)>), String>)
    requires
        k < u64::MAX,
    ensures
        wants_amend(step_view(*s)) ==> match author_arg_model(step_view(*s).author) {
            Err(m) => r matches Err(x) && x@ == m,
            Ok(aa) => r matches Ok((t, msg)) && t@ == step_text(step_view(*s), o@, k as nat, aa)
                && (if has_message(step_view(*s)) {
                msg matches Some((n, text)) && n@ == msg_name(k as nat + 1) && Some(text@)
                    == step_view(*s).message
            } else {
                msg is None
            }),
        },
        !wants_amend(step_view(*s)) ==> (r matches Ok((t, msg)) && msg is None && t@ == step_text(
            step_view(*s),
            o@,
            k as nat,
            Seq::empty(),
        )),
{
    let ghost sv = step_view(*s);
    let a = chars_of(s.action.as_str());
    let is_reword = chars_eq_str(a.as_slice(), "reword");
    let is_pick = chars_eq_str(a.as_slice(), "pick");
    let amend = is_reword || (s.author.is_some() && is_pick);
    if !amend {
        let mut t = String::new();
        push_str(&mut t, s.action.as_str());
        push_str(&mut t, " ");
        push_str(&mut t, o);
        push_str(&mut t, "\n");
        proof {
            reveal_strlit(" ");
            reveal_strlit("\n");
        }
        assert(t@ =~= step_text(sv, o@, k as nat, Seq::empty()));
        return Ok((t, None));
    }
    let aa = match author_argument(
        match &s.author {
            Some(x) => Some(x.as_str()),
            None => None,
        },
    ) {
        Ok(x) => x,
        Err(GitEngineError::InvalidOperation(m)) => {
            return Err(m);
        },
        Err(_) => {
            return Err(String::new());
        },
    };
    let (part, msg) = match &s.message {
        Some(m) => {
            let tm = trimmed(chars_of(m.as_str()).as_slice());
            if tm.len() > 0 {
                let num = u64_to_string(k as u64 + 1);
                let mut name = String::from_str("terra-msg-");
                push_str(&mut name, num.as_str());
                push_str(&mut name, ".txt");
                let mut p = String::from_str("-F \"$(git rev-parse --git-path rebase-merge/");
                push_str(&mut p, name.as_str());
                push_str(&mut p, ")\"");
                let text = m.clone();
                proof {
                    reveal_strlit("terra-msg-");
                    reveal_strlit(".txt");
                    reveal_strlit("-F \"$(git rev-parse --git-path rebase-merge/");
                    reveal_strlit(")\"");
                }
                assert(name@ =~= msg_name(k as nat + 1));
                (p, Some((name, text)))
            } else {
                (String::from_str("--no-edit"), None)
            }
        },
        None => (String::from_str("--no-edit"), None),
    };
    let mut t = String::from_str("pick ");
    push_str(&mut t, o);
    push_str(&mut t, "\n");
    push_str(&mut t, "exec git commit --amend ");
    push_str(&mut t, part.as_str());
    push_str(&mut t, aa.as_str());
    push_str(&mut t, "\n");
    proof {
        reveal_strlit("pick ");
        reveal_strlit("\n");
        reveal_strlit("exec git commit --amend ");
        reveal_strlit("--no-edit");
    }
    assert(t@ =~= step_text(sv, o@, k as nat, aa@));
    Ok((t, msg))
}

proof fn lemma_fold_fail_stays(sv: Seq<StepModel>, range: Seq<Seq<char>>, k: int)
    requires
        0 <= k <= sv.len(),
        plan_fold(sv.take(k), range) is Err,
    ensures
        plan_fold(sv, range) == plan_fold(sv.take(k), range),
    decreases sv.len() - k,
{
    if k < sv.len() {
        assert(sv.take(k + 1).drop_last() =~= sv.take(k));
        lemma_fold_fail_stays(sv, range, k + 1);
    } else {
        assert(sv.take(k) =~= sv);
    }
}

/// The todo list of a checked plan over the commits of the rebase range
/// (full ids, as the revision walk from HEAD down to the base gives them):
/// see [`plan_model`]. A commit id that does not parse is git's error.
pub fn rebase_todo(steps: &[RebaseStep], range: &[String]) -> (r: Result<TodoPlan, GitEngineError>)
    ensures
        match plan_model(steps_view(steps@), string_views(range@)) {
            Ok(st) => r matches Ok(p) && p.todo@ == st.todo && pair_views(p.messages@) == st.msgs,
            Err(PlanFail::BadId) => r matches Err(GitEngineError::Git(_)),
            Err(PlanFail::Refused(m)) => r matches Err(GitEngineError::InvalidOperation(x)) && x@
                == m,
        },
{
    let ghost sv = steps_view(steps@);
    let ghost rv = string_views(range@);
    let mut seen: Vec<String> = Vec::new();
    let mut todo = String::new();
    let mut msgs: Vec<(String, String)> = Vec::new();
    let mut i: usize = 0;
    assert(sv.take(0) =~= Seq::<StepModel>::empty());
    assert(string_views(seen@) =~= Seq::<Seq<char>>::empty());
    assert(pair_views(msgs@) =~= Seq::<(Seq<char>, Seq<char>)>::empty());
    proof {
        reveal_strlit("");
    }
    while i < steps.len()
        invariant
            i <= steps@.len(),
            sv == steps_view(steps@),
            rv == string_views(range@),
            msgs@.len() <= i,
            plan_fold(sv.take(i as int), rv) == Ok::<PlanState, PlanFail>(
                PlanState { seen: string_views(seen@), todo: todo@, msgs: pair_views(msgs@) },
            ),
        decreases steps@.len() - i,
    {
        let ghost st = PlanState { seen: string_views(seen@), todo: todo@, msgs: pair_views(msgs@) };
        assert(sv.take(i + 1).drop_last() =~= sv.take(i as int));
        assert(sv.take(i + 1).last() == step_view(steps@[i as int]));
        let s = &steps[i];
        let ghost m = step_view(*s);
        let o = match parse_oid(s.commit_id.as_str()) {
            Ok(h) => h,
            Err(e) => {
                proof {
                    lemma_fold_fail_stays(sv, rv, i + 1);
                }
                return Err(GitEngineError::Git(e));
            },
        };
        if !in_list(range, o.as_str()) {
            let cs = chars_of(s.commit_id.as_str());
            let n: usize = if cs.len() < 8 {
                cs.len()
            } else {
                8
            };
            let mut e = String::from_str("Commit ");
            let short = string_from_range(cs.as_slice(), 0, n);
            push_str(&mut e, short.as_str());
            push_str(&mut e, " is not in the rebase range");
            proof {
                reveal_strlit("Commit ");
                reveal_strlit(" is not in the rebase range");
                assert(short@ =~= short_commit(m.commit_id));
                lemma_fold_fail_stays(sv, rv, i + 1);
            }
            return Err(GitEngineError::InvalidOperation(e));
        }
        if in_list(seen.as_slice(), o.as_str()) {
            proof {
                lemma_fold_fail_stays(sv, rv, i + 1);
            }
            return Err(
                GitEngineError::InvalidOperation(
                    String::from_str("A commit appears twice in the plan"),
                ),
            );
        }
        let a = chars_of(s.action.as_str());
        if s.author.is_some() && !chars_eq_str(a.as_slice(), "pick") && !chars_eq_str(
            a.as_slice(),
            "reword",
        ) {
            proof {
                lemma_fold_fail_stays(sv, rv, i + 1);
            }
            return Err(
                GitEngineError::InvalidOperation(
                    String::from_str("Author is only allowed with pick/reword"),
                ),
            );
        }
        let k = msgs.len();
        match step_lines(s, o.as_str(), k) {
            Err(e) => {
                proof {
                    lemma_fold_fail_stays(sv, rv, i + 1);
                }
                return Err(GitEngineError::InvalidOperation(e));
            },
            Ok((t, msg)) => {
                push_str(&mut todo, t.as_str());
                match msg {
                    Some(mm) => {
                        msgs.push(mm);
                    },
                    None => {},
                }
                seen.push(o);
            },
        }
        assert(string_views(seen@) =~= st.seen.push(oid_text(m.commit_id)));
        assert(pair_views(msgs@) =~= (if wants_amend(m) && has_message(m) {
            st.msgs.push((msg_name(st.msgs.len() + 1), m.message->0))
        } else {
            st.msgs
        }));
        i = i + 1;
    }
    assert(sv.take(steps@.len() as int) =~= sv);
    let mut j: usize = 0;
    while j < range.len()
        invariant
            j <= range@.len(),
            rv == string_views(range@),
            sv == steps_view(steps@),
            plan_fold(sv, rv) == Ok::<PlanState, PlanFail>(
                PlanState { seen: string_views(seen@), todo: todo@, msgs: pair_views(msgs@) },
            ),
            forall|q: int| 0 <= q < j ==> string_views(seen@).contains(#[trigger] rv[q]),
        decreases range@.len() - j,
    {
        if !in_list(seen.as_slice(), range[j].as_str()) {
            assert(rv[j as int] == range@[j as int]@);
            return Err(
                GitEngineError::InvalidOperation(
                    String::from_str(
                        "The plan does not cover exactly all commits of the range (data-loss protection).",
                    ),
                ),
            );
        }
        j = j + 1;
    }
    Ok(TodoPlan { todo, messages: msgs })
}

proof fn lemma_fold_seen(steps: Seq<StepModel>, range: Seq<Seq<char>>)
    requires
        plan_fold(steps, range) is Ok,
    ensures
        plan_fold(steps, range)->Ok_0.seen.len() == steps.len(),
        plan_fold(steps, range)->Ok_0.seen.no_duplicates(),
        forall|j: int|
            0 <= j < steps.len() ==> plan_fold(steps, range)->Ok_0.seen[j] == oid_text(
                #[trigger] steps[j].commit_id,
            ),
        forall|j: int|
            0 <= j < steps.len() ==> range.contains(#[trigger] plan_fold(steps, range)->Ok_0.seen[j]),
    decreases steps.len(),
{
    if steps.len() > 0 {
        let prev = steps.drop_last();
        lemma_fold_seen(prev, range);
        let seen = plan_fold(steps, range)->Ok_0.seen;
        assert forall|j: int| 0 <= j < steps.len() implies seen[j] == oid_text(
            #[trigger] steps[j].commit_id,
        ) by {
            if j < prev.len() {
                assert(prev[j] == steps[j]);
            }
        }
    }
}

proof fn lemma_fold_msgs_numbered(steps: Seq<StepModel>, range: Seq<Seq<char>>)
    requires
        plan_fold(steps, range) is Ok,
    ensures
        forall|j: int|
            0 <= j < plan_fold(steps, range)->Ok_0.msgs.len() ==> (#[trigger] plan_fold(
                steps,
                range,
            )->Ok_0.msgs[j]).0 == "terra-msg-"@ + decimal((j + 1) as nat) + ".txt"@,
    decreases steps.len(),
{
    if steps.len() > 0 {
        let prev = steps.drop_last();
        lemma_fold_msgs_numbered(prev, range);
        let p = plan_fold(prev, range)->Ok_0;
        let m = plan_fold(steps, range)->Ok_0.msgs;
        assert forall|j: int| 0 <= j < m.len() implies (#[trigger] m[j]).0 == "terra-msg-"@ + decimal(
            (j + 1) as nat,
        ) + ".txt"@ by {
            if j < p.msgs.len() {
                assert(m[j] == p.msgs[j]);
            }
        }
    }
}

/// The reword messages of a plan go to files numbered in order: the `k`-th
/// message (counted from 1) is written to `terra-msg-k.txt`, so no two
/// messages of one plan share a file and none overwrites another.
pub proof fn lemma_message_files_numbered(steps: Seq<StepModel>, range: Seq<Seq<char>>)
    requires
        plan_model(steps, range) is Ok,
    ensures
        forall|j: int|
            0 <= j < plan_model(steps, range)->Ok_0.msgs.len() ==> (#[trigger] plan_model(
                steps,
                range,
            )->Ok_0.msgs[j]).0 == "terra-msg-"@ + decimal((j + 1) as nat) + ".txt"@,
        forall|i: int, j: int|
            0 <= i < j < plan_model(steps, range)->Ok_0.msgs.len() ==> (#[trigger] plan_model(
                steps,
                range,
            )->Ok_0.msgs[i]).0 != (#[trigger] plan_model(steps, range)->Ok_0.msgs[j]).0,
{
    lemma_fold_msgs_numbered(steps, range);
    let m = plan_model(steps, range)->Ok_0.msgs;
    assert forall|i: int, j: int| 0 <= i < j < m.len() implies (#[trigger] m[i]).0 != (
    #[trigger] m[j]).0 by {
        let pre = "terra-msg-"@;
        let suf = ".txt"@;
        let a = pre + decimal((i + 1) as nat) + suf;
        let b = pre + decimal((j + 1) as nat) + suf;
        if a == b {
            crate::text::lemma_decimal_digits((i + 1) as nat);
            crate::text::lemma_decimal_digits((j + 1) as nat);
            assert(a.len() == b.len());
            assert(decimal((i + 1) as nat).len() == decimal((j + 1) as nat).len());
            assert(a.subrange(pre.len() as int, a.len() - suf.len()) =~= decimal((i + 1) as nat));
            assert(b.subrange(pre.len() as int, b.len() - suf.len()) =~= decimal((j + 1) as nat));
            assert(decimal((i + 1) as nat) == decimal((j + 1) as nat));
        }
    }
}

/// No commit gets lost or doubled: a plan that is turned into a todo list
/// names each commit of the rebase range exactly once, and nothing else.
pub proof fn lemma_plan_covers_range(steps: Seq<StepModel>, range: Seq<Seq<char>>)
    requires
        plan_model(steps, range) is Ok,
    ensures
        plan_model(steps, range)->Ok_0.seen.no_duplicates(),
        plan_model(steps, range)->Ok_0.seen.len() == steps.len(),
        plan_model(steps, range)->Ok_0.seen.to_set() == range.to_set(),
        forall|j: int|
            0 <= j < steps.len() ==> plan_model(steps, range)->Ok_0.seen[j] == oid_text(
                #[trigger] steps[j].commit_id,
            ),
{
    lemma_fold_seen(steps, range);
    let seen = plan_model(steps, range)->Ok_0.seen;
    assert forall|x: Seq<char>| seen.to_set().contains(x) <==> range.to_set().contains(x) by {
        if seen.contains(x) {
            let j = choose|j: int| 0 <= j < seen.len() && seen[j] == x;
            assert(range.contains(seen[j]));
        }
        if range.contains(x) {
            let j = choose|j: int| 0 <= j < range.len() && range[j] == x;
            assert(seen.contains(range[j]));
        }
    }
    assert(seen.to_set() =~= range.to_set());
}

} // verus!
