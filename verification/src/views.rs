//! Views of a repository assembled from what was read: the worktree list,
//! the sparse-checkout state, the backup list, the state files of an
//! operation in progress, and a few small answers (an ignore pattern
//! appended, the signing check, the initial branch of a new repository).

use vstd::prelude::*;

use crate::domain::{BackupInfo, WorktreeInfo};
use crate::error::GitEngineError;
use crate::ops::{backup_name_model, parse_backup_ref_name, BACKUP_REF_PREFIX};
use crate::status_fast::opt_string_view;
use crate::text::{
    chars_eq_str, chars_le, chars_of, first_where, has_prefix, is_char, lemma_first_where, lex_le,
    lines, lines_of, parse_unsigned, push_str, string_from, string_from_range, string_views,
    strip_prefix_str, trim, trimmed, unsigned_value, views,
};

verus! {

// ---------------------------------------------------------------------------
// Worktrees
// ---------------------------------------------------------------------------

/// A worktree as plain values.
pub struct WorktreeModel {
    pub path: Seq<char>,
    pub branch: Option<Seq<char>>,
    pub head_id: Option<Seq<char>>,
    pub is_main: bool,
}

pub open spec fn worktree_view(w: WorktreeInfo) -> WorktreeModel {
    WorktreeModel {
        path: w.path@,
        branch: opt_string_view(w.branch),
        head_id: opt_string_view(w.head_id),
        is_main: w.is_main,
    }
}

pub open spec fn worktrees_view(v: Seq<WorktreeInfo>) -> Seq<WorktreeModel> {
    Seq::new(v.len(), |i: int| worktree_view(v[i]))
}

/// `s` without every leading repetition of `p` (`str::trim_start_matches`).
pub open spec fn strip_repeated(s: Seq<char>, p: Seq<char>) -> Seq<char>
    decreases s.len(),
{
    if p.len() > 0 && has_prefix(s, p) {
        strip_repeated(s.skip(p.len() as int), p)
    } else {
        s
    }
}

/// The worktrees read so far, and the one being read.
pub struct WorktreeScan {
    pub done: Seq<WorktreeModel>,
    pub current: Option<WorktreeModel>,
}

/// One line of `git worktree list --porcelain`: `worktree <path>` starts a
/// worktree (the first one is the main worktree), `HEAD <id>` and
/// `branch <ref>` describe the current one (the branch without
/// `refs/heads/`); other lines are ignored.
pub open spec fn worktree_line(st: WorktreeScan, line: Seq<char>) -> WorktreeScan {
    if has_prefix(line, "worktree "@) {
        let done = match st.current {
            Some(w) => st.done.push(w),
            None => st.done,
        };
        WorktreeScan {
            done,
            current: Some(
                WorktreeModel {
                    path: line.skip(9),
                    branch: None,
                    head_id: None,
                    is_main: done.len() == 0,
                },
            ),
        }
    } else {
        match st.current {
            None => st,
            Some(w) => if has_prefix(line, "HEAD "@) {
                WorktreeScan { current: Some(WorktreeModel { head_id: Some(line.skip(5)), ..w }), ..st }
            } else if has_prefix(line, "branch "@) {
                WorktreeScan {
                    current: Some(
                        WorktreeModel {
                            branch: Some(strip_repeated(line.skip(7), "refs/heads/"@)),
                            ..w
                        },
                    ),
                    ..st
                }
            } else {
                st
            },
        }
    }
}

pub open spec fn worktree_scan(ls: Seq<Seq<char>>) -> WorktreeScan
    decreases ls.len(),
{
    if ls.len() == 0 {
        WorktreeScan { done: Seq::empty(), current: None }
    } else {
        worktree_line(worktree_scan(ls.drop_last()), ls.last())
    }
}

/// The worktrees that `git worktree list --porcelain` lists.
pub open spec fn worktrees_model(out: Seq<char>) -> Seq<WorktreeModel> {
    let st = worktree_scan(lines_of(out));
    match st.current {
        Some(w) => st.done.push(w),
        None => st.done,
    }
}

fn strip_repeated_chars(s: &[char], p: &str) -> (r: Vec<char>)
    ensures
        r@ == strip_repeated(s@, p@),
{
    let pv = chars_of(p);
    let mut cur: Vec<char> = crate::text::vec_from_range(s, 0, s.len());
    assert(cur@ =~= s@);
    if pv.len() == 0 {
        return cur;
    }
    loop
        invariant
            pv@ == p@,
            pv@.len() > 0,
            strip_repeated(s@, p@) == strip_repeated(cur@, p@),
        decreases cur@.len(),
    {
        match strip_prefix_str(cur.as_slice(), p) {
            Some(t) => {
                cur = t;
            },
            None => {
                return cur;
            },
        }
    }
}

/// The worktrees of `git worktree list --porcelain` (see
/// [`worktrees_model`]).
pub fn parse_worktrees(out: &str) -> (r: Vec<WorktreeInfo>)
    ensures
        worktrees_view(r@) == worktrees_model(out@),
{
    let ls = lines(chars_of(out).as_slice());
    let ghost lv = views(ls@);
    let mut done: Vec<WorktreeInfo> = Vec::new();
    let mut cur: Option<WorktreeInfo> = None;
    let mut i: usize = 0;
    assert(lv.take(0) =~= Seq::<Seq<char>>::empty());
    assert(worktrees_view(done@) =~= Seq::<WorktreeModel>::empty());
    while i < ls.len()
        invariant
            i <= ls@.len(),
            lv == views(ls@),
            lv == lines_of(out@),
            worktree_scan(lv.take(i as int)) == (WorktreeScan {
                done: worktrees_view(done@),
                current: match cur {
                    Some(w) => Some(worktree_view(w)),
                    None => None,
                },
            }),
        decreases ls@.len() - i,
    {
        assert(lv.take(i + 1).drop_last() =~= lv.take(i as int));
        assert(lv.take(i + 1).last() == ls@[i as int]@);
        let line = ls[i].as_slice();
        match strip_prefix_str(line, "worktree ") {
            Some(p) => {
                proof {
                    reveal_strlit("worktree ");
                }
                match cur {
                    Some(w) => {
                        let ghost before = worktrees_view(done@);
                        done.push(w);
                        assert(worktrees_view(done@) =~= before.push(worktree_view(w)));
                    },
                    None => {},
                }
                let is_main = done.len() == 0;
                cur = Some(WorktreeInfo { path: string_from(p.as_slice()), branch: None, head_id: None, is_main });
            },
            None => {
                match cur {
                    Some(w) => {
                        let mut w = w;
                        match strip_prefix_str(line, "HEAD ") {
                            Some(h) => {
                                proof {
                                    reveal_strlit("HEAD ");
                                }
                                w.head_id = Some(string_from(h.as_slice()));
                            },
                            None => {
                                match strip_prefix_str(line, "branch ") {
                                    Some(b) => {
                                        proof {
                                            reveal_strlit("branch ");
                                        }
                                        let name = strip_repeated_chars(b.as_slice(), "refs/heads/");
                                        w.branch = Some(string_from(name.as_slice()));
                                    },
                                    None => {},
                                }
                            },
                        }
                        cur = Some(w);
                    },
                    None => {},
                }
            },
        }
        i = i + 1;
    }
    assert(lv.take(ls@.len() as int) =~= lv);
    match cur {
        Some(w) => {
            let ghost before = worktrees_view(done@);
            done.push(w);
            assert(worktrees_view(done@) =~= before.push(worktree_view(w)));
        },
        None => {},
    }
    done
}

// ---------------------------------------------------------------------------
// Sparse checkout
// ---------------------------------------------------------------------------

/// The trimmed, non-blank lines of `ls`.
pub open spec fn nonblank_trimmed(ls: Seq<Seq<char>>) -> Seq<Seq<char>>
    decreases ls.len(),
{
    if ls.len() == 0 {
        Seq::empty()
    } else if trim(ls.last()).len() == 0 {
        nonblank_trimmed(ls.drop_last())
    } else {
        nonblank_trimmed(ls.drop_last()).push(trim(ls.last()))
    }
}

/// The sparse-checkout patterns in the output of `git sparse-checkout
/// list`: its trimmed, non-blank lines.
pub fn sparse_patterns(out: &str) -> (r: Vec<String>)
    ensures
        string_views(r@) == nonblank_trimmed(lines_of(out@)),
{
    let ls = lines(chars_of(out).as_slice());
    let ghost lv = views(ls@);
    let mut v: Vec<String> = Vec::new();
    let mut i: usize = 0;
    assert(lv.take(0) =~= Seq::<Seq<char>>::empty());
    assert(string_views(v@) =~= Seq::<Seq<char>>::empty());
    while i < ls.len()
        invariant
            i <= ls@.len(),
            lv == views(ls@),
            lv == lines_of(out@),
            string_views(v@) == nonblank_trimmed(lv.take(i as int)),
        decreases ls@.len() - i,
    {
        assert(lv.take(i + 1).drop_last() =~= lv.take(i as int));
        assert(lv.take(i + 1).last() == ls@[i as int]@);
        let t = trimmed(ls[i].as_slice());
        if t.len() > 0 {
            let ghost before = string_views(v@);
            v.push(string_from(t.as_slice()));
            assert(string_views(v@) =~= before.push(t@));
        }
        i = i + 1;
    }
    assert(lv.take(ls@.len() as int) =~= lv);
    v
}

/// `s` with `x` inserted after every element not greater.
pub open spec fn insert_name(s: Seq<Seq<char>>, x: Seq<char>) -> Seq<Seq<char>>
    decreases s.len(),
{
    if s.len() == 0 {
        seq![x]
    } else if lex_le(s.last(), x) {
        s.push(x)
    } else {
        insert_name(s.drop_last(), x).push(s.last())
    }
}

/// `s` sorted.
pub open spec fn sort_names_model(s: Seq<Seq<char>>) -> Seq<Seq<char>>
    decreases s.len(),
{
    if s.len() == 0 {
        Seq::empty()
    } else {
        insert_name(sort_names_model(s.drop_last()), s.last())
    }
}

proof fn lemma_insert_name_at(s: Seq<Seq<char>>, x: Seq<char>, j: int)
    requires
        0 <= j <= s.len(),
        forall|k: int| j <= k < s.len() ==> !lex_le(#[trigger] s[k], x),
        j == 0 || lex_le(s[j - 1], x),
    ensures
        insert_name(s, x) == s.take(j).push(x) + s.skip(j),
    decreases s.len(),
{
    if s.len() == 0 {
        assert(s.take(j).push(x) + s.skip(j) =~= seq![x]);
    } else if j == s.len() {
        assert(s.take(j).push(x) + s.skip(j) =~= s.push(x));
    } else {
        let t = s.drop_last();
        assert(!lex_le(s[s.len() - 1], x));
        assert forall|k: int| j <= k < t.len() implies !lex_le(#[trigger] t[k], x) by {
            assert(t[k] == s[k]);
        }
        if j > 0 {
            assert(t[j - 1] == s[j - 1]);
        }
        lemma_insert_name_at(t, x, j);
        assert((t.take(j).push(x) + t.skip(j)).push(s.last()) =~= s.take(j).push(x) + s.skip(j));
    }
}

/// The names sorted (the top-level directories offered for a sparse
/// checkout).
pub fn sort_names(names: Vec<String>) -> (r: Vec<String>)
    ensures
        string_views(r@) == sort_names_model(string_views(names@)),
{
    let ghost nv = string_views(names@);
    let mut out: Vec<String> = Vec::new();
    let mut i: usize = 0;
    assert(nv.take(0) =~= Seq::<Seq<char>>::empty());
    assert(string_views(out@) =~= Seq::<Seq<char>>::empty());
    while i < names.len()
        invariant
            i <= names@.len(),
            nv == string_views(names@),
            string_views(out@) == sort_names_model(nv.take(i as int)),
        decreases names@.len() - i,
    {
        assert(nv.take(i + 1).drop_last() =~= nv.take(i as int));
        assert(nv.take(i + 1).last() == names@[i as int]@);
        let x = names[i].clone();
        let ghost s = string_views(out@);
        let key = chars_of(x.as_str());
        let mut j = out.len();
        loop
            invariant
                j <= out@.len(),
                s == string_views(out@),
                key@ == x@,
                forall|k: int| j <= k < s.len() ==> !lex_le(#[trigger] s[k], x@),
            ensures
                j == 0 || lex_le(s[j - 1], x@),
            decreases j,
        {
            if j == 0 {
                break;
            }
            let p = chars_of(out[j - 1].as_str());
            if chars_le(p.as_slice(), key.as_slice()) {
                break;
            }
            j = j - 1;
        }
        proof {
            lemma_insert_name_at(s, x@, j as int);
        }
        out.insert(j, x);
        assert(string_views(out@) =~= s.take(j as int).push(x@) + s.skip(j as int));
        i = i + 1;
    }
    assert(nv.take(names@.len() as int) =~= nv);
    out
}

// ---------------------------------------------------------------------------
// Backups
// ---------------------------------------------------------------------------

/// A backup as plain values.
pub struct BackupModel {
    pub name: Seq<char>,
    pub op: Seq<char>,
    pub timestamp: int,
    pub target_id: Seq<char>,
    pub subject: Seq<char>,
}

pub open spec fn backup_view(b: BackupInfo) -> BackupModel {
    BackupModel {
        name: b.name@,
        op: b.op@,
        timestamp: b.timestamp as int,
        target_id: b.target_id@,
        subject: b.subject@,
    }
}

pub open spec fn backups_view(v: Seq<BackupInfo>) -> Seq<BackupModel> {
    Seq::new(v.len(), |i: int| backup_view(v[i]))
}

/// The backup behind the reference `name`: operation and time from the
/// name without the backup namespace (see [`backup_name_model`]).
pub open spec fn backup_model(name: Seq<char>, target_id: Seq<char>, subject: Seq<char>) -> BackupModel {
    let (op, ts) = backup_name_model(strip_repeated(name, BACKUP_REF_PREFIX@));
    BackupModel { name, op, timestamp: ts, target_id, subject }
}

/// The list order: newest first, then by name, descending.
pub open spec fn backup_before(a: BackupModel, b: BackupModel) -> bool {
    a.timestamp > b.timestamp || (a.timestamp == b.timestamp && lex_le(b.name, a.name))
}

pub open spec fn insert_backup(s: Seq<BackupModel>, x: BackupModel) -> Seq<BackupModel>
    decreases s.len(),
{
    if s.len() == 0 {
        seq![x]
    } else if backup_before(s.last(), x) {
        s.push(x)
    } else {
        insert_backup(s.drop_last(), x).push(s.last())
    }
}

pub open spec fn backup_list_model(s: Seq<BackupModel>) -> Seq<BackupModel>
    decreases s.len(),
{
    if s.len() == 0 {
        Seq::empty()
    } else {
        insert_backup(backup_list_model(s.drop_last()), s.last())
    }
}

/// The backups read (reference name, commit, subject), as the list shows
/// them (see [`backup_model`], [`backup_before`]).
pub open spec fn backups_model(raws: Seq<(String, String, String)>) -> Seq<BackupModel> {
    backup_list_model(Seq::new(raws.len(), |i: int| backup_model(raws[i].0@, raws[i].1@, raws[i].2@)))
}

proof fn lemma_insert_backup_at(s: Seq<BackupModel>, x: BackupModel, j: int)
    requires
        0 <= j <= s.len(),
        forall|k: int| j <= k < s.len() ==> !backup_before(#[trigger] s[k], x),
        j == 0 || backup_before(s[j - 1], x),
    ensures
        insert_backup(s, x) == s.take(j).push(x) + s.skip(j),
    decreases s.len(),
{
    if s.len() == 0 {
        assert(s.take(j).push(x) + s.skip(j) =~= seq![x]);
    } else if j == s.len() {
        assert(s.take(j).push(x) + s.skip(j) =~= s.push(x));
    } else {
        let t = s.drop_last();
        assert(!backup_before(s[s.len() - 1], x));
        assert forall|k: int| j <= k < t.len() implies !backup_before(#[trigger] t[k], x) by {
            assert(t[k] == s[k]);
        }
        if j > 0 {
            assert(t[j - 1] == s[j - 1]);
        }
        lemma_insert_backup_at(t, x, j);
        assert((t.take(j).push(x) + t.skip(j)).push(s.last()) =~= s.take(j).push(x) + s.skip(j));
    }
}

fn before_backup(a: &BackupInfo, b: &BackupInfo) -> (r: bool)
    ensures
        r == backup_before(backup_view(*a), backup_view(*b)),
{
    if a.timestamp > b.timestamp {
        return true;
    }
    if a.timestamp < b.timestamp {
        return false;
    }
    let x = chars_of(b.name.as_str());
    let y = chars_of(a.name.as_str());
    chars_le(x.as_slice(), y.as_slice())
}

/// The backup list from the backup references read (see [`backups_model`]).
pub fn backup_list(raws: &[(String, String, String)]) -> (r: Vec<BackupInfo>)
    ensures
        backups_view(r@) == backups_model(raws@),
{
    let ghost ms = Seq::new(raws@.len(), |i: int| backup_model(raws@[i].0@, raws@[i].1@, raws@[i].2@));
    let mut out: Vec<BackupInfo> = Vec::new();
    let mut i: usize = 0;
    assert(ms.take(0) =~= Seq::<BackupModel>::empty());
    assert(backups_view(out@) =~= Seq::<BackupModel>::empty());
    while i < raws.len()
        invariant
            i <= raws@.len(),
            ms == Seq::new(raws@.len(), |k: int| backup_model(raws@[k].0@, raws@[k].1@, raws@[k].2@)),
            backups_view(out@) == backup_list_model(ms.take(i as int)),
        decreases raws@.len() - i,
    {
        assert(ms.take(i + 1).drop_last() =~= ms.take(i as int));
        let (name, target, subject) = (&raws[i].0, &raws[i].1, &raws[i].2);
        let short = strip_repeated_chars(chars_of(name.as_str()).as_slice(), BACKUP_REF_PREFIX);
        let (op, timestamp) = parse_backup_ref_name(string_from(short.as_slice()).as_str());
        let b = BackupInfo {
            name: name.clone(),
            op,
            timestamp,
            target_id: target.clone(),
            subject: subject.clone(),
        };
        assert(backup_view(b) == ms[i as int]);
        assert(ms.take(i + 1).last() == backup_view(b));
        let ghost s = backups_view(out@);
        let ghost x = backup_view(b);
        let mut j = out.len();
        loop
            invariant
                j <= out@.len(),
                s == backups_view(out@),
                x == backup_view(b),
                forall|k: int| j <= k < s.len() ==> !backup_before(#[trigger] s[k], x),
            ensures
                j == 0 || backup_before(s[j - 1], x),
            decreases j,
        {
            if j == 0 {
                break;
            }
            if before_backup(&out[j - 1], &b) {
                break;
            }
            j = j - 1;
        }
        proof {
            lemma_insert_backup_at(s, x, j as int);
        }
        out.insert(j, b);
        assert(backups_view(out@) =~= s.take(j as int).push(x) + s.skip(j as int));
        i = i + 1;
    }
    assert(ms.take(raws@.len() as int) =~= ms);
    out
}

/// The checks before a backup is restored (a hard reset): no operation in
/// progress, and nothing uncommitted that no backup holds.
pub fn restore_check(clean: bool, tree_clean: bool) -> (r: Result<(), GitEngineError>)
    ensures
        !clean ==> (r matches Err(GitEngineError::InvalidOperation(m)) && m@
            == "Finish or abort the running operation (merge/rebase) first"@),
        clean && !tree_clean ==> (r matches Err(GitEngineError::InvalidOperation(m)) && m@
            == "Uncommitted changes in the working directory — stash or discard them first"@),
        clean && tree_clean ==> r is Ok,
{
    if !clean {
        return Err(
            GitEngineError::InvalidOperation(
                String::from_str("Finish or abort the running operation (merge/rebase) first"),
            ),
        );
    }
    if !tree_clean {
        return Err(
            GitEngineError::InvalidOperation(
                String::from_str(
                    "Uncommitted changes in the working directory — stash or discard them first",
                ),
            ),
        );
    }
    Ok(())
}

// ---------------------------------------------------------------------------
// The state files of an operation in progress
// ---------------------------------------------------------------------------

/// The first line of a state file, trimmed, if it says something.
pub open spec fn first_line_model(content: Seq<char>) -> Option<Seq<char>> {
    let t = trim(content.take(first_where(content, is_char('\n')) as int));
    if t.len() == 0 {
        None
    } else {
        Some(t)
    }
}

/// The first line of a state file in the git directory (`MERGE_HEAD`,
/// `rebase-merge/onto`, …), see [`first_line_model`].
pub fn first_line(content: &str) -> (r: Option<String>)
    ensures
        opt_string_view(r) == first_line_model(content@),
{
    let cs = chars_of(content);
    let s = cs.as_slice();
    let mut j: usize = 0;
    while j < s.len() && s[j] != '\n'
        invariant
            j <= s@.len(),
            forall|q: int| 0 <= q < j ==> s@[q] != '\n',
        decreases s@.len() - j,
    {
        j = j + 1;
    }
    proof {
        lemma_first_where(s@, is_char('\n'), j as int);
    }
    let head = crate::text::vec_from_range(s, 0, j);
    assert(head@ =~= s@.take(j as int));
    let t = trimmed(head.as_slice());
    if t.len() == 0 {
        None
    } else {
        Some(string_from(t.as_slice()))
    }
}

/// A step count in a rebase state file: its first line as a `u32`.
pub fn state_count(content: &str) -> (r: Option<u32>)
    ensures
        match first_line_model(content@) {
            Some(t) => match unsigned_value(t) {
                Some(v) => if v <= u32::MAX {
                    r == Some(v as u32)
                } else {
                    r is None
                },
                None => r is None,
            },
            None => r is None,
        },
{
    match first_line(content) {
        Some(t) => {
            let cs = chars_of(t.as_str());
            match parse_unsigned(cs.as_slice(), 0xffff_ffff) {
                Some(v) => Some(v as u32),
                None => None,
            }
        },
        None => None,
    }
}

/// The state directory of a rebase (`rebase-merge` when it exists, else
/// `rebase-apply`) and its files with the current step and the number of
/// steps.
pub fn rebase_state_files(merge_dir: bool) -> (r: (&'static str, &'static str, &'static str))
    ensures
        merge_dir ==> r.0@ == "rebase-merge"@ && r.1@ == "msgnum"@ && r.2@ == "end"@,
        !merge_dir ==> r.0@ == "rebase-apply"@ && r.1@ == "next"@ && r.2@ == "last"@,
{
    if merge_dir {
        ("rebase-merge", "msgnum", "end")
    } else {
        ("rebase-apply", "next", "last")
    }
}

/// The label of the branch being rebased: its head name without
/// `refs/heads/`.
pub fn head_name_label(name: &str) -> (r: String)
    ensures
        has_prefix(name@, "refs/heads/"@) ==> r@ == name@.skip(11),
        !has_prefix(name@, "refs/heads/"@) ==> r@ == name@,
{
    let cs = chars_of(name);
    proof {
        reveal_strlit("refs/heads/");
    }
    match strip_prefix_str(cs.as_slice(), "refs/heads/") {
        Some(t) => string_from(t.as_slice()),
        None => String::from_str(name),
    }
}

/// The short form of a commit id: its first eight characters.
pub fn short_id(id: &str) -> (r: String)
    ensures
        id@.len() <= 8 ==> r@ == id@,
        id@.len() > 8 ==> r@ == id@.take(8),
{
    let cs = chars_of(id);
    if cs.len() <= 8 {
        return String::from_str(id);
    }
    string_from_range(cs.as_slice(), 0, 8)
}

// ---------------------------------------------------------------------------
// Small answers
// ---------------------------------------------------------------------------

/// What `{:?}` gives for a string (quoted, with escapes).
pub uninterp spec fn debug_text(s: Seq<char>) -> Seq<char>;

/// `{:?}` of a string.
#[verifier::external_body]
fn debug_quoted(s: &str) -> (r: String)
    ensures
        r@ == debug_text(s@),
{
    format!("{s:?}")
}

/// The new content of `.gitignore` with `pattern` appended as a line of its
/// own; a pattern with a line break is refused (it could append further
/// lines, even a config include).
pub fn ignore_file_content(existing: &str, pattern: &str) -> (r: Result<String, GitEngineError>)
    ensures
        (pattern@.contains('\n') || pattern@.contains('\r')) ==> (r matches Err(
            GitEngineError::InvalidOperation(m),
        ) && m@ == "Ignore pattern must be a single line: "@ + debug_text(pattern@)),
        !(pattern@.contains('\n') || pattern@.contains('\r')) ==> (r matches Ok(c) && c@ == (if existing@.len()
            > 0 && existing@.last() != '\n' {
            existing@.push('\n')
        } else {
            existing@
        }) + pattern@ + "\n"@),
{
    let p = chars_of(pattern);
    if crate::text::contains_char(p.as_slice(), '\n') || crate::text::contains_char(p.as_slice(), '\r') {
        let mut m = String::from_str("Ignore pattern must be a single line: ");
        let q = debug_quoted(pattern);
        push_str(&mut m, q.as_str());
        return Err(GitEngineError::InvalidOperation(m));
    }
    let e = chars_of(existing);
    let mut c = String::from_str(existing);
    if e.len() > 0 && e[e.len() - 1] != '\n' {
        crate::text::push_char(&mut c, '\n');
    }
    push_str(&mut c, pattern);
    push_str(&mut c, "\n");
    Ok(c)
}

/// The result of a working signature check, naming the configured format
/// (`openpgp` when none is configured).
pub fn signing_report(format: Option<&str>) -> (r: String)
    ensures
        r@ == "Signing works (format: "@ + (match format {
            Some(f) => f@,
            None => "openpgp"@,
        }) + ")"@,
{
    let mut m = String::from_str("Signing works (format: ");
    match format {
        Some(f) => push_str(&mut m, f),
        None => push_str(&mut m, "openpgp"),
    }
    push_str(&mut m, ")");
    m
}

/// The signature check needs a commit whose tree it signs.
pub fn signing_tree(tree: Option<String>) -> (r: Result<String, GitEngineError>)
    ensures
        match tree {
            Some(t) => r == Ok::<String, GitEngineError>(t),
            None => r matches Err(GitEngineError::InvalidOperation(m)) && m@
                == "The signature check needs at least one commit in the repository"@,
        },
{
    match tree {
        Some(t) => Ok(t),
        None => Err(
            GitEngineError::InvalidOperation(
                String::from_str("The signature check needs at least one commit in the repository"),
            ),
        ),
    }
}

/// The initial branch of a new repository: `main`, unless the user
/// configured one (a blank setting counts as none).
pub fn initial_branch(configured: Option<&str>) -> (r: Option<&'static str>)
    ensures
        match configured {
            Some(c) => if trim(c@).len() > 0 {
                r is None
            } else {
                r matches Some(m) && m@ == "main"@
            },
            None => r matches Some(m) && m@ == "main"@,
        },
{
    match configured {
        Some(c) => {
            if trimmed(chars_of(c).as_slice()).len() > 0 {
                None
            } else {
                Some("main")
            }
        },
        None => Some("main"),
    }
}

// ---------------------------------------------------------------------------
// The repository sketch
// ---------------------------------------------------------------------------

/// A commit of the HEAD line: its id, time and number of parents.
pub struct RawSketchCommit {
    pub id: String,
    pub time: i64,
    pub parents: usize,
}

/// A local branch other than HEAD's, as read: its name, its merge base
/// with HEAD (if there is one), how far it is ahead of HEAD (if that could
/// be counted) and the time of its tip.
pub struct RawSketchBranch {
    pub name: String,
    pub base: Option<String>,
    pub ahead: Option<usize>,
    pub tip_time: i64,
}

/// The most commits a sketch branch shows as ahead.
pub const SKETCH_AHEAD_CAP: usize = 99;

/// The first position of `x` in `ids`.
pub open spec fn position_of(ids: Seq<Seq<char>>, x: Seq<char>) -> Option<int>
    decreases ids.len(),
{
    if ids.len() == 0 {
        None
    } else {
        match position_of(ids.drop_last(), x) {
            Some(i) => Some(i),
            None => if ids.last() == x {
                Some(ids.len() - 1)
            } else {
                None
            },
        }
    }
}

proof fn lemma_position_range(ids: Seq<Seq<char>>, x: Seq<char>)
    ensures
        position_of(ids, x) matches Some(i) ==> 0 <= i < ids.len(),
    decreases ids.len(),
{
    if ids.len() > 0 {
        lemma_position_range(ids.drop_last(), x);
    }
}

proof fn lemma_position_stays(ids: Seq<Seq<char>>, x: Seq<char>, k: int)
    requires
        0 <= k <= ids.len(),
        position_of(ids.take(k), x) is Some,
    ensures
        position_of(ids, x) == position_of(ids.take(k), x),
    decreases ids.len() - k,
{
    if k < ids.len() {
        assert(ids.take(k + 1).drop_last() =~= ids.take(k));
        lemma_position_stays(ids, x, k + 1);
    } else {
        assert(ids.take(k) =~= ids);
    }
}

fn position(ids: &[String], x: &str) -> (r: Option<usize>)
    ensures
        r matches Some(p) ==> p < ids@.len(),
        match position_of(string_views(ids@), x@) {
            Some(i) => r == Some(i as usize),
            None => r is None,
        },
{
    let ghost iv = string_views(ids@);
    let mut i: usize = 0;
    assert(iv.take(0) =~= Seq::<Seq<char>>::empty());
    while i < ids.len()
        invariant
            i <= ids@.len(),
            iv == string_views(ids@),
            position_of(iv.take(i as int), x@) is None,
        decreases ids@.len() - i,
    {
        assert(iv.take(i + 1).drop_last() =~= iv.take(i as int));
        assert(iv.take(i + 1).last() == ids@[i as int]@);
        if chars_eq_str(chars_of(ids[i].as_str()).as_slice(), x) {
            proof {
                lemma_position_stays(iv, x@, i + 1);
            }
            return Some(i);
        }
        i = i + 1;
    }
    assert(iv.take(ids@.len() as int) =~= iv);
    None
}

/// A sketch branch as plain values.
pub struct SketchBranchModel {
    pub name: Seq<char>,
    pub base_index: Option<u32>,
    pub ahead: u32,
    pub tip_time: int,
}

pub open spec fn sketch_branch_view(b: crate::domain::SketchBranch) -> SketchBranchModel {
    SketchBranchModel {
        name: b.name@,
        base_index: b.base_index,
        ahead: b.ahead,
        tip_time: b.tip_time as int,
    }
}

pub open spec fn sketch_branches_view(v: Seq<crate::domain::SketchBranch>) -> Seq<SketchBranchModel> {
    Seq::new(v.len(), |i: int| sketch_branch_view(v[i]))
}

/// A branch of the sketch: where its merge base sits in the commit window
/// (none when older than the window or missing) and how far it is ahead,
/// capped at [`SKETCH_AHEAD_CAP`] (0 where it could not be counted).
pub open spec fn sketch_branch_model(ids: Seq<Seq<char>>, r: RawSketchBranch) -> SketchBranchModel {
    SketchBranchModel {
        name: r.name@,
        base_index: match r.base {
            Some(b) => match position_of(ids, b@) {
                Some(i) => Some(i as u32),
                None => None,
            },
            None => None,
        },
        ahead: match r.ahead {
            Some(a) => if a > SKETCH_AHEAD_CAP {
                SKETCH_AHEAD_CAP as u32
            } else {
                a as u32
            },
            None => 0,
        },
        tip_time: r.tip_time as int,
    }
}

/// `s` with `x` inserted after every branch whose tip is not older.
pub open spec fn insert_by_tip(s: Seq<SketchBranchModel>, x: SketchBranchModel) -> Seq<SketchBranchModel>
    decreases s.len(),
{
    if s.len() == 0 {
        seq![x]
    } else if s.last().tip_time >= x.tip_time {
        s.push(x)
    } else {
        insert_by_tip(s.drop_last(), x).push(s.last())
    }
}

pub open spec fn sort_by_tip(s: Seq<SketchBranchModel>) -> Seq<SketchBranchModel>
    decreases s.len(),
{
    if s.len() == 0 {
        Seq::empty()
    } else {
        insert_by_tip(sort_by_tip(s.drop_last()), s.last())
    }
}

/// The branches of the sketch: newest tips first (equal tips in the order
/// read), at most `max` of them.
pub open spec fn sketch_branches_model(ids: Seq<Seq<char>>, raws: Seq<RawSketchBranch>, max: nat) -> Seq<
    SketchBranchModel,
> {
    let sorted = sort_by_tip(Seq::new(raws.len(), |i: int| sketch_branch_model(ids, raws[i])));
    if sorted.len() > max {
        sorted.take(max as int)
    } else {
        sorted
    }
}

proof fn lemma_insert_tip_at(s: Seq<SketchBranchModel>, x: SketchBranchModel, j: int)
    requires
        0 <= j <= s.len(),
        forall|k: int| j <= k < s.len() ==> (#[trigger] s[k]).tip_time < x.tip_time,
        j == 0 || s[j - 1].tip_time >= x.tip_time,
    ensures
        insert_by_tip(s, x) == s.take(j).push(x) + s.skip(j),
    decreases s.len(),
{
    if s.len() == 0 {
        assert(s.take(j).push(x) + s.skip(j) =~= seq![x]);
    } else if j == s.len() {
        assert(s.take(j).push(x) + s.skip(j) =~= s.push(x));
    } else {
        let t = s.drop_last();
        assert(s[s.len() - 1].tip_time < x.tip_time);
        assert forall|k: int| j <= k < t.len() implies (#[trigger] t[k]).tip_time < x.tip_time by {
            assert(t[k] == s[k]);
        }
        if j > 0 {
            assert(t[j - 1] == s[j - 1]);
        }
        lemma_insert_tip_at(t, x, j);
        assert((t.take(j).push(x) + t.skip(j)).push(s.last()) =~= s.take(j).push(x) + s.skip(j));
    }
}

/// The branches of the sketch (see [`sketch_branches_model`]); `ids` are
/// the commits of the window, newest first.
pub fn sketch_branches(ids: &[String], raws: &[RawSketchBranch], max: usize) -> (r: Vec<
    crate::domain::SketchBranch,
>)
    requires
        ids@.len() <= u32::MAX,
    ensures
        sketch_branches_view(r@) == sketch_branches_model(string_views(ids@), raws@, max as nat),
{
    let ghost iv = string_views(ids@);
    let ghost ms = Seq::new(raws@.len(), |i: int| sketch_branch_model(iv, raws@[i]));
    let mut out: Vec<crate::domain::SketchBranch> = Vec::new();
    let mut i: usize = 0;
    assert(ms.take(0) =~= Seq::<SketchBranchModel>::empty());
    assert(sketch_branches_view(out@) =~= Seq::<SketchBranchModel>::empty());
    while i < raws.len()
        invariant
            i <= raws@.len(),
            ids@.len() <= u32::MAX,
            iv == string_views(ids@),
            ms == Seq::new(raws@.len(), |k: int| sketch_branch_model(iv, raws@[k])),
            sketch_branches_view(out@) == sort_by_tip(ms.take(i as int)),
        decreases raws@.len() - i,
    {
        assert(ms.take(i + 1).drop_last() =~= ms.take(i as int));
        let r = &raws[i];
        proof {
            match raws@[i as int].base {
                Some(bb) => lemma_position_range(iv, bb@),
                None => {},
            }
        }
        let base_index = match &r.base {
            Some(b) => match position(ids, b.as_str()) {
                Some(p) => Some(p as u32),
                None => None,
            },
            None => None,
        };
        let ahead: u32 = match r.ahead {
            Some(a) => if a > SKETCH_AHEAD_CAP {
                SKETCH_AHEAD_CAP as u32
            } else {
                a as u32
            },
            None => 0,
        };
        let b = crate::domain::SketchBranch {
            name: r.name.clone(),
            base_index,
            ahead,
            tip_time: r.tip_time,
        };
        assert(sketch_branch_view(b) == ms[i as int]);
        assert(ms.take(i + 1).last() == sketch_branch_view(b));
        let ghost s = sketch_branches_view(out@);
        let ghost x = sketch_branch_view(b);
        let mut j = out.len();
        loop
            invariant
                j <= out@.len(),
                s == sketch_branches_view(out@),
                x == sketch_branch_view(b),
                forall|k: int| j <= k < s.len() ==> (#[trigger] s[k]).tip_time < x.tip_time,
            ensures
                j == 0 || s[j - 1].tip_time >= x.tip_time,
            decreases j,
        {
            if j == 0 {
                break;
            }
            if out[j - 1].tip_time >= b.tip_time {
                break;
            }
            j = j - 1;
        }
        proof {
            lemma_insert_tip_at(s, x, j as int);
        }
        out.insert(j, b);
        assert(sketch_branches_view(out@) =~= s.take(j as int).push(x) + s.skip(j as int));
        i = i + 1;
    }
    assert(ms.take(raws@.len() as int) =~= ms);
    if out.len() > max {
        let ghost all = sketch_branches_view(out@);
        out.truncate(max);
        assert(sketch_branches_view(out@) =~= all.take(max as int));
    }
    out
}

/// The commits of the sketch's HEAD line: a merge has more than one
/// parent, and a commit is marked when a tag points at it.
pub fn sketch_commits(raws: &[RawSketchCommit], tagged: &[String]) -> (r: Vec<crate::domain::SketchCommit>)
    ensures
        r@.len() == raws@.len(),
        forall|i: int|
            0 <= i < raws@.len() ==> (#[trigger] r@[i]).time == raws@[i].time && r@[i].is_merge == (
            raws@[i].parents > 1) && r@[i].has_tag == string_views(tagged@).contains(raws@[i].id@),
{
    let mut out: Vec<crate::domain::SketchCommit> = Vec::new();
    let mut i: usize = 0;
    while i < raws.len()
        invariant
            i <= raws@.len(),
            out@.len() == i,
            forall|k: int|
                0 <= k < i ==> (#[trigger] out@[k]).time == raws@[k].time && out@[k].is_merge == (
                raws@[k].parents > 1) && out@[k].has_tag == string_views(tagged@).contains(
                    raws@[k].id@,
                ),
        decreases raws@.len() - i,
    {
        let has_tag = match position(tagged, raws[i].id.as_str()) {
            Some(_) => true,
            None => false,
        };
        proof {
            lemma_position_contains(string_views(tagged@), raws@[i as int].id@);
        }
        out.push(
            crate::domain::SketchCommit {
                time: raws[i].time,
                is_merge: raws[i].parents > 1,
                has_tag,
            },
        );
        i = i + 1;
    }
    out
}

proof fn lemma_position_contains(ids: Seq<Seq<char>>, x: Seq<char>)
    ensures
        position_of(ids, x) is Some <==> ids.contains(x),
    decreases ids.len(),
{
    if ids.len() > 0 {
        lemma_position_contains(ids.drop_last(), x);
        if ids.drop_last().contains(x) {
            let k = choose|k: int| 0 <= k < ids.drop_last().len() && ids.drop_last()[k] == x;
            assert(ids[k] == x);
        }
        if ids.contains(x) && !ids.drop_last().contains(x) {
            let k = choose|k: int| 0 <= k < ids.len() && ids[k] == x;
            if k < ids.len() - 1 {
                assert(ids.drop_last()[k] == x);
            }
        }
        if ids.last() == x {
            assert(ids[ids.len() - 1] == x);
        }
    }
}

/// Names come first in lexicographic order.
pub open spec fn name_before() -> spec_fn(Seq<char>, Seq<char>) -> bool {
    |a: Seq<char>, b: Seq<char>| lex_le(a, b)
}

proof fn lemma_insert_name_is(s: Seq<Seq<char>>, x: Seq<char>)
    ensures
        insert_name(s, x) == crate::order::insert_by(s, x, name_before()),
    decreases s.len(),
{
    if s.len() > 0 {
        lemma_insert_name_is(s.drop_last(), x);
    }
}

proof fn lemma_name_list_is_sort(s: Seq<Seq<char>>)
    ensures
        sort_names_model(s) == crate::order::sort_by(s, name_before()),
    decreases s.len(),
{
    if s.len() > 0 {
        lemma_name_list_is_sort(s.drop_last());
        lemma_insert_name_is(sort_names_model(s.drop_last()), s.last());
    }
}

/// The sorted names are in lexicographic order and are the names given.
pub proof fn lemma_names_sorted(s: Seq<Seq<char>>)
    ensures
        crate::order::sorted_by(sort_names_model(s), name_before()),
        sort_names_model(s).to_multiset() == s.to_multiset(),
{
    lemma_name_list_is_sort(s);
    assert(crate::order::total_order(name_before())) by {
        assert forall|a: Seq<char>, b: Seq<char>| #[trigger] name_before()(a, b) || name_before()(b, a) by {
            crate::text::lemma_lex_le_total(a, b);
        }
        assert forall|a: Seq<char>, b: Seq<char>, c: Seq<char>|
            #[trigger] name_before()(a, b) && #[trigger] name_before()(b, c) implies name_before()(a, c) by {
            crate::text::lemma_lex_le_trans(a, b, c);
        }
    }
    crate::order::lemma_sort_by(s, name_before());
}

/// Backups come first by time, newest first, then by name, descending.
pub open spec fn backup_order() -> spec_fn(BackupModel, BackupModel) -> bool {
    |a: BackupModel, b: BackupModel| backup_before(a, b)
}

proof fn lemma_insert_backup_is(s: Seq<BackupModel>, x: BackupModel)
    ensures
        insert_backup(s, x) == crate::order::insert_by(s, x, backup_order()),
    decreases s.len(),
{
    if s.len() > 0 {
        lemma_insert_backup_is(s.drop_last(), x);
    }
}

proof fn lemma_backup_list_is_sort(s: Seq<BackupModel>)
    ensures
        backup_list_model(s) == crate::order::sort_by(s, backup_order()),
    decreases s.len(),
{
    if s.len() > 0 {
        lemma_backup_list_is_sort(s.drop_last());
        lemma_insert_backup_is(backup_list_model(s.drop_last()), s.last());
    }
}

/// The backup list is newest first (by time, then by name, descending),
/// and holds every backup read.
pub proof fn lemma_backups_newest_first(raws: Seq<(String, String, String)>)
    ensures
        crate::order::sorted_by(backups_model(raws), backup_order()),
        backups_model(raws).to_multiset() == Seq::new(
            raws.len(),
            |i: int| backup_model(raws[i].0@, raws[i].1@, raws[i].2@),
        ).to_multiset(),
{
    let s = Seq::new(raws.len(), |i: int| backup_model(raws[i].0@, raws[i].1@, raws[i].2@));
    lemma_backup_list_is_sort(s);
    assert(crate::order::total_order(backup_order())) by {
        assert forall|a: BackupModel, b: BackupModel| #[trigger] backup_order()(a, b) || backup_order()(b, a) by {
            crate::text::lemma_lex_le_total(a.name, b.name);
        }
        assert forall|a: BackupModel, b: BackupModel, c: BackupModel|
            #[trigger] backup_order()(a, b) && #[trigger] backup_order()(b, c) implies backup_order()(a, c) by {
            if a.timestamp == b.timestamp && b.timestamp == c.timestamp {
                crate::text::lemma_lex_le_trans(c.name, b.name, a.name);
            }
        }
    }
    crate::order::lemma_sort_by(s, backup_order());
}

/// Sketch branches come first by tip, newest first.
pub open spec fn tip_order() -> spec_fn(SketchBranchModel, SketchBranchModel) -> bool {
    |a: SketchBranchModel, b: SketchBranchModel| a.tip_time >= b.tip_time
}

proof fn lemma_insert_by_tip_is(s: Seq<SketchBranchModel>, x: SketchBranchModel)
    ensures
        insert_by_tip(s, x) == crate::order::insert_by(s, x, tip_order()),
    decreases s.len(),
{
    if s.len() > 0 {
        lemma_insert_by_tip_is(s.drop_last(), x);
    }
}

proof fn lemma_sort_by_tip_is(s: Seq<SketchBranchModel>)
    ensures
        sort_by_tip(s) == crate::order::sort_by(s, tip_order()),
    decreases s.len(),
{
    if s.len() > 0 {
        lemma_sort_by_tip_is(s.drop_last());
        lemma_insert_by_tip_is(sort_by_tip(s.drop_last()), s.last());
    }
}

/// The sketch shows at most `max` branches, newest tips first, none ahead
/// by more than the cap, and leaves out no branch whose tip is newer than
/// one it shows.
pub proof fn lemma_sketch_branches_newest_first(
    ids: Seq<Seq<char>>,
    raws: Seq<RawSketchBranch>,
    max: nat,
)
    ensures
        sketch_branches_model(ids, raws, max).len() <= max,
        crate::order::sorted_by(sketch_branches_model(ids, raws, max), tip_order()),
        forall|k: int|
            0 <= k < sketch_branches_model(ids, raws, max).len() ==> (#[trigger] sketch_branches_model(
                ids,
                raws,
                max,
            )[k]).ahead <= SKETCH_AHEAD_CAP,
        forall|k: int, i: int|
            0 <= k < sketch_branches_model(ids, raws, max).len() && 0 <= i < raws.len()
                && !sketch_branches_model(ids, raws, max).contains(
                #[trigger] sketch_branch_model(ids, raws[i]),
            ) ==> (#[trigger] sketch_branches_model(ids, raws, max)[k]).tip_time >= sketch_branch_model(
                ids,
                raws[i],
            ).tip_time,
{
    broadcast use vstd::seq_lib::group_to_multiset_ensures;

    let all = Seq::new(raws.len(), |i: int| sketch_branch_model(ids, raws[i]));
    let sorted = sort_by_tip(all);
    let r = sketch_branches_model(ids, raws, max);
    lemma_sort_by_tip_is(all);
    assert(crate::order::total_order(tip_order()));
    crate::order::lemma_sort_by(all, tip_order());
    assert(r =~= sorted.take(r.len() as int));
    assert forall|k: int| 0 <= k < r.len() implies (#[trigger] r[k]).ahead <= SKETCH_AHEAD_CAP by {
        assert(r[k] == sorted[k]);
        assert(sorted.to_multiset().count(sorted[k]) > 0);
        assert(all.to_multiset().count(sorted[k]) > 0);
        assert(all.contains(sorted[k]));
        let m = choose|m: int| 0 <= m < all.len() && all[m] == sorted[k];
        assert(all[m] == sketch_branch_model(ids, raws[m]));
    }
    assert forall|k: int, i: int|
        0 <= k < r.len() && 0 <= i < raws.len() && !r.contains(#[trigger] sketch_branch_model(ids, raws[i]))
            implies (#[trigger] r[k]).tip_time >= sketch_branch_model(ids, raws[i]).tip_time by {
        let b = sketch_branch_model(ids, raws[i]);
        assert(all[i] == b);
        assert(all.to_multiset().count(b) > 0);
        assert(sorted.to_multiset().count(b) > 0);
        assert(sorted.contains(b));
        let m = choose|m: int| 0 <= m < sorted.len() && sorted[m] == b;
        if m < r.len() {
            assert(r[m] == b);
        }
        assert(r[k] == sorted[k]);
        assert(tip_order()(sorted[k], sorted[m]));
    }
}

/// The first worktree of a scan is the main one, and only it.
pub open spec fn main_first(st: WorktreeScan) -> bool {
    &&& forall|k: int| 0 <= k < st.done.len() ==> ((#[trigger] st.done[k]).is_main <==> k == 0)
    &&& st.current matches Some(w) ==> (w.is_main <==> st.done.len() == 0)
    &&& st.current is None ==> st.done.len() == 0
}

proof fn lemma_scan_main_first(ls: Seq<Seq<char>>)
    ensures
        main_first(worktree_scan(ls)),
    decreases ls.len(),
{
    if ls.len() > 0 {
        lemma_scan_main_first(ls.drop_last());
        let st = worktree_scan(ls.drop_last());
        let nx = worktree_scan(ls);
        assert(nx == worktree_line(st, ls.last()));
        if has_prefix(ls.last(), "worktree "@) {
            let done = match st.current {
                Some(w) => st.done.push(w),
                None => st.done,
            };
            assert(nx.done == done);
            assert forall|k: int| 0 <= k < done.len() implies ((#[trigger] done[k]).is_main <==> k == 0) by {
                if k < st.done.len() {
                    assert(done[k] == st.done[k]);
                }
            }
        }
    }
}

/// Exactly the first worktree listed is the main worktree.
pub proof fn lemma_main_worktree_first(out: Seq<char>)
    ensures
        forall|k: int|
            0 <= k < worktrees_model(out).len() ==> ((#[trigger] worktrees_model(out)[k]).is_main <==> k
                == 0),
{
    let st = worktree_scan(lines_of(out));
    lemma_scan_main_first(lines_of(out));
    let r = worktrees_model(out);
    assert forall|k: int| 0 <= k < r.len() implies ((#[trigger] r[k]).is_main <==> k == 0) by {
        if k < st.done.len() {
            assert(r[k] == st.done[k]);
        }
    }
}

} // verus!
