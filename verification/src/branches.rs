//! Branch decisions: the branch list as the UI sees it, the remote branch a
//! checkout of a missing local branch tracks, the checkout progress, the
//! files named when a checkout would overwrite changes, the remote a push
//! goes to, and the basic information of an opened repository.

use vstd::prelude::*;

use crate::domain::{BranchInfo, RepoInfo};
use crate::error::GitEngineError;
use crate::status_fast::opt_string_view;
use crate::text::{
    chars_eq, chars_eq_str, chars_le, chars_of, has_prefix, lemma_lex_le_total, lemma_lex_le_trans,
    lex_le, push_str, string_from, string_from_range, string_views, strip_prefix_str,
};

verus! {

// ---------------------------------------------------------------------------
// The branch list
// ---------------------------------------------------------------------------

/// A branch as the repository gives it, with what the list needs to know
/// about it: its upstream (local branches), the name of its remote (remote
/// branches), and the `branch.<name>.remote` / `branch.<name>.merge`
/// settings (local branches, where the configuration could be read).
pub struct RawBranch {
    pub name: String,
    pub is_head: bool,
    pub is_remote: bool,
    pub upstream: Option<String>,
    pub remote_name: Option<String>,
    pub target_id: Option<String>,
    pub configured_remote: Option<String>,
    pub has_merge: bool,
}

/// A branch of the list as plain values.
pub struct BranchModel {
    pub name: Seq<char>,
    pub is_head: bool,
    pub is_remote: bool,
    pub upstream: Option<Seq<char>>,
    pub short_name: Option<Seq<char>>,
    pub target_id: Option<Seq<char>>,
    pub upstream_gone: bool,
}

pub open spec fn branch_view(b: BranchInfo) -> BranchModel {
    BranchModel {
        name: b.name@,
        is_head: b.is_head,
        is_remote: b.is_remote,
        upstream: opt_string_view(b.upstream),
        short_name: opt_string_view(b.short_name),
        target_id: opt_string_view(b.target_id),
        upstream_gone: b.upstream_gone,
    }
}

pub open spec fn branches_view(v: Seq<BranchInfo>) -> Seq<BranchModel> {
    Seq::new(v.len(), |i: int| branch_view(v[i]))
}

/// `t` is a suffix of `s`.
pub open spec fn has_suffix(s: Seq<char>, t: Seq<char>) -> bool {
    t.len() <= s.len() && s.skip(s.len() - t.len()) == t
}

/// The list entry of a branch: none for a symbolic `<remote>/HEAD`. A remote
/// branch has no upstream, and its short name is its name without
/// `<remote>/`. A local branch whose configured upstream (a remote other
/// than `.`, and a merge ref) no longer resolves is marked gone.
pub open spec fn branch_entry(r: RawBranch) -> Option<BranchModel> {
    if has_suffix(r.name@, "/HEAD"@) {
        None
    } else {
        let upstream = if r.is_remote {
            None
        } else {
            opt_string_view(r.upstream)
        };
        Some(
            BranchModel {
                name: r.name@,
                is_head: r.is_head,
                is_remote: r.is_remote,
                upstream,
                short_name: if r.is_remote {
                    match r.remote_name {
                        Some(rem) => if has_prefix(r.name@, rem@ + "/"@) {
                            Some(r.name@.skip(rem@.len() as int + 1))
                        } else {
                            None
                        },
                        None => None,
                    }
                } else {
                    None
                },
                target_id: opt_string_view(r.target_id),
                upstream_gone: !r.is_remote && upstream is None && (r.configured_remote matches Some(
                    c,
                ) && c@ != "."@) && r.has_merge,
            },
        )
    }
}

/// The entries of the branches in the order given.
pub open spec fn branch_entries(raws: Seq<RawBranch>) -> Seq<BranchModel>
    decreases raws.len(),
{
    if raws.len() == 0 {
        Seq::empty()
    } else {
        match branch_entry(raws.last()) {
            Some(b) => branch_entries(raws.drop_last()).push(b),
            None => branch_entries(raws.drop_last()),
        }
    }
}

/// The list order: local branches before remote ones, each by name.
pub open spec fn branch_le(a: BranchModel, b: BranchModel) -> bool {
    (!a.is_remote && b.is_remote) || (a.is_remote == b.is_remote && lex_le(a.name, b.name))
}

/// `s` with `e` inserted after every entry that does not come after it.
pub open spec fn insert_branch(s: Seq<BranchModel>, e: BranchModel) -> Seq<BranchModel>
    decreases s.len(),
{
    if s.len() == 0 {
        seq![e]
    } else if branch_le(s.last(), e) {
        s.push(e)
    } else {
        insert_branch(s.drop_last(), e).push(s.last())
    }
}

/// `s` in list order, entries with equal keys in their original order.
pub open spec fn sort_branches(s: Seq<BranchModel>) -> Seq<BranchModel>
    decreases s.len(),
{
    if s.len() == 0 {
        Seq::empty()
    } else {
        insert_branch(sort_branches(s.drop_last()), s.last())
    }
}

pub open spec fn branches_sorted(s: Seq<BranchModel>) -> bool {
    forall|i: int, j: int| 0 <= i < j < s.len() ==> branch_le(s[i], s[j])
}

proof fn lemma_branch_le_total(a: BranchModel, b: BranchModel)
    ensures
        branch_le(a, b) || branch_le(b, a),
{
    lemma_lex_le_total(a.name, b.name);
}

proof fn lemma_branch_le_trans(a: BranchModel, b: BranchModel, c: BranchModel)
    requires
        branch_le(a, b),
        branch_le(b, c),
    ensures
        branch_le(a, c),
{
    if a.is_remote == b.is_remote && b.is_remote == c.is_remote {
        lemma_lex_le_trans(a.name, b.name, c.name);
    }
}

spec fn all_before(s: Seq<BranchModel>, key: BranchModel) -> bool {
    forall|i: int| 0 <= i < s.len() ==> branch_le(#[trigger] s[i], key)
}

proof fn lemma_insert_before(s: Seq<BranchModel>, e: BranchModel, key: BranchModel)
    requires
        all_before(s, key),
        branch_le(e, key),
    ensures
        all_before(insert_branch(s, e), key),
    decreases s.len(),
{
    if s.len() > 0 && !branch_le(s.last(), e) {
        let t = s.drop_last();
        assert forall|i: int| 0 <= i < t.len() implies branch_le(#[trigger] t[i], key) by {
            assert(t[i] == s[i]);
        }
        lemma_insert_before(t, e, key);
    }
}

proof fn lemma_insert_branch(s: Seq<BranchModel>, e: BranchModel)
    requires
        branches_sorted(s),
    ensures
        branches_sorted(insert_branch(s, e)),
        insert_branch(s, e).to_multiset() == s.to_multiset().insert(e),
    decreases s.len(),
{
    broadcast use vstd::seq_lib::group_to_multiset_ensures;
    broadcast use vstd::multiset::group_multiset_properties;

    if s.len() == 0 {
        assert(seq![e] =~= s.push(e));
    } else if branch_le(s.last(), e) {
        let r = s.push(e);
        assert forall|i: int, j: int| 0 <= i < j < r.len() implies branch_le(r[i], r[j]) by {
            if j == s.len() && i < s.len() - 1 {
                lemma_branch_le_trans(s[i], s.last(), e);
            }
        }
    } else {
        let t = s.drop_last();
        let l = s.last();
        assert(t.push(l) =~= s);
        assert forall|i: int, j: int| 0 <= i < j < t.len() implies branch_le(t[i], t[j]) by {
            assert(t[i] == s[i] && t[j] == s[j]);
        }
        lemma_insert_branch(t, e);
        assert forall|i: int| 0 <= i < t.len() implies branch_le(#[trigger] t[i], l) by {
            assert(t[i] == s[i]);
        }
        lemma_branch_le_total(l, e);
        lemma_insert_before(t, e, l);
        let m = insert_branch(t, e);
        let r = m.push(l);
        assert forall|i: int, j: int| 0 <= i < j < r.len() implies branch_le(r[i], r[j]) by {
            if j < m.len() {
                assert(r[i] == m[i] && r[j] == m[j]);
            } else {
                assert(r[i] == m[i]);
            }
        }
        assert(s.to_multiset() =~= t.to_multiset().insert(l));
        assert(r.to_multiset() =~= t.to_multiset().insert(e).insert(l));
        assert(t.to_multiset().insert(e).insert(l) =~= t.to_multiset().insert(l).insert(e));
    }
}

/// The branch list comes out in list order (local before remote, each by
/// name) and holds exactly the entries of the branches given.
pub proof fn lemma_branch_list_sorted(s: Seq<BranchModel>)
    ensures
        branches_sorted(sort_branches(s)),
        sort_branches(s).to_multiset() == s.to_multiset(),
    decreases s.len(),
{
    broadcast use vstd::seq_lib::group_to_multiset_ensures;
    broadcast use vstd::multiset::group_multiset_properties;

    if s.len() == 0 {
        assert(s.to_multiset() =~= vstd::multiset::Multiset::empty());
        assert(sort_branches(s).to_multiset() =~= vstd::multiset::Multiset::empty());
    } else {
        lemma_branch_list_sorted(s.drop_last());
        lemma_insert_branch(sort_branches(s.drop_last()), s.last());
        assert(s.drop_last().push(s.last()) =~= s);
    }
}

proof fn lemma_insert_branch_at(s: Seq<BranchModel>, e: BranchModel, j: int)
    requires
        0 <= j <= s.len(),
        forall|k: int| j <= k < s.len() ==> !branch_le(#[trigger] s[k], e),
        j == 0 || branch_le(s[j - 1], e),
    ensures
        insert_branch(s, e) == s.take(j).push(e) + s.skip(j),
    decreases s.len(),
{
    if s.len() == 0 {
        assert(s.take(j).push(e) + s.skip(j) =~= seq![e]);
    } else if j == s.len() {
        assert(s.take(j).push(e) + s.skip(j) =~= s.push(e));
    } else {
        let t = s.drop_last();
        assert(!branch_le(s[s.len() - 1], e));
        assert forall|k: int| j <= k < t.len() implies !branch_le(#[trigger] t[k], e) by {
            assert(t[k] == s[k]);
        }
        if j > 0 {
            assert(t[j - 1] == s[j - 1]);
        }
        lemma_insert_branch_at(t, e, j);
        assert((t.take(j).push(e) + t.skip(j)).push(s.last()) =~= s.take(j).push(e) + s.skip(j));
    }
}

fn branch_before(a: &BranchInfo, b: &BranchInfo) -> (r: bool)
    ensures
        r == branch_le(branch_view(*a), branch_view(*b)),
{
    if !a.is_remote && b.is_remote {
        return true;
    }
    if a.is_remote != b.is_remote {
        return false;
    }
    let x = chars_of(a.name.as_str());
    let y = chars_of(b.name.as_str());
    chars_le(x.as_slice(), y.as_slice())
}

fn insert_branch_sorted(v: &mut Vec<BranchInfo>, e: BranchInfo)
    ensures
        branches_view(final(v)@) == insert_branch(branches_view(old(v)@), branch_view(e)),
{
    let ghost s = branches_view(v@);
    let ghost ee = branch_view(e);
    let mut j = v.len();
    loop
        invariant
            j <= v@.len(),
            s == branches_view(v@),
            ee == branch_view(e),
            forall|k: int| j <= k < s.len() ==> !branch_le(#[trigger] s[k], ee),
        ensures
            j == 0 || branch_le(s[j - 1], ee),
        decreases j,
    {
        if j == 0 {
            break;
        }
        if branch_before(&v[j - 1], &e) {
            break;
        }
        j = j - 1;
    }
    proof {
        lemma_insert_branch_at(s, ee, j as int);
    }
    v.insert(j, e);
    assert(branches_view(v@) =~= s.take(j as int).push(ee) + s.skip(j as int));
}

fn ends_with_head(s: &[char]) -> (r: bool)
    ensures
        r == has_suffix(s@, "/HEAD"@),
{
    let t = chars_of("/HEAD");
    proof {
        reveal_strlit("/HEAD");
    }
    if s.len() < t.len() {
        return false;
    }
    let tail = crate::text::vec_from_range(s, s.len() - t.len(), s.len());
    assert(tail@ =~= s@.skip(s@.len() - 5));
    chars_eq(tail.as_slice(), t.as_slice())
}

fn opt_clone(o: &Option<String>) -> (r: Option<String>)
    ensures
        opt_string_view(r) == opt_string_view(*o),
{
    match o {
        Some(s) => Some(s.clone()),
        None => None,
    }
}

/// The list entry of one branch (see [`branch_entry`]).
pub fn branch_info(r: &RawBranch) -> (b: Option<BranchInfo>)
    ensures
        match branch_entry(*r) {
            Some(m) => b matches Some(x) && branch_view(x) == m,
            None => b is None,
        },
{
    let name = chars_of(r.name.as_str());
    if ends_with_head(name.as_slice()) {
        return None;
    }
    let upstream = if r.is_remote {
        None
    } else {
        opt_clone(&r.upstream)
    };
    let short_name = if r.is_remote {
        match &r.remote_name {
            Some(rem) => {
                let mut p = rem.clone();
                push_str(&mut p, "/");
                proof {
                    reveal_strlit("/");
                }
                match strip_prefix_str(name.as_slice(), p.as_str()) {
                    Some(t) => Some(string_from(t.as_slice())),
                    None => None,
                }
            },
            None => None,
        }
    } else {
        None
    };
    let remote_set = match &r.configured_remote {
        Some(c) => !chars_eq_str(chars_of(c.as_str()).as_slice(), "."),
        None => false,
    };
    let gone = !r.is_remote && upstream.is_none() && remote_set && r.has_merge;
    Some(
        BranchInfo {
            name: r.name.clone(),
            is_head: r.is_head,
            is_remote: r.is_remote,
            upstream,
            short_name,
            target_id: opt_clone(&r.target_id),
            upstream_gone: gone,
        },
    )
}

/// The branch list: the entries of the branches (see [`branch_entry`]) in
/// list order, local before remote, each by name.
pub fn branch_list(raws: &[RawBranch]) -> (r: Vec<BranchInfo>)
    ensures
        branches_view(r@) == sort_branches(branch_entries(raws@)),
{
    let mut out: Vec<BranchInfo> = Vec::new();
    let mut i: usize = 0;
    assert(raws@.take(0) =~= Seq::<RawBranch>::empty());
    assert(branches_view(out@) =~= Seq::<BranchModel>::empty());
    while i < raws.len()
        invariant
            i <= raws@.len(),
            branches_view(out@) == sort_branches(branch_entries(raws@.take(i as int))),
        decreases raws@.len() - i,
    {
        let ghost prev = branch_entries(raws@.take(i as int));
        assert(raws@.take(i + 1).drop_last() =~= raws@.take(i as int));
        assert(raws@.take(i + 1).last() == raws@[i as int]);
        match branch_info(&raws[i]) {
            Some(b) => {
                insert_branch_sorted(&mut out, b);
                assert(prev.push(branch_view(b)).drop_last() =~= prev);
            },
            None => {},
        }
        i = i + 1;
    }
    assert(raws@.take(raws@.len() as int) =~= raws@);
    out
}

// ---------------------------------------------------------------------------
// Checkout
// ---------------------------------------------------------------------------

/// A remote branch that a checkout of a missing local branch may track: its
/// full name (`<remote>/<branch>`) and the name of its remote, where git
/// knows it.
pub struct RemoteCandidate {
    pub full: String,
    pub remote: Option<String>,
}

pub open spec fn candidate_fits(c: RemoteCandidate, name: Seq<char>) -> bool {
    c.remote matches Some(r) && c.full@ == r@ + "/"@ + name
}

/// The first remote branch `<remote>/<name>`, if any.
pub open spec fn first_fitting(cands: Seq<RemoteCandidate>, name: Seq<char>) -> Option<int>
    decreases cands.len(),
{
    if cands.len() == 0 {
        None
    } else {
        match first_fitting(cands.drop_last(), name) {
            Some(i) => Some(i),
            None => if candidate_fits(cands.last(), name) {
                Some(cands.len() - 1)
            } else {
                None
            },
        }
    }
}

proof fn lemma_fitting_stays(cands: Seq<RemoteCandidate>, name: Seq<char>, k: int)
    requires
        0 <= k <= cands.len(),
        first_fitting(cands.take(k), name) is Some,
    ensures
        first_fitting(cands, name) == first_fitting(cands.take(k), name),
    decreases cands.len() - k,
{
    if k < cands.len() {
        assert(cands.take(k + 1).drop_last() =~= cands.take(k));
        lemma_fitting_stays(cands, name, k + 1);
    } else {
        assert(cands.take(k) =~= cands);
    }
}

/// The remote branch that a checkout of `name`, which is no local branch,
/// creates a tracking branch from (like `git switch <name>`, for any remote
/// name); without one the branch is not found.
pub fn tracking_source(cands: &[RemoteCandidate], name: &str) -> (r: Result<String, GitEngineError>)
    ensures
        match first_fitting(cands@, name@) {
            Some(i) => r matches Ok(s) && s@ == cands@[i].full@,
            None => r matches Err(GitEngineError::BranchNotFound(n)) && n@ == name@,
        },
{
    let mut i: usize = 0;
    assert(cands@.take(0) =~= Seq::<RemoteCandidate>::empty());
    while i < cands.len()
        invariant
            i <= cands@.len(),
            first_fitting(cands@.take(i as int), name@) is None,
        decreases cands@.len() - i,
    {
        assert(cands@.take(i + 1).drop_last() =~= cands@.take(i as int));
        assert(cands@.take(i + 1).last() == cands@[i as int]);
        let c = &cands[i];
        match &c.remote {
            Some(rem) => {
                let mut expected = rem.clone();
                push_str(&mut expected, "/");
                push_str(&mut expected, name);
                proof {
                    reveal_strlit("/");
                }
                let e = chars_of(expected.as_str());
                if chars_eq_str(e.as_slice(), c.full.as_str()) {
                    proof {
                        lemma_fitting_stays(cands@, name@, i + 1);
                    }
                    return Ok(c.full.clone());
                }
            },
            None => {},
        }
        i = i + 1;
    }
    assert(cands@.take(cands@.len() as int) =~= cands@);
    Err(GitEngineError::BranchNotFound(String::from_str(name)))
}

/// The percentage of a checkout: the share of completed steps, 0 while the
/// total is unknown, and never above 100.
pub fn checkout_percent(completed: usize, total: usize) -> (r: u8)
    requires
        completed * 100 <= usize::MAX,
    ensures
        r == (if total == 0 {
            0
        } else if (completed * 100) as int / total as int > 100 {
            100
        } else {
            (completed * 100) as int / total as int
        }),
{
    if total == 0 {
        return 0;
    }
    let p = completed * 100 / total;
    if p > 100 {
        100
    } else {
        p as u8
    }
}

// ---------------------------------------------------------------------------
// A checkout that would overwrite changes
// ---------------------------------------------------------------------------

/// Nobody reads more paths in a toast.
pub const MAX_LISTED_FILES: usize = 8;

/// `s` with `x` added at its place in order, unless it is there already.
pub open spec fn insert_distinct(s: Seq<Seq<char>>, x: Seq<char>) -> Seq<Seq<char>>
    decreases s.len(),
{
    if s.len() == 0 {
        seq![x]
    } else if s.last() == x {
        s
    } else if lex_le(s.last(), x) {
        s.push(x)
    } else {
        insert_distinct(s.drop_last(), x).push(s.last())
    }
}

/// The distinct elements of `s` in order (`sort` then `dedup`).
pub open spec fn sorted_distinct(s: Seq<Seq<char>>) -> Seq<Seq<char>>
    decreases s.len(),
{
    if s.len() == 0 {
        Seq::empty()
    } else {
        insert_distinct(sorted_distinct(s.drop_last()), s.last())
    }
}

/// The files named when a checkout would overwrite changes: each once, in
/// order, at most [`MAX_LISTED_FILES`] of them, and an ellipsis when there
/// are more.
pub open spec fn listed_files(files: Seq<Seq<char>>) -> Seq<Seq<char>> {
    let d = sorted_distinct(files);
    if d.len() > MAX_LISTED_FILES {
        d.take(MAX_LISTED_FILES as int).push("…"@)
    } else {
        d
    }
}

pub open spec fn strictly_sorted(s: Seq<Seq<char>>) -> bool {
    forall|i: int, j: int| 0 <= i < j < s.len() ==> lex_le(s[i], s[j]) && s[i] != s[j]
}

proof fn lemma_lex_antisym(a: Seq<char>, b: Seq<char>)
    requires
        lex_le(a, b),
        lex_le(b, a),
    ensures
        a == b,
    decreases a.len(),
{
    if a.len() > 0 && b.len() > 0 && a[0] == b[0] {
        lemma_lex_antisym(a.drop_first(), b.drop_first());
        assert(a =~= seq![a[0]] + a.drop_first());
        assert(b =~= seq![b[0]] + b.drop_first());
    }
}

spec fn all_below(s: Seq<Seq<char>>, key: Seq<char>) -> bool {
    forall|i: int| 0 <= i < s.len() ==> lex_le(#[trigger] s[i], key) && s[i] != key
}

proof fn lemma_insert_distinct_below(s: Seq<Seq<char>>, x: Seq<char>, key: Seq<char>)
    requires
        all_below(s, key),
        lex_le(x, key),
        x != key,
    ensures
        all_below(insert_distinct(s, x), key),
    decreases s.len(),
{
    if s.len() > 0 && s.last() != x && !lex_le(s.last(), x) {
        let t = s.drop_last();
        assert forall|i: int| 0 <= i < t.len() implies lex_le(#[trigger] t[i], key) && t[i] != key by {
            assert(t[i] == s[i]);
        }
        lemma_insert_distinct_below(t, x, key);
    }
}

proof fn lemma_insert_distinct(s: Seq<Seq<char>>, x: Seq<char>)
    requires
        strictly_sorted(s),
    ensures
        strictly_sorted(insert_distinct(s, x)),
        insert_distinct(s, x).to_set() == s.to_set().insert(x),
    decreases s.len(),
{
    if s.len() == 0 {
        assert(seq![x].to_set() =~= s.to_set().insert(x)) by {
            assert(seq![x][0] == x);
        }
    } else if s.last() == x {
        assert(s.to_set() =~= s.to_set().insert(x)) by {
            assert(s.contains(x));
        }
    } else if lex_le(s.last(), x) {
        let r = s.push(x);
        assert forall|i: int, j: int| 0 <= i < j < r.len() implies lex_le(r[i], r[j]) && r[i]
            != r[j] by {
            if j == s.len() && i < s.len() - 1 {
                lemma_lex_le_trans(s[i], s.last(), x);
                if s[i] == x {
                    lemma_lex_antisym(s[i], s.last());
                }
            }
        }
        assert(r.to_set() =~= s.to_set().insert(x)) by {
            assert forall|y: Seq<char>| r.contains(y) implies s.to_set().insert(x).contains(y) by {
                let k = choose|k: int| 0 <= k < r.len() && r[k] == y;
                if k < s.len() {
                    assert(s[k] == y);
                }
            }
            assert forall|y: Seq<char>| s.to_set().insert(x).contains(y) implies r.contains(y) by {
                if y == x {
                    assert(r[s.len() as int] == x);
                } else {
                    let k = choose|k: int| 0 <= k < s.len() && s[k] == y;
                    assert(r[k] == y);
                }
            }
        }
    } else {
        let t = s.drop_last();
        let l = s.last();
        assert forall|i: int, j: int| 0 <= i < j < t.len() implies lex_le(t[i], t[j]) && t[i]
            != t[j] by {
            assert(t[i] == s[i] && t[j] == s[j]);
        }
        lemma_insert_distinct(t, x);
        assert forall|i: int| 0 <= i < t.len() implies lex_le(#[trigger] t[i], l) && t[i] != l by {
            assert(t[i] == s[i]);
        }
        lemma_lex_le_total(l, x);
        lemma_insert_distinct_below(t, x, l);
        let m = insert_distinct(t, x);
        let r = m.push(l);
        assert forall|i: int, j: int| 0 <= i < j < r.len() implies lex_le(r[i], r[j]) && r[i]
            != r[j] by {
            if j < m.len() {
                assert(r[i] == m[i] && r[j] == m[j]);
            } else {
                assert(r[i] == m[i]);
            }
        }
        assert(r.to_set() =~= s.to_set().insert(x)) by {
            assert forall|y: Seq<char>| r.contains(y) implies s.to_set().insert(x).contains(y) by {
                let k = choose|k: int| 0 <= k < r.len() && r[k] == y;
                if k < m.len() {
                    assert(m[k] == y);
                    assert(m.to_set().contains(y));
                    if y != x {
                        let q = choose|q: int| 0 <= q < t.len() && t[q] == y;
                        assert(s[q] == y);
                    }
                } else {
                    assert(s[s.len() - 1] == y);
                }
            }
            assert forall|y: Seq<char>| s.to_set().insert(x).contains(y) implies r.contains(y) by {
                if y == l {
                    assert(r[m.len() as int] == l);
                } else {
                    assert(t.to_set().insert(x).contains(y)) by {
                        if y != x {
                            let k = choose|k: int| 0 <= k < s.len() && s[k] == y;
                            assert(k < t.len());
                            assert(t[k] == y);
                        }
                    }
                    assert(m.to_set().contains(y));
                    let k = choose|k: int| 0 <= k < m.len() && m[k] == y;
                    assert(r[k] == y);
                }
            }
        }
    }
}

/// The distinct files in order: strictly ordered, and exactly the files
/// given.
pub proof fn lemma_sorted_distinct(s: Seq<Seq<char>>)
    ensures
        strictly_sorted(sorted_distinct(s)),
        sorted_distinct(s).to_set() == s.to_set(),
    decreases s.len(),
{
    if s.len() == 0 {
        assert(s.to_set() =~= Set::<Seq<char>>::empty());
        assert(sorted_distinct(s).to_set() =~= Set::<Seq<char>>::empty());
    } else {
        lemma_sorted_distinct(s.drop_last());
        lemma_insert_distinct(sorted_distinct(s.drop_last()), s.last());
        assert(s.to_set() =~= s.drop_last().to_set().insert(s.last())) by {
            assert forall|y: Seq<char>| s.contains(y) implies s.drop_last().to_set().insert(
                s.last(),
            ).contains(y) by {
                let k = choose|k: int| 0 <= k < s.len() && s[k] == y;
                if k < s.len() - 1 {
                    assert(s.drop_last()[k] == y);
                }
            }
            assert forall|y: Seq<char>| s.drop_last().to_set().insert(s.last()).contains(
                y,
            ) implies s.contains(y) by {
                if y == s.last() {
                    assert(s[s.len() - 1] == y);
                } else {
                    let k = choose|k: int| 0 <= k < s.len() - 1 && s.drop_last()[k] == y;
                    assert(s[k] == y);
                }
            }
        }
    }
}

fn insert_distinct_sorted(v: &mut Vec<String>, x: String)
    ensures
        string_views(final(v)@) == insert_distinct(string_views(old(v)@), x@),
{
    let ghost s = string_views(v@);
    let key = chars_of(x.as_str());
    let mut j = v.len();
    loop
        invariant
            j <= v@.len(),
            s == string_views(v@),
            key@ == x@,
            forall|k: int| j <= k < s.len() ==> !lex_le(#[trigger] s[k], x@),
            forall|k: int| j <= k < s.len() ==> #[trigger] s[k] != x@,
        ensures
            j == 0 || (lex_le(s[j - 1], x@) && s[j - 1] != x@),
        decreases j,
    {
        if j == 0 {
            break;
        }
        let p = chars_of(v[j - 1].as_str());
        if chars_eq(p.as_slice(), key.as_slice()) {
            proof {
                lemma_insert_distinct_found(s, x@, j - 1);
            }
            return;
        }
        if chars_le(p.as_slice(), key.as_slice()) {
            break;
        }
        j = j - 1;
    }
    proof {
        lemma_insert_distinct_at(s, x@, j as int);
    }
    v.insert(j, x);
    assert(string_views(v@) =~= s.take(j as int).push(x@) + s.skip(j as int));
}

proof fn lemma_insert_distinct_found(s: Seq<Seq<char>>, x: Seq<char>, j: int)
    requires
        0 <= j < s.len(),
        s[j] == x,
        forall|k: int| j < k < s.len() ==> !lex_le(#[trigger] s[k], x),
        forall|k: int| j < k < s.len() ==> #[trigger] s[k] != x,
    ensures
        insert_distinct(s, x) == s,
    decreases s.len(),
{
    if j < s.len() - 1 {
        let t = s.drop_last();
        assert(s[s.len() - 1] != x);
        assert(!lex_le(s[s.len() - 1], x));
        assert forall|k: int| j < k < t.len() implies !lex_le(#[trigger] t[k], x) by {
            assert(t[k] == s[k]);
        }
        assert forall|k: int| j < k < t.len() implies #[trigger] t[k] != x by {
            assert(t[k] == s[k]);
        }
        lemma_insert_distinct_found(t, x, j);
        assert(t.push(s.last()) =~= s);
    }
}

proof fn lemma_insert_distinct_at(s: Seq<Seq<char>>, x: Seq<char>, j: int)
    requires
        0 <= j <= s.len(),
        forall|k: int| j <= k < s.len() ==> !lex_le(#[trigger] s[k], x),
        forall|k: int| j <= k < s.len() ==> #[trigger] s[k] != x,
        j == 0 || (lex_le(s[j - 1], x) && s[j - 1] != x),
    ensures
        insert_distinct(s, x) == s.take(j).push(x) + s.skip(j),
    decreases s.len(),
{
    if s.len() == 0 {
        assert(s.take(j).push(x) + s.skip(j) =~= seq![x]);
    } else if j == s.len() {
        assert(s.take(j).push(x) + s.skip(j) =~= s.push(x));
    } else {
        let t = s.drop_last();
        assert(!lex_le(s[s.len() - 1], x));
        assert(s[s.len() - 1] != x);
        assert forall|k: int| j <= k < t.len() implies !lex_le(#[trigger] t[k], x) by {
            assert(t[k] == s[k]);
        }
        assert forall|k: int| j <= k < t.len() implies #[trigger] t[k] != x by {
            assert(t[k] == s[k]);
        }
        if j > 0 {
            assert(t[j - 1] == s[j - 1]);
        }
        lemma_insert_distinct_at(t, x, j);
        assert((t.take(j).push(x) + t.skip(j)).push(s.last()) =~= s.take(j).push(x) + s.skip(j));
    }
}

/// The files named when a checkout would overwrite changes (see
/// [`listed_files`]).
pub fn overwritten_files(files: Vec<String>) -> (r: Vec<String>)
    ensures
        string_views(r@) == listed_files(string_views(files@)),
{
    let mut out: Vec<String> = Vec::new();
    let mut i: usize = 0;
    let ghost fv = string_views(files@);
    assert(fv.take(0) =~= Seq::<Seq<char>>::empty());
    assert(string_views(out@) =~= Seq::<Seq<char>>::empty());
    while i < files.len()
        invariant
            i <= files@.len(),
            fv == string_views(files@),
            string_views(out@) == sorted_distinct(fv.take(i as int)),
        decreases files@.len() - i,
    {
        assert(fv.take(i + 1).drop_last() =~= fv.take(i as int));
        assert(fv.take(i + 1).last() == files@[i as int]@);
        insert_distinct_sorted(&mut out, files[i].clone());
        i = i + 1;
    }
    assert(fv.take(files@.len() as int) =~= fv);
    if out.len() > MAX_LISTED_FILES {
        let ghost d = string_views(out@);
        out.truncate(MAX_LISTED_FILES);
        out.push(String::from_str("…"));
        assert(string_views(out@) =~= d.take(MAX_LISTED_FILES as int).push("…"@));
    }
    out
}

/// `git2::Error::class`: whether the error's class is `Checkout`. The class
/// comes from libgit2, so nothing is stated of it.
#[verifier::external_body]
fn is_checkout_class(e: &git2::Error) -> (r: bool) {
    e.class() == git2::ErrorClass::Checkout
}

/// `git2::Error::code`: whether the error's code is `Conflict`. The code
/// comes from libgit2, so nothing is stated of it.
#[verifier::external_body]
fn is_conflict_code(e: &git2::Error) -> (r: bool) {
    e.code() == git2::ErrorCode::Conflict
}

/// The error of a failed checkout, once it is known whether git reported
/// that the checkout would overwrite local changes (`conflict`): then the
/// blocking files are named (see [`listed_files`]); otherwise git's own error
/// is passed on unchanged.
pub fn checkout_error_for(conflict: bool, e: git2::Error, files: Vec<String>) -> (r: GitEngineError)
    ensures
        conflict <==> r is CheckoutWouldOverwrite,
        conflict ==> (r matches GitEngineError::CheckoutWouldOverwrite { files: f } && string_views(
            f@,
        ) == listed_files(string_views(files@))),
        !conflict ==> (r matches GitEngineError::Git(x) && x == e),
{
    if conflict {
        GitEngineError::CheckoutWouldOverwrite { files: overwritten_files(files) }
    } else {
        GitEngineError::Git(e)
    }
}

/// The error of a failed checkout: one that would overwrite local changes
/// (class `Checkout`, code `Conflict`: libgit2 then only says how many files)
/// names the blocking files (see [`checkout_error_for`]); any other is git's.
/// Whether the class and code are those comes from libgit2.
pub fn checkout_error(e: git2::Error, files: Vec<String>) -> (r: GitEngineError)
    ensures
        match r {
            GitEngineError::CheckoutWouldOverwrite { files: f } => string_views(f@) == listed_files(
                string_views(files@),
            ),
            GitEngineError::Git(x) => x == e,
            _ => false,
        },
{
    let conflict = is_checkout_class(&e) && is_conflict_code(&e);
    checkout_error_for(conflict, e, files)
}

// ---------------------------------------------------------------------------
// Push target and repository information
// ---------------------------------------------------------------------------

/// The remote a push goes to: the branch's upstream remote, otherwise the
/// only configured remote, otherwise `origin`.
pub open spec fn push_remote_model(upstream_remote: Option<Seq<char>>, remotes: Seq<Option<Seq<char>>>) -> Seq<
    char,
> {
    if upstream_remote matches Some(u) && u.len() > 0 {
        upstream_remote->0
    } else if remotes.len() == 1 && remotes[0] is Some {
        remotes[0]->0
    } else {
        "origin"@
    }
}

/// The remote a push goes to (see [`push_remote_model`]); `remotes` are the
/// configured remotes, a name that is no valid UTF-8 as `None`.
pub fn pick_push_remote(upstream_remote: Option<&str>, remotes: &[Option<String>]) -> (r: String)
    ensures
        r@ == push_remote_model(
            match upstream_remote {
                Some(u) => Some(u@),
                None => None,
            },
            Seq::new(remotes@.len(), |i: int| opt_string_view(remotes@[i])),
        ),
{
    match upstream_remote {
        Some(u) => {
            if chars_of(u).len() > 0 {
                return String::from_str(u);
            }
        },
        None => {},
    }
    if remotes.len() == 1 {
        match &remotes[0] {
            Some(only) => {
                return only.clone();
            },
            None => {},
        }
    }
    String::from_str("origin")
}

/// `s` without the path separators (`/`, `\`) at its end.
pub open spec fn trim_separators(s: Seq<char>) -> Seq<char>
    decreases s.len(),
{
    if s.len() > 0 && (s.last() == '/' || s.last() == '\\') {
        trim_separators(s.drop_last())
    } else {
        s
    }
}

/// The basic information of an opened repository: its workdir `path`
/// without trailing separators (git gives one), its display `name`, the
/// current branch (`head` is none for an unborn HEAD, else HEAD's short name
/// where it has one; detached, there is no branch), and whether the history
/// is prepared (an empty repository has nothing to prepare).
pub fn repo_info(path: &str, name: String, detached: bool, head: Option<Option<String>>, graph_ready: bool) -> (r:
    RepoInfo)
    ensures
        r.path@ == trim_separators(path@),
        r.name == name,
        r.current_branch == (match head {
            Some(Some(b)) => if detached {
                None
            } else {
                Some(b)
            },
            _ => None,
        }),
        r.head_detached == detached,
        r.is_empty == head is None,
        r.history_prepared == (head is None || graph_ready),
{
    let cs = chars_of(path);
    let s = cs.as_slice();
    let mut b: usize = s.len();
    assert(s@.take(s@.len() as int) =~= s@);
    while b > 0 && (s[b - 1] == '/' || s[b - 1] == '\\')
        invariant
            b <= s@.len(),
            trim_separators(s@) == trim_separators(s@.take(b as int)),
        decreases b,
    {
        assert(s@.take(b as int).drop_last() =~= s@.take(b - 1));
        b = b - 1;
    }
    let p = string_from_range(s, 0, b);
    let is_empty = head.is_none();
    let current_branch = match head {
        Some(Some(h)) => if detached {
            None
        } else {
            Some(h)
        },
        _ => None,
    };
    RepoInfo {
        path: p,
        name,
        current_branch,
        head_detached: detached,
        is_empty,
        history_prepared: is_empty || graph_ready,
    }
}

} // verus!
