//! The status through libgit2: turning the flags of each status entry into
//! the staged and unstaged lists, and the "ahead" shown on a branch without
//! an upstream.
//!
//! A conflicted entry is listed once, as unstaged. Otherwise an entry with a
//! change in the index is listed as staged, one with a change in the worktree
//! as unstaged (an entry may be both). Both lists are sorted by path, entries
//! with equal paths in the order libgit2 reported them.

use vstd::prelude::*;

use crate::domain::{ChangeKind, RepoOpState, RepoStatus, StatusEntry};
use crate::status_fast::{
    insert_by_path, lemma_insert_at, lemma_sort_by_path, opt_string_view, sort_by_path, sorted_by_path, status_entries_view,
    status_entry_view, EntryModel,
};
use crate::text::{chars_le, chars_of, lex_le};

verus! {

/// The status flags of one entry, as libgit2 reports them.
pub struct StatusFlags {
    pub conflicted: bool,
    pub index_new: bool,
    pub index_modified: bool,
    pub index_deleted: bool,
    pub index_renamed: bool,
    pub index_typechange: bool,
    pub wt_new: bool,
    pub wt_modified: bool,
    pub wt_deleted: bool,
    pub wt_renamed: bool,
    pub wt_typechange: bool,
}

/// The paths of one side of an entry: the new path, and the old one on a
/// rename.
pub struct SidePaths {
    pub path: String,
    pub orig_path: Option<String>,
}

/// One entry of libgit2's status list: its flags, its path, and the paths
/// of its index side (HEAD to index) and worktree side (index to worktree),
/// where libgit2 has them.
pub struct RawStatus {
    pub flags: StatusFlags,
    pub path: String,
    pub head_to_index: Option<SidePaths>,
    pub index_to_workdir: Option<SidePaths>,
}

/// The kind of the staged entry, if the index side changed.
pub open spec fn staged_kind_flags(f: StatusFlags) -> Option<ChangeKind> {
    if !(f.index_new || f.index_modified || f.index_deleted || f.index_renamed
        || f.index_typechange) {
        None
    } else if f.index_new {
        Some(ChangeKind::Added)
    } else if f.index_renamed {
        Some(ChangeKind::Renamed)
    } else if f.index_deleted {
        Some(ChangeKind::Deleted)
    } else if f.index_typechange {
        Some(ChangeKind::Typechange)
    } else {
        Some(ChangeKind::Modified)
    }
}

/// The kind of the unstaged entry, if the worktree side changed.
pub open spec fn unstaged_kind_flags(f: StatusFlags) -> Option<ChangeKind> {
    if !(f.wt_new || f.wt_modified || f.wt_deleted || f.wt_renamed || f.wt_typechange) {
        None
    } else if f.wt_new {
        Some(ChangeKind::Untracked)
    } else if f.wt_renamed {
        Some(ChangeKind::Renamed)
    } else if f.wt_deleted {
        Some(ChangeKind::Deleted)
    } else if f.wt_typechange {
        Some(ChangeKind::Typechange)
    } else {
        Some(ChangeKind::Modified)
    }
}

/// The entry of one side: its own paths where libgit2 has them, the entry's
/// path otherwise.
pub open spec fn side_entry(side: Option<SidePaths>, path: String, kind: ChangeKind) -> EntryModel {
    match side {
        Some(p) => EntryModel { path: p.path@, orig: opt_string_view(p.orig_path), kind },
        None => EntryModel { path: path@, orig: None, kind },
    }
}

/// The staged and unstaged entries of `raws`, in the order read.
pub open spec fn booked(raws: Seq<RawStatus>) -> (Seq<EntryModel>, Seq<EntryModel>)
    decreases raws.len(),
{
    if raws.len() == 0 {
        (Seq::empty(), Seq::empty())
    } else {
        let (s, u) = booked(raws.drop_last());
        let r = raws.last();
        if r.flags.conflicted {
            (s, u.push(EntryModel { path: r.path@, orig: None, kind: ChangeKind::Conflicted }))
        } else {
            (
                match staged_kind_flags(r.flags) {
                    Some(k) => s.push(side_entry(r.head_to_index, r.path, k)),
                    None => s,
                },
                match unstaged_kind_flags(r.flags) {
                    Some(k) => u.push(side_entry(r.index_to_workdir, r.path, k)),
                    None => u,
                },
            )
        }
    }
}

fn staged_kind_of_flags(f: &StatusFlags) -> (r: Option<ChangeKind>)
    ensures
        r == staged_kind_flags(*f),
{
    if !(f.index_new || f.index_modified || f.index_deleted || f.index_renamed
        || f.index_typechange) {
        None
    } else if f.index_new {
        Some(ChangeKind::Added)
    } else if f.index_renamed {
        Some(ChangeKind::Renamed)
    } else if f.index_deleted {
        Some(ChangeKind::Deleted)
    } else if f.index_typechange {
        Some(ChangeKind::Typechange)
    } else {
        Some(ChangeKind::Modified)
    }
}

fn unstaged_kind_of_flags(f: &StatusFlags) -> (r: Option<ChangeKind>)
    ensures
        r == unstaged_kind_flags(*f),
{
    if !(f.wt_new || f.wt_modified || f.wt_deleted || f.wt_renamed || f.wt_typechange) {
        None
    } else if f.wt_new {
        Some(ChangeKind::Untracked)
    } else if f.wt_renamed {
        Some(ChangeKind::Renamed)
    } else if f.wt_deleted {
        Some(ChangeKind::Deleted)
    } else if f.wt_typechange {
        Some(ChangeKind::Typechange)
    } else {
        Some(ChangeKind::Modified)
    }
}

fn side_status_entry(side: &Option<SidePaths>, path: &String, kind: ChangeKind) -> (r: StatusEntry)
    ensures
        status_entry_view(r) == side_entry(*side, *path, kind),
{
    match side {
        Some(p) => StatusEntry { path: p.path.clone(), orig_path: p.orig_path.clone(), kind },
        None => StatusEntry { path: path.clone(), orig_path: None, kind },
    }
}

/// Inserts `e` into the path-sorted `v` after every entry whose path is not
/// greater.
fn insert_entry_sorted(v: &mut Vec<StatusEntry>, e: StatusEntry)
    ensures
        status_entries_view(final(v)@) == insert_by_path(
            status_entries_view(old(v)@),
            status_entry_view(e),
        ),
{
    let ghost s = status_entries_view(v@);
    let ghost ee = status_entry_view(e);
    let key = chars_of(e.path.as_str());
    let mut j = v.len();
    loop
        invariant
            j <= v@.len(),
            s == status_entries_view(v@),
            ee == status_entry_view(e),
            key@ == e.path@,
            forall|k: int| j <= k < s.len() ==> !lex_le(#[trigger] s[k].path, ee.path),
        ensures
            j == 0 || lex_le(s[j - 1].path, ee.path),
        decreases j,
    {
        if j == 0 {
            break;
        }
        let p = chars_of(v[j - 1].path.as_str());
        if chars_le(p.as_slice(), key.as_slice()) {
            break;
        }
        j = j - 1;
    }
    proof {
        lemma_insert_at(s, ee, j as int);
    }
    v.insert(j, e);
    assert(status_entries_view(v@) =~= s.take(j as int).push(ee) + s.skip(j as int));
}

/// The status from libgit2's entries and the branch information read next
/// to them: both lists are the booked entries sorted by path (see
/// [`booked`]).
pub fn status_from_entries(
    raws: &[RawStatus],
    branch: Option<String>,
    upstream: Option<String>,
    ahead: usize,
    behind: usize,
    op_state: RepoOpState,
) -> (r: RepoStatus)
    ensures
        status_entries_view(r.staged@) == sort_by_path(booked(raws@).0),
        status_entries_view(r.unstaged@) == sort_by_path(booked(raws@).1),
        r.branch == branch,
        r.upstream == upstream,
        r.ahead == ahead,
        r.behind == behind,
        r.op_state == op_state,
{
    let mut staged: Vec<StatusEntry> = Vec::new();
    let mut unstaged: Vec<StatusEntry> = Vec::new();
    let mut i: usize = 0;
    assert(raws@.take(0) =~= Seq::<RawStatus>::empty());
    assert(status_entries_view(staged@) =~= Seq::<EntryModel>::empty());
    assert(status_entries_view(unstaged@) =~= Seq::<EntryModel>::empty());
    while i < raws.len()
        invariant
            i <= raws@.len(),
            status_entries_view(staged@) == sort_by_path(booked(raws@.take(i as int)).0),
            status_entries_view(unstaged@) == sort_by_path(booked(raws@.take(i as int)).1),
        decreases raws@.len() - i,
    {
        let ghost prev = booked(raws@.take(i as int));
        assert(raws@.take(i + 1).drop_last() =~= raws@.take(i as int));
        assert(raws@.take(i + 1).last() == raws@[i as int]);
        let r = &raws[i];
        if r.flags.conflicted {
            let e = StatusEntry { path: r.path.clone(), orig_path: None, kind: ChangeKind::Conflicted };
            insert_entry_sorted(&mut unstaged, e);
            assert(prev.1.push(status_entry_view(e)).drop_last() =~= prev.1);
        } else {
            match staged_kind_of_flags(&r.flags) {
                Some(k) => {
                    let e = side_status_entry(&r.head_to_index, &r.path, k);
                    insert_entry_sorted(&mut staged, e);
                    assert(prev.0.push(status_entry_view(e)).drop_last() =~= prev.0);
                },
                None => {},
            }
            match unstaged_kind_of_flags(&r.flags) {
                Some(k) => {
                    let e = side_status_entry(&r.index_to_workdir, &r.path, k);
                    insert_entry_sorted(&mut unstaged, e);
                    assert(prev.1.push(status_entry_view(e)).drop_last() =~= prev.1);
                },
                None => {},
            }
        }
        i = i + 1;
    }
    assert(raws@.take(raws@.len() as int) =~= raws@);
    RepoStatus { staged, unstaged, branch, upstream, ahead, behind, op_state }
}

/// On a branch without an upstream, ahead-of-upstream means nothing: the
/// status shows the commits that no remote-tracking branch has instead
/// (what a first push would publish), where they were counted.
pub fn with_unpushed(st: RepoStatus, unpushed: Option<usize>) -> (r: RepoStatus)
    ensures
        r.staged == st.staged,
        r.unstaged == st.unstaged,
        r.branch == st.branch,
        r.upstream == st.upstream,
        r.behind == st.behind,
        r.op_state == st.op_state,
        r.ahead == (if st.branch is Some && st.upstream is None && unpushed is Some {
            unpushed->0
        } else {
            st.ahead
        }),
{
    let mut st = st;
    if st.branch.is_some() && st.upstream.is_none() {
        match unpushed {
            Some(n) => {
                st.ahead = n;
            },
            None => {},
        }
    }
    st
}

/// Both lists of the libgit2 status come out ordered by path, and each
/// holds exactly the entries booked from libgit2's list.
pub proof fn lemma_git2_lists_sorted(raws: Seq<RawStatus>)
    ensures
        sorted_by_path(sort_by_path(booked(raws).0)),
        sorted_by_path(sort_by_path(booked(raws).1)),
        sort_by_path(booked(raws).0).to_multiset() == booked(raws).0.to_multiset(),
        sort_by_path(booked(raws).1).to_multiset() == booked(raws).1.to_multiset(),
{
    lemma_sort_by_path(booked(raws).0);
    lemma_sort_by_path(booked(raws).1);
}

} // verus!
