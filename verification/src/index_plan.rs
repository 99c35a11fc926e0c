//! What staging, unstaging and discarding files do to the index and the
//! worktree, decided from what was read about each file. A rename is one
//! status entry under its new path; its old path goes along with it, so
//! that no half of the rename stays behind.

use vstd::prelude::*;

use crate::text::{chars_eq_str, chars_of, string_views};

verus! {

/// One change of the index.
#[derive(Debug, PartialEq, Eq)]
pub enum IndexOp {
    /// Add the file from the worktree.
    Add(String),
    /// Remove the path from the index.
    Remove(String),
    /// Put HEAD's entry of the path back into the index, literally.
    FromHead(String),
}

/// An index change as plain values: 0 add, 1 remove, 2 from HEAD.
pub open spec fn op_view(o: IndexOp) -> (int, Seq<char>) {
    match o {
        IndexOp::Add(p) => (0, p@),
        IndexOp::Remove(p) => (1, p@),
        IndexOp::FromHead(p) => (2, p@),
    }
}

pub open spec fn ops_view(v: Seq<IndexOp>) -> Seq<(int, Seq<char>)> {
    Seq::new(v.len(), |i: int| op_view(v[i]))
}

/// The old path of the rename whose new path is `f`, if any (the last one
/// read wins).
pub open spec fn rename_of(renames: Seq<(String, String)>, f: Seq<char>) -> Option<Seq<char>>
    decreases renames.len(),
{
    if renames.len() == 0 {
        None
    } else if renames.last().0@ == f {
        Some(renames.last().1@)
    } else {
        rename_of(renames.drop_last(), f)
    }
}

fn find_rename(renames: &[(String, String)], f: &str) -> (r: Option<String>)
    ensures
        opt_view(r) == rename_of(renames@, f@),
{
    let mut k = renames.len();
    assert(renames@.take(k as int) =~= renames@);
    while k > 0
        invariant
            k <= renames@.len(),
            rename_of(renames@, f@) == rename_of(renames@.take(k as int), f@),
        decreases k,
    {
        assert(renames@.take(k as int).drop_last() =~= renames@.take(k - 1));
        assert(renames@.take(k as int).last() == renames@[k - 1]);
        if chars_eq_str(chars_of(renames[k - 1].0.as_str()).as_slice(), f) {
            return Some(renames[k - 1].1.clone());
        }
        k = k - 1;
    }
    None
}

pub open spec fn opt_view(o: Option<String>) -> Option<Seq<char>> {
    match o {
        Some(s) => Some(s@),
        None => None,
    }
}

// ---------------------------------------------------------------------------
// Stage
// ---------------------------------------------------------------------------

/// Staging one file: add it (remove it from the index when it no longer
/// exists), and remove the old path of its rename.
pub open spec fn stage_ops(f: Seq<char>, exists: bool, renames: Seq<(String, String)>) -> Seq<(int, Seq<char>)> {
    let first = seq![(if exists { 0int } else { 1int }, f)];
    match rename_of(renames, f) {
        Some(old) => first.push((1, old)),
        None => first,
    }
}

pub open spec fn stage_model(files: Seq<(String, bool)>, renames: Seq<(String, String)>) -> Seq<(int, Seq<char>)>
    decreases files.len(),
{
    if files.len() == 0 {
        Seq::empty()
    } else {
        stage_model(files.drop_last(), renames) + stage_ops(files.last().0@, files.last().1, renames)
    }
}

/// The index changes of staging `files` (path, whether it exists in the
/// worktree), see [`stage_ops`].
pub fn stage_plan(files: &[(String, bool)], renames: &[(String, String)]) -> (r: Vec<IndexOp>)
    ensures
        ops_view(r@) == stage_model(files@, renames@),
{
    let mut out: Vec<IndexOp> = Vec::new();
    let mut i: usize = 0;
    assert(files@.take(0) =~= Seq::<(String, bool)>::empty());
    assert(ops_view(out@) =~= Seq::<(int, Seq<char>)>::empty());
    while i < files.len()
        invariant
            i <= files@.len(),
            ops_view(out@) == stage_model(files@.take(i as int), renames@),
        decreases files@.len() - i,
    {
        assert(files@.take(i + 1).drop_last() =~= files@.take(i as int));
        assert(files@.take(i + 1).last() == files@[i as int]);
        let ghost before = ops_view(out@);
        let f = &files[i].0;
        if files[i].1 {
            out.push(IndexOp::Add(f.clone()));
        } else {
            out.push(IndexOp::Remove(f.clone()));
        }
        match find_rename(renames, f.as_str()) {
            Some(old) => {
                out.push(IndexOp::Remove(old));
            },
            None => {},
        }
        assert(ops_view(out@) =~= before + stage_ops(f@, files@[i as int].1, renames@));
        i = i + 1;
    }
    assert(files@.take(files@.len() as int) =~= files@);
    out
}

// ---------------------------------------------------------------------------
// Unstage
// ---------------------------------------------------------------------------

/// Unstaging one file with a commit at HEAD: HEAD's entry back (or the path
/// removed when HEAD does not have it), and for a rename HEAD's entry of
/// the old path back too, where HEAD has it.
pub open spec fn unstage_ops(
    f: Seq<char>,
    in_head: bool,
    renames: Seq<(String, String)>,
    old_in_head: Seq<Seq<char>>,
) -> Seq<(int, Seq<char>)> {
    let first = seq![(if in_head { 2int } else { 1int }, f)];
    match rename_of(renames, f) {
        Some(old) => if old_in_head.contains(old) {
            first.push((2, old))
        } else {
            first
        },
        None => first,
    }
}

pub open spec fn unstage_model(
    files: Seq<(String, bool)>,
    renames: Seq<(String, String)>,
    old_in_head: Seq<Seq<char>>,
) -> Seq<(int, Seq<char>)>
    decreases files.len(),
{
    if files.len() == 0 {
        Seq::empty()
    } else {
        unstage_model(files.drop_last(), renames, old_in_head) + unstage_ops(
            files.last().0@,
            files.last().1,
            renames,
            old_in_head,
        )
    }
}

fn in_list(v: &[String], s: &str) -> (r: bool)
    ensures
        r == string_views(v@).contains(s@),
{
    let mut i: usize = 0;
    while i < v.len()
        invariant
            i <= v@.len(),
            forall|j: int| 0 <= j < i ==> v@[j]@ != s@,
        decreases v@.len() - i,
    {
        if chars_eq_str(chars_of(v[i].as_str()).as_slice(), s) {
            assert(string_views(v@)[i as int] == s@);
            return true;
        }
        i = i + 1;
    }
    proof {
        if string_views(v@).contains(s@) {
            let j = choose|j: int| 0 <= j < string_views(v@).len() && string_views(v@)[j] == s@;
            assert(v@[j]@ == s@);
        }
    }
    false
}

/// The index changes of unstaging `files` (path, whether HEAD has it) with
/// a commit at HEAD; `old_in_head` are the old paths of renames that HEAD
/// has (see [`unstage_ops`]).
pub fn unstage_plan(files: &[(String, bool)], renames: &[(String, String)], old_in_head: &[String]) -> (r:
    Vec<IndexOp>)
    ensures
        ops_view(r@) == unstage_model(files@, renames@, string_views(old_in_head@)),
{
    let mut out: Vec<IndexOp> = Vec::new();
    let mut i: usize = 0;
    assert(files@.take(0) =~= Seq::<(String, bool)>::empty());
    assert(ops_view(out@) =~= Seq::<(int, Seq<char>)>::empty());
    while i < files.len()
        invariant
            i <= files@.len(),
            ops_view(out@) == unstage_model(files@.take(i as int), renames@, string_views(old_in_head@)),
        decreases files@.len() - i,
    {
        assert(files@.take(i + 1).drop_last() =~= files@.take(i as int));
        assert(files@.take(i + 1).last() == files@[i as int]);
        let ghost before = ops_view(out@);
        let f = &files[i].0;
        if files[i].1 {
            out.push(IndexOp::FromHead(f.clone()));
        } else {
            out.push(IndexOp::Remove(f.clone()));
        }
        match find_rename(renames, f.as_str()) {
            Some(old) => {
                if in_list(old_in_head, old.as_str()) {
                    out.push(IndexOp::FromHead(old));
                }
            },
            None => {},
        }
        assert(ops_view(out@) =~= before + unstage_ops(
            f@,
            files@[i as int].1,
            renames@,
            string_views(old_in_head@),
        ));
        i = i + 1;
    }
    assert(files@.take(files@.len() as int) =~= files@);
    out
}

/// Unstaging without a commit at HEAD: every path leaves the index.
pub fn unstage_unborn_plan(files: &[String]) -> (r: Vec<IndexOp>)
    ensures
        ops_view(r@) == Seq::new(files@.len(), |i: int| (1int, files@[i]@)),
{
    let mut out: Vec<IndexOp> = Vec::new();
    let mut i: usize = 0;
    while i < files.len()
        invariant
            i <= files@.len(),
            out@.len() == i,
            ops_view(out@) == Seq::new(i as nat, |k: int| (1int, files@[k]@)),
        decreases files@.len() - i,
    {
        let ghost before = ops_view(out@);
        let ghost old_out = out@;
        let f = files[i].clone();
        assert(f@ == files@[i as int]@);
        let ghost gf = f;
        out.push(IndexOp::Remove(f));
        assert(out@[i as int] == IndexOp::Remove(gf));
        assert(ops_view(out@)[i as int] == (1int, files@[i as int]@));
        assert forall|k: int| 0 <= k < i implies ops_view(out@)[k] == before[k] by {
            assert(out@[k] == old_out[k]);
        }
        assert forall|k: int| 0 <= k < i + 1 implies ops_view(out@)[k] == (1int, files@[k]@) by {
            if k < i {
                assert(before[k] == Seq::new(i as nat, |q: int| (1int, files@[q]@))[k]);
            }
        }
        assert(ops_view(out@) =~= Seq::new((i + 1) as nat, |k: int| (1int, files@[k]@)));
        i = i + 1;
    }
    out
}

// ---------------------------------------------------------------------------
// Discard
// ---------------------------------------------------------------------------

/// Discarding one file: an untracked file is deleted (and the old path of
/// its rename restored from the index, else the file would be gone
/// entirely); a tracked one is restored from the index.
pub open spec fn discard_step(
    acc: (Seq<Seq<char>>, Seq<Seq<char>>),
    f: Seq<char>,
    untracked: bool,
    renames: Seq<(String, String)>,
) -> (Seq<Seq<char>>, Seq<Seq<char>>) {
    if untracked {
        (
            acc.0.push(f),
            match rename_of(renames, f) {
                Some(old) => acc.1.push(old),
                None => acc.1,
            },
        )
    } else {
        (acc.0, acc.1.push(f))
    }
}

pub open spec fn discard_model(files: Seq<(String, bool)>, renames: Seq<(String, String)>) -> (
    Seq<Seq<char>>,
    Seq<Seq<char>>,
)
    decreases files.len(),
{
    if files.len() == 0 {
        (Seq::empty(), Seq::empty())
    } else {
        discard_step(discard_model(files.drop_last(), renames), files.last().0@, files.last().1, renames)
    }
}

/// What discarding `files` (path, whether it is untracked) does: the files
/// to delete and the paths to restore from the index (see
/// [`discard_step`]).
pub fn discard_plan(files: &[(String, bool)], renames: &[(String, String)]) -> (r: (Vec<String>, Vec<String>))
    ensures
        (string_views(r.0@), string_views(r.1@)) == discard_model(files@, renames@),
{
    let mut delete: Vec<String> = Vec::new();
    let mut restore: Vec<String> = Vec::new();
    let mut i: usize = 0;
    assert(files@.take(0) =~= Seq::<(String, bool)>::empty());
    assert(string_views(delete@) =~= Seq::<Seq<char>>::empty());
    assert(string_views(restore@) =~= Seq::<Seq<char>>::empty());
    while i < files.len()
        invariant
            i <= files@.len(),
            (string_views(delete@), string_views(restore@)) == discard_model(
                files@.take(i as int),
                renames@,
            ),
        decreases files@.len() - i,
    {
        assert(files@.take(i + 1).drop_last() =~= files@.take(i as int));
        assert(files@.take(i + 1).last() == files@[i as int]);
        let ghost d0 = string_views(delete@);
        let ghost r0 = string_views(restore@);
        let f = &files[i].0;
        if files[i].1 {
            delete.push(f.clone());
            assert(string_views(delete@) =~= d0.push(f@));
            match find_rename(renames, f.as_str()) {
                Some(old) => {
                    restore.push(old);
                    assert(string_views(restore@) =~= r0.push(restore@.last()@));
                },
                None => {
                    assert(string_views(restore@) =~= r0);
                },
            }
        } else {
            restore.push(f.clone());
            assert(string_views(restore@) =~= r0.push(f@));
            assert(string_views(delete@) =~= d0);
        }
        i = i + 1;
    }
    assert(files@.take(files@.len() as int) =~= files@);
    (delete, restore)
}

} // verus!
