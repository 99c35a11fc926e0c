//! Decisions around references: which name a branch argument goes to git
//! as, the checks before branches, tags and remotes are changed, the tag
//! list, and the command of a stash.

use vstd::prelude::*;

use crate::domain::TagInfo;
use crate::error::GitEngineError;
use crate::sidecar::{plain, str_views, GitCommand, CLONE_TIMEOUT_SECS};
use crate::status_fast::opt_string_view;
use crate::text::{chars_le, chars_of, lex_le, push_str, string_views, trim, trimmed};

verus! {

/// `r` is the refusal with message `m`.
pub open spec fn refused_as<T>(r: Result<T, GitEngineError>, m: Seq<char>) -> bool {
    r matches Err(GitEngineError::InvalidOperation(x)) && x@ == m
}

/// The reference a branch argument goes to git as: `refs/heads/<name>`
/// for an existing local branch (which can never look like an option);
/// any other name is taken as it is, unless it starts with `-`.
pub fn safe_ref(name: &str, is_local_branch: bool) -> (r: Result<String, GitEngineError>)
    ensures
        is_local_branch ==> (r matches Ok(s) && s@ == "refs/heads/"@ + name@),
        !is_local_branch && name@.len() > 0 && name@[0] == '-' ==> refused_as(
            r,
            "Invalid reference name: "@ + name@,
        ),
        !is_local_branch && !(name@.len() > 0 && name@[0] == '-') ==> (r matches Ok(s) && s@
            == name@),
{
    if is_local_branch {
        let mut s = String::from_str("refs/heads/");
        push_str(&mut s, name);
        return Ok(s);
    }
    let cs = chars_of(name);
    if cs.len() > 0 && cs[0] == '-' {
        let mut m = String::from_str("Invalid reference name: ");
        push_str(&mut m, name);
        return Err(GitEngineError::InvalidOperation(m));
    }
    Ok(String::from_str(name))
}

/// Whether libgit2 accepts `name` as a branch name.
pub uninterp spec fn git_branch_name_valid(name: Seq<char>) -> bool;

/// `git2::Branch::name_is_valid`; a name that cannot be handed to libgit2
/// (an inner NUL) counts as invalid.
#[verifier::external_body]
fn branch_name_ok(name: &str) -> (r: bool)
    ensures
        r == git_branch_name_valid(name@),
{
    match git2::Branch::name_is_valid(name) {
        Ok(v) => v,
        Err(_) => false,
    }
}

/// On an unborn HEAD a branch exists only as HEAD's symbolic target: a new
/// branch name (or the new name of that branch) must be valid, and HEAD is
/// then pointed at `refs/heads/<name>`.
pub fn unborn_head_target(name: &str) -> (r: Result<String, GitEngineError>)
    ensures
        git_branch_name_valid(name@) ==> (r matches Ok(s) && s@ == "refs/heads/"@ + name@),
        !git_branch_name_valid(name@) ==> refused_as(r, "Invalid branch name: "@ + name@),
{
    if !branch_name_ok(name) {
        let mut m = String::from_str("Invalid branch name: ");
        push_str(&mut m, name);
        return Err(GitEngineError::InvalidOperation(m));
    }
    let mut s = String::from_str("refs/heads/");
    push_str(&mut s, name);
    Ok(s)
}

/// Renaming a branch that is no local branch: possible only for the unborn
/// default branch, the symbolic target of an unborn HEAD (`head_target`);
/// then HEAD moves to the new name (see [`unborn_head_target`]).
pub fn rename_unborn(unborn: bool, head_target: Option<&str>, old: &str, new: &str) -> (r: Result<
    String,
    GitEngineError,
>)
    ensures
        (unborn && (head_target matches Some(t) && t@ == "refs/heads/"@ + old@)) ==> (if git_branch_name_valid(
            new@,
        ) {
            r matches Ok(s) && s@ == "refs/heads/"@ + new@
        } else {
            refused_as(r, "Invalid branch name: "@ + new@)
        }),
        !(unborn && (head_target matches Some(t) && t@ == "refs/heads/"@ + old@)) ==> (r matches Err(
            GitEngineError::BranchNotFound(n),
        ) && n@ == old@),
{
    let mut expected = String::from_str("refs/heads/");
    push_str(&mut expected, old);
    let is_target = match head_target {
        Some(t) => crate::text::chars_eq_str(chars_of(t).as_slice(), expected.as_str()),
        None => false,
    };
    if unborn && is_target {
        return unborn_head_target(new);
    }
    Err(GitEngineError::BranchNotFound(String::from_str(old)))
}

/// The checks before a local branch is deleted: not the current branch,
/// and (unless forced) merged into HEAD (`merged`, like `git branch -d`).
pub fn delete_branch_check(name: &str, is_head: bool, force: bool, merged: bool) -> (r: Result<
    (),
    GitEngineError,
>)
    ensures
        is_head ==> refused_as(r, "The current branch cannot be deleted"@),
        !is_head && !force && !merged ==> (r matches Err(GitEngineError::BranchNotMerged(n)) && n@
            == name@),
        !is_head && (force || merged) ==> r is Ok,
{
    if is_head {
        return Err(
            GitEngineError::InvalidOperation(String::from_str("The current branch cannot be deleted")),
        );
    }
    if !force && !merged {
        return Err(GitEngineError::BranchNotMerged(String::from_str(name)));
    }
    Ok(())
}

/// A remote is added (or renamed) only under a free name.
pub fn remote_name_free(name: &str, exists: bool) -> (r: Result<(), GitEngineError>)
    ensures
        exists ==> refused_as(r, "Remote \u{201c}"@ + name@ + "\u{201d} already exists"@),
        !exists ==> r is Ok,
{
    if exists {
        let mut m = String::from_str("Remote \u{201c}");
        push_str(&mut m, name);
        push_str(&mut m, "\u{201d} already exists");
        return Err(GitEngineError::InvalidOperation(m));
    }
    Ok(())
}

// ---------------------------------------------------------------------------
// Tags
// ---------------------------------------------------------------------------

/// What a tag is created on: HEAD when no target is named.
pub fn tag_target(target: &str) -> (r: &str)
    ensures
        target@.len() == 0 ==> r@ == "HEAD"@,
        target@.len() > 0 ==> r@ == target@,
{
    if chars_of(target).len() == 0 {
        "HEAD"
    } else {
        target
    }
}

/// A tag without a message is a lightweight tag.
pub fn tag_is_lightweight(message: &str) -> (r: bool)
    ensures
        r == (trim(message@).len() == 0),
{
    trimmed(chars_of(message).as_slice()).len() == 0
}

/// A tag as plain values.
pub struct TagModel {
    pub name: Seq<char>,
    pub target_id: Seq<char>,
    pub message: Option<Seq<char>>,
    pub is_annotated: bool,
}

pub open spec fn tag_view(t: TagInfo) -> TagModel {
    TagModel {
        name: t.name@,
        target_id: t.target_id@,
        message: opt_string_view(t.message),
        is_annotated: t.is_annotated,
    }
}

pub open spec fn tags_view(v: Seq<TagInfo>) -> Seq<TagModel> {
    Seq::new(v.len(), |i: int| tag_view(v[i]))
}

/// An annotated tag: its message trimmed.
pub fn annotated_tag(name: String, target_id: String, message: Option<&str>) -> (r: TagInfo)
    ensures
        r.name == name,
        r.target_id == target_id,
        r.is_annotated,
        opt_string_view(r.message) == match message {
            Some(m) => Some(trim(m@)),
            None => None::<Seq<char>>,
        },
{
    let message = match message {
        Some(m) => Some(crate::text::string_from(trimmed(chars_of(m).as_slice()).as_slice())),
        None => None,
    };
    TagInfo { name, target_id, message, is_annotated: true }
}

/// `s` with `x` inserted after every tag whose name is not smaller.
pub open spec fn insert_tag(s: Seq<TagModel>, x: TagModel) -> Seq<TagModel>
    decreases s.len(),
{
    if s.len() == 0 {
        seq![x]
    } else if lex_le(x.name, s.last().name) {
        s.push(x)
    } else {
        insert_tag(s.drop_last(), x).push(s.last())
    }
}

/// The tag list: by name, descending.
pub open spec fn tag_list_model(s: Seq<TagModel>) -> Seq<TagModel>
    decreases s.len(),
{
    if s.len() == 0 {
        Seq::empty()
    } else {
        insert_tag(tag_list_model(s.drop_last()), s.last())
    }
}

proof fn lemma_insert_tag_at(s: Seq<TagModel>, x: TagModel, j: int)
    requires
        0 <= j <= s.len(),
        forall|k: int| j <= k < s.len() ==> !lex_le(x.name, #[trigger] s[k].name),
        j == 0 || lex_le(x.name, s[j - 1].name),
    ensures
        insert_tag(s, x) == s.take(j).push(x) + s.skip(j),
    decreases s.len(),
{
    if s.len() == 0 {
        assert(s.take(j).push(x) + s.skip(j) =~= seq![x]);
    } else if j == s.len() {
        assert(s.take(j).push(x) + s.skip(j) =~= s.push(x));
    } else {
        let t = s.drop_last();
        assert(!lex_le(x.name, s[s.len() - 1].name));
        assert forall|k: int| j <= k < t.len() implies !lex_le(x.name, #[trigger] t[k].name) by {
            assert(t[k] == s[k]);
        }
        if j > 0 {
            assert(t[j - 1] == s[j - 1]);
        }
        lemma_insert_tag_at(t, x, j);
        assert((t.take(j).push(x) + t.skip(j)).push(s.last()) =~= s.take(j).push(x) + s.skip(j));
    }
}

/// The tags by name, descending (see [`tag_list_model`]).
pub fn sort_tags(tags: Vec<TagInfo>) -> (r: Vec<TagInfo>)
    ensures
        tags_view(r@) == tag_list_model(tags_view(tags@)),
{
    let ghost tv = tags_view(tags@);
    let mut rest = tags;
    let n = rest.len();
    let mut out: Vec<TagInfo> = Vec::new();
    let mut i: usize = 0;
    assert(tv.take(0) =~= Seq::<TagModel>::empty());
    assert(tags_view(out@) =~= Seq::<TagModel>::empty());
    let ghost orig = rest@;
    assert(rest@ =~= orig.skip(0));
    while i < n
        invariant
            i <= n,
            n == orig.len(),
            tv == tags_view(orig),
            rest@ == orig.skip(i as int),
            tags_view(out@) == tag_list_model(tv.take(i as int)),
        decreases n - i,
    {
        let x = rest.remove(0);
        assert(rest@ =~= orig.skip(i + 1));
        assert(x == orig[i as int]);
        assert(tv.take(i + 1).drop_last() =~= tv.take(i as int));
        assert(tv.take(i + 1).last() == tag_view(x));
        let ghost s = tags_view(out@);
        let ghost xv = tag_view(x);
        let key = chars_of(x.name.as_str());
        let mut j = out.len();
        loop
            invariant
                j <= out@.len(),
                s == tags_view(out@),
                xv == tag_view(x),
                key@ == x.name@,
                forall|k: int| j <= k < s.len() ==> !lex_le(xv.name, #[trigger] s[k].name),
            ensures
                j == 0 || lex_le(xv.name, s[j - 1].name),
            decreases j,
        {
            if j == 0 {
                break;
            }
            let p = chars_of(out[j - 1].name.as_str());
            if chars_le(key.as_slice(), p.as_slice()) {
                break;
            }
            j = j - 1;
        }
        proof {
            lemma_insert_tag_at(s, xv, j as int);
        }
        out.insert(j, x);
        assert(tags_view(out@) =~= s.take(j as int).push(xv) + s.skip(j as int));
        i = i + 1;
    }
    assert(tv.take(n as int) =~= tv);
    out
}

// ---------------------------------------------------------------------------
// Stash
// ---------------------------------------------------------------------------

/// The arguments of a stash: `stash push -u`, the message where there is
/// one, and the chosen files as literal pathspecs.
pub open spec fn stash_push_args(message: Seq<char>, files: Seq<Seq<char>>) -> Seq<Seq<char>> {
    let base = seq!["stash"@, "push"@, "-u"@];
    let with_msg = if trim(message).len() > 0 {
        base + seq!["-m"@, message]
    } else {
        base
    };
    if files.len() > 0 {
        with_msg + seq!["--"@] + Seq::new(files.len(), |i: int| ":(literal)"@ + files[i])
    } else {
        with_msg
    }
}

/// The command of a stash (see [`stash_push_args`]), with the generous
/// limit: a killed stash leaves the index lock behind.
pub fn stash_push_command(message: &str, files: &[String]) -> (r: GitCommand)
    ensures
        r.model() == plain(
            stash_push_args(message@, string_views(files@)),
            CLONE_TIMEOUT_SECS as nat,
            true,
        ),
{
    let mut args: Vec<String> = Vec::new();
    args.push(String::from_str("stash"));
    args.push(String::from_str("push"));
    args.push(String::from_str("-u"));
    if trimmed(chars_of(message).as_slice()).len() > 0 {
        args.push(String::from_str("-m"));
        args.push(String::from_str(message));
    }
    let ghost head = string_views(args@);
    if files.len() > 0 {
        args.push(String::from_str("--"));
        let ghost head2 = string_views(args@);
        let mut i: usize = 0;
        while i < files.len()
            invariant
                i <= files@.len(),
                head2 == head + seq!["--"@],
                string_views(args@) == head2 + Seq::new(
                    i as nat,
                    |k: int| ":(literal)"@ + files@[k]@,
                ),
            decreases files@.len() - i,
        {
            let ghost before = string_views(args@);
            let lit = crate::sidecar::literal_pathspec(files[i].as_str());
            let ghost lv = lit@;
            args.push(lit);
            assert(string_views(args@) =~= before.push(lv));
            let ghost f = |k: int| ":(literal)"@ + files@[k]@;
            assert(Seq::new((i + 1) as nat, f) =~= Seq::new(i as nat, f).push(lv));
            assert(string_views(args@) =~= head2 + Seq::new(
                (i + 1) as nat,
                |k: int| ":(literal)"@ + files@[k]@,
            ));
            i = i + 1;
        }
        assert(Seq::new(files@.len(), |k: int| ":(literal)"@ + files@[k]@) =~= Seq::new(
            string_views(files@).len(),
            |k: int| ":(literal)"@ + string_views(files@)[k],
        ));
    }
    assert(string_views(args@) =~= stash_push_args(message@, string_views(files@)));
    crate::sidecar::command(args, CLONE_TIMEOUT_SECS, true)
}

/// Tags come first by name, descending.
pub open spec fn tag_before() -> spec_fn(TagModel, TagModel) -> bool {
    |a: TagModel, b: TagModel| crate::text::lex_le(b.name, a.name)
}

proof fn lemma_insert_tag_is(s: Seq<TagModel>, x: TagModel)
    ensures
        insert_tag(s, x) == crate::order::insert_by(s, x, tag_before()),
    decreases s.len(),
{
    if s.len() > 0 {
        lemma_insert_tag_is(s.drop_last(), x);
    }
}

proof fn lemma_tag_list_is_sort(s: Seq<TagModel>)
    ensures
        tag_list_model(s) == crate::order::sort_by(s, tag_before()),
    decreases s.len(),
{
    if s.len() > 0 {
        lemma_tag_list_is_sort(s.drop_last());
        lemma_insert_tag_is(tag_list_model(s.drop_last()), s.last());
    }
}

/// The tag list is ordered by name, descending, and holds every tag read.
pub proof fn lemma_tags_by_name_descending(s: Seq<TagModel>)
    ensures
        crate::order::sorted_by(tag_list_model(s), tag_before()),
        tag_list_model(s).to_multiset() == s.to_multiset(),
{
    lemma_tag_list_is_sort(s);
    assert(crate::order::total_order(tag_before())) by {
        assert forall|a: TagModel, b: TagModel| #[trigger] tag_before()(a, b) || tag_before()(b, a) by {
            crate::text::lemma_lex_le_total(b.name, a.name);
        }
        assert forall|a: TagModel, b: TagModel, c: TagModel|
            #[trigger] tag_before()(a, b) && #[trigger] tag_before()(b, c) implies tag_before()(a, c) by {
            crate::text::lemma_lex_le_trans(c.name, b.name, a.name);
        }
    }
    crate::order::lemma_sort_by(s, tag_before());
}

} // verus!
