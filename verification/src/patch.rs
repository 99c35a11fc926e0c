//! Hunk and line staging: splitting a `git diff` patch into its head and
//! hunks, and building a partial hunk from selected lines.

use vstd::prelude::*;

use crate::error::GitEngineError;
use crate::sidecar::{literal_pathspec, str_views, GitCommand, CommandModel, plain, run_git_raw, SIDECAR_TIMEOUT_SECS};
use crate::text::{
    chars_of, decimal, find_from, first_occurrence_from, first_where, has_infix, has_prefix,
    lines_incl, occurs_at, parse_unsigned, split_inclusive, string_from, string_views,
    strip_prefix_str, trim_end, trim_end_len, u64_to_string, unsigned_value, vec_from_range, views,
    push_str, lemma_first_where, lemma_views_push, lemma_views_empty,
};

verus! {

// ---------------------------------------------------------------------------
// Splitting a patch
// ---------------------------------------------------------------------------

/// Head (up to the first line starting with `@@`) and hunks of the patch
/// lines `ls`; a hunk runs from its `@@` line to the next one.
pub open spec fn split_patch_model(ls: Seq<Seq<char>>) -> (Seq<char>, Seq<Seq<char>>)
    decreases ls.len(),
{
    if ls.len() == 0 {
        (Seq::empty(), Seq::empty())
    } else {
        let prev = split_patch_model(ls.drop_last());
        let l = ls.last();
        if has_prefix(l, "@@"@) {
            (prev.0, prev.1.push(l))
        } else if prev.1.len() > 0 {
            (prev.0, prev.1.update(prev.1.len() - 1, prev.1.last() + l))
        } else {
            (prev.0 + l, prev.1)
        }
    }
}

fn split_patch_chars(patch: &[char]) -> (r: (Vec<char>, Vec<Vec<char>>))
    ensures
        (r.0@, views(r.1@)) == split_patch_model(lines_incl(patch@)),
{
    let ls = split_inclusive(patch);
    let ghost lv = views(ls@);
    let mut header: Vec<char> = Vec::new();
    let mut hunks: Vec<Vec<char>> = Vec::new();
    let mut i: usize = 0;
    proof {
        lemma_views_empty(hunks@);
        assert(lv.take(0) =~= Seq::<Seq<char>>::empty());
    }
    while i < ls.len()
        invariant
            i <= ls@.len(),
            lv == views(ls@),
            (header@, views(hunks@)) == split_patch_model(lv.take(i as int)),
        decreases ls@.len() - i,
    {
        let l = ls[i].as_slice();
        assert(lv.take(i + 1).drop_last() =~= lv.take(i as int));
        assert(lv.take(i + 1).last() == l@);
        let ghost prev = views(hunks@);
        if l.len() >= 2 && l[0] == '@' && l[1] == '@' {
            proof {
                reveal_strlit("@@");
                assert("@@"@ =~= seq!['@', '@']);
                assert(l@.subrange(0, 2) =~= "@@"@);
            }
            let c = vec_from_range(l, 0, l.len());
            hunks.push(c);
            proof {
                assert(c@ =~= l@);
                lemma_views_push(hunks@.drop_last(), c);
                assert(hunks@.drop_last() =~= hunks@.subrange(0, hunks@.len() - 1));
            }
            assert(views(hunks@) =~= prev.push(l@));
        } else {
            proof {
                reveal_strlit("@@");
                assert("@@"@ =~= seq!['@', '@']);
                if has_prefix(l@, "@@"@) {
                    assert(l@.subrange(0, 2)[0] == l@[0]);
                    assert(l@.subrange(0, 2)[1] == l@[1]);
                }
            }
            if hunks.len() > 0 {
                let mut last = hunks.pop().unwrap();
                let ghost before = last@;
                let mut k: usize = 0;
                while k < l.len()
                    invariant
                        k <= l@.len(),
                        last@ == before + l@.take(k as int),
                    decreases l@.len() - k,
                {
                    last.push(l[k]);
                    k = k + 1;
                    assert(last@ =~= before + l@.take(k as int));
                }
                assert(l@.take(l@.len() as int) =~= l@);
                hunks.push(last);
                assert(views(hunks@) =~= prev.update(prev.len() - 1, prev.last() + l@));
            } else {
                let ghost before = header@;
                let mut k: usize = 0;
                while k < l.len()
                    invariant
                        k <= l@.len(),
                        header@ == before + l@.take(k as int),
                    decreases l@.len() - k,
                {
                    header.push(l[k]);
                    k = k + 1;
                    assert(header@ =~= before + l@.take(k as int));
                }
                assert(l@.take(l@.len() as int) =~= l@);
            }
        }
        i = i + 1;
    }
    assert(lv.take(ls@.len() as int) =~= lv);
    (header, hunks)
}

fn strings_of(v: &Vec<Vec<char>>) -> (r: Vec<String>)
    ensures
        string_views(r@) == views(v@),
{
    let mut r: Vec<String> = Vec::new();
    let mut i: usize = 0;
    while i < v.len()
        invariant
            i <= v@.len(),
            string_views(r@) == views(v@).take(i as int),
        decreases v@.len() - i,
    {
        let ghost old = r@;
        let s = string_from(v[i].as_slice());
        r.push(s);
        assert(string_views(r@) =~= string_views(old).push(v@[i as int]@));
        assert(views(v@).take(i + 1) =~= views(v@).take(i as int).push(v@[i as int]@));
        i = i + 1;
    }
    assert(views(v@).take(v@.len() as int) =~= views(v@));
    r
}

/// Splits a `git diff` patch into its head (up to the first `@@` line) and
/// its hunks, each line keeping its line ending.
pub fn split_patch(patch: &str) -> (r: (String, Vec<String>))
    ensures
        (r.0@, string_views(r.1@)) == split_patch_model(lines_incl(patch@)),
{
    let cs = chars_of(patch);
    let (h, hs) = split_patch_chars(cs.as_slice());
    (string_from(h.as_slice()), strings_of(&hs))
}

/// The head and the hunk `hunk_index` of a patch, or an error when there is
/// no such hunk.
pub fn select_hunk(patch: &str, hunk_index: usize) -> (r: Result<(String, String), GitEngineError>)
    ensures
        ({
            let m = split_patch_model(lines_incl(patch@));
            if hunk_index < m.1.len() {
                r matches Ok((h, k)) && h@ == m.0 && k@ == m.1[hunk_index as int]
            } else {
                r matches Err(GitEngineError::InvalidOperation(msg)) && msg@ == "Hunk "@
                    + decimal(hunk_index as nat) + " does not exist"@
            }
        }),
{
    let (header, hunks) = split_patch(patch);
    if hunk_index < hunks.len() {
        let h = hunks[hunk_index].clone();
        Ok((header, h))
    } else {
        let mut m = String::from_str("Hunk ");
        let n = u64_to_string(hunk_index as u64);
        push_str(&mut m, n.as_str());
        push_str(&mut m, " does not exist");
        Err(GitEngineError::InvalidOperation(m))
    }
}

/// The patch of one file against the index (`staged`: the index against
/// `HEAD`), raw (its trailing newline matters to `git apply`). Every setting
/// that would change the format or the hunk boundaries against the library's
/// display diff is neutralized, and the path is literal.
pub fn file_patch(file: &str, staged: bool) -> (r: GitCommand)
    ensures
        r.model() == plain(
            seq![
                "-c"@,
                "diff.noprefix=false"@,
                "-c"@,
                "diff.mnemonicPrefix=false"@,
                "-c"@,
                "diff.external="@,
                "-c"@,
                "diff.algorithm=myers"@,
                "-c"@,
                "diff.indentHeuristic=false"@,
                "-c"@,
                "diff.interHunkContext=0"@,
                "diff"@,
                "--no-color"@,
                "--no-ext-diff"@,
                "--no-textconv"@,
                "-U3"@,
            ] + (if staged {
                seq!["--cached"@]
            } else {
                Seq::empty()
            }) + seq!["--"@, ":(literal)"@ + file@],
            SIDECAR_TIMEOUT_SECS as nat,
            false,
        ),
{
    let literal = literal_pathspec(file);
    let ls = literal.as_str();
    if staged {
        let a = [
            "-c",
            "diff.noprefix=false",
            "-c",
            "diff.mnemonicPrefix=false",
            "-c",
            "diff.external=",
            "-c",
            "diff.algorithm=myers",
            "-c",
            "diff.indentHeuristic=false",
            "-c",
            "diff.interHunkContext=0",
            "diff",
            "--no-color",
            "--no-ext-diff",
            "--no-textconv",
            "-U3",
            "--cached",
            "--",
            ls,
        ];
        let r = run_git_raw(&a);
        assert(str_views(a@) =~= seq![
            "-c"@,
            "diff.noprefix=false"@,
            "-c"@,
            "diff.mnemonicPrefix=false"@,
            "-c"@,
            "diff.external="@,
            "-c"@,
            "diff.algorithm=myers"@,
            "-c"@,
            "diff.indentHeuristic=false"@,
            "-c"@,
            "diff.interHunkContext=0"@,
            "diff"@,
            "--no-color"@,
            "--no-ext-diff"@,
            "--no-textconv"@,
            "-U3"@,
        ] + seq!["--cached"@] + seq!["--"@, ":(literal)"@ + file@]);
        r
    } else {
        let a = [
            "-c",
            "diff.noprefix=false",
            "-c",
            "diff.mnemonicPrefix=false",
            "-c",
            "diff.external=",
            "-c",
            "diff.algorithm=myers",
            "-c",
            "diff.indentHeuristic=false",
            "-c",
            "diff.interHunkContext=0",
            "diff",
            "--no-color",
            "--no-ext-diff",
            "--no-textconv",
            "-U3",
            "--",
            ls,
        ];
        let r = run_git_raw(&a);
        assert(str_views(a@) =~= seq![
            "-c"@,
            "diff.noprefix=false"@,
            "-c"@,
            "diff.mnemonicPrefix=false"@,
            "-c"@,
            "diff.external="@,
            "-c"@,
            "diff.algorithm=myers"@,
            "-c"@,
            "diff.indentHeuristic=false"@,
            "-c"@,
            "diff.interHunkContext=0"@,
            "diff"@,
            "--no-color"@,
            "--no-ext-diff"@,
            "--no-textconv"@,
            "-U3"@,
        ] + Seq::<Seq<char>>::empty() + seq!["--"@, ":(literal)"@ + file@]);
        r
    }
}

// ---------------------------------------------------------------------------
// Partial hunks
// ---------------------------------------------------------------------------

/// A body line of a hunk with the `\ No newline at end of file` marker that
/// belongs to it.
pub struct HunkItem {
    pub text: Seq<char>,
    pub marker: Option<Seq<char>>,
}

pub open spec fn is_marker_line(l: Seq<char>) -> bool {
    l.len() > 0 && l[0] == '\\'
}

/// The items of the body lines: a marker line is tied to the line before it.
pub open spec fn hunk_items(body: Seq<Seq<char>>) -> Seq<HunkItem>
    decreases body.len(),
{
    if body.len() == 0 {
        Seq::empty()
    } else {
        let acc = hunk_items(body.drop_last());
        let raw = body.last();
        if is_marker_line(raw) {
            if acc.len() > 0 {
                acc.update(acc.len() - 1, HunkItem { text: acc.last().text, marker: Some(raw) })
            } else {
                acc
            }
        } else {
            acc.push(HunkItem { text: raw, marker: None })
        }
    }
}

pub open spec fn is_change_line(t: Seq<char>) -> bool {
    t.len() > 0 && (t[0] == '+' || t[0] == '-')
}

/// Number of changed lines (`+`/`-`) among the items.
pub open spec fn change_count(items: Seq<HunkItem>) -> nat
    decreases items.len(),
{
    if items.len() == 0 {
        0
    } else {
        change_count(items.drop_last()) + if is_change_line(items.last().text) {
            1nat
        } else {
            0nat
        }
    }
}

/// Number of distinct values in `s`.
pub open spec fn distinct_count(s: Seq<usize>) -> nat
    decreases s.len(),
{
    if s.len() == 0 {
        0
    } else {
        distinct_count(s.drop_last()) + if s.drop_last().contains(s.last()) {
            0nat
        } else {
            1nat
        }
    }
}

pub open spec fn with_marker(line: Seq<char>, marker: Option<Seq<char>>) -> Seq<Seq<char>> {
    match marker {
        Some(m) => seq![line, m],
        None => seq![line],
    }
}

/// What a body item becomes: a selected change and a context line stay; an
/// unselected addition is dropped when staging and becomes context when
/// unstaging, an unselected deletion the other way round. A marker goes with
/// its line.
pub open spec fn emit(item: HunkItem, selected: bool, reverse: bool) -> Seq<Seq<char>> {
    let t = item.text;
    if is_change_line(t) && !selected {
        if (t[0] == '+' && !reverse) || (t[0] == '-' && reverse) {
            Seq::empty()
        } else {
            with_marker(seq![' '] + t.skip(1), item.marker)
        }
    } else {
        with_marker(t, item.marker)
    }
}

/// The body lines of the partial hunk.
pub open spec fn emit_all(items: Seq<HunkItem>, sel: Seq<usize>, reverse: bool) -> Seq<Seq<char>>
    decreases items.len(),
{
    if items.len() == 0 {
        Seq::empty()
    } else {
        emit_all(items.drop_last(), sel, reverse) + emit(
            items.last(),
            sel.contains((items.len() - 1) as usize),
            reverse,
        )
    }
}

/// Number of lines starting with `a` or `b`.
pub open spec fn count_starting(ls: Seq<Seq<char>>, a: char, b: char) -> nat
    decreases ls.len(),
{
    if ls.len() == 0 {
        0
    } else {
        count_starting(ls.drop_last(), a, b) + if ls.last().len() > 0 && (ls.last()[0] == a
            || ls.last()[0] == b) {
            1nat
        } else {
            0nat
        }
    }
}

/// The lines joined.
pub open spec fn concat_all(ls: Seq<Seq<char>>) -> Seq<char>
    decreases ls.len(),
{
    if ls.len() == 0 {
        Seq::empty()
    } else {
        concat_all(ls.drop_last()) + ls.last()
    }
}

pub open spec fn comma_or_space() -> spec_fn(char) -> bool {
    |c: char| c == ',' || c == ' '
}

/// The number at the start of `s`, up to a comma or space (a `u32`).
pub open spec fn header_number(s: Seq<char>) -> Option<nat> {
    match unsigned_value(s.take(first_where(s, comma_or_space()) as int)) {
        Some(v) => if v <= u32::MAX {
            Some(v)
        } else {
            None
        },
        None => None,
    }
}

/// The old start of a hunk header `@@ -<old>,… +<new>,… @@`.
pub open spec fn old_start_model(head: Seq<char>) -> Option<nat> {
    let t = trim_end(head);
    if has_prefix(t, "@@ -"@) {
        header_number(t.skip("@@ -"@.len() as int))
    } else {
        None
    }
}

/// The new start of a hunk header: the number after the first ` +`.
pub open spec fn new_start_model(head: Seq<char>) -> Option<nat> {
    let t = trim_end(head);
    if has_infix(t, " +"@) {
        let i = choose|i: int| first_occurrence_from(t, " +"@, 0, i);
        header_number(t.skip(i + 2))
    } else {
        None
    }
}

/// What `build_partial_hunk(hunk, sel, reverse)` returns: the partial hunk,
/// or the message of the refusal.
pub open spec fn partial_hunk_model(hunk: Seq<char>, sel: Seq<usize>, reverse: bool) -> Result<
    Seq<char>,
    Seq<char>,
> {
    let parts = lines_incl(hunk);
    if parts.len() == 0 {
        Err("Empty hunk"@)
    } else {
        match old_start_model(parts[0]) {
            None => Err("Invalid hunk header"@),
            Some(o) => match new_start_model(parts[0]) {
                None => Err("Invalid hunk header (new)"@),
                Some(n) => {
                    let body = parts.skip(1);
                    let items = hunk_items(body);
                    if (exists|k: int| 0 <= k < body.len() && is_marker_line(#[trigger] body[k]))
                        && distinct_count(sel) < change_count(items) {
                        Err("File without a trailing newline: please stage the whole hunk"@)
                    } else {
                        let out = emit_all(items, sel, reverse);
                        let co = count_starting(out, ' ', '-');
                        let cn = count_starting(out, ' ', '+');
                        if co == 0 && cn == 0 {
                            Err("No lines selected"@)
                        } else {
                            let r = "@@ -"@ + decimal(o) + ","@ + decimal(co) + " +"@ + decimal(n)
                                + ","@ + decimal(cn) + " @@\n"@ + concat_all(out);
                            Ok(
                                if r.last() == '\n' {
                                    r
                                } else {
                                    r.push('\n')
                                },
                            )
                        }
                    }
                }
            },
        }
    }
}

/// A body item while building.
struct Item {
    text: Vec<char>,
    marker: Option<Vec<char>>,
}

spec fn item_view(i: Item) -> HunkItem {
    HunkItem {
        text: i.text@,
        marker: match i.marker {
            Some(m) => Some(m@),
            None => None,
        },
    }
}

spec fn items_view(v: Seq<Item>) -> Seq<HunkItem> {
    Seq::new(v.len(), |i: int| item_view(v[i]))
}

/// The number at the start of `s` (see [`header_number`]).
fn parse_header_number(s: &[char]) -> (r: Option<u32>)
    ensures
        match r {
            Some(v) => header_number(s@) == Some(v as nat),
            None => header_number(s@) is None,
        },
{
    let mut k: usize = 0;
    while k < s.len() && s[k] != ',' && s[k] != ' '
        invariant
            k <= s@.len(),
            forall|j: int| 0 <= j < k ==> !(comma_or_space())(#[trigger] s@[j]),
        decreases s@.len() - k,
    {
        k = k + 1;
    }
    proof {
        lemma_first_where(s@, comma_or_space(), k as int);
    }
    let p = vec_from_range(s, 0, k);
    assert(p@ =~= s@.take(k as int));
    match parse_unsigned(p.as_slice(), 4294967295u64) {
        Some(v) => Some(v as u32),
        None => None,
    }
}

proof fn lemma_first_occurrence_unique(t: Seq<char>, p: Seq<char>, i: int, j: int)
    requires
        first_occurrence_from(t, p, 0, i),
        first_occurrence_from(t, p, 0, j),
    ensures
        i == j,
{
    if i < j {
        assert(!occurs_at(t, p, i));
    }
    if j < i {
        assert(!occurs_at(t, p, j));
    }
}

fn push_chars(out: &mut Vec<char>, s: &[char])
    ensures
        final(out)@ == old(out)@ + s@,
{
    let ghost before = out@;
    let mut k: usize = 0;
    while k < s.len()
        invariant
            k <= s@.len(),
            out@ == before + s@.take(k as int),
        decreases s@.len() - k,
    {
        out.push(s[k]);
        k = k + 1;
        assert(out@ =~= before + s@.take(k as int));
    }
    assert(s@.take(s@.len() as int) =~= s@);
}

fn push_str_chars(out: &mut Vec<char>, s: &str)
    ensures
        final(out)@ == old(out)@ + s@,
{
    let cs = chars_of(s);
    push_chars(out, cs.as_slice());
}

fn push_number(out: &mut Vec<char>, n: u64)
    ensures
        final(out)@ == old(out)@ + decimal(n as nat),
{
    let t = u64_to_string(n);
    push_str_chars(out, t.as_str());
}

/// Whether `v[..upto]` holds `x`.
fn contains_index(v: &[usize], x: usize, upto: usize) -> (r: bool)
    requires
        upto <= v@.len(),
    ensures
        r == v@.take(upto as int).contains(x),
{
    let mut i: usize = 0;
    while i < upto
        invariant
            i <= upto <= v@.len(),
            forall|j: int| 0 <= j < i ==> v@[j] != x,
        decreases v@.len() - i,
    {
        if v[i] == x {
            assert(v@.take(upto as int)[i as int] == x);
            return true;
        }
        i = i + 1;
    }
    assert forall|j: int| 0 <= j < upto implies v@.take(upto as int)[j] != x by {
        assert(v@.take(upto as int)[j] == v@[j]);
    }
    false
}

/// Number of distinct values of `v`.
fn count_distinct(v: &[usize]) -> (r: usize)
    ensures
        r == distinct_count(v@),
{
    let mut n: usize = 0;
    let mut i: usize = 0;
    while i < v.len()
        invariant
            i <= v@.len(),
            n == distinct_count(v@.take(i as int)),
            n <= i,
        decreases v@.len() - i,
    {
        let seen = contains_index(v, v[i], i);
        proof {
            assert(v@.take(i + 1).drop_last() =~= v@.take(i as int));
        }
        if !seen {
            n = n + 1;
        }
        i = i + 1;
    }
    assert(v@.take(v@.len() as int) =~= v@);
    n
}

/// Builds a partial hunk holding only the selected body lines (indices into
/// the body, markers not counted). Staging (forward onto the index) drops
/// unselected additions and turns unselected deletions into context;
/// unstaging (`reverse`) does the opposite. The header keeps the old and new
/// start and counts the lines of each side. For a file without a trailing
/// newline only the whole hunk can be staged (the marker would be ambiguous).
pub fn build_partial_hunk(hunk: &str, line_indices: &[usize], reverse: bool) -> (r: Result<
    String,
    GitEngineError,
>)
    ensures
        match partial_hunk_model(hunk@, line_indices@, reverse) {
            Ok(t) => r matches Ok(s) && s@ == t,
            Err(m) => r matches Err(GitEngineError::InvalidOperation(x)) && x@ == m,
        },
{
    let cs = chars_of(hunk);
    let parts = split_inclusive(cs.as_slice());
    let ghost pv = views(parts@);
    if parts.len() == 0 {
        return Err(GitEngineError::InvalidOperation(String::from_str("Empty hunk")));
    }
    let head = parts[0].as_slice();
    assert(pv[0] == head@);
    let hl = trim_end_len(head);
    let t = vec_from_range(head, 0, hl);
    assert(t@ =~= trim_end(head@));
    let old_start = match strip_prefix_str(t.as_slice(), "@@ -") {
        Some(rest) => parse_header_number(rest.as_slice()),
        None => None,
    };
    let old_start = match old_start {
        Some(v) => v,
        None => {
            return Err(GitEngineError::InvalidOperation(String::from_str("Invalid hunk header")));
        },
    };
    let plus = chars_of(" +");
    proof {
        reveal_strlit(" +");
    }
    assert(plus@.len() == 2);
    let new_start = match find_from(t.as_slice(), plus.as_slice(), 0) {
        Some(i) => {
            proof {
                let j = choose|j: int| first_occurrence_from(t@, " +"@, 0, j);
                assert(occurs_at(t@, " +"@, i as int));
                lemma_first_occurrence_unique(t@, " +"@, i as int, j);
            }
            let rest = vec_from_range(t.as_slice(), i + plus.len(), t.len());
            assert(rest@ =~= t@.skip(i + 2));
            parse_header_number(rest.as_slice())
        },
        None => {
            assert(!has_infix(t@, " +"@));
            None
        },
    };
    let new_start = match new_start {
        Some(v) => v,
        None => {
            return Err(
                GitEngineError::InvalidOperation(String::from_str("Invalid hunk header (new)")),
            );
        },
    };
    // Body items, each marker tied to its line.
    let ghost body = pv.skip(1);
    let mut items: Vec<Item> = Vec::new();
    let mut has_no_newline = false;
    let mut k: usize = 1;
    assert(body.take(0) =~= Seq::<Seq<char>>::empty());
    assert(items_view(items@) =~= Seq::<HunkItem>::empty());
    while k < parts.len()
        invariant
            1 <= k <= parts@.len(),
            pv == views(parts@),
            body == pv.skip(1),
            items_view(items@) == hunk_items(body.take(k - 1)),
            has_no_newline == exists|j: int| 0 <= j < k - 1 && is_marker_line(#[trigger] body[j]),
        decreases parts@.len() - k,
    {
        let raw = parts[k].as_slice();
        assert(body[k - 1] == raw@);
        assert(body.take(k as int).drop_last() =~= body.take(k - 1));
        let ghost acc = items_view(items@);
        if raw.len() > 0 && raw[0] == '\\' {
            has_no_newline = true;
            if items.len() > 0 {
                let last = items.pop().unwrap();
                let m = vec_from_range(raw, 0, raw.len());
                assert(m@ =~= raw@);
                items.push(Item { text: last.text, marker: Some(m) });
                assert(items_view(items@) =~= acc.update(
                    acc.len() - 1,
                    HunkItem { text: acc.last().text, marker: Some(raw@) },
                ));
            }
        } else {
            let c = vec_from_range(raw, 0, raw.len());
            assert(c@ =~= raw@);
            items.push(Item { text: c, marker: None });
            assert(items_view(items@) =~= acc.push(HunkItem { text: raw@, marker: None }));
        }
        k = k + 1;
    }
    assert(body.take(parts@.len() - 1) =~= body);
    let ghost iv = items_view(items@);
    // Refuse a partial selection in a file without a trailing newline.
    if has_no_newline {
        let mut changes: usize = 0;
        let mut i: usize = 0;
        while i < items.len()
            invariant
                i <= items@.len(),
                iv == items_view(items@),
                changes == change_count(iv.take(i as int)),
                changes <= i,
            decreases items@.len() - i,
        {
            assert(iv.take(i + 1).drop_last() =~= iv.take(i as int));
            let tx = items[i].text.as_slice();
            assert(iv[i as int].text == tx@);
            if tx.len() > 0 && (tx[0] == '+' || tx[0] == '-') {
                changes = changes + 1;
            }
            i = i + 1;
        }
        assert(iv.take(items@.len() as int) =~= iv);
        if count_distinct(line_indices) < changes {
            return Err(
                GitEngineError::InvalidOperation(
                    String::from_str("File without a trailing newline: please stage the whole hunk"),
                ),
            );
        }
    }
    // The body of the partial hunk.
    let mut out: Vec<Vec<char>> = Vec::new();
    let mut count_old: usize = 0;
    let mut count_new: usize = 0;
    let mut i: usize = 0;
    proof {
        lemma_views_empty(out@);
        assert(iv.take(0) =~= Seq::<HunkItem>::empty());
    }
    while i < items.len()
        invariant
            i <= items@.len(),
            iv == items_view(items@),
            views(out@) == emit_all(iv.take(i as int), line_indices@, reverse),
            count_old == count_starting(views(out@), ' ', '-'),
            count_new == count_starting(views(out@), ' ', '+'),
            count_old <= out@.len(),
            count_new <= out@.len(),
        decreases items@.len() - i,
    {
        assert(iv.take(i + 1).drop_last() =~= iv.take(i as int));
        let item = &items[i];
        assert(item_view(*item) == iv[i as int]);
        let tx = item.text.as_slice();
        let selected = contains_index(line_indices, i, line_indices.len());
        assert(line_indices@.take(line_indices@.len() as int) =~= line_indices@);
        let change = tx.len() > 0 && (tx[0] == '+' || tx[0] == '-');
        let ghost e = emit(iv[i as int], selected, reverse);
        let ghost before = views(out@);
        if change && !selected && ((tx[0] == '+' && !reverse) || (tx[0] == '-' && reverse)) {
            assert(e =~= Seq::<Seq<char>>::empty());
        } else {
            let line = if change && !selected {
                let mut l: Vec<char> = Vec::new();
                l.push(' ');
                let rest = vec_from_range(tx, 1, tx.len());
                push_chars(&mut l, rest.as_slice());
                assert(l@ =~= seq![' '] + tx@.skip(1));
                l
            } else {
                let l = vec_from_range(tx, 0, tx.len());
                assert(l@ =~= tx@);
                l
            };
            let first: Option<char> = if line.len() > 0 {
                Some(line[0])
            } else {
                None
            };
            let ghost lv = line@;
            out.push(line);
            let olen = out.len();
            proof {
                lemma_views_push(out@.drop_last(), out@.last());
                assert(out@.drop_last() =~= out@.subrange(0, out@.len() - 1));
            }
            assert(views(out@) =~= before.push(lv));
            assert(views(out@).drop_last() =~= before);
            assert(views(out@).last() == lv);
            assert(lv.len() > 0 ==> first == Some(lv[0]));
            assert(lv.len() == 0 ==> first is None);
            match first {
                Some(c) => {
                    if c == ' ' || c == '-' {
                        count_old = count_old + 1;
                    }
                    if c == ' ' || c == '+' {
                        count_new = count_new + 1;
                    }
                },
                None => {},
            }
            assert(count_old == count_starting(views(out@), ' ', '-'));
            assert(count_new == count_starting(views(out@), ' ', '+'));
            match &item.marker {
                Some(m) => {
                    let mc = vec_from_range(m.as_slice(), 0, m.len());
                    assert(mc@ =~= m@);
                    let ghost b2 = views(out@);
                    let mfirst = if mc.len() > 0 {
                        Some(mc[0])
                    } else {
                        None
                    };
                    out.push(mc);
                    let olen2 = out.len();
                    proof {
                        lemma_views_push(out@.drop_last(), out@.last());
                        assert(out@.drop_last() =~= out@.subrange(0, out@.len() - 1));
                    }
                    assert(views(out@) =~= b2.push(m@));
                    assert(views(out@).drop_last() =~= b2);
                    assert(views(out@).last() == m@);
                    assert(m@.len() > 0 ==> mfirst == Some(m@[0]));
                    match mfirst {
                        Some(c) => {
                            if c == ' ' || c == '-' {
                                count_old = count_old + 1;
                            }
                            if c == ' ' || c == '+' {
                                count_new = count_new + 1;
                            }
                        },
                        None => {},
                    }
                    assert(e =~= seq![lv, m@]);
                },
                None => {
                    assert(e =~= seq![lv]);
                },
            }
        }
        assert(views(out@) =~= before + e);
        i = i + 1;
    }
    assert(iv.take(items@.len() as int) =~= iv);
    if count_old == 0 && count_new == 0 {
        return Err(GitEngineError::InvalidOperation(String::from_str("No lines selected")));
    }
    let mut result: Vec<char> = Vec::new();
    push_str_chars(&mut result, "@@ -");
    push_number(&mut result, old_start as u64);
    push_str_chars(&mut result, ",");
    push_number(&mut result, count_old as u64);
    push_str_chars(&mut result, " +");
    push_number(&mut result, new_start as u64);
    push_str_chars(&mut result, ",");
    push_number(&mut result, count_new as u64);
    push_str_chars(&mut result, " @@\n");
    let ghost ov = views(out@);
    let ghost head_text = result@;
    let mut j: usize = 0;
    assert(ov.take(0) =~= Seq::<Seq<char>>::empty());
    while j < out.len()
        invariant
            j <= out@.len(),
            ov == views(out@),
            result@ == head_text + concat_all(ov.take(j as int)),
        decreases out@.len() - j,
    {
        assert(ov.take(j + 1).drop_last() =~= ov.take(j as int));
        assert(ov[j as int] == out@[j as int]@);
        push_chars(&mut result, out[j].as_slice());
        j = j + 1;
        assert(result@ =~= head_text + concat_all(ov.take(j as int)));
    }
    assert(ov.take(out@.len() as int) =~= ov);
    if result[result.len() - 1] != '\n' {
        result.push('\n');
    }
    Ok(string_from(result.as_slice()))
}

/// Number of changed lines among the items whose index is selected.
pub open spec fn selected_changes(items: Seq<HunkItem>, sel: Seq<usize>) -> nat
    decreases items.len(),
{
    if items.len() == 0 {
        0
    } else {
        selected_changes(items.drop_last(), sel) + if is_change_line(items.last().text)
            && sel.contains((items.len() - 1) as usize) {
            1nat
        } else {
            0nat
        }
    }
}

/// The item's marker, if it has one, is a `\` line.
pub open spec fn marker_ok(item: HunkItem) -> bool {
    match item.marker {
        Some(m) => is_marker_line(m),
        None => true,
    }
}

/// Every marker of the items is a `\` line.
pub open spec fn markers_ok(items: Seq<HunkItem>) -> bool {
    forall|k: int| 0 <= k < items.len() ==> marker_ok(#[trigger] items[k])
}

proof fn lemma_count_starting_append(a: Seq<Seq<char>>, b: Seq<Seq<char>>, x: char, y: char)
    ensures
        count_starting(a + b, x, y) == count_starting(a, x, y) + count_starting(b, x, y),
    decreases b.len(),
{
    if b.len() > 0 {
        lemma_count_starting_append(a, b.drop_last(), x, y);
        assert((a + b).drop_last() =~= a + b.drop_last());
    } else {
        assert(a + b =~= a);
    }
}

proof fn lemma_hunk_items_markers(body: Seq<Seq<char>>)
    ensures
        markers_ok(hunk_items(body)),
    decreases body.len(),
{
    if body.len() > 0 {
        lemma_hunk_items_markers(body.drop_last());
        let acc = hunk_items(body.drop_last());
        let items = hunk_items(body);
        assert forall|k: int| 0 <= k < items.len() implies marker_ok(#[trigger] items[k]) by {
            if k < acc.len() {
                assert(marker_ok(acc[k]));
            }
        }
    }
}

proof fn lemma_with_marker_changes(line: Seq<char>, marker: Option<Seq<char>>)
    requires
        marker_ok(HunkItem { text: line, marker }),
    ensures
        count_starting(with_marker(line, marker), '+', '-') == if line.len() > 0 && (line[0] == '+'
            || line[0] == '-') {
            1nat
        } else {
            0nat
        },
{
    let one = seq![line];
    assert(one.drop_last() =~= Seq::<Seq<char>>::empty());
    assert(count_starting(Seq::<Seq<char>>::empty(), '+', '-') == 0);
    assert(one.last() == line);
    let expected: nat = if line.len() > 0 && (line[0] == '+' || line[0] == '-') {
        1
    } else {
        0
    };
    assert(count_starting(one, '+', '-') == count_starting(one.drop_last(), '+', '-') + expected);
    assert(count_starting(one, '+', '-') == expected);
    match marker {
        Some(m) => {
            let two = seq![line, m];
            assert(with_marker(line, marker) == two);
            assert(two.drop_last() =~= one);
            assert(two.last() == m);
            assert(m[0] == '\\');
            assert(count_starting(two, '+', '-') == count_starting(two.drop_last(), '+', '-') + 0);
        },
        None => {
            assert(with_marker(line, marker) == one);
        },
    }
}

proof fn lemma_emit_changes(item: HunkItem, selected: bool, reverse: bool)
    requires
        marker_ok(item),
    ensures
        count_starting(emit(item, selected, reverse), '+', '-') == if is_change_line(item.text)
            && selected {
            1nat
        } else {
            0nat
        },
{
    let t = item.text;
    assert(count_starting(Seq::<Seq<char>>::empty(), '+', '-') == 0);
    if is_change_line(t) && !selected {
        if !((t[0] == '+' && !reverse) || (t[0] == '-' && reverse)) {
            let c = seq![' '] + t.skip(1);
            assert(c[0] == ' ');
            lemma_with_marker_changes(c, item.marker);
        }
    } else {
        lemma_with_marker_changes(t, item.marker);
    }
}

proof fn lemma_emit_all_changes(items: Seq<HunkItem>, sel: Seq<usize>, reverse: bool)
    requires
        markers_ok(items),
    ensures
        count_starting(emit_all(items, sel, reverse), '+', '-') == selected_changes(items, sel),
    decreases items.len(),
{
    if items.len() > 0 {
        let init = items.drop_last();
        assert forall|k: int| 0 <= k < init.len() implies marker_ok(#[trigger] init[k]) by {
            assert(init[k] == items[k]);
        }
        lemma_emit_all_changes(init, sel, reverse);
        let last = items.last();
        assert(last == items[items.len() - 1]);
        let chosen = sel.contains((items.len() - 1) as usize);
        lemma_emit_changes(last, chosen, reverse);
        lemma_count_starting_append(emit_all(init, sel, reverse), emit(last, chosen, reverse), '+', '-');
    }
}

/// Only what was chosen is applied: in a partial hunk built from a hunk
/// body, the changed (`+`/`-`) lines are exactly the selected changed lines
/// of the body; every unselected change is dropped or turned into context.
pub proof fn lemma_partial_hunk_changes(body: Seq<Seq<char>>, sel: Seq<usize>, reverse: bool)
    ensures
        count_starting(emit_all(hunk_items(body), sel, reverse), '+', '-') == selected_changes(
            hunk_items(body),
            sel,
        ),
{
    lemma_hunk_items_markers(body);
    lemma_emit_all_changes(hunk_items(body), sel, reverse);
}

} // verus!
