//! Reading the working-tree status from `git status --porcelain=v2 -z`.
//!
//! On large worktrees the system git is faster than a library scan, and its
//! answer is by definition the one the command line gives. The parser maps the
//! porcelain v2 records onto the same [`RepoStatus`] structures as the other
//! status path: records are NUL-terminated, and a rename record (`2`) is
//! followed by its original path as a record of its own.

use vstd::prelude::*;

use crate::domain::{ChangeKind, RepoOpState, RepoStatus, StatusEntry};
use crate::text::{
    after_spaces, chars_eq_str, chars_le, chars_of, field, field_of, has_prefix,
    lemma_lex_le_total, lemma_lex_le_trans, lex_le,
    parse_unsigned, skip_spaces, split_chars, split_on, string_from, strip_prefix_str,
    unsigned_value, vec_from_range, views,
};

verus! {

/// From this index size on, spawning the system git pays off against the
/// single-threaded library scan.
pub const FAST_PATH_MIN_INDEX_ENTRIES: usize = 30000;

/// Whether the status of a worktree whose index holds `index_entries`
/// entries is read through the system git first (from
/// [`FAST_PATH_MIN_INDEX_ENTRIES`] entries on); libgit2 reads it otherwise,
/// and whenever the system git fails.
pub fn use_status_fast_path(index_entries: usize) -> (r: bool)
    ensures
        r == (index_entries >= FAST_PATH_MIN_INDEX_ENTRIES),
{
    index_entries >= FAST_PATH_MIN_INDEX_ENTRIES
}

/// Arguments of the status read.
///
/// `--no-optional-locks` keeps the read from taking `.git/index.lock` and
/// rewriting the index (which would wake a file watcher again and again); as
/// a main option it comes before the `status` subcommand.
/// `--untracked-files=all` lists single files instead of collapsed
/// directories.
pub fn status_args() -> (r: [&'static str; 6])
    ensures
        r@[0]@ == "--no-optional-locks"@,
        r@[1]@ == "status"@,
        r@[2]@ == "--porcelain=v2"@,
        r@[3]@ == "--branch"@,
        r@[4]@ == "--untracked-files=all"@,
        r@[5]@ == "-z"@,
{
    ["--no-optional-locks", "status", "--porcelain=v2", "--branch", "--untracked-files=all", "-z"]
}

// ---------------------------------------------------------------------------
// Model
// ---------------------------------------------------------------------------

/// A status entry as plain values.
pub struct EntryModel {
    pub path: Seq<char>,
    pub orig: Option<Seq<char>>,
    pub kind: ChangeKind,
}

/// Index side (X) of a `1`/`2` record to the kind of the staged entry.
pub open spec fn staged_kind_of(x: char) -> Option<ChangeKind> {
    if x == 'A' {
        Some(ChangeKind::Added)
    } else if x == 'M' {
        Some(ChangeKind::Modified)
    } else if x == 'D' {
        Some(ChangeKind::Deleted)
    } else if x == 'R' || x == 'C' {
        Some(ChangeKind::Renamed)
    } else if x == 'T' {
        Some(ChangeKind::Typechange)
    } else {
        None
    }
}

/// Worktree side (Y) to the kind of the unstaged entry; an intent-to-add
/// entry (`A`) counts as untracked.
pub open spec fn unstaged_kind_of(y: char) -> Option<ChangeKind> {
    if y == 'M' {
        Some(ChangeKind::Modified)
    } else if y == 'D' {
        Some(ChangeKind::Deleted)
    } else if y == 'R' || y == 'C' {
        Some(ChangeKind::Renamed)
    } else if y == 'T' {
        Some(ChangeKind::Typechange)
    } else if y == 'A' {
        Some(ChangeKind::Untracked)
    } else {
        None
    }
}

/// State of the record scan: the entries in the order they were read.
pub struct ScanModel {
    pub staged: Seq<EntryModel>,
    pub unstaged: Seq<EntryModel>,
    pub branch: Option<Seq<char>>,
    pub upstream: Option<Seq<char>>,
    pub ahead: nat,
    pub behind: nat,
    pub unborn: bool,
}

pub open spec fn initial_scan() -> ScanModel {
    ScanModel {
        staged: Seq::empty(),
        unstaged: Seq::empty(),
        branch: None,
        upstream: None,
        ahead: 0,
        behind: 0,
        unborn: false,
    }
}

/// The original path is kept for renames only.
pub open spec fn renamed_orig(kind: ChangeKind, orig: Option<Seq<char>>) -> Option<Seq<char>> {
    if kind == ChangeKind::Renamed {
        orig
    } else {
        None
    }
}

/// A `1`/`2` record booked onto the staged and/or unstaged list; submodule
/// entries (`sub` starting with `S`) are left out.
pub open spec fn changed_model(
    st: ScanModel,
    xy: Seq<char>,
    sub: Seq<char>,
    path: Seq<char>,
    orig: Option<Seq<char>>,
) -> ScanModel {
    if (sub.len() > 0 && sub[0] == 'S') || xy.len() < 2 {
        st
    } else {
        let st1 = match staged_kind_of(xy[0]) {
            Some(k) => ScanModel {
                staged: st.staged.push(EntryModel { path, orig: renamed_orig(k, orig), kind: k }),
                ..st
            },
            None => st,
        };
        match unstaged_kind_of(xy[1]) {
            Some(k) => ScanModel {
                unstaged: st1.unstaged.push(
                    EntryModel { path, orig: renamed_orig(k, orig), kind: k },
                ),
                ..st1
            },
            None => st1,
        }
    }
}

/// The value `s.parse::<usize>().unwrap_or(0)` gives.
pub open spec fn usize_or_zero(s: Seq<char>) -> nat {
    match unsigned_value(s) {
        Some(v) => if v <= usize::MAX {
            v
        } else {
            0
        },
        None => 0,
    }
}

/// The ahead/behind counts after the parts `+<n>` / `-<n>` of a
/// `# branch.ab` header (the last of each kind wins).
pub open spec fn ab_apply(parts: Seq<Seq<char>>, ahead: nat, behind: nat) -> (nat, nat)
    decreases parts.len(),
{
    if parts.len() == 0 {
        (ahead, behind)
    } else {
        let p = parts[0];
        if p.len() > 0 && p[0] == '+' {
            ab_apply(parts.drop_first(), usize_or_zero(p.drop_first()), behind)
        } else if p.len() > 0 && p[0] == '-' {
            ab_apply(parts.drop_first(), ahead, usize_or_zero(p.drop_first()))
        } else {
            ab_apply(parts.drop_first(), ahead, behind)
        }
    }
}

/// A `# branch.*` header record.
pub open spec fn header_model(st: ScanModel, rec: Seq<char>) -> ScanModel {
    if has_prefix(rec, "# branch.oid "@) {
        ScanModel { unborn: rec.skip("# branch.oid "@.len() as int) == "(initial)"@, ..st }
    } else if has_prefix(rec, "# branch.head "@) {
        let v = rec.skip("# branch.head "@.len() as int);
        ScanModel {
            branch: if v != "(detached)"@ {
                Some(v)
            } else {
                None
            },
            ..st
        }
    } else if has_prefix(rec, "# branch.upstream "@) {
        ScanModel { upstream: Some(rec.skip("# branch.upstream "@.len() as int)), ..st }
    } else if has_prefix(rec, "# branch.ab "@) {
        let ab = ab_apply(
            split_on(rec.skip("# branch.ab "@.len() as int), ' '),
            st.ahead,
            st.behind,
        );
        ScanModel { ahead: ab.0, behind: ab.1, ..st }
    } else {
        st
    }
}

/// One non-empty record other than a rename record.
pub open spec fn record_model(st: ScanModel, rec: Seq<char>) -> ScanModel {
    if rec[0] == '#' {
        header_model(st, rec)
    } else if rec[0] == '?' {
        if has_prefix(rec, "? "@) {
            ScanModel {
                unstaged: st.unstaged.push(
                    EntryModel { path: rec.skip(2), orig: None, kind: ChangeKind::Untracked },
                ),
                ..st
            }
        } else {
            st
        }
    } else if rec[0] == '1' {
        // 1 <XY> <sub> <mH> <mI> <mW> <hH> <hI> <path>
        match (field(rec, 1), field(rec, 2), after_spaces(rec, 8)) {
            (Some(xy), Some(sub), Some(path)) => changed_model(st, xy, sub, path, None),
            _ => st,
        }
    } else if rec[0] == 'u' {
        // u <XY> <sub> <m1> <m2> <m3> <mW> <h1> <h2> <h3> <path>
        match (field(rec, 2), after_spaces(rec, 10)) {
            (Some(sub), Some(path)) => if sub.len() > 0 && sub[0] == 'S' {
                st
            } else {
                ScanModel {
                    unstaged: st.unstaged.push(
                        EntryModel { path, orig: None, kind: ChangeKind::Conflicted },
                    ),
                    ..st
                }
            },
            _ => st,
        }
    } else {
        st
    }
}

/// The scan of the records `recs[i..]` from state `st`. A complete rename
/// record (`2 <XY> <sub> <mH> <mI> <mW> <hH> <hI> <X><score> <path>`) takes
/// the next record as its original path.
pub open spec fn scan(recs: Seq<Seq<char>>, i: int, st: ScanModel) -> ScanModel
    decreases recs.len() - i,
{
    if i < 0 || i >= recs.len() {
        st
    } else {
        let rec = recs[i];
        if rec.len() == 0 {
            scan(recs, i + 1, st)
        } else if rec[0] == '2' {
            match (field(rec, 1), field(rec, 2), after_spaces(rec, 9)) {
                (Some(xy), Some(sub), Some(path)) => {
                    if i + 1 < recs.len() {
                        scan(recs, i + 2, changed_model(st, xy, sub, path, Some(recs[i + 1])))
                    } else {
                        scan(recs, i + 1, changed_model(st, xy, sub, path, None))
                    }
                },
                _ => scan(recs, i + 1, st),
            }
        } else {
            scan(recs, i + 1, record_model(st, rec))
        }
    }
}

/// `s` with `e` inserted after every entry whose path is not greater.
pub open spec fn insert_by_path(s: Seq<EntryModel>, e: EntryModel) -> Seq<EntryModel>
    decreases s.len(),
{
    if s.len() == 0 {
        seq![e]
    } else if lex_le(s.last().path, e.path) {
        s.push(e)
    } else {
        insert_by_path(s.drop_last(), e).push(s.last())
    }
}

/// `s` sorted by path, entries with equal paths in their original order.
pub open spec fn sort_by_path(s: Seq<EntryModel>) -> Seq<EntryModel>
    decreases s.len(),
{
    if s.len() == 0 {
        Seq::empty()
    } else {
        insert_by_path(sort_by_path(s.drop_last()), s.last())
    }
}

/// Entries ordered by path.
pub open spec fn sorted_by_path(s: Seq<EntryModel>) -> bool {
    forall|i: int, j: int| 0 <= i < j < s.len() ==> lex_le(s[i].path, s[j].path)
}

/// Every entry's path is at most `key`.
spec fn all_up_to(s: Seq<EntryModel>, key: Seq<char>) -> bool {
    forall|i: int| 0 <= i < s.len() ==> lex_le(#[trigger] s[i].path, key)
}

proof fn lemma_insert_up_to(s: Seq<EntryModel>, e: EntryModel, key: Seq<char>)
    requires
        all_up_to(s, key),
        lex_le(e.path, key),
    ensures
        all_up_to(insert_by_path(s, e), key),
    decreases s.len(),
{
    if s.len() > 0 && !lex_le(s.last().path, e.path) {
        let t = s.drop_last();
        assert forall|i: int| 0 <= i < t.len() implies lex_le(#[trigger] t[i].path, key) by {
            assert(t[i] == s[i]);
        }
        lemma_insert_up_to(t, e, key);
    }
}

proof fn lemma_insert_sorted(s: Seq<EntryModel>, e: EntryModel)
    requires
        sorted_by_path(s),
    ensures
        sorted_by_path(insert_by_path(s, e)),
        insert_by_path(s, e).to_multiset() == s.to_multiset().insert(e),
    decreases s.len(),
{
    broadcast use vstd::seq_lib::group_to_multiset_ensures;
    broadcast use vstd::multiset::group_multiset_properties;

    if s.len() == 0 {
        assert(seq![e] =~= s.push(e));
    } else if lex_le(s.last().path, e.path) {
        let r = s.push(e);
        assert forall|i: int, j: int| 0 <= i < j < r.len() implies lex_le(
            r[i].path,
            r[j].path,
        ) by {
            if j == s.len() && i < s.len() - 1 {
                lemma_lex_le_trans(s[i].path, s.last().path, e.path);
            }
        }
    } else {
        let t = s.drop_last();
        let l = s.last();
        assert(t.push(l) =~= s);
        assert forall|i: int, j: int| 0 <= i < j < t.len() implies lex_le(
            t[i].path,
            t[j].path,
        ) by {
            assert(t[i] == s[i] && t[j] == s[j]);
        }
        lemma_insert_sorted(t, e);
        assert forall|i: int| 0 <= i < t.len() implies lex_le(#[trigger] t[i].path, l.path) by {
            assert(t[i] == s[i]);
        }
        lemma_lex_le_total(l.path, e.path);
        lemma_insert_up_to(t, e, l.path);
        let m = insert_by_path(t, e);
        let r = m.push(l);
        assert forall|i: int, j: int| 0 <= i < j < r.len() implies lex_le(
            r[i].path,
            r[j].path,
        ) by {
            if j < m.len() {
                assert(r[i] == m[i] && r[j] == m[j]);
            } else {
                assert(r[i] == m[i]);
            }
        }
        assert(s.to_multiset() =~= t.to_multiset().insert(l));
        assert(r.to_multiset() =~= t.to_multiset().insert(e).insert(l));
        assert(t.to_multiset().insert(e).insert(l) =~= t.to_multiset().insert(l).insert(e));
    }
}

/// Sorting by path yields a list ordered by path that holds exactly the
/// entries it was given.
pub proof fn lemma_sort_by_path(s: Seq<EntryModel>)
    ensures
        sorted_by_path(sort_by_path(s)),
        sort_by_path(s).to_multiset() == s.to_multiset(),
    decreases s.len(),
{
    broadcast use vstd::seq_lib::group_to_multiset_ensures;
    broadcast use vstd::multiset::group_multiset_properties;

    if s.len() == 0 {
        assert(s.to_multiset() =~= vstd::multiset::Multiset::empty());
        assert(sort_by_path(s).to_multiset() =~= vstd::multiset::Multiset::empty());
    } else {
        lemma_sort_by_path(s.drop_last());
        lemma_insert_sorted(sort_by_path(s.drop_last()), s.last());
        assert(s.drop_last().push(s.last()) =~= s);
    }
}

/// Both status lists come out ordered by path, and each holds exactly the
/// entries booked from the records.
pub proof fn lemma_status_lists_sorted(raw: Seq<char>)
    ensures
        sorted_by_path(porcelain_model(raw).staged),
        sorted_by_path(porcelain_model(raw).unstaged),
        porcelain_model(raw).staged.to_multiset() == scan(
            split_on(raw, '\0'),
            0,
            initial_scan(),
        ).staged.to_multiset(),
        porcelain_model(raw).unstaged.to_multiset() == scan(
            split_on(raw, '\0'),
            0,
            initial_scan(),
        ).unstaged.to_multiset(),
{
    let st = scan(split_on(raw, '\0'), 0, initial_scan());
    lemma_sort_by_path(st.staged);
    lemma_sort_by_path(st.unstaged);
}

proof fn lemma_sort_short(s: Seq<EntryModel>)
    requires
        s.len() <= 1,
    ensures
        sort_by_path(s) == s,
{
    if s.len() == 1 {
        assert(s.drop_last() =~= Seq::<EntryModel>::empty());
        assert(sort_by_path(s.drop_last()) == Seq::<EntryModel>::empty());
        assert(insert_by_path(Seq::<EntryModel>::empty(), s.last()) == seq![s.last()]);
        assert(seq![s.last()] =~= s);
    } else {
        assert(s =~= Seq::<EntryModel>::empty());
    }
}

/// What a status made of one ordinary change record
/// (`1 <XY> <sub> <mH> <mI> <mW> <hH> <hI> <path>`) lists, for every such
/// record: the index side X decides the staged entry (`A` added, `M`
/// modified, `D` deleted, `R` or `C` renamed, `T` type change, `.` none), the
/// worktree side Y the unstaged entry (`M` modified, `D` deleted, `R` or `C`
/// renamed, `T` type change, `A` (intent to add) untracked, `.` none), each
/// under the record's path.
pub proof fn lemma_change_record_kinds(raw: Seq<char>, xy: Seq<char>, sub: Seq<char>, path: Seq<char>)
    requires
        !raw.contains('\0'),
        raw.len() > 0,
        raw[0] == '1',
        field(raw, 1) == Some(xy),
        field(raw, 2) == Some(sub),
        after_spaces(raw, 8) == Some(path),
        xy.len() == 2,
        !(sub.len() > 0 && sub[0] == 'S'),
    ensures
        xy[0] == 'A' ==> porcelain_model(raw).staged == seq![
            EntryModel { path, orig: None, kind: ChangeKind::Added },
        ],
        xy[0] == 'M' ==> porcelain_model(raw).staged == seq![
            EntryModel { path, orig: None, kind: ChangeKind::Modified },
        ],
        xy[0] == 'D' ==> porcelain_model(raw).staged == seq![
            EntryModel { path, orig: None, kind: ChangeKind::Deleted },
        ],
        (xy[0] == 'R' || xy[0] == 'C') ==> porcelain_model(raw).staged == seq![
            EntryModel { path, orig: None, kind: ChangeKind::Renamed },
        ],
        xy[0] == 'T' ==> porcelain_model(raw).staged == seq![
            EntryModel { path, orig: None, kind: ChangeKind::Typechange },
        ],
        xy[0] == '.' ==> porcelain_model(raw).staged.len() == 0,
        xy[1] == 'M' ==> porcelain_model(raw).unstaged == seq![
            EntryModel { path, orig: None, kind: ChangeKind::Modified },
        ],
        xy[1] == 'D' ==> porcelain_model(raw).unstaged == seq![
            EntryModel { path, orig: None, kind: ChangeKind::Deleted },
        ],
        (xy[1] == 'R' || xy[1] == 'C') ==> porcelain_model(raw).unstaged == seq![
            EntryModel { path, orig: None, kind: ChangeKind::Renamed },
        ],
        xy[1] == 'T' ==> porcelain_model(raw).unstaged == seq![
            EntryModel { path, orig: None, kind: ChangeKind::Typechange },
        ],
        xy[1] == 'A' ==> porcelain_model(raw).unstaged == seq![
            EntryModel { path, orig: None, kind: ChangeKind::Untracked },
        ],
        xy[1] == '.' ==> porcelain_model(raw).unstaged.len() == 0,
{
    crate::text::lemma_split_on_without(raw, '\0');
    let recs = split_on(raw, '\0');
    assert(recs == seq![raw]);
    let st = changed_model(initial_scan(), xy, sub, path, None);
    assert(record_model(initial_scan(), raw) == st);
    assert(scan(recs, 1, st) == st);
    assert(scan(recs, 0, initial_scan()) == st);
    assert(st.staged.len() <= 1);
    assert(st.unstaged.len() <= 1);
    lemma_sort_short(st.staged);
    lemma_sort_short(st.unstaged);
    assert(porcelain_model(raw).staged == st.staged);
    assert(porcelain_model(raw).unstaged == st.unstaged);
}

/// A parsed status as plain values.
pub struct PorcelainModel {
    pub staged: Seq<EntryModel>,
    pub unstaged: Seq<EntryModel>,
    pub branch: Option<Seq<char>>,
    pub upstream: Option<Seq<char>>,
    pub ahead: nat,
    pub behind: nat,
}

/// What `parse_porcelain_v2(raw)` returns: the scan of the NUL-separated
/// records, both lists sorted by path, and no branch for an unborn HEAD.
pub open spec fn porcelain_model(raw: Seq<char>) -> PorcelainModel {
    let st = scan(split_on(raw, '\0'), 0, initial_scan());
    PorcelainModel {
        staged: sort_by_path(st.staged),
        unstaged: sort_by_path(st.unstaged),
        branch: if st.unborn {
            None
        } else {
            st.branch
        },
        upstream: st.upstream,
        ahead: st.ahead,
        behind: st.behind,
    }
}

pub open spec fn opt_string_view(o: Option<String>) -> Option<Seq<char>> {
    match o {
        Some(s) => Some(s@),
        None => None,
    }
}

pub open spec fn status_entry_view(e: StatusEntry) -> EntryModel {
    EntryModel { path: e.path@, orig: opt_string_view(e.orig_path), kind: e.kind }
}

pub open spec fn status_entries_view(v: Seq<StatusEntry>) -> Seq<EntryModel> {
    Seq::new(v.len(), |i: int| status_entry_view(v[i]))
}

/// Intermediate result of the parser (the caller adds the operation state).
pub struct PorcelainStatus {
    pub staged: Vec<StatusEntry>,
    pub unstaged: Vec<StatusEntry>,
    pub branch: Option<String>,
    pub upstream: Option<String>,
    pub ahead: usize,
    pub behind: usize,
}

impl PorcelainStatus {
    pub open spec fn model(&self) -> PorcelainModel {
        PorcelainModel {
            staged: status_entries_view(self.staged@),
            unstaged: status_entries_view(self.unstaged@),
            branch: opt_string_view(self.branch),
            upstream: opt_string_view(self.upstream),
            ahead: self.ahead as nat,
            behind: self.behind as nat,
        }
    }

    /// The full status, with the operation state supplied by the caller.
    pub fn into_repo_status(self, op_state: RepoOpState) -> (r: RepoStatus)
        ensures
            r.staged == self.staged,
            r.unstaged == self.unstaged,
            r.branch == self.branch,
            r.upstream == self.upstream,
            r.ahead == self.ahead,
            r.behind == self.behind,
            r.op_state == op_state,
    {
        RepoStatus {
            staged: self.staged,
            unstaged: self.unstaged,
            branch: self.branch,
            upstream: self.upstream,
            ahead: self.ahead,
            behind: self.behind,
            op_state,
        }
    }
}

// ---------------------------------------------------------------------------
// Implementation
// ---------------------------------------------------------------------------

/// Index side (X) to the kind of the staged entry.
fn staged_kind(x: char) -> (r: Option<ChangeKind>)
    ensures
        r == staged_kind_of(x),
{
    match x {
        'A' => Some(ChangeKind::Added),
        'M' => Some(ChangeKind::Modified),
        'D' => Some(ChangeKind::Deleted),
        'R' | 'C' => Some(ChangeKind::Renamed),
        'T' => Some(ChangeKind::Typechange),
        _ => None,
    }
}

/// Worktree side (Y) to the kind of the unstaged entry.
fn unstaged_kind(y: char) -> (r: Option<ChangeKind>)
    ensures
        r == unstaged_kind_of(y),
{
    match y {
        'M' => Some(ChangeKind::Modified),
        'D' => Some(ChangeKind::Deleted),
        'R' | 'C' => Some(ChangeKind::Renamed),
        'T' => Some(ChangeKind::Typechange),
        'A' => Some(ChangeKind::Untracked),
        _ => None,
    }
}

/// An entry while scanning, its path as characters.
struct ScanEntry {
    path: Vec<char>,
    orig: Option<Vec<char>>,
    kind: ChangeKind,
}

spec fn opt_chars_view(o: Option<Vec<char>>) -> Option<Seq<char>> {
    match o {
        Some(v) => Some(v@),
        None => None,
    }
}

spec fn entry_view(e: ScanEntry) -> EntryModel {
    EntryModel { path: e.path@, orig: opt_chars_view(e.orig), kind: e.kind }
}

spec fn entries_view(v: Seq<ScanEntry>) -> Seq<EntryModel> {
    Seq::new(v.len(), |i: int| entry_view(v[i]))
}

pub proof fn lemma_insert_at(s: Seq<EntryModel>, e: EntryModel, j: int)
    requires
        0 <= j <= s.len(),
        forall|k: int| j <= k < s.len() ==> !lex_le(#[trigger] s[k].path, e.path),
        j == 0 || lex_le(s[j - 1].path, e.path),
    ensures
        insert_by_path(s, e) == s.take(j).push(e) + s.skip(j),
    decreases s.len(),
{
    if s.len() == 0 {
        assert(s.take(j).push(e) + s.skip(j) =~= seq![e]);
    } else if j == s.len() {
        assert(s.take(j).push(e) + s.skip(j) =~= s.push(e));
    } else {
        let t = s.drop_last();
        assert(!lex_le(s[s.len() - 1].path, e.path));
        assert forall|k: int| j <= k < t.len() implies !lex_le(#[trigger] t[k].path, e.path) by {
            assert(t[k] == s[k]);
        }
        if j > 0 {
            assert(t[j - 1] == s[j - 1]);
        }
        lemma_insert_at(t, e, j);
        assert((t.take(j).push(e) + t.skip(j)).push(s.last()) =~= s.take(j).push(e) + s.skip(j));
    }
}

/// Inserts `e` into the path-sorted `v` after every entry whose path is not
/// greater (from the end, so an already sorted input costs one comparison).
fn insert_sorted(v: &mut Vec<ScanEntry>, e: ScanEntry)
    ensures
        entries_view(final(v)@) == insert_by_path(entries_view(old(v)@), entry_view(e)),
{
    let ghost s = entries_view(v@);
    let ghost ee = entry_view(e);
    let mut j = v.len();
    loop
        invariant
            j <= v@.len(),
            s == entries_view(v@),
            ee == entry_view(e),
            forall|k: int| j <= k < s.len() ==> !lex_le(#[trigger] s[k].path, ee.path),
        ensures
            j == 0 || lex_le(s[j - 1].path, ee.path),
        decreases j,
    {
        if j == 0 {
            break;
        }
        if chars_le(v[j - 1].path.as_slice(), e.path.as_slice()) {
            break;
        }
        j = j - 1;
    }
    proof {
        lemma_insert_at(s, ee, j as int);
    }
    v.insert(j, e);
    assert(entries_view(v@) =~= s.take(j as int).push(ee) + s.skip(j as int));
}

/// The scan state: the path-sorted lists, together with the lists in the
/// order in which the records were read.
struct Scan {
    staged: Vec<ScanEntry>,
    staged_read: Ghost<Seq<EntryModel>>,
    unstaged: Vec<ScanEntry>,
    unstaged_read: Ghost<Seq<EntryModel>>,
    branch: Option<Vec<char>>,
    upstream: Option<Vec<char>>,
    ahead: usize,
    behind: usize,
    unborn: bool,
}

impl Scan {
    spec fn model(&self) -> ScanModel {
        ScanModel {
            staged: self.staged_read@,
            unstaged: self.unstaged_read@,
            branch: opt_chars_view(self.branch),
            upstream: opt_chars_view(self.upstream),
            ahead: self.ahead as nat,
            behind: self.behind as nat,
            unborn: self.unborn,
        }
    }

    spec fn wf(&self) -> bool {
        &&& entries_view(self.staged@) == sort_by_path(self.staged_read@)
        &&& entries_view(self.unstaged@) == sort_by_path(self.unstaged_read@)
    }

    fn push_staged(&mut self, e: ScanEntry)
        requires
            old(self).wf(),
        ensures
            final(self).wf(),
            final(self).model() == (ScanModel {
                staged: old(self).model().staged.push(entry_view(e)),
                ..old(self).model()
            }),
    {
        let ghost read = self.staged_read@.push(entry_view(e));
        assert(read.drop_last() =~= self.staged_read@);
        insert_sorted(&mut self.staged, e);
        self.staged_read = Ghost(read);
    }

    fn push_unstaged(&mut self, e: ScanEntry)
        requires
            old(self).wf(),
        ensures
            final(self).wf(),
            final(self).model() == (ScanModel {
                unstaged: old(self).model().unstaged.push(entry_view(e)),
                ..old(self).model()
            }),
    {
        let ghost read = self.unstaged_read@.push(entry_view(e));
        assert(read.drop_last() =~= self.unstaged_read@);
        insert_sorted(&mut self.unstaged, e);
        self.unstaged_read = Ghost(read);
    }
}

fn copy_opt(o: &Option<Vec<char>>) -> (r: Option<Vec<char>>)
    ensures
        opt_chars_view(r) == opt_chars_view(*o),
{
    match o {
        Some(v) => {
            let c = vec_from_range(v.as_slice(), 0, v.len());
            assert(c@ =~= v@);
            Some(c)
        },
        None => None,
    }
}

/// Books a `1`/`2` record onto the staged and/or unstaged list.
fn push_changed(st: &mut Scan, xy: &[char], sub: &[char], path: &[char], orig: Option<Vec<char>>)
    requires
        old(st).wf(),
    ensures
        final(st).wf(),
        final(st).model() == changed_model(
            old(st).model(),
            xy@,
            sub@,
            path@,
            opt_chars_view(orig),
        ),
{
    if sub.len() > 0 && sub[0] == 'S' {
        return;
    }
    if xy.len() < 2 {
        return;
    }
    if let Some(kind) = staged_kind(xy[0]) {
        let o = if kind == ChangeKind::Renamed {
            copy_opt(&orig)
        } else {
            None
        };
        let p = vec_from_range(path, 0, path.len());
        assert(p@ =~= path@);
        st.push_staged(ScanEntry { path: p, orig: o, kind });
    }
    if let Some(kind) = unstaged_kind(xy[1]) {
        let o = if kind == ChangeKind::Renamed {
            copy_opt(&orig)
        } else {
            None
        };
        let p = vec_from_range(path, 0, path.len());
        assert(p@ =~= path@);
        st.push_unstaged(ScanEntry { path: p, orig: o, kind });
    }
}

/// The value of `s.parse::<usize>().unwrap_or(0)`.
fn parse_usize_or_zero(s: &[char]) -> (r: usize)
    ensures
        r as nat == usize_or_zero(s@),
{
    match parse_unsigned(s, usize::MAX as u64) {
        Some(v) => v as usize,
        None => 0,
    }
}

/// Applies the parts of a `# branch.ab` header.
fn apply_ab(st: &mut Scan, v: &[char])
    ensures
        final(st).staged == old(st).staged,
        final(st).staged_read == old(st).staged_read,
        final(st).unstaged == old(st).unstaged,
        final(st).unstaged_read == old(st).unstaged_read,
        final(st).branch == old(st).branch,
        final(st).upstream == old(st).upstream,
        final(st).unborn == old(st).unborn,
        (final(st).ahead as nat, final(st).behind as nat) == ab_apply(
            split_on(v@, ' '),
            old(st).ahead as nat,
            old(st).behind as nat,
        ),
{
    let parts = split_chars(v, ' ');
    let ghost all = views(parts@);
    let ghost a0 = st.ahead as nat;
    let ghost b0 = st.behind as nat;
    assert(all.skip(0) =~= all);
    let mut i: usize = 0;
    while i < parts.len()
        invariant
            i <= parts@.len(),
            all == views(parts@),
            all == split_on(v@, ' '),
            st.staged == old(st).staged,
            st.staged_read == old(st).staged_read,
            st.unstaged == old(st).unstaged,
            st.unstaged_read == old(st).unstaged_read,
            st.branch == old(st).branch,
            st.upstream == old(st).upstream,
            st.unborn == old(st).unborn,
            a0 == old(st).ahead as nat,
            b0 == old(st).behind as nat,
            ab_apply(all.skip(i as int), st.ahead as nat, st.behind as nat) == ab_apply(
                all,
                a0,
                b0,
            ),
        decreases parts@.len() - i,
    {
        let part = parts[i].as_slice();
        assert(all.skip(i as int).drop_first() =~= all.skip(i + 1));
        assert(all.skip(i as int)[0] == part@);
        if part.len() > 0 && part[0] == '+' {
            let rest = vec_from_range(part, 1, part.len());
            assert(rest@ =~= part@.drop_first());
            st.ahead = parse_usize_or_zero(rest.as_slice());
        } else if part.len() > 0 && part[0] == '-' {
            let rest = vec_from_range(part, 1, part.len());
            assert(rest@ =~= part@.drop_first());
            st.behind = parse_usize_or_zero(rest.as_slice());
        }
        i = i + 1;
    }
    assert(all.skip(parts@.len() as int) =~= Seq::<Seq<char>>::empty());
}

/// A `# branch.*` header record.
fn apply_header(st: &mut Scan, rec: &[char])
    requires
        old(st).wf(),
    ensures
        final(st).wf(),
        final(st).model() == header_model(old(st).model(), rec@),
{
    if let Some(v) = strip_prefix_str(rec, "# branch.oid ") {
        st.unborn = chars_eq_str(v.as_slice(), "(initial)");
    } else if let Some(v) = strip_prefix_str(rec, "# branch.head ") {
        if chars_eq_str(v.as_slice(), "(detached)") {
            st.branch = None;
        } else {
            st.branch = Some(v);
        }
    } else if let Some(v) = strip_prefix_str(rec, "# branch.upstream ") {
        st.upstream = Some(v);
    } else if let Some(v) = strip_prefix_str(rec, "# branch.ab ") {
        apply_ab(st, v.as_slice());
    }
}

/// One non-empty record other than a complete rename record.
fn apply_record(st: &mut Scan, rec: &[char])
    requires
        old(st).wf(),
        rec@.len() > 0,
    ensures
        final(st).wf(),
        final(st).model() == record_model(old(st).model(), rec@),
{
    let c = rec[0];
    if c == '#' {
        apply_header(st, rec);
    } else if c == '?' {
        if let Some(p) = strip_prefix_str(rec, "? ") {
            proof {
                reveal_strlit("? ");
            }
            st.push_unstaged(ScanEntry { path: p, orig: None, kind: ChangeKind::Untracked });
        }
    } else if c == '1' {
        let xy = field_of(rec, 1);
        let sub = field_of(rec, 2);
        let path = skip_spaces(rec, 8);
        match (xy, sub, path) {
            (Some(xy), Some(sub), Some(k)) => {
                let p = vec_from_range(rec, k, rec.len());
                assert(p@ =~= rec@.skip(k as int));
                push_changed(st, xy.as_slice(), sub.as_slice(), p.as_slice(), None);
            },
            _ => {},
        }
    } else if c == 'u' {
        let sub = field_of(rec, 2);
        let path = skip_spaces(rec, 10);
        match (sub, path) {
            (Some(sub), Some(k)) => {
                if !(sub.len() > 0 && sub[0] == 'S') {
                    let p = vec_from_range(rec, k, rec.len());
                    assert(p@ =~= rec@.skip(k as int));
                    st.push_unstaged(ScanEntry { path: p, orig: None, kind: ChangeKind::Conflicted });
                }
            },
            _ => {},
        }
    }
}

/// Turns a scan entry into a status entry.
fn to_status_entry(e: &ScanEntry) -> (r: StatusEntry)
    ensures
        status_entry_view(r) == entry_view(*e),
{
    let orig = match &e.orig {
        Some(o) => Some(string_from(o.as_slice())),
        None => None,
    };
    StatusEntry { path: string_from(e.path.as_slice()), orig_path: orig, kind: e.kind }
}

fn to_status_entries(v: &Vec<ScanEntry>) -> (r: Vec<StatusEntry>)
    ensures
        status_entries_view(r@) == entries_view(v@),
{
    let mut r: Vec<StatusEntry> = Vec::new();
    let mut i: usize = 0;
    while i < v.len()
        invariant
            i <= v@.len(),
            status_entries_view(r@) == entries_view(v@).take(i as int),
        decreases v@.len() - i,
    {
        let e = to_status_entry(&v[i]);
        let ghost old_r = r@;
        r.push(e);
        assert(status_entries_view(r@) =~= status_entries_view(old_r).push(entry_view(v@[i as int])));
        assert(entries_view(v@).take(i + 1) =~= entries_view(v@).take(i as int).push(
            entry_view(v@[i as int]),
        ));
        i = i + 1;
    }
    assert(entries_view(v@).take(v@.len() as int) =~= entries_view(v@));
    r
}

fn opt_string(o: Option<Vec<char>>) -> (r: Option<String>)
    ensures
        opt_string_view(r) == opt_chars_view(o),
{
    match o {
        Some(v) => Some(string_from(v.as_slice())),
        None => None,
    }
}

/// Parses the output of `git status --porcelain=v2 --branch -z`.
pub fn parse_porcelain_v2(raw: &str) -> (r: PorcelainStatus)
    ensures
        r.model() == porcelain_model(raw@),
{
    let cs = chars_of(raw);
    let recs = split_chars(cs.as_slice(), '\0');
    let ghost rv = views(recs@);
    let ghost goal = scan(rv, 0, initial_scan());
    let mut st = Scan {
        staged: Vec::new(),
        staged_read: Ghost(Seq::empty()),
        unstaged: Vec::new(),
        unstaged_read: Ghost(Seq::empty()),
        branch: None,
        upstream: None,
        ahead: 0,
        behind: 0,
        unborn: false,
    };
    assert(entries_view(st.staged@) =~= sort_by_path(Seq::empty()));
    assert(entries_view(st.unstaged@) =~= sort_by_path(Seq::empty()));
    assert(st.model() == initial_scan());
    let mut i: usize = 0;
    while i < recs.len()
        invariant
            i <= recs@.len(),
            rv == views(recs@),
            st.wf(),
            scan(rv, i as int, st.model()) == goal,
        decreases recs@.len() - i,
    {
        let rec = recs[i].as_slice();
        assert(rv[i as int] == rec@);
        if rec.len() == 0 {
            i = i + 1;
        } else if rec[0] == '2' {
            let xy = field_of(rec, 1);
            let sub = field_of(rec, 2);
            let path = skip_spaces(rec, 9);
            match (xy, sub, path) {
                (Some(xy), Some(sub), Some(k)) => {
                    let p = vec_from_range(rec, k, rec.len());
                    assert(p@ =~= rec@.skip(k as int));
                    if i + 1 < recs.len() {
                        let next = recs[i + 1].as_slice();
                        let o = vec_from_range(next, 0, next.len());
                        assert(o@ =~= rv[i + 1]);
                        push_changed(&mut st, xy.as_slice(), sub.as_slice(), p.as_slice(), Some(o));
                        i = i + 2;
                    } else {
                        push_changed(&mut st, xy.as_slice(), sub.as_slice(), p.as_slice(), None);
                        i = i + 1;
                    }
                },
                _ => {
                    i = i + 1;
                },
            }
        } else {
            apply_record(&mut st, rec);
            i = i + 1;
        }
    }
    if st.unborn {
        st.branch = None;
    }
    PorcelainStatus {
        staged: to_status_entries(&st.staged),
        unstaged: to_status_entries(&st.unstaged),
        branch: opt_string(st.branch),
        upstream: opt_string(st.upstream),
        ahead: st.ahead,
        behind: st.behind,
    }
}

} // verus!
