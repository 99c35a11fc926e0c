//! Parsing of conflicted files for the in-app conflict editor.
//!
//! The editor splits a file into segments along the conflict markers, so each
//! conflict can be resolved on its own. Both the standard style (`merge`) and
//! `diff3` (with a base section) are understood. The marker length is taken
//! from the opening line of each block and must match on every marker of that
//! block; a block that does not close completely stays plain content.

use vstd::prelude::*;

use crate::domain::{ConflictFile, ConflictSegment};
use crate::text::{
    chars_of, lemma_string_views_empty, lemma_string_views_push, lemma_views_empty,
    lemma_views_push, split_chars, split_on, string_from, string_views, vec_from_range, views,
};

verus! {

/// Upper bound for files opened in the editor.
pub const MAX_CONFLICT_BYTES: usize = 5242880;

/// Shortest marker length accepted (git's default).
pub const MIN_MARKER: usize = 7;

// ---------------------------------------------------------------------------
// Model
// ---------------------------------------------------------------------------

/// Number of leading characters of `s` equal to `ch`.
pub open spec fn lead_count(s: Seq<char>, ch: char) -> nat
    decreases s.len(),
{
    if s.len() > 0 && s[0] == ch {
        1 + lead_count(s.drop_first(), ch)
    } else {
        0
    }
}

/// `s` without one trailing `\r`.
pub open spec fn without_cr(s: Seq<char>) -> Seq<char> {
    if s.len() > 0 && s.last() == '\r' {
        s.drop_last()
    } else {
        s
    }
}

/// The marker length of `line` for marker character `ch`: at least
/// `MIN_MARKER` characters `ch` at the start, followed by the end of the line
/// or — only where git writes a label — a space.
pub open spec fn marker_run_of(line: Seq<char>, ch: char, with_label: bool) -> Option<nat> {
    let b = without_cr(line);
    let n = lead_count(b, ch);
    if n < MIN_MARKER {
        None
    } else if b.len() == n || (with_label && b[n as int] == ' ') {
        Some(n)
    } else {
        None
    }
}

/// `line` is a marker of exactly `size` characters `ch`.
pub open spec fn is_marker_of(line: Seq<char>, ch: char, with_label: bool, size: nat) -> bool {
    marker_run_of(line, ch, with_label) == Some(size)
}

/// Index of the first line at or after `i` that ends the "ours" part: a base
/// marker `|||` or the separator `===` of length `size` (or the end).
pub open spec fn ours_end(raw: Seq<Seq<char>>, i: int, size: nat) -> int
    decreases raw.len() - i,
{
    if i < 0 || i >= raw.len() || is_marker_of(raw[i], '|', true, size) || is_marker_of(
        raw[i],
        '=',
        false,
        size,
    ) {
        i
    } else {
        ours_end(raw, i + 1, size)
    }
}

/// Index of the first line at or after `i` that is the separator (or the end).
pub open spec fn base_end(raw: Seq<Seq<char>>, i: int, size: nat) -> int
    decreases raw.len() - i,
{
    if i < 0 || i >= raw.len() || is_marker_of(raw[i], '=', false, size) {
        i
    } else {
        base_end(raw, i + 1, size)
    }
}

/// Index of the first line at or after `i` that closes the block (or the end).
pub open spec fn theirs_end(raw: Seq<Seq<char>>, i: int, size: nat) -> int
    decreases raw.len() - i,
{
    if i < 0 || i >= raw.len() || is_marker_of(raw[i], '>', true, size) {
        i
    } else {
        theirs_end(raw, i + 1, size)
    }
}

/// A fully closed conflict block in the model.
pub struct BlockModel {
    pub ours: Seq<Seq<char>>,
    pub base: Option<Seq<Seq<char>>>,
    pub theirs: Seq<Seq<char>>,
    /// Index after the closing marker line.
    pub end: int,
}

/// The conflict block opened at line `start` with marker length `size`, if it
/// closes cleanly: ours up to `|||`/`===`, an optional base up to `===`, then
/// theirs up to `>>>`, all markers of length `size`.
pub open spec fn block_of(raw: Seq<Seq<char>>, start: int, size: nat) -> Option<BlockModel> {
    let i1 = ours_end(raw, start + 1, size);
    let has_base = i1 < raw.len() && is_marker_of(raw[i1], '|', true, size);
    let i2 = if has_base {
        base_end(raw, i1 + 1, size)
    } else {
        i1
    };
    let base = if has_base {
        Some(raw.subrange(i1 + 1, i2))
    } else {
        None
    };
    if i2 >= raw.len() {
        None
    } else {
        let i3 = theirs_end(raw, i2 + 1, size);
        if i3 >= raw.len() {
            None
        } else {
            Some(
                BlockModel {
                    ours: raw.subrange(start + 1, i1),
                    base,
                    theirs: raw.subrange(i2 + 1, i3),
                    end: i3 + 1,
                },
            )
        }
    }
}

/// The conflict block starting at line `i`, if line `i` opens one.
pub open spec fn block_at(raw: Seq<Seq<char>>, i: int) -> Option<BlockModel> {
    match marker_run_of(raw[i], '<', true) {
        Some(size) => block_of(raw, i, size),
        None => None,
    }
}

/// The observable content of a segment.
pub struct SegmentModel {
    pub kind: Seq<char>,
    pub lines: Seq<Seq<char>>,
    pub ours: Seq<Seq<char>>,
    pub theirs: Seq<Seq<char>>,
    pub base: Option<Seq<Seq<char>>>,
}

pub open spec fn context_model(lines: Seq<Seq<char>>) -> SegmentModel {
    SegmentModel {
        kind: "context"@,
        lines,
        ours: Seq::empty(),
        theirs: Seq::empty(),
        base: None,
    }
}

pub open spec fn conflict_model(b: BlockModel) -> SegmentModel {
    SegmentModel {
        kind: "conflict"@,
        lines: Seq::empty(),
        ours: b.ours,
        theirs: b.theirs,
        base: b.base,
    }
}

proof fn lemma_ours_end(raw: Seq<Seq<char>>, i: int, size: nat)
    requires
        0 <= i,
    ensures
        i <= ours_end(raw, i, size),
        ours_end(raw, i, size) <= raw.len() || ours_end(raw, i, size) == i,
        forall|j: int|
            i <= j < ours_end(raw, i, size) ==> !is_marker_of(raw[j], '|', true, size)
                && !is_marker_of(raw[j], '=', false, size),
    decreases raw.len() - i,
{
    if i < raw.len() && !is_marker_of(raw[i], '|', true, size) && !is_marker_of(
        raw[i],
        '=',
        false,
        size,
    ) {
        lemma_ours_end(raw, i + 1, size);
    }
}

proof fn lemma_base_end(raw: Seq<Seq<char>>, i: int, size: nat)
    requires
        0 <= i,
    ensures
        i <= base_end(raw, i, size),
        base_end(raw, i, size) <= raw.len() || base_end(raw, i, size) == i,
    decreases raw.len() - i,
{
    if i < raw.len() && !is_marker_of(raw[i], '=', false, size) {
        lemma_base_end(raw, i + 1, size);
    }
}

proof fn lemma_theirs_end(raw: Seq<Seq<char>>, i: int, size: nat)
    requires
        0 <= i,
    ensures
        i <= theirs_end(raw, i, size),
        theirs_end(raw, i, size) <= raw.len() || theirs_end(raw, i, size) == i,
    decreases raw.len() - i,
{
    if i < raw.len() && !is_marker_of(raw[i], '>', true, size) {
        lemma_theirs_end(raw, i + 1, size);
    }
}

/// A block always ends after its opening line and within the file.
pub proof fn lemma_block_end(raw: Seq<Seq<char>>, i: int)
    requires
        0 <= i < raw.len(),
    ensures
        block_at(raw, i) matches Some(b) ==> i < b.end <= raw.len(),
{
    if let Some(size) = marker_run_of(raw[i], '<', true) {
        lemma_ours_end(raw, i + 1, size);
        let i1 = ours_end(raw, i + 1, size);
        if i1 < raw.len() && is_marker_of(raw[i1], '|', true, size) {
            lemma_base_end(raw, i1 + 1, size);
        }
        let i2 = if i1 < raw.len() && is_marker_of(raw[i1], '|', true, size) {
            base_end(raw, i1 + 1, size)
        } else {
            i1
        };
        if i2 < raw.len() {
            lemma_theirs_end(raw, i2 + 1, size);
        }
    }
}

/// The segments of the lines `raw[i..]`, given the pending context lines `ctx`
/// that precede them: runs of plain lines become one context segment, every
/// closed block one conflict segment.
pub open spec fn segments_from(raw: Seq<Seq<char>>, i: int, ctx: Seq<Seq<char>>) -> Seq<
    SegmentModel,
>
    decreases raw.len() - i,
{
    if i < 0 || i >= raw.len() {
        if ctx.len() > 0 {
            seq![context_model(ctx)]
        } else {
            Seq::empty()
        }
    } else {
        match block_at(raw, i) {
            None => segments_from(raw, i + 1, ctx.push(raw[i])),
            Some(b) => {
                proof {
                    lemma_block_end(raw, i);
                }
                let lead = if ctx.len() > 0 {
                    seq![context_model(ctx)]
                } else {
                    Seq::empty()
                };
                lead.push(conflict_model(b)) + segments_from(raw, b.end, Seq::empty())
            },
        }
    }
}

/// The lines of a file content for the editor: `\r\n` normalized to `\n`,
/// split at `\n`, without the empty piece after a trailing `\n`.
pub open spec fn editor_lines(content: Seq<char>) -> Seq<Seq<char>> {
    let pieces = split_on(crlf_to_lf(content), '\n');
    if pieces.last().len() == 0 {
        pieces.drop_last()
    } else {
        pieces
    }
}

/// `content` with every `\r\n` replaced by `\n`.
pub open spec fn crlf_to_lf(s: Seq<char>) -> Seq<char>
    decreases s.len(),
{
    if s.len() >= 2 && s[s.len() - 2] == '\r' && s.last() == '\n' {
        crlf_to_lf(s.take(s.len() - 2)).push('\n')
    } else if s.len() > 0 {
        crlf_to_lf(s.drop_last()).push(s.last())
    } else {
        Seq::empty()
    }
}

/// Number of `\r\n` pairs in `s`.
pub open spec fn count_crlf(s: Seq<char>) -> nat
    decreases s.len(),
{
    if s.len() == 0 {
        0
    } else {
        count_crlf(s.drop_last()) + if s.len() >= 2 && s[s.len() - 2] == '\r' && s.last()
            == '\n' {
            1nat
        } else {
            0nat
        }
    }
}

/// Number of `\n` in `s`.
pub open spec fn count_lf(s: Seq<char>) -> nat
    decreases s.len(),
{
    if s.len() == 0 {
        0
    } else {
        count_lf(s.drop_last()) + if s.last() == '\n' {
            1nat
        } else {
            0nat
        }
    }
}

/// The dominant line ending is CRLF: at least half of the line feeds are
/// preceded by a carriage return (a file without line feeds counts as LF).
pub open spec fn is_crlf_file(content: Seq<char>) -> bool {
    count_crlf(content) * 2 >= if count_lf(content) > 1 {
        count_lf(content)
    } else {
        1
    }
}

/// A model of a `ConflictFile` value.
pub struct ConflictFileModel {
    pub file: Seq<char>,
    pub segments: Seq<SegmentModel>,
    pub eol: Seq<char>,
    pub has_conflicts: bool,
}

/// Whether any of the segments is a conflict.
pub open spec fn any_conflict(segs: Seq<SegmentModel>) -> bool {
    exists|k: int| 0 <= k < segs.len() && segs[k].kind == "conflict"@
}

/// What `parse(file, content)` returns.
pub open spec fn parse_model(file: Seq<char>, content: Seq<char>) -> ConflictFileModel {
    let segs = segments_from(editor_lines(content), 0, Seq::empty());
    ConflictFileModel {
        file,
        segments: segs,
        eol: if is_crlf_file(content) {
            "crlf"@
        } else {
            "lf"@
        },
        has_conflicts: any_conflict(segs),
    }
}

/// The model of a `ConflictSegment` value.
pub open spec fn segment_view(s: ConflictSegment) -> SegmentModel {
    SegmentModel {
        kind: s.kind@,
        lines: string_views(s.lines@),
        ours: string_views(s.ours@),
        theirs: string_views(s.theirs@),
        base: match s.base {
            Some(b) => Some(string_views(b@)),
            None => None,
        },
    }
}

/// The models of a sequence of segments.
pub open spec fn seg_views(v: Seq<ConflictSegment>) -> Seq<SegmentModel> {
    Seq::new(v.len(), |i: int| segment_view(v[i]))
}

proof fn lemma_seg_views_push(v: Seq<ConflictSegment>, x: ConflictSegment)
    ensures
        seg_views(v.push(x)) == seg_views(v).push(segment_view(x)),
{
    assert(seg_views(v.push(x)) =~= seg_views(v).push(segment_view(x)));
}

/// The model of a `ConflictFile` value.
pub open spec fn conflict_file_view(f: ConflictFile) -> ConflictFileModel {
    ConflictFileModel {
        file: f.file@,
        segments: seg_views(f.segments@),
        eol: f.eol@,
        has_conflicts: f.has_conflicts,
    }
}

// ---------------------------------------------------------------------------
// Implementation
// ---------------------------------------------------------------------------

proof fn lemma_lead_count(s: Seq<char>, ch: char, n: int)
    requires
        0 <= n <= s.len(),
        forall|j: int| 0 <= j < n ==> s[j] == ch,
        n == s.len() || s[n] != ch,
    ensures
        lead_count(s, ch) == n,
    decreases n,
{
    if n > 0 {
        lemma_lead_count(s.drop_first(), ch, n - 1);
    }
}

/// Marker length of `line` (see [`marker_run_of`]).
fn marker_run(line: &[char], ch: char, with_label: bool) -> (r: Option<usize>)
    ensures
        match r {
            Some(n) => marker_run_of(line@, ch, with_label) == Some(n as nat),
            None => marker_run_of(line@, ch, with_label) is None,
        },
{
    let len = if line.len() > 0 && line[line.len() - 1] == '\r' {
        line.len() - 1
    } else {
        line.len()
    };
    let ghost b = without_cr(line@);
    assert(b == line@.take(len as int));
    let mut n: usize = 0;
    while n < len && line[n] == ch
        invariant
            n <= len <= line@.len(),
            b == line@.take(len as int),
            forall|j: int| 0 <= j < n ==> b[j] == ch,
        decreases len - n,
    {
        n = n + 1;
    }
    proof {
        lemma_lead_count(b, ch, n as int);
    }
    if n < MIN_MARKER {
        return None;
    }
    if len == n || (with_label && line[n] == ' ') {
        Some(n)
    } else {
        None
    }
}

/// `line` is a marker of exactly `size` characters `ch`.
fn is_marker(line: &[char], ch: char, with_label: bool, size: usize) -> (r: bool)
    ensures
        r == is_marker_of(line@, ch, with_label, size as nat),
{
    match marker_run(line, ch, with_label) {
        Some(n) => n == size,
        None => false,
    }
}

/// A closed conflict block found by [`scan_block`].
struct Block {
    ours: Vec<Vec<char>>,
    base: Option<Vec<Vec<char>>>,
    theirs: Vec<Vec<char>>,
    end: usize,
}

/// Copies the lines `raw[from..to]`.
fn copy_lines(raw: &Vec<Vec<char>>, from: usize, to: usize) -> (r: Vec<Vec<char>>)
    requires
        from <= to <= raw@.len(),
    ensures
        views(r@) == views(raw@).subrange(from as int, to as int),
{
    let mut r: Vec<Vec<char>> = Vec::new();
    let mut i = from;
    while i < to
        invariant
            from <= i <= to <= raw@.len(),
            views(r@) == views(raw@).subrange(from as int, i as int),
        decreases to - i,
    {
        let ghost old_r = r@;
        let line = vec_from_range(raw[i].as_slice(), 0, raw[i].len());
        r.push(line);
        proof {
            lemma_views_push(old_r, line);
            assert(line@ =~= raw@[i as int]@);
            assert(views(raw@).subrange(from as int, i + 1) =~= views(raw@).subrange(
                from as int,
                i as int,
            ).push(views(raw@)[i as int]));
        }
        i = i + 1;
    }
    r
}

/// Reads the conflict opened at line `start` with marker length `size` (see
/// [`block_of`]).
fn scan_block(raw: &Vec<Vec<char>>, start: usize, size: usize) -> (r: Option<Block>)
    requires
        start < raw@.len(),
    ensures
        match r {
            None => block_of(views(raw@), start as int, size as nat) is None,
            Some(b) => block_of(views(raw@), start as int, size as nat) == Some(
                BlockModel {
                    ours: views(b.ours@),
                    base: match b.base {
                        Some(v) => Some(views(v@)),
                        None => None,
                    },
                    theirs: views(b.theirs@),
                    end: b.end as int,
                },
            ),
        },
{
    let ghost rv = views(raw@);
    let ghost sz = size as nat;
    let n = raw.len();
    proof {
        lemma_views_push(raw@, raw@[0]);
    }
    let mut i = start + 1;
    loop
        invariant
            start < i <= raw@.len(),
            rv == views(raw@),
            sz == size as nat,
            ours_end(rv, i as int, sz) == ours_end(rv, start + 1, sz),
        ensures
            ours_end(rv, i as int, sz) == i,
        decreases raw@.len() - i,
    {
        if i >= raw.len() {
            break;
        }
        assert(rv[i as int] == raw@[i as int]@);
        let line = raw[i].as_slice();
        let m1 = is_marker(line, '|', true, size);
        if m1 || is_marker(line, '=', false, size) {
            break;
        }
        assert(ours_end(rv, i as int, sz) == ours_end(rv, i + 1, sz));
        i = i + 1;
    }
    let i1 = i;
    let ours = copy_lines(raw, start + 1, i1);
    let mut base: Option<Vec<Vec<char>>> = None;
    if i < raw.len() && is_marker(raw[i].as_slice(), '|', true, size) {
        assert(rv[i as int] == raw@[i as int]@);
        i = i + 1;
        loop
            invariant
                i1 < i <= raw@.len(),
                rv == views(raw@),
                sz == size as nat,
                base_end(rv, i as int, sz) == base_end(rv, i1 + 1, sz),
            ensures
                base_end(rv, i as int, sz) == i,
            decreases raw@.len() - i,
        {
            if i >= raw.len() {
                break;
            }
            assert(rv[i as int] == raw@[i as int]@);
            if is_marker(raw[i].as_slice(), '=', false, size) {
                break;
            }
            i = i + 1;
        }
        base = Some(copy_lines(raw, i1 + 1, i));
    } else if i < raw.len() {
        assert(rv[i as int] == raw@[i as int]@);
    }
    if i >= raw.len() {
        return None;
    }
    let i2 = i;
    i = i + 1;
    loop
        invariant
            i2 < i <= raw@.len(),
            rv == views(raw@),
            sz == size as nat,
            theirs_end(rv, i as int, sz) == theirs_end(rv, i2 + 1, sz),
        ensures
            theirs_end(rv, i as int, sz) == i,
        decreases raw@.len() - i,
    {
        if i >= raw.len() {
            break;
        }
        assert(rv[i as int] == raw@[i as int]@);
        if is_marker(raw[i].as_slice(), '>', true, size) {
            break;
        }
        i = i + 1;
    }
    if i >= raw.len() {
        return None;
    }
    let theirs = copy_lines(raw, i2 + 1, i);
    Some(Block { ours, base, theirs, end: i + 1 })
}

/// Strings for a sequence of character vectors.
fn to_strings(v: &Vec<Vec<char>>) -> (r: Vec<String>)
    ensures
        string_views(r@) == views(v@),
{
    let mut r: Vec<String> = Vec::new();
    proof {
        lemma_string_views_empty(r@);
    }
    let mut i: usize = 0;
    while i < v.len()
        invariant
            i <= v@.len(),
            string_views(r@) == views(v@).take(i as int),
        decreases v@.len() - i,
    {
        let ghost old_r = r@;
        let st = string_from(v[i].as_slice());
        r.push(st);
        proof {
            lemma_string_views_push(old_r, st);
            lemma_views_push(v@, v@[0]);
            assert(views(v@).take(i + 1) =~= views(v@).take(i as int).push(views(v@)[i as int]));
        }
        i = i + 1;
    }
    proof {
        lemma_views_push(v@, v@[0]);
    }
    assert(views(v@).take(v@.len() as int) =~= views(v@));
    r
}

/// A context segment.
fn context(lines: &Vec<Vec<char>>) -> (s: ConflictSegment)
    ensures
        segment_view(s) == context_model(views(lines@)),
{
    let r = ConflictSegment {
        kind: String::from_str("context"),
        lines: to_strings(lines),
        ours: Vec::new(),
        theirs: Vec::new(),
        base: None,
    };
    proof {
        lemma_string_views_empty(r.ours@);
        lemma_string_views_empty(r.theirs@);
    }
    r
}

/// A conflict segment for a block.
fn conflict(b: &Block) -> (s: ConflictSegment)
    ensures
        segment_view(s) == conflict_model(
            BlockModel {
                ours: views(b.ours@),
                base: match b.base {
                    Some(v) => Some(views(v@)),
                    None => None,
                },
                theirs: views(b.theirs@),
                end: b.end as int,
            },
        ),
{
    let base = match &b.base {
        Some(v) => Some(to_strings(v)),
        None => None,
    };
    let r = ConflictSegment {
        kind: String::from_str("conflict"),
        lines: Vec::new(),
        ours: to_strings(&b.ours),
        theirs: to_strings(&b.theirs),
        base,
    };
    proof {
        lemma_string_views_empty(r.lines@);
    }
    r
}

/// Replaces every `\r\n` by `\n`.
fn normalize_crlf(s: &[char]) -> (r: Vec<char>)
    ensures
        r@ == crlf_to_lf(s@),
{
    let mut r: Vec<char> = Vec::new();
    let mut i: usize = 0;
    while i < s.len()
        invariant
            i <= s@.len(),
            r@ == crlf_to_lf(s@.take(i as int)),
            0 < i < s@.len() && s@[i - 1] == '\r' ==> s@[i as int] != '\n',
        decreases s@.len() - i,
    {
        if s[i] == '\r' && i + 1 < s.len() && s[i + 1] == '\n' {
            r.push('\n');
            assert(s@.take(i + 2).take(i as int) == s@.take(i as int));
            i = i + 2;
        } else {
            proof {
                let t = s@.take(i + 1);
                assert(t.drop_last() == s@.take(i as int));
            }
            r.push(s[i]);
            i = i + 1;
        }
    }
    assert(s@.take(s@.len() as int) == s@);
    r
}

/// Counts `\r\n` pairs and `\n` in `s`.
fn count_endings(s: &[char]) -> (r: (usize, usize))
    ensures
        r.0 == count_crlf(s@),
        r.1 == count_lf(s@),
{
    let mut crlf: usize = 0;
    let mut lf: usize = 0;
    let mut i: usize = 0;
    while i < s.len()
        invariant
            i <= s@.len(),
            crlf == count_crlf(s@.take(i as int)),
            lf == count_lf(s@.take(i as int)),
            crlf <= i,
            lf <= i,
        decreases s@.len() - i,
    {
        assert(s@.take(i + 1).drop_last() == s@.take(i as int));
        if s[i] == '\n' {
            lf = lf + 1;
            if i > 0 && s[i - 1] == '\r' {
                crlf = crlf + 1;
            }
        }
        i = i + 1;
    }
    assert(s@.take(s@.len() as int) == s@);
    (crlf, lf)
}

/// Splits the file content into context and conflict segments.
pub fn parse(file: &str, content: &str) -> (r: ConflictFile)
    ensures
        conflict_file_view(r) == parse_model(file@, content@),
{
    let cs = chars_of(content);
    let (crlf_n, lf_n) = count_endings(cs.as_slice());
    let lf_min: usize = if lf_n > 1 {
        lf_n
    } else {
        1
    };
    let crlf = crlf_n as u128 * 2 >= lf_min as u128;
    let eol = if crlf {
        String::from_str("crlf")
    } else {
        String::from_str("lf")
    };

    let normalized = normalize_crlf(cs.as_slice());
    let mut raw = split_chars(normalized.as_slice(), '\n');
    proof {
        crate::text::lemma_split_on_nonempty(normalized@, '\n');
    }
    if raw[raw.len() - 1].len() == 0 {
        let ghost before = views(raw@);
        raw.pop();
        assert(views(raw@) =~= before.drop_last());
    }
    let ghost rv = views(raw@);
    assert(rv == editor_lines(content@));
    let ghost full = segments_from(rv, 0, Seq::empty());

    let mut segments: Vec<ConflictSegment> = Vec::new();
    let mut ctx: Vec<Vec<char>> = Vec::new();
    let mut has_conflicts = false;
    proof {
        lemma_views_empty(ctx@);
        assert(seg_views(segments@) + segments_from(rv, 0, views(ctx@)) =~= full);
    }
    let mut i: usize = 0;
    while i < raw.len()
        invariant
            i <= raw@.len(),
            rv == views(raw@),
            full == segments_from(rv, 0, Seq::empty()),
            seg_views(segments@) + segments_from(rv, i as int, views(ctx@)) == full,
            has_conflicts == any_conflict(seg_views(segments@)),
        decreases raw@.len() - i,
    {
        let ghost sv = seg_views(segments@);
        let ghost cv = views(ctx@);
        let ghost old_i = i as int;
        assert(rv[old_i] == raw@[old_i]@);
        let block = match marker_run(raw[i].as_slice(), '<', true) {
            Some(size) => scan_block(&raw, i, size),
            None => None,
        };
        match block {
            None => {
                assert(block_at(rv, old_i) is None);
                assert(segments_from(rv, old_i, cv) == segments_from(
                    rv,
                    old_i + 1,
                    cv.push(rv[old_i]),
                ));
                let line = vec_from_range(raw[i].as_slice(), 0, raw[i].len());
                let ghost old_c = ctx@;
                ctx.push(line);
                proof {
                    lemma_views_push(old_c, line);
                    assert(line@ =~= rv[old_i]);
                }
                i = i + 1;
            },
            Some(b) => {
                let ghost bm = BlockModel {
                    ours: views(b.ours@),
                    base: match &b.base {
                        Some(v) => Some(views(v@)),
                        None => None,
                    },
                    theirs: views(b.theirs@),
                    end: b.end as int,
                };
                assert(block_at(rv, old_i) == Some(bm));
                proof {
                    lemma_block_end(rv, old_i);
                }
                let ghost lead = if cv.len() > 0 {
                    seq![context_model(cv)]
                } else {
                    Seq::<SegmentModel>::empty()
                };
                assert(segments_from(rv, old_i, cv) == lead.push(conflict_model(bm))
                    + segments_from(rv, bm.end, Seq::empty()));
                if ctx.len() > 0 {
                    let seg = context(&ctx);
                    let ghost o = segments@;
                    segments.push(seg);
                    proof {
                        lemma_seg_views_push(o, seg);
                        assert(seq![context_model(cv)] =~= Seq::<SegmentModel>::empty().push(
                            context_model(cv),
                        ));
                    }
                }
                assert(seg_views(segments@) =~= sv + lead);
                let cseg = conflict(&b);
                let ghost o2 = segments@;
                segments.push(cseg);
                proof {
                    lemma_seg_views_push(o2, cseg);
                }
                assert(seg_views(segments@) =~= sv + lead.push(conflict_model(bm)));
                ctx = Vec::new();
                proof {
                    lemma_views_empty(ctx@);
                }
                has_conflicts = true;
                i = b.end;
                proof {
                    let nv = seg_views(segments@);
                    assert(nv[nv.len() - 1] == conflict_model(bm));
                    assert(any_conflict(nv));
                    assert(nv + segments_from(rv, i as int, views(ctx@)) =~= sv + segments_from(
                        rv,
                        old_i,
                        cv,
                    ));
                }
            },
        }
    }
    let ghost sv = seg_views(segments@);
    let ghost cv = views(ctx@);
    if ctx.len() > 0 {
        let seg = context(&ctx);
        let ghost o = segments@;
        segments.push(seg);
        proof {
            lemma_seg_views_push(o, seg);
            reveal_strlit("context");
            reveal_strlit("conflict");
            let nv = seg_views(segments@);
            assert(nv =~= full);
            if any_conflict(sv) {
                let k = choose|k: int| 0 <= k < sv.len() && sv[k].kind == "conflict"@;
                assert(nv[k] == sv[k]);
            }
            if any_conflict(nv) {
                let k = choose|k: int| 0 <= k < nv.len() && nv[k].kind == "conflict"@;
                assert(nv[nv.len() - 1].kind == "context"@);
                assert("context"@.len() != "conflict"@.len());
                assert(k != nv.len() - 1);
                assert(nv[k] == sv[k]);
            }
        }
    } else {
        assert(sv =~= full);
    }
    let r = ConflictFile {
        file: string_from(chars_of(file).as_slice()),
        segments,
        eol,
        has_conflicts,
    };
    assert(r.file@ == file@);
    assert(seg_views(r.segments@) == full);
    assert(r.has_conflicts == any_conflict(full));
    assert(crlf == is_crlf_file(content@));
    assert(r.eol@ == parse_model(file@, content@).eol);
    r
}

// ---------------------------------------------------------------------------
// Laws
// ---------------------------------------------------------------------------

/// How many lines of the file a segment stands for: a context segment its
/// lines; a conflict both sides, the base section and their marker lines.
pub open spec fn seg_weight(s: SegmentModel) -> nat {
    let markers: nat = if s.kind == "conflict"@ {
        3
    } else {
        0
    };
    let base: nat = match s.base {
        Some(b) => b.len() + 1,
        None => 0,
    };
    s.lines.len() + s.ours.len() + s.theirs.len() + base + markers
}

/// The lines that a sequence of segments stands for, together.
pub open spec fn total_weight(segs: Seq<SegmentModel>) -> nat
    decreases segs.len(),
{
    if segs.len() == 0 {
        0
    } else {
        total_weight(segs.drop_last()) + seg_weight(segs.last())
    }
}

proof fn lemma_total_weight_append(a: Seq<SegmentModel>, b: Seq<SegmentModel>)
    ensures
        total_weight(a + b) == total_weight(a) + total_weight(b),
    decreases b.len(),
{
    if b.len() > 0 {
        lemma_total_weight_append(a, b.drop_last());
        assert((a + b).drop_last() =~= a + b.drop_last());
    } else {
        assert(a + b =~= a);
    }
}

proof fn lemma_kinds_differ()
    ensures
        "context"@ != "conflict"@,
{
    reveal_strlit("context");
    reveal_strlit("conflict");
    assert("context"@.len() != "conflict"@.len());
}

proof fn lemma_segments_weight(raw: Seq<Seq<char>>, i: int, ctx: Seq<Seq<char>>)
    requires
        0 <= i <= raw.len(),
    ensures
        total_weight(segments_from(raw, i, ctx)) == ctx.len() + (raw.len() - i),
    decreases raw.len() - i,
{
    lemma_kinds_differ();
    let lead = if ctx.len() > 0 {
        seq![context_model(ctx)]
    } else {
        Seq::<SegmentModel>::empty()
    };
    assert(total_weight(lead) == ctx.len()) by {
        assert(total_weight(Seq::<SegmentModel>::empty()) == 0);
        if ctx.len() > 0 {
            assert(lead.drop_last() =~= Seq::<SegmentModel>::empty());
            assert(lead.last() == context_model(ctx));
            assert(seg_weight(context_model(ctx)) == ctx.len());
        }
    }
    if i < raw.len() {
        match block_at(raw, i) {
            None => {
                lemma_segments_weight(raw, i + 1, ctx.push(raw[i]));
            },
            Some(b) => {
                lemma_block_end(raw, i);
                let size = marker_run_of(raw[i], '<', true)->0;
                lemma_ours_end(raw, i + 1, size);
                let i1 = ours_end(raw, i + 1, size);
                if i1 < raw.len() && is_marker_of(raw[i1], '|', true, size) {
                    lemma_base_end(raw, i1 + 1, size);
                }
                let i2 = if i1 < raw.len() && is_marker_of(raw[i1], '|', true, size) {
                    base_end(raw, i1 + 1, size)
                } else {
                    i1
                };
                lemma_theirs_end(raw, i2 + 1, size);
                assert(seg_weight(conflict_model(b)) == b.end - i);
                lemma_segments_weight(raw, b.end, Seq::empty());
                let rest = segments_from(raw, b.end, Seq::empty());
                lemma_total_weight_append(lead.push(conflict_model(b)), rest);
                assert(lead.push(conflict_model(b)).drop_last() =~= lead);
            },
        }
    }
}

/// Nothing of a conflicted file is lost in the editor: every line is a
/// context line, a line of one side or of the base section of a conflict,
/// or one of that conflict's marker lines.
pub proof fn lemma_parse_keeps_every_line(file: Seq<char>, content: Seq<char>)
    ensures
        total_weight(parse_model(file, content).segments) == editor_lines(content).len(),
{
    lemma_segments_weight(editor_lines(content), 0, Seq::empty());
}

proof fn lemma_plain_segments(raw: Seq<Seq<char>>, i: int, ctx: Seq<Seq<char>>)
    requires
        0 <= i <= raw.len(),
        forall|k: int| 0 <= k < raw.len() ==> block_at(raw, k) is None,
    ensures
        segments_from(raw, i, ctx) == if ctx.len() + (raw.len() - i) > 0 {
            seq![context_model(ctx + raw.subrange(i, raw.len() as int))]
        } else {
            Seq::<SegmentModel>::empty()
        },
    decreases raw.len() - i,
{
    if i < raw.len() {
        lemma_plain_segments(raw, i + 1, ctx.push(raw[i]));
        assert(ctx.push(raw[i]) + raw.subrange(i + 1, raw.len() as int) =~= ctx + raw.subrange(
            i,
            raw.len() as int,
        ));
    } else {
        assert(ctx + raw.subrange(i, raw.len() as int) =~= ctx);
    }
}

/// A file in which no line opens a complete conflict block is one context
/// segment with all its lines (none for an empty file), and has no conflicts.
pub proof fn lemma_plain_file(file: Seq<char>, content: Seq<char>)
    requires
        forall|k: int|
            0 <= k < editor_lines(content).len() ==> block_at(editor_lines(content), k) is None,
    ensures
        parse_model(file, content).segments == if editor_lines(content).len() > 0 {
            seq![context_model(editor_lines(content))]
        } else {
            Seq::<SegmentModel>::empty()
        },
        !parse_model(file, content).has_conflicts,
{
    let raw = editor_lines(content);
    lemma_plain_segments(raw, 0, Seq::empty());
    assert(Seq::<Seq<char>>::empty() + raw.subrange(0, raw.len() as int) =~= raw);
    lemma_kinds_differ();
    let segs = parse_model(file, content).segments;
    assert forall|k: int| 0 <= k < segs.len() implies segs[k].kind != "conflict"@ by {
        assert(segs[k] == context_model(raw));
    }
}

} // verus!
