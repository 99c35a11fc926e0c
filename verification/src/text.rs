//! Character-level text helpers shared by the parsers: conversion between
//! strings and character sequences, and the mathematical models of splitting,
//! trimming, case folding and searching that the parsers' contracts use.

use vstd::prelude::*;

verus! {

// ---------------------------------------------------------------------------
// Conversion
// ---------------------------------------------------------------------------

/// The characters of `s`, in order.
pub fn chars_of(s: &str) -> (v: Vec<char>)
    ensures
        v@ == s@,
{
    let mut v: Vec<char> = Vec::new();
    for c in it: s.chars()
        invariant
            v@ == it.seq().take(it.index() as int),
            it.seq() == s@,
    {
        v.push(c);
    }
    v
}

/// Appends one character to a string (`String::push`).
#[verifier::external_body]
pub(crate) fn push_char(s: &mut String, c: char)
    ensures
        final(s)@ == old(s)@.push(c),
{
    s.push(c);
}

/// Appends a string slice (vstd's `append`, which is `+=`).
pub(crate) fn push_str(s: &mut String, t: &str)
    ensures
        final(s)@ == old(s)@ + t@,
{
    s.append(t);
}

/// The string made of the characters of `v`.
pub fn string_from(v: &[char]) -> (s: String)
    ensures
        s@ == v@,
{
    let mut s = String::new();
    let mut i: usize = 0;
    while i < v.len()
        invariant
            i <= v@.len(),
            s@ == v@.take(i as int),
        decreases v@.len() - i,
    {
        push_char(&mut s, v[i]);
        i = i + 1;
        assert(v@.take(i as int) == v@.take((i - 1) as int).push(v@[i - 1]));
    }
    assert(v@.take(v@.len() as int) == v@);
    s
}

/// The string for the characters `v[from..to]`.
pub fn string_from_range(v: &[char], from: usize, to: usize) -> (s: String)
    requires
        from <= to <= v@.len(),
    ensures
        s@ == v@.subrange(from as int, to as int),
{
    let mut s = String::new();
    let mut i: usize = from;
    while i < to
        invariant
            from <= i <= to <= v@.len(),
            s@ == v@.subrange(from as int, i as int),
        decreases to - i,
    {
        push_char(&mut s, v[i]);
        i = i + 1;
        assert(v@.subrange(from as int, i as int) == v@.subrange(from as int, (i - 1) as int).push(
            v@[i - 1],
        ));
    }
    s
}

/// A copy of a character slice as a vector.
pub fn vec_from_range(v: &[char], from: usize, to: usize) -> (r: Vec<char>)
    requires
        from <= to <= v@.len(),
    ensures
        r@ == v@.subrange(from as int, to as int),
{
    let mut r: Vec<char> = Vec::new();
    let mut i: usize = from;
    while i < to
        invariant
            from <= i <= to <= v@.len(),
            r@ == v@.subrange(from as int, i as int),
        decreases to - i,
    {
        r.push(v[i]);
        i = i + 1;
        assert(v@.subrange(from as int, i as int) == v@.subrange(from as int, (i - 1) as int).push(
            v@[i - 1],
        ));
    }
    r
}

/// Equality of two character slices.
pub fn chars_eq(a: &[char], b: &[char]) -> (r: bool)
    ensures
        r == (a@ == b@),
{
    if a.len() != b.len() {
        return false;
    }
    let mut i: usize = 0;
    while i < a.len()
        invariant
            a@.len() == b@.len(),
            i <= a@.len(),
            forall|j: int| 0 <= j < i ==> a@[j] == b@[j],
        decreases a@.len() - i,
    {
        if a[i] != b[i] {
            return false;
        }
        i = i + 1;
    }
    assert(a@ =~= b@);
    true
}

/// Equality of a character slice and a string slice.
pub fn chars_eq_str(a: &[char], b: &str) -> (r: bool)
    ensures
        r == (a@ == b@),
{
    let bv = chars_of(b);
    chars_eq(a, bv.as_slice())
}

// ---------------------------------------------------------------------------
// Prefixes and substrings
// ---------------------------------------------------------------------------

/// `p` is a prefix of `s`.
pub open spec fn has_prefix(s: Seq<char>, p: Seq<char>) -> bool {
    p.len() <= s.len() && s.subrange(0, p.len() as int) == p
}

/// `p` occurs in `s` starting at index `i`.
pub open spec fn occurs_at(s: Seq<char>, p: Seq<char>, i: int) -> bool {
    0 <= i && i + p.len() <= s.len() && s.subrange(i, i + p.len()) == p
}

/// `p` occurs somewhere in `s`.
pub open spec fn has_infix(s: Seq<char>, p: Seq<char>) -> bool {
    exists|i: int| occurs_at(s, p, i)
}

/// Whether `p` occurs in `s` at index `i`.
pub fn matches_at(s: &[char], p: &[char], i: usize) -> (r: bool)
    ensures
        r == occurs_at(s@, p@, i as int),
{
    if i > s.len() || p.len() > s.len() - i {
        return false;
    }
    let mut k: usize = 0;
    while k < p.len()
        invariant
            s@.len() <= usize::MAX,
            i + p@.len() <= s@.len(),
            k <= p@.len(),
            forall|j: int| 0 <= j < k ==> s@[i + j] == p@[j],
        decreases p@.len() - k,
    {
        if s[i + k] != p[k] {
            assert(s@.subrange(i as int, i + p@.len())[k as int] != p@[k as int]);
            return false;
        }
        k = k + 1;
    }
    assert(s@.subrange(i as int, i + p@.len()) =~= p@);
    true
}

/// Whether `s` starts with `p`.
pub fn starts_with(s: &[char], p: &[char]) -> (r: bool)
    ensures
        r == has_prefix(s@, p@),
{
    matches_at(s, p, 0)
}

/// Whether `s` starts with the string `p`.
pub fn starts_with_str(s: &[char], p: &str) -> (r: bool)
    ensures
        r == has_prefix(s@, p@),
{
    let pv = chars_of(p);
    starts_with(s, pv.as_slice())
}

/// `s` without the prefix `p`, if `s` starts with it (`str::strip_prefix`).
pub fn strip_prefix_str(s: &[char], p: &str) -> (r: Option<Vec<char>>)
    ensures
        match r {
            Some(t) => has_prefix(s@, p@) && t@ == s@.skip(p@.len() as int),
            None => !has_prefix(s@, p@),
        },
{
    let pv = chars_of(p);
    if starts_with(s, pv.as_slice()) {
        let t = vec_from_range(s, pv.len(), s.len());
        assert(t@ =~= s@.skip(p@.len() as int));
        Some(t)
    } else {
        None
    }
}

// ---------------------------------------------------------------------------
// Space-separated fields
// ---------------------------------------------------------------------------

/// Length of the leading run of non-space characters of `t`.
pub open spec fn first_space(t: Seq<char>) -> nat
    decreases t.len(),
{
    if t.len() == 0 || t[0] == ' ' {
        0
    } else {
        1 + first_space(t.drop_first())
    }
}

/// The rest of `t` after its `m`-th space, if `t` has that many spaces (the
/// last piece of `splitn(m + 1, ' ')`).
pub open spec fn after_spaces(t: Seq<char>, m: nat) -> Option<Seq<char>>
    decreases t.len(), m,
{
    if m == 0 {
        Some(t)
    } else if first_space(t) >= t.len() {
        None
    } else {
        proof {
            lemma_first_space_bound(t);
        }
        after_spaces(t.skip(first_space(t) as int + 1), (m - 1) as nat)
    }
}

/// The `k`-th space-separated field of `t` (counted from 0), if `t` has at
/// least `k` spaces.
pub open spec fn field(t: Seq<char>, k: nat) -> Option<Seq<char>> {
    match after_spaces(t, k) {
        Some(rest) => Some(rest.take(first_space(rest) as int)),
        None => None,
    }
}

pub proof fn lemma_first_space_bound(t: Seq<char>)
    ensures
        first_space(t) <= t.len(),
        first_space(t) < t.len() ==> t[first_space(t) as int] == ' ',
        forall|j: int| 0 <= j < first_space(t) ==> t[j] != ' ',
    decreases t.len(),
{
    if t.len() > 0 && t[0] != ' ' {
        lemma_first_space_bound(t.drop_first());
        assert forall|j: int| 0 <= j < first_space(t) implies t[j] != ' ' by {
            if j > 0 {
                assert(t[j] == t.drop_first()[j - 1]);
            }
        }
    }
}

/// Index of the first space in `s` at or after `from` (or the length).
pub fn word_end(s: &[char], from: usize) -> (r: usize)
    requires
        from <= s@.len(),
    ensures
        from <= r <= s@.len(),
        r - from == first_space(s@.skip(from as int)),
{
    let mut j = from;
    while j < s.len() && s[j] != ' '
        invariant
            from <= j <= s@.len(),
            first_space(s@.skip(from as int)) == (j - from) + first_space(s@.skip(j as int)),
        decreases s@.len() - j,
    {
        assert(s@.skip(j as int).drop_first() =~= s@.skip(j + 1));
        j = j + 1;
    }
    j
}

/// Start index of the rest of `s` after its `m`-th space, if any.
pub fn skip_spaces(s: &[char], m: usize) -> (r: Option<usize>)
    ensures
        match r {
            Some(k) => k <= s@.len() && after_spaces(s@, m as nat) == Some(s@.skip(k as int)),
            None => after_spaces(s@, m as nat) is None,
        },
{
    let mut k: usize = 0;
    let mut left: usize = m;
    assert(s@.skip(0) =~= s@);
    while left > 0
        invariant
            k <= s@.len(),
            left <= m,
            after_spaces(s@, m as nat) == after_spaces(s@.skip(k as int), left as nat),
        decreases left,
    {
        let e = word_end(s, k);
        if e >= s.len() {
            return None;
        }
        assert(s@.skip(k as int).skip(e - k + 1) =~= s@.skip(e + 1));
        k = e + 1;
        left = left - 1;
    }
    Some(k)
}

/// The `k`-th space-separated field of `s`, if any.
pub fn field_of(s: &[char], k: usize) -> (r: Option<Vec<char>>)
    ensures
        match r {
            Some(f) => field(s@, k as nat) == Some(f@),
            None => field(s@, k as nat) is None,
        },
{
    match skip_spaces(s, k) {
        Some(start) => {
            let e = word_end(s, start);
            let f = vec_from_range(s, start, e);
            assert(f@ =~= s@.skip(start as int).take(first_space(s@.skip(start as int)) as int));
            Some(f)
        },
        None => None,
    }
}

/// Index of the first character of `s` that satisfies `p` (or the length).
pub open spec fn first_where(s: Seq<char>, p: spec_fn(char) -> bool) -> nat
    decreases s.len(),
{
    if s.len() == 0 || p(s[0]) {
        0
    } else {
        1 + first_where(s.drop_first(), p)
    }
}

/// `first_where` is the index of the first match.
pub proof fn lemma_first_where(s: Seq<char>, p: spec_fn(char) -> bool, i: int)
    requires
        0 <= i <= s.len(),
        forall|j: int| 0 <= j < i ==> !p(#[trigger] s[j]),
        i == s.len() || p(s[i]),
    ensures
        first_where(s, p) == i,
    decreases i,
{
    if i > 0 {
        assert forall|j: int| 0 <= j < i - 1 implies !p(#[trigger] s.drop_first()[j]) by {
            assert(s.drop_first()[j] == s[j + 1]);
        }
        lemma_first_where(s.drop_first(), p, i - 1);
    }
}

/// Index of the last character of `s` that satisfies `p` (or -1).
pub open spec fn last_where(s: Seq<char>, p: spec_fn(char) -> bool) -> int
    decreases s.len(),
{
    if s.len() == 0 {
        -1
    } else if p(s.last()) {
        s.len() - 1
    } else {
        last_where(s.drop_last(), p)
    }
}

/// `last_where` is the index of the last match.
pub proof fn lemma_last_where(s: Seq<char>, p: spec_fn(char) -> bool, i: int)
    requires
        -1 <= i < s.len(),
        forall|j: int| i < j < s.len() ==> !p(#[trigger] s[j]),
        i == -1 || p(s[i]),
    ensures
        last_where(s, p) == i,
    decreases s.len(),
{
    if s.len() > 0 && i < s.len() - 1 {
        assert forall|j: int| i < j < s.len() - 1 implies !p(#[trigger] s.drop_last()[j]) by {
            assert(s.drop_last()[j] == s[j]);
        }
        lemma_last_where(s.drop_last(), p, i);
    }
}

/// `s` with every `from` replaced by `to`.
pub open spec fn replace_char(s: Seq<char>, from: char, to: char) -> Seq<char> {
    Seq::new(s.len(), |i: int| if s[i] == from { to } else { s[i] })
}

/// `s.replace(from, to)` for single characters.
pub fn replace_chars(s: &[char], from: char, to: char) -> (r: Vec<char>)
    ensures
        r@ == replace_char(s@, from, to),
{
    let mut r: Vec<char> = Vec::new();
    let mut i: usize = 0;
    while i < s.len()
        invariant
            i <= s@.len(),
            r@ == replace_char(s@, from, to).take(i as int),
        decreases s@.len() - i,
    {
        if s[i] == from {
            r.push(to);
        } else {
            r.push(s[i]);
        }
        i = i + 1;
        assert(r@ =~= replace_char(s@, from, to).take(i as int));
    }
    assert(replace_char(s@, from, to).take(s@.len() as int) =~= replace_char(s@, from, to));
    r
}

/// The predicate "equals `c`".
pub open spec fn is_char(c: char) -> spec_fn(char) -> bool {
    |x: char| x == c
}

/// The predicate "is whitespace".
pub open spec fn ws_pred() -> spec_fn(char) -> bool {
    |x: char| is_ws(x)
}

/// The rest of `t` after its `m`-th occurrence of `c`, if it has that many
/// (the last piece of `splitn(m + 1, c)`).
pub open spec fn after_char(t: Seq<char>, c: char, m: nat) -> Option<Seq<char>>
    decreases t.len(), m,
{
    if m == 0 {
        Some(t)
    } else {
        let k = first_where(t, is_char(c));
        if k >= t.len() {
            None
        } else {
            after_char(t.skip(k as int + 1), c, (m - 1) as nat)
        }
    }
}

/// The `k`-th piece of `t` split at `c` (counted from 0), if `t` has at
/// least `k` occurrences of `c`.
pub open spec fn piece(t: Seq<char>, c: char, k: nat) -> Option<Seq<char>> {
    match after_char(t, c, k) {
        Some(rest) => Some(rest.take(first_where(rest, is_char(c)) as int)),
        None => None,
    }
}

/// Index of the first `c` in `s` at or after `from` (or the length).
pub fn next_char(s: &[char], c: char, from: usize) -> (r: usize)
    requires
        from <= s@.len(),
    ensures
        from <= r <= s@.len(),
        r - from == first_where(s@.skip(from as int), is_char(c)),
{
    let mut j = from;
    while j < s.len() && s[j] != c
        invariant
            from <= j <= s@.len(),
            forall|i: int| from <= i < j ==> s@[i] != c,
        decreases s@.len() - j,
    {
        j = j + 1;
    }
    proof {
        let t = s@.skip(from as int);
        assert forall|i: int| 0 <= i < j - from implies !(is_char(c))(#[trigger] t[i]) by {
            assert(t[i] == s@[from + i]);
        }
        lemma_first_where(t, is_char(c), j - from);
    }
    j
}

/// Start index of the rest of `s` after its `m`-th `c`, if any.
pub fn skip_pieces(s: &[char], c: char, m: usize) -> (r: Option<usize>)
    ensures
        match r {
            Some(k) => k <= s@.len() && after_char(s@, c, m as nat) == Some(s@.skip(k as int)),
            None => after_char(s@, c, m as nat) is None,
        },
{
    let mut k: usize = 0;
    let mut left: usize = m;
    assert(s@.skip(0) =~= s@);
    while left > 0
        invariant
            k <= s@.len(),
            left <= m,
            after_char(s@, c, m as nat) == after_char(s@.skip(k as int), c, left as nat),
        decreases left,
    {
        let e = next_char(s, c, k);
        if e >= s.len() {
            return None;
        }
        assert(s@.skip(k as int).skip(e - k + 1) =~= s@.skip(e + 1));
        k = e + 1;
        left = left - 1;
    }
    Some(k)
}

/// The `k`-th piece of `s` split at `c`, if any.
pub fn piece_of(s: &[char], c: char, k: usize) -> (r: Option<Vec<char>>)
    ensures
        match r {
            Some(f) => piece(s@, c, k as nat) == Some(f@),
            None => piece(s@, c, k as nat) is None,
        },
{
    match skip_pieces(s, c, k) {
        Some(start) => {
            let e = next_char(s, c, start);
            let f = vec_from_range(s, start, e);
            assert(f@ =~= s@.skip(start as int).take(
                first_where(s@.skip(start as int), is_char(c)) as int,
            ));
            Some(f)
        },
        None => None,
    }
}

/// The whitespace-separated words of `s` (`str::split_whitespace`).
pub open spec fn words(s: Seq<char>) -> Seq<Seq<char>>
    decreases s.len(),
{
    if s.len() == 0 {
        Seq::empty()
    } else {
        let k = first_where(s, ws_pred());
        proof {
            lemma_first_where_bound(s, ws_pred());
        }
        if k == 0 {
            words(s.drop_first())
        } else {
            seq![s.take(k as int)] + words(s.skip(k as int))
        }
    }
}

pub proof fn lemma_first_where_bound(s: Seq<char>, p: spec_fn(char) -> bool)
    ensures
        first_where(s, p) <= s.len(),
        first_where(s, p) < s.len() ==> p(s[first_where(s, p) as int]),
        forall|j: int| 0 <= j < first_where(s, p) ==> !p(#[trigger] s[j]),
    decreases s.len(),
{
    if s.len() > 0 && !p(s[0]) {
        lemma_first_where_bound(s.drop_first(), p);
        assert forall|j: int| 0 <= j < first_where(s, p) implies !p(#[trigger] s[j]) by {
            if j > 0 {
                assert(s[j] == s.drop_first()[j - 1]);
            }
        }
    }
}

/// The words of `s` (see [`words`]).
pub fn split_whitespace(s: &[char]) -> (r: Vec<Vec<char>>)
    ensures
        views(r@) == words(s@),
{
    let mut out: Vec<Vec<char>> = Vec::new();
    let mut i: usize = 0;
    assert(s@.skip(0) =~= s@);
    proof {
        lemma_views_empty(out@);
    }
    while i < s.len()
        invariant
            i <= s@.len(),
            views(out@) + words(s@.skip(i as int)) == words(s@),
        decreases s@.len() - i,
    {
        let ghost t = s@.skip(i as int);
        if is_whitespace(s[i]) {
            proof {
                lemma_first_where(t, ws_pred(), 0);
                assert(t.drop_first() =~= s@.skip(i + 1));
            }
            i = i + 1;
        } else {
            let mut j = i;
            while j < s.len() && !is_whitespace(s[j])
                invariant
                    i <= j <= s@.len(),
                    forall|k: int| i <= k < j ==> !is_ws(s@[k]),
                decreases s@.len() - j,
            {
                j = j + 1;
            }
            proof {
                assert forall|k: int| 0 <= k < j - i implies !(ws_pred()(
                    #[trigger] t[k],
                )) by {
                    assert(t[k] == s@[i + k]);
                }
                lemma_first_where(t, ws_pred(), j - i);
                assert(t.skip(j - i) =~= s@.skip(j as int));
            }
            let w = vec_from_range(s, i, j);
            let ghost old_out = out@;
            out.push(w);
            proof {
                lemma_views_push(old_out, w);
                assert(w@ =~= t.take(j - i));
                assert(views(out@) + words(s@.skip(j as int)) =~= views(old_out) + words(t));
            }
            i = j;
        }
    }
    assert(words(s@.skip(i as int)) =~= Seq::<Seq<char>>::empty());
    assert(views(out@) + Seq::<Seq<char>>::empty() =~= views(out@));
    out
}

/// The pieces of `s` after each `\n`, every piece keeping its `\n`
/// (`str::split_inclusive('\n')`): no empty piece, the last one possibly
/// without a line feed.
pub open spec fn lines_incl(s: Seq<char>) -> Seq<Seq<char>>
    decreases s.len(),
{
    if s.len() == 0 {
        Seq::empty()
    } else {
        let k = first_where(s, is_char('\n'));
        proof {
            lemma_first_where_bound(s, is_char('\n'));
        }
        if k >= s.len() {
            seq![s]
        } else {
            seq![s.take(k as int + 1)] + lines_incl(s.skip(k as int + 1))
        }
    }
}

/// The pieces of `s` (see [`lines_incl`]).
pub fn split_inclusive(s: &[char]) -> (r: Vec<Vec<char>>)
    ensures
        views(r@) == lines_incl(s@),
{
    let mut out: Vec<Vec<char>> = Vec::new();
    let mut i: usize = 0;
    assert(s@.skip(0) =~= s@);
    proof {
        lemma_views_empty(out@);
    }
    while i < s.len()
        invariant
            i <= s@.len(),
            views(out@) + lines_incl(s@.skip(i as int)) == lines_incl(s@),
        decreases s@.len() - i,
    {
        let ghost t = s@.skip(i as int);
        let e = next_char(s, '\n', i);
        let end = if e < s.len() {
            e + 1
        } else {
            e
        };
        let piece = vec_from_range(s, i, end);
        let ghost old_out = out@;
        out.push(piece);
        proof {
            lemma_views_push(old_out, piece);
            lemma_first_where_bound(t, is_char('\n'));
            if e < s.len() {
                assert(piece@ =~= t.take(e - i + 1));
                assert(t.skip(e - i + 1) =~= s@.skip(end as int));
            } else {
                assert(piece@ =~= t);
                assert(s@.skip(end as int) =~= Seq::<char>::empty());
            }
            assert(views(out@) + lines_incl(s@.skip(end as int)) =~= views(old_out) + lines_incl(t));
        }
        i = end;
    }
    assert(lines_incl(s@.skip(i as int)) =~= Seq::<Seq<char>>::empty());
    assert(views(out@) + Seq::<Seq<char>>::empty() =~= views(out@));
    out
}

/// Length of `s` without trailing whitespace: `trim_end(s) == s[..r]`.
pub fn trim_end_len(s: &[char]) -> (r: usize)
    ensures
        r <= s@.len(),
        trim_end(s@) == s@.take(r as int),
{
    let mut b: usize = s.len();
    assert(s@.take(s@.len() as int) =~= s@);
    while b > 0 && is_whitespace(s[b - 1])
        invariant
            b <= s@.len(),
            trim_end(s@) == trim_end(s@.take(b as int)),
        decreases b,
    {
        assert(s@.take(b as int).drop_last() =~= s@.take(b - 1));
        b = b - 1;
    }
    b
}

/// `parts` joined with `sep` in between.
pub open spec fn join(parts: Seq<Seq<char>>, sep: Seq<char>) -> Seq<char>
    decreases parts.len(),
{
    if parts.len() == 0 {
        Seq::empty()
    } else if parts.len() == 1 {
        parts[0]
    } else {
        join(parts.drop_last(), sep) + sep + parts.last()
    }
}

// ---------------------------------------------------------------------------
// Ordering
// ---------------------------------------------------------------------------

/// Lexicographic order of character sequences (the order of `str`, since
/// UTF-8 preserves the order of code points).
pub open spec fn lex_le(a: Seq<char>, b: Seq<char>) -> bool
    decreases a.len(),
{
    if a.len() == 0 {
        true
    } else if b.len() == 0 {
        false
    } else if a[0] != b[0] {
        a[0] < b[0]
    } else {
        lex_le(a.drop_first(), b.drop_first())
    }
}

/// Any two sequences are ordered one way or the other.
pub proof fn lemma_lex_le_total(a: Seq<char>, b: Seq<char>)
    ensures
        lex_le(a, b) || lex_le(b, a),
    decreases a.len(),
{
    if a.len() > 0 && b.len() > 0 && a[0] == b[0] {
        lemma_lex_le_total(a.drop_first(), b.drop_first());
    }
}

/// The lexicographic order is transitive.
pub proof fn lemma_lex_le_trans(a: Seq<char>, b: Seq<char>, c: Seq<char>)
    requires
        lex_le(a, b),
        lex_le(b, c),
    ensures
        lex_le(a, c),
    decreases a.len(),
{
    if a.len() > 0 && b.len() > 0 && c.len() > 0 && a[0] == b[0] && b[0] == c[0] {
        lemma_lex_le_trans(a.drop_first(), b.drop_first(), c.drop_first());
    }
}

/// `a <= b` in lexicographic order.
pub fn chars_le(a: &[char], b: &[char]) -> (r: bool)
    ensures
        r == lex_le(a@, b@),
{
    let mut i: usize = 0;
    assert(a@.skip(0) =~= a@);
    assert(b@.skip(0) =~= b@);
    while i < a.len() && i < b.len() && a[i] == b[i]
        invariant
            i <= a@.len(),
            i <= b@.len(),
            lex_le(a@, b@) == lex_le(a@.skip(i as int), b@.skip(i as int)),
        decreases a@.len() - i,
    {
        assert(a@.skip(i as int).drop_first() =~= a@.skip(i + 1));
        assert(b@.skip(i as int).drop_first() =~= b@.skip(i + 1));
        i = i + 1;
    }
    if i == a.len() {
        true
    } else if i == b.len() {
        false
    } else {
        a[i] < b[i]
    }
}

/// The first index at which `p` occurs in `s` at or after `from`, if any.
pub open spec fn first_occurrence_from(s: Seq<char>, p: Seq<char>, from: int, i: int) -> bool {
    &&& from <= i
    &&& occurs_at(s, p, i)
    &&& forall|j: int| from <= j < i ==> !occurs_at(s, p, j)
}

/// Searches `p` in `s` from index `from` on.
pub fn find_from(s: &[char], p: &[char], from: usize) -> (r: Option<usize>)
    ensures
        match r {
            Some(i) => first_occurrence_from(s@, p@, from as int, i as int),
            None => forall|j: int| from <= j ==> !occurs_at(s@, p@, j),
        },
{
    if p.len() > s.len() || from > s.len() - p.len() {
        return None;
    }
    let last = s.len() - p.len();
    let mut i: usize = from;
    while i < last
        invariant
            from <= i <= last,
            last + p@.len() == s@.len(),
            forall|j: int| from <= j < i ==> !occurs_at(s@, p@, j),
        decreases last - i,
    {
        if matches_at(s, p, i) {
            return Some(i);
        }
        i = i + 1;
    }
    if matches_at(s, p, last) {
        Some(last)
    } else {
        None
    }
}

/// Whether `p` occurs anywhere in `s`.
pub fn contains(s: &[char], p: &[char]) -> (r: bool)
    ensures
        r == has_infix(s@, p@),
{
    match find_from(s, p, 0) {
        Some(i) => {
            assert(occurs_at(s@, p@, i as int));
            true
        },
        None => {
            assert forall|j: int| !occurs_at(s@, p@, j) by {
                if j < 0 {
                }
            }
            false
        },
    }
}

/// Whether the string `p` occurs anywhere in `s`.
pub fn contains_str(s: &[char], p: &str) -> (r: bool)
    ensures
        r == has_infix(s@, p@),
{
    let pv = chars_of(p);
    contains(s, pv.as_slice())
}

/// Whether the character `c` occurs in `s`.
pub fn contains_char(s: &[char], c: char) -> (r: bool)
    ensures
        r == s@.contains(c),
{
    let mut i: usize = 0;
    while i < s.len()
        invariant
            i <= s@.len(),
            forall|j: int| 0 <= j < i ==> s@[j] != c,
        decreases s@.len() - i,
    {
        if s[i] == c {
            return true;
        }
        i = i + 1;
    }
    false
}

// ---------------------------------------------------------------------------
// Splitting
// ---------------------------------------------------------------------------

/// `s` split at every occurrence of `c` (like `str::split` with a char): the
/// pieces between the separators, always at least one (possibly empty) piece.
pub open spec fn split_on(s: Seq<char>, c: char) -> Seq<Seq<char>>
    decreases s.len(),
{
    if s.len() == 0 {
        seq![Seq::<char>::empty()]
    } else {
        let r = split_on(s.drop_last(), c);
        if s.last() == c {
            r.push(Seq::<char>::empty())
        } else {
            r.update(r.len() - 1, r.last().push(s.last()))
        }
    }
}

pub proof fn lemma_split_on_nonempty(s: Seq<char>, c: char)
    ensures
        split_on(s, c).len() >= 1,
    decreases s.len(),
{
    if s.len() > 0 {
        lemma_split_on_nonempty(s.drop_last(), c);
    }
}

/// Splits `s` at every `c`.
pub fn split_chars(s: &[char], c: char) -> (r: Vec<Vec<char>>)
    ensures
        views(r@) == split_on(s@, c),
{
    let mut done: Vec<Vec<char>> = Vec::new();
    let mut cur: Vec<char> = Vec::new();
    let mut i: usize = 0;
    while i < s.len()
        invariant
            i <= s@.len(),
            views(done@).push(cur@) == split_on(s@.take(i as int), c),
        decreases s@.len() - i,
    {
        let ghost prev = s@.take(i as int);
        proof {
            lemma_split_on_nonempty(prev, c);
        }
        assert(s@.take(i + 1).drop_last() == prev);
        assert(s@.take(i + 1).last() == s@[i as int]);
        if s[i] == c {
            let ghost before = views(done@);
            let mut full: Vec<char> = Vec::new();
            std::mem::swap(&mut full, &mut cur);
            done.push(full);
            assert(views(done@) == before.push(full@));
        } else {
            cur.push(s[i]);
        }
        i = i + 1;
        assert(views(done@).push(cur@) =~= split_on(s@.take(i as int), c));
    }
    assert(s@.take(s@.len() as int) == s@);
    let ghost before = views(done@);
    done.push(cur);
    assert(views(done@) =~= before.push(cur@));
    done
}

/// The views of a sequence of character vectors.
pub open spec fn views(v: Seq<Vec<char>>) -> Seq<Seq<char>> {
    Seq::new(v.len(), |i: int| v[i]@)
}

/// The views of a sequence of strings.
pub open spec fn string_views(v: Seq<String>) -> Seq<Seq<char>> {
    Seq::new(v.len(), |i: int| v[i]@)
}

pub proof fn lemma_views_push(v: Seq<Vec<char>>, x: Vec<char>)
    ensures
        views(v.push(x)) == views(v).push(x@),
        views(v).len() == v.len(),
{
    assert(views(v.push(x)) =~= views(v).push(x@));
}

pub proof fn lemma_views_empty(v: Seq<Vec<char>>)
    requires
        v.len() == 0,
    ensures
        views(v) == Seq::<Seq<char>>::empty(),
{
    assert(views(v) =~= Seq::<Seq<char>>::empty());
}

pub proof fn lemma_string_views_push(v: Seq<String>, x: String)
    ensures
        string_views(v.push(x)) == string_views(v).push(x@),
        string_views(v).len() == v.len(),
{
    assert(string_views(v.push(x)) =~= string_views(v).push(x@));
}

pub proof fn lemma_string_views_empty(v: Seq<String>)
    requires
        v.len() == 0,
    ensures
        string_views(v) == Seq::<Seq<char>>::empty(),
{
    assert(string_views(v) =~= Seq::<Seq<char>>::empty());
}

/// `strip_cr` applied to every piece.
pub open spec fn strip_all(s: Seq<Seq<char>>) -> Seq<Seq<char>> {
    Seq::new(s.len(), |i: int| strip_cr(s[i]))
}

/// A line of `str::lines`: a piece that was terminated by `\n` loses one
/// trailing `\r`.
pub open spec fn strip_cr(p: Seq<char>) -> Seq<char> {
    if p.len() > 0 && p.last() == '\r' {
        p.drop_last()
    } else {
        p
    }
}

/// The lines of `s` as `str::lines` yields them: split at `\n`, a `\r` right
/// before a `\n` removed, and no final empty line after a trailing `\n` (or for
/// an empty string).
pub open spec fn lines_of(s: Seq<char>) -> Seq<Seq<char>> {
    let pieces = split_on(s, '\n');
    let n = pieces.len();
    let terminated = strip_all(pieces.take(n - 1));
    if pieces.last().len() == 0 {
        terminated
    } else {
        terminated.push(pieces.last())
    }
}

/// The lines of `s` (see [`lines_of`]).
pub fn lines(s: &[char]) -> (r: Vec<Vec<char>>)
    ensures
        views(r@) == lines_of(s@),
{
    let pieces = split_chars(s, '\n');
    proof {
        lemma_split_on_nonempty(s@, '\n');
    }
    let ghost pv = views(pieces@);
    let n = pieces.len();
    let mut out: Vec<Vec<char>> = Vec::new();
    let mut i: usize = 0;
    while i + 1 < n
        invariant
            n == pieces@.len(),
            n >= 1,
            pv == views(pieces@),
            i + 1 <= n,
            views(out@) == strip_all(pv.take(i as int)),
        decreases n - i,
    {
        let p = &pieces[i];
        let ghost old_out = out@;
        let q = if p.len() > 0 && p[p.len() - 1] == '\r' {
            vec_from_range(p.as_slice(), 0, p.len() - 1)
        } else {
            vec_from_range(p.as_slice(), 0, p.len())
        };
        assert(q@ == strip_cr(pv[i as int]));
        out.push(q);
        proof {
            let goal = strip_all(pv.take(i + 1));
            assert(pv.len() == n);
            assert(views(old_out).len() == old_out.len());
            assert(strip_all(pv.take(i as int)).len() == i);
            assert(old_out.len() == i);
            assert(out@ == old_out.push(q));
            assert(goal.len() == i + 1);
            assert forall|j: int| 0 <= j < i + 1 implies views(out@)[j] == goal[j] by {
                if j < i {
                    assert(views(old_out)[j] == strip_all(pv.take(i as int))[j]);
                }
            }
            assert(views(out@) =~= goal);
        }
        i = i + 1;
    }
    let last = &pieces[n - 1];
    if last.len() > 0 {
        let ghost old_out = out@;
        let q = vec_from_range(last.as_slice(), 0, last.len());
        out.push(q);
        proof {
            let goal = views(old_out).push(pv.last());
            assert forall|j: int| 0 <= j < out@.len() implies views(out@)[j] == goal[j] by {
                if j < old_out.len() {
                    assert(out@[j] == old_out[j]);
                }
            }
            assert(views(out@) =~= goal);
        }
    }
    out
}

// ---------------------------------------------------------------------------
// Whitespace and trimming
// ---------------------------------------------------------------------------

/// `char::is_whitespace`: the Unicode `White_Space` property.
pub open spec fn is_ws(c: char) -> bool {
    ||| c == ' '
    ||| ('\t' <= c && c <= '\r')
    ||| c == '\u{85}'
    ||| c == '\u{a0}'
    ||| c == '\u{1680}'
    ||| ('\u{2000}' <= c && c <= '\u{200a}')
    ||| c == '\u{2028}'
    ||| c == '\u{2029}'
    ||| c == '\u{202f}'
    ||| c == '\u{205f}'
    ||| c == '\u{3000}'
}

/// Whether `c` is whitespace (`char::is_whitespace`).
pub fn is_whitespace(c: char) -> (r: bool)
    ensures
        r == is_ws(c),
{
    c == ' ' || ('\t' <= c && c <= '\r') || c == '\u{85}' || c == '\u{a0}' || c == '\u{1680}' || (
    '\u{2000}' <= c && c <= '\u{200a}') || c == '\u{2028}' || c == '\u{2029}' || c == '\u{202f}'
        || c == '\u{205f}' || c == '\u{3000}'
}

/// `s` without leading whitespace.
pub open spec fn trim_start(s: Seq<char>) -> Seq<char>
    decreases s.len(),
{
    if s.len() > 0 && is_ws(s[0]) {
        trim_start(s.drop_first())
    } else {
        s
    }
}

/// `s` without trailing whitespace.
pub open spec fn trim_end(s: Seq<char>) -> Seq<char>
    decreases s.len(),
{
    if s.len() > 0 && is_ws(s.last()) {
        trim_end(s.drop_last())
    } else {
        s
    }
}

/// `s` without leading and trailing whitespace (`str::trim`).
pub open spec fn trim(s: Seq<char>) -> Seq<char> {
    trim_end(trim_start(s))
}

proof fn lemma_trim_start_from(s: Seq<char>, i: int)
    requires
        0 <= i <= s.len(),
        forall|j: int| 0 <= j < i ==> is_ws(s[j]),
    ensures
        trim_start(s) == trim_start(s.subrange(i, s.len() as int)),
    decreases i,
{
    if i > 0 {
        assert(s.drop_first().subrange(i - 1, s.drop_first().len() as int) =~= s.subrange(
            i,
            s.len() as int,
        ));
        lemma_trim_start_from(s.drop_first(), i - 1);
    } else {
        assert(s.subrange(0, s.len() as int) =~= s);
    }
}

proof fn lemma_trim_end_to(s: Seq<char>, k: int)
    requires
        0 <= k <= s.len(),
        forall|j: int| k <= j < s.len() ==> is_ws(s[j]),
    ensures
        trim_end(s) == trim_end(s.subrange(0, k)),
    decreases s.len() - k,
{
    if k < s.len() {
        assert(s.drop_last().subrange(0, k) =~= s.subrange(0, k));
        lemma_trim_end_to(s.drop_last(), k);
    } else {
        assert(s.subrange(0, k) =~= s);
    }
}

/// Bounds `(a, b)` of the trimmed part of `s`: `trim(s) == s[a..b]`.
pub fn trim_bounds(s: &[char]) -> (r: (usize, usize))
    ensures
        r.0 <= r.1 <= s@.len(),
        trim(s@) == s@.subrange(r.0 as int, r.1 as int),
        trim_start(s@) == s@.subrange(r.0 as int, s@.len() as int),
{
    let mut a: usize = 0;
    while a < s.len() && is_whitespace(s[a])
        invariant
            a <= s@.len(),
            forall|j: int| 0 <= j < a ==> is_ws(s@[j]),
        decreases s@.len() - a,
    {
        a = a + 1;
    }
    proof {
        lemma_trim_start_from(s@, a as int);
    }
    let ghost t = s@.subrange(a as int, s@.len() as int);
    assert(trim_start(t) == t);
    let mut b: usize = s.len();
    while b > a && is_whitespace(s[b - 1])
        invariant
            a <= b <= s@.len(),
            forall|j: int| b <= j < s@.len() ==> is_ws(s@[j]),
        decreases b,
    {
        b = b - 1;
    }
    proof {
        lemma_trim_end_to(t, b - a);
        assert(t.subrange(0, b - a) =~= s@.subrange(a as int, b as int));
        let u = s@.subrange(a as int, b as int);
        if u.len() > 0 {
            assert(!is_ws(u.last()));
        }
    }
    (a, b)
}

/// `trim(s)` as a vector.
pub fn trimmed(s: &[char]) -> (r: Vec<char>)
    ensures
        r@ == trim(s@),
{
    let (a, b) = trim_bounds(s);
    vec_from_range(s, a, b)
}

/// `str::trim` on a string slice, as a `String`.
pub fn trim_str(s: &str) -> (r: String)
    ensures
        r@ == trim(s@),
{
    let v = chars_of(s);
    let (a, b) = trim_bounds(v.as_slice());
    string_from_range(v.as_slice(), a, b)
}

// ---------------------------------------------------------------------------
// ASCII case folding and classes
// ---------------------------------------------------------------------------

/// `char::to_ascii_lowercase`.
pub open spec fn lower_char(c: char) -> char {
    if 'A' <= c && c <= 'Z' {
        ((c as u32) + 32) as char
    } else {
        c
    }
}

/// `str::to_ascii_lowercase`.
pub open spec fn ascii_lower(s: Seq<char>) -> Seq<char> {
    s.map_values(|c: char| lower_char(c))
}

/// `char::to_ascii_lowercase`.
pub fn to_lower_char(c: char) -> (r: char)
    ensures
        r == lower_char(c),
{
    if 'A' <= c && c <= 'Z' {
        let u: u32 = c as u32;
        let r = (u + 32) as u8;
        assert(u + 32 < 256) by {
            assert(u <= 'Z' as u32);
        }
        r as char
    } else {
        c
    }
}

/// `to_ascii_lowercase` of a character sequence.
pub fn ascii_lowercase(s: &[char]) -> (r: Vec<char>)
    ensures
        r@ == ascii_lower(s@),
{
    let mut r: Vec<char> = Vec::new();
    let mut i: usize = 0;
    while i < s.len()
        invariant
            i <= s@.len(),
            r@ == ascii_lower(s@.take(i as int)),
        decreases s@.len() - i,
    {
        r.push(to_lower_char(s[i]));
        i = i + 1;
        assert(r@ =~= ascii_lower(s@.take(i as int)));
    }
    assert(s@.take(s@.len() as int) == s@);
    r
}

/// `char::is_ascii_digit`.
pub open spec fn is_digit(c: char) -> bool {
    '0' <= c && c <= '9'
}

/// `char::is_ascii_hexdigit`.
pub open spec fn is_hex(c: char) -> bool {
    ('0' <= c && c <= '9') || ('a' <= c && c <= 'f') || ('A' <= c && c <= 'F')
}

/// `char::is_ascii_alphanumeric`.
pub open spec fn is_alnum(c: char) -> bool {
    ('0' <= c && c <= '9') || ('a' <= c && c <= 'z') || ('A' <= c && c <= 'Z')
}

pub fn is_digit_char(c: char) -> (r: bool)
    ensures
        r == is_digit(c),
{
    '0' <= c && c <= '9'
}

pub fn is_hex_char(c: char) -> (r: bool)
    ensures
        r == is_hex(c),
{
    ('0' <= c && c <= '9') || ('a' <= c && c <= 'f') || ('A' <= c && c <= 'F')
}

pub fn is_alnum_char(c: char) -> (r: bool)
    ensures
        r == is_alnum(c),
{
    ('0' <= c && c <= '9') || ('a' <= c && c <= 'z') || ('A' <= c && c <= 'Z')
}

/// All characters of `s` are hex digits.
pub fn all_hex(s: &[char]) -> (r: bool)
    ensures
        r == (forall|i: int| 0 <= i < s@.len() ==> is_hex(s@[i])),
{
    let mut i: usize = 0;
    while i < s.len()
        invariant
            i <= s@.len(),
            forall|j: int| 0 <= j < i ==> is_hex(s@[j]),
        decreases s@.len() - i,
    {
        if !is_hex_char(s[i]) {
            return false;
        }
        i = i + 1;
    }
    true
}

// ---------------------------------------------------------------------------
// Decimal numbers
// ---------------------------------------------------------------------------

/// The value of a string of decimal digits.
pub open spec fn digits_value(s: Seq<char>) -> nat
    decreases s.len(),
{
    if s.len() == 0 {
        0
    } else {
        digits_value(s.drop_last()) * 10 + ((s.last() as u32) - ('0' as u32)) as nat
    }
}

/// Non-empty and only decimal digits.
pub open spec fn all_digits(s: Seq<char>) -> bool {
    s.len() > 0 && forall|i: int| 0 <= i < s.len() ==> is_digit(s[i])
}

/// The unsigned value `FromStr` gives `s` (an optional `+`, then digits), if
/// it is well formed; range checks are left to the caller.
pub open spec fn unsigned_value(s: Seq<char>) -> Option<nat> {
    if all_digits(s) {
        Some(digits_value(s))
    } else if s.len() > 0 && s[0] == '+' && all_digits(s.drop_first()) {
        Some(digits_value(s.drop_first()))
    } else {
        None
    }
}

proof fn lemma_digits_value_mono(s: Seq<char>, i: int)
    requires
        0 <= i <= s.len(),
        forall|j: int| 0 <= j < s.len() ==> is_digit(s[j]),
    ensures
        digits_value(s.take(i)) <= digits_value(s),
    decreases s.len() - i,
{
    if i < s.len() {
        assert(s.drop_last().take(i) == s.take(i));
        lemma_digits_value_mono(s.drop_last(), i);
    } else {
        assert(s.take(i) == s);
    }
}

/// Value of the decimal digits `s[from..]`, if they are well formed and the
/// value does not exceed `max`.
fn digits_upto(s: &[char], from: usize, max: u64) -> (r: Option<u64>)
    requires
        from <= s@.len(),
    ensures
        match r {
            Some(v) => all_digits(s@.skip(from as int)) && v == digits_value(s@.skip(from as int))
                && v <= max,
            None => !all_digits(s@.skip(from as int)) || digits_value(s@.skip(from as int)) > max,
        },
{
    let ghost t = s@.skip(from as int);
    if from == s.len() {
        return None;
    }
    let mut v: u64 = 0;
    let mut i: usize = from;
    while i < s.len()
        invariant
            from <= i <= s@.len(),
            t == s@.skip(from as int),
            forall|j: int| 0 <= j < i - from ==> is_digit(t[j]),
            v == digits_value(t.take(i - from)),
            v <= max,
        decreases s@.len() - i,
    {
        let c = s[i];
        if !is_digit_char(c) {
            assert(!is_digit(t[i - from]));
            return None;
        }
        let d: u64 = ((c as u32) - ('0' as u32)) as u64;
        assert(t.take(i - from + 1).drop_last() == t.take(i - from));
        assert(t.take(i - from + 1).last() == c);
        if d > max || v > (max - d) / 10 {
            proof {
                assert(digits_value(t.take(i - from + 1)) == v * 10 + d);
                if d <= max {
                    assert(v * 10 + d > max) by (nonlinear_arith)
                        requires
                            v > (max - d) / 10,
                            d <= max,
                    ;
                }
                assert(forall|j: int| 0 <= j < t.len() ==> is_digit(t[j]) || !all_digits(t));
                if all_digits(t) {
                    lemma_digits_value_mono(t, i - from + 1);
                }
            }
            return None;
        }
        proof {
            assert(v * 10 + d <= max) by (nonlinear_arith)
                requires
                    v <= (max - d) / 10,
                    d <= 9,
            ;
        }
        v = v * 10 + d;
        i = i + 1;
    }
    assert(t.take(s@.len() - from) == t);
    Some(v)
}

/// `s.parse::<u64>()` restricted to values up to `max` (the parse of a
/// narrower unsigned type): `None` exactly when `s` is not an optional `+`
/// followed by digits, or its value exceeds `max`.
pub fn parse_unsigned(s: &[char], max: u64) -> (r: Option<u64>)
    ensures
        match r {
            Some(v) => unsigned_value(s@) == Some(v as nat) && v <= max,
            None => unsigned_value(s@) is None || unsigned_value(s@)->0 > max,
        },
{
    if s.len() > 0 && s[0] == '+' {
        assert(s@.skip(1) == s@.drop_first());
        let r = digits_upto(s, 1, max);
        proof {
            assert(s@.skip(0) == s@);
            if all_digits(s@) {
                assert(!is_digit(s@[0]));
            }
        }
        r
    } else {
        assert(s@.skip(0) == s@);
        digits_upto(s, 0, max)
    }
}

/// The signed value `FromStr` gives `s` (an optional `+` or `-`, then digits).
pub open spec fn signed_value(s: Seq<char>) -> Option<int> {
    if s.len() > 0 && s[0] == '-' && all_digits(s.drop_first()) {
        Some(-(digits_value(s.drop_first()) as int))
    } else {
        match unsigned_value(s) {
            Some(v) => Some(v as int),
            None => None,
        }
    }
}

/// `s.parse::<i64>()`: `None` exactly when `s` is malformed or out of range.
pub fn parse_i64(s: &[char]) -> (r: Option<i64>)
    ensures
        match r {
            Some(v) => signed_value(s@) == Some(v as int),
            None => signed_value(s@) is None || signed_value(s@)->0 < i64::MIN
                || signed_value(s@)->0 > i64::MAX,
        },
{
    if s.len() > 0 && s[0] == '-' {
        assert(s@.skip(1) == s@.drop_first());
        match digits_upto(s, 1, 9223372036854775808u64) {
            Some(v) => {
                if v == 9223372036854775808u64 {
                    Some(i64::MIN)
                } else {
                    let w: i64 = v as i64;
                    Some(-w)
                }
            },
            None => None,
        }
    } else {
        let r = parse_unsigned(s, 9223372036854775807u64);
        match r {
            Some(v) => Some(v as i64),
            None => None,
        }
    }
}

/// Decimal digits of `n` (`n.to_string()`).
pub open spec fn decimal(n: nat) -> Seq<char>
    decreases n,
{
    if n < 10 {
        seq![(('0' as u32) + n) as char]
    } else {
        decimal(n / 10).push((('0' as u32) + (n % 10)) as char)
    }
}

/// `n.to_string()` for an unsigned number.
pub fn u64_to_string(n: u64) -> (s: String)
    ensures
        s@ == decimal(n as nat),
    decreases n,
{
    if n < 10 {
        let mut s = String::new();
        let c = (48u8 + n as u8) as char;
        push_char(&mut s, c);
        assert(s@ =~= decimal(n as nat));
        s
    } else {
        let mut s = u64_to_string(n / 10);
        let c = (48u8 + (n % 10) as u8) as char;
        push_char(&mut s, c);
        s
    }
}

/// `n.to_string()` for a signed number.
pub open spec fn signed_decimal(n: int) -> Seq<char> {
    if n < 0 {
        seq!['-'] + decimal((-n) as nat)
    } else {
        decimal(n as nat)
    }
}

/// `n.to_string()` for an `i32`.
pub fn i32_to_string(n: i32) -> (s: String)
    ensures
        s@ == signed_decimal(n as int),
{
    if n < 0 {
        let m: u64 = (0i64 - (n as i64)) as u64;
        let mut s = String::new();
        push_char(&mut s, '-');
        let t = u64_to_string(m);
        push_str(&mut s, t.as_str());
        s
    } else {
        u64_to_string(n as u64)
    }
}

/// The decimal text of a number is all digits and reads back as the number.
pub proof fn lemma_decimal_digits(n: nat)
    ensures
        all_digits(decimal(n)),
        digits_value(decimal(n)) == n,
    decreases n,
{
    if n < 10 {
        let c = (('0' as u32) + n) as char;
        assert(c as u32 == ('0' as u32) + n);
        assert(decimal(n) == seq![c]);
        assert(seq![c].drop_last() =~= Seq::<char>::empty());
        assert(digits_value(seq![c]) == digits_value(Seq::<char>::empty()) * 10 + ((c as u32) - ('0' as u32)) as nat);
    } else {
        lemma_decimal_digits(n / 10);
        let d = decimal(n / 10);
        let c = (('0' as u32) + (n % 10)) as char;
        assert(c as u32 == ('0' as u32) + (n % 10));
        assert(decimal(n) == d.push(c));
        assert(d.push(c).drop_last() =~= d);
        assert(d.push(c).last() == c);
        assert(digits_value(d.push(c)) == digits_value(d) * 10 + ((c as u32) - ('0' as u32)) as nat);
        assert forall|i: int| 0 <= i < decimal(n).len() implies is_digit(decimal(n)[i]) by {
            if i < d.len() {
                assert(decimal(n)[i] == d[i]);
            }
        }
        assert((n / 10) * 10 + n % 10 == n) by (nonlinear_arith);
    }
}

/// A text without `c` is one piece.
pub proof fn lemma_split_on_without(s: Seq<char>, c: char)
    requires
        !s.contains(c),
    ensures
        split_on(s, c) == seq![s],
    decreases s.len(),
{
    if s.len() > 0 {
        assert(!s.drop_last().contains(c)) by {
            if s.drop_last().contains(c) {
                let k = choose|k: int| 0 <= k < s.drop_last().len() && s.drop_last()[k] == c;
                assert(s[k] == c);
            }
        }
        lemma_split_on_without(s.drop_last(), c);
        assert(s.last() != c) by {
            assert(s[s.len() - 1] == s.last());
        }
        assert(s.drop_last().push(s.last()) =~= s);
        assert(seq![s.drop_last()].update(0, s.drop_last().push(s.last())) =~= seq![s]);
    } else {
        assert(s =~= Seq::<char>::empty());
    }
}

/// Splitting at `c` across a `c`: the pieces of both sides.
pub proof fn lemma_split_on_concat(a: Seq<char>, b: Seq<char>, c: char)
    ensures
        split_on(a.push(c) + b, c) == split_on(a, c) + split_on(b, c),
    decreases b.len(),
{
    let s = a.push(c) + b;
    if b.len() == 0 {
        assert(s =~= a.push(c));
        assert(a.push(c).drop_last() =~= a);
        assert(split_on(b, c) == seq![Seq::<char>::empty()]);
        assert(split_on(a, c).push(Seq::<char>::empty()) =~= split_on(a, c) + seq![
            Seq::<char>::empty(),
        ]);
    } else {
        lemma_split_on_concat(a, b.drop_last(), c);
        assert(s.drop_last() =~= a.push(c) + b.drop_last());
        assert(s.last() == b.last());
        let x = split_on(a, c);
        let y = split_on(b.drop_last(), c);
        lemma_split_on_nonempty(b.drop_last(), c);
        if b.last() == c {
            assert((x + y).push(Seq::<char>::empty()) =~= x + y.push(Seq::<char>::empty()));
        } else {
            let r = x + y;
            assert(r.update(r.len() - 1, r.last().push(b.last())) =~= x + y.update(
                y.len() - 1,
                y.last().push(b.last()),
            ));
        }
    }
}

proof fn lemma_join_extend_last(r: Seq<Seq<char>>, sep: Seq<char>, t: Seq<char>)
    requires
        r.len() >= 1,
    ensures
        join(r.update(r.len() - 1, r.last() + t), sep) == join(r, sep) + t,
{
    let u = r.update(r.len() - 1, r.last() + t);
    if r.len() == 1 {
        assert(u[0] == r[0] + t);
    } else {
        assert(u.drop_last() =~= r.drop_last());
        assert(u.last() == r.last() + t);
        assert(join(r.drop_last(), sep) + sep + (r.last() + t) =~= join(r.drop_last(), sep) + sep
            + r.last() + t);
    }
}

/// Joining the pieces of a split with the separator gives the text back.
pub proof fn lemma_join_split(s: Seq<char>, c: char)
    ensures
        join(split_on(s, c), seq![c]) == s,
    decreases s.len(),
{
    if s.len() > 0 {
        lemma_join_split(s.drop_last(), c);
        let r = split_on(s.drop_last(), c);
        lemma_split_on_nonempty(s.drop_last(), c);
        if s.last() == c {
            let q = r.push(Seq::<char>::empty());
            assert(q.drop_last() =~= r);
            assert(join(r, seq![c]) + seq![c] + Seq::<char>::empty() =~= s);
        } else {
            lemma_join_extend_last(r, seq![c], seq![s.last()]);
            assert(r.last().push(s.last()) =~= r.last() + seq![s.last()]);
            assert(s.drop_last() + seq![s.last()] =~= s);
        }
    } else {
        assert(s =~= Seq::<char>::empty());
    }
}

} // verus!
