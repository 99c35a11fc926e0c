//! Stable insertion order by a relation: the lists that the engine shows
//! sorted are built this way, and come out ordered with nothing lost.

use vstd::prelude::*;

verus! {

/// `before` is total and transitive: any two items can be compared, and
/// the comparisons chain.
pub open spec fn total_order<T>(before: spec_fn(T, T) -> bool) -> bool {
    &&& forall|a: T, b: T| #[trigger] before(a, b) || before(b, a)
    &&& forall|a: T, b: T, c: T| #[trigger] before(a, b) && #[trigger] before(b, c) ==> before(a, c)
}

/// `s` with `e` inserted after every item that may come before it.
pub open spec fn insert_by<T>(s: Seq<T>, e: T, before: spec_fn(T, T) -> bool) -> Seq<T>
    decreases s.len(),
{
    if s.len() == 0 {
        seq![e]
    } else if before(s.last(), e) {
        s.push(e)
    } else {
        insert_by(s.drop_last(), e, before).push(s.last())
    }
}

/// `s` sorted by `before`, items that compare both ways in their original
/// order.
pub open spec fn sort_by<T>(s: Seq<T>, before: spec_fn(T, T) -> bool) -> Seq<T>
    decreases s.len(),
{
    if s.len() == 0 {
        Seq::empty()
    } else {
        insert_by(sort_by(s.drop_last(), before), s.last(), before)
    }
}

/// Every item may come before every later one.
pub open spec fn sorted_by<T>(s: Seq<T>, before: spec_fn(T, T) -> bool) -> bool {
    forall|i: int, j: int| 0 <= i < j < s.len() ==> before(#[trigger] s[i], #[trigger] s[j])
}

proof fn lemma_insert_by<T>(s: Seq<T>, e: T, before: spec_fn(T, T) -> bool)
    requires
        total_order(before),
        sorted_by(s, before),
    ensures
        sorted_by(insert_by(s, e, before), before),
        insert_by(s, e, before).to_multiset() == s.to_multiset().insert(e),
    decreases s.len(),
{
    broadcast use vstd::seq_lib::group_to_multiset_ensures;
    broadcast use vstd::multiset::group_multiset_properties;

    if s.len() == 0 {
        assert(seq![e] =~= s.push(e));
    } else if before(s.last(), e) {
        let r = s.push(e);
        assert forall|i: int, j: int| 0 <= i < j < r.len() implies before(#[trigger] r[i], #[trigger] r[j]) by {
            if j == s.len() && i < s.len() - 1 {
                assert(before(s[i], s[s.len() - 1]));
                assert(before(s[i], s.last()) && before(s.last(), e));
            }
        }
    } else {
        let t = s.drop_last();
        let l = s.last();
        assert(t.push(l) =~= s);
        assert forall|i: int, j: int| 0 <= i < j < t.len() implies before(#[trigger] t[i], #[trigger] t[j]) by {
            assert(t[i] == s[i] && t[j] == s[j]);
        }
        lemma_insert_by(t, e, before);
        assert(before(e, l)) by {
            assert(before(l, e) || before(e, l));
        }
        let u = insert_by(t, e, before);
        assert forall|k: int| 0 <= k < u.len() implies before(#[trigger] u[k], l) by {
            assert(u.to_multiset().count(u[k]) > 0);
            assert(t.to_multiset().insert(e).count(u[k]) > 0);
            if u[k] != e {
                assert(t.to_multiset().count(u[k]) > 0);
                assert(t.contains(u[k]));
                let m = choose|m: int| 0 <= m < t.len() && t[m] == u[k];
                assert(t[m] == s[m]);
                assert(before(s[m], s[s.len() - 1]));
            }
        }
        let r = u.push(l);
        assert forall|i: int, j: int| 0 <= i < j < r.len() implies before(#[trigger] r[i], #[trigger] r[j]) by {
            if j == u.len() {
                assert(r[i] == u[i]);
            } else {
                assert(r[i] == u[i] && r[j] == u[j]);
            }
        }
        assert(u.push(l).to_multiset() == u.to_multiset().insert(l));
        assert(t.to_multiset().insert(e).insert(l) =~= t.to_multiset().insert(l).insert(e));
    }
}

/// The sorted list is ordered by `before` and holds exactly the items of
/// `s`.
pub proof fn lemma_sort_by<T>(s: Seq<T>, before: spec_fn(T, T) -> bool)
    requires
        total_order(before),
    ensures
        sorted_by(sort_by(s, before), before),
        sort_by(s, before).to_multiset() == s.to_multiset(),
    decreases s.len(),
{
    broadcast use vstd::seq_lib::group_to_multiset_ensures;
    broadcast use vstd::multiset::group_multiset_properties;

    if s.len() == 0 {
        assert(s.to_multiset() =~= vstd::multiset::Multiset::empty());
        assert(sort_by(s, before).to_multiset() =~= vstd::multiset::Multiset::empty());
    } else {
        lemma_sort_by(s.drop_last(), before);
        lemma_insert_by(sort_by(s.drop_last(), before), s.last(), before);
        assert(s.drop_last().push(s.last()) =~= s);
    }
}

} // verus!
