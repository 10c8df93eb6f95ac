//! Stable descending ordering of score pairs, used by the ranking.

use vstd::prelude::*;

verus! {

/// A score pair: a user's name with that user's total.
pub type ScorePair = (String, i128);

/// Sorted by descending total.
pub open spec fn sorted_desc(s: Seq<ScorePair>) -> bool {
    forall|i: int, j: int| 0 <= i < j < s.len() ==> s[i].1 >= s[j].1
}

/// Where `p` lands in `s`: after every element whose total is at least
/// `p`'s, before the first strictly smaller one. Equal totals keep their
/// earlier arrival first, which makes the ordering stable.
pub open spec fn insert_pos(s: Seq<ScorePair>, p: ScorePair) -> int
    decreases s.len(),
{
    if s.len() == 0 {
        0
    } else if s[0].1 >= p.1 {
        1 + insert_pos(s.drop_first(), p)
    } else {
        0
    }
}

/// `s` with `p` inserted at its stable position.
pub open spec fn insert_desc(s: Seq<ScorePair>, p: ScorePair) -> Seq<ScorePair> {
    s.insert(insert_pos(s, p), p)
}

/// The pairs of `s` in descending order of total, elements with equal
/// totals keeping their order in `s`: each element inserted, in turn, at
/// its stable position.
pub open spec fn sort_desc(s: Seq<ScorePair>) -> Seq<ScorePair>
    decreases s.len(),
{
    if s.len() == 0 {
        Seq::<ScorePair>::empty()
    } else {
        insert_desc(sort_desc(s.drop_last()), s.last())
    }
}

/// The insertion position is within bounds, everything before it has a
/// total at least `p`'s, and the element it displaces (if any) has a
/// strictly smaller total.
pub proof fn lemma_insert_pos_bounds(s: Seq<ScorePair>, p: ScorePair)
    ensures
        0 <= insert_pos(s, p) <= s.len(),
        forall|j: int| 0 <= j < insert_pos(s, p) ==> s[j].1 >= p.1,
        insert_pos(s, p) < s.len() ==> s[insert_pos(s, p)].1 < p.1,
    decreases s.len(),
{
    if s.len() > 0 && s[0].1 >= p.1 {
        lemma_insert_pos_bounds(s.drop_first(), p);
        assert forall|j: int| 0 <= j < insert_pos(s, p) implies s[j].1 >= p.1 by {
            if j > 0 {
                assert(s.drop_first()[j - 1] == s[j]);
            }
        }
    }
}

/// A position that splits `s` into a prefix of totals at least `p`'s and
/// a rest starting strictly below is the insertion position.
pub proof fn lemma_insert_pos_is(s: Seq<ScorePair>, p: ScorePair, k: int)
    requires
        0 <= k <= s.len(),
        forall|j: int| 0 <= j < k ==> s[j].1 >= p.1,
        k < s.len() ==> s[k].1 < p.1,
    ensures
        insert_pos(s, p) == k,
    decreases s.len(),
{
    if s.len() == 0 {
    } else if s[0].1 >= p.1 {
        assert(k >= 1);
        assert forall|j: int| 0 <= j < k - 1 implies s.drop_first()[j].1 >= p.1 by {
            assert(s.drop_first()[j] == s[j + 1]);
        }
        assert(k - 1 < s.drop_first().len() ==> s.drop_first()[k - 1].1 < p.1);
        lemma_insert_pos_is(s.drop_first(), p, k - 1);
    } else {
        assert(k == 0);
    }
}

/// Inserting into a descending sequence keeps it descending.
pub proof fn lemma_insert_desc_sorted(s: Seq<ScorePair>, p: ScorePair)
    requires
        sorted_desc(s),
    ensures
        sorted_desc(insert_desc(s, p)),
{
    lemma_insert_pos_bounds(s, p);
    let k = insert_pos(s, p);
    let t = insert_desc(s, p);
    assert forall|i: int, j: int| 0 <= i < j < t.len() implies t[i].1 >= t[j].1 by {
        if i < k {
            assert(t[i] == s[i]);
        }
        if j < k {
            assert(t[j] == s[j]);
        }
        if i > k {
            assert(t[i] == s[i - 1]);
        }
        if j > k {
            assert(t[j] == s[j - 1]);
        }
        if j == k {
            assert(t[j] == p);
        }
        if i == k {
            assert(t[i] == p);
            assert(s[j - 1].1 <= p.1) by {
                if j - 1 > k {
                    assert(s[k].1 < p.1);
                    assert(s[k].1 >= s[j - 1].1);
                }
            }
        }
    }
}

/// The fully sorted sequence is descending.
pub proof fn lemma_sort_desc_sorted(s: Seq<ScorePair>)
    ensures
        sorted_desc(sort_desc(s)),
    decreases s.len(),
{
    if s.len() > 0 {
        lemma_sort_desc_sorted(s.drop_last());
        lemma_insert_desc_sorted(sort_desc(s.drop_last()), s.last());
    }
}

/// Sorting keeps exactly the original pairs, with their multiplicities.
pub proof fn lemma_sort_desc_multiset(s: Seq<ScorePair>)
    ensures
        sort_desc(s).to_multiset() == s.to_multiset(),
    decreases s.len(),
{
    broadcast use vstd::seq_lib::group_to_multiset_ensures;

    if s.len() > 0 {
        lemma_sort_desc_multiset(s.drop_last());
        let t = sort_desc(s.drop_last());
        let k = insert_pos(t, s.last());
        lemma_insert_pos_bounds(t, s.last());
        lemma_insert_multiset(t, s.last(), k);
        assert(s.drop_last().push(s.last()) =~= s);
        assert(s.drop_last().push(s.last()).to_multiset() =~= s.drop_last().to_multiset().insert(
            s.last(),
        ));
    }
}

/// Inserting an element anywhere adds exactly that element to the
/// multiset of pairs.
proof fn lemma_insert_multiset(s: Seq<ScorePair>, p: ScorePair, k: int)
    requires
        0 <= k <= s.len(),
    ensures
        s.insert(k, p).to_multiset() == s.to_multiset().insert(p),
    decreases s.len() - k,
{
    broadcast use vstd::seq_lib::group_to_multiset_ensures;

    if k == s.len() {
        assert(s.insert(k, p) =~= s.push(p));
        assert(s.push(p).to_multiset() =~= s.to_multiset().insert(p));
    } else {
        let last = s.last();
        let s0 = s.drop_last();
        lemma_insert_multiset(s0, p, k);
        assert(s.insert(k, p) =~= s0.insert(k, p).push(last));
        assert(s0.insert(k, p).push(last).to_multiset() =~= s0.insert(k, p).to_multiset().insert(
            last,
        ));
        assert(s0.push(last) =~= s);
        assert(s0.push(last).to_multiset() =~= s0.to_multiset().insert(last));
        assert(s.insert(k, p).to_multiset() =~= s.to_multiset().insert(p)) by {
            assert(s0.insert(k, p).to_multiset() == s0.to_multiset().insert(p));
            assert(s.to_multiset() == s0.to_multiset().insert(last));
        }
    }
}

/// The pairs whose total is exactly `v`.
pub open spec fn same_total(v: i128) -> spec_fn(ScorePair) -> bool {
    |p: ScorePair| p.1 == v
}

/// Filtering looks at a pushed element last.
proof fn lemma_filter_push(s: Seq<ScorePair>, x: ScorePair, pred: spec_fn(ScorePair) -> bool)
    ensures
        s.push(x).filter(pred) == (if pred(x) {
            s.filter(pred).push(x)
        } else {
            s.filter(pred)
        }),
{
    reveal_with_fuel(Seq::filter, 2);
    assert(s.push(x).drop_last() =~= s);
    assert(s.push(x).last() == x);
}

/// Nothing passes a filter over nothing.
proof fn lemma_filter_empty(pred: spec_fn(ScorePair) -> bool)
    ensures
        Seq::<ScorePair>::empty().filter(pred) == Seq::<ScorePair>::empty(),
{
    reveal_with_fuel(Seq::filter, 2);
}

/// Inserting at the stable position puts `p` after every earlier pair
/// with the same total: among pairs of any one total, order is kept.
pub proof fn lemma_insert_desc_stable(t: Seq<ScorePair>, p: ScorePair, v: i128)
    requires
        sorted_desc(t),
    ensures
        insert_desc(t, p).filter(same_total(v)) == (if p.1 == v {
            t.filter(same_total(v)).push(p)
        } else {
            t.filter(same_total(v))
        }),
    decreases t.len(),
{
    lemma_insert_pos_bounds(t, p);
    let k = insert_pos(t, p);
    let r = insert_desc(t, p);
    if t.len() == 0 {
        assert(r =~= Seq::<ScorePair>::empty().push(p));
        lemma_filter_push(Seq::<ScorePair>::empty(), p, same_total(v));
        lemma_filter_empty(same_total(v));
        assert(t =~= Seq::<ScorePair>::empty());
    } else {
        let s0 = t.drop_last();
        let last = t.last();
        assert(t =~= s0.push(last));
        assert(s0.push(last).drop_last() =~= s0);
        if k == t.len() {
            assert(r =~= t.push(p));
            lemma_filter_push(t, p, same_total(v));
        } else {
            assert(t[k].1 < p.1);
            assert(last.1 <= t[k].1);
            assert(sorted_desc(s0)) by {
                assert(forall|x: int, y: int|
                    0 <= x < y < s0.len() ==> s0[x] == t[x] && s0[y] == t[y]);
            }
            assert forall|j: int| 0 <= j < k implies s0[j].1 >= p.1 by {
                assert(s0[j] == t[j]);
            }
            assert(k < s0.len() ==> s0[k].1 < p.1) by {
                if k < s0.len() {
                    assert(s0[k] == t[k]);
                }
            }
            lemma_insert_pos_is(s0, p, k);
            lemma_insert_desc_stable(s0, p, v);
            assert(r =~= s0.insert(k, p).push(last));
            lemma_filter_push(s0.insert(k, p), last, same_total(v));
            lemma_filter_push(s0, last, same_total(v));
            if p.1 == v {
                assert(last.1 != v);
            }
        }
    }
}

/// Law: the descending ordering is stable — for every total, the pairs
/// carrying it keep exactly the order they arrived in.
pub proof fn lemma_sort_desc_stable(s: Seq<ScorePair>, v: i128)
    ensures
        sort_desc(s).filter(same_total(v)) == s.filter(same_total(v)),
    decreases s.len(),
{
    if s.len() == 0 {
        lemma_filter_empty(same_total(v));
        assert(s =~= Seq::<ScorePair>::empty());
        assert(sort_desc(s) =~= Seq::<ScorePair>::empty());
    } else {
        let s0 = s.drop_last();
        lemma_sort_desc_stable(s0, v);
        lemma_sort_desc_sorted(s0);
        lemma_insert_desc_stable(sort_desc(s0), s.last(), v);
        lemma_filter_push(s0, s.last(), same_total(v));
        assert(s =~= s0.push(s.last()));
    }
}

/// Push `p` into the sorted vector `out` at its stable position.
pub fn insert_pair(out: &mut Vec<ScorePair>, p: ScorePair)
    ensures
        final(out)@ == insert_desc(old(out)@, p),
{
    let mut k: usize = 0;
    while k < out.len() && out[k].1 >= p.1
        invariant
            k <= out@.len(),
            forall|j: int| 0 <= j < k ==> out@[j].1 >= p.1,
        decreases out@.len() - k,
    {
        k += 1;
    }
    proof {
        lemma_insert_pos_is(out@, p, k as int);
    }
    out.insert(k, p);
}

} // verus!
