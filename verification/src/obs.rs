//! Observations and their canonical time order.
//!
//! A light curve is a sequence of [`Obs`] records.  Sorting is done with the
//! total lexicographic order on `(t, m, w)`, so a sorted series is uniquely
//! determined by the multiset of its observations; every order-invariance
//! argument in the crate rests on that.

use vstd::prelude::*;
use vstd::relations::{sorted_by, total_ordering};
use vstd::seq_lib::group_to_multiset_ensures;

verus! {

/// One observation: time, magnitude and weight, all fixed-point ticks in the
/// caller's scale.  A series without a weight column stores `w == 1`.
#[derive(Clone, Copy, PartialEq, Eq, Structural, Debug)]
pub struct Obs {
    pub t: i64,
    pub m: i64,
    pub w: i64,
}

/// Lexicographic order on `(t, m, w)`: the order used for sorting a series.
pub open spec fn obs_le(a: Obs, b: Obs) -> bool {
    if a.t != b.t {
        a.t < b.t
    } else if a.m != b.m {
        a.m < b.m
    } else {
        a.w <= b.w
    }
}

/// Executable comparison deciding [`obs_le`].
pub fn obs_le_exec(a: &Obs, b: &Obs) -> (r: bool)
    ensures
        r == obs_le(*a, *b),
{
    if a.t != b.t {
        a.t < b.t
    } else if a.m != b.m {
        a.m < b.m
    } else {
        a.w <= b.w
    }
}

/// [`obs_le`] as a relation value, for use with vstd's sorting library.
pub open spec fn obs_order() -> spec_fn(Obs, Obs) -> bool {
    |a: Obs, b: Obs| obs_le(a, b)
}

/// The canonical form of a series: its observations in ascending `(t, m, w)`
/// order.
pub open spec fn canon(s: Seq<Obs>) -> Seq<Obs> {
    s.sort_by(obs_order())
}

/// The lexicographic order on observations is total.
pub proof fn lemma_obs_order_total()
    ensures
        total_ordering(obs_order()),
{
}

/// Canonicalizing keeps exactly the same observations and sorts them.
pub proof fn lemma_canon_ensures(s: Seq<Obs>)
    ensures
        canon(s).to_multiset() == s.to_multiset(),
        canon(s).len() == s.len(),
        sorted_by(canon(s), obs_order()),
{
    lemma_obs_order_total();
    s.lemma_sort_by_ensures(obs_order());
    assert(canon(s).to_multiset() =~= s.to_multiset());
    broadcast use group_to_multiset_ensures;

    assert(canon(s).to_multiset().len() == s.to_multiset().len());
}

/// Two sorted sequences holding the same multiset of observations are equal.
pub proof fn lemma_sorted_unique(s1: Seq<Obs>, s2: Seq<Obs>)
    requires
        sorted_by(s1, obs_order()),
        sorted_by(s2, obs_order()),
        s1.to_multiset() == s2.to_multiset(),
    ensures
        s1 == s2,
    decreases s1.len(),
{
    broadcast use group_to_multiset_ensures;

    if s1.len() == 0 {
        assert(s2.to_multiset().len() == 0);
        assert(s1 =~= s2);
    } else {
        assert(s1.contains(s1[0]));
        assert(s2.to_multiset().count(s1[0]) > 0);
        assert(s2.contains(s1[0]));
        assert(s2.contains(s2[0]));
        assert(s1.to_multiset().count(s2[0]) > 0);
        assert(s1.contains(s2[0]));
        let i = choose|i: int| 0 <= i < s2.len() && s2[i] == s1[0];
        let j = choose|j: int| 0 <= j < s1.len() && s1[j] == s2[0];
        if i > 0 {
            assert(obs_order()(s2[0], s2[i]));
        }
        if j > 0 {
            assert(obs_order()(s1[0], s1[j]));
        }
        assert(obs_le(s2[0], s1[0]));
        assert(obs_le(s1[0], s2[0]));
        assert(s1[0] == s2[0]);
        let t1 = s1.remove(0);
        let t2 = s2.remove(0);
        assert(t1.to_multiset() =~= t2.to_multiset());
        assert forall|p: int, q: int| 0 <= p < q < t1.len() implies #[trigger] obs_order()(
            t1[p],
            t1[q],
        ) by {
            assert(obs_order()(s1[p + 1], s1[q + 1]));
        }
        assert forall|p: int, q: int| 0 <= p < q < t2.len() implies #[trigger] obs_order()(
            t2[p],
            t2[q],
        ) by {
            assert(obs_order()(s2[p + 1], s2[q + 1]));
        }
        lemma_sorted_unique(t1, t2);
        assert(s1.to_multiset().len() == s2.to_multiset().len());
        assert forall|k: int| 0 <= k < s1.len() implies s1[k] == s2[k] by {
            if k > 0 {
                assert(t1[k - 1] == t2[k - 1]);
                assert(t1[k - 1] == s1[k]);
                assert(t2[k - 1] == s2[k]);
            }
        }
        assert(s1 =~= s2);
    }
}

/// A sorted sequence is its own canonical form.
pub proof fn lemma_canon_of_sorted(s: Seq<Obs>)
    requires
        sorted_by(s, obs_order()),
    ensures
        canon(s) == s,
{
    lemma_canon_ensures(s);
    lemma_sorted_unique(canon(s), s);
}

/// Series holding the same observations have the same canonical form.
pub proof fn lemma_canon_same_multiset(s1: Seq<Obs>, s2: Seq<Obs>)
    requires
        s1.to_multiset() == s2.to_multiset(),
    ensures
        canon(s1) == canon(s2),
{
    lemma_canon_ensures(s1);
    lemma_canon_ensures(s2);
    lemma_sorted_unique(canon(s1), canon(s2));
}

/// Overwriting one position exchanges the old element for the new one in the
/// multiset.
pub proof fn lemma_update_multiset(s: Seq<Obs>, i: int, y: Obs)
    requires
        0 <= i < s.len(),
    ensures
        s.update(i, y).to_multiset() == s.to_multiset().remove(s[i]).insert(y),
    decreases s.len(),
{
    broadcast use group_to_multiset_ensures;

    let s2 = s.update(i, y);
    assert(s2.remove(i) =~= s.remove(i));
    assert(s2.remove(i).to_multiset() =~= s2.to_multiset().remove(y));
    assert(s.remove(i).to_multiset() =~= s.to_multiset().remove(s[i]));
    assert(s2.contains(y));
    assert(s2.to_multiset().count(y) > 0);
    assert(s.contains(s[i]));
    assert(s.to_multiset().count(s[i]) > 0);
    assert forall|x: Obs| true implies s2.to_multiset().count(x) == s.to_multiset().remove(
        s[i],
    ).insert(y).count(x) by {
        if x == y {
        } else {
            assert(s2.to_multiset().remove(y).count(x) == s2.to_multiset().count(x));
        }
    }
    assert(s2.to_multiset() =~= s.to_multiset().remove(s[i]).insert(y));
}

/// Swapping two positions leaves the multiset of elements unchanged.
pub proof fn lemma_swap_multiset(s: Seq<Obs>, i: int, j: int)
    requires
        0 <= i < s.len(),
        0 <= j < s.len(),
        i != j,
    ensures
        s.update(i, s[j]).update(j, s[i]).to_multiset() == s.to_multiset(),
{
    broadcast use group_to_multiset_ensures;

    let a = s[i];
    let b = s[j];
    let s1 = s.update(i, b);
    lemma_update_multiset(s, i, b);
    assert(s1[j] == b);
    lemma_update_multiset(s1, j, a);
    assert(s.contains(a));
    assert(s.to_multiset().count(a) > 0);
    assert(s.contains(b));
    assert(s.to_multiset().count(b) > 0);
    assert(s1.update(j, a).to_multiset() =~= s.to_multiset());
}

/// Sum of a sequence of integers.
pub open spec fn int_sum(s: Seq<int>) -> int
    decreases s.len(),
{
    if s.len() == 0 {
        0
    } else {
        int_sum(s.drop_last()) + s.last()
    }
}

/// Removing one element takes exactly its value out of the sum.
pub proof fn lemma_sum_remove(s: Seq<int>, i: int)
    requires
        0 <= i < s.len(),
    ensures
        int_sum(s.remove(i)) == int_sum(s) - s[i],
    decreases s.len(),
{
    if i == s.len() - 1 {
        assert(s.remove(i) =~= s.drop_last());
    } else {
        assert(s.remove(i).drop_last() =~= s.drop_last().remove(i));
        assert(s.remove(i).last() == s.last());
        lemma_sum_remove(s.drop_last(), i);
    }
}

/// The sum of any projection of the observations depends only on their
/// multiset, not on their order.
pub proof fn lemma_obs_sum_multiset(s1: Seq<Obs>, s2: Seq<Obs>, f: spec_fn(Obs) -> int)
    requires
        s1.to_multiset() == s2.to_multiset(),
    ensures
        int_sum(s1.map_values(f)) == int_sum(s2.map_values(f)),
    decreases s1.len(),
{
    broadcast use group_to_multiset_ensures;

    if s1.len() == 0 {
        assert(s2.to_multiset().len() == 0);
        assert(s1.map_values(f) =~= s2.map_values(f));
    } else {
        let x = s1.last();
        assert(s1.contains(x));
        assert(s2.to_multiset().count(x) > 0);
        assert(s2.contains(x));
        let i = choose|i: int| 0 <= i < s2.len() && s2[i] == x;
        assert(s1.remove(s1.len() - 1) =~= s1.drop_last());
        assert(s1.drop_last().to_multiset() =~= s1.to_multiset().remove(x));
        assert(s2.remove(i).to_multiset() =~= s2.to_multiset().remove(x));
        lemma_obs_sum_multiset(s1.drop_last(), s2.remove(i), f);
        assert(s1.map_values(f).drop_last() =~= s1.drop_last().map_values(f));
        assert(s1.map_values(f).last() == f(x));
        assert(s2.remove(i).map_values(f) =~= s2.map_values(f).remove(i));
        lemma_sum_remove(s2.map_values(f), i);
    }
}

} // verus!
