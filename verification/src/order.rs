//! Sorting positions of a collection by an order on its items.

use vstd::prelude::*;

verus! {

/// A type whose values are ranked by a total preorder.
pub trait Ranked: Sized {
    /// `self` is ranked at or before `other`.
    spec fn rank_le(&self, other: &Self) -> bool;

    /// Decides `rank_le`.
    fn at_or_before(&self, other: &Self) -> (r: bool)
        ensures
            r == self.rank_le(other),
    ;

    /// Of two values, one is ranked at or before the other.
    proof fn rank_total(a: &Self, b: &Self)
        ensures
            a.rank_le(b) || b.rank_le(a),
    ;

    /// The ranking is transitive.
    proof fn rank_trans(a: &Self, b: &Self, c: &Self)
        requires
            a.rank_le(b),
            b.rank_le(c),
        ensures
            a.rank_le(c),
    ;
}

/// Position `a` comes at or before position `b`: by rank first, and between
/// items of equal rank by position, so that ties keep the collection's order.
pub open spec fn pos_le<T: Ranked>(items: Seq<T>, a: int, b: int) -> bool {
    items[a].rank_le(&items[b]) && (!items[b].rank_le(&items[a]) || a <= b)
}

/// Every entry of `ids` is a position of `items`.
pub open spec fn positions_of<T>(items: Seq<T>, ids: Seq<usize>) -> bool {
    forall|i: int| 0 <= i < ids.len() ==> (#[trigger] ids[i]) < items.len()
}

/// `ids` lists positions of `items` in sorted order.
pub open spec fn sorted_positions<T: Ranked>(items: Seq<T>, ids: Seq<usize>) -> bool {
    forall|i: int, j: int|
        0 <= i < j < ids.len() ==> pos_le(items, #[trigger] ids[i] as int, #[trigger] ids[j] as int)
}

/// Of two positions, one comes at or before the other.
pub proof fn lemma_pos_le_total<T: Ranked>(items: Seq<T>, a: int, b: int)
    requires
        0 <= a < items.len(),
        0 <= b < items.len(),
    ensures
        pos_le(items, a, b) || pos_le(items, b, a),
{
    T::rank_total(&items[a], &items[b]);
}

/// The order on positions is transitive.
pub proof fn lemma_pos_le_trans<T: Ranked>(items: Seq<T>, a: int, b: int, c: int)
    requires
        0 <= a < items.len(),
        0 <= b < items.len(),
        0 <= c < items.len(),
        pos_le(items, a, b),
        pos_le(items, b, c),
    ensures
        pos_le(items, a, c),
{
    T::rank_trans(&items[a], &items[b], &items[c]);
    if items[c].rank_le(&items[a]) {
        T::rank_trans(&items[c], &items[a], &items[b]);
        T::rank_trans(&items[b], &items[c], &items[a]);
    }
}

/// Two positions that each come at or before the other are the same.
pub proof fn lemma_pos_le_antisym<T: Ranked>(items: Seq<T>, a: int, b: int)
    requires
        pos_le(items, a, b),
        pos_le(items, b, a),
    ensures
        a == b,
{
}

proof fn lemma_insert_multiset(s: Seq<usize>, k: int, x: usize)
    requires
        0 <= k <= s.len(),
    ensures
        s.insert(k, x).to_multiset() =~= s.to_multiset().insert(x),
{
    let t = s.insert(k, x);
    t.to_multiset_ensures();
    assert(t.remove(k) =~= s);
    assert(t[k] == x);
    assert(t.contains(x));
}

fn pos_at_or_before<T: Ranked>(items: &Vec<T>, a: usize, b: usize) -> (r: bool)
    requires
        a < items.len(),
        b < items.len(),
    ensures
        r == pos_le(items@, a as int, b as int),
{
    items[a].at_or_before(&items[b]) && (!items[b].at_or_before(&items[a]) || a <= b)
}

/// Sorts the positions `ids` of `items`: the result holds the same positions,
/// each as often as `ids` does, ordered by rank, ties by position.
pub fn sort_positions<T: Ranked>(items: &Vec<T>, ids: &Vec<usize>) -> (out: Vec<usize>)
    requires
        positions_of(items@, ids@),
    ensures
        out@.to_multiset() == ids@.to_multiset(),
        out@.len() == ids@.len(),
        positions_of(items@, out@),
        sorted_positions(items@, out@),
        forall|x: usize| out@.contains(x) <==> ids@.contains(x),
        ids@.no_duplicates() ==> out@.no_duplicates(),
{
    let mut out: Vec<usize> = Vec::new();
    let mut i: usize = 0;
    assert(ids@.take(0) =~= out@);
    while i < ids.len()
        invariant
            i <= ids.len(),
            positions_of(items@, ids@),
            positions_of(items@, out@),
            sorted_positions(items@, out@),
            out@.len() == i,
            out@.to_multiset() == ids@.take(i as int).to_multiset(),
        decreases ids.len() - i,
    {
        let x: usize = ids[i];
        let mut k: usize = out.len();
        while k > 0 && !pos_at_or_before(items, out[k - 1], x)
            invariant
                k <= out.len(),
                x < items.len(),
                positions_of(items@, out@),
                forall|j: int| k <= j < out.len() ==> pos_le(items@, x as int, #[trigger] out[j] as int),
            decreases k,
        {
            proof {
                lemma_pos_le_total(items@, out[k - 1] as int, x as int);
            }
            k -= 1;
        }
        proof {
            let prev = out@;
            let next = prev.insert(k as int, x);
            assert forall|a: int, b: int| 0 <= a < b < next.len() implies pos_le(
                items@,
                #[trigger] next[a] as int,
                #[trigger] next[b] as int,
            ) by {
                if b < k {
                    assert(next[a] == prev[a] && next[b] == prev[b]);
                } else if b == k {
                    assert(next[a] == prev[a]);
                    if a < k - 1 {
                        lemma_pos_le_trans(items@, prev[a] as int, prev[k - 1] as int, x as int);
                    }
                } else if a < k {
                    assert(next[a] == prev[a] && next[b] == prev[b - 1]);
                } else if a == k {
                    assert(next[b] == prev[b - 1]);
                } else {
                    assert(next[a] == prev[a - 1] && next[b] == prev[b - 1]);
                }
            }
            assert forall|a: int| 0 <= a < next.len() implies (#[trigger] next[a]) < items@.len() by {
                if a < k {
                    assert(next[a] == prev[a]);
                } else if a > k {
                    assert(next[a] == prev[a - 1]);
                }
            }
            lemma_insert_multiset(prev, k as int, x);
            assert(ids@.take(i + 1) =~= ids@.take(i as int).push(x));
            vstd::seq_lib::to_multiset_build(ids@.take(i as int), x);
        }
        out.insert(k, x);
        i += 1;
    }
    proof {
        assert(ids@.take(i as int) =~= ids@);
        out@.to_multiset_ensures();
        ids@.to_multiset_ensures();
        assert forall|x: usize| out@.contains(x) <==> ids@.contains(x) by {
            assert(out@.to_multiset().count(x) == ids@.to_multiset().count(x));
        }
        if ids@.no_duplicates() {
            ids@.lemma_multiset_has_no_duplicates();
            out@.lemma_multiset_has_no_duplicates_conv();
        }
    }
    out
}

/// The positions `0, 1, .., n - 1`.
pub open spec fn all_positions(n: nat) -> Seq<usize> {
    Seq::new(n, |i: int| i as usize)
}

/// `order` holds every position of `items` once, in sorted order.
pub open spec fn is_full_order<T: Ranked>(items: Seq<T>, order: Seq<usize>) -> bool {
    &&& order.to_multiset() == all_positions(items.len()).to_multiset()
    &&& order.len() == items.len()
    &&& positions_of(items, order)
    &&& sorted_positions(items, order)
}

/// Lists the positions `0, 1, .., n - 1`.
pub fn positions_upto(n: usize) -> (out: Vec<usize>)
    ensures
        out@ == all_positions(n as nat),
{
    let mut out: Vec<usize> = Vec::new();
    let mut i: usize = 0;
    while i < n
        invariant
            i <= n,
            out@ == all_positions(i as nat),
        decreases n - i,
    {
        out.push(i);
        assert(out@ =~= all_positions((i + 1) as nat));
        i += 1;
    }
    out
}

/// In a sorted list of positions no earlier entry is ranked strictly after a
/// later one, and of two entries of equal rank the lower position is first.
pub proof fn lemma_sorted_positions_order<T: Ranked>(items: Seq<T>, ids: Seq<usize>, i: int, j: int)
    requires
        sorted_positions(items, ids),
        0 <= i < j < ids.len(),
    ensures
        items[ids[i] as int].rank_le(&items[ids[j] as int]),
        items[ids[j] as int].rank_le(&items[ids[i] as int]) ==> ids[i] <= ids[j],
{
}

/// A full order holds no position twice.
pub proof fn lemma_full_order_distinct<T: Ranked>(items: Seq<T>, order: Seq<usize>)
    requires
        is_full_order(items, order),
        items.len() <= usize::MAX,
    ensures
        order.no_duplicates(),
{
    let all = all_positions(items.len());
    assert forall|i: int, j: int| 0 <= i < all.len() && 0 <= j < all.len() && i != j implies all[i]
        != all[j] by {
        assert(all[i] == i as usize && all[j] == j as usize);
    }
    all.lemma_multiset_has_no_duplicates();
    order.lemma_multiset_has_no_duplicates_conv();
}

/// There is one way only to sort given positions: two sorted lists that
/// hold the same positions, each once, are the same list.
pub proof fn lemma_sorted_unique<T: Ranked>(items: Seq<T>, s: Seq<usize>, t: Seq<usize>)
    requires
        sorted_positions(items, s),
        sorted_positions(items, t),
        s.no_duplicates(),
        t.no_duplicates(),
        s.len() == t.len(),
        forall|x: usize| s.contains(x) <==> t.contains(x),
    ensures
        s == t,
    decreases s.len(),
{
    if s.len() > 0 {
        assert(s.contains(s[0]));
        assert(t.contains(t[0]));
        let j = choose|j: int| 0 <= j < t.len() && t[j] == s[0];
        let i = choose|i: int| 0 <= i < s.len() && s[i] == t[0];
        if i > 0 && j > 0 {
            assert(pos_le(items, s[0] as int, s[i] as int));
            assert(pos_le(items, t[0] as int, t[j] as int));
        }
        assert(s[0] == t[0]);
        let s1 = s.drop_first();
        let t1 = t.drop_first();
        assert forall|x: usize| s1.contains(x) <==> t1.contains(x) by {
            if s1.contains(x) {
                let k = choose|k: int| 0 <= k < s1.len() && s1[k] == x;
                assert(s[k + 1] == x);
                assert(s.contains(x));
                let m = choose|m: int| 0 <= m < t.len() && t[m] == x;
                assert(t1[m - 1] == x);
            }
            if t1.contains(x) {
                let k = choose|k: int| 0 <= k < t1.len() && t1[k] == x;
                assert(t[k + 1] == x);
                assert(t.contains(x));
                let m = choose|m: int| 0 <= m < s.len() && s[m] == x;
                assert(s1[m - 1] == x);
            }
        }
        assert forall|a: int, b: int| 0 <= a < b < s1.len() implies pos_le(
            items,
            #[trigger] s1[a] as int,
            #[trigger] s1[b] as int,
        ) by {
            assert(s1[a] == s[a + 1] && s1[b] == s[b + 1]);
        }
        assert forall|a: int, b: int| 0 <= a < b < t1.len() implies pos_le(
            items,
            #[trigger] t1[a] as int,
            #[trigger] t1[b] as int,
        ) by {
            assert(t1[a] == t[a + 1] && t1[b] == t[b + 1]);
        }
        assert forall|a: int, b: int| 0 <= a < s1.len() && 0 <= b < s1.len() && a != b implies s1[a]
            != s1[b] by {
            assert(s1[a] == s[a + 1] && s1[b] == s[b + 1]);
        }
        assert forall|a: int, b: int| 0 <= a < t1.len() && 0 <= b < t1.len() && a != b implies t1[a]
            != t1[b] by {
            assert(t1[a] == t[a + 1] && t1[b] == t[b + 1]);
        }
        lemma_sorted_unique(items, s1, t1);
        assert forall|k: int| 0 <= k < s.len() implies s[k] == t[k] by {
            if k > 0 {
                assert(s1[k - 1] == s[k] && t1[k - 1] == t[k]);
            }
        }
    }
    assert(s =~= t);
}

/// Two ascending lists that hold the same positions are the same list.
pub proof fn lemma_ascending_unique(s: Seq<usize>, t: Seq<usize>)
    requires
        forall|x: int, y: int| 0 <= x < y < s.len() ==> (#[trigger] s[x]) < (#[trigger] s[y]),
        forall|x: int, y: int| 0 <= x < y < t.len() ==> (#[trigger] t[x]) < (#[trigger] t[y]),
        forall|v: usize| s.contains(v) <==> t.contains(v),
    ensures
        s == t,
    decreases s.len() + t.len(),
{
    if s.len() > 0 && t.len() > 0 {
        assert(s.contains(s[0]));
        assert(t.contains(t[0]));
        let j = choose|j: int| 0 <= j < t.len() && t[j] == s[0];
        let i = choose|i: int| 0 <= i < s.len() && s[i] == t[0];
        if i > 0 {
            assert(s[0] < s[i]);
        }
        if j > 0 {
            assert(t[0] < t[j]);
        }
        assert(s[0] == t[0]);
        let s1 = s.drop_first();
        let t1 = t.drop_first();
        assert forall|v: usize| s1.contains(v) <==> t1.contains(v) by {
            if s1.contains(v) {
                let k = choose|k: int| 0 <= k < s1.len() && s1[k] == v;
                assert(s[k + 1] == v);
                assert(s[0] < s[k + 1]);
                assert(s.contains(v));
                let m = choose|m: int| 0 <= m < t.len() && t[m] == v;
                assert(t1[m - 1] == v);
            }
            if t1.contains(v) {
                let k = choose|k: int| 0 <= k < t1.len() && t1[k] == v;
                assert(t[k + 1] == v);
                assert(t[0] < t[k + 1]);
                assert(t.contains(v));
                let m = choose|m: int| 0 <= m < s.len() && s[m] == v;
                assert(s1[m - 1] == v);
            }
        }
        assert forall|x: int, y: int| 0 <= x < y < s1.len() implies (#[trigger] s1[x]) < (
        #[trigger] s1[y]) by {
            assert(s1[x] == s[x + 1] && s1[y] == s[y + 1]);
        }
        assert forall|x: int, y: int| 0 <= x < y < t1.len() implies (#[trigger] t1[x]) < (
        #[trigger] t1[y]) by {
            assert(t1[x] == t[x + 1] && t1[y] == t[y + 1]);
        }
        lemma_ascending_unique(s1, t1);
        assert forall|k: int| 0 <= k < s.len() implies s[k] == t[k] by {
            if k > 0 {
                assert(s1[k - 1] == s[k] && t1[k - 1] == t[k]);
            }
        }
        assert(s.len() == s1.len() + 1 && t.len() == t1.len() + 1);
    } else if s.len() > 0 {
        assert(s.contains(s[0]));
        assert(t.contains(s[0]));
    } else if t.len() > 0 {
        assert(t.contains(t[0]));
        assert(s.contains(t[0]));
    }
    assert(s =~= t);
}

} // verus!
