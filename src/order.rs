//! Counting over sequences of scores, and the order statistic that a sort
//! reads off.
use vstd::prelude::*;

verus! {

/// How many scores satisfy `p`.
pub open spec fn count_of(s: Seq<i128>, p: spec_fn(i128) -> bool) -> int
    decreases s.len(),
{
    if s.len() == 0 {
        0
    } else {
        count_of(s.drop_last(), p) + if p(s.last()) {
            1int
        } else {
            0
        }
    }
}

/// Scores below `v`.
pub open spec fn less_than(v: i128) -> spec_fn(i128) -> bool {
    |x: i128| x < v
}

/// Scores at most `v`.
pub open spec fn at_most(v: i128) -> spec_fn(i128) -> bool {
    |x: i128| x <= v
}

/// `v` is the score at position `k` once `s` is sorted in ascending order:
/// fewer than `k + 1` scores lie below it and more than `k` lie at or below it.
pub open spec fn is_order_stat(s: Seq<i128>, k: int, v: i128) -> bool {
    count_of(s, less_than(v)) <= k < count_of(s, at_most(v))
}

/// Ascending order.
pub open spec fn ascending(s: Seq<i128>) -> bool {
    forall|i: int, j: int| 0 <= i < j < s.len() ==> s[i] <= s[j]
}

pub proof fn lemma_count_insert(s: Seq<i128>, k: int, x: i128, p: spec_fn(i128) -> bool)
    requires
        0 <= k <= s.len(),
    ensures
        count_of(s.insert(k, x), p) == count_of(s, p) + if p(x) {
            1int
        } else {
            0
        },
    decreases s.len(),
{
    let t = s.insert(k, x);
    if k == s.len() {
        assert(t.drop_last() =~= s);
    } else {
        assert(t.drop_last() =~= s.drop_last().insert(k, x));
        assert(t.last() == s.last());
        lemma_count_insert(s.drop_last(), k, x, p);
    }
}

proof fn lemma_count_tail_fails(s: Seq<i128>, k: int, p: spec_fn(i128) -> bool)
    requires
        0 <= k <= s.len(),
        forall|j: int| k <= j < s.len() ==> !p(#[trigger] s[j]),
    ensures
        count_of(s, p) == count_of(s.take(k), p),
    decreases s.len(),
{
    if k == s.len() {
        assert(s.take(k) =~= s);
    } else {
        let d = s.drop_last();
        assert(d.take(k) =~= s.take(k));
        assert forall|j: int| k <= j < d.len() implies !p(#[trigger] d[j]) by {
            assert(d[j] == s[j]);
        }
        assert(!p(s[s.len() - 1]));
        lemma_count_tail_fails(d, k, p);
    }
}

proof fn lemma_count_le_len(s: Seq<i128>, p: spec_fn(i128) -> bool)
    ensures
        0 <= count_of(s, p) <= s.len(),
    decreases s.len(),
{
    if s.len() > 0 {
        lemma_count_le_len(s.drop_last(), p);
    }
}

proof fn lemma_count_all_hold(s: Seq<i128>, p: spec_fn(i128) -> bool)
    requires
        forall|j: int| 0 <= j < s.len() ==> p(#[trigger] s[j]),
    ensures
        count_of(s, p) == s.len(),
    decreases s.len(),
{
    if s.len() > 0 {
        let d = s.drop_last();
        assert forall|j: int| 0 <= j < d.len() implies p(#[trigger] d[j]) by {
            assert(d[j] == s[j]);
        }
        lemma_count_all_hold(d, p);
        assert(p(s[s.len() - 1]));
    }
}

proof fn lemma_count_prefix(s: Seq<i128>, k: int, p: spec_fn(i128) -> bool)
    requires
        0 <= k <= s.len(),
    ensures
        count_of(s.take(k), p) <= count_of(s, p),
    decreases s.len(),
{
    if k < s.len() {
        let d = s.drop_last();
        assert(d.take(k) =~= s.take(k));
        lemma_count_prefix(d, k, p);
    } else {
        assert(s.take(k) =~= s);
    }
}

/// In an ascending sequence the entry at position `k` is its `k`-th order
/// statistic.
pub proof fn lemma_sorted_order_stat(s: Seq<i128>, k: int)
    requires
        ascending(s),
        0 <= k < s.len(),
    ensures
        is_order_stat(s, k, s[k]),
{
    let v = s[k];
    lemma_count_tail_fails(s, k, less_than(v));
    lemma_count_le_len(s.take(k), less_than(v));
    lemma_count_all_hold(s.take(k + 1), at_most(v));
    lemma_count_prefix(s, k + 1, at_most(v));
}

/// Scores in ascending order; every count over them is kept.
pub fn sort_ascending(v: &Vec<i128>) -> (sorted: Vec<i128>)
    ensures
        ascending(sorted@),
        sorted@.len() == v@.len(),
        forall|p: spec_fn(i128) -> bool| #[trigger] count_of(sorted@, p) == count_of(v@, p),
{
    let mut sorted: Vec<i128> = Vec::with_capacity(v.len());
    let mut i: usize = 0;
    while i < v.len()
        invariant
            i <= v@.len(),
            sorted@.len() == i,
            ascending(sorted@),
            forall|p: spec_fn(i128) -> bool| #[trigger] count_of(sorted@, p) == count_of(v@.take(i as int), p),
        decreases v.len() - i,
    {
        let e = v[i];
        let mut k: usize = sorted.len();
        while k > 0 && sorted[k - 1] > e
            invariant
                k <= sorted@.len(),
                forall|j: int| k <= j < sorted@.len() ==> sorted@[j] > e,
            decreases k,
        {
            k = k - 1;
        }
        let ghost old_sorted = sorted@;
        sorted.insert(k, e);
        proof {
            assert forall|p: spec_fn(i128) -> bool| #[trigger] count_of(sorted@, p) == count_of(v@.take(i + 1), p) by {
                lemma_count_insert(old_sorted, k as int, e, p);
                assert(v@.take(i + 1).drop_last() =~= v@.take(i as int));
                assert(v@.take(i + 1).last() == e);
            }
            assert forall|a: int, b: int| 0 <= a < b < sorted@.len() implies sorted@[a] <= sorted@[b] by {
                if k > 0 {
                    assert(old_sorted[k - 1] <= e);
                }
                if a < k && b > k {
                    assert(old_sorted[a] <= old_sorted[b - 1]);
                } else if a == k && b > k {
                    assert(old_sorted[b - 1] > e);
                } else if b == k && a < k {
                    assert(old_sorted[a] <= old_sorted[k - 1]);
                }
            }
        }
        i = i + 1;
    }
    assert(v@.take(i as int) =~= v@);
    sorted
}

} // verus!
