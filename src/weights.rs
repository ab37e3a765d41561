//! Weighted sums over scored samples, the arithmetic behind stump search.
use vstd::prelude::*;
use crate::Classification;

verus! {

/// A sample as the stump search sees it: its feature score, its weight in the
/// current distribution and its true class.
pub type Entry = (i64, u64, Classification);

/// The total weight of the entries that satisfy `p`.
pub open spec fn psum(s: Seq<Entry>, p: spec_fn(Entry) -> bool) -> int
    decreases s.len(),
{
    if s.len() == 0 {
        0
    } else {
        psum(s.drop_last(), p) + if p(s.last()) {
            s.last().1 as int
        } else {
            0
        }
    }
}

/// Every entry.
pub open spec fn any_entry() -> spec_fn(Entry) -> bool {
    |e: Entry| true
}

/// Entries of class `c`.
pub open spec fn of_class(c: Classification) -> spec_fn(Entry) -> bool {
    |e: Entry| e.2 == c
}

/// Entries of class `c` that score below `t`.
pub open spec fn of_class_below(c: Classification, t: int) -> spec_fn(Entry) -> bool {
    |e: Entry| e.2 == c && (e.0 as int) < t
}

/// The total of a weight vector.
pub open spec fn weight_total(ws: Seq<u64>) -> int
    decreases ws.len(),
{
    if ws.len() == 0 {
        0
    } else {
        weight_total(ws.drop_last()) + ws.last()
    }
}

/// Entries in non-decreasing order of score.
pub open spec fn sorted_by_score(s: Seq<Entry>) -> bool {
    forall|i: int, j: int| 0 <= i < j < s.len() ==> s[i].0 <= s[j].0
}

/// How many entries score below `t`.
pub open spec fn count_below(s: Seq<Entry>, t: int) -> int
    decreases s.len(),
{
    if s.len() == 0 {
        0
    } else {
        count_below(s.drop_last(), t) + if (s.last().0 as int) < t {
            1int
        } else {
            0
        }
    }
}

/// `k` splits a sorted sequence at `t`: the entries before it score below `t`,
/// the others do not.
pub open spec fn splits_at(s: Seq<Entry>, k: int, t: int) -> bool {
    &&& 0 <= k <= s.len()
    &&& (k == 0 || (s[k - 1].0 as int) < t)
    &&& (k == s.len() || t <= s[k].0 as int)
}

pub proof fn lemma_psum_nonneg(s: Seq<Entry>, p: spec_fn(Entry) -> bool)
    ensures
        0 <= psum(s, p),
    decreases s.len(),
{
    if s.len() > 0 {
        lemma_psum_nonneg(s.drop_last(), p);
    }
}

/// Sums under predicates that agree entry by entry in a linear identity agree
/// in the same identity.
pub proof fn lemma_psum_linear(
    s: Seq<Entry>,
    p1: spec_fn(Entry) -> bool,
    p2: spec_fn(Entry) -> bool,
    p3: spec_fn(Entry) -> bool,
    p4: spec_fn(Entry) -> bool,
)
    requires
        forall|i: int|
            0 <= i < s.len() ==> (if p1(#[trigger] s[i]) {
                1int
            } else {
                0
            }) + (if p2(s[i]) {
                1int
            } else {
                0
            }) == (if p3(s[i]) {
                1int
            } else {
                0
            }) + (if p4(s[i]) {
                1int
            } else {
                0
            }),
    ensures
        psum(s, p1) + psum(s, p2) == psum(s, p3) + psum(s, p4),
    decreases s.len(),
{
    if s.len() > 0 {
        let d = s.drop_last();
        assert forall|i: int| 0 <= i < d.len() implies (if p1(#[trigger] d[i]) {
            1int
        } else {
            0
        }) + (if p2(d[i]) {
            1int
        } else {
            0
        }) == (if p3(d[i]) {
            1int
        } else {
            0
        }) + (if p4(d[i]) {
            1int
        } else {
            0
        }) by {
            assert(d[i] == s[i]);
        }
        lemma_psum_linear(d, p1, p2, p3, p4);
        assert(s.last() == s[s.len() - 1]);
    }
}

/// A predicate implied by another has at least its weight.
pub proof fn lemma_psum_mono(s: Seq<Entry>, p: spec_fn(Entry) -> bool, q: spec_fn(Entry) -> bool)
    requires
        forall|e: Entry| #[trigger] p(e) ==> q(e),
    ensures
        psum(s, p) <= psum(s, q),
    decreases s.len(),
{
    if s.len() > 0 {
        lemma_psum_mono(s.drop_last(), p, q);
    }
}

/// Over a sorted sequence split at `t` by `k`, the class-`c` weight below `t`
/// is the class-`c` weight of the first `k` entries.
pub proof fn lemma_below_is_prefix(s: Seq<Entry>, k: int, t: int, c: Classification)
    requires
        sorted_by_score(s),
        splits_at(s, k, t),
    ensures
        psum(s, of_class_below(c, t)) == psum(s.take(k), of_class(c)),
    decreases s.len(),
{
    if s.len() == 0 {
        assert(s.take(k) =~= s);
    } else if k == s.len() {
        assert(s.take(k) =~= s);
        let d = s.drop_last();
        if k > 0 {
            assert forall|i: int| 0 <= i < d.len() implies (d[i].0 as int) < t by {
                assert(s[i].0 <= s[k - 1].0);
            }
        }
        lemma_below_all(d, t, c);
        assert(s.last() == s[k - 1]);
    } else {
        let d = s.drop_last();
        assert(s.last() == s[s.len() - 1]);
        assert(s[k].0 <= s[s.len() - 1].0);
        assert(d.take(k) =~= s.take(k));
        if k < d.len() {
            assert(d[k] == s[k]);
        }
        if k > 0 {
            assert(d[k - 1] == s[k - 1]);
        }
        lemma_below_is_prefix(d, k, t, c);
    }
}

proof fn lemma_below_all(s: Seq<Entry>, t: int, c: Classification)
    requires
        forall|i: int| 0 <= i < s.len() ==> (s[i].0 as int) < t,
    ensures
        psum(s, of_class_below(c, t)) == psum(s, of_class(c)),
    decreases s.len(),
{
    if s.len() > 0 {
        let d = s.drop_last();
        assert forall|i: int| 0 <= i < d.len() implies (d[i].0 as int) < t by {
            assert(d[i] == s[i]);
        }
        lemma_below_all(d, t, c);
        assert(s.last() == s[s.len() - 1]);
    }
}

/// In a sorted sequence, the number of entries below `t` splits it at `t`.
pub proof fn lemma_count_splits(s: Seq<Entry>, t: int)
    requires
        sorted_by_score(s),
    ensures
        splits_at(s, count_below(s, t), t),
    decreases s.len(),
{
    if s.len() > 0 {
        let d = s.drop_last();
        lemma_count_splits(d, t);
        let k = count_below(d, t);
        assert(s.last() == s[s.len() - 1]);
        if (s.last().0 as int) < t {
            lemma_count_all(d, t);
            if d.len() > 0 {
                assert forall|i: int| 0 <= i < d.len() implies (d[i].0 as int) < t by {
                    assert(d[i] == s[i]);
                    assert(s[i].0 <= s[s.len() - 1].0);
                }
                lemma_count_full(d, t);
            }
        } else {
            if k < d.len() {
                assert(d[k] == s[k]);
            }
            if k > 0 {
                assert(d[k - 1] == s[k - 1]);
            }
        }
    }
}

proof fn lemma_count_all(s: Seq<Entry>, t: int)
    ensures
        0 <= count_below(s, t) <= s.len(),
    decreases s.len(),
{
    if s.len() > 0 {
        lemma_count_all(s.drop_last(), t);
    }
}

proof fn lemma_count_full(s: Seq<Entry>, t: int)
    requires
        forall|i: int| 0 <= i < s.len() ==> (s[i].0 as int) < t,
    ensures
        count_below(s, t) == s.len(),
    decreases s.len(),
{
    if s.len() > 0 {
        let d = s.drop_last();
        assert forall|i: int| 0 <= i < d.len() implies (d[i].0 as int) < t by {
            assert(d[i] == s[i]);
        }
        lemma_count_full(d, t);
        assert(s.last() == s[s.len() - 1]);
    }
}

/// A prefix weighs no more than the whole.
pub proof fn lemma_psum_prefix(s: Seq<Entry>, k: int, p: spec_fn(Entry) -> bool)
    requires
        0 <= k <= s.len(),
    ensures
        0 <= psum(s.take(k), p) <= psum(s, p),
    decreases s.len(),
{
    lemma_psum_nonneg(s.take(k), p);
    if k < s.len() {
        let d = s.drop_last();
        assert(d.take(k) =~= s.take(k));
        lemma_psum_prefix(d, k, p);
    } else {
        assert(s.take(k) =~= s);
    }
}

/// The weight of each class adds up to the whole weight.
pub proof fn lemma_class_split(s: Seq<Entry>)
    ensures
        psum(s, of_class(Classification::Face)) + psum(s, of_class(Classification::NonFace))
            == psum(s, any_entry()),
    decreases s.len(),
{
    if s.len() > 0 {
        lemma_class_split(s.drop_last());
    }
}

/// Splitting a sequence splits every weighted sum over it.
pub proof fn lemma_psum_split(s: Seq<Entry>, k: int, p: spec_fn(Entry) -> bool)
    requires
        0 <= k <= s.len(),
    ensures
        psum(s, p) == psum(s.take(k), p) + psum(s.skip(k), p),
    decreases s.len(),
{
    if k == s.len() {
        assert(s.take(k) =~= s);
        assert(s.skip(k) =~= Seq::<Entry>::empty());
    } else {
        let d = s.drop_last();
        lemma_psum_split(d, k, p);
        assert(d.take(k) =~= s.take(k));
        assert(s.skip(k).drop_last() =~= d.skip(k));
        assert(s.skip(k).last() == s.last());
    }
}

} // verus!
