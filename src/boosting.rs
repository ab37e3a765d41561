//! The arithmetic of one boosting round: the starting distribution and the
//! reweighting that follows each chosen stump.
use vstd::prelude::*;
use crate::features::fits_integral;
use crate::util::{grid_view, integral_ok};
use crate::weak_classifier::{samples_fit, samples_view, stump_predicts, SampleView, WeakClassifier};
use crate::weights::weight_total;
use crate::{Classification, Matrix};

verus! {

/// The total weight that a distribution is scaled to: weights are fixed point
/// numbers in units of `1 / DIST_TOTAL`.
pub const DIST_TOTAL: u64 = 0x1_0000_0000;

/// The uniform distribution over `n` samples: each gets `DIST_TOTAL / n`.
pub open spec fn uniform_distribution(n: int) -> Seq<u64> {
    Seq::new(n as nat, |i: int| (DIST_TOTAL as int / n) as u64)
}

/// Whether the stump gets the sample wrong.
pub open spec fn stump_misses(c: WeakClassifier, x: SampleView) -> bool {
    stump_predicts(c, x.0) != x.1
}

/// The factor a sample's weight is multiplied by before renormalising: the
/// correct weight `total - error` for a miss, the error for a hit. Up to a
/// common factor this is `exp(-alpha * label * prediction)` with
/// `alpha = ln((total - error) / error) / 2`.
pub open spec fn boost_factor(miss: bool, total: int, error: int) -> int {
    if miss {
        total - error
    } else {
        error
    }
}

/// The sum of `w * factor` over the first `n` samples.
pub open spec fn boosted_mass(
    c: WeakClassifier,
    s: Seq<SampleView>,
    ws: Seq<u64>,
    total: int,
    error: int,
    n: int,
) -> int
    decreases n,
{
    if n <= 0 {
        0
    } else {
        boosted_mass(c, s, ws, total, error, n - 1) + ws[n - 1] * boost_factor(
            stump_misses(c, s[n - 1]),
            total,
            error,
        )
    }
}

/// The weight of sample `i` after the round: its boosted mass as a share of
/// `DIST_TOTAL`, rounded down.
pub open spec fn reweighted(
    c: WeakClassifier,
    s: Seq<SampleView>,
    ws: Seq<u64>,
    error: int,
    i: int,
) -> int {
    let total = weight_total(ws);
    let z = boosted_mass(c, s, ws, total, error, s.len() as int);
    ws[i] * boost_factor(stump_misses(c, s[i]), total, error) * DIST_TOTAL / z
}

/// The distribution after a round whose stump has weighted error `error`:
/// unchanged when every boosted weight is zero, else each weight's share.
#[verifier::opaque]
pub open spec fn reweight_result(
    c: WeakClassifier,
    s: Seq<SampleView>,
    ws: Seq<u64>,
    error: int,
) -> Seq<u64> {
    let z = boosted_mass(c, s, ws, weight_total(ws), error, s.len() as int);
    if z == 0 {
        ws
    } else {
        Seq::new(ws.len(), |i: int| reweighted(c, s, ws, error, i) as u64)
    }
}

/// The uniform distribution over `n` samples.
pub fn uniform(n: usize) -> (r: Vec<u64>)
    requires
        n > 0,
    ensures
        r@ == uniform_distribution(n as int),
        weight_total(r@) <= DIST_TOTAL,
{
    let w = DIST_TOTAL / (n as u64);
    let mut r: Vec<u64> = Vec::with_capacity(n);
    let mut i: usize = 0;
    while i < n
        invariant
            i <= n,
            n > 0,
            w == DIST_TOTAL as int / (n as int),
            r@.len() == i,
            forall|j: int| 0 <= j < i ==> #[trigger] r@[j] == w,
            weight_total(r@) == i * w,
        decreases n - i,
    {
        let ghost before = r@;
        r.push(w);
        assert(r@.drop_last() =~= before);
        assert((i + 1) * w == i * w + w) by (nonlinear_arith);
        i = i + 1;
    }
    assert(r@ =~= uniform_distribution(n as int));
    assert(n * w <= DIST_TOTAL) by (nonlinear_arith)
        requires
            w == DIST_TOTAL as int / (n as int),
            n > 0,
    ;
    r
}

/// The total of a distribution.
pub fn distribution_total(ws: &Vec<u64>) -> (r: u64)
    requires
        weight_total(ws@) <= u64::MAX,
    ensures
        r == weight_total(ws@),
{
    let mut total: u64 = 0;
    let mut i: usize = 0;
    while i < ws.len()
        invariant
            weight_total(ws@) <= u64::MAX,
            i <= ws@.len(),
            total == weight_total(ws@.take(i as int)),
        decreases ws.len() - i,
    {
        proof {
            assert(ws@.take(i + 1).drop_last() =~= ws@.take(i as int));
            lemma_total_prefix(ws@, i + 1);
        }
        total = total + ws[i];
        i = i + 1;
    }
    assert(ws@.take(i as int) =~= ws@);
    total
}

proof fn lemma_mass_bound(
    c: WeakClassifier,
    s: Seq<SampleView>,
    ws: Seq<u64>,
    total: int,
    error: int,
    n: int,
)
    requires
        0 <= error <= total,
        0 <= n <= ws.len(),
    ensures
        0 <= boosted_mass(c, s, ws, total, error, n) <= weight_total(ws.take(n)) * total,
    decreases n,
{
    if n > 0 {
        lemma_mass_bound(c, s, ws, total, error, n - 1);
        assert(ws.take(n).drop_last() =~= ws.take(n - 1));
        let f = boost_factor(stump_misses(c, s[n - 1]), total, error);
        assert(0 <= ws[n - 1] * f <= ws[n - 1] * total) by (nonlinear_arith)
            requires
                0 <= f <= total,
                ws[n - 1] >= 0,
        ;
        assert(weight_total(ws.take(n - 1)) * total + ws[n - 1] * total == weight_total(ws.take(n))
            * total) by (nonlinear_arith)
            requires
                weight_total(ws.take(n)) == weight_total(ws.take(n - 1)) + ws[n - 1],
        ;
    }
}

/// The next round's distribution after a stump with weighted error `error`:
/// each weight is multiplied by `total - error` if the stump misses its
/// sample and by `error` if it does not, and the result is scaled back to
/// `DIST_TOTAL`, rounding down. A miss is judged by the new stump's own
/// verdict (its +1 / -1 vote), as AdaBoost's update
/// `exp(-alpha * label * vote)` intends; the ensemble's raw score is not used. When every boosted weight is zero (the stump
/// is perfect, or wrong everywhere) the distribution is returned unchanged.
pub fn reweight(
    distribution: &Vec<u64>,
    classifier: &WeakClassifier,
    training_samples: &Vec<(Matrix, Classification)>,
    error: u64,
) -> (r: Vec<u64>)
    requires
        classifier.wf(),
        samples_fit(classifier.feature, samples_view(training_samples)),
        distribution@.len() == training_samples@.len(),
        weight_total(distribution@) <= DIST_TOTAL,
        error <= weight_total(distribution@),
    ensures
        r@.len() == distribution@.len(),
        weight_total(r@) <= DIST_TOTAL,
        r@ == reweight_result(*classifier, samples_view(training_samples), distribution@, error as int),
        ({
            let sv = samples_view(training_samples);
            let z = boosted_mass(
                *classifier,
                sv,
                distribution@,
                weight_total(distribution@),
                error as int,
                sv.len() as int,
            );
            if z == 0 {
                r@ == distribution@
            } else {
                forall|i: int|
                    0 <= i < r@.len() ==> #[trigger] r@[i] == reweighted(
                        *classifier,
                        sv,
                        distribution@,
                        error as int,
                        i,
                    )
            }
        }),
{
    let ghost sv = samples_view(training_samples);
    let ghost ws = distribution@;
    let n = distribution.len();
    let mut total: u64 = 0;
    let mut i: usize = 0;
    while i < n
        invariant
            n == ws.len(),
            ws == distribution@,
            weight_total(ws) <= DIST_TOTAL,
            i <= n,
            total == weight_total(ws.take(i as int)),
        decreases n - i,
    {
        proof {
            assert(ws.take(i + 1).drop_last() =~= ws.take(i as int));
            lemma_total_prefix(ws, i + 1);
        }
        total = total + distribution[i];
        i = i + 1;
    }
    assert(ws.take(n as int) =~= ws);
    let ghost tot = total as int;
    // Misses of the stump, one flag per sample.
    let mut misses: Vec<bool> = Vec::with_capacity(n);
    let mut z: u128 = 0;
    i = 0;
    while i < n
        invariant
            n == ws.len(),
            ws == distribution@,
            sv == samples_view(training_samples),
            sv.len() == n,
            classifier.wf(),
            samples_fit(classifier.feature, sv),
            tot == total,
            total == weight_total(ws),
            total <= DIST_TOTAL,
            error <= total,
            i <= n,
            misses@.len() == i,
            forall|j: int| 0 <= j < i ==> #[trigger] misses@[j] == stump_misses(*classifier, sv[j]),
            z == boosted_mass(*classifier, sv, ws, tot, error as int, i as int),
        decreases n - i,
    {
        assert(sv[i as int] == (grid_view(&training_samples@[i as int].0), training_samples@[i as int].1));
        assert(integral_ok(sv[i as int].0) && fits_integral(classifier.feature, sv[i as int].0));
        let miss = classifier.evaluate(&training_samples[i].0) != training_samples[i].1;
        let factor: u64 = if miss {
            total - error
        } else {
            error
        };
        proof {
            lemma_mass_bound(*classifier, sv, ws, tot, error as int, i + 1);
            lemma_total_prefix(ws, i + 1);
            assert(weight_total(ws.take(i + 1)) * tot <= DIST_TOTAL * DIST_TOTAL) by (nonlinear_arith)
                requires
                    0 <= weight_total(ws.take(i + 1)) <= DIST_TOTAL,
                    0 <= tot <= DIST_TOTAL,
            ;
        }
        z = z + (distribution[i] as u128) * (factor as u128);
        misses.push(miss);
        i = i + 1;
    }
    if z == 0 {
        proof {
            reveal(reweight_result);
        }
        return distribution.clone();
    }
    let mut r: Vec<u64> = Vec::with_capacity(n);
    i = 0;
    while i < n
        invariant
            n == ws.len(),
            ws == distribution@,
            sv.len() == n,
            tot == total,
            total == weight_total(ws),
            total <= DIST_TOTAL,
            error <= total,
            misses@.len() == n,
            forall|j: int| 0 <= j < n ==> #[trigger] misses@[j] == stump_misses(*classifier, sv[j]),
            z == boosted_mass(*classifier, sv, ws, tot, error as int, n as int),
            z > 0,
            i <= n,
            r@.len() == i,
            forall|j: int| 0 <= j < i ==> #[trigger] r@[j] == reweighted(*classifier, sv, ws, error as int, j),
            weight_total(r@) * z <= DIST_TOTAL * boosted_mass(*classifier, sv, ws, tot, error as int, i as int),
        decreases n - i,
    {
        let factor: u64 = if misses[i] {
            total - error
        } else {
            error
        };
        let ghost a = ws[i as int] * boost_factor(misses@[i as int], tot, error as int);
        proof {
            lemma_mass_prefix_le(*classifier, sv, ws, tot, error as int, i + 1, n as int);
            lemma_mass_bound(*classifier, sv, ws, tot, error as int, i as int);
            lemma_mass_bound(*classifier, sv, ws, tot, error as int, n as int);
            assert(ws.take(n as int) =~= ws);
            let f = boost_factor(misses@[i as int], tot, error as int);
            assert(a >= 0) by (nonlinear_arith)
                requires
                    a == ws[i as int] * f,
                    f >= 0,
                    ws[i as int] >= 0,
            ;
            assert(z <= DIST_TOTAL * DIST_TOTAL) by (nonlinear_arith)
                requires
                    z <= weight_total(ws) * tot,
                    0 <= weight_total(ws) <= DIST_TOTAL,
                    0 <= tot <= DIST_TOTAL,
            ;
            assert(0 <= a * DIST_TOTAL <= z * DIST_TOTAL) by (nonlinear_arith)
                requires
                    0 <= a <= z,
            ;
            assert(a * DIST_TOTAL / (z as int) <= DIST_TOTAL) by (nonlinear_arith)
                requires
                    0 <= a <= z,
                    z > 0,
            ;
            assert(a <= DIST_TOTAL * DIST_TOTAL);
        }
        let share: u128 = (distribution[i] as u128) * (factor as u128) * (DIST_TOTAL as u128) / z;
        let ghost before = r@;
        r.push(share as u64);
        proof {
            assert(r@.drop_last() =~= before);
            let q = a * DIST_TOTAL / (z as int);
            assert(q * z <= a * DIST_TOTAL) by (nonlinear_arith)
                requires
                    q == a * DIST_TOTAL / (z as int),
                    z > 0,
                    a >= 0,
            ;
            assert((weight_total(before) + q) * z == weight_total(before) * z + q * z) by (nonlinear_arith);
            assert(DIST_TOTAL * boosted_mass(*classifier, sv, ws, tot, error as int, i + 1)
                == DIST_TOTAL * boosted_mass(*classifier, sv, ws, tot, error as int, i as int) + a * DIST_TOTAL) by (nonlinear_arith)
                requires
                    boosted_mass(*classifier, sv, ws, tot, error as int, i + 1)
                        == boosted_mass(*classifier, sv, ws, tot, error as int, i as int) + a,
            ;
        }
        i = i + 1;
    }
    proof {
        assert(weight_total(r@) * z <= DIST_TOTAL * z);
        assert(weight_total(r@) <= DIST_TOTAL) by (nonlinear_arith)
            requires
                weight_total(r@) * z <= DIST_TOTAL * z,
                z > 0,
        ;
        reveal(reweight_result);
        assert(r@ =~= reweight_result(*classifier, sv, ws, error as int));
    }
    r
}

pub proof fn lemma_total_prefix(ws: Seq<u64>, k: int)
    requires
        0 <= k <= ws.len(),
    ensures
        0 <= weight_total(ws.take(k)) <= weight_total(ws),
    decreases ws.len(),
{
    lemma_total_nonneg(ws.take(k));
    if k < ws.len() {
        assert(ws.drop_last().take(k) =~= ws.take(k));
        lemma_total_prefix(ws.drop_last(), k);
    } else {
        assert(ws.take(k) =~= ws);
    }
}

proof fn lemma_total_nonneg(ws: Seq<u64>)
    ensures
        0 <= weight_total(ws),
    decreases ws.len(),
{
    if ws.len() > 0 {
        lemma_total_nonneg(ws.drop_last());
    }
}

proof fn lemma_mass_prefix_le(
    c: WeakClassifier,
    s: Seq<SampleView>,
    ws: Seq<u64>,
    total: int,
    error: int,
    k: int,
    n: int,
)
    requires
        0 <= error <= total,
        0 <= k <= n <= ws.len(),
    ensures
        boosted_mass(c, s, ws, total, error, k) <= boosted_mass(c, s, ws, total, error, n),
    decreases n - k,
{
    if k < n {
        lemma_mass_prefix_le(c, s, ws, total, error, k, n - 1);
        let f = boost_factor(stump_misses(c, s[n - 1]), total, error);
        assert(ws[n - 1] * f >= 0) by (nonlinear_arith)
            requires
                f >= 0,
                ws[n - 1] >= 0,
        ;
    }
}

} // verus!
