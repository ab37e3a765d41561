//! Decision stumps over one Haar feature, and the search for the stump of
//! least weighted error.
use vstd::prelude::*;
use crate::features::{feature_value, fits_integral, score_bound, sign_value, HaarFeature, Sign};
use crate::util::{grid_view, integral_ok};
use crate::weights::{
    any_entry, count_below, lemma_below_is_prefix, lemma_class_split, lemma_count_splits,
    lemma_psum_linear, lemma_psum_mono, lemma_psum_prefix, lemma_psum_split, of_class, of_class_below, psum,
    sorted_by_score, splits_at, weight_total, Entry,
};
use crate::{Classification, Matrix};

verus! {

/// A training sample as the contracts see it: its integral image and class.
pub type SampleView = (Seq<Seq<i64>>, Classification);

/// The view of a list of training samples.
pub open spec fn samples_view(s: &Vec<(Matrix, Classification)>) -> Seq<SampleView> {
    s@.map_values(|p: (Matrix, Classification)| (grid_view(&p.0), p.1))
}

/// Every sample is an integral image on which the feature can be evaluated.
pub open spec fn samples_fit(f: HaarFeature, s: Seq<SampleView>) -> bool {
    forall|i: int| 0 <= i < s.len() ==> integral_ok(#[trigger] s[i].0) && fits_integral(f, s[i].0)
}

/// A distribution over the samples: one weight per sample, whose total fits
/// in a `u64`.
pub open spec fn distribution_ok(s: Seq<SampleView>, ws: Seq<u64>) -> bool {
    ws.len() == s.len() && weight_total(ws) <= u64::MAX
}

/// Whether a stump of this polarity and threshold calls a score a face.
pub open spec fn says_face(toggle: Sign, threshold: int, score: int) -> bool {
    match toggle {
        Sign::Positive => score >= threshold,
        Sign::Negative => score <= threshold,
    }
}

/// The class a stump of this polarity and threshold gives a score.
pub open spec fn stump_class(toggle: Sign, threshold: int, score: int) -> Classification {
    if says_face(toggle, threshold, score) {
        Classification::Face
    } else {
        Classification::NonFace
    }
}

/// Entries that a stump of this polarity and threshold gets wrong.
pub open spec fn misclassified(toggle: Sign, threshold: int) -> spec_fn(Entry) -> bool {
    |e: Entry| stump_class(toggle, threshold, e.0 as int) != e.2
}

/// The feature's score, weight and class of each sample, in sample order.
pub open spec fn score_entries(f: HaarFeature, s: Seq<SampleView>, ws: Seq<u64>) -> Seq<Entry> {
    Seq::new(s.len(), |i: int| (feature_value(f, s[i].0) as i64, ws[i], s[i].1))
}

/// A decision stump: a feature, a threshold on its value, and a polarity that
/// says which side of the threshold is a face.
#[derive(Copy, Clone, Debug)]
pub struct WeakClassifier {
    pub feature: HaarFeature,
    pub toggle: Sign,
    pub threshold: i64,
}

/// Largest magnitude of a stump's threshold, so that its distance to any
/// feature score fits in an `i64`.
pub const THRESHOLD_BOUND: i64 = 0x4000_0000_0000_0000;

impl WeakClassifier {
    /// The threshold lies within `THRESHOLD_BOUND`.
    pub open spec fn wf(&self) -> bool {
        -THRESHOLD_BOUND <= self.threshold <= THRESHOLD_BOUND
    }
}

/// Every feature can be evaluated on every sample.
pub open spec fn features_fit(fs: Seq<HaarFeature>, s: Seq<SampleView>) -> bool {
    forall|i: int| 0 <= i < fs.len() ==> samples_fit(#[trigger] fs[i], s)
}

/// The signed distance of the feature's score from the threshold, positive on
/// the face side.
pub open spec fn stump_raw(c: WeakClassifier, m: Seq<Seq<i64>>) -> int {
    sign_value(c.toggle) * (feature_value(c.feature, m) - c.threshold)
}

/// The class a stump gives an integral image.
pub open spec fn stump_predicts(c: WeakClassifier, m: Seq<Seq<i64>>) -> Classification {
    stump_class(c.toggle, c.threshold as int, feature_value(c.feature, m))
}

/// The total weight of the samples that a stump misclassifies.
pub open spec fn weighted_error(c: WeakClassifier, s: Seq<SampleView>, ws: Seq<u64>) -> int {
    psum(score_entries(c.feature, s, ws), misclassified(c.toggle, c.threshold as int))
}

/// The stump of this feature with the given polarity and threshold.
pub open spec fn stump(f: HaarFeature, toggle: Sign, threshold: i64) -> WeakClassifier {
    WeakClassifier { feature: f, toggle, threshold }
}

/// The weight of misclassified samples for "face at or above the split" when
/// the first `k` sorted entries fall below the split.
pub open spec fn split_error_pos(s: Seq<Entry>, k: int) -> int {
    psum(s.take(k), of_class(Classification::Face)) + psum(s, of_class(Classification::NonFace))
        - psum(s.take(k), of_class(Classification::NonFace))
}

/// The same for "face below the split".
pub open spec fn split_error_neg(s: Seq<Entry>, k: int) -> int {
    psum(s.take(k), of_class(Classification::NonFace)) + psum(s, of_class(Classification::Face))
        - psum(s.take(k), of_class(Classification::Face))
}

/// The sweep looks at a split before position `k` when it falls between two
/// distinct scores, or at either end.
pub open spec fn sweep_position(s: Seq<Entry>, k: int) -> bool {
    0 <= k <= s.len() && (k == 0 || k == s.len() || s[k - 1].0 < s[k].0)
}

proof fn lemma_split_errors(s: Seq<Entry>, k: int, t: int)
    requires
        sorted_by_score(s),
        splits_at(s, k, t),
    ensures
        psum(s, misclassified(Sign::Positive, t)) == split_error_pos(s, k),
        psum(s, misclassified(Sign::Negative, t - 1)) == split_error_neg(s, k),
{
    let f = Classification::Face;
    let n = Classification::NonFace;
    lemma_psum_linear(
        s,
        misclassified(Sign::Positive, t),
        of_class_below(n, t),
        of_class_below(f, t),
        of_class(n),
    );
    lemma_psum_linear(
        s,
        misclassified(Sign::Negative, t - 1),
        of_class_below(f, t),
        of_class_below(n, t),
        of_class(f),
    );
    lemma_below_is_prefix(s, k, t, f);
    lemma_below_is_prefix(s, k, t, n);
}

impl WeakClassifier {
    /// A stump on a copy of `feature`.
    pub fn new(feature: &HaarFeature, threshold: i64, toggle: Sign) -> (r: WeakClassifier)
        ensures
            r == stump(*feature, toggle, threshold),
    {
        WeakClassifier { feature: *feature, threshold, toggle }
    }
}

/// The feature's score, weight and class of each sample.
fn score_samples(feature: &HaarFeature, samples: &Vec<(Matrix, Classification)>, dist: &Vec<u64>) -> (entries: Vec<Entry>)
    requires
        samples_fit(*feature, samples_view(samples)),
        dist@.len() == samples@.len(),
    ensures
        entries@ == score_entries(*feature, samples_view(samples), dist@),
        psum(entries@, any_entry()) == weight_total(dist@),
        forall|j: int| 0 <= j < entries@.len() ==> -score_bound() <= #[trigger] entries@[j].0 <= score_bound(),
{
    let ghost sv = samples_view(samples);
    let ghost full = score_entries(*feature, sv, dist@);
    let mut entries: Vec<Entry> = Vec::with_capacity(samples.len());
    let mut i: usize = 0;
    while i < samples.len()
        invariant
            sv == samples_view(samples),
            full == score_entries(*feature, sv, dist@),
            samples_fit(*feature, sv),
            dist@.len() == samples@.len(),
            i <= samples@.len(),
            entries@ == full.take(i as int),
            psum(entries@, any_entry()) == weight_total(dist@.take(i as int)),
            forall|j: int| 0 <= j < entries@.len() ==> -score_bound() <= #[trigger] entries@[j].0 <= score_bound(),
        decreases samples.len() - i,
    {
        assert(sv[i as int] == (grid_view(&samples@[i as int].0), samples@[i as int].1));
        assert(integral_ok(sv[i as int].0) && fits_integral(*feature, sv[i as int].0));
        let score = feature.evaluate(&samples[i].0);
        let ghost before = entries@;
        entries.push((score, dist[i], samples[i].1));
        assert(entries@ =~= full.take(i + 1));
        assert(entries@.drop_last() =~= before);
        assert(dist@.take(i + 1).drop_last() =~= dist@.take(i as int));
        i = i + 1;
    }
    assert(entries@ =~= full);
    assert(dist@.take(i as int) =~= dist@);
    entries
}

/// A copy of `v[lo..hi]`.
fn copy_range(v: &Vec<Entry>, lo: usize, hi: usize) -> (r: Vec<Entry>)
    requires
        lo <= hi <= v@.len(),
    ensures
        r@ == v@.subrange(lo as int, hi as int),
{
    let mut r: Vec<Entry> = Vec::with_capacity(hi - lo);
    let mut i: usize = lo;
    while i < hi
        invariant
            lo <= i <= hi <= v@.len(),
            r@ == v@.subrange(lo as int, i as int),
        decreases hi - i,
    {
        r.push(v[i]);
        assert(r@ =~= v@.subrange(lo as int, i + 1));
        i = i + 1;
    }
    r
}

/// The two sorted lists merged into one sorted list, taking from `a` first
/// among equal scores; every weighted sum is the sum over both.
fn merge(a: &Vec<Entry>, b: &Vec<Entry>) -> (r: Vec<Entry>)
    requires
        sorted_by_score(a@),
        sorted_by_score(b@),
        forall|j: int| 0 <= j < a@.len() ==> -score_bound() <= #[trigger] a@[j].0 <= score_bound(),
        forall|j: int| 0 <= j < b@.len() ==> -score_bound() <= #[trigger] b@[j].0 <= score_bound(),
    ensures
        sorted_by_score(r@),
        r@.len() == a@.len() + b@.len(),
        forall|p: spec_fn(Entry) -> bool| #[trigger] psum(r@, p) == psum(a@, p) + psum(b@, p),
        forall|j: int| 0 <= j < r@.len() ==> -score_bound() <= #[trigger] r@[j].0 <= score_bound(),
{
    let mut r: Vec<Entry> = Vec::new();
    let mut i: usize = 0;
    let mut j: usize = 0;
    while i < a.len() || j < b.len()
        invariant
            sorted_by_score(a@),
            sorted_by_score(b@),
            i <= a@.len(),
            j <= b@.len(),
            r@.len() == i + j,
            sorted_by_score(r@),
            r@.len() > 0 && i < a@.len() ==> r@.last().0 <= a@[i as int].0,
            r@.len() > 0 && j < b@.len() ==> r@.last().0 <= b@[j as int].0,
            forall|p: spec_fn(Entry) -> bool| #[trigger] psum(r@, p) == psum(a@.take(i as int), p) + psum(b@.take(j as int), p),
            forall|j: int| 0 <= j < a@.len() ==> -score_bound() <= #[trigger] a@[j].0 <= score_bound(),
            forall|j: int| 0 <= j < b@.len() ==> -score_bound() <= #[trigger] b@[j].0 <= score_bound(),
            forall|k: int| 0 <= k < r@.len() ==> -score_bound() <= #[trigger] r@[k].0 <= score_bound(),
        decreases a@.len() + b@.len() - i - j,
    {
        let ghost before = r@;
        let take_a = j >= b.len() || (i < a.len() && a[i].0 <= b[j].0);
        let e = if take_a {
            a[i]
        } else {
            b[j]
        };
        r.push(e);
        proof {
            assert(r@.drop_last() =~= before);
            assert(r@.last() == e);
            if take_a {
                assert(a@.take(i + 1).drop_last() =~= a@.take(i as int));
                assert(a@.take(i + 1).last() == e);
                assert forall|p: spec_fn(Entry) -> bool| #[trigger] psum(r@, p) == psum(a@.take(i + 1), p) + psum(b@.take(j as int), p) by {
                    assert(psum(before, p) == psum(a@.take(i as int), p) + psum(b@.take(j as int), p));
                }
            } else {
                assert(b@.take(j + 1).drop_last() =~= b@.take(j as int));
                assert(b@.take(j + 1).last() == e);
                assert forall|p: spec_fn(Entry) -> bool| #[trigger] psum(r@, p) == psum(a@.take(i as int), p) + psum(b@.take(j + 1), p) by {
                    assert(psum(before, p) == psum(a@.take(i as int), p) + psum(b@.take(j as int), p));
                }
            }
            assert forall|x: int, y: int| 0 <= x < y < r@.len() implies r@[x].0 <= r@[y].0 by {
                if y < before.len() {
                    assert(r@[x] == before[x] && r@[y] == before[y]);
                } else if x < before.len() {
                    assert(r@[x] == before[x]);
                    assert(before[x].0 <= before.last().0);
                }
            }
            assert forall|k: int| 0 <= k < r@.len() implies -score_bound() <= #[trigger] r@[k].0 <= score_bound() by {
                if k < before.len() {
                    assert(r@[k] == before[k]);
                } else if take_a {
                    assert(r@[k] == a@[i as int]);
                } else {
                    assert(r@[k] == b@[j as int]);
                }
            }
        }
        if take_a {
            i = i + 1;
        } else {
            j = j + 1;
        }
    }
    assert(a@.take(i as int) =~= a@);
    assert(b@.take(j as int) =~= b@);
    r
}

/// The entries in non-decreasing order of score, equal ones in their original
/// order (a merge sort); every weighted sum over them is kept.
fn sort_by_score(entries: &Vec<Entry>) -> (sorted: Vec<Entry>)
    requires
        forall|j: int| 0 <= j < entries@.len() ==> -score_bound() <= #[trigger] entries@[j].0 <= score_bound(),
    ensures
        sorted_by_score(sorted@),
        sorted@.len() == entries@.len(),
        forall|p: spec_fn(Entry) -> bool| #[trigger] psum(sorted@, p) == psum(entries@, p),
        forall|j: int| 0 <= j < sorted@.len() ==> -score_bound() <= #[trigger] sorted@[j].0 <= score_bound(),
    decreases entries@.len(),
{
    let n = entries.len();
    if n <= 1 {
        let r = copy_range(entries, 0, n);
        assert(r@ =~= entries@);
        return r;
    }
    let mid = n / 2;
    let left = copy_range(entries, 0, mid);
    let right = copy_range(entries, mid, n);
    assert forall|j: int| 0 <= j < left@.len() implies -score_bound() <= #[trigger] left@[j].0 <= score_bound() by {
        assert(left@[j] == entries@[j]);
    }
    assert forall|j: int| 0 <= j < right@.len() implies -score_bound() <= #[trigger] right@[j].0 <= score_bound() by {
        assert(right@[j] == entries@[mid + j]);
    }
    let sl = sort_by_score(&left);
    let sr = sort_by_score(&right);
    let r = merge(&sl, &sr);
    proof {
        assert(left@ =~= entries@.take(mid as int));
        assert(right@ =~= entries@.skip(mid as int));
        assert forall|p: spec_fn(Entry) -> bool| #[trigger] psum(r@, p) == psum(entries@, p) by {
            lemma_psum_split(entries@, mid as int, p);
            assert(psum(sl@, p) == psum(left@, p));
            assert(psum(sr@, p) == psum(right@, p));
        }
    }
    r
}

/// The weight of each class among the entries.
fn class_totals(entries: &Vec<Entry>) -> (r: (u64, u64))
    requires
        psum(entries@, any_entry()) <= u64::MAX,
    ensures
        r.0 == psum(entries@, of_class(Classification::Face)),
        r.1 == psum(entries@, of_class(Classification::NonFace)),
{
    let ghost s = entries@;
    let mut t_pos: u64 = 0;
    let mut t_neg: u64 = 0;
    let mut i: usize = 0;
    while i < entries.len()
        invariant
            s == entries@,
            psum(s, any_entry()) <= u64::MAX,
            i <= s.len(),
            t_pos == psum(s.take(i as int), of_class(Classification::Face)),
            t_neg == psum(s.take(i as int), of_class(Classification::NonFace)),
        decreases entries.len() - i,
    {
        proof {
            let t = s.take(i + 1);
            assert(t.drop_last() =~= s.take(i as int));
            assert(t.last() == s[i as int]);
            lemma_class_split(t);
            lemma_psum_prefix(s, i + 1, any_entry());
        }
        match entries[i].2 {
            Classification::Face => {
                t_pos = t_pos + entries[i].1;
            },
            Classification::NonFace => {
                t_neg = t_neg + entries[i].1;
            },
        }
        i = i + 1;
    }
    assert(s.take(i as int) =~= s);
    (t_pos, t_neg)
}

/// At one split, the lesser of the two errors and the polarity that gives it
/// ("face at or above" unless "face below" is no worse).
fn split_choice(s_pos: u64, s_neg: u64, t_pos: u64, t_neg: u64) -> (r: (u64, Sign))
    requires
        s_pos <= t_pos,
        s_neg <= t_neg,
        t_pos + t_neg <= u64::MAX,
    ensures
        r.0 == if r.1 == Sign::Positive {
            s_pos + t_neg - s_neg
        } else {
            s_neg + t_pos - s_pos
        },
        r.0 <= s_pos + t_neg - s_neg,
        r.0 <= s_neg + t_pos - s_pos,
{
    let a = s_pos + t_neg - s_neg;
    let b = s_neg + t_pos - s_pos;
    if a < b {
        (a, Sign::Positive)
    } else {
        (b, Sign::Negative)
    }
}

impl WeakClassifier {
    /// The stump on `feature` of least weighted error: the samples are sorted
    /// by score and every split between two distinct scores (and at either end)
    /// is tried with both polarities; the first best split is kept.
    fn get_optimal(
        feature: &HaarFeature,
        training_samples: &Vec<(Matrix, Classification)>,
        distribution_t: &Vec<u64>,
    ) -> (r: (WeakClassifier, u64))
        requires
            samples_fit(*feature, samples_view(training_samples)),
            distribution_ok(samples_view(training_samples), distribution_t@),
        ensures
            r.0.feature == *feature,
            r.0.wf(),
            r.1 == weighted_error(r.0, samples_view(training_samples), distribution_t@),
            forall|p: Sign, t: i64|
                r.1 <= #[trigger] weighted_error(
                    stump(*feature, p, t),
                    samples_view(training_samples),
                    distribution_t@,
                ),
    {
        let ghost sv = samples_view(training_samples);
        let entries = score_samples(feature, training_samples, distribution_t);
        let (t_pos, t_neg) = class_totals(&entries);
        let sorted = sort_by_score(&entries);
        let n = sorted.len();
        let ghost s = sorted@;
        let ghost face = of_class(Classification::Face);
        let ghost nonface = of_class(Classification::NonFace);
        proof {
            assert(psum(s, face) == psum(entries@, face));
            assert(psum(s, nonface) == psum(entries@, nonface));
            lemma_class_split(entries@);
            assert(s.take(0) =~= Seq::<Entry>::empty());
        }
        let mut s_pos: u64 = 0;
        let mut s_neg: u64 = 0;
        let t0: i64 = if n > 0 {
            sorted[0].0
        } else {
            0
        };
        proof {
            lemma_split_errors(s, 0, t0 as int);
        }
        let (e0, tog0) = split_choice(0, 0, t_pos, t_neg);
        let mut best_err = e0;
        let mut best_toggle = tog0;
        let mut best_threshold: i64 = match tog0 {
            Sign::Positive => t0,
            Sign::Negative => t0 - 1,
        };
        let mut k: usize = 0;
        while k < n
            invariant
                s == sorted@,
                n == s.len(),
                sorted_by_score(s),
                forall|j: int| 0 <= j < s.len() ==> -score_bound() <= #[trigger] s[j].0 <= score_bound(),
                t_pos == psum(s, face),
                t_neg == psum(s, nonface),
                face == of_class(Classification::Face),
                nonface == of_class(Classification::NonFace),
                t_pos + t_neg <= u64::MAX,
                k <= n,
                s_pos == psum(s.take(k as int), face),
                s_neg == psum(s.take(k as int), nonface),
                best_err == psum(s, misclassified(best_toggle, best_threshold as int)),
                -score_bound() - 1 <= best_threshold <= score_bound() + 1,
                forall|j: int|
                    0 <= j <= k && sweep_position(s, j) ==> best_err <= split_error_pos(s, j)
                        && best_err <= split_error_neg(s, j),
            decreases n - k,
        {
            let e = sorted[k];
            proof {
                let t = s.take(k + 1);
                assert(t.drop_last() =~= s.take(k as int));
                assert(t.last() == e);
                lemma_psum_prefix(s, k + 1, face);
                lemma_psum_prefix(s, k + 1, nonface);
            }
            match e.2 {
                Classification::Face => {
                    s_pos = s_pos + e.1;
                },
                Classification::NonFace => {
                    s_neg = s_neg + e.1;
                },
            }
            if k + 1 == n || sorted[k].0 < sorted[k + 1].0 {
                let t: i64 = if k + 1 == n {
                    e.0 + 1
                } else {
                    sorted[k + 1].0
                };
                proof {
                    lemma_split_errors(s, k + 1, t as int);
                }
                let (err, tog) = split_choice(s_pos, s_neg, t_pos, t_neg);
                if err < best_err {
                    best_err = err;
                    best_toggle = tog;
                    best_threshold = match tog {
                        Sign::Positive => t,
                        Sign::Negative => t - 1,
                    };
                }
            }
            k = k + 1;
        }
        proof {
            assert forall|p: Sign, t: i64|
                best_err <= #[trigger] weighted_error(stump(*feature, p, t), sv, distribution_t@) by {
                let mis = misclassified(p, t as int);
                assert(psum(s, mis) == psum(entries@, mis));
                match p {
                    Sign::Positive => {
                        let j = count_below(s, t as int);
                        lemma_count_splits(s, t as int);
                        lemma_split_errors(s, j, t as int);
                        assert(sweep_position(s, j));
                    },
                    Sign::Negative => {
                        let j = count_below(s, t + 1);
                        lemma_count_splits(s, t + 1);
                        lemma_split_errors(s, j, t + 1);
                        assert(sweep_position(s, j));
                        assert((t + 1) - 1 == t as int);
                    },
                }
            }
        }
        (WeakClassifier::new(feature, best_threshold, best_toggle), best_err)
    }

    /// The optimal stump of each feature, with its weighted error, in catalog
    /// order.
    fn get_optimals(
        features: &Vec<HaarFeature>,
        training_samples: &Vec<(Matrix, Classification)>,
        distribution_t: &Vec<u64>,
    ) -> (r: Vec<(WeakClassifier, u64)>)
        requires
            features_fit(features@, samples_view(training_samples)),
            distribution_ok(samples_view(training_samples), distribution_t@),
        ensures
            r@.len() == features@.len(),
            forall|i: int|
                0 <= i < r@.len() ==> (#[trigger] r@[i]).0.feature == features@[i] && r@[i].0.wf()
                    && r@[i].1 == weighted_error(
                    r@[i].0,
                    samples_view(training_samples),
                    distribution_t@,
                ),
            forall|i: int, p: Sign, t: i64|
                0 <= i < r@.len() ==> r@[i].1 <= #[trigger] weighted_error(
                    stump(features@[i], p, t),
                    samples_view(training_samples),
                    distribution_t@,
                ),
    {
        let ghost sv = samples_view(training_samples);
        let mut classifiers: Vec<(WeakClassifier, u64)> = Vec::with_capacity(features.len());
        let mut i: usize = 0;
        while i < features.len()
            invariant
                sv == samples_view(training_samples),
                features_fit(features@, sv),
                distribution_ok(sv, distribution_t@),
                i <= features@.len(),
                classifiers@.len() == i,
                forall|j: int|
                    0 <= j < i ==> (#[trigger] classifiers@[j]).0.feature == features@[j]
                        && classifiers@[j].0.wf() && classifiers@[j].1 == weighted_error(
                        classifiers@[j].0,
                        sv,
                        distribution_t@,
                    ),
                forall|j: int, p: Sign, t: i64|
                    0 <= j < i ==> classifiers@[j].1 <= #[trigger] weighted_error(
                        stump(features@[j], p, t),
                        sv,
                        distribution_t@,
                    ),
            decreases features.len() - i,
        {
            assert(samples_fit(features@[i as int], sv));
            let c = Self::get_optimal(&features[i], training_samples, distribution_t);
            classifiers.push(c);
            i = i + 1;
        }
        classifiers
    }

    /// Returns the best decision stump over every feature: its weighted error
    /// is the least of any stump on any feature, and on a tie the feature that
    /// comes first in the catalog wins.
    pub fn best_stump(
        features: &Vec<HaarFeature>,
        training_samples: &Vec<(Matrix, Classification)>,
        distribution_t: &Vec<u64>,
    ) -> (r: (WeakClassifier, u64))
        requires
            features@.len() > 0,
            training_samples@.len() > 0,
            features_fit(features@, samples_view(training_samples)),
            distribution_ok(samples_view(training_samples), distribution_t@),
        ensures
            r.0.wf(),
            is_best_stump(r, features@, samples_view(training_samples), distribution_t@),
    {
        let ghost sv = samples_view(training_samples);
        let weak_classifiers = Self::get_optimals(features, training_samples, distribution_t);
        let mut best: usize = 0;
        let mut i: usize = 1;
        while i < weak_classifiers.len()
            invariant
                weak_classifiers@.len() == features@.len(),
                1 <= i <= weak_classifiers@.len(),
                best < i,
                forall|j: int| 0 <= j < i ==> weak_classifiers@[best as int].1 <= (
                #[trigger] weak_classifiers@[j]).1,
                forall|j: int| 0 <= j < best ==> weak_classifiers@[best as int].1 < (
                #[trigger] weak_classifiers@[j]).1,
            decreases weak_classifiers.len() - i,
        {
            if weak_classifiers[i].1 < weak_classifiers[best].1 {
                best = i;
            }
            i = i + 1;
        }
        let r = weak_classifiers[best];
        proof {
            assert(r.0.feature == features@[best as int]);
            assert forall|j: int, p: Sign, t: i64| 0 <= j < best implies r.1 < #[trigger] weighted_error(
                stump(features@[j], p, t),
                sv,
                distribution_t@,
            ) by {
                assert(weak_classifiers@[j].1 <= weighted_error(stump(features@[j], p, t), sv, distribution_t@));
            }
            assert forall|j: int, p: Sign, t: i64| 0 <= j < features@.len() implies r.1 <= #[trigger] weighted_error(
                stump(features@[j], p, t),
                sv,
                distribution_t@,
            ) by {
                assert(weak_classifiers@[j].1 <= weighted_error(stump(features@[j], p, t), sv, distribution_t@));
            }
        }
        r
    }

    /// Evaluate the weak classifier on an integral image.
    pub fn evaluate(&self, img: &Matrix) -> (r: Classification)
        requires
            self.wf(),
            integral_ok(grid_view(img)),
            fits_integral(self.feature, grid_view(img)),
        ensures
            r == stump_predicts(*self, grid_view(img)),
            r == Classification::Face <==> stump_raw(*self, grid_view(img)) >= 0,
    {
        if self.evaluate_raw(img) >= 0 {
            Classification::Face
        } else {
            Classification::NonFace
        }
    }

    /// The signed distance of the feature's score from the threshold, positive
    /// on the face side.
    pub fn evaluate_raw(&self, img: &Matrix) -> (r: i64)
        requires
            self.wf(),
            integral_ok(grid_view(img)),
            fits_integral(self.feature, grid_view(img)),
        ensures
            r == stump_raw(*self, grid_view(img)),
            -RAW_BOUND <= r <= RAW_BOUND,
    {
        let score = self.feature.evaluate(img);
        match self.toggle {
            Sign::Positive => score - self.threshold,
            Sign::Negative => self.threshold - score,
        }
    }

    /// The weighted error of the weak classifier: the total weight of the
    /// samples it misclassifies.
    pub fn compute_error(
        &self,
        input_samples: &Vec<(Matrix, Classification)>,
        weights: &Vec<u64>,
    ) -> (r: u64)
        requires
            self.wf(),
            samples_fit(self.feature, samples_view(input_samples)),
            distribution_ok(samples_view(input_samples), weights@),
        ensures
            r == weighted_error(*self, samples_view(input_samples), weights@),
    {
        let ghost sv = samples_view(input_samples);
        let ghost es = score_entries(self.feature, sv, weights@);
        let ghost mis = misclassified(self.toggle, self.threshold as int);
        proof {
            lemma_entries_total(self.feature, sv, weights@);
        }
        let mut weighted_error: u64 = 0;
        let mut i: usize = 0;
        while i < input_samples.len()
            invariant
                sv == samples_view(input_samples),
                es == score_entries(self.feature, sv, weights@),
                mis == misclassified(self.toggle, self.threshold as int),
                self.wf(),
                samples_fit(self.feature, sv),
                distribution_ok(sv, weights@),
                psum(es, any_entry()) == weight_total(weights@),
                i <= sv.len(),
                weighted_error == psum(es.take(i as int), mis),
            decreases input_samples.len() - i,
        {
            assert(sv[i as int] == (grid_view(&input_samples@[i as int].0), input_samples@[i as int].1));
            assert(integral_ok(sv[i as int].0) && fits_integral(self.feature, sv[i as int].0));
            let classification = self.evaluate(&input_samples[i].0);
            proof {
                let t = es.take(i + 1);
                assert(t.drop_last() =~= es.take(i as int));
                assert(t.last() == es[i as int]);
                lemma_psum_mono(t, mis, any_entry());
                lemma_psum_prefix(es, i + 1, any_entry());
                lemma_score_in_bounds(self.feature, sv[i as int].0);
            }
            if classification != input_samples[i].1 {
                weighted_error = weighted_error + weights[i];
            }
            i = i + 1;
        }
        assert(es.take(i as int) =~= es);
        weighted_error
    }
}

/// Largest magnitude of a stump's raw output.
pub const RAW_BOUND: i64 = 0x4000_1000_0000_0000;

proof fn lemma_score_in_bounds(f: HaarFeature, m: Seq<Seq<i64>>)
    requires
        integral_ok(m),
        fits_integral(f, m),
    ensures
        -score_bound() <= feature_value(f, m) <= score_bound(),
{
    crate::features::lemma_feature_value_bound(f, m);
}

/// A stump's weighted error is at most the distribution's total.
pub proof fn lemma_error_le_total(c: WeakClassifier, s: Seq<SampleView>, ws: Seq<u64>)
    requires
        ws.len() == s.len(),
    ensures
        0 <= weighted_error(c, s, ws) <= weight_total(ws),
{
    let es = score_entries(c.feature, s, ws);
    lemma_entries_total(c.feature, s, ws);
    lemma_psum_mono(es, misclassified(c.toggle, c.threshold as int), any_entry());
    crate::weights::lemma_psum_nonneg(es, misclassified(c.toggle, c.threshold as int));
}

/// `r` is a stump of least weighted error over every feature, polarity and
/// threshold, on the first feature in catalog order that reaches that error,
/// together with its error.
pub open spec fn is_best_stump(
    r: (WeakClassifier, u64),
    fs: Seq<HaarFeature>,
    s: Seq<SampleView>,
    ws: Seq<u64>,
) -> bool {
    &&& r.1 == weighted_error(r.0, s, ws)
    &&& exists|i: int|
        0 <= i < fs.len() && r.0.feature == fs[i] && forall|j: int, p: Sign, t: i64|
            0 <= j < i ==> r.1 < #[trigger] weighted_error(stump(fs[j], p, t), s, ws)
    &&& forall|i: int, p: Sign, t: i64|
        0 <= i < fs.len() ==> r.1 <= #[trigger] weighted_error(stump(fs[i], p, t), s, ws)
}

/// When exactly one feature of the catalog has a stump that makes no weighted
/// error, the best stump has error zero and lies on that feature.
pub proof fn lemma_perfect_feature_selected(
    r: (WeakClassifier, u64),
    fs: Seq<HaarFeature>,
    s: Seq<SampleView>,
    ws: Seq<u64>,
    i: int,
    p: Sign,
    t: i64,
)
    requires
        ws.len() == s.len(),
        is_best_stump(r, fs, s, ws),
        0 <= i < fs.len(),
        weighted_error(stump(fs[i], p, t), s, ws) == 0,
        forall|j: int, q: Sign, u: i64|
            0 <= j < fs.len() && j != i ==> #[trigger] weighted_error(stump(fs[j], q, u), s, ws) > 0,
    ensures
        r.1 == 0,
        r.0.feature == fs[i],
{
    assert(r.1 <= weighted_error(stump(fs[i], p, t), s, ws));
    let k = choose|k: int|
        0 <= k < fs.len() && r.0.feature == fs[k] && forall|j: int, q: Sign, u: i64|
            0 <= j < k ==> r.1 < #[trigger] weighted_error(stump(fs[j], q, u), s, ws);
    assert(r.0 == stump(fs[k], r.0.toggle, r.0.threshold));
    if k != i {
        assert(weighted_error(stump(fs[k], r.0.toggle, r.0.threshold), s, ws) > 0);
    }
}

/// The weights of the scored entries add up to the distribution's total.
pub proof fn lemma_entries_total(f: HaarFeature, s: Seq<SampleView>, ws: Seq<u64>)
    requires
        ws.len() == s.len(),
    ensures
        psum(score_entries(f, s, ws), any_entry()) == weight_total(ws),
    decreases s.len(),
{
    if s.len() > 0 {
        let d = score_entries(f, s, ws);
        assert(d.drop_last() =~= score_entries(f, s.drop_last(), ws.drop_last()));
        lemma_entries_total(f, s.drop_last(), ws.drop_last());
    }
}

} // verus!
