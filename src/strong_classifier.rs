//! A weighted ensemble of decision stumps with a calibrated decision threshold:
//! one stage of the cascade.
use vstd::prelude::*;
use crate::features::fits_integral;
use crate::order::{at_most, count_of, is_order_stat, lemma_sorted_order_stat, less_than, sort_ascending};
use crate::util::{grid_view, integral_ok};
use crate::weak_classifier::{samples_fit, samples_view, stump_raw, SampleView, WeakClassifier, RAW_BOUND};
use crate::{Classification, Matrix};

verus! {

/// Largest magnitude of a stump's weight in the ensemble. Weights are fixed
/// point numbers: the caller picks the scale.
pub const ALPHA_BOUND: i64 = 0x1_0000_0000;

/// Largest number of stumps in one ensemble.
pub const MAX_CLASSIFIERS: usize = 0x10_0000;

/// Bound on the magnitude of one weighted stump output.
pub const TERM_BOUND: i128 = 0x8000_0000_0000_0000_0000_0000;

/// The share of face samples, in percent, that the decision threshold may
/// place below itself, unless the caller picks another.
pub const DEFAULT_FACE_PERCENTILE: u64 = 5;

/// An ordered ensemble of (stump, weight) pairs and a decision threshold.
#[derive(Debug)]
pub struct StrongClassifier {
    pub classifiers: Vec<WeakClassifier>,
    pub weights: Vec<i64>,
    pub threshold: i128,
    pub face_percentile: u64,
}

/// The weighted sum of the first `n` stumps' raw outputs.
pub open spec fn ensemble_score(
    cs: Seq<WeakClassifier>,
    ws: Seq<i64>,
    n: int,
    m: Seq<Seq<i64>>,
) -> int
    decreases n,
{
    if n <= 0 {
        0
    } else {
        ensemble_score(cs, ws, n - 1, m) + ws[n - 1] * stump_raw(cs[n - 1], m)
    }
}

/// The ensemble's score of an integral image.
pub open spec fn strong_score(sc: StrongClassifier, m: Seq<Seq<i64>>) -> int {
    ensemble_score(sc.classifiers@, sc.weights@, sc.classifiers@.len() as int, m)
}

/// The class the ensemble gives an integral image.
pub open spec fn strong_predicts(sc: StrongClassifier, m: Seq<Seq<i64>>) -> Classification {
    if strong_score(sc, m) >= sc.threshold {
        Classification::Face
    } else {
        Classification::NonFace
    }
}

/// Every stump of the ensemble can be evaluated on the integral image.
pub open spec fn stage_fits(sc: StrongClassifier, m: Seq<Seq<i64>>) -> bool {
    &&& integral_ok(m)
    &&& forall|i: int|
        0 <= i < sc.classifiers@.len() ==> fits_integral(#[trigger] sc.classifiers@[i].feature, m)
}

/// Every stump of the ensemble can be evaluated on every sample.
pub open spec fn stage_fits_all(sc: StrongClassifier, s: Seq<SampleView>) -> bool {
    forall|i: int| 0 <= i < s.len() ==> stage_fits(sc, #[trigger] s[i].0)
}

/// The ensemble's scores of the face samples, in sample order.
pub open spec fn face_scores(sc: StrongClassifier, s: Seq<SampleView>) -> Seq<i128>
    decreases s.len(),
{
    if s.len() == 0 {
        Seq::empty()
    } else if s.last().1 == Classification::Face {
        face_scores(sc, s.drop_last()).push(strong_score(sc, s.last().0) as i128)
    } else {
        face_scores(sc, s.drop_last())
    }
}

/// The position in the sorted face scores that the threshold is read from:
/// `face_percentile` percent of `n`, rounded down and kept inside `0..n`.
pub open spec fn percentile_index(n: int, pct: int) -> int {
    let k = n * pct / 100;
    if k < n {
        k
    } else {
        n - 1
    }
}

/// The threshold of `sc` is calibrated on the samples after a stump was
/// added to a stage whose threshold was `prev`: the face score at
/// `face_percentile` percent when there is a face sample, `prev` otherwise.
#[verifier::opaque]
pub open spec fn calibrated(sc: StrongClassifier, prev: i128, s: Seq<SampleView>) -> bool {
    let fs = face_scores(sc, s);
    if fs.len() == 0 {
        sc.threshold == prev
    } else {
        is_order_stat(fs, percentile_index(fs.len() as int, sc.face_percentile as int), sc.threshold)
    }
}

/// Some sample is a face.
pub open spec fn has_face(s: Seq<SampleView>) -> bool {
    exists|i: int| 0 <= i < s.len() && (#[trigger] s[i]).1 == Classification::Face
}

/// Why a stage's threshold could not be calibrated.
#[derive(Copy, Clone, Debug, PartialEq, Eq, Structural)]
pub enum CalibrationError {
    /// No training sample is a face, so there is no face score to read the
    /// threshold from; the threshold was left as it was.
    NoFaceSamples,
}

/// A sample list with a face has a face score.
pub proof fn lemma_face_scores_nonempty(sc: StrongClassifier, s: Seq<SampleView>)
    ensures
        face_scores(sc, s).len() > 0 <==> has_face(s),
    decreases s.len(),
{
    if s.len() > 0 {
        let d = s.drop_last();
        lemma_face_scores_nonempty(sc, d);
        if has_face(d) {
            let i = choose|i: int| 0 <= i < d.len() && (#[trigger] d[i]).1 == Classification::Face;
            assert(s[i] == d[i]);
        }
        if has_face(s) && !has_face(d) {
            let i = choose|i: int| 0 <= i < s.len() && (#[trigger] s[i]).1 == Classification::Face;
            if i < d.len() {
                assert(d[i] == s[i]);
            }
        }
        if s.last().1 == Classification::Face {
            assert(s[s.len() - 1].1 == Classification::Face);
        }
    }
}

/// How many samples satisfy `p`.
pub open spec fn count_samples(s: Seq<SampleView>, p: spec_fn(SampleView) -> bool) -> int
    decreases s.len(),
{
    if s.len() == 0 {
        0
    } else {
        count_samples(s.drop_last(), p) + if p(s.last()) {
            1int
        } else {
            0
        }
    }
}

/// Samples of class `c` that the ensemble classifies as `d`.
pub open spec fn labelled_as(sc: StrongClassifier, c: Classification, d: Classification) -> spec_fn(
    SampleView,
) -> bool {
    |x: SampleView| x.1 == c && strong_predicts(sc, x.0) == d
}

/// Samples of class `c`.
pub open spec fn sample_of_class(c: Classification) -> spec_fn(SampleView) -> bool {
    |x: SampleView| x.1 == c
}

/// The tallies behind an ensemble's error rates: false positives among the
/// negatives, false negatives among the positives. The false-positive rate is
/// `false_positives / negatives`, the false-negative rate
/// `false_negatives / positives`, and the overall error
/// `(false_positives + false_negatives) / (negatives + positives)`.
#[derive(Copy, Clone, Debug, PartialEq, Eq, Structural)]
pub struct ErrorCounts {
    pub false_positives: usize,
    pub negatives: usize,
    pub false_negatives: usize,
    pub positives: usize,
}

/// The tallies of an ensemble over a sample list.
pub open spec fn error_counts(sc: StrongClassifier, s: Seq<SampleView>) -> ErrorCounts {
    ErrorCounts {
        false_positives: count_samples(
            s,
            labelled_as(sc, Classification::NonFace, Classification::Face),
        ) as usize,
        negatives: count_samples(s, sample_of_class(Classification::NonFace)) as usize,
        false_negatives: count_samples(
            s,
            labelled_as(sc, Classification::Face, Classification::NonFace),
        ) as usize,
        positives: count_samples(s, sample_of_class(Classification::Face)) as usize,
    }
}

proof fn lemma_term_bound(a: i64, b: int)
    requires
        -ALPHA_BOUND <= a <= ALPHA_BOUND,
        -RAW_BOUND <= b <= RAW_BOUND,
    ensures
        -TERM_BOUND <= a * b <= TERM_BOUND,
{
    assert(-(ALPHA_BOUND * RAW_BOUND) <= a * b <= ALPHA_BOUND * RAW_BOUND) by (nonlinear_arith)
        requires
            -ALPHA_BOUND <= a <= ALPHA_BOUND,
            -RAW_BOUND <= b <= RAW_BOUND,
    ;
}

/// The face scores depend on the stumps and weights alone, not on the
/// threshold.
proof fn lemma_face_scores_same_ensemble(a: StrongClassifier, b: StrongClassifier, s: Seq<SampleView>)
    requires
        a.classifiers == b.classifiers,
        a.weights == b.weights,
    ensures
        face_scores(a, s) == face_scores(b, s),
    decreases s.len(),
{
    if s.len() > 0 {
        lemma_face_scores_same_ensemble(a, b, s.drop_last());
    }
}

proof fn lemma_count_samples_le(s: Seq<SampleView>, p: spec_fn(SampleView) -> bool)
    ensures
        0 <= count_samples(s, p) <= s.len(),
    decreases s.len(),
{
    if s.len() > 0 {
        lemma_count_samples_le(s.drop_last(), p);
    }
}

impl StrongClassifier {
    /// Lengths agree and stay bounded, weights and thresholds are in range.
    pub open spec fn wf(&self) -> bool {
        &&& self.classifiers@.len() == self.weights@.len()
        &&& self.classifiers@.len() <= MAX_CLASSIFIERS
        &&& self.face_percentile <= 100
        &&& forall|i: int| 0 <= i < self.weights@.len() ==> -ALPHA_BOUND <= #[trigger] self.weights@[i] <= ALPHA_BOUND
        &&& forall|i: int| 0 <= i < self.classifiers@.len() ==> (#[trigger] self.classifiers@[i]).wf()
    }

    /// An empty ensemble, threshold zero, calibrated at the default percentile.
    pub fn new() -> (r: StrongClassifier)
        ensures
            r.wf(),
            r.classifiers@.len() == 0,
            r.weights@.len() == 0,
            r.threshold == 0,
            r.face_percentile == DEFAULT_FACE_PERCENTILE,
    {
        StrongClassifier {
            classifiers: Vec::new(),
            weights: Vec::new(),
            threshold: 0,
            face_percentile: DEFAULT_FACE_PERCENTILE,
        }
    }

    /// An empty ensemble whose threshold is calibrated at `face_percentile`.
    pub fn with_percentile(face_percentile: u64) -> (r: StrongClassifier)
        requires
            face_percentile <= 100,
        ensures
            r.wf(),
            r.classifiers@.len() == 0,
            r.weights@.len() == 0,
            r.threshold == 0,
            r.face_percentile == face_percentile,
    {
        StrongClassifier { classifiers: Vec::new(), weights: Vec::new(), threshold: 0, face_percentile }
    }

    /// Makes a weighted classification prediction using the ensemble.
    pub fn evaluate(&self, img: &Matrix) -> (r: Classification)
        requires
            self.wf(),
            stage_fits(*self, grid_view(img)),
        ensures
            r == strong_predicts(*self, grid_view(img)),
    {
        if self.evaluate_raw(img) >= self.threshold {
            Classification::Face
        } else {
            Classification::NonFace
        }
    }

    /// The weighted sum of the stumps' raw outputs.
    pub fn evaluate_raw(&self, img: &Matrix) -> (r: i128)
        requires
            self.wf(),
            stage_fits(*self, grid_view(img)),
        ensures
            r == strong_score(*self, grid_view(img)),
    {
        let ghost m = grid_view(img);
        let mut weighted_score: i128 = 0;
        let mut i: usize = 0;
        while i < self.classifiers.len()
            invariant
                self.wf(),
                stage_fits(*self, m),
                m == grid_view(img),
                i <= self.classifiers@.len(),
                weighted_score == ensemble_score(self.classifiers@, self.weights@, i as int, m),
                -0x8000_0000_0000_0000_0000_0000 * i <= weighted_score <= 0x8000_0000_0000_0000_0000_0000 * i,
            decreases self.classifiers.len() - i,
        {
            assert(fits_integral(self.classifiers@[i as int].feature, m));
            assert(self.classifiers@[i as int].wf());
            let raw = self.classifiers[i].evaluate_raw(img);
            let w = self.weights[i];
            proof {
                lemma_term_bound(w, raw as int);
            }
            weighted_score = weighted_score + (w as i128) * (raw as i128);
            i = i + 1;
        }
        weighted_score
    }

    /// The ensemble's scores of the face samples, in sample order.
    fn collect_face_scores(&self, input_samples: &Vec<(Matrix, Classification)>) -> (r: Vec<i128>)
        requires
            self.wf(),
            stage_fits_all(*self, samples_view(input_samples)),
        ensures
            r@ == face_scores(*self, samples_view(input_samples)),
    {
        let ghost sv = samples_view(input_samples);
        let mut scores: Vec<i128> = Vec::new();
        let mut i: usize = 0;
        while i < input_samples.len()
            invariant
                sv == samples_view(input_samples),
                self.wf(),
                stage_fits_all(*self, sv),
                i <= sv.len(),
                scores@ == face_scores(*self, sv.take(i as int)),
            decreases input_samples.len() - i,
        {
            assert(sv[i as int] == (grid_view(&input_samples@[i as int].0), input_samples@[i as int].1));
            assert(stage_fits(*self, sv[i as int].0));
            let ghost t = sv.take(i + 1);
            assert(t.drop_last() =~= sv.take(i as int));
            assert(t.last() == sv[i as int]);
            if input_samples[i].1 == Classification::Face {
                let score = self.evaluate_raw(&input_samples[i].0);
                scores.push(score);
            }
            i = i + 1;
        }
        assert(sv.take(i as int) =~= sv);
        scores
    }

    /// Sets the decision threshold to the face score at `face_percentile`
    /// percent of the sorted face scores (kept unchanged when there are no face
    /// samples), and returns how many face scores there were.
    fn update_threshold(&mut self, input_samples: &Vec<(Matrix, Classification)>) -> (r: usize)
        requires
            old(self).wf(),
            stage_fits_all(*old(self), samples_view(input_samples)),
        ensures
            final(self).classifiers == old(self).classifiers,
            final(self).weights == old(self).weights,
            final(self).face_percentile == old(self).face_percentile,
            r == face_scores(*old(self), samples_view(input_samples)).len(),
            ({
                let fs = face_scores(*old(self), samples_view(input_samples));
                if fs.len() == 0 {
                    final(self).threshold == old(self).threshold
                } else {
                    is_order_stat(
                        fs,
                        percentile_index(fs.len() as int, old(self).face_percentile as int),
                        final(self).threshold,
                    )
                }
            }),
    {
        let face_scores = self.collect_face_scores(input_samples);
        let sorted = sort_ascending(&face_scores);
        let n = sorted.len();
        if n > 0 {
            assert((n as int) * (self.face_percentile as int) <= usize::MAX * 100) by (nonlinear_arith)
                requires
                    n <= usize::MAX,
                    self.face_percentile <= 100,
            ;
            let k128: u128 = (n as u128) * (self.face_percentile as u128) / 100;
            assert(k128 == n * self.face_percentile / 100);
            let ind: usize = if k128 < n as u128 {
                k128 as usize
            } else {
                n - 1
            };
            proof {
                lemma_sorted_order_stat(sorted@, ind as int);
                assert(count_of(sorted@, less_than(sorted@[ind as int])) == count_of(face_scores@, less_than(sorted@[ind as int])));
                assert(count_of(sorted@, at_most(sorted@[ind as int])) == count_of(face_scores@, at_most(sorted@[ind as int])));
            }
            self.threshold = sorted[ind];
        }
        n
    }

    /// Appends a stump with its weight to the ensemble, then recalibrates the
    /// decision threshold on the face samples. Without a face sample the
    /// threshold cannot be calibrated: the stump is still appended, the
    /// threshold is kept, and `NoFaceSamples` reports it.
    pub fn add_weak_classifier(
        &mut self,
        classifier: WeakClassifier,
        weight: i64,
        input_samples: &Vec<(Matrix, Classification)>,
    ) -> (r: Result<(), CalibrationError>)
        requires
            old(self).wf(),
            old(self).classifiers@.len() < MAX_CLASSIFIERS,
            classifier.wf(),
            -ALPHA_BOUND <= weight <= ALPHA_BOUND,
            stage_fits_all(*old(self), samples_view(input_samples)),
            samples_fit(classifier.feature, samples_view(input_samples)),
        ensures
            final(self).wf(),
            final(self).classifiers@ == old(self).classifiers@.push(classifier),
            final(self).weights@ == old(self).weights@.push(weight),
            final(self).face_percentile == old(self).face_percentile,
            stage_fits_all(*final(self), samples_view(input_samples)),
            calibrated(*final(self), old(self).threshold, samples_view(input_samples)),
            r is Err <==> !has_face(samples_view(input_samples)),
    {
        let ghost sv = samples_view(input_samples);
        self.classifiers.push(classifier);
        self.weights.push(weight);
        proof {
            assert forall|i: int| 0 <= i < sv.len() implies stage_fits(*self, #[trigger] sv[i].0) by {
                assert(stage_fits(*old(self), sv[i].0));
                assert(integral_ok(sv[i].0) && fits_integral(classifier.feature, sv[i].0));
                assert forall|j: int| 0 <= j < self.classifiers@.len() implies fits_integral(
                    #[trigger] self.classifiers@[j].feature,
                    sv[i].0,
                ) by {
                    if j < old(self).classifiers@.len() {
                        assert(self.classifiers@[j] == old(self).classifiers@[j]);
                    }
                }
            }
            assert forall|i: int| 0 <= i < self.weights@.len() implies -ALPHA_BOUND <= #[trigger] self.weights@[i] <= ALPHA_BOUND by {
                if i < old(self).weights@.len() {
                    assert(self.weights@[i] == old(self).weights@[i]);
                }
            }
            assert forall|i: int| 0 <= i < self.classifiers@.len() implies (#[trigger] self.classifiers@[i]).wf() by {
                if i < old(self).classifiers@.len() {
                    assert(self.classifiers@[i] == old(self).classifiers@[i]);
                }
            }
        }
        let ghost pushed = *self;
        let fs_len = self.update_threshold(input_samples);
        proof {
            lemma_face_scores_same_ensemble(pushed, *self, sv);
            lemma_face_scores_nonempty(*self, sv);
        }
        proof {
            reveal(calibrated);
        }
        if fs_len == 0 {
            Err(CalibrationError::NoFaceSamples)
        } else {
            Ok(())
        }
    }

    /// Tallies false positives, negatives, false negatives and positives of
    /// the ensemble over a sample list.
    pub fn compute_error(&self, input_samples: &Vec<(Matrix, Classification)>) -> (r: ErrorCounts)
        requires
            self.wf(),
            stage_fits_all(*self, samples_view(input_samples)),
        ensures
            r == error_counts(*self, samples_view(input_samples)),
    {
        let ghost sv = samples_view(input_samples);
        let ghost fp = labelled_as(*self, Classification::NonFace, Classification::Face);
        let ghost fnn = labelled_as(*self, Classification::Face, Classification::NonFace);
        let ghost neg = sample_of_class(Classification::NonFace);
        let ghost pos = sample_of_class(Classification::Face);
        let mut num_false_positives: usize = 0;
        let mut num_false_negatives: usize = 0;
        let mut num_negatives: usize = 0;
        let mut num_positives: usize = 0;
        let mut i: usize = 0;
        while i < input_samples.len()
            invariant
                sv == samples_view(input_samples),
                fp == labelled_as(*self, Classification::NonFace, Classification::Face),
                fnn == labelled_as(*self, Classification::Face, Classification::NonFace),
                neg == sample_of_class(Classification::NonFace),
                pos == sample_of_class(Classification::Face),
                self.wf(),
                stage_fits_all(*self, sv),
                i <= sv.len(),
                num_false_positives == count_samples(sv.take(i as int), fp),
                num_false_negatives == count_samples(sv.take(i as int), fnn),
                num_negatives == count_samples(sv.take(i as int), neg),
                num_positives == count_samples(sv.take(i as int), pos),
            decreases input_samples.len() - i,
        {
            assert(sv[i as int] == (grid_view(&input_samples@[i as int].0), input_samples@[i as int].1));
            assert(stage_fits(*self, sv[i as int].0));
            let ghost t = sv.take(i + 1);
            proof {
                assert(t.drop_last() =~= sv.take(i as int));
                assert(t.last() == sv[i as int]);
                lemma_count_samples_le(t.drop_last(), fp);
                lemma_count_samples_le(t.drop_last(), fnn);
                lemma_count_samples_le(t.drop_last(), neg);
                lemma_count_samples_le(t.drop_last(), pos);
            }
            let classification = self.evaluate(&input_samples[i].0);
            match input_samples[i].1 {
                Classification::NonFace => {
                    num_negatives = num_negatives + 1;
                    if classification == Classification::Face {
                        num_false_positives = num_false_positives + 1;
                    }
                },
                Classification::Face => {
                    num_positives = num_positives + 1;
                    if classification == Classification::NonFace {
                        num_false_negatives = num_false_negatives + 1;
                    }
                },
            }
            i = i + 1;
        }
        assert(sv.take(i as int) =~= sv);
        ErrorCounts {
            false_positives: num_false_positives,
            negatives: num_negatives,
            false_negatives: num_false_negatives,
            positives: num_positives,
        }
    }
}

} // verus!
