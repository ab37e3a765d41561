//! The cascade trainer: setup checks, one boosting stage per cascade level,
//! the filtering of surviving samples between levels, and the cascade's
//! verdict on an image.
use vstd::prelude::*;
use crate::boosting::{distribution_total, reweight, uniform, uniform_distribution, DIST_TOTAL};
use crate::features::{fits_window, HaarFeature, Sign};
use crate::strong_classifier::{
    stage_fits, stage_fits_all, strong_predicts, StrongClassifier, ALPHA_BOUND, MAX_CLASSIFIERS,
};
use crate::util::{grid_view, integral_ok, is_grid, INTEGRAL_BOUND};
use crate::strong_classifier::{calibrated, error_counts, has_face};
use crate::boosting::reweight_result;
use crate::weak_classifier::{
    features_fit, is_best_stump, lemma_error_le_total, samples_fit, samples_view, stump, weighted_error, SampleView,
    WeakClassifier,
};
use crate::weights::weight_total;
use crate::{Classification, Matrix};

verus! {

/// When a boosting stage stops adding stumps.
#[derive(Copy, Clone, Debug, PartialEq, Eq, Structural)]
pub enum StopPolicy {
    /// Stop once the stage's false-positive rate on its training set is at
    /// most `max_fp_num / max_fp_den` and at least `min_rounds` stumps were
    /// added; never add more than `max_rounds`.
    FalsePositiveBound { max_fp_num: u64, max_fp_den: u64, min_rounds: u64, max_rounds: u64 },
    /// Add exactly `rounds` stumps (fewer only when one is perfect).
    FixedRounds { rounds: u64 },
}

/// Why a learner could not be set up.
#[derive(Copy, Clone, Debug, PartialEq, Eq, Structural)]
pub enum SetupError {
    ZeroDepth,
    NoSamples,
    UnexpectedSampleCount,
    NoFeatures,
    MalformedImage,
    MismatchedDimensions,
    FeatureOutsideWindow,
    BadPolicy,
}

/// The most stumps a stage may hold under the policy.
pub open spec fn max_rounds_of(p: StopPolicy) -> u64 {
    match p {
        StopPolicy::FalsePositiveBound { max_rounds, .. } => max_rounds,
        StopPolicy::FixedRounds { rounds } => rounds,
    }
}

/// A policy the trainer can run: at least one round, at most
/// `MAX_CLASSIFIERS`, and a non-zero denominator.
pub open spec fn policy_ok(p: StopPolicy) -> bool {
    &&& 1 <= max_rounds_of(p) <= MAX_CLASSIFIERS
    &&& match p {
        StopPolicy::FalsePositiveBound { max_fp_den, .. } => max_fp_den > 0,
        StopPolicy::FixedRounds { .. } => true,
    }
}

/// Whether a stage with `rounds` stumps and `false_positives` out of
/// `negatives` may stop.
pub open spec fn stage_done(p: StopPolicy, rounds: int, false_positives: int, negatives: int) -> bool {
    match p {
        StopPolicy::FalsePositiveBound { max_fp_num, max_fp_den, min_rounds, max_rounds } => {
            rounds >= max_rounds || (rounds >= min_rounds && false_positives * max_fp_den
                <= max_fp_num * negatives)
        },
        StopPolicy::FixedRounds { rounds: r } => rounds >= r,
    }
}

/// Whether a stage with `rounds` stumps and the given tallies may stop.
pub fn stage_complete(policy: &StopPolicy, rounds: u64, false_positives: usize, negatives: usize) -> (r: bool)
    ensures
        r == stage_done(*policy, rounds as int, false_positives as int, negatives as int),
{
    match policy {
        StopPolicy::FalsePositiveBound { max_fp_num, max_fp_den, min_rounds, max_rounds } => {
            assert((false_positives as int) * (*max_fp_den as int) <= u64::MAX * u64::MAX) by (nonlinear_arith)
                requires
                    0 <= false_positives <= u64::MAX,
                    0 <= *max_fp_den <= u64::MAX,
            ;
            assert((*max_fp_num as int) * (negatives as int) <= u64::MAX * u64::MAX) by (nonlinear_arith)
                requires
                    0 <= negatives <= u64::MAX,
                    0 <= *max_fp_num <= u64::MAX,
            ;
            let lhs: u128 = (false_positives as u128) * (*max_fp_den as u128);
            let rhs: u128 = (*max_fp_num as u128) * (negatives as u128);
            rounds >= *max_rounds || (rounds >= *min_rounds && lhs <= rhs)
        },
        StopPolicy::FixedRounds { rounds: r } => rounds >= *r,
    }
}

/// Every sample is a well-formed integral image of `rows` by `cols` entries.
pub open spec fn samples_shaped(s: Seq<SampleView>, rows: int, cols: int) -> bool {
    forall|i: int|
        0 <= i < s.len() ==> integral_ok(#[trigger] s[i].0) && s[i].0.len() == rows && s[i].0[0].len()
            == cols
}

/// Every feature lies inside the window that `rows` by `cols` integral images pad.
pub open spec fn features_inside(fs: Seq<HaarFeature>, rows: int, cols: int) -> bool {
    forall|i: int| 0 <= i < fs.len() ==> fits_window(#[trigger] fs[i], cols - 1, rows - 1)
}

proof fn lemma_shaped_fit(fs: Seq<HaarFeature>, s: Seq<SampleView>, rows: int, cols: int)
    requires
        samples_shaped(s, rows, cols),
        features_inside(fs, rows, cols),
    ensures
        features_fit(fs, s),
{
    assert forall|i: int| 0 <= i < fs.len() implies samples_fit(#[trigger] fs[i], s) by {
        assert forall|j: int| 0 <= j < s.len() implies integral_ok(#[trigger] s[j].0)
            && crate::features::fits_integral(fs[i], s[j].0) by {
            assert(fits_window(fs[i], cols - 1, rows - 1));
        }
    }
}

/// The samples that a stage classifies as faces, in order.
pub open spec fn survivors(sc: StrongClassifier, s: Seq<SampleView>) -> Seq<SampleView>
    decreases s.len(),
{
    if s.len() == 0 {
        Seq::empty()
    } else if strong_predicts(sc, s.last().0) == Classification::Face {
        survivors(sc, s.drop_last()).push(s.last())
    } else {
        survivors(sc, s.drop_last())
    }
}

/// Every stage of the cascade can be evaluated on the integral image.
pub open spec fn cascade_fits(c: Seq<StrongClassifier>, m: Seq<Seq<i64>>) -> bool {
    forall|k: int| 0 <= k < c.len() ==> (#[trigger] c[k]).wf() && stage_fits(c[k], m)
}

/// The class the cascade gives an image: `Face` when every stage says `Face`.
pub open spec fn cascade_predicts(c: Seq<StrongClassifier>, m: Seq<Seq<i64>>) -> Classification {
    if forall|k: int| 0 <= k < c.len() ==> strong_predicts(#[trigger] c[k], m) == Classification::Face {
        Classification::Face
    } else {
        Classification::NonFace
    }
}

/// Every stump of the stage lies inside the window that `rows` by `cols`
/// integral images pad.
pub open spec fn stage_inside(sc: StrongClassifier, rows: int, cols: int) -> bool {
    forall|j: int|
        0 <= j < sc.classifiers@.len() ==> fits_window(#[trigger] sc.classifiers@[j].feature, cols - 1, rows - 1)
}

proof fn lemma_inside_fits(sc: StrongClassifier, m: Seq<Seq<i64>>, rows: int, cols: int)
    requires
        stage_inside(sc, rows, cols),
        integral_ok(m),
        m.len() == rows,
        m[0].len() == cols,
    ensures
        stage_fits(sc, m),
{
    assert forall|j: int| 0 <= j < sc.classifiers@.len() implies crate::features::fits_integral(
        #[trigger] sc.classifiers@[j].feature,
        m,
    ) by {
        assert(fits_window(sc.classifiers@[j].feature, cols - 1, rows - 1));
    }
}

/// Whether the entries of a matrix form a well-formed integral image.
pub fn check_integral(m: &Matrix) -> (r: bool)
    ensures
        r == integral_ok(grid_view(m)),
{
    let ghost g = grid_view(m);
    let (rows, cols) = m.shape();
    if rows == 0 || cols == 0 {
        return false;
    }
    let mut i: usize = 0;
    while i < rows
        invariant
            g == grid_view(m),
            is_grid(g, rows as int, cols as int),
            1 <= rows,
            1 <= cols,
            i <= rows,
            forall|r: int, c: int|
                0 <= r < i && 0 <= c < cols ==> -INTEGRAL_BOUND <= #[trigger] g[r][c] <= INTEGRAL_BOUND,
        decreases rows - i,
    {
        let mut j: usize = 0;
        while j < cols
            invariant
                g == grid_view(m),
                is_grid(g, rows as int, cols as int),
                i < rows,
                j <= cols,
                forall|r: int, c: int|
                    0 <= r < i && 0 <= c < cols ==> -INTEGRAL_BOUND <= #[trigger] g[r][c] <= INTEGRAL_BOUND,
                forall|c: int| 0 <= c < j ==> -INTEGRAL_BOUND <= #[trigger] g[i as int][c] <= INTEGRAL_BOUND,
            decreases cols - j,
        {
            let v = m.at(i, j);
            if v < -INTEGRAL_BOUND || v > INTEGRAL_BOUND {
                return false;
            }
            j = j + 1;
        }
        i = i + 1;
    }
    true
}

/// A copy of a list of samples.
fn copy_samples(s: &Vec<(Matrix, Classification)>) -> (r: Vec<(Matrix, Classification)>)
    ensures
        samples_view(&r) == samples_view(s),
{
    let mut r: Vec<(Matrix, Classification)> = Vec::with_capacity(s.len());
    let mut i: usize = 0;
    while i < s.len()
        invariant
            i <= s@.len(),
            r@.len() == i,
            forall|j: int| 0 <= j < i ==> grid_view(&(#[trigger] r@[j]).0) == grid_view(&s@[j].0) && r@[j].1 == s@[j].1,
        decreases s.len() - i,
    {
        let m = s[i].0.copy();
        r.push((m, s[i].1));
        i = i + 1;
    }
    assert(samples_view(&r) =~= samples_view(s));
    r
}

/// A cascaded learner: the training set that shrinks from stage to stage, the
/// original set for the final report, the feature catalog, and the settings.
pub struct Learner {
    pub max_cascade_depth: u8,
    pub training_inputs: Vec<(Matrix, Classification)>,
    pub original_training_inputs: Vec<(Matrix, Classification)>,
    pub haar_features: Vec<HaarFeature>,
    pub policy: StopPolicy,
    pub face_percentile: u64,
    pub rows: usize,
    pub cols: usize,
}

/// What `Learner::new` checks, in the order it checks it.
pub open spec fn setup_result(
    s: Seq<SampleView>,
    fs: Seq<HaarFeature>,
    depth: u8,
    policy: StopPolicy,
    face_percentile: u64,
    expected_samples: Option<usize>,
) -> Result<(), SetupError> {
    if depth == 0 {
        Err(SetupError::ZeroDepth)
    } else if !policy_ok(policy) || face_percentile > 100 {
        Err(SetupError::BadPolicy)
    } else if s.len() == 0 {
        Err(SetupError::NoSamples)
    } else if expected_samples.is_some() && expected_samples.unwrap() != s.len() {
        Err(SetupError::UnexpectedSampleCount)
    } else if fs.len() == 0 {
        Err(SetupError::NoFeatures)
    } else if exists|i: int| 0 <= i < s.len() && !integral_ok(#[trigger] s[i].0) {
        Err(SetupError::MalformedImage)
    } else if !samples_shaped(s, s[0].0.len() as int, s[0].0[0].len() as int) {
        Err(SetupError::MismatchedDimensions)
    } else if !features_inside(fs, s[0].0.len() as int, s[0].0[0].len() as int) {
        Err(SetupError::FeatureOutsideWindow)
    } else {
        Ok(())
    }
}

impl Learner {
    /// The settings are usable and every feature fits every sample.
    pub open spec fn wf(&self) -> bool {
        &&& self.max_cascade_depth > 0
        &&& policy_ok(self.policy)
        &&& self.face_percentile <= 100
        &&& self.haar_features@.len() > 0
        &&& self.original_training_inputs@.len() > 0
        &&& samples_shaped(samples_view(&self.training_inputs), self.rows as int, self.cols as int)
        &&& samples_shaped(
            samples_view(&self.original_training_inputs),
            self.rows as int,
            self.cols as int,
        )
        &&& features_inside(self.haar_features@, self.rows as int, self.cols as int)
    }

    /// A learner over integral-image samples and a feature catalog. Fails,
    /// before any training, on a zero depth, an unusable stopping policy or
    /// percentile, no samples, a sample count other than `expected_samples`
    /// (when given), no features, a sample that is not a
    /// well-formed integral image, samples of differing sizes, or a feature
    /// that leaves the window.
    pub fn new(
        training_inputs: Vec<(Matrix, Classification)>,
        haar_features: Vec<HaarFeature>,
        max_cascade_depth: u8,
        policy: StopPolicy,
        face_percentile: u64,
        expected_samples: Option<usize>,
    ) -> (r: Result<Learner, SetupError>)
        ensures
            match r {
                Ok(l) => {
                    &&& setup_result(
                        samples_view(&training_inputs),
                        haar_features@,
                        max_cascade_depth,
                        policy,
                        face_percentile,
                        expected_samples,
                    ) == Ok::<(), SetupError>(())
                    &&& l.wf()
                    &&& samples_view(&l.training_inputs) == samples_view(&training_inputs)
                    &&& samples_view(&l.original_training_inputs) == samples_view(&training_inputs)
                    &&& l.haar_features@ == haar_features@
                    &&& l.max_cascade_depth == max_cascade_depth
                    &&& l.policy == policy
                    &&& l.face_percentile == face_percentile
                },
                Err(e) => setup_result(
                    samples_view(&training_inputs),
                    haar_features@,
                    max_cascade_depth,
                    policy,
                    face_percentile,
                    expected_samples,
                ) == Err::<(), SetupError>(e),
            },
    {
        let ghost sv = samples_view(&training_inputs);
        if max_cascade_depth == 0 {
            return Err(SetupError::ZeroDepth);
        }
        let max_rounds = match policy {
            StopPolicy::FalsePositiveBound { max_rounds, .. } => max_rounds,
            StopPolicy::FixedRounds { rounds } => rounds,
        };
        let den_ok = match policy {
            StopPolicy::FalsePositiveBound { max_fp_den, .. } => max_fp_den > 0,
            StopPolicy::FixedRounds { .. } => true,
        };
        if max_rounds < 1 || max_rounds > MAX_CLASSIFIERS as u64 || !den_ok || face_percentile > 100 {
            return Err(SetupError::BadPolicy);
        }
        if training_inputs.len() == 0 {
            return Err(SetupError::NoSamples);
        }
        match expected_samples {
            Some(n) => {
                if n != training_inputs.len() {
                    return Err(SetupError::UnexpectedSampleCount);
                }
            },
            None => {},
        }
        assert(!(expected_samples.is_some() && expected_samples.unwrap() != sv.len()));
        if haar_features.len() == 0 {
            return Err(SetupError::NoFeatures);
        }
        assert(policy_ok(policy));
        let mut i: usize = 0;
        while i < training_inputs.len()
            invariant
                sv == samples_view(&training_inputs),
                sv.len() > 0,
                haar_features@.len() > 0,
                policy_ok(policy),
                face_percentile <= 100,
                max_cascade_depth > 0,
                !(expected_samples.is_some() && expected_samples.unwrap() != sv.len()),
                i <= sv.len(),
                forall|j: int| 0 <= j < i ==> integral_ok(#[trigger] sv[j].0),
            decreases training_inputs.len() - i,
        {
            assert(sv[i as int].0 == grid_view(&training_inputs@[i as int].0));
            if !check_integral(&training_inputs[i].0) {
                assert(!integral_ok(sv[i as int].0));
                return Err(SetupError::MalformedImage);
            }
            i = i + 1;
        }
        assert(sv[0].0 == grid_view(&training_inputs@[0].0));
        assert(integral_ok(sv[0].0));
        let (rows, cols) = training_inputs[0].0.shape();
        i = 0;
        while i < training_inputs.len()
            invariant
                sv == samples_view(&training_inputs),
                sv.len() > 0,
                haar_features@.len() > 0,
                policy_ok(policy),
                face_percentile <= 100,
                max_cascade_depth > 0,
                !(expected_samples.is_some() && expected_samples.unwrap() != sv.len()),
                forall|j: int| 0 <= j < sv.len() ==> integral_ok(#[trigger] sv[j].0),
                rows == sv[0].0.len(),
                cols == sv[0].0[0].len(),
                i <= sv.len(),
                forall|j: int| 0 <= j < i ==> (#[trigger] sv[j].0).len() == rows && sv[j].0[0].len() == cols,
            decreases training_inputs.len() - i,
        {
            assert(sv[i as int].0 == grid_view(&training_inputs@[i as int].0));
            assert(integral_ok(sv[i as int].0));
            let (ri, ci) = training_inputs[i].0.shape();
            if ri != rows || ci != cols {
                assert(!(integral_ok(sv[i as int].0) && sv[i as int].0.len() == rows && sv[i as int].0[0].len() == cols));
                return Err(SetupError::MismatchedDimensions);
            }
            i = i + 1;
        }
        let mut k: usize = 0;
        while k < haar_features.len()
            invariant
                sv == samples_view(&training_inputs),
                sv.len() > 0,
                haar_features@.len() > 0,
                policy_ok(policy),
                face_percentile <= 100,
                max_cascade_depth > 0,
                !(expected_samples.is_some() && expected_samples.unwrap() != sv.len()),
                forall|j: int| 0 <= j < sv.len() ==> integral_ok(#[trigger] sv[j].0),
                samples_shaped(sv, rows as int, cols as int),
                rows == sv[0].0.len(),
                cols == sv[0].0[0].len(),
                k <= haar_features@.len(),
                rows >= 1,
                cols >= 1,
                forall|j: int| 0 <= j < k ==> fits_window(#[trigger] haar_features@[j], cols - 1, rows - 1),
            decreases haar_features.len() - k,
        {
            if !feature_fits(&haar_features[k], cols - 1, rows - 1) {
                assert(!fits_window(haar_features@[k as int], cols - 1, rows - 1));
                return Err(SetupError::FeatureOutsideWindow);
            }
            k = k + 1;
        }
        let original_training_inputs = copy_samples(&training_inputs);
        Ok(Learner {
            max_cascade_depth,
            training_inputs,
            original_training_inputs,
            haar_features,
            policy,
            face_percentile,
            rows,
            cols,
        })
    }
}

/// Whether the feature lies inside a window `cols` wide and `rows` high.
pub fn feature_fits(f: &HaarFeature, cols: usize, rows: usize) -> (r: bool)
    ensures
        r == fits_window(*f, cols as int, rows as int),
{
    let (wf, hf): (u128, u128) = match f.feature_type {
        crate::features::HaarFeatureType::TwoVertical => (1, 2),
        crate::features::HaarFeatureType::TwoHorizontal => (2, 1),
        crate::features::HaarFeatureType::ThreeHorizontal => (3, 1),
        crate::features::HaarFeatureType::TwoByTwo => (2, 2),
    };
    assert(wf * f.w <= 3 * usize::MAX) by (nonlinear_arith)
        requires
            wf <= 3,
            f.w <= usize::MAX,
    ;
    assert(hf * f.h <= 3 * usize::MAX) by (nonlinear_arith)
        requires
            hf <= 3,
            f.h <= usize::MAX,
    ;
    (f.x as u128) + wf * (f.w as u128) <= cols as u128 && (f.y as u128) + hf * (f.h as u128)
        <= rows as u128
}

/// The stump weight a round uses: `alpha_of`'s proposal, clamped to
/// `ALPHA_BOUND`.
pub open spec fn clamp_alpha(a: i64) -> i64 {
    if a > ALPHA_BOUND {
        ALPHA_BOUND
    } else if a < -ALPHA_BOUND {
        (-ALPHA_BOUND) as i64
    } else {
        a
    }
}

/// `c` with error `e` is a best stump over the features on distribution `d`.
#[verifier::opaque]
pub open spec fn chosen(c: WeakClassifier, e: u64, fs: Seq<HaarFeature>, s: Seq<SampleView>, d: Seq<u64>) -> bool {
    is_best_stump((c, e), fs, s, d)
}

/// The stopping rule holds for the stage `st` after `k` rounds.
#[verifier::opaque]
pub open spec fn stopped(policy: StopPolicy, k: int, st: StrongClassifier, s: Seq<SampleView>) -> bool {
    stage_done(
        policy,
        k,
        error_counts(st, s).false_positives as int,
        error_counts(st, s).negatives as int,
    )
}

/// How a stage on samples `s` ends after the non-perfect rounds that
/// `trace_prefix` describes: either the next round's best stump on the last
/// distribution is perfect and `r` holds it alone with weight 1, or `r` is
/// the ensemble of the last round and the first to meet the stopping rule.
pub open spec fn boosting_trace<F: Fn(u64, u64) -> i64>(
    r: StrongClassifier,
    fs: Seq<HaarFeature>,
    s: Seq<SampleView>,
    policy: StopPolicy,
    pct: u64,
    alpha_of: F,
    ds: Seq<Seq<u64>>,
    cs: Seq<WeakClassifier>,
    es: Seq<u64>,
    alphas: Seq<i64>,
    stages: Seq<StrongClassifier>,
) -> bool {
    &&& trace_prefix(fs, s, policy, pct, alpha_of, ds, cs, es, alphas, stages)
    &&& ds.len() == cs.len() + 1
    &&& stages.len() == cs.len()
    &&& {
        ||| {
            &&& r.classifiers@.len() == 1
            &&& chosen(r.classifiers@[0], 0, fs, s, ds.last())
            &&& r.weights@ == seq![1i64]
            &&& r.face_percentile == pct
            &&& calibrated(r, 0, s)
            &&& cs.len() > 0 ==> !stopped(policy, cs.len() as int, stages.last(), s)
        }
        ||| {
            &&& cs.len() >= 1
            &&& r == stages.last()
            &&& stopped(policy, cs.len() as int, r, s)
        }
    }
}

/// `r` is a stage that `run_boosting` builds on samples `s`.
pub open spec fn boosted_stage<F: Fn(u64, u64) -> i64>(
    r: StrongClassifier,
    fs: Seq<HaarFeature>,
    s: Seq<SampleView>,
    policy: StopPolicy,
    pct: u64,
    alpha_of: F,
) -> bool {
    exists|
        ds: Seq<Seq<u64>>,
        cs: Seq<WeakClassifier>,
        es: Seq<u64>,
        alphas: Seq<i64>,
        stages: Seq<StrongClassifier>,
    | boosting_trace(r, fs, s, policy, pct, alpha_of, ds, cs, es, alphas, stages)
}

/// The first `cs.len()` rounds of a boosting stage on samples `s`, none of
/// them perfect, as `run_boosting` runs them. The first round starts from the
/// uniform distribution `ds[0]`. Round `k` picks `cs[k]`, a best stump over
/// every feature on `ds[k]`, with error `es[k] > 0`; `alphas[k]` is what
/// `alpha_of` gave for that error and the distribution's total; the ensemble
/// `stages[k]` is the one before with `cs[k]` appended at weight
/// `clamp_alpha(alphas[k])` and its threshold recalibrated; the next
/// distribution `ds[k + 1]` is `reweight`'s. No ensemble before the last one
/// met the stopping rule.
pub open spec fn trace_prefix<F: Fn(u64, u64) -> i64>(
    fs: Seq<HaarFeature>,
    s: Seq<SampleView>,
    policy: StopPolicy,
    pct: u64,
    alpha_of: F,
    ds: Seq<Seq<u64>>,
    cs: Seq<WeakClassifier>,
    es: Seq<u64>,
    alphas: Seq<i64>,
    stages: Seq<StrongClassifier>,
) -> bool
    decreases cs.len(),
{
    if cs.len() == 0 {
        &&& ds == seq![uniform_distribution(s.len() as int)]
        &&& es.len() == 0
        &&& alphas.len() == 0
        &&& stages.len() == 0
    } else {
        let m = cs.len() - 1;
        &&& ds.len() == cs.len() + 1
        &&& es.len() == cs.len()
        &&& alphas.len() == cs.len()
        &&& stages.len() == cs.len()
        &&& trace_prefix(
            fs,
            s,
            policy,
            pct,
            alpha_of,
            ds.drop_last(),
            cs.drop_last(),
            es.drop_last(),
            alphas.drop_last(),
            stages.drop_last(),
        )
        &&& chosen(cs[m], es[m], fs, s, ds[m])
        &&& es[m] > 0
        &&& ds[m + 1] == reweight_result(cs[m], s, ds[m], es[m] as int)
        &&& alpha_of.ensures((es[m], weight_total(ds[m]) as u64), alphas[m])
        &&& stages[m].classifiers@ == cs
        &&& stages[m].weights@ == (if m == 0 {
            Seq::<i64>::empty()
        } else {
            stages[m - 1].weights@
        }).push(clamp_alpha(alphas[m]))
        &&& stages[m].face_percentile == pct
        &&& calibrated(
            stages[m],
            if m == 0 {
                0
            } else {
                stages[m - 1].threshold
            },
            s,
        )
        &&& m > 0 ==> !stopped(policy, m, stages[m - 1], s)
    }
}

proof fn lemma_trace_start<F: Fn(u64, u64) -> i64>(
    fs: Seq<HaarFeature>,
    s: Seq<SampleView>,
    policy: StopPolicy,
    pct: u64,
    alpha_of: F,
)
    ensures
        trace_prefix(fs, s, policy, pct, alpha_of, seq![uniform_distribution(s.len() as int)],
            Seq::empty(), Seq::empty(), Seq::empty(), Seq::empty()),
{
}

proof fn lemma_trace_facts<F: Fn(u64, u64) -> i64>(
    fs: Seq<HaarFeature>,
    s: Seq<SampleView>,
    policy: StopPolicy,
    pct: u64,
    alpha_of: F,
    ds: Seq<Seq<u64>>,
    cs: Seq<WeakClassifier>,
    es: Seq<u64>,
    alphas: Seq<i64>,
    stages: Seq<StrongClassifier>,
)
    requires
        trace_prefix(fs, s, policy, pct, alpha_of, ds, cs, es, alphas, stages),
    ensures
        ds.len() == cs.len() + 1,
        es.len() == cs.len(),
        alphas.len() == cs.len(),
        stages.len() == cs.len(),
        ds[0] == uniform_distribution(s.len() as int),
        cs.len() > 0 ==> stages.last().classifiers@ == cs,
    decreases cs.len(),
{
    if cs.len() > 0 {
        lemma_trace_facts(fs, s, policy, pct, alpha_of, ds.drop_last(), cs.drop_last(), es.drop_last(),
            alphas.drop_last(), stages.drop_last());
        assert(ds.drop_last()[0] == ds[0]);
    }
}

proof fn lemma_trace_extend<F: Fn(u64, u64) -> i64>(
    fs: Seq<HaarFeature>,
    s: Seq<SampleView>,
    policy: StopPolicy,
    pct: u64,
    alpha_of: F,
    ds: Seq<Seq<u64>>,
    cs: Seq<WeakClassifier>,
    es: Seq<u64>,
    alphas: Seq<i64>,
    stages: Seq<StrongClassifier>,
    best: WeakClassifier,
    err: u64,
    proposed: i64,
    prev: StrongClassifier,
    next: StrongClassifier,
    d_new: Seq<u64>,
)
    requires
        trace_prefix(fs, s, policy, pct, alpha_of, ds, cs, es, alphas, stages),
        chosen(best, err, fs, s, ds.last()),
        err > 0,
        d_new == reweight_result(best, s, ds.last(), err as int),
        alpha_of.ensures((err, weight_total(ds.last()) as u64), proposed),
        cs.len() == 0 ==> prev.classifiers@.len() == 0 && prev.weights@.len() == 0 && prev.threshold == 0,
        cs.len() > 0 ==> prev == stages.last(),
        cs.len() > 0 ==> !stopped(policy, cs.len() as int, stages.last(), s),
        next.classifiers@ == prev.classifiers@.push(best),
        next.weights@ == prev.weights@.push(clamp_alpha(proposed)),
        next.face_percentile == pct,
        calibrated(next, prev.threshold, s),
    ensures
        trace_prefix(fs, s, policy, pct, alpha_of, ds.push(d_new), cs.push(best), es.push(err),
            alphas.push(proposed), stages.push(next)),
{
    lemma_trace_facts(fs, s, policy, pct, alpha_of, ds, cs, es, alphas, stages);
    let m = cs.len() as int;
    let nds = ds.push(d_new);
    let ncs = cs.push(best);
    let nes = es.push(err);
    let nalphas = alphas.push(proposed);
    let nstages = stages.push(next);
    assert(nds.drop_last() =~= ds);
    assert(ncs.drop_last() =~= cs);
    assert(nes.drop_last() =~= es);
    assert(nalphas.drop_last() =~= alphas);
    assert(nstages.drop_last() =~= stages);
    assert(nds[m] == ds.last());
    assert(nstages[m] == next);
    if m > 0 {
        assert(nstages[m - 1] == stages.last());
    } else {
        assert(prev.weights@ =~= Seq::<i64>::empty());
        assert(prev.classifiers@ =~= Seq::<WeakClassifier>::empty());
    }
    assert(next.classifiers@ =~= ncs);
}

impl Learner {
    /// One boosting stage on the current training set. The distribution
    /// starts uniform; each round adds the best stump with the weight that
    /// `alpha_of(error, total)` gives (clamped to `ALPHA_BOUND`), reweights the
    /// samples, and stops at the first round that meets the policy. A stump
    /// with zero error ends the stage at once, as the stage's only stump, with
    /// weight 1.
    pub fn run_boosting<F: Fn(u64, u64) -> i64>(&self, alpha_of: &F) -> (r: StrongClassifier)
        requires
            self.wf(),
            self.training_inputs@.len() > 0,
            has_face(samples_view(&self.training_inputs)),
            forall|e: u64, t: u64| alpha_of.requires((e, t)),
        ensures
            r.wf(),
            stage_fits_all(r, samples_view(&self.training_inputs)),
            r.face_percentile == self.face_percentile,
            stage_inside(r, self.rows as int, self.cols as int),
            1 <= r.classifiers@.len() <= max_rounds_of(self.policy),
            boosted_stage(
                r,
                self.haar_features@,
                samples_view(&self.training_inputs),
                self.policy,
                self.face_percentile,
                *alpha_of,
            ),
            (exists|i: int, p: Sign, t: i64|
                0 <= i < self.haar_features@.len() && #[trigger] weighted_error(
                    stump(self.haar_features@[i], p, t),
                    samples_view(&self.training_inputs),
                    uniform_distribution(self.training_inputs@.len() as int),
                ) == 0) ==> r.classifiers@.len() == 1 && r.weights@ == seq![1i64] && is_best_stump(
                (r.classifiers@[0], 0u64),
                self.haar_features@,
                samples_view(&self.training_inputs),
                uniform_distribution(self.training_inputs@.len() as int),
            ),
    {
        let ghost sv = samples_view(&self.training_inputs);
        let ghost fs = self.haar_features@;
        let ghost pct = self.face_percentile;
        let n = self.training_inputs.len();
        proof {
            lemma_shaped_fit(self.haar_features@, sv, self.rows as int, self.cols as int);
        }
        let max_rounds = match self.policy {
            StopPolicy::FalsePositiveBound { max_rounds, .. } => max_rounds,
            StopPolicy::FixedRounds { rounds } => rounds,
        };
        let ghost perfect = exists|i: int, p: Sign, t: i64|
            0 <= i < self.haar_features@.len() && #[trigger] weighted_error(
                stump(self.haar_features@[i], p, t),
                sv,
                uniform_distribution(n as int),
            ) == 0;
        let mut strong = StrongClassifier::with_percentile(self.face_percentile);
        let mut distribution = uniform(n);
        let mut rounds: u64 = 0;
        let mut done = false;
        let ghost mut ds: Seq<Seq<u64>> = seq![distribution@];
        let ghost mut cs: Seq<WeakClassifier> = Seq::empty();
        let ghost mut es: Seq<u64> = Seq::empty();
        let ghost mut alphas: Seq<i64> = Seq::empty();
        let ghost mut stages: Seq<StrongClassifier> = Seq::empty();
        proof {
            lemma_trace_start(fs, sv, self.policy, pct, *alpha_of);
        }
        while !done
            invariant
                self.wf(),
                sv == samples_view(&self.training_inputs),
                fs == self.haar_features@,
                pct == self.face_percentile,
                n == sv.len(),
                n > 0,
                has_face(sv),
                forall|e: u64, t: u64| alpha_of.requires((e, t)),
                features_fit(self.haar_features@, sv),
                max_rounds == max_rounds_of(self.policy),
                1 <= max_rounds <= MAX_CLASSIFIERS,
                strong.wf(),
                strong.face_percentile == self.face_percentile,
                strong.classifiers@.len() == rounds,
                stage_fits_all(strong, sv),
                stage_inside(strong, self.rows as int, self.cols as int),
                distribution@.len() == n,
                weight_total(distribution@) <= DIST_TOTAL,
                rounds <= max_rounds,
                perfect ==> rounds == 0,
                perfect == exists|i: int, p: Sign, t: i64|
                    0 <= i < self.haar_features@.len() && #[trigger] weighted_error(
                        stump(self.haar_features@[i], p, t),
                        sv,
                        uniform_distribution(n as int),
                    ) == 0,
                trace_prefix(fs, sv, self.policy, pct, *alpha_of, ds, cs, es, alphas, stages),
                cs.len() == rounds,
                ds.len() == rounds + 1,
                ds[0] == uniform_distribution(n as int),
                ds.last() == distribution@,
                rounds > 0 ==> strong == stages.last(),
                rounds == 0 ==> strong.weights@.len() == 0 && strong.threshold == 0,
                rounds > 0 ==> (done <==> stage_done(
                    self.policy,
                    rounds as int,
                    error_counts(strong, sv).false_positives as int,
                    error_counts(strong, sv).negatives as int,
                )),
                !done ==> rounds < max_rounds,
                done ==> rounds >= 1,
            decreases max_rounds - rounds + if done {
                0int
            } else {
                1int
            },
        {
            proof {
                lemma_trace_facts(fs, sv, self.policy, pct, *alpha_of, ds, cs, es, alphas, stages);
            }
            let (best, err) = WeakClassifier::best_stump(
                &self.haar_features,
                &self.training_inputs,
                &distribution,
            );
            proof {
                let i = choose|i: int| 0 <= i < self.haar_features@.len() && best.feature == self.haar_features@[i] && forall|j: int, p: Sign, t: i64|
                    0 <= j < i ==> err < #[trigger] weighted_error(stump(self.haar_features@[j], p, t), sv, distribution@);
                assert(samples_fit(self.haar_features@[i], sv));
                assert(fits_window(self.haar_features@[i], self.cols - 1, self.rows - 1));
                lemma_error_le_total(best, sv, distribution@);
            }
            if err == 0 {
                let mut single = StrongClassifier::with_percentile(self.face_percentile);
                let _ = single.add_weak_classifier(best, 1, &self.training_inputs);
                proof {
                    assert(single.classifiers@ =~= seq![best]);
                    assert(single.weights@ =~= seq![1i64]);
                    reveal(chosen);
                    reveal(stopped);
                    assert(single.classifiers@[0] == best);
                    assert(boosting_trace(single, fs, sv, self.policy, pct, *alpha_of, ds, cs, es, alphas, stages));
                    if perfect {
                        assert(rounds == 0);
                        assert(ds.last() == ds[0]);
                    }
                }
                return single;
            }
            proof {
                if perfect {
                    let (i, p, t) = choose|i: int, p: Sign, t: i64|
                        0 <= i < self.haar_features@.len() && #[trigger] weighted_error(
                            stump(self.haar_features@[i], p, t),
                            sv,
                            uniform_distribution(n as int),
                        ) == 0;
                    assert(err <= weighted_error(stump(self.haar_features@[i], p, t), sv, distribution@));
                }
            }
            let total = distribution_total(&distribution);
            let proposed = alpha_of(err, total);
            let alpha: i64 = if proposed > ALPHA_BOUND {
                ALPHA_BOUND
            } else if proposed < -ALPHA_BOUND {
                -ALPHA_BOUND
            } else {
                proposed
            };
            let ghost prev = strong;
            let _ = strong.add_weak_classifier(best, alpha, &self.training_inputs);
            assert forall|j: int| 0 <= j < strong.classifiers@.len() implies fits_window(
                #[trigger] strong.classifiers@[j].feature,
                self.cols - 1,
                self.rows - 1,
            ) by {
                if j < prev.classifiers@.len() {
                    assert(strong.classifiers@[j] == prev.classifiers@[j]);
                }
            }
            distribution = reweight(&distribution, &best, &self.training_inputs, err);
            proof {
                assert(alpha == clamp_alpha(proposed));
                reveal(chosen);
                reveal(stopped);
                lemma_trace_extend(fs, sv, self.policy, pct, *alpha_of, ds, cs, es, alphas, stages, best, err, proposed, prev, strong, distribution@);
                ds = ds.push(distribution@);
                cs = cs.push(best);
                es = es.push(err);
                alphas = alphas.push(proposed);
                stages = stages.push(strong);
            }
            rounds = rounds + 1;
            let counts = strong.compute_error(&self.training_inputs);
            done = stage_complete(&self.policy, rounds, counts.false_positives, counts.negatives);
        }
        proof {
            reveal(stopped);
            lemma_trace_facts(fs, sv, self.policy, pct, *alpha_of, ds, cs, es, alphas, stages);
            assert(boosting_trace(strong, fs, sv, self.policy, pct, *alpha_of, ds, cs, es, alphas, stages));
        }
        strong
    }
}

/// The samples that the stage classifies as faces, in their order.
pub fn filter_survivors(stage: &StrongClassifier, samples: &Vec<(Matrix, Classification)>) -> (r: Vec<(Matrix, Classification)>)
    requires
        stage.wf(),
        stage_fits_all(*stage, samples_view(samples)),
    ensures
        samples_view(&r) == survivors(*stage, samples_view(samples)),
{
    let ghost sv = samples_view(samples);
    let mut kept: Vec<(Matrix, Classification)> = Vec::new();
    let mut i: usize = 0;
    while i < samples.len()
        invariant
            sv == samples_view(samples),
            stage.wf(),
            stage_fits_all(*stage, sv),
            i <= sv.len(),
            samples_view(&kept) == survivors(*stage, sv.take(i as int)),
        decreases samples.len() - i,
    {
        assert(sv[i as int] == (grid_view(&samples@[i as int].0), samples@[i as int].1));
        assert(stage_fits(*stage, sv[i as int].0));
        let ghost t = sv.take(i + 1);
        assert(t.drop_last() =~= sv.take(i as int));
        assert(t.last() == sv[i as int]);
        if stage.evaluate(&samples[i].0) == Classification::Face {
            let m = samples[i].0.copy();
            let ghost before = samples_view(&kept);
            kept.push((m, samples[i].1));
            assert(samples_view(&kept) =~= before.push(sv[i as int]));
        }
        i = i + 1;
    }
    assert(sv.take(i as int) =~= sv);
    kept
}

/// After a stage, no surviving sample is one the stage called a non-face,
/// every sample it called a face survives, and the set does not grow.
pub proof fn lemma_survivors_are_faces(sc: StrongClassifier, s: Seq<SampleView>)
    ensures
        forall|i: int|
            0 <= i < survivors(sc, s).len() ==> strong_predicts(sc, #[trigger] survivors(sc, s)[i].0)
                == Classification::Face,
        forall|i: int|
            0 <= i < s.len() && strong_predicts(sc, #[trigger] s[i].0) == Classification::Face
                ==> survivors(sc, s).contains(s[i]),
        survivors(sc, s).len() <= s.len(),
    decreases s.len(),
{
    if s.len() > 0 {
        let d = s.drop_last();
        lemma_survivors_are_faces(sc, d);
        let sd = survivors(sc, d);
        let ss = survivors(sc, s);
        assert forall|i: int| 0 <= i < s.len() && strong_predicts(sc, #[trigger] s[i].0)
            == Classification::Face implies ss.contains(s[i]) by {
            if i < d.len() {
                assert(d[i] == s[i]);
                assert(sd.contains(d[i]));
                let j = choose|j: int| 0 <= j < sd.len() && sd[j] == d[i];
                if strong_predicts(sc, s.last().0) == Classification::Face {
                    assert(ss[j] == sd[j]);
                }
            } else {
                assert(s[i] == s.last());
                assert(ss[ss.len() - 1] == s[i]);
            }
        }
    }
}

/// Every stage of the cascade can be evaluated on every sample.
pub open spec fn cascade_fits_all(c: Seq<StrongClassifier>, s: Seq<SampleView>) -> bool {
    forall|i: int| 0 <= i < s.len() ==> cascade_fits(c, #[trigger] s[i].0)
}

/// Classify an integral image with a cascade: stages are tried in order and
/// the first that calls it a non-face decides.
pub fn classify(cascade: &Vec<StrongClassifier>, img: &Matrix) -> (r: Classification)
    requires
        cascade_fits(cascade@, grid_view(img)),
    ensures
        r == cascade_predicts(cascade@, grid_view(img)),
{
    let ghost m = grid_view(img);
    let mut k: usize = 0;
    while k < cascade.len()
        invariant
            m == grid_view(img),
            cascade_fits(cascade@, m),
            k <= cascade@.len(),
            forall|j: int| 0 <= j < k ==> strong_predicts(#[trigger] cascade@[j], m) == Classification::Face,
        decreases cascade.len() - k,
    {
        assert(cascade@[k as int].wf() && stage_fits(cascade@[k as int], m));
        if cascade[k].evaluate(img) == Classification::NonFace {
            return Classification::NonFace;
        }
        k = k + 1;
    }
    Classification::Face
}

/// How a cascade fares on a labelled sample list.
#[derive(Copy, Clone, Debug, PartialEq, Eq, Structural)]
pub struct CascadeReport {
    pub true_positives: usize,
    pub positives: usize,
    pub false_positives: usize,
    pub negatives: usize,
}

/// How many samples of class `c` the cascade calls `d`.
pub open spec fn cascade_count(c: Seq<StrongClassifier>, s: Seq<SampleView>, label: Classification, d: Classification) -> int
    decreases s.len(),
{
    if s.len() == 0 {
        0
    } else {
        cascade_count(c, s.drop_last(), label, d) + if s.last().1 == label && cascade_predicts(c, s.last().0) == d {
            1int
        } else {
            0
        }
    }
}

/// How many samples are of class `label`.
pub open spec fn label_count(s: Seq<SampleView>, label: Classification) -> int
    decreases s.len(),
{
    if s.len() == 0 {
        0
    } else {
        label_count(s.drop_last(), label) + if s.last().1 == label {
            1int
        } else {
            0
        }
    }
}

/// Tallies a cascade's detections and false positives over a sample list:
/// the detection rate is `true_positives / positives`, the false-positive
/// rate `false_positives / negatives`.
pub fn evaluate_cascade(cascade: &Vec<StrongClassifier>, samples: &Vec<(Matrix, Classification)>) -> (r: CascadeReport)
    requires
        cascade_fits_all(cascade@, samples_view(samples)),
    ensures
        r.true_positives == cascade_count(cascade@, samples_view(samples), Classification::Face, Classification::Face),
        r.false_positives == cascade_count(cascade@, samples_view(samples), Classification::NonFace, Classification::Face),
        r.positives == label_count(samples_view(samples), Classification::Face),
        r.negatives == label_count(samples_view(samples), Classification::NonFace),
{
    let ghost sv = samples_view(samples);
    let mut tp: usize = 0;
    let mut fp: usize = 0;
    let mut pos: usize = 0;
    let mut neg: usize = 0;
    let mut i: usize = 0;
    while i < samples.len()
        invariant
            sv == samples_view(samples),
            cascade_fits_all(cascade@, sv),
            i <= sv.len(),
            tp == cascade_count(cascade@, sv.take(i as int), Classification::Face, Classification::Face),
            fp == cascade_count(cascade@, sv.take(i as int), Classification::NonFace, Classification::Face),
            pos == label_count(sv.take(i as int), Classification::Face),
            neg == label_count(sv.take(i as int), Classification::NonFace),
            tp <= pos,
            fp <= neg,
            pos + neg == i,
        decreases samples.len() - i,
    {
        assert(sv[i as int] == (grid_view(&samples@[i as int].0), samples@[i as int].1));
        assert(cascade_fits(cascade@, sv[i as int].0));
        let ghost t = sv.take(i + 1);
        assert(t.drop_last() =~= sv.take(i as int));
        assert(t.last() == sv[i as int]);
        let verdict = classify(cascade, &samples[i].0);
        match samples[i].1 {
            Classification::Face => {
                pos = pos + 1;
                if verdict == Classification::Face {
                    tp = tp + 1;
                }
            },
            Classification::NonFace => {
                neg = neg + 1;
                if verdict == Classification::Face {
                    fp = fp + 1;
                }
            },
        }
        i = i + 1;
    }
    assert(sv.take(i as int) =~= sv);
    CascadeReport { true_positives: tp, positives: pos, false_positives: fp, negatives: neg }
}

/// The samples left after each stage in turn keeps those it calls faces.
pub open spec fn filtered_by(stages: Seq<StrongClassifier>, s: Seq<SampleView>) -> Seq<SampleView>
    decreases stages.len(),
{
    if stages.len() == 0 {
        s
    } else {
        survivors(stages.last(), filtered_by(stages.drop_last(), s))
    }
}

/// Whether some sample is a face.
pub fn has_face_sample(samples: &Vec<(Matrix, Classification)>) -> (r: bool)
    ensures
        r == has_face(samples_view(samples)),
{
    let ghost sv = samples_view(samples);
    let mut i: usize = 0;
    while i < samples.len()
        invariant
            sv == samples_view(samples),
            i <= sv.len(),
            forall|j: int| 0 <= j < i ==> (#[trigger] sv[j]).1 != Classification::Face,
        decreases samples.len() - i,
    {
        assert(sv[i as int].1 == samples@[i as int].1);
        if samples[i].1 == Classification::Face {
            return true;
        }
        i = i + 1;
    }
    false
}

impl Learner {
    /// Trains the cascade: up to `max_cascade_depth` stages, stage `k`
    /// boosted on the samples that stages `0..k` all called faces. Training
    /// stops early when no face sample is left, since a stage's threshold is
    /// read from face scores; the remaining samples are then those the last
    /// stage passed on.
    pub fn train<F: Fn(u64, u64) -> i64>(&mut self, alpha_of: &F) -> (cascade: Vec<StrongClassifier>)
        requires
            old(self).wf(),
            forall|e: u64, t: u64| alpha_of.requires((e, t)),
        ensures
            final(self).wf(),
            final(self).rows == old(self).rows,
            final(self).cols == old(self).cols,
            final(self).haar_features@ == old(self).haar_features@,
            final(self).policy == old(self).policy,
            final(self).face_percentile == old(self).face_percentile,
            final(self).max_cascade_depth == old(self).max_cascade_depth,
            samples_view(&final(self).original_training_inputs) == samples_view(&old(self).original_training_inputs),
            samples_view(&final(self).training_inputs) == filtered_by(cascade@, samples_view(&old(self).training_inputs)),
            final(self).training_inputs@.len() <= old(self).training_inputs@.len(),
            cascade@.len() <= old(self).max_cascade_depth,
            cascade@.len() == old(self).max_cascade_depth || !has_face(samples_view(&final(self).training_inputs)),
            forall|k: int| 0 <= k < cascade@.len() ==> (#[trigger] cascade@[k]).wf() && stage_inside(
                cascade@[k],
                old(self).rows as int,
                old(self).cols as int,
            ) && has_face(filtered_by(cascade@.take(k), samples_view(&old(self).training_inputs)))
                && boosted_stage(
                cascade@[k],
                old(self).haar_features@,
                filtered_by(cascade@.take(k), samples_view(&old(self).training_inputs)),
                old(self).policy,
                old(self).face_percentile,
                *alpha_of,
            ),
            cascade@.len() > 0 ==> forall|i: int| 0 <= i < final(self).training_inputs@.len() ==> strong_predicts(
                cascade@.last(),
                #[trigger] samples_view(&final(self).training_inputs)[i].0,
            ) == Classification::Face,
    {
        let mut cascade: Vec<StrongClassifier> = Vec::new();
        let mut cascade_round: u8 = 0;
        let ghost t0 = samples_view(&self.training_inputs);
        let mut finished = false;
        while !finished
            invariant
                self.wf(),
                self.rows == old(self).rows,
                self.cols == old(self).cols,
                self.haar_features@ == old(self).haar_features@,
                self.policy == old(self).policy,
                self.face_percentile == old(self).face_percentile,
                self.max_cascade_depth == old(self).max_cascade_depth,
                samples_view(&self.original_training_inputs) == samples_view(&old(self).original_training_inputs),
                t0 == samples_view(&old(self).training_inputs),
                samples_view(&self.training_inputs) == filtered_by(cascade@, t0),
                self.training_inputs@.len() <= t0.len(),
                forall|e: u64, t: u64| alpha_of.requires((e, t)),
                cascade@.len() == cascade_round,
                cascade_round <= self.max_cascade_depth,
                finished ==> cascade_round == self.max_cascade_depth || !has_face(samples_view(&self.training_inputs)),
                forall|k: int| 0 <= k < cascade@.len() ==> (#[trigger] cascade@[k]).wf() && stage_inside(
                    cascade@[k],
                    self.rows as int,
                    self.cols as int,
                ) && has_face(filtered_by(cascade@.take(k), t0)) && boosted_stage(
                    cascade@[k],
                    self.haar_features@,
                    filtered_by(cascade@.take(k), t0),
                    self.policy,
                    self.face_percentile,
                    *alpha_of,
                ),
                cascade@.len() > 0 ==> forall|i: int| 0 <= i < self.training_inputs@.len() ==> strong_predicts(
                    cascade@.last(),
                    #[trigger] samples_view(&self.training_inputs)[i].0,
                ) == Classification::Face,
            decreases self.max_cascade_depth - cascade_round + if finished {
                0int
            } else {
                1int
            },
        {
            if cascade_round == self.max_cascade_depth || !has_face_sample(&self.training_inputs) {
                finished = true;
            } else {
                let stage = self.run_boosting(alpha_of);
                let new_inputs = filter_survivors(&stage, &self.training_inputs);
                proof {
                    let sv = samples_view(&self.training_inputs);
                    lemma_survivors_are_faces(stage, sv);
                    let s2 = survivors(stage, sv);
                    assert forall|i: int| 0 <= i < s2.len() implies integral_ok(#[trigger] s2[i].0) && s2[i].0.len() == self.rows && s2[i].0[0].len() == self.cols by {
                        lemma_survivor_from(stage, sv, i);
                    }
                    assert(samples_view(&new_inputs).len() == new_inputs@.len());
                    let nc = cascade@.push(stage);
                    assert(nc.drop_last() =~= cascade@);
                    assert(filtered_by(nc, t0) == survivors(stage, filtered_by(cascade@, t0)));
                    assert(nc.take(cascade@.len() as int) =~= cascade@);
                    assert forall|k: int| 0 <= k < cascade@.len() implies #[trigger] nc.take(k) == cascade@.take(k) by {
                        assert(nc.take(k) =~= cascade@.take(k));
                    }
                }
                self.training_inputs = new_inputs;
                cascade.push(stage);
                cascade_round = cascade_round + 1;
                proof {
                    assert forall|k: int| 0 <= k < cascade@.len() implies (#[trigger] cascade@[k]).wf() && stage_inside(
                        cascade@[k],
                        self.rows as int,
                        self.cols as int,
                    ) && has_face(filtered_by(cascade@.take(k), t0)) && boosted_stage(
                        cascade@[k],
                        self.haar_features@,
                        filtered_by(cascade@.take(k), t0),
                        self.policy,
                        self.face_percentile,
                        *alpha_of,
                    ) by {
                        if k < cascade@.len() - 1 {
                            assert(cascade@.take(k) == cascade@.drop_last().take(k));
                        } else {
                            assert(cascade@.take(k) =~= cascade@.drop_last());
                        }
                    }
                }
            }
        }
        cascade
    }

    /// Tallies the cascade's detections and false positives over the
    /// original, unfiltered training set.
    pub fn evaluate_cascade(&self, cascade: &Vec<StrongClassifier>) -> (r: CascadeReport)
        requires
            self.wf(),
            forall|k: int| 0 <= k < cascade@.len() ==> (#[trigger] cascade@[k]).wf() && stage_inside(
                cascade@[k],
                self.rows as int,
                self.cols as int,
            ),
        ensures
            r == evaluate_cascade_spec(cascade@, samples_view(&self.original_training_inputs)),
    {
        let ghost sv = samples_view(&self.original_training_inputs);
        proof {
            assert forall|i: int| 0 <= i < sv.len() implies cascade_fits(cascade@, #[trigger] sv[i].0) by {
                assert forall|k: int| 0 <= k < cascade@.len() implies (#[trigger] cascade@[k]).wf() && stage_fits(cascade@[k], sv[i].0) by {
                    lemma_inside_fits(cascade@[k], sv[i].0, self.rows as int, self.cols as int);
                }
            }
        }
        evaluate_cascade(cascade, &self.original_training_inputs)
    }
}

/// The report `evaluate_cascade` gives.
pub open spec fn evaluate_cascade_spec(c: Seq<StrongClassifier>, s: Seq<SampleView>) -> CascadeReport {
    CascadeReport {
        true_positives: cascade_count(c, s, Classification::Face, Classification::Face) as usize,
        positives: label_count(s, Classification::Face) as usize,
        false_positives: cascade_count(c, s, Classification::NonFace, Classification::Face) as usize,
        negatives: label_count(s, Classification::NonFace) as usize,
    }
}

/// Each survivor is one of the samples it was filtered from.
proof fn lemma_survivor_from(sc: StrongClassifier, s: Seq<SampleView>, i: int)
    requires
        0 <= i < survivors(sc, s).len(),
    ensures
        exists|j: int| 0 <= j < s.len() && #[trigger] s[j] == survivors(sc, s)[i],
    decreases s.len(),
{
    let d = s.drop_last();
    let sd = survivors(sc, d);
    if i < sd.len() {
        lemma_survivor_from(sc, d, i);
        let j = choose|j: int| 0 <= j < d.len() && #[trigger] d[j] == sd[i];
        assert(s[j] == d[j]);
        if strong_predicts(sc, s.last().0) == Classification::Face {
            assert(survivors(sc, s)[i] == sd[i]);
        }
    } else {
        assert(s[s.len() - 1] == survivors(sc, s)[i]);
    }
}

} // verus!
