use violajones::boosting::{reweight, uniform};
use violajones::cascade::{
    classify, evaluate_cascade, filter_survivors, stage_complete, Learner, SetupError, StopPolicy,
};
use violajones::features::{HaarFeature, HaarFeatureType, Sign};
use violajones::preprocess::compute_integral_image;
use violajones::strong_classifier::{CalibrationError, StrongClassifier};
use violajones::weak_classifier::WeakClassifier;
use violajones::{Classification, Matrix};

/// Fixed-point boosting weight: `ln((total - error) / error) / 2` in units of 1/65536.
fn alpha(error: u64, total: u64) -> i64 {
    ((0.5 * ((total - error) as f64 / error as f64).ln()) * 65536.0).round() as i64
}

fn vertical() -> HaarFeature {
    HaarFeature::new(HaarFeatureType::TwoVertical, 1, 1, 0, 0)
}

fn horizontal() -> HaarFeature {
    HaarFeature::new(HaarFeatureType::TwoHorizontal, 1, 1, 0, 0)
}

fn matrix(rows: Vec<Vec<i64>>) -> Matrix {
    Matrix::from_rows(&rows).expect("Failed to transform rows into matrix")
}

fn sample(raw: [[i64; 2]; 2], label: Classification) -> (Matrix, Classification) {
    let m = matrix(raw.iter().map(|r| r.to_vec()).collect());
    (compute_integral_image(&m), label)
}

/// Two faces and two non-faces. The vertical feature scores the faces 4 and
/// the non-faces -4; the horizontal one scores them -4, 3, 6 and -2.
fn separable() -> Vec<(Matrix, Classification)> {
    vec![
        sample([[5, 1], [1, 1]], Classification::Face),
        sample([[6, 9], [2, 0]], Classification::Face),
        sample([[1, 7], [5, 0]], Classification::NonFace),
        sample([[2, 0], [6, 3]], Classification::NonFace),
    ]
}

/// Faces bright on one side or the other, non-faces on neither: no single
/// stump separates them, two do.
fn two_sided() -> Vec<(Matrix, Classification)> {
    vec![
        sample([[4, 0], [0, 0]], Classification::Face),
        sample([[0, 4], [4, 0]], Classification::Face),
        sample([[4, 8], [0, 0]], Classification::Face),
        sample([[4, 0], [8, 0]], Classification::NonFace),
        sample([[5, 1], [9, 0]], Classification::NonFace),
    ]
}

#[test]
fn hand_picked_scores() {
    let data = separable();
    let scores: Vec<i64> = data.iter().map(|s| vertical().evaluate(&s.0)).collect();
    assert_eq!(scores, vec![4, 4, -4, -4]);
    let scores: Vec<i64> = data.iter().map(|s| horizontal().evaluate(&s.0)).collect();
    assert_eq!(scores, vec![-4, 3, 6, -2]);
}

#[test]
fn best_stump_picks_the_separating_feature() {
    let data = separable();
    let features = vec![horizontal(), vertical()];
    let dist = uniform(data.len());
    let (stump, error) = WeakClassifier::best_stump(&features, &data, &dist);
    assert_eq!(error, 0);
    assert_eq!(stump.feature, vertical());
    assert_eq!(stump.toggle, Sign::Positive);
    assert_eq!(stump.threshold, 4);
    for (img, label) in &data {
        assert_eq!(stump.evaluate(img), *label);
    }
    assert_eq!(stump.compute_error(&data, &dist), 0);
}

#[test]
fn best_stump_error_on_an_inseparable_feature() {
    let data = separable();
    let dist = uniform(data.len());
    let w = dist[0];
    let (stump, error) = WeakClassifier::best_stump(&vec![horizontal()], &data, &dist);
    // Sorted scores: -4 F, -2 N, 3 F, 6 N; the best split leaves one sample out.
    assert_eq!(error, w);
    assert_eq!(stump.compute_error(&data, &dist), w);
    let flipped = WeakClassifier::new(&horizontal(), stump.threshold, stump.toggle.flipped());
    assert!(flipped.compute_error(&data, &dist) >= error);
}

#[test]
fn stump_raw_output_and_polarity() {
    let img = &separable()[0].0;
    let pos = WeakClassifier::new(&vertical(), 1, Sign::Positive);
    assert_eq!(pos.evaluate_raw(img), 3);
    assert_eq!(pos.evaluate(img), Classification::Face);
    let neg = WeakClassifier::new(&vertical(), 1, Sign::Negative);
    assert_eq!(neg.evaluate_raw(img), -3);
    assert_eq!(neg.evaluate(img), Classification::NonFace);
    let at = WeakClassifier::new(&vertical(), 4, Sign::Negative);
    assert_eq!(at.evaluate(img), Classification::Face);
}

#[test]
fn perfect_feature_ends_the_stage_in_one_round() {
    let learner = Learner::new(
        separable(),
        vec![horizontal(), vertical()],
        1,
        StopPolicy::FixedRounds { rounds: 5 },
        5,
        None,
    )
    .unwrap();
    let stage = learner.run_boosting(&alpha);
    assert_eq!(stage.classifiers.len(), 1);
    assert_eq!(stage.classifiers[0].feature, vertical());
    for (img, label) in &separable() {
        assert_eq!(stage.evaluate(img), *label);
    }
    let counts = stage.compute_error(&separable());
    assert_eq!(
        (counts.false_positives, counts.negatives, counts.false_negatives, counts.positives),
        (0, 2, 0, 2)
    );
}

#[test]
fn reweighting_shifts_mass_to_the_missed_sample() {
    let data = two_sided();
    let features = vec![horizontal(), vertical()];
    let dist = uniform(data.len());
    assert_eq!(dist, vec![858993459u64; 5]);
    let (stump, error) = WeakClassifier::best_stump(&features, &data, &dist);
    assert_eq!(stump.feature, horizontal());
    assert_eq!(error, 858993459);
    let next = reweight(&dist, &stump, &data, error);
    assert_eq!(next, vec![1u64 << 31, 1 << 29, 1 << 29, 1 << 29, 1 << 29]);
    let (second, error2) = WeakClassifier::best_stump(&features, &data, &next);
    assert_eq!(second.feature, vertical());
    assert_eq!(error2, 1 << 29);
}

#[test]
fn overall_error_does_not_rise_across_rounds() {
    let data = two_sided();
    let features = vec![horizontal(), vertical()];
    let mut dist = uniform(data.len());
    let mut strong = StrongClassifier::new();
    let mut errors = Vec::new();
    for _ in 0..2 {
        let (stump, error) = WeakClassifier::best_stump(&features, &data, &dist);
        let total: u64 = dist.iter().sum();
        strong.add_weak_classifier(stump, alpha(error, total), &data).unwrap();
        dist = reweight(&dist, &stump, &data, error);
        let c = strong.compute_error(&data);
        errors.push(c.false_positives + c.false_negatives);
    }
    assert_eq!(errors, vec![2, 0]);
    assert!(errors.windows(2).all(|w| w[1] <= w[0]));
}

#[test]
fn stage_filtering_keeps_only_faces() {
    let data = separable();
    let learner = Learner::new(
        separable(),
        vec![horizontal(), vertical()],
        1,
        StopPolicy::FixedRounds { rounds: 1 },
        5,
        None,
    )
    .unwrap();
    let stage = learner.run_boosting(&alpha);
    let survivors = filter_survivors(&stage, &data);
    assert!(survivors.len() <= data.len());
    assert_eq!(survivors.len(), 2);
    for (img, label) in &survivors {
        assert_eq!(stage.evaluate(img), Classification::Face);
        assert_eq!(*label, Classification::Face);
    }
}

#[test]
fn end_to_end_two_features_four_samples() {
    let data = separable();
    let features = vec![horizontal(), vertical()];
    let (_, error) = WeakClassifier::best_stump(&features, &data, &uniform(4));
    assert_eq!(error, 0);
    let mut learner =
        Learner::new(separable(), features, 2, StopPolicy::FixedRounds { rounds: 3 }, 5, None).unwrap();
    let stage = learner.run_boosting(&alpha);
    assert_eq!(stage.classifiers.len(), 1);
    for (img, label) in &data {
        assert_eq!(stage.evaluate(img), *label);
    }
    let cascade = learner.train(&alpha);
    assert_eq!(cascade.len(), 2);
    for (img, label) in &data {
        assert_eq!(classify(&cascade, img), *label);
    }
    let report = learner.evaluate_cascade(&cascade);
    assert_eq!(
        (report.true_positives, report.positives, report.false_positives, report.negatives),
        (2, 2, 0, 2)
    );
    let direct = evaluate_cascade(&cascade, &data);
    assert_eq!(direct, report);
    assert_eq!(learner.training_inputs.len(), 2);
}

#[test]
fn threshold_sits_at_the_face_percentile() {
    // Two-row images whose vertical feature scores 0..39 in a shuffled order.
    let mut data = Vec::new();
    for i in 0..40i64 {
        let s = (i * 17) % 40;
        let m = matrix(vec![vec![s], vec![0]]);
        data.push((compute_integral_image(&m), Classification::Face));
    }
    data.push((compute_integral_image(&matrix(vec![vec![-50], vec![0]])), Classification::NonFace));
    let stump = WeakClassifier::new(&vertical(), 0, Sign::Positive);
    let mut strong = StrongClassifier::new();
    strong.add_weak_classifier(stump, 1, &data).unwrap();
    assert_eq!(strong.threshold, 2);
    assert_eq!(strong.evaluate_raw(&data[40].0), -50);
    assert_eq!(strong.evaluate(&data[40].0), Classification::NonFace);
    let mut all = StrongClassifier::with_percentile(100);
    all.add_weak_classifier(stump, 3, &data).unwrap();
    assert_eq!(all.threshold, 39 * 3);
}

#[test]
fn no_faces_keeps_the_threshold() {
    let data = vec![(compute_integral_image(&matrix(vec![vec![1], vec![0]])), Classification::NonFace)];
    let mut strong = StrongClassifier::new();
    assert_eq!(
        strong.add_weak_classifier(WeakClassifier::new(&vertical(), 0, Sign::Positive), 1, &data),
        Err(CalibrationError::NoFaceSamples)
    );
    assert_eq!(strong.threshold, 0);
    assert_eq!(strong.classifiers.len(), 1);
    assert_eq!(strong.weights, vec![1]);
}

#[test]
fn stopping_rules() {
    let fpr = StopPolicy::FalsePositiveBound { max_fp_num: 35, max_fp_den: 100, min_rounds: 3, max_rounds: 10 };
    assert!(!stage_complete(&fpr, 2, 0, 10));
    assert!(stage_complete(&fpr, 3, 3, 10));
    assert!(!stage_complete(&fpr, 3, 4, 10));
    assert!(stage_complete(&fpr, 10, 10, 10));
    let fixed = StopPolicy::FixedRounds { rounds: 4 };
    assert!(!stage_complete(&fixed, 3, 0, 10));
    assert!(stage_complete(&fixed, 4, 9, 10));
}

#[test]
fn setup_errors() {
    let features = vec![horizontal(), vertical()];
    let policy = StopPolicy::FixedRounds { rounds: 2 };
    let err = |r: Result<Learner, SetupError>| r.err().unwrap();
    assert_eq!(err(Learner::new(separable(), features.clone(), 0, policy, 5, None)), SetupError::ZeroDepth);
    assert_eq!(
        err(Learner::new(separable(), features.clone(), 1, StopPolicy::FixedRounds { rounds: 0 }, 5, None)),
        SetupError::BadPolicy
    );
    assert_eq!(err(Learner::new(separable(), features.clone(), 1, policy, 101, None)), SetupError::BadPolicy);
    assert_eq!(
        err(Learner::new(
            separable(),
            features.clone(),
            1,
            StopPolicy::FalsePositiveBound { max_fp_num: 1, max_fp_den: 0, min_rounds: 1, max_rounds: 2 },
            5,
            None
        )),
        SetupError::BadPolicy
    );
    assert_eq!(err(Learner::new(vec![], features.clone(), 1, policy, 5, None)), SetupError::NoSamples);
    assert_eq!(err(Learner::new(separable(), vec![], 1, policy, 5, None)), SetupError::NoFeatures);
    let mut bad = separable();
    let mut rows = bad[1].0.to_rows();
    rows[2][2] = i64::MAX;
    bad[1].0 = matrix(rows);
    assert_eq!(err(Learner::new(bad, features.clone(), 1, policy, 5, None)), SetupError::MalformedImage);
    let mut empty = separable();
    empty[3].0 = Matrix::new(vec![], 3, 0).unwrap();
    assert_eq!(err(Learner::new(empty, features.clone(), 1, policy, 5, None)), SetupError::MalformedImage);
    let mut mixed = separable();
    mixed.push((compute_integral_image(&matrix(vec![vec![1, 2, 3]])), Classification::Face));
    assert_eq!(err(Learner::new(mixed, features.clone(), 1, policy, 5, None)), SetupError::MismatchedDimensions);
    let wide = vec![HaarFeature::new(HaarFeatureType::TwoHorizontal, 2, 1, 0, 0)];
    assert_eq!(err(Learner::new(separable(), wide, 1, policy, 5, None)), SetupError::FeatureOutsideWindow);
    assert_eq!(
        err(Learner::new(separable(), features.clone(), 1, policy, 5, Some(4000))),
        SetupError::UnexpectedSampleCount
    );
    assert!(Learner::new(separable(), features, 1, policy, 5, Some(4)).is_ok());
}

#[test]
fn training_stops_when_no_face_is_left() {
    let data = vec![
        sample([[1, 7], [5, 0]], Classification::NonFace),
        sample([[2, 0], [6, 3]], Classification::NonFace),
    ];
    let mut learner =
        Learner::new(data, vec![vertical()], 3, StopPolicy::FixedRounds { rounds: 2 }, 5, None).unwrap();
    let cascade = learner.train(&alpha);
    assert!(cascade.is_empty());
    assert_eq!(learner.training_inputs.len(), 2);
}
