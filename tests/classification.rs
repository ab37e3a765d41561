use violajones::features::Sign;
use violajones::Classification;

#[test]
fn classifications_multiply_correctly() {
    let mut label = Classification::Face;
    assert!(label.multiplier() * -1 == -1);

    let mut classification = Classification::Face;
    assert!(label.multiplier() * classification.multiplier() * -1 == -1);
    classification = Classification::NonFace;
    assert!(label.multiplier() * classification.multiplier() * -1 == 1);

    label = Classification::NonFace;
    assert!(label.multiplier() * -1 == 1);

    classification = Classification::Face;
    assert!(label.multiplier() * classification.multiplier() * -1 == 1);
    classification = Classification::NonFace;
    assert!(label.multiplier() * classification.multiplier() * -1 == -1);
}

#[test]
fn signs_flip_and_multiply() {
    assert_eq!(Sign::Positive.flipped(), Sign::Negative);
    assert_eq!(Sign::Negative.flipped(), Sign::Positive);
    assert_eq!(Sign::Positive.multiplier(), 1);
    assert_eq!(Sign::Negative.multiplier(), -1);
}
