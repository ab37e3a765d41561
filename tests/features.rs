use violajones::features::{HaarFeature, HaarFeatureType};
use violajones::preprocess::compute_integral_image;
use violajones::Matrix;

fn ones(rows: usize, cols: usize) -> Vec<Vec<i64>> {
    vec![vec![1i64; cols]; rows]
}

fn matrix(rows: &Vec<Vec<i64>>) -> Matrix {
    Matrix::from_rows(rows).expect("Failed to transform rows into matrix")
}

#[test]
fn two_vert_evaluates_correctly() {
    let two_vert1 = HaarFeature::new(HaarFeatureType::TwoVertical, 1, 1, 0, 2);
    let two_vert2 = HaarFeature::new(HaarFeatureType::TwoVertical, 2, 2, 0, 0);

    let m1 = compute_integral_image(&matrix(&ones(4, 4)));
    assert!(two_vert1.evaluate(&m1) == 0);
    assert!(two_vert2.evaluate(&m1) == 0);

    let mut m2 = ones(4, 4);
    for y in 2..4 {
        for x in 0..4 {
            m2[y][x] = -1;
        }
    }
    let m2 = compute_integral_image(&matrix(&m2));
    assert!(two_vert1.evaluate(&m2) == 0);
    assert!(two_vert2.evaluate(&m2) == 8);
}

#[test]
fn two_horiz_evaluates_correctly() {
    let two_horiz1 = HaarFeature::new(HaarFeatureType::TwoHorizontal, 1, 1, 2, 2);
    let two_horiz2 = HaarFeature::new(HaarFeatureType::TwoHorizontal, 2, 2, 0, 0);
    let two_horiz3 = HaarFeature::new(HaarFeatureType::TwoHorizontal, 1, 1, 1, 0);

    let m1 = compute_integral_image(&matrix(&ones(4, 4)));
    assert!(two_horiz1.evaluate(&m1) == 0);
    assert!(two_horiz2.evaluate(&m1) == 0);
    assert!(two_horiz3.evaluate(&m1) == 0);

    let mut m2 = ones(4, 4);
    for y in 0..4 {
        for x in 2..4 {
            m2[y][x] = -1;
        }
    }

    let m2 = compute_integral_image(&matrix(&m2));
    assert!(two_horiz1.evaluate(&m2) == 0);
    assert!(two_horiz2.evaluate(&m2) == -8);
    assert!(two_horiz3.evaluate(&m2) == -2);
}

#[test]
fn three_horiz_evaluates_correctly() {
    let three_horiz1 = HaarFeature::new(HaarFeatureType::ThreeHorizontal, 1, 1, 1, 1);
    let three_horiz2 = HaarFeature::new(HaarFeatureType::ThreeHorizontal, 1, 1, 0, 0);
    let three_horiz3 = HaarFeature::new(HaarFeatureType::ThreeHorizontal, 2, 1, 0, 0);
    let three_horiz4 = HaarFeature::new(HaarFeatureType::ThreeHorizontal, 1, 2, 0, 0);
    let three_horiz5 = HaarFeature::new(HaarFeatureType::ThreeHorizontal, 2, 2, 0, 3);

    let m1 = compute_integral_image(&matrix(&ones(4, 4)));
    assert!(three_horiz1.evaluate(&m1) == -1);
    assert!(three_horiz2.evaluate(&m1) == -1);

    let mut m2 = ones(6, 6);
    for y in 0..6 {
        for x in 3..6 {
            m2[y][x] = -1;
        }
    }

    let m2 = compute_integral_image(&matrix(&m2));
    assert!(three_horiz1.evaluate(&m2) == 1);
    assert!(three_horiz2.evaluate(&m2) == -1);
    assert!(three_horiz3.evaluate(&m2) == 0);
    assert!(three_horiz4.evaluate(&m2) == -2);
    assert!(three_horiz5.evaluate(&m2) == 0);
}

#[test]
fn two_by_two_evaluates_correctly() {
    let two_by_two1 = HaarFeature::new(HaarFeatureType::TwoByTwo, 1, 1, 1, 1);
    let two_by_two2 = HaarFeature::new(HaarFeatureType::TwoByTwo, 1, 1, 0, 0);
    let two_by_two3 = HaarFeature::new(HaarFeatureType::TwoByTwo, 2, 1, 0, 0);
    let two_by_two4 = HaarFeature::new(HaarFeatureType::TwoByTwo, 1, 2, 0, 0);
    let two_by_two5 = HaarFeature::new(HaarFeatureType::TwoByTwo, 2, 2, 2, 2);

    let m1 = compute_integral_image(&matrix(&ones(4, 4)));
    assert!(two_by_two1.evaluate(&m1) == 0);
    assert!(two_by_two2.evaluate(&m1) == 0);

    let mut m2 = ones(6, 6);
    for y in 0..6 {
        for x in 3..6 {
            m2[y][x] = -1;
        }
    }

    let m2 = compute_integral_image(&matrix(&m2));
    assert!(two_by_two1.evaluate(&m2) == 0);
    assert!(two_by_two2.evaluate(&m2) == 0);
    assert!(two_by_two3.evaluate(&m2) == 0);
    assert!(two_by_two4.evaluate(&m2) == 0);
    assert!(two_by_two5.evaluate(&m2) == 0);
}

#[test]
fn uniform_image_gives_no_contrast_on_every_catalog_feature() {
    let img = vec![vec![7i64; 6]; 6];
    let integral = compute_integral_image(&matrix(&img));
    let catalog = violajones::features::init_haar_features(1, 1, 6, 6).unwrap();
    assert!(!catalog.is_empty());
    for f in &catalog {
        let v = f.evaluate(&integral);
        match f.feature_type {
            HaarFeatureType::ThreeHorizontal => assert_eq!(v, -7 * (f.w * f.h) as i64),
            _ => assert_eq!(v, 0),
        }
    }
}

#[test]
fn vertical_split_gives_band_contrast() {
    let (a, b) = (5i64, 2i64);
    let mut img = vec![vec![a; 4]; 6];
    for y in 3..6 {
        for x in 0..4 {
            img[y][x] = b;
        }
    }
    let integral = compute_integral_image(&matrix(&img));
    let on_split = HaarFeature::new(HaarFeatureType::TwoVertical, 2, 3, 1, 0);
    assert_eq!(on_split.evaluate(&integral), (a - b) * 2 * 3);
    let on_split_small = HaarFeature::new(HaarFeatureType::TwoVertical, 3, 1, 0, 2);
    assert_eq!(on_split_small.evaluate(&integral), (a - b) * 3);
    let above = HaarFeature::new(HaarFeatureType::TwoVertical, 4, 1, 0, 0);
    assert_eq!(above.evaluate(&integral), 0);
    let below = HaarFeature::new(HaarFeatureType::TwoVertical, 2, 1, 1, 3);
    assert_eq!(below.evaluate(&integral), 0);
}

#[test]
fn catalog_lists_each_placement_once_in_order() {
    let catalog = violajones::features::init_haar_features(1, 1, 2, 2).unwrap();
    let expected = vec![
        HaarFeature::new(HaarFeatureType::TwoHorizontal, 1, 1, 0, 0),
        HaarFeature::new(HaarFeatureType::TwoVertical, 1, 1, 0, 0),
        HaarFeature::new(HaarFeatureType::TwoByTwo, 1, 1, 0, 0),
        HaarFeature::new(HaarFeatureType::TwoHorizontal, 1, 1, 0, 1),
        HaarFeature::new(HaarFeatureType::TwoVertical, 1, 1, 1, 0),
        HaarFeature::new(HaarFeatureType::TwoHorizontal, 1, 2, 0, 0),
        HaarFeature::new(HaarFeatureType::TwoVertical, 2, 1, 0, 0),
    ];
    assert_eq!(catalog, expected);
    assert_eq!(
        violajones::features::init_haar_features(3, 1, 2, 2),
        Err(violajones::features::CatalogError::InvertedBounds)
    );
    assert_eq!(
        violajones::features::init_haar_features(1, 3, 2, 2),
        Err(violajones::features::CatalogError::InvertedBounds)
    );
    assert_eq!(violajones::features::init_haar_features(2, 2, 2, 2).unwrap(), vec![]);
}

#[test]
fn rectangles_of_each_shape() {
    let f = HaarFeature::new(HaarFeatureType::TwoByTwo, 2, 3, 1, 4);
    let rects = f.to_rectangles();
    assert_eq!(rects.len(), 4);
    assert_eq!((rects[3].0.xmin, rects[3].0.ymin, rects[3].0.xmax, rects[3].0.ymax), (3, 7, 5, 10));
    let t = HaarFeature::new(HaarFeatureType::ThreeHorizontal, 1, 1, 0, 0).to_rectangles();
    assert_eq!(t.len(), 3);
    assert_eq!(t[2].0.xmin, 2);
}
