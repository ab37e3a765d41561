use violajones::util::{compute_area, Rectangle};
use violajones::Matrix;

fn canonical_integral() -> Matrix {
    // Integral img from [1, 2, 3, 4, 5, 6, 7, 8, 9, 10, 11, 12, 13, 14, 15, 16]
    let inp: Vec<i64> = vec![
        0, 0, 0, 0, 0, 0, 1, 3, 6, 10, 0, 6, 14, 24, 36, 0, 15, 33, 54, 78, 0, 28, 60, 96, 136,
    ];
    Matrix::new(inp, 5, 5).expect("Failed to transform input array into matrix")
}

#[test]
fn areas_computed_correctly() {
    let img = canonical_integral();

    assert!(compute_area(&img, &Rectangle::new((2, 2), (2, 2))) == 0);
    assert!(compute_area(&img, &Rectangle::new((0, 0), (2, 2))) == 14);
    assert!(compute_area(&img, &Rectangle::new((0, 0), (4, 4))) == 136);
    assert!(compute_area(&img, &Rectangle::new((1, 1), (4, 4))) == 99);
    assert!(compute_area(&img, &Rectangle::new((1, 1), (2, 2))) == 6);
    assert!(compute_area(&img, &Rectangle::new((1, 1), (3, 3))) == 34);
}

#[test]
fn degenerate_rectangles_have_no_area() {
    let img = canonical_integral();
    assert_eq!(compute_area(&img, &Rectangle::new((0, 1), (4, 1))), 0);
    assert_eq!(compute_area(&img, &Rectangle::new((3, 0), (3, 4))), 0);
}
