use violajones::preprocess::{
    compute_integral_image, crop, get_sliding_window_coords, preprocess_data, test_img_as_matrix,
    training_img_as_matrix,
};
use violajones::{Classification, Matrix};

fn shaped(v: &[i64], cols: usize) -> Matrix {
    Matrix::new(v.to_vec(), v.len() / cols, cols).expect("Failed to transform input array into matrix")
}

fn matrix(rows: Vec<Vec<i64>>) -> Matrix {
    Matrix::from_rows(&rows).expect("Failed to transform rows into matrix")
}

#[test]
fn image_averages_correctly() {
    let (w, h) = (64usize, 64usize);
    let mut raw: Vec<u8> = Vec::with_capacity(w * h * 3);
    for _ in 0..(w * h) {
        raw.extend_from_slice(&[255, 0, 0]);
    }

    let mat = training_img_as_matrix(&raw, h, w).to_rows();

    assert!(mat.len() == 64);
    assert!(mat.iter().all(|r| r.len() == 64));

    for x in 0..w {
        for y in 0..h {
            assert!(mat[y][x] == 255 / 3);
        }
    }
}

#[test]
fn integral_images_computed_correctly() {
    let inp: Vec<i64> = vec![1, 2, 3, 4, 5, 6, 7, 8, 9, 10, 11, 12, 13, 14, 15, 16];
    let exp: Vec<i64> = vec![
        0, 0, 0, 0, 0, 0, 1, 3, 6, 10, 0, 6, 14, 24, 36, 0, 15, 33, 54, 78, 0, 28, 60, 96, 136,
    ];

    let inp_mat = shaped(&inp, 4);
    let exp_mat = shaped(&exp, 5);

    let int_inp_mat = compute_integral_image(&inp_mat).to_rows();

    assert!(int_inp_mat.len() == 5 && int_inp_mat[0].len() == 5);
    assert!(int_inp_mat == exp_mat.to_rows());

    let inp: Vec<i64> = vec![
        5, 4, 3, 2, 1, 4, 3, 2, 1, 5, 3, 2, 1, 5, 4, 2, 1, 5, 4, 3, 1, 5, 4, 3, 2,
    ];
    let exp: Vec<i64> = vec![
        0, 0, 0, 0, 0, 0, 0, 5, 9, 12, 14, 15, 0, 9, 16, 21, 24, 30, 0, 12, 21, 27, 35, 45, 0,
        14, 24, 35, 47, 60, 0, 15, 30, 45, 60, 75,
    ];

    let inp_mat = shaped(&inp, 5);
    let exp_mat = shaped(&exp, 6);

    let int_inp_mat = compute_integral_image(&inp_mat).to_rows();

    assert!(int_inp_mat.len() == 6 && int_inp_mat[0].len() == 6);
    assert!(int_inp_mat == exp_mat.to_rows());
}

#[test]
fn correct_sliding_windows_computed() {
    let xmax = 10;
    let ymax = 10;
    let stride = 3;
    let window_side_len = 4;

    let mut sliding_window_result = get_sliding_window_coords(xmax, ymax, stride, window_side_len);
    sliding_window_result.sort();

    assert!(sliding_window_result.len() == 4);
}

#[test]
fn sliding_windows_are_listed_in_order() {
    let coords = get_sliding_window_coords(10, 10, 3, 4);
    assert_eq!(coords, vec![(0, 0), (0, 4), (4, 0), (4, 4)]);
    assert!(get_sliding_window_coords(4, 4, 4, 1).is_empty());
}

#[test]
fn empty_and_negative_images() {
    let integral = compute_integral_image(&Matrix::new(vec![], 0, 0).unwrap());
    assert_eq!(integral.to_rows(), vec![vec![0i64]]);
    let integral = compute_integral_image(&matrix(vec![vec![-1i64, -2], vec![3, -4]]));
    assert_eq!(integral.to_rows(), vec![vec![0, 0, 0], vec![0, -1, -3], vec![0, 2, -4]]);
}

#[test]
fn gray_bytes_and_crops() {
    let m = test_img_as_matrix(&vec![1u8, 2, 3, 4, 5, 6], 2, 3);
    assert_eq!(m.to_rows(), vec![vec![1, 2, 3], vec![4, 5, 6]]);
    let c = crop(&m, 0, 1, 2);
    assert_eq!(c.to_rows(), vec![vec![2, 3], vec![5, 6]]);
    let g = training_img_as_matrix(&vec![10u8, 20, 30, 3, 3, 3], 1, 2);
    assert_eq!(g.to_rows(), vec![vec![3 + 6 + 10, 3]]);
}

#[test]
fn data_is_labelled_faces_first() {
    let faces = vec![matrix(vec![vec![1i64]])];
    let backgrounds = vec![matrix(vec![vec![2i64]]), matrix(vec![vec![3i64]])];
    let data = preprocess_data(&faces, &backgrounds);
    assert_eq!(data.len(), 3);
    assert_eq!((data[0].0.to_rows(), data[0].1), (vec![vec![0, 0], vec![0, 1]], Classification::Face));
    assert_eq!((data[1].0.to_rows(), data[1].1), (vec![vec![0, 0], vec![0, 2]], Classification::NonFace));
    assert_eq!(data[2].1, Classification::NonFace);
}

#[test]
fn matrices_from_vectors_and_rows() {
    assert!(Matrix::new(vec![1, 2, 3], 2, 2).is_none());
    assert!(Matrix::from_rows(&vec![vec![1, 2], vec![3]]).is_none());
    let m = Matrix::new(vec![1, 2, 3, 4, 5, 6], 3, 2).unwrap();
    assert_eq!(m.to_rows(), vec![vec![1, 2], vec![3, 4], vec![5, 6]]);
    assert_eq!(Matrix::from_rows(&m.to_rows()).unwrap().to_rows(), m.to_rows());
}
