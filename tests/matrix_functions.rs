use deeplearning::functions::numerical_gradient;
use deeplearning::matrix::Matrix;
use deeplearning::matrix_functions::{numerical_gradient_ndarray, pick_rows};

fn matrix<T>(rows: usize, cols: usize, data: Vec<T>) -> Matrix<T> {
    Matrix::from_shape_vec(rows, cols, data).unwrap()
}

#[test]
fn test_pick_rows() {
    let b = matrix(4, 3, vec![1, 2, 3, 4, 5, 6, 7, 8, 9, 10, 11, 12]);
    let r = pick_rows(&b, &[0, 2]);
    assert_eq!(r.nrows(), 2);
    assert_eq!(r.ncols(), 3);
    assert_eq!(r.as_slice(), &[1, 2, 3, 7, 8, 9]);
}

#[test]
fn pick_rows_repeats_and_reorders() {
    let b = matrix(3, 2, vec![1, 2, 3, 4, 5, 6]);
    let r = pick_rows(&b, &[2, 0, 2]);
    assert_eq!(r.into_vec(), vec![5, 6, 1, 2, 5, 6]);
}

#[test]
fn pick_rows_of_nothing() {
    let b = matrix(3, 2, vec![1, 2, 3, 4, 5, 6]);
    let r = pick_rows(&b, &[]);
    assert_eq!(r.nrows(), 0);
    assert_eq!(r.ncols(), 2);
    assert!(r.as_slice().is_empty());
}

#[test]
fn pick_rows_twice_is_pick_rows_once() {
    let m = matrix(4, 3, (0..12).collect());
    let a = [3usize, 1, 1, 0];
    let b = [2usize, 0, 3];
    let twice = pick_rows(&pick_rows(&m, &a), &b);
    let composed: Vec<usize> = b.iter().map(|&k| a[k]).collect();
    let once = pick_rows(&m, &composed);
    assert_eq!(twice.nrows(), once.nrows());
    assert_eq!(twice.ncols(), once.ncols());
    assert_eq!(twice.as_slice(), once.as_slice());
    assert_eq!(once.as_slice(), &[3, 4, 5, 9, 10, 11, 0, 1, 2]);
}

#[test]
fn from_shape_vec_checks_the_length() {
    assert!(Matrix::from_shape_vec(2, 3, vec![0; 5]).is_none());
    assert!(Matrix::from_shape_vec(2, 3, vec![0; 7]).is_none());
    let m = Matrix::from_shape_vec(2, 3, vec![1, 2, 3, 4, 5, 6]).unwrap();
    assert_eq!(m.get(1, 0), 4);
    assert_eq!(m.get(0, 2), 3);
    assert!(Matrix::from_shape_vec(usize::MAX, 2, Vec::<u8>::new()).is_none());
}

#[test]
fn numerical_gradient_over_a_matrix() {
    const H: f64 = 1e-4;
    // f(W) = sum of w * (k + 1) over the flat entries: gradient k + 1.
    let f = |p: &[f64]| -> f64 { p.iter().enumerate().map(|(k, w)| w * (k as f64 + 1.0)).sum() };
    let probe = |t: f64| (t + H, t - H);
    let slope = |y1: f64, y0: f64| (y1 - y0) / (2.0 * H);
    let mut w = matrix(2, 3, vec![0.5, -1.0, 2.0, 0.0, 3.25, -7.5]);
    let before = w.as_slice().to_vec();
    let mut g = matrix(2, 3, vec![0.0; 6]);
    numerical_gradient_ndarray(&f, &probe, &slope, &mut w, &mut g);
    assert_eq!(w.nrows(), 2);
    assert_eq!(w.ncols(), 3);
    assert_eq!(g.nrows(), 2);
    assert_eq!(g.ncols(), 3);
    for (a, b) in w.as_slice().iter().zip(before.iter()) {
        assert_eq!(a.to_bits(), b.to_bits());
    }
    for (k, d) in g.as_slice().iter().enumerate() {
        assert!((d - (k as f64 + 1.0)).abs() < 1e-8, "partial {} was {}", k, d);
    }
}

#[test]
fn numerical_gradient_of_an_empty_point() {
    let f = |_p: &[f64]| -> f64 { 1.0 };
    let probe = |t: f64| (t + 1.0, t - 1.0);
    let slope = |y1: f64, y0: f64| y1 - y0;
    let mut xs: Vec<f64> = vec![];
    let mut out: Vec<f64> = vec![];
    numerical_gradient(&f, &probe, &slope, &mut xs, &mut out);
    assert!(xs.is_empty() && out.is_empty());
}
