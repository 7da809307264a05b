use std::cell::Cell;

use approx::RelativeEq;
use deeplearning::functions::numerical_gradient;

const H: f64 = 1e-4;

fn probe(t: f64) -> (f64, f64) {
    (t + H, t - H)
}

fn slope(y1: f64, y0: f64) -> f64 {
    (y1 - y0) / (2.0 * H)
}

#[test]
fn gradient_of_sum_of_squares_at_three_four() {
    let f = |p: &[f64]| -> f64 { p[0] * p[0] + p[1] * p[1] };
    let mut xs = vec![3.0, 4.0];
    let mut out = vec![0.0, 0.0];
    numerical_gradient(&f, &probe, &slope, &mut xs, &mut out);
    assert!((out[0] - 6.0).abs() <= 1e-11, "{}", out[0]);
    assert!((out[1] - 8.0).abs() <= 1e-11, "{}", out[1]);
    assert!(out[0].relative_eq(&6.0, 1e-7, 1e-7));
    assert!(out[1].relative_eq(&8.0, 1e-7, 1e-7));
}

#[test]
fn numerical_gradient_restores_every_parameter() {
    let f = |p: &[f64]| -> f64 { p.iter().map(|x| x.sin() * x.exp()).sum() };
    let start = vec![0.1, -3.7, 1e-300, 12345.678, -0.0, 0.3];
    let mut xs = start.clone();
    let mut out = vec![0.0; start.len()];
    numerical_gradient(&f, &probe, &slope, &mut xs, &mut out);
    for (a, b) in xs.iter().zip(start.iter()) {
        assert_eq!(a.to_bits(), b.to_bits());
    }
}

#[test]
fn numerical_gradient_perturbs_one_coordinate_at_a_time() {
    let calls = Cell::new(0usize);
    let base = vec![1.0, 2.0, 3.0];
    let f = |p: &[f64]| -> f64 {
        calls.set(calls.get() + 1);
        let moved = p.iter().zip(base.iter()).filter(|(a, b)| a != b).count();
        assert_eq!(moved, 1);
        p[0] + 10.0 * p[1] + 100.0 * p[2]
    };
    let mut xs = base.clone();
    let mut out = vec![0.0; 3];
    numerical_gradient(&f, &probe, &slope, &mut xs, &mut out);
    assert_eq!(calls.get(), 6);
    assert!((out[0] - 1.0).abs() < 1e-6);
    assert!((out[1] - 10.0).abs() < 1e-6);
    assert!((out[2] - 100.0).abs() < 1e-6);
}
