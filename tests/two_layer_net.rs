use deeplearning::impls::ch04_two_layer_net::{num_gradient, Param, TwoLayerParams};
use deeplearning::matrix::Matrix;

const H: f64 = 1e-4;

fn matrix(rows: usize, cols: usize, data: Vec<f64>) -> Matrix<f64> {
    Matrix::from_shape_vec(rows, cols, data).unwrap()
}

fn block() -> TwoLayerParams<f64> {
    TwoLayerParams {
        w1: matrix(2, 3, vec![-0.25, 1.4, 1.5, 0.72, 0.97, -0.041]),
        b1: matrix(1, 3, vec![0.0, 0.1, 0.2]),
        w2: matrix(3, 2, vec![1.0, 0.0, 0.0, 1.0, 0.5, 0.5]),
        b2: matrix(1, 2, vec![0.3, -0.3]),
        grad_w1: matrix(2, 3, vec![0.0; 6]),
        grad_b1: matrix(1, 3, vec![0.0; 3]),
        grad_w2: matrix(3, 2, vec![0.0; 6]),
        grad_b2: matrix(1, 2, vec![0.0; 2]),
    }
}

fn array<'a>(n: &'a TwoLayerParams<f64>, which: Param, p: &'a [f64], w: Param) -> &'a [f64] {
    if which == w {
        p
    } else {
        match w {
            Param::W1 => n.w1.as_slice(),
            Param::B1 => n.b1.as_slice(),
            Param::W2 => n.w2.as_slice(),
            Param::B2 => n.b2.as_slice(),
        }
    }
}

/// Σ x² over W1, plus 2 Σ x over b1, plus Σ x³ over W2, plus 5 Σ x over b2.
fn loss(n: &TwoLayerParams<f64>, which: Param, p: &[f64]) -> f64 {
    let w1: f64 = array(n, which, p, Param::W1).iter().map(|x| x * x).sum();
    let b1: f64 = array(n, which, p, Param::B1).iter().map(|x| 2.0 * x).sum();
    let w2: f64 = array(n, which, p, Param::W2).iter().map(|x| x * x * x).sum();
    let b2: f64 = array(n, which, p, Param::B2).iter().map(|x| 5.0 * x).sum();
    w1 + b1 + w2 + b2
}

fn probe(t: f64) -> (f64, f64) {
    (t + H, t - H)
}

fn slope(y1: f64, y0: f64) -> f64 {
    (y1 - y0) / (2.0 * H)
}

fn close(got: &[f64], want: &[f64]) {
    assert_eq!(got.len(), want.len());
    for (g, w) in got.iter().zip(want.iter()) {
        assert!((g - w).abs() < 1e-6, "got {:?}, want {:?}", got, want);
    }
}

#[test]
fn num_gradient_fills_all_four_gradients() {
    let mut net = block();
    let before = block();
    num_gradient(&mut net, &loss, &probe, &slope);
    let twice: Vec<f64> = before.w1.as_slice().iter().map(|x| 2.0 * x).collect();
    close(net.grad_w1.as_slice(), &twice);
    close(net.grad_b1.as_slice(), &[2.0; 3]);
    let cubed: Vec<f64> = before.w2.as_slice().iter().map(|x| 3.0 * x * x).collect();
    close(net.grad_w2.as_slice(), &cubed);
    close(net.grad_b2.as_slice(), &[5.0; 2]);
}

#[test]
fn num_gradient_leaves_the_parameters_as_they_were() {
    let mut net = block();
    let before = block();
    num_gradient(&mut net, &loss, &probe, &slope);
    for (a, b) in [
        (&net.w1, &before.w1),
        (&net.b1, &before.b1),
        (&net.w2, &before.w2),
        (&net.b2, &before.b2),
    ] {
        assert_eq!((a.nrows(), a.ncols()), (b.nrows(), b.ncols()));
        let bits = |m: &Matrix<f64>| m.as_slice().iter().map(|x| x.to_bits()).collect::<Vec<u64>>();
        assert_eq!(bits(a), bits(b));
    }
    assert_eq!((net.grad_w1.nrows(), net.grad_w1.ncols()), (2, 3));
    assert_eq!((net.grad_b2.nrows(), net.grad_b2.ncols()), (1, 2));
}

#[test]
fn num_gradient_holds_the_other_arrays() {
    let reference = block();
    let checked = |n: &TwoLayerParams<f64>, which: Param, p: &[f64]| -> f64 {
        for w in [Param::W1, Param::B1, Param::W2, Param::B2] {
            if w != which {
                assert_eq!(array(n, which, p, w), array(&reference, which, p, w));
            }
        }
        loss(n, which, p)
    };
    let mut net = block();
    num_gradient(&mut net, &checked, &probe, &slope);
    close(net.grad_b1.as_slice(), &[2.0; 3]);
}
