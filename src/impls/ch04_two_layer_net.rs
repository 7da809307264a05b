use vstd::prelude::*;

use crate::functions::central_difference;
use crate::matrix::Matrix;
use crate::matrix_functions::numerical_gradient_ndarray;

verus! {

/// One of the four parameter arrays of the two-layer network.
#[derive(Clone, Copy, Debug, PartialEq, Eq, Structural)]
pub enum Param {
    W1,
    B1,
    W2,
    B2,
}

/// The parameter block of the two-layer network: the weights and biases of
/// both layers, each beside the gradient array of the same shape.
pub struct TwoLayerParams<T> {
    pub w1: Matrix<T>,
    pub b1: Matrix<T>,
    pub w2: Matrix<T>,
    pub b2: Matrix<T>,
    pub grad_w1: Matrix<T>,
    pub grad_b1: Matrix<T>,
    pub grad_w2: Matrix<T>,
    pub grad_b2: Matrix<T>,
}

/// `a` and `b` have one shape and the same entries.
pub open spec fn same_matrix<T>(a: Matrix<T>, b: Matrix<T>) -> bool {
    a.rows() == b.rows() && a.cols() == b.cols() && a@ == b@
}

/// `a` and `b` have one shape.
pub open spec fn same_shape<T>(a: Matrix<T>, b: Matrix<T>) -> bool {
    a.rows() == b.rows() && a.cols() == b.cols()
}

impl<T> TwoLayerParams<T> {
    /// The parameter array `which`.
    pub open spec fn param(&self, which: Param) -> Matrix<T> {
        match which {
            Param::W1 => self.w1,
            Param::B1 => self.b1,
            Param::W2 => self.w2,
            Param::B2 => self.b2,
        }
    }

    /// The gradient array of `which`.
    pub open spec fn grad(&self, which: Param) -> Matrix<T> {
        match which {
            Param::W1 => self.grad_w1,
            Param::B1 => self.grad_b1,
            Param::W2 => self.grad_w2,
            Param::B2 => self.grad_b2,
        }
    }

    /// Every parameter array has the shape of its gradient array.
    pub open spec fn shape_paired(&self) -> bool {
        &&& same_shape(self.w1, self.grad_w1)
        &&& same_shape(self.b1, self.grad_b1)
        &&& same_shape(self.w2, self.grad_w2)
        &&& same_shape(self.b2, self.grad_b2)
    }
}

/// `n` holds the parameter arrays of `held`, but for `which`, which it may
/// lack.
pub open spec fn holds_others<T>(n: TwoLayerParams<T>, held: TwoLayerParams<T>, which: Param) -> bool {
    &&& which != Param::W1 ==> same_matrix(n.w1, held.w1)
    &&& which != Param::B1 ==> same_matrix(n.b1, held.b1)
    &&& which != Param::W2 ==> same_matrix(n.w2, held.w2)
    &&& which != Param::B2 ==> same_matrix(n.b2, held.b2)
}

/// `g` is a central-difference partial in coordinate `k` of the array
/// `which`, around its entries `base`: `probe` turned `base[k]` into
/// `(up, down)`, `loss` was evaluated with array `which` read as `base`
/// with coordinate `k` replaced by each of them, on a block that holds the
/// other three arrays of `held`, and `slope` turned the two losses into `g`.
pub open spec fn partial_of<T, L, F, P, S>(
    loss: F,
    probe: P,
    slope: S,
    held: TwoLayerParams<T>,
    which: Param,
    base: Seq<T>,
    k: int,
    g: T,
) -> bool where
    F: Fn(&TwoLayerParams<T>, Param, &[T]) -> L,
    P: Fn(T) -> (T, T),
    S: Fn(L, L) -> T,
 {
    exists|n: &TwoLayerParams<T>, up: T, down: T, p1: &[T], p0: &[T], y1: L, y0: L|
        #![trigger probe.ensures((base[k],), (up, down)), loss.ensures((n, which, p1), y1), loss.ensures((n, which, p0), y0), slope.ensures((y1, y0), g)]
        {
            &&& holds_others(*n, held, which)
            &&& probe.ensures((base[k],), (up, down))
            &&& p1@ == base.update(k, up)
            &&& loss.ensures((n, which, p1), y1)
            &&& p0@ == base.update(k, down)
            &&& loss.ensures((n, which, p0), y0)
            &&& slope.ensures((y1, y0), g)
        }
}

/// After `estimate_param`, or `num_gradient`, of `old`: the gradient of
/// `which` in `new` is filled with its central-difference partials.
pub open spec fn gradient_filled<T, L, F, P, S>(
    loss: F,
    probe: P,
    slope: S,
    old: TwoLayerParams<T>,
    new: TwoLayerParams<T>,
    which: Param,
) -> bool where
    F: Fn(&TwoLayerParams<T>, Param, &[T]) -> L,
    P: Fn(T) -> (T, T),
    S: Fn(L, L) -> T,
 {
    &&& same_shape(new.grad(which), old.grad(which))
    &&& new.grad(which)@.len() == old.param(which)@.len()
    &&& forall|k: int|
        0 <= k < old.param(which)@.len() ==> #[trigger] partial_of(
            loss,
            probe,
            slope,
            old,
            which,
            old.param(which)@,
            k,
            new.grad(which)@[k],
        )
}

/// A filled gradient stays filled: against any block with the same
/// parameter arrays and the same gradient shape, and in any later block
/// that keeps that gradient array.
proof fn lemma_filled_carries<T, L, F, P, S>(
    loss: F,
    probe: P,
    slope: S,
    a: TwoLayerParams<T>,
    b: TwoLayerParams<T>,
    n1: TwoLayerParams<T>,
    n2: TwoLayerParams<T>,
    which: Param,
) where
    F: Fn(&TwoLayerParams<T>, Param, &[T]) -> L,
    P: Fn(T) -> (T, T),
    S: Fn(L, L) -> T,

    requires
        forall|w: Param| same_matrix(#[trigger] a.param(w), b.param(w)),
        same_shape(a.grad(which), b.grad(which)),
        same_matrix(n1.grad(which), n2.grad(which)),
        gradient_filled(loss, probe, slope, a, n1, which),
    ensures
        gradient_filled(loss, probe, slope, b, n2, which),
{
    assert(same_matrix(a.param(which), b.param(which)));
    assert(same_matrix(a.w1, b.w1) && same_matrix(a.b1, b.b1)) by {
        assert(same_matrix(a.param(Param::W1), b.param(Param::W1)));
        assert(same_matrix(a.param(Param::B1), b.param(Param::B1)));
    }
    assert(same_matrix(a.w2, b.w2) && same_matrix(a.b2, b.b2)) by {
        assert(same_matrix(a.param(Param::W2), b.param(Param::W2)));
        assert(same_matrix(a.param(Param::B2), b.param(Param::B2)));
    }
    let base = a.param(which)@;
    assert forall|k: int| 0 <= k < b.param(which)@.len() implies #[trigger] partial_of(
        loss,
        probe,
        slope,
        b,
        which,
        b.param(which)@,
        k,
        n2.grad(which)@[k],
    ) by {
        let g = n1.grad(which)@[k];
        assert(partial_of(loss, probe, slope, a, which, base, k, g));
        let (n, up, down, p1, p0, y1, y0) = choose|
            n: &TwoLayerParams<T>,
            up: T,
            down: T,
            p1: &[T],
            p0: &[T],
            y1: L,
            y0: L,
        |
            {
                &&& holds_others(*n, a, which)
                &&& probe.ensures((base[k],), (up, down))
                &&& p1@ == base.update(k, up)
                &&& loss.ensures((n, which, p1), y1)
                &&& p0@ == base.update(k, down)
                &&& loss.ensures((n, which, p0), y0)
                &&& slope.ensures((y1, y0), g)
            };
        assert(holds_others(*n, b, which));
    }
}

/// Estimates the gradient of parameter array `which` alone, writing it to
/// its gradient array; see `num_gradient`.
fn estimate_param<T, L, F, P, S>(
    net: &mut TwoLayerParams<T>,
    which: Param,
    loss: &F,
    probe: &P,
    slope: &S,
) where
    T: Copy,
    F: Fn(&TwoLayerParams<T>, Param, &[T]) -> L,
    P: Fn(T) -> (T, T),
    S: Fn(L, L) -> T,

    requires
        same_shape(old(net).param(which), old(net).grad(which)),
        forall|n: &TwoLayerParams<T>, w: Param, p: &[T]| #[trigger] loss.requires((n, w, p)),
        forall|t: T| #[trigger] probe.requires((t,)),
        forall|y1: L, y0: L| #[trigger] slope.requires((y1, y0)),
    ensures
        forall|w: Param| same_matrix(#[trigger] final(net).param(w), old(net).param(w)),
        forall|w: Param| w != which ==> same_matrix(#[trigger] final(net).grad(w), old(net).grad(w)),
        gradient_filled(*loss, *probe, *slope, *old(net), *final(net), which),
{
    let mut theta = Matrix::empty();
    let mut grad = Matrix::empty();
    match which {
        Param::W1 => {
            std::mem::swap(&mut net.w1, &mut theta);
            std::mem::swap(&mut net.grad_w1, &mut grad);
        },
        Param::B1 => {
            std::mem::swap(&mut net.b1, &mut theta);
            std::mem::swap(&mut net.grad_b1, &mut grad);
        },
        Param::W2 => {
            std::mem::swap(&mut net.w2, &mut theta);
            std::mem::swap(&mut net.grad_w2, &mut grad);
        },
        Param::B2 => {
            std::mem::swap(&mut net.b2, &mut theta);
            std::mem::swap(&mut net.grad_b2, &mut grad);
        },
    }
    theta.shape_holds();
    grad.shape_holds();
    let ghost theta0 = theta;
    {
        let held: &TwoLayerParams<T> = &*net;
        let f = |p: &[T]| -> (y: L)
            ensures
                loss.ensures((held, which, p), y),
            { loss(held, which, p) };
        numerical_gradient_ndarray(&f, probe, slope, &mut theta, &mut grad);
        proof {
            assert forall|k: int| 0 <= k < theta0@.len() implies #[trigger] partial_of(
                *loss,
                *probe,
                *slope,
                *old(net),
                which,
                theta0@,
                k,
                grad@[k],
            ) by {
                assert(central_difference(f, *probe, *slope, theta0@, k, grad@[k]));
                let (up, down, p1, p0, y1, y0) = choose|
                    up: T,
                    down: T,
                    p1: &[T],
                    p0: &[T],
                    y1: L,
                    y0: L,
                |
                    {
                        &&& probe.ensures((theta0@[k],), (up, down))
                        &&& p1@ == theta0@.update(k, up)
                        &&& f.ensures((p1,), y1)
                        &&& p0@ == theta0@.update(k, down)
                        &&& f.ensures((p0,), y0)
                        &&& slope.ensures((y1, y0), grad@[k])
                    };
                assert(loss.ensures((held, which, p1), y1));
                assert(loss.ensures((held, which, p0), y0));
                assert(holds_others(*held, *old(net), which));
            }
        }
    }
    match which {
        Param::W1 => {
            net.w1 = theta;
            net.grad_w1 = grad;
        },
        Param::B1 => {
            net.b1 = theta;
            net.grad_b1 = grad;
        },
        Param::W2 => {
            net.w2 = theta;
            net.grad_w2 = grad;
        },
        Param::B2 => {
            net.b2 = theta;
            net.grad_b2 = grad;
        },
    }
}

/// The gradient step of the two-layer network: for each of `W1`, `b1`,
/// `W2` and `b2` in turn, estimates every partial of the loss by central
/// differences and writes it to the matching gradient array.
///
/// `loss(n, which, p)` evaluates the loss on the block `n` with array
/// `which` read from `p`; while one array is perturbed, the other three are
/// held at their current values. Every parameter array is left exactly as
/// it was, and each array stays paired in shape with its gradient.
pub fn num_gradient<T, L, F, P, S>(net: &mut TwoLayerParams<T>, loss: &F, probe: &P, slope: &S) where
    T: Copy,
    F: Fn(&TwoLayerParams<T>, Param, &[T]) -> L,
    P: Fn(T) -> (T, T),
    S: Fn(L, L) -> T,

    requires
        old(net).shape_paired(),
        forall|n: &TwoLayerParams<T>, w: Param, p: &[T]| #[trigger] loss.requires((n, w, p)),
        forall|t: T| #[trigger] probe.requires((t,)),
        forall|y1: L, y0: L| #[trigger] slope.requires((y1, y0)),
    ensures
        forall|w: Param| same_matrix(#[trigger] final(net).param(w), old(net).param(w)),
        final(net).shape_paired(),
        gradient_filled(*loss, *probe, *slope, *old(net), *final(net), Param::W1),
        gradient_filled(*loss, *probe, *slope, *old(net), *final(net), Param::B1),
        gradient_filled(*loss, *probe, *slope, *old(net), *final(net), Param::W2),
        gradient_filled(*loss, *probe, *slope, *old(net), *final(net), Param::B2),
{
    let ghost s0 = *net;
    proof {
        assert(same_shape(s0.param(Param::W1), s0.grad(Param::W1)));
        assert(same_shape(s0.param(Param::B1), s0.grad(Param::B1)));
        assert(same_shape(s0.param(Param::W2), s0.grad(Param::W2)));
        assert(same_shape(s0.param(Param::B2), s0.grad(Param::B2)));
    }
    estimate_param(net, Param::W1, loss, probe, slope);
    let ghost s1 = *net;
    estimate_param(net, Param::B1, loss, probe, slope);
    let ghost s2 = *net;
    estimate_param(net, Param::W2, loss, probe, slope);
    let ghost s3 = *net;
    estimate_param(net, Param::B2, loss, probe, slope);
    proof {
        let s4 = *net;
        assert forall|w: Param| same_matrix(#[trigger] s4.param(w), s0.param(w)) by {
            assert(same_matrix(s1.param(w), s0.param(w)));
            assert(same_matrix(s2.param(w), s1.param(w)));
            assert(same_matrix(s3.param(w), s2.param(w)));
            assert(same_matrix(s4.param(w), s3.param(w)));
        }
        assert forall|w: Param| same_matrix(#[trigger] s1.param(w), s0.param(w)) by {}
        assert forall|w: Param| same_matrix(#[trigger] s2.param(w), s0.param(w)) by {
            assert(same_matrix(s1.param(w), s0.param(w)));
        }
        assert forall|w: Param| same_matrix(#[trigger] s3.param(w), s0.param(w)) by {
            assert(same_matrix(s1.param(w), s0.param(w)));
            assert(same_matrix(s2.param(w), s1.param(w)));
        }
        // W1: filled in the first step, kept by the other three.
        assert(same_matrix(s2.grad(Param::W1), s1.grad(Param::W1)));
        assert(same_matrix(s3.grad(Param::W1), s2.grad(Param::W1)));
        assert(same_matrix(s4.grad(Param::W1), s3.grad(Param::W1)));
        lemma_filled_carries(*loss, *probe, *slope, s0, s0, s1, s4, Param::W1);
        // B1: filled in the second step, against the block after the first.
        assert(same_matrix(s1.grad(Param::B1), s0.grad(Param::B1)));
        assert(same_matrix(s3.grad(Param::B1), s2.grad(Param::B1)));
        assert(same_matrix(s4.grad(Param::B1), s3.grad(Param::B1)));
        lemma_filled_carries(*loss, *probe, *slope, s1, s0, s2, s4, Param::B1);
        // W2: filled in the third step.
        assert(same_matrix(s1.grad(Param::W2), s0.grad(Param::W2)));
        assert(same_matrix(s2.grad(Param::W2), s1.grad(Param::W2)));
        assert(same_matrix(s4.grad(Param::W2), s3.grad(Param::W2)));
        lemma_filled_carries(*loss, *probe, *slope, s2, s0, s3, s4, Param::W2);
        // B2: filled in the last step.
        assert(same_matrix(s1.grad(Param::B2), s0.grad(Param::B2)));
        assert(same_matrix(s2.grad(Param::B2), s1.grad(Param::B2)));
        assert(same_matrix(s3.grad(Param::B2), s2.grad(Param::B2)));
        lemma_filled_carries(*loss, *probe, *slope, s3, s0, s4, s4, Param::B2);
        assert(same_matrix(s4.param(Param::W1), s0.param(Param::W1)));
        assert(same_matrix(s4.param(Param::B1), s0.param(Param::B1)));
        assert(same_matrix(s4.param(Param::W2), s0.param(Param::W2)));
        assert(same_matrix(s4.param(Param::B2), s0.param(Param::B2)));
    }
}

} // verus!
