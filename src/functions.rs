use vstd::prelude::*;

verus! {

/// `g` is a central-difference partial of `f` in coordinate `k` around the
/// point `base`: `probe` turned `base[k]` into the pair of shifted values
/// `(up, down)`, `f` was evaluated at `base` with coordinate `k` replaced by
/// each of them, and `slope` turned the two losses into `g`.
pub open spec fn central_difference<T, L, F, P, S>(
    f: F,
    probe: P,
    slope: S,
    base: Seq<T>,
    k: int,
    g: T,
) -> bool where F: Fn(&[T]) -> L, P: Fn(T) -> (T, T), S: Fn(L, L) -> T {
    exists|up: T, down: T, p1: &[T], p0: &[T], y1: L, y0: L|
        #![trigger probe.ensures((base[k],), (up, down)), f.ensures((p1,), y1), f.ensures((p0,), y0), slope.ensures((y1, y0), g)]
        {
            &&& probe.ensures((base[k],), (up, down))
            &&& p1@ == base.update(k, up)
            &&& f.ensures((p1,), y1)
            &&& p0@ == base.update(k, down)
            &&& f.ensures((p0,), y0)
            &&& slope.ensures((y1, y0), g)
        }
}

/// Estimates the gradient of `f` at the point `xs`, one coordinate at a
/// time, and writes it to `out`.
///
/// For each index `k`: the value `t = xs[k]` is saved, `probe(t)` yields
/// the shifted pair `(t + h, t - h)`, `f` is evaluated with `xs[k]` set to
/// each of them in turn, `slope(y1, y0)` (that is `(y1 - y0) / 2h`) is
/// stored in `out[k]`, and `xs[k]` is restored to `t`. Only one coordinate
/// is ever perturbed at once, and `xs` is left exactly as it was.
pub fn numerical_gradient<T, L, F, P, S>(f: &F, probe: &P, slope: &S, xs: &mut [T], out: &mut [T])
    where T: Copy, F: Fn(&[T]) -> L, P: Fn(T) -> (T, T), S: Fn(L, L) -> T,
    requires
        old(xs)@.len() == old(out)@.len(),
        forall|p: &[T]| #[trigger] f.requires((p,)),
        forall|t: T| #[trigger] probe.requires((t,)),
        forall|y1: L, y0: L| #[trigger] slope.requires((y1, y0)),
    ensures
        final(xs)@ == old(xs)@,
        final(out)@.len() == old(out)@.len(),
        forall|k: int|
            0 <= k < final(out)@.len() ==> #[trigger] central_difference(
                *f,
                *probe,
                *slope,
                old(xs)@,
                k,
                final(out)@[k],
            ),
{
    let n = xs.len();
    let mut k: usize = 0;
    while k < n
        invariant
            n == xs@.len(),
            xs@ == old(xs)@,
            out@.len() == old(out)@.len(),
            old(xs)@.len() == old(out)@.len(),
            0 <= k <= n,
            forall|p: &[T]| #[trigger] f.requires((p,)),
            forall|t: T| #[trigger] probe.requires((t,)),
            forall|y1: L, y0: L| #[trigger] slope.requires((y1, y0)),
            forall|i: int|
                0 <= i < k ==> #[trigger] central_difference(
                    *f,
                    *probe,
                    *slope,
                    old(xs)@,
                    i,
                    out@[i],
                ),
        decreases n - k,
    {
        let t = xs[k];
        let (up, down) = probe(t);
        xs[k] = up;
        let y1 = f(&*xs);
        let ghost p1 = &*xs;
        xs[k] = down;
        let y0 = f(&*xs);
        let ghost p0 = &*xs;
        let g = slope(y1, y0);
        out[k] = g;
        xs[k] = t;
        proof {
            assert(xs@ =~= old(xs)@);
            assert(central_difference(*f, *probe, *slope, old(xs)@, k as int, g)) by {
                assert(p1@ == old(xs)@.update(k as int, up));
                assert(p0@ == old(xs)@.update(k as int, down));
            }
        }
        k = k + 1;
    }
}

} // verus!
