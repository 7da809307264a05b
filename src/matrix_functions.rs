use vstd::prelude::*;

use crate::functions::{central_difference, numerical_gradient};
use crate::matrix::{flat_entry, lemma_entries_determine, lemma_flat_index, Matrix};

verus! {

/// `r` is the matrix whose row `i` is row `idx[i]` of `m`: it has one row
/// per index, the columns of `m`, and every index names a row of `m`.
pub open spec fn is_row_gather<T>(m: Matrix<T>, idx: Seq<usize>, r: Matrix<T>) -> bool {
    &&& forall|i: int| 0 <= i < idx.len() ==> idx[i] < m.rows()
    &&& r.rows() == idx.len()
    &&& r.cols() == m.cols()
    &&& r.shaped()
    &&& forall|i: int, j: int|
        0 <= i < idx.len() && 0 <= j < m.cols() ==> #[trigger] r.entry(i, j) == m.entry(
            idx[i] as int,
            j,
        )
}

/// The indices `a[b[k]]`, one for each `k`.
pub open spec fn compose_indices(a: Seq<usize>, b: Seq<usize>) -> Seq<usize> {
    Seq::new(b.len(), |k: int| a[b[k] as int])
}

/// Gathering twice is gathering once: for indices `a` into the rows of `m`
/// and `b` into `a`, gathering rows `b` of the rows `a` of `m` gives the
/// same matrix as gathering rows `a[b[k]]` of `m`.
pub proof fn lemma_pick_rows_compose<T>(m: Matrix<T>, a: Seq<usize>, b: Seq<usize>)
    requires
        forall|i: int| 0 <= i < a.len() ==> a[i] < m.rows(),
        forall|k: int| 0 <= k < b.len() ==> b[k] < a.len(),
        a.len() * m.cols() <= usize::MAX,
        b.len() * m.cols() <= usize::MAX,
    ensures
        forall|ma: Matrix<T>, mab: Matrix<T>, direct: Matrix<T>|
            #![trigger is_row_gather(m, a, ma), is_row_gather(ma, b, mab), is_row_gather(m, compose_indices(a, b), direct)]
            is_row_gather(m, a, ma) && is_row_gather(ma, b, mab) && is_row_gather(
                m,
                compose_indices(a, b),
                direct,
            ) ==> mab.rows() == direct.rows() && mab.cols() == direct.cols() && mab@ == direct@,
{
    let c = compose_indices(a, b);
    assert forall|ma: Matrix<T>, mab: Matrix<T>, direct: Matrix<T>|
        is_row_gather(m, a, ma) && is_row_gather(ma, b, mab) && is_row_gather(
            m,
            c,
            direct,
        ) implies mab.rows() == direct.rows() && mab.cols() == direct.cols() && mab@
        == direct@ by {
        assert forall|i: int, j: int|
            0 <= i < mab.rows() && 0 <= j < mab.cols() implies #[trigger] mab.entry(i, j)
            == direct.entry(i, j) by {
            assert(mab.entry(i, j) == ma.entry(b[i] as int, j));
            assert(ma.entry(b[i] as int, j) == m.entry(a[b[i] as int] as int, j));
            assert(direct.entry(i, j) == m.entry(c[i] as int, j));
        }
        lemma_entries_determine(mab, direct);
    }
}

/// Gathers rows: row `i` of the result is row `indice[i]` of `a`. Indices
/// may repeat and need not be sorted.
pub fn pick_rows<T: Copy>(a: &Matrix<T>, indice: &[usize]) -> (r: Matrix<T>)
    requires
        forall|i: int| 0 <= i < indice@.len() ==> indice@[i] < a.rows(),
        indice@.len() * a.cols() <= usize::MAX,
    ensures
        is_row_gather(*a, indice@, r),
{
    let cols = a.ncols();
    let mut data: Vec<T> = Vec::new();
    let mut i: usize = 0;
    while i < indice.len()
        invariant
            cols == a.cols(),
            0 <= i <= indice@.len(),
            indice@.len() * cols <= usize::MAX,
            forall|i: int| 0 <= i < indice@.len() ==> indice@[i] < a.rows(),
            data@.len() == i * cols,
            forall|i2: int, j2: int|
                0 <= i2 < i && 0 <= j2 < cols ==> #[trigger] flat_entry(data@, cols as int, i2, j2)
                    == a.entry(indice@[i2] as int, j2),
        decreases indice@.len() - i,
    {
        let row = indice[i];
        let mut j: usize = 0;
        while j < cols
            invariant
                cols == a.cols(),
                0 <= i < indice@.len(),
                row == indice@[i as int],
                row < a.rows(),
                0 <= j <= cols,
                data@.len() == i * cols + j,
                forall|i2: int, j2: int|
                    0 <= i2 < i && 0 <= j2 < cols ==> #[trigger] flat_entry(
                        data@,
                        cols as int,
                        i2,
                        j2,
                    ) == a.entry(indice@[i2] as int, j2),
                forall|j2: int|
                    0 <= j2 < j ==> #[trigger] flat_entry(data@, cols as int, i as int, j2)
                        == a.entry(row as int, j2),
            decreases cols - j,
        {
            let x = a.get(row, j);
            let ghost before = data@;
            data.push(x);
            proof {
                assert forall|i2: int, j2: int|
                    0 <= i2 < i && 0 <= j2 < cols implies #[trigger] flat_entry(
                        data@,
                        cols as int,
                        i2,
                        j2,
                    ) == a.entry(indice@[i2] as int, j2) by {
                    lemma_flat_index(i2, j2, i as int, cols as int);
                    assert(flat_entry(data@, cols as int, i2, j2) == flat_entry(
                        before,
                        cols as int,
                        i2,
                        j2,
                    ));
                }
                assert forall|j2: int| 0 <= j2 < j + 1 implies #[trigger] flat_entry(
                    data@,
                    cols as int,
                    i as int,
                    j2,
                ) == a.entry(row as int, j2) by {
                    if j2 < j {
                        assert(flat_entry(data@, cols as int, i as int, j2) == flat_entry(
                            before,
                            cols as int,
                            i as int,
                            j2,
                        ));
                    }
                }
            }
            j = j + 1;
        }
        proof {
            assert(i * cols + cols == (i + 1) * cols) by (nonlinear_arith);
        }
        i = i + 1;
    }
    Matrix::from_parts(indice.len(), cols, data)
}

/// Gradient estimation over every entry of a matrix, walked in row-major
/// order through its flat storage; see `numerical_gradient`.
///
/// `f` reads the perturbed matrix through its flat entries. Both matrices
/// keep their shapes, and `xs` is left exactly as it was.
pub fn numerical_gradient_ndarray<T, L, F, P, S>(
    f: &F,
    probe: &P,
    slope: &S,
    xs: &mut Matrix<T>,
    out: &mut Matrix<T>,
)
    where T: Copy, F: Fn(&[T]) -> L, P: Fn(T) -> (T, T), S: Fn(L, L) -> T,
    requires
        old(xs).rows() == old(out).rows(),
        old(xs).cols() == old(out).cols(),
        forall|p: &[T]| #[trigger] f.requires((p,)),
        forall|t: T| #[trigger] probe.requires((t,)),
        forall|y1: L, y0: L| #[trigger] slope.requires((y1, y0)),
    ensures
        final(xs)@ == old(xs)@,
        final(xs).rows() == old(xs).rows(),
        final(xs).cols() == old(xs).cols(),
        final(out).rows() == old(out).rows(),
        final(out).cols() == old(out).cols(),
        final(out)@.len() == old(out)@.len(),
        forall|k: int|
            0 <= k < final(out)@.len() ==> #[trigger] central_difference(
                *f,
                *probe,
                *slope,
                old(xs)@,
                k,
                final(out)@[k],
            ),
{
    let mut x = Matrix::empty();
    let mut g = Matrix::empty();
    std::mem::swap(xs, &mut x);
    std::mem::swap(out, &mut g);
    let (rows, cols, mut x_data) = x.into_parts();
    let (g_rows, g_cols, mut g_data) = g.into_parts();
    numerical_gradient(f, probe, slope, x_data.as_mut_slice(), g_data.as_mut_slice());
    *xs = Matrix::from_parts(rows, cols, x_data);
    *out = Matrix::from_parts(g_rows, g_cols, g_data);
}

} // verus!
