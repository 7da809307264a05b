use vstd::prelude::*;

verus! {

/// A dense two-dimensional array stored row-major in one flat vector.
///
/// The flat storage is the shape-erased view that gradient estimation walks;
/// the shape never changes after construction.
pub struct Matrix<T> {
    rows: usize,
    cols: usize,
    data: Vec<T>,
}

impl<T> View for Matrix<T> {
    type V = Seq<T>;

    /// The entries in row-major order.
    closed spec fn view(&self) -> Seq<T> {
        self.data@
    }
}

impl<T> Matrix<T> {
    #[verifier::type_invariant]
    spec fn well_formed(&self) -> bool {
        self.data@.len() == self.rows as int * self.cols as int
    }

    /// Number of rows.
    pub closed spec fn rows(&self) -> nat {
        self.rows as nat
    }

    /// Number of columns.
    pub closed spec fn cols(&self) -> nat {
        self.cols as nat
    }

    /// The entry at row `i`, column `j`.
    pub open spec fn entry(&self, i: int, j: int) -> T {
        flat_entry(self@, self.cols() as int, i, j)
    }

    /// The flat storage holds exactly `rows * cols` entries; every matrix
    /// that this module hands out satisfies it.
    pub open spec fn shaped(&self) -> bool {
        self@.len() == self.rows() * self.cols()
    }

    /// Gives a verified caller the storage fact `shaped`, which every matrix
    /// satisfies; it does no work when run.
    pub fn shape_holds(&self)
        ensures
            self.shaped(),
    {
        proof {
            use_type_invariant(self);
        }
    }

    /// Builds a `rows × cols` matrix from its entries in row-major order;
    /// `None` when the number of entries is not `rows * cols`.
    pub fn from_shape_vec(rows: usize, cols: usize, data: Vec<T>) -> (r: Option<Matrix<T>>)
        ensures
            r is Some <==> data@.len() == rows * cols,
            r matches Some(m) ==> m.rows() == rows && m.cols() == cols && m@ == data@ && m.shaped(),
    {
        let len = data.len();
        let fits = match rows.checked_mul(cols) {
            Some(n) => n == len,
            None => false,
        };
        if fits {
            Some(Matrix { rows, cols, data })
        } else {
            None
        }
    }

    /// Number of rows.
    pub fn nrows(&self) -> (r: usize)
        ensures
            r == self.rows(),
    {
        self.rows
    }

    /// Number of columns.
    pub fn ncols(&self) -> (r: usize)
        ensures
            r == self.cols(),
    {
        self.cols
    }

    /// The entries in row-major order.
    pub fn as_slice(&self) -> (r: &[T])
        ensures
            r@ == self@,
    {
        self.data.as_slice()
    }

    /// The matrix with no rows and no columns.
    pub fn empty() -> (r: Matrix<T>)
        ensures
            r.rows() == 0,
            r.cols() == 0,
            r@ == Seq::<T>::empty(),
    {
        Matrix { rows: 0, cols: 0, data: Vec::new() }
    }

    /// Splits the matrix into its row count, column count and flat storage.
    pub(crate) fn into_parts(self) -> (r: (usize, usize, Vec<T>))
        ensures
            r.0 == self.rows(),
            r.1 == self.cols(),
            r.2@ == self@,
            r.2@.len() == r.0 * r.1,
    {
        proof {
            use_type_invariant(&self);
        }
        (self.rows, self.cols, self.data)
    }

    /// Reassembles a matrix from the parts that `into_parts` gave.
    pub(crate) fn from_parts(rows: usize, cols: usize, data: Vec<T>) -> (r: Matrix<T>)
        requires
            data@.len() == rows * cols,
        ensures
            r.rows() == rows,
            r.cols() == cols,
            r@ == data@,
    {
        Matrix { rows, cols, data }
    }

    /// Gives up the matrix and returns its entries in row-major order.
    pub fn into_vec(self) -> (r: Vec<T>)
        ensures
            r@ == self@,
    {
        self.data
    }
}

impl<T: Copy> Matrix<T> {
    /// The entry at row `i`, column `j`.
    pub fn get(&self, i: usize, j: usize) -> (r: T)
        requires
            i < self.rows(),
            j < self.cols(),
        ensures
            r == self.entry(i as int, j as int),
    {
        let len = self.data.len();
        proof {
            use_type_invariant(self);
            lemma_flat_index(i as int, j as int, self.rows as int, self.cols as int);
            assert(i * self.cols + j < len);
        }
        self.data[i * self.cols + j]
    }
}

/// The entry at row `i`, column `j` of row-major storage `s` with `cols`
/// columns.
pub open spec fn flat_entry<T>(s: Seq<T>, cols: int, i: int, j: int) -> T {
    s[i * cols + j]
}

/// Row-major addressing stays inside a `rows × cols` block.
pub proof fn lemma_flat_index(i: int, j: int, rows: int, cols: int)
    requires
        0 <= i < rows,
        0 <= j < cols,
    ensures
        0 <= i * cols + j < rows * cols,
{
    assert(i * cols + j < rows * cols) by (nonlinear_arith)
        requires
            0 <= i < rows,
            0 <= j < cols,
    ;
    assert(0 <= i * cols) by (nonlinear_arith)
        requires
            0 <= i,
            0 <= j < cols,
    ;
}

/// Two matrices of one shape with the same entries have the same storage.
pub proof fn lemma_entries_determine<T>(m1: Matrix<T>, m2: Matrix<T>)
    requires
        m1.shaped(),
        m2.shaped(),
        m1.rows() == m2.rows(),
        m1.cols() == m2.cols(),
        forall|i: int, j: int|
            0 <= i < m1.rows() && 0 <= j < m1.cols() ==> #[trigger] m1.entry(i, j) == m2.entry(i, j),
    ensures
        m1@ == m2@,
{
    let cols = m1.cols() as int;
    assert forall|q: int| 0 <= q < m1@.len() implies m1@[q] == m2@[q] by {
        let i = q / cols;
        let j = q % cols;
        assert(cols > 0) by (nonlinear_arith)
            requires
                0 <= q < m1@.len(),
                m1@.len() == m1.rows() * cols,
                cols >= 0,
        ;
        vstd::arithmetic::div_mod::lemma_fundamental_div_mod(q, cols);
        vstd::arithmetic::div_mod::lemma_mod_bound(q, cols);
        vstd::arithmetic::div_mod::lemma_div_pos_is_pos(q, cols);
        assert(i < m1.rows()) by (nonlinear_arith)
            requires
                q == cols * i + j,
                0 <= j < cols,
                q < m1.rows() * cols,
                0 <= i,
        ;
        assert(q == i * cols + j) by (nonlinear_arith)
            requires
                q == cols * i + j,
        ;
        assert(m1.entry(i, j) == m2.entry(i, j));
    }
    assert(m1@ =~= m2@);
}

} // verus!
