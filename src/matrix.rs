use vstd::prelude::*;
use crate::error::MlError;
use crate::vector::{Vector, fits_i64};

verus! {

/// Sum of `a[i][t] * b[t][j]` over `t < k`.
pub open spec fn prod_upto(a: Seq<Seq<i64>>, b: Seq<Seq<i64>>, i: int, j: int, k: nat) -> int
    decreases k,
{
    if k == 0 {
        0
    } else {
        prod_upto(a, b, i, j, (k - 1) as nat) + a[i][k - 1] * b[k - 1][j]
    }
}

/// Term `k - 1` of entry `(i, j)` of the product, and the sum of the first
/// `k` terms, are values of `i64`.
pub open spec fn term_fits(a: Seq<Seq<i64>>, b: Seq<Seq<i64>>, i: int, j: int, k: int) -> bool {
    fits_i64(a[i][k - 1] * b[k - 1][j]) && fits_i64(prod_upto(a, b, i, j, k as nat))
}

/// Every term and every partial sum of entry `(i, j)` of the product, over
/// an inner dimension `n`, is a value of `i64`.
pub open spec fn entry_fits(a: Seq<Seq<i64>>, b: Seq<Seq<i64>>, i: int, j: int, n: nat) -> bool {
    forall|k: int| 1 <= k <= n ==> #[trigger] term_fits(a, b, i, j, k)
}

/// Every entry of the product of an `r` by `n` and an `n` by `c` matrix fits.
pub open spec fn product_fits(a: Seq<Seq<i64>>, b: Seq<Seq<i64>>, r: nat, n: nat, c: nat) -> bool {
    forall|i: int, j: int| 0 <= i < r && 0 <= j < c ==> #[trigger] entry_fits(a, b, i, j, n)
}

/// True when every row of `rows` has the length of the first.
pub open spec fn is_rectangular(rows: Seq<Seq<i64>>) -> bool {
    forall|i: int| 0 <= i < rows.len() ==> #[trigger] rows[i].len() == rows[0].len()
}

/// A rectangular grid of integers, stored row by row.
#[derive(Clone, Debug)]
pub struct Matrix {
    rows: usize,
    cols: usize,
    data: Vec<Vec<i64>>,
}

impl View for Matrix {
    type V = Seq<Seq<i64>>;

    closed spec fn view(&self) -> Seq<Seq<i64>> {
        self.data@.map_values(|r: Vec<i64>| r@)
    }
}

impl Matrix {
    /// The number of rows.
    pub closed spec fn n_rows(&self) -> nat {
        self.rows as nat
    }

    /// The number of columns.
    pub closed spec fn n_cols(&self) -> nat {
        self.cols as nat
    }

    /// Every row has `n_cols` entries and there are `n_rows` rows.
    pub closed spec fn wf(&self) -> bool {
        &&& self.data@.len() == self.rows
        &&& forall|i: int| 0 <= i < self.rows ==> #[trigger] self.data@[i]@.len() == self.cols
    }

    /// A matrix with the given rows; they must all have one length.
    pub fn new_from_vec(rows: Vec<Vec<i64>>) -> (r: Result<Matrix, MlError>)
        ensures
            !is_rectangular(rows@.map_values(|v: Vec<i64>| v@))
                ==> r == Err::<Matrix, MlError>(MlError::RaggedInput),
            is_rectangular(rows@.map_values(|v: Vec<i64>| v@)) ==> r is Ok && r->Ok_0.wf()
                && r->Ok_0@ == rows@.map_values(|v: Vec<i64>| v@)
                && r->Ok_0.n_rows() == rows@.len()
                && r->Ok_0.n_cols() == (if rows@.len() == 0 { 0 } else { rows@[0]@.len() }),
    {
        let ghost view = rows@.map_values(|v: Vec<i64>| v@);
        let n = rows.len();
        let cols: usize = if n == 0 { 0 } else { rows[0].len() };
        let mut i: usize = 0;
        while i < n
            invariant
                i <= n,
                n == rows@.len(),
                view == rows@.map_values(|v: Vec<i64>| v@),
                n > 0 ==> cols == rows@[0]@.len(),
                forall|k: int| 0 <= k < i ==> #[trigger] rows@[k]@.len() == cols,
            decreases n - i,
        {
            if rows[i].len() != cols {
                assert(view[i as int].len() != view[0].len());
                return Err(MlError::RaggedInput);
            }
            i = i + 1;
        }
        let r = Matrix { rows: n, cols, data: rows };
        assert(is_rectangular(view)) by {
            assert forall|k: int| 0 <= k < view.len() implies #[trigger] view[k].len() == view[0].len() by {
                assert(rows@[k]@.len() == cols);
            }
        }
        Ok(r)
    }

    /// A `rows` by `cols` matrix with every entry `fill`.
    pub fn new_from_dims(rows: usize, cols: usize, fill: i64) -> (r: Matrix)
        ensures
            r.wf(),
            r.n_rows() == rows,
            r.n_cols() == cols,
            forall|i: int, j: int| 0 <= i < rows && 0 <= j < cols ==> #[trigger] r@[i][j] == fill,
    {
        let mut data: Vec<Vec<i64>> = Vec::with_capacity(rows);
        let mut i: usize = 0;
        while i < rows
            invariant
                i <= rows,
                data@.len() == i,
                forall|k: int| 0 <= k < i ==> #[trigger] data@[k]@ == Seq::new(cols as nat, |c: int| fill),
            decreases rows - i,
        {
            let row = Vector::new_from_dims(cols, fill);
            data.push(row.as_vec());
            i = i + 1;
        }
        Matrix { rows, cols, data }
    }

    /// `(rows, cols)`.
    pub fn dims(&self) -> (r: (usize, usize))
        ensures
            r.0 == self.n_rows(),
            r.1 == self.n_cols(),
    {
        (self.rows, self.cols)
    }

    /// The entry at row `i`, column `j`.
    pub fn get(&self, i: usize, j: usize) -> (r: Result<i64, MlError>)
        requires
            self.wf(),
        ensures
            i < self.n_rows() && j < self.n_cols() ==> r == Ok::<i64, MlError>(self@[i as int][j as int]),
            !(i < self.n_rows() && j < self.n_cols()) ==> r == Err::<i64, MlError>(MlError::IndexOutOfRange),
    {
        if i < self.rows && j < self.cols {
            Ok(self.data[i][j])
        } else {
            Err(MlError::IndexOutOfRange)
        }
    }

    /// Replaces the entry at row `i`, column `j` by `value`.
    pub fn set(&mut self, i: usize, j: usize, value: i64) -> (r: Result<(), MlError>)
        requires
            old(self).wf(),
        ensures
            final(self).wf(),
            final(self).n_rows() == old(self).n_rows(),
            final(self).n_cols() == old(self).n_cols(),
            i < old(self).n_rows() && j < old(self).n_cols() ==> r is Ok
                && final(self)@ == old(self)@.update(i as int, old(self)@[i as int].update(j as int, value)),
            !(i < old(self).n_rows() && j < old(self).n_cols())
                ==> r == Err::<(), MlError>(MlError::IndexOutOfRange) && final(self)@ == old(self)@,
    {
        if i < self.rows && j < self.cols {
            let mut row: Vec<i64> = self.data[i].clone();
            assert(row@ == old(self).data@[i as int]@);
            row.set(j, value);
            self.data.set(i, row);
            assert(self@ =~= old(self)@.update(i as int, old(self)@[i as int].update(j as int, value)));
            Ok(())
        } else {
            Err(MlError::IndexOutOfRange)
        }
    }

    /// Row `i` as a vector.
    pub fn row(&self, i: usize) -> (r: Result<Vector, MlError>)
        requires
            self.wf(),
        ensures
            i < self.n_rows() ==> r is Ok && r->Ok_0@ == self@[i as int],
            i >= self.n_rows() ==> r == Err::<Vector, MlError>(MlError::IndexOutOfRange),
    {
        if i < self.rows {
            Ok(Vector::new_from_vec(self.data[i].clone()))
        } else {
            Err(MlError::IndexOutOfRange)
        }
    }

    /// Elementwise sum of two matrices of one shape.
    pub fn add(&self, other: &Matrix) -> (r: Result<Matrix, MlError>)
        requires
            self.wf(),
            other.wf(),
        ensures
            (self.n_rows() != other.n_rows() || self.n_cols() != other.n_cols())
                ==> r == Err::<Matrix, MlError>(MlError::DimensionMismatch),
            self.n_rows() == other.n_rows() && self.n_cols() == other.n_cols() && !sums_fit(self@, other@)
                ==> r == Err::<Matrix, MlError>(MlError::Overflow),
            self.n_rows() == other.n_rows() && self.n_cols() == other.n_cols() && sums_fit(self@, other@)
                ==> r is Ok && r->Ok_0.wf() && r->Ok_0.n_rows() == self.n_rows()
                && r->Ok_0.n_cols() == self.n_cols()
                && forall|i: int, j: int| 0 <= i < self.n_rows() && 0 <= j < self.n_cols()
                    ==> #[trigger] r->Ok_0@[i][j] == self@[i][j] + other@[i][j],
    {
        if self.rows != other.rows || self.cols != other.cols {
            return Err(MlError::DimensionMismatch);
        }
        let mut data: Vec<Vec<i64>> = Vec::with_capacity(self.rows);
        let mut i: usize = 0;
        while i < self.rows
            invariant
                self.wf(),
                other.wf(),
                self.rows == other.rows,
                self.cols == other.cols,
                i <= self.rows,
                data@.len() == i,
                forall|k: int| 0 <= k < i ==> #[trigger] data@[k]@.len() == self.cols,
                forall|k: int, c: int| 0 <= k < i && 0 <= c < self.cols
                    ==> #[trigger] data@[k]@[c] == self@[k][c] + other@[k][c],
            decreases self.rows - i,
        {
            let a = Vector::new_from_vec(self.data[i].clone());
            let b = Vector::new_from_vec(other.data[i].clone());
            match a.add(&b) {
                Ok(s) => data.push(s.as_vec()),
                Err(e) => {
                    proof {
                        let c = choose|c: int| 0 <= c < a@.len() && !#[trigger] fits_i64(
                            crate::vector::seq_add(a@, b@)[c]);
                        assert(!fits_i64(self@[i as int][c] + other@[i as int][c]));
                    }
                    return Err(MlError::Overflow);
                },
            }
            i = i + 1;
        }
        assert(sums_fit(self@, other@)) by {
            assert forall|k: int, c: int| 0 <= k < self.rows && 0 <= c < self.cols
                implies #[trigger] fits_i64(self@[k][c] + other@[k][c]) by {
                assert(data@[k]@[c] == self@[k][c] + other@[k][c]);
            }
        }
        Ok(Matrix { rows: self.rows, cols: self.cols, data })
    }
    /// Entry `(i, j)` of the product of `self` and `other`.
    fn product_entry(&self, other: &Matrix, i: usize, j: usize) -> (r: Option<i64>)
        requires
            self.wf(),
            other.wf(),
            self.cols == other.rows,
            i < self.rows,
            j < other.cols,
        ensures
            entry_fits(self@, other@, i as int, j as int, self.n_cols()) <==> r is Some,
            r is Some ==> r->Some_0 == prod_upto(self@, other@, i as int, j as int, self.n_cols()),
    {
        let mut acc: i64 = 0;
        let mut t: usize = 0;
        while t < self.cols
            invariant
                self.wf(),
                other.wf(),
                self.cols == other.rows,
                i < self.rows,
                j < other.cols,
                t <= self.cols,
                acc == prod_upto(self@, other@, i as int, j as int, t as nat),
                forall|k: int| 1 <= k <= t ==> #[trigger] term_fits(self@, other@, i as int, j as int, k),
            decreases self.cols - t,
        {
            let x = self.data[i][t];
            let y = other.data[t][j];
            assert(self@[i as int] == self.data@[i as int]@);
            assert(other@[t as int] == other.data@[t as int]@);
            assert(x * y == self@[i as int][t as int] * other@[t as int][j as int]);
            match x.checked_mul(y) {
                Some(p) => match acc.checked_add(p) {
                    Some(s) => {
                        acc = s;
                        assert(term_fits(self@, other@, i as int, j as int, t + 1));
                    },
                    None => {
                        assert(!term_fits(self@, other@, i as int, j as int, t + 1));
                        return None;
                    },
                },
                None => {
                    assert(!term_fits(self@, other@, i as int, j as int, t + 1));
                    return None;
                },
            }
            t = t + 1;
        }
        Some(acc)
    }

    /// The matrix product of `self` and `other`.
    pub fn mul(&self, other: &Matrix) -> (r: Result<Matrix, MlError>)
        requires
            self.wf(),
            other.wf(),
        ensures
            self.n_cols() != other.n_rows() ==> r == Err::<Matrix, MlError>(MlError::DimensionMismatch),
            self.n_cols() == other.n_rows()
                && !product_fits(self@, other@, self.n_rows(), self.n_cols(), other.n_cols())
                ==> r == Err::<Matrix, MlError>(MlError::Overflow),
            self.n_cols() == other.n_rows()
                && product_fits(self@, other@, self.n_rows(), self.n_cols(), other.n_cols())
                ==> r is Ok && r->Ok_0.wf() && r->Ok_0.n_rows() == self.n_rows()
                && r->Ok_0.n_cols() == other.n_cols()
                && forall|i: int, j: int| 0 <= i < self.n_rows() && 0 <= j < other.n_cols()
                    ==> #[trigger] r->Ok_0@[i][j] == prod_upto(self@, other@, i, j, self.n_cols()),
    {
        if self.cols != other.rows {
            return Err(MlError::DimensionMismatch);
        }
        let mut data: Vec<Vec<i64>> = Vec::with_capacity(self.rows);
        let mut i: usize = 0;
        while i < self.rows
            invariant
                self.wf(),
                other.wf(),
                self.cols == other.rows,
                i <= self.rows,
                data@.len() == i,
                forall|k: int| 0 <= k < i ==> #[trigger] data@[k]@.len() == other.cols,
                forall|k: int, c: int| 0 <= k < i && 0 <= c < other.cols
                    ==> #[trigger] data@[k]@[c] == prod_upto(self@, other@, k, c, self.n_cols()),
                forall|k: int, c: int| 0 <= k < i && 0 <= c < other.cols
                    ==> #[trigger] entry_fits(self@, other@, k, c, self.n_cols()),
            decreases self.rows - i,
        {
            let mut row: Vec<i64> = Vec::with_capacity(other.cols);
            let mut j: usize = 0;
            while j < other.cols
                invariant
                    self.wf(),
                    other.wf(),
                    self.cols == other.rows,
                    i < self.rows,
                    j <= other.cols,
                    row@.len() == j,
                    forall|c: int| 0 <= c < j ==> #[trigger] row@[c] == prod_upto(self@, other@, i as int, c, self.n_cols()),
                    forall|c: int| 0 <= c < j ==> #[trigger] entry_fits(self@, other@, i as int, c, self.n_cols()),
                decreases other.cols - j,
            {
                match self.product_entry(other, i, j) {
                    Some(v) => row.push(v),
                    None => {
                        assert(!entry_fits(self@, other@, i as int, j as int, self.n_cols()));
                        return Err(MlError::Overflow);
                    },
                }
                j = j + 1;
            }
            data.push(row);
            i = i + 1;
        }
        Ok(Matrix { rows: self.rows, cols: other.cols, data })
    }
}

/// True when every entry of the elementwise sum is a value of `i64`.
pub open spec fn sums_fit(a: Seq<Seq<i64>>, b: Seq<Seq<i64>>) -> bool {
    forall|i: int, j: int| 0 <= i < a.len() && 0 <= j < a[i].len() ==> #[trigger] fits_i64(a[i][j] + b[i][j])
}

} // verus!
