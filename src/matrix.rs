use vstd::prelude::*;
use vstd::slice::slice_subrange;

use crate::error::ShapeError;

verus! {

/// A row-major rectangular store: `nrows * ncols` values of one type.
pub struct Matrix<T> {
    vec: Vec<T>,
    ncols: usize,
}

/// Row `i` of values laid out in rows of `ncols` columns.
pub open spec fn row_of<T>(values: Seq<T>, ncols: nat, i: int) -> Seq<T> {
    values.subrange(i * ncols, (i + 1) * ncols)
}

/// Rows of `ncols` columns tile the values exactly: there are
/// `values.len() / ncols` of them, row `i` is the slice
/// `values[i * ncols .. (i + 1) * ncols]`, and every value is found in its
/// row at its column.
pub proof fn lemma_rows_tile_values<T>(values: Seq<T>, ncols: nat)
    requires
        ncols > 0,
        values.len() % ncols == 0,
    ensures
        (values.len() / ncols) * ncols == values.len(),
        forall|i: int|
            0 <= i < values.len() / ncols ==> (#[trigger] row_of(values, ncols, i)).len() == ncols
                && row_of(values, ncols, i) == values.subrange(i * ncols, (i + 1) * ncols),
        forall|k: int|
            0 <= k < values.len() ==> #[trigger] values[k] == row_of(values, ncols, k / ncols as int)[k
                % ncols as int],
{
    let len = values.len() as int;
    let n = ncols as int;
    let h = len / n;
    vstd::arithmetic::div_mod::lemma_fundamental_div_mod(len, n);
    assert(h * n == len) by (nonlinear_arith)
        requires
            len == n * h + len % n,
            len % n == 0,
    ;
    assert forall|i: int| 0 <= i < h implies (#[trigger] row_of(values, ncols, i)).len() == ncols by {
        assert(0 <= i * n && i * n + n <= h * n) by (nonlinear_arith)
            requires
                0 <= i < h,
                n > 0,
        ;
        assert((i + 1) * n == i * n + n) by (nonlinear_arith);
    }
    assert forall|k: int| 0 <= k < len implies #[trigger] values[k] == row_of(
        values,
        ncols,
        k / ncols as int,
    )[k % ncols as int] by {
        let q = k / n;
        let r = k % n;
        vstd::arithmetic::div_mod::lemma_fundamental_div_mod(k, n);
        vstd::arithmetic::div_mod::lemma_mod_bound(k, n);
        assert(0 <= q < h) by (nonlinear_arith)
            requires
                k == n * q + r,
                0 <= r < n,
                0 <= k < len,
                h * n == len,
                n > 0,
        ;
        assert(0 <= q * n && q * n + n <= h * n) by (nonlinear_arith)
            requires
                0 <= q < h,
                n > 0,
        ;
        assert((q + 1) * n == q * n + n) by (nonlinear_arith);
        assert(q * n + r == k) by (nonlinear_arith)
            requires
                k == n * q + r,
        ;
    }
}

impl<T> Matrix<T> {
    #[verifier::type_invariant]
    spec fn inv(&self) -> bool {
        &&& self.ncols > 0
        &&& self.vec@.len() % (self.ncols as nat) == 0
    }

    /// All values, row after row.
    pub closed spec fn view(&self) -> Seq<T> {
        self.vec@
    }

    /// The number of columns.
    pub closed spec fn width(&self) -> nat {
        self.ncols as nat
    }

    /// The number of rows.
    pub open spec fn height(&self) -> nat {
        if self.width() == 0 {
            0
        } else {
            self.view().len() / self.width()
        }
    }

    /// Row `i` as a sequence of `width()` values.
    pub open spec fn row_view(&self, i: int) -> Seq<T> {
        row_of(self.view(), self.width(), i)
    }

    /// Lays `vec` out in rows of `ncols` columns; fails unless `ncols` is
    /// positive and divides the number of values.
    pub fn new(vec: Vec<T>, ncols: usize) -> (r: Result<Matrix<T>, ShapeError>)
        ensures
            ncols > 0 && vec@.len() % (ncols as nat) == 0 <==> r is Ok,
            r matches Ok(m) ==> m.view() == vec@ && m.width() == ncols,
            r matches Err(e) ==> e == (ShapeError::NotRectangular { len: vec@.len() as usize, ncols }),
    {
        let len = vec.len();
        if ncols == 0 || len % ncols != 0 {
            Err(ShapeError::NotRectangular { len, ncols })
        } else {
            Ok(Matrix { vec, ncols })
        }
    }

    /// The number of columns.
    pub fn ncols(&self) -> (r: usize)
        ensures
            r == self.width(),
            r > 0,
            self.view().len() % (r as nat) == 0,
    {
        proof {
            use_type_invariant(self);
        }
        self.ncols
    }

    /// The number of rows.
    pub fn nrows(&self) -> (r: usize)
        ensures
            r == self.height(),
            self.width() > 0,
            r * self.width() == self.view().len(),
    {
        proof {
            use_type_invariant(self);
            let len = self.vec@.len() as int;
            let w = self.ncols as int;
            vstd::arithmetic::div_mod::lemma_fundamental_div_mod(len, w);
            assert(w * (len / w) == (len / w) * w) by (nonlinear_arith);
        }
        self.vec.len() / self.ncols
    }

    /// Row `i`, borrowed from the matrix without copying.
    pub fn row(&self, i: usize) -> (r: &[T])
        requires
            i < self.height(),
        ensures
            r@ == self.row_view(i as int),
            r@.len() == self.width(),
    {
        let n = self.nrows();
        let w = self.ncols;
        let len = self.vec.len();
        proof {
            assert(n * w == len);
            assert((i + 1) * w <= n * w) by (nonlinear_arith)
                requires
                    i < n,
            ;
            assert((i + 1) * w == i * w + w) by (nonlinear_arith);
            assert(i * w <= (i + 1) * w) by (nonlinear_arith);
        }
        slice_subrange(self.vec.as_slice(), i * w, (i + 1) * w)
    }

    /// Every row in order, each borrowed from the matrix.
    pub fn rows(&self) -> (r: Vec<&[T]>)
        ensures
            r@.len() == self.height(),
            forall|i: int| 0 <= i < r@.len() ==> (#[trigger] r@[i])@ == self.row_view(i),
    {
        let n = self.nrows();
        let mut r: Vec<&[T]> = Vec::new();
        let mut i: usize = 0;
        while i < n
            invariant
                n == self.height(),
                i <= n,
                r@.len() == i,
                forall|k: int| 0 <= k < i ==> (#[trigger] r@[k])@ == self.row_view(k),
            decreases n - i,
        {
            r.push(self.row(i));
            i += 1;
        }
        r
    }

    /// All values, row after row.
    pub fn values(&self) -> (r: &[T])
        ensures
            r@ == self.view(),
    {
        self.vec.as_slice()
    }

    /// Gives the values back, row after row.
    pub fn to_vec(self) -> (r: Vec<T>)
        ensures
            r@ == self.view(),
    {
        self.vec
    }
}

} // verus!
