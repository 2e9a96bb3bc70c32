//! Dense matrices and the basic operations on them.
use vstd::prelude::*;
use crate::scalar::Scalar;
use crate::algebra::{adjoint, identity, mat_add, mat_conj, mat_mul, mat_scale, sum, zero_mat};

verus! {

/// Whether a matrix is read as it stands or as its entry-wise conjugate.
#[derive(Clone, Copy, Debug, PartialEq, Eq, Structural)]
pub enum Conj {
    Yes,
    No,
}

/// `a` with its columns `j` and `k` exchanged.
pub open spec fn swapped_cols<T>(a: Seq<Seq<T>>, j: int, k: int) -> Seq<Seq<T>> {
    Seq::new(a.len(), |r: int| a[r].update(j, a[r][k]).update(k, a[r][j]))
}

/// A dense `nrows × ncols` matrix, stored by rows.
#[derive(Clone, Debug, PartialEq)]
pub struct Mat<T> {
    nrows: usize,
    ncols: usize,
    data: Vec<Vec<T>>,
}

/// A matrix together with the information whether it is to be read
/// conjugated: `as_ref` gives the matrix itself, `conjugate` its conjugate.
#[derive(Clone, Copy, Debug)]
pub struct MatRef<'a, T> {
    pub mat: &'a Mat<T>,
    pub conj: Conj,
}

impl<T> Mat<T> {
    /// Every row holds `ncols` entries.
    pub closed spec fn wf(&self) -> bool {
        &&& self.data@.len() == self.nrows
        &&& forall|i: int| 0 <= i < self.nrows ==> #[trigger] self.data@[i]@.len() == self.ncols
    }

    /// The number of rows.
    pub closed spec fn rows(&self) -> nat {
        self.nrows as nat
    }

    /// The number of columns.
    pub closed spec fn cols(&self) -> nat {
        self.ncols as nat
    }

    /// The entry in row `i` and column `j`.
    pub closed spec fn entry(&self, i: int, j: int) -> T {
        self.data@[i]@[j]
    }

    pub fn nrows(&self) -> (r: usize)
        ensures
            r == self.rows(),
    {
        self.nrows
    }

    pub fn ncols(&self) -> (r: usize)
        ensures
            r == self.cols(),
    {
        self.ncols
    }

    /// The matrix as it stands.
    pub fn as_ref(&self) -> (r: MatRef<'_, T>)
        ensures
            r.mat == self,
            r.conj == Conj::No,
    {
        MatRef { mat: self, conj: Conj::No }
    }

    /// The matrix, to be read conjugated.
    pub fn conjugate(&self) -> (r: MatRef<'_, T>)
        ensures
            r.mat == self,
            r.conj == Conj::Yes,
    {
        MatRef { mat: self, conj: Conj::Yes }
    }
}

impl<T> View for Mat<T> {
    type V = Seq<Seq<T>>;

    open spec fn view(&self) -> Seq<Seq<T>> {
        Seq::new(self.rows(), |i: int| Seq::new(self.cols(), |j: int| self.entry(i, j)))
    }
}

impl<T: Copy> Mat<T> {
    /// The entry in row `i` and column `j`.
    pub fn read(&self, i: usize, j: usize) -> (r: T)
        requires
            self.wf(),
            i < self.rows(),
            j < self.cols(),
        ensures
            r == self@[i as int][j as int],
    {
        self.data[i][j]
    }

    /// Overwrites the entry in row `i` and column `j`.
    pub fn write(&mut self, i: usize, j: usize, v: T)
        requires
            old(self).wf(),
            i < old(self).rows(),
            j < old(self).cols(),
        ensures
            final(self).wf(),
            final(self).rows() == old(self).rows(),
            final(self).cols() == old(self).cols(),
            final(self)@ == old(self)@.update(
                i as int,
                old(self)@[i as int].update(j as int, v),
            ),
    {
        self.data[i].set(j, v);
        proof {
            assert(self@ =~= old(self)@.update(i as int, old(self)@[i as int].update(j as int, v)))
                by {
                assert forall|r: int| 0 <= r < self.rows() implies #[trigger] self@[r]
                    =~= old(self)@.update(i as int, old(self)@[i as int].update(j as int, v))[r] by {
                }
            }
        }
    }

    /// The matrix with the rows `rows`, each of which has `ncols` entries;
    /// `None` where a row has another length.
    pub fn from_rows(ncols: usize, rows: Vec<Vec<T>>) -> (r: Option<Mat<T>>)
        ensures
            r is Some <==> forall|i: int| 0 <= i < rows@.len() ==> #[trigger] rows@[i]@.len()
                == ncols,
            r matches Some(m) ==> {
                &&& m.wf()
                &&& m.rows() == rows@.len()
                &&& m.cols() == ncols
                &&& m@ == rows@.map_values(|row: Vec<T>| row@)
            },
    {
        let n = rows.len();
        let mut i: usize = 0;
        while i < n
            invariant
                n == rows@.len(),
                i <= n,
                forall|k: int| 0 <= k < i ==> #[trigger] rows@[k]@.len() == ncols,
            decreases n - i,
        {
            if rows[i].len() != ncols {
                return None;
            }
            i += 1;
        }
        let m = Mat { nrows: n, ncols, data: rows };
        proof {
            assert forall|k: int| 0 <= k < n implies #[trigger] m@[k] =~= rows@.map_values(
                |row: Vec<T>| row@,
            )[k] by {}
            assert(m@ =~= rows@.map_values(|row: Vec<T>| row@));
        }
        Some(m)
    }

    /// The rows of the matrix.
    pub fn to_rows(&self) -> (r: Vec<Vec<T>>)
        requires
            self.wf(),
        ensures
            r@.len() == self.rows(),
            forall|i: int| 0 <= i < self.rows() ==> #[trigger] r@[i]@ == self@[i],
    {
        let mut out: Vec<Vec<T>> = Vec::new();
        let mut i: usize = 0;
        while i < self.nrows
            invariant
                i <= self.rows(),
                out@.len() == i,
                self.data@.len() == self.nrows,
                forall|k: int| 0 <= k < self.nrows ==> #[trigger] self.data@[k]@.len() == self.ncols,
                forall|k: int| 0 <= k < i ==> #[trigger] out@[k]@ == self@[k],
            decreases self.nrows - i,
        {
            let mut row: Vec<T> = Vec::new();
            let mut j: usize = 0;
            while j < self.ncols
                invariant
                    i < self.rows(),
                    j <= self.cols(),
                    row@.len() == j,
                    self.data@.len() == self.nrows,
                    forall|k: int| 0 <= k < self.nrows ==> #[trigger] self.data@[k]@.len() == self.ncols,
                    forall|l: int| 0 <= l < j ==> #[trigger] row@[l] == self@[i as int][l],
                decreases self.ncols - j,
            {
                row.push(self.data[i][j]);
                j += 1;
            }
            assert(row@ =~= self@[i as int]);
            out.push(row);
            i += 1;
        }
        out
    }

    /// A copy of the matrix.
    pub fn to_owned(&self) -> (r: Mat<T>)
        requires
            self.wf(),
        ensures
            r.wf(),
            r.rows() == self.rows(),
            r.cols() == self.cols(),
            r@ == self@,
    {
        let rows = self.to_rows();
        let r = Mat { nrows: self.nrows, ncols: self.ncols, data: rows };
        proof {
            assert forall|q: int| 0 <= q < self.rows() implies #[trigger] r@[q] =~= self@[q] by {}
            assert(r@ =~= self@);
        }
        r
    }

    /// Exchanges the columns `j` and `k`.
    pub fn swap_cols(&mut self, j: usize, k: usize)
        requires
            old(self).wf(),
            j < old(self).cols(),
            k < old(self).cols(),
        ensures
            final(self).wf(),
            final(self).rows() == old(self).rows(),
            final(self).cols() == old(self).cols(),
            final(self)@ == swapped_cols(old(self)@, j as int, k as int),
    {
        let ghost target = swapped_cols(old(self)@, j as int, k as int);
        let m = self.nrows;
        let mut r: usize = 0;
        while r < m
            invariant
                m == self.rows(),
                m == old(self).rows(),
                self.cols() == old(self).cols(),
                j < self.cols(),
                k < self.cols(),
                self.wf(),
                r <= m,
                target == swapped_cols(old(self)@, j as int, k as int),
                forall|q: int| 0 <= q < r ==> #[trigger] self@[q] == target[q],
                forall|q: int| r <= q < m ==> #[trigger] self@[q] == old(self)@[q],
            decreases m - r,
        {
            let x = self.data[r][j];
            let y = self.data[r][k];
            assert(self@[r as int] == old(self)@[r as int]);
            assert(x == old(self)@[r as int][j as int]);
            assert(y == old(self)@[r as int][k as int]);
            let ghost prev = self@;
            self.data[r].set(j, y);
            self.data[r].set(k, x);
            assert forall|q: int| 0 <= q < m && q != r implies #[trigger] self@[q] =~= prev[q] by {}
            assert(self@[r as int] =~= target[r as int]);
            r += 1;
        }
        assert(self@ =~= target);
    }
}

impl<T: Scalar> Mat<T> {
    /// The `nrows × ncols` zero matrix.
    pub fn zeros(nrows: usize, ncols: usize) -> (r: Mat<T>)
        ensures
            r.wf(),
            r.rows() == nrows,
            r.cols() == ncols,
            r@ == zero_mat::<T>(nrows as nat, ncols as nat),
    {
        let mut data: Vec<Vec<T>> = Vec::new();
        let mut i: usize = 0;
        while i < nrows
            invariant
                i <= nrows,
                data@.len() == i,
                forall|k: int| 0 <= k < i ==> #[trigger] data@[k]@ == Seq::new(
                    ncols as nat,
                    |j: int| T::zero_spec(),
                ),
            decreases nrows - i,
        {
            let mut row: Vec<T> = Vec::new();
            let mut j: usize = 0;
            while j < ncols
                invariant
                    j <= ncols,
                    row@.len() == j,
                    forall|l: int| 0 <= l < j ==> #[trigger] row@[l] == T::zero_spec(),
                decreases ncols - j,
            {
                row.push(T::zero());
                j += 1;
            }
            assert(row@ =~= Seq::new(ncols as nat, |j: int| T::zero_spec()));
            data.push(row);
            i += 1;
        }
        let m = Mat { nrows, ncols, data };
        proof {
            assert forall|k: int| 0 <= k < nrows implies #[trigger] m@[k] =~= zero_mat::<T>(
                nrows as nat,
                ncols as nat,
            )[k] by {}
            assert(m@ =~= zero_mat::<T>(nrows as nat, ncols as nat));
        }
        m
    }

    /// The `n × n` identity matrix.
    pub fn identity(n: usize) -> (r: Mat<T>)
        ensures
            r.wf(),
            r.rows() == n,
            r.cols() == n,
            r@ == identity::<T>(n as nat),
    {
        let mut data: Vec<Vec<T>> = Vec::new();
        let mut i: usize = 0;
        while i < n
            invariant
                i <= n,
                data@.len() == i,
                forall|k: int| 0 <= k < i ==> #[trigger] data@[k]@ == identity::<T>(n as nat)[k],
            decreases n - i,
        {
            let mut row: Vec<T> = Vec::new();
            let mut j: usize = 0;
            while j < n
                invariant
                    i < n,
                    j <= n,
                    row@.len() == j,
                    forall|l: int| 0 <= l < j ==> #[trigger] row@[l] == identity::<T>(
                        n as nat,
                    )[i as int][l],
                decreases n - j,
            {
                if i == j {
                    row.push(T::one());
                } else {
                    row.push(T::zero());
                }
                j += 1;
            }
            assert(row@ =~= identity::<T>(n as nat)[i as int]);
            data.push(row);
            i += 1;
        }
        let m = Mat { nrows: n, ncols: n, data };
        proof {
            assert forall|k: int| 0 <= k < n implies #[trigger] m@[k] =~= identity::<T>(
                n as nat,
            )[k] by {}
            assert(m@ =~= identity::<T>(n as nat));
        }
        m
    }

    /// The matrix product `self · rhs`.
    pub fn matmul(&self, rhs: &Mat<T>) -> (r: Mat<T>)
        requires
            self.wf(),
            rhs.wf(),
            self.cols() == rhs.rows(),
        ensures
            r.rows() == self.rows(),
            r.cols() == rhs.cols(),
            r.wf(),
            r@ == mat_mul(self@, rhs@, rhs.cols()),
    {
        let m = self.nrows;
        let k = self.ncols;
        let p = rhs.ncols;
        let mut data: Vec<Vec<T>> = Vec::new();
        let mut i: usize = 0;
        while i < m
            invariant
                m == self.rows(),
                k == self.cols(),
                k == rhs.rows(),
                p == rhs.cols(),
                i <= m,
                data@.len() == i,
                self.data@.len() == self.nrows,
                forall|q: int| 0 <= q < self.nrows ==> #[trigger] self.data@[q]@.len() == self.ncols,
                rhs.data@.len() == rhs.nrows,
                forall|q: int| 0 <= q < rhs.nrows ==> #[trigger] rhs.data@[q]@.len() == rhs.ncols,
                forall|q: int| 0 <= q < i ==> #[trigger] data@[q]@ == mat_mul(
                    self@,
                    rhs@,
                    p as nat,
                )[q],
            decreases m - i,
        {
            let mut row: Vec<T> = Vec::new();
            let mut j: usize = 0;
            while j < p
                invariant
                    m == self.rows(),
                    k == self.cols(),
                    k == rhs.rows(),
                    p == rhs.cols(),
                    i < m,
                    j <= p,
                    row@.len() == j,
                    self.data@.len() == self.nrows,
                    forall|q: int| 0 <= q < self.nrows ==> #[trigger] self.data@[q]@.len()
                        == self.ncols,
                    rhs.data@.len() == rhs.nrows,
                    forall|q: int| 0 <= q < rhs.nrows ==> #[trigger] rhs.data@[q]@.len()
                        == rhs.ncols,
                    forall|l: int| 0 <= l < j ==> #[trigger] row@[l] == mat_mul(
                        self@,
                        rhs@,
                        p as nat,
                    )[i as int][l],
                decreases p - j,
            {
                let ghost f = |l: int| T::mul_spec(self@[i as int][l], rhs@[l][j as int]);
                let mut acc = T::zero();
                let mut l: usize = 0;
                while l < k
                    invariant
                        m == self.rows(),
                        k == self.cols(),
                        k == rhs.rows(),
                        p == rhs.cols(),
                        i < m,
                        j < p,
                        l <= k,
                        self.data@.len() == self.nrows,
                        forall|q: int| 0 <= q < self.nrows ==> #[trigger] self.data@[q]@.len()
                            == self.ncols,
                        rhs.data@.len() == rhs.nrows,
                        forall|q: int| 0 <= q < rhs.nrows ==> #[trigger] rhs.data@[q]@.len()
                            == rhs.ncols,
                        f == (|l: int| T::mul_spec(self@[i as int][l], rhs@[l][j as int])),
                        acc == sum(f, l as nat),
                    decreases k - l,
                {
                    let prod = self.data[i][l].times(&rhs.data[l][j]);
                    acc = acc.plus(&prod);
                    l += 1;
                }
                assert(rhs@.len() == k);
                row.push(acc);
                j += 1;
            }
            assert(row@ =~= mat_mul(self@, rhs@, p as nat)[i as int]);
            data.push(row);
            i += 1;
        }
        let r = Mat { nrows: m, ncols: p, data };
        proof {
            assert forall|q: int| 0 <= q < m implies #[trigger] r@[q] =~= mat_mul(
                self@,
                rhs@,
                p as nat,
            )[q] by {}
            assert(r@ =~= mat_mul(self@, rhs@, p as nat));
        }
        r
    }

    /// `self += c · rhs`
    pub fn add_scaled(&mut self, c: T, rhs: &Mat<T>)
        requires
            old(self).wf(),
            rhs.wf(),
            rhs.rows() == old(self).rows(),
            rhs.cols() == old(self).cols(),
        ensures
            final(self).wf(),
            final(self).rows() == old(self).rows(),
            final(self).cols() == old(self).cols(),
            final(self)@ == mat_add(old(self)@, mat_scale(c, rhs@)),
    {
        let ghost target = mat_add(old(self)@, mat_scale(c, rhs@));
        let m = self.nrows;
        let p = self.ncols;
        let mut i: usize = 0;
        while i < m
            invariant
                m == self.rows(),
                p == self.cols(),
                m == old(self).rows(),
                p == old(self).cols(),
                rhs.wf(),
                rhs.rows() == m,
                rhs.cols() == p,
                self.wf(),
                i <= m,
                target == mat_add(old(self)@, mat_scale(c, rhs@)),
                forall|r: int| 0 <= r < i ==> #[trigger] self@[r] == target[r],
                forall|r: int| i <= r < m ==> #[trigger] self@[r] == old(self)@[r],
            decreases m - i,
        {
            let mut j: usize = 0;
            while j < p
                invariant
                    m == self.rows(),
                    p == self.cols(),
                    m == old(self).rows(),
                    p == old(self).cols(),
                    rhs.wf(),
                    rhs.rows() == m,
                    rhs.cols() == p,
                    self.wf(),
                    i < m,
                    j <= p,
                    target == mat_add(old(self)@, mat_scale(c, rhs@)),
                    forall|r: int| 0 <= r < i ==> #[trigger] self@[r] == target[r],
                    forall|r: int| i < r < m ==> #[trigger] self@[r] == old(self)@[r],
                    forall|q: int| 0 <= q < j ==> #[trigger] self@[i as int][q] == target[i as int][q],
                    forall|q: int| j <= q < p ==> #[trigger] self@[i as int][q] == old(self)@[i as int][q],
                decreases p - j,
            {
                let v = self.data[i][j].plus(&c.times(&rhs.data[i][j]));
                assert(self@[i as int][j as int] == old(self)@[i as int][j as int]);
                assert(v == target[i as int][j as int]);
                let ghost prev = self@;
                self.data[i].set(j, v);
                assert forall|r: int| 0 <= r < m && r != i implies #[trigger] self@[r] =~= prev[r] by {}
                assert(self@[i as int] =~= prev[i as int].update(j as int, v));
                j += 1;
            }
            assert(self@[i as int] =~= target[i as int]);
            i += 1;
        }
        assert(self@ =~= target);
    }

    /// `self += rhs`
    pub fn add_assign(&mut self, rhs: &Mat<T>)
        requires
            old(self).wf(),
            rhs.wf(),
            rhs.rows() == old(self).rows(),
            rhs.cols() == old(self).cols(),
        ensures
            final(self).wf(),
            final(self).rows() == old(self).rows(),
            final(self).cols() == old(self).cols(),
            final(self)@ == mat_add(old(self)@, rhs@),
    {
        let ghost target = mat_add(old(self)@, rhs@);
        let m = self.nrows;
        let p = self.ncols;
        let mut i: usize = 0;
        while i < m
            invariant
                m == self.rows(),
                p == self.cols(),
                m == old(self).rows(),
                p == old(self).cols(),
                rhs.wf(),
                rhs.rows() == m,
                rhs.cols() == p,
                self.wf(),
                i <= m,
                target == mat_add(old(self)@, rhs@),
                forall|r: int| 0 <= r < i ==> #[trigger] self@[r] == target[r],
                forall|r: int| i <= r < m ==> #[trigger] self@[r] == old(self)@[r],
            decreases m - i,
        {
            let mut j: usize = 0;
            while j < p
                invariant
                    m == self.rows(),
                    p == self.cols(),
                    m == old(self).rows(),
                    p == old(self).cols(),
                    rhs.wf(),
                    rhs.rows() == m,
                    rhs.cols() == p,
                    self.wf(),
                    i < m,
                    j <= p,
                    target == mat_add(old(self)@, rhs@),
                    forall|r: int| 0 <= r < i ==> #[trigger] self@[r] == target[r],
                    forall|r: int| i < r < m ==> #[trigger] self@[r] == old(self)@[r],
                    forall|q: int| 0 <= q < j ==> #[trigger] self@[i as int][q] == target[i as int][q],
                    forall|q: int| j <= q < p ==> #[trigger] self@[i as int][q] == old(self)@[i as int][q],
                decreases p - j,
            {
                let v = self.data[i][j].plus(&rhs.data[i][j]);
                assert(self@[i as int][j as int] == old(self)@[i as int][j as int]);
                assert(v == target[i as int][j as int]);
                let ghost prev = self@;
                self.data[i].set(j, v);
                assert forall|r: int| 0 <= r < m && r != i implies #[trigger] self@[r] =~= prev[r] by {}
                assert(self@[i as int] =~= prev[i as int].update(j as int, v));
                j += 1;
            }
            assert(self@[i as int] =~= target[i as int]);
            i += 1;
        }
        assert(self@ =~= target);
    }

    /// The entry-wise conjugate of the matrix.
    pub fn conjugated(&self) -> (r: Mat<T>)
        requires
            self.wf(),
        ensures
            r.wf(),
            r.rows() == self.rows(),
            r.cols() == self.cols(),
            r@ == mat_conj(self@),
    {
        let mut data: Vec<Vec<T>> = Vec::new();
        let mut i: usize = 0;
        while i < self.nrows
            invariant
                self.wf(),
                i <= self.rows(),
                data@.len() == i,
                forall|q: int| 0 <= q < i ==> #[trigger] data@[q]@ == mat_conj(self@)[q],
            decreases self.nrows - i,
        {
            let mut row: Vec<T> = Vec::new();
            let mut j: usize = 0;
            while j < self.ncols
                invariant
                    self.wf(),
                    i < self.rows(),
                    j <= self.cols(),
                    row@.len() == j,
                    forall|l: int| 0 <= l < j ==> #[trigger] row@[l] == mat_conj(self@)[i as int][l],
                decreases self.ncols - j,
            {
                row.push(self.data[i][j].conj());
                j += 1;
            }
            assert(row@ =~= mat_conj(self@)[i as int]);
            data.push(row);
            i += 1;
        }
        let r = Mat { nrows: self.nrows, ncols: self.ncols, data };
        proof {
            assert forall|q: int| 0 <= q < self.rows() implies #[trigger] r@[q] =~= mat_conj(self@)[q] by {}
            assert(r@ =~= mat_conj(self@));
        }
        r
    }

    /// The conjugate transpose of the matrix.
    pub fn adjoint(&self) -> (r: Mat<T>)
        requires
            self.wf(),
        ensures
            r.wf(),
            r.rows() == self.cols(),
            r.cols() == self.rows(),
            r@ == adjoint(self@, self.cols()),
    {
        let mut data: Vec<Vec<T>> = Vec::new();
        let mut i: usize = 0;
        while i < self.ncols
            invariant
                self.wf(),
                i <= self.cols(),
                data@.len() == i,
                forall|q: int| 0 <= q < i ==> #[trigger] data@[q]@ == adjoint(self@, self.cols())[q],
            decreases self.ncols - i,
        {
            let mut row: Vec<T> = Vec::new();
            let mut j: usize = 0;
            while j < self.nrows
                invariant
                    self.wf(),
                    i < self.cols(),
                    j <= self.rows(),
                    row@.len() == j,
                    forall|l: int| 0 <= l < j ==> #[trigger] row@[l] == adjoint(self@, self.cols())[i as int][l],
                decreases self.nrows - j,
            {
                row.push(self.data[j][i].conj());
                j += 1;
            }
            assert(row@ =~= adjoint(self@, self.cols())[i as int]);
            data.push(row);
            i += 1;
        }
        let r = Mat { nrows: self.ncols, ncols: self.nrows, data };
        proof {
            assert forall|q: int| 0 <= q < self.cols() implies #[trigger] r@[q] =~= adjoint(self@, self.cols())[q] by {}
            assert(r@ =~= adjoint(self@, self.cols()));
        }
        r
    }
}

} // verus!
