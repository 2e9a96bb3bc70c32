//! Principal Component Analysis.
use vstd::prelude::*;
use crate::scalar::Scalar;
use crate::mat::{Conj, Mat, MatRef};
use crate::algebra::{
    adjoint, identity, is_mat, lemma_mul_assoc, lemma_mul_identity_right, lemma_shapes, mat_conj,
    lemma_sum_ext, lemma_sum_mul_right, mat_mul, sum, take_cols,
};

verus! {

/// The singular value decomposition failed to converge.
#[derive(Clone, Copy, Debug, PartialEq, Eq)]
pub enum SvdError {
    NoConvergence,
}

/// A thin singular value decomposition `M = U · diag(s) · V^H` of an
/// `m × p` matrix: the `m × min(m, p)` matrix `u` of left singular vectors,
/// the singular values `s` and the `p × min(m, p)` matrix `v` of right
/// singular vectors. `Scalar` has no order, so nothing here says in which
/// order the singular values come; a decomposition of real data gives them
/// largest first.
#[derive(Debug)]
pub struct ThinSvd<T> {
    pub u: Mat<T>,
    pub s: Vec<T>,
    pub v: Mat<T>,
}

/// `svd` is a thin SVD of shape fit for the `r × c` matrix it was computed for.
pub open spec fn svd_fits<T>(svd: ThinSvd<T>, r: nat, c: nat) -> bool {
    let k = if r <= c { r } else { c };
    &&& svd.u.wf()
    &&& svd.u.rows() == r
    &&& svd.u.cols() == k
    &&& svd.v.wf()
    &&& svd.v.rows() == c
    &&& svd.v.cols() == k
    &&& svd.s@.len() == k
}

/// The square matrix with diagonal `s` and zeros elsewhere.
pub open spec fn diag<T: Scalar>(s: Seq<T>) -> Seq<Seq<T>> {
    Seq::new(
        s.len(),
        |i: int| Seq::new(s.len(), |j: int| if i == j { s[i] } else { T::zero_spec() }),
    )
}

/// `svd` decomposes `m`: the left singular vectors are orthonormal,
/// `u^H · u == I`, so are the right ones, `v^H · v == I`, the latter unitary
/// where `v` is square, `v · v^H == I`, and `m == u · diag(s) · v^H`.
pub open spec fn is_thin_svd<T: Scalar>(svd: ThinSvd<T>, m: Seq<Seq<T>>) -> bool {
    let k = svd.s@.len();
    &&& mat_mul(adjoint(svd.u@, k), svd.u@, k) == identity::<T>(k)
    &&& mat_mul(adjoint(svd.v@, k), svd.v@, k) == identity::<T>(k)
    &&& svd.v@.len() == k ==> mat_mul(svd.v@, adjoint(svd.v@, k), k) == identity::<T>(k)
    &&& m == mat_mul(mat_mul(svd.u@, diag(svd.s@), k), adjoint(svd.v@, k), svd.v@.len())
}

/// The mean of each of the `p` columns of the `n`-row matrix `a`.
pub open spec fn column_means<T: Scalar>(a: Seq<Seq<T>>, n: nat, p: nat) -> Seq<T> {
    Seq::new(p, |j: int| T::div_spec(sum(|i: int| a[i][j], n), T::from_usize_spec(n as usize)))
}

/// `a` with the row `v` subtracted from each of its rows.
pub open spec fn sub_row<T: Scalar>(a: Seq<Seq<T>>, v: Seq<T>) -> Seq<Seq<T>> {
    Seq::new(a.len(), |i: int| Seq::new(a[i].len(), |j: int| T::sub_spec(a[i][j], v[j])))
}

/// `a` with the row `v` added to each of its rows.
pub open spec fn add_row<T: Scalar>(a: Seq<Seq<T>>, v: Seq<T>) -> Seq<Seq<T>> {
    Seq::new(a.len(), |i: int| Seq::new(a[i].len(), |j: int| T::add_spec(a[i][j], v[j])))
}

/// `a` read as `conj` says.
pub open spec fn read_as<T: Scalar>(a: Seq<Seq<T>>, conj: Conj) -> Seq<Seq<T>> {
    if conj == Conj::Yes {
        mat_conj(a)
    } else {
        a
    }
}

/// The number of components kept for an `n × p` data matrix.
pub open spec fn kept_components(n_components: Option<usize>, n: nat, p: nat) -> nat {
    match n_components {
        Some(k) => k as nat,
        None => if n <= p {
            n
        } else {
            p
        },
    }
}

/// The matrix whose SVD PCA takes: the data centered by its column means,
/// conjugated where the data is read conjugated.
pub open spec fn svd_input<T: Scalar>(a: Seq<Seq<T>>, n: nat, p: nat, conj: Conj) -> Seq<Seq<T>> {
    read_as(sub_row(a, column_means(a, n, p)), conj)
}

/// The first `k` entries of the thin SVD taken as components and singular values.
pub open spec fn pca_of_svd<T: Scalar>(pca: Pca<T>, a: Seq<Seq<T>>, n: nat, p: nat, k: nat, svd: ThinSvd<T>) -> bool {
    &&& pca.wf()
    &&& pca.components_spec()@ == take_cols(svd.v@, k)
    &&& pca.components_spec().rows() == p
    &&& pca.components_spec().cols() == k
    &&& pca.singular_values_spec() == svd.s@.take(k as int)
    &&& pca.mean_spec() == column_means(a, n, p)
    &&& pca.n_samples_spec() == n
    &&& pca.total_variance_spec() == total(variances(svd.s@, n))
}

/// The projection of the data `x` onto the components of `pca`:
/// `(x - mean) · components`.
pub open spec fn transform_spec<T: Scalar>(pca: Pca<T>, x: Seq<Seq<T>>) -> Seq<Seq<T>> {
    mat_mul(sub_row(x, pca.mean_spec()), pca.components_spec()@, pca.components_spec().cols())
}

/// The reconstruction of the scores `z`: `z · components^H + mean`.
pub open spec fn inverse_transform_spec<T: Scalar>(pca: Pca<T>, z: Seq<Seq<T>>) -> Seq<Seq<T>> {
    add_row(
        mat_mul(
            z,
            adjoint(pca.components_spec()@, pca.components_spec().cols()),
            pca.components_spec().rows(),
        ),
        pca.mean_spec(),
    )
}

/// The divisor of the explained variance: `n - 1`, or `1` for `n <= 1`.
pub open spec fn variance_divisor(n: nat) -> nat {
    if n > 1 {
        (n - 1) as nat
    } else {
        1
    }
}

/// `σ_i^2 / (n - 1)` for each singular value `σ_i` of data with `n` rows.
pub open spec fn variances<T: Scalar>(s: Seq<T>, n: nat) -> Seq<T> {
    Seq::new(
        s.len(),
        |i: int| T::div_spec(T::abs2_spec(s[i]), T::from_usize_spec(variance_divisor(n) as usize)),
    )
}

/// The sum of the entries of `v`.
pub open spec fn total<T: Scalar>(v: Seq<T>) -> T {
    sum(|j: int| v[j], v.len())
}

/// The explained variance of each kept component.
pub open spec fn explained_variance_spec<T: Scalar>(pca: Pca<T>) -> Seq<T> {
    variances(pca.singular_values_spec(), pca.n_samples_spec())
}

/// Each explained variance times the reciprocal of the total variance of all
/// components, kept or not.
pub open spec fn explained_variance_ratio_spec<T: Scalar>(pca: Pca<T>) -> Seq<T> {
    let var = explained_variance_spec(pca);
    Seq::new(var.len(), |i: int| T::mul_spec(var[i], T::recip_spec(pca.total_variance_spec())))
}

/// The call of PCA on `a`, read as `conj` says, that handed `m` to the SVD
/// and got `out` back, with `r` its result.
pub open spec fn pca_run<T: Scalar, F>(
    a: Mat<T>,
    conj: Conj,
    n_components: Option<usize>,
    svd: F,
    r: Result<Pca<T>, SvdError>,
    m: Mat<T>,
    out: Result<ThinSvd<T>, SvdError>,
) -> bool where F: Fn(&Mat<T>) -> Result<ThinSvd<T>, SvdError> {
    let n = a.rows();
    let p = a.cols();
    let k = kept_components(n_components, n, p);
    &&& k <= n
    &&& k <= p
    &&& m.wf()
    &&& m@ == svd_input(a@, n, p, conj)
    &&& m.rows() == n
    &&& m.cols() == p
    &&& svd.ensures((&m,), out)
    &&& match out {
        Ok(d) => {
            &&& r matches Ok(pca)
            &&& pca_of_svd(pca, a@, n, p, k, d)
            &&& svd_fits(d, n, p)
            &&& is_thin_svd(d, m@)
        },
        Err(e) => r == Err::<Pca<T>, SvdError>(e),
    }
}

/// What PCA returns: the result of some call of the SVD on the centered data.
pub open spec fn pca_outcome<T: Scalar, F>(
    a: Mat<T>,
    conj: Conj,
    n_components: Option<usize>,
    svd: F,
    r: Result<Pca<T>, SvdError>,
) -> bool where F: Fn(&Mat<T>) -> Result<ThinSvd<T>, SvdError> {
    exists|m: Mat<T>, out: Result<ThinSvd<T>, SvdError>|
        #[trigger] pca_run(a, conj, n_components, svd, r, m, out)
}

/// `svd` answers the same matrix the same way: with the same error, or with
/// decompositions of the same entries.
pub open spec fn svd_is_deterministic<T, F>(svd: F) -> bool where
    F: Fn(&Mat<T>) -> Result<ThinSvd<T>, SvdError>,
 {
    forall|m1: Mat<T>, m2: Mat<T>, o1: Result<ThinSvd<T>, SvdError>, o2: Result<ThinSvd<T>, SvdError>|
        #![trigger svd.ensures((&m1,), o1), svd.ensures((&m2,), o2)]
        svd.ensures((&m1,), o1) && svd.ensures((&m2,), o2) && m1.rows() == m2.rows() && m1.cols()
            == m2.cols() && m1@ == m2@ ==> match (o1, o2) {
            (Ok(d1), Ok(d2)) => d1.u@ == d2.u@ && d1.s@ == d2.s@ && d1.v@ == d2.v@,
            (Err(e1), Err(e2)) => e1 == e2,
            _ => false,
        }
}

/// Principal Component Analysis (PCA) decomposition.
///
/// Given a data matrix $A$ of shape $(n, p)$ where $n$ is the number of
/// observations and $p$ is the number of features, PCA computes the principal
/// components via the thin SVD of the mean-centered data.
///
/// The data convention is **rows = observations, columns = features**.
#[derive(Clone, Debug)]
pub struct Pca<T> {
    /// Principal component directions (columns of V from SVD), shape (p, k)
    components: Mat<T>,
    /// Singular values of the centered data matrix, length k
    singular_values: Vec<T>,
    /// Feature means used for centering, length p
    mean: Vec<T>,
    /// Number of observations (n)
    n_samples: usize,
    /// Explained variance of all min(n, p) components, kept or not
    total_variance: T,
}

impl<T> Pca<T> {
    pub closed spec fn components_spec(&self) -> Mat<T> {
        self.components
    }

    pub closed spec fn singular_values_spec(&self) -> Seq<T> {
        self.singular_values@
    }

    pub closed spec fn mean_spec(&self) -> Seq<T> {
        self.mean@
    }

    pub closed spec fn n_samples_spec(&self) -> nat {
        self.n_samples as nat
    }

    pub closed spec fn total_variance_spec(&self) -> T {
        self.total_variance
    }

    /// The components are a `p × k` matrix, with `p` means and `k` singular values.
    pub open spec fn wf(&self) -> bool {
        &&& self.components_spec().wf()
        &&& self.components_spec().rows() == self.mean_spec().len()
        &&& self.components_spec().cols() == self.singular_values_spec().len()
    }
}

/// The column means of `a`.
fn column_means_of<T: Scalar>(a: &Mat<T>) -> (mean: Vec<T>)
    requires
        a.wf(),
    ensures
        mean@ == column_means(a@, a.rows(), a.cols()),
        mean@.len() == a.cols(),
        forall|j: int|
            0 <= j < a.cols() ==> #[trigger] mean@[j] == T::div_spec(
                sum(|i: int| a@[i][j], a.rows()),
                T::from_usize_spec(a.rows() as usize),
            ),
{
    let n = a.nrows();
    let p = a.ncols();
    let denom = T::from_usize(n);
    let mut mean: Vec<T> = Vec::new();
    let mut j: usize = 0;
    while j < p
        invariant
            a.wf(),
            n == a.rows(),
            p == a.cols(),
            j <= p,
            denom == T::from_usize_spec(n),
            mean@.len() == j,
            forall|q: int| 0 <= q < j ==> #[trigger] mean@[q] == column_means(a@, n as nat, p as nat)[q],
        decreases p - j,
    {
        let ghost f = |i: int| a@[i][j as int];
        let mut acc = T::zero();
        let mut i: usize = 0;
        while i < n
            invariant
                a.wf(),
                n == a.rows(),
                p == a.cols(),
                j < p,
                i <= n,
                f == (|i: int| a@[i][j as int]),
                acc == sum(f, i as nat),
            decreases n - i,
        {
            acc = acc.plus(&a.read(i, j));
            i += 1;
        }
        mean.push(acc.div(&denom));
        j += 1;
    }
    assert(mean@ =~= column_means(a@, n as nat, p as nat));
    mean
}

/// `x` read as `conj` says, with the row `mean` subtracted from each row.
fn centered<T: Scalar>(x: &Mat<T>, mean: &Vec<T>, conj: Conj) -> (r: Mat<T>)
    requires
        x.wf(),
        mean@.len() == x.cols(),
    ensures
        r.wf(),
        r.rows() == x.rows(),
        r.cols() == x.cols(),
        r@ == sub_row(read_as(x@, conj), mean@),
{
    let m = x.nrows();
    let p = x.ncols();
    let ghost target = sub_row(read_as(x@, conj), mean@);
    let mut c = Mat::<T>::zeros(m, p);
    let mut j: usize = 0;
    while j < p
        invariant
            x.wf(),
            m == x.rows(),
            p == x.cols(),
            mean@.len() == p,
            c.wf(),
            c.rows() == m,
            c.cols() == p,
            j <= p,
            target == sub_row(read_as(x@, conj), mean@),
            forall|r: int, q: int| 0 <= r < m && 0 <= q < j ==> #[trigger] c@[r][q] == target[r][q],
        decreases p - j,
    {
        let mut i: usize = 0;
        while i < m
            invariant
                x.wf(),
                m == x.rows(),
                p == x.cols(),
                mean@.len() == p,
                c.wf(),
                c.rows() == m,
                c.cols() == p,
                j < p,
                i <= m,
                target == sub_row(read_as(x@, conj), mean@),
                forall|r: int, q: int| 0 <= r < m && 0 <= q < j ==> #[trigger] c@[r][q] == target[r][q],
                forall|r: int| 0 <= r < i ==> #[trigger] c@[r][j as int] == target[r][j as int],
            decreases m - i,
        {
            let val = if conj == Conj::Yes {
                x.read(i, j).conj()
            } else {
                x.read(i, j)
            };
            c.write(i, j, val.minus(&mean[j]));
            i += 1;
        }
        j += 1;
    }
    proof {
        assert forall|r: int| 0 <= r < m implies #[trigger] c@[r] =~= target[r] by {}
        assert(c@ =~= target);
    }
    c
}

/// `σ_i^2 / (n - 1)` for each of the singular values `s` of data with `n` rows.
fn variances_of<T: Scalar>(s: &Vec<T>, n: usize) -> (var: Vec<T>)
    ensures
        var@ == variances(s@, n as nat),
{
    let denom = if n > 1 {
        T::from_usize(n - 1)
    } else {
        T::from_usize(1)
    };
    let k = s.len();
    let mut var: Vec<T> = Vec::new();
    let mut i: usize = 0;
    while i < k
        invariant
            k == s@.len(),
            i <= k,
            denom == T::from_usize_spec(variance_divisor(n as nat) as usize),
            var@.len() == i,
            forall|q: int| 0 <= q < i ==> #[trigger] var@[q] == variances(s@, n as nat)[q],
        decreases k - i,
    {
        var.push(s[i].abs2().div(&denom));
        i += 1;
    }
    assert(var@ =~= variances(s@, n as nat));
    var
}

/// The sum of the entries of `v`.
fn total_of<T: Scalar>(v: &Vec<T>) -> (t: T)
    ensures
        t == total(v@),
{
    let ghost f = |j: int| v@[j];
    let k = v.len();
    let mut t = T::zero();
    let mut i: usize = 0;
    while i < k
        invariant
            k == v@.len(),
            i <= k,
            f == (|j: int| v@[j]),
            t == sum(f, i as nat),
        decreases k - i,
    {
        t = t.plus(&v[i]);
        i += 1;
    }
    t
}

impl<T: Scalar> Pca<T> {
    /// Computes PCA on the data matrix $A$ with shape $(n, p)$.
    ///
    /// Rows are observations and columns are features.
    /// If `n_components` is `None`, all `min(n, p)` components are kept;
    /// otherwise it may not exceed `min(n, p)`.
    /// `svd` computes the thin SVD of the centered data, or fails.
    ///
    /// # Errors
    /// Returns the `SvdError` of `svd` if the SVD fails to converge.
    pub fn new<F: Fn(&Mat<T>) -> Result<ThinSvd<T>, SvdError>>(
        a: MatRef<'_, T>,
        n_components: Option<usize>,
        svd: F,
    ) -> (r: Result<Self, SvdError>)
        requires
            a.mat.wf(),
            kept_components(n_components, a.mat.rows(), a.mat.cols()) <= a.mat.rows(),
            kept_components(n_components, a.mat.rows(), a.mat.cols()) <= a.mat.cols(),
            forall|m: &Mat<T>| #[trigger] svd.requires((m,)),
            forall|m: &Mat<T>, out: Result<ThinSvd<T>, SvdError>|
                #[trigger] svd.ensures((m,), out) ==> (out matches Ok(d) ==> svd_fits(
                    d,
                    m.rows(),
                    m.cols(),
                ) && is_thin_svd(d, m@)),
        ensures
            pca_outcome(*a.mat, a.conj, n_components, svd, r),
    {
        Self::new_imp(a.mat, a.conj, n_components, svd)
    }

    fn new_imp<F: Fn(&Mat<T>) -> Result<ThinSvd<T>, SvdError>>(
        a: &Mat<T>,
        conj: Conj,
        n_components: Option<usize>,
        svd: F,
    ) -> (r: Result<Self, SvdError>)
        requires
            a.wf(),
            kept_components(n_components, a.rows(), a.cols()) <= a.rows(),
            kept_components(n_components, a.rows(), a.cols()) <= a.cols(),
            forall|m: &Mat<T>| #[trigger] svd.requires((m,)),
            forall|m: &Mat<T>, out: Result<ThinSvd<T>, SvdError>|
                #[trigger] svd.ensures((m,), out) ==> (out matches Ok(d) ==> svd_fits(
                    d,
                    m.rows(),
                    m.cols(),
                ) && is_thin_svd(d, m@)),
        ensures
            pca_outcome(*a, conj, n_components, svd, r),
    {
        let n = a.nrows();
        let p = a.ncols();
        let k_max = if n <= p { n } else { p };
        let k = match n_components {
            Some(k) => k,
            None => k_max,
        };

        // Compute feature means (mean of each column across rows)
        let mean = column_means_of(a);

        // Build mean-centered matrix
        let centered = centered(a, &mean, Conj::No);

        // Compute thin SVD of centered data
        let input = if conj == Conj::Yes {
            centered.conjugated()
        } else {
            centered
        };
        let out = svd(&input);
        let ghost out_spec = out;
        proof {
            assert(input@ == svd_input(a@, n as nat, p as nat, conj));
        }
        let d = match out {
            Ok(d) => d,
            Err(e) => {
                proof {
                    assert(pca_run(*a, conj, n_components, svd, Err(e), input, out_spec));
                }
                return Err(e);
            },
        };

        // Extract first k components
        let mut components = Mat::<T>::zeros(p, k);
        let mut singular_values: Vec<T> = Vec::new();
        let mut j: usize = 0;
        while j < k
            invariant
                j <= k,
                k <= k_max,
                k_max <= n,
                k_max <= p,
                k_max == if n <= p { n } else { p },
                svd_fits(d, n as nat, p as nat),
                components.wf(),
                components.rows() == p,
                components.cols() == k,
                singular_values@.len() == j,
                forall|r: int, q: int| 0 <= r < p && 0 <= q < j ==> #[trigger] components@[r][q] == d.v@[r][q],
                forall|q: int| 0 <= q < j ==> #[trigger] singular_values@[q] == d.s@[q],
            decreases k - j,
        {
            let mut i: usize = 0;
            while i < p
                invariant
                    j < k,
                    k <= k_max,
                    k_max <= n,
                    k_max <= p,
                    k_max == if n <= p { n } else { p },
                    i <= p,
                    svd_fits(d, n as nat, p as nat),
                    components.wf(),
                    components.rows() == p,
                    components.cols() == k,
                    forall|r: int, q: int| 0 <= r < p && 0 <= q < j ==> #[trigger] components@[r][q] == d.v@[r][q],
                    forall|r: int| 0 <= r < i ==> #[trigger] components@[r][j as int] == d.v@[r][j as int],
                decreases p - i,
            {
                components.write(i, j, d.v.read(i, j));
                i += 1;
            }
            singular_values.push(d.s[j]);
            j += 1;
        }
        // Total explained variance of all min(n, p) components
        let total_variance = total_of(&variances_of(&d.s, n));
        let pca = Pca { components, singular_values, mean, n_samples: n, total_variance };
        proof {
            assert forall|r: int| 0 <= r < p implies #[trigger] pca.components@[r] =~= take_cols(d.v@, k as nat)[r] by {}
            assert(pca.components@ =~= take_cols(d.v@, k as nat));
            assert(pca.singular_values@ =~= d.s@.take(k as int));
            assert(pca_run(*a, conj, n_components, svd, Ok(pca), input, out_spec));
        }
        Ok(pca)
    }

    /// Returns the principal component directions as columns.
    ///
    /// Shape: $(p, k)$ where $p$ is the number of features and $k$ is the
    /// number of components.
    pub fn components(&self) -> (r: &Mat<T>)
        ensures
            r == self.components_spec(),
    {
        &self.components
    }

    /// Returns the singular values of the centered data matrix.
    ///
    /// Length: $k$ (the number of components).
    pub fn singular_values(&self) -> (r: &Vec<T>)
        ensures
            r@ == self.singular_values_spec(),
    {
        &self.singular_values
    }

    /// Returns the feature means that were used for centering.
    ///
    /// Length: $p$ (the number of features).
    pub fn mean(&self) -> (r: &Vec<T>)
        ensures
            r@ == self.mean_spec(),
    {
        &self.mean
    }

    /// Returns the explained variance for each component.
    ///
    /// Computed as $\sigma_i^2 / (n - 1)$ where $\sigma_i$ are the singular
    /// values and $n$ is the number of observations.
    ///
    /// Length: $k$ (the number of components).
    pub fn explained_variance(&self) -> (r: Vec<T>)
        ensures
            r@ == explained_variance_spec(*self),
            r@.len() == self.singular_values_spec().len(),
            forall|i: int|
                0 <= i < r@.len() ==> #[trigger] r@[i] == T::div_spec(
                    T::abs2_spec(self.singular_values_spec()[i]),
                    T::from_usize_spec(
                        (if self.n_samples_spec() > 1 {
                            self.n_samples_spec() - 1
                        } else {
                            1
                        }) as usize,
                    ),
                ),
    {
        variances_of(&self.singular_values, self.n_samples)
    }

    /// Returns the ratio of variance explained by each component.
    ///
    /// Each entry is the explained variance of that component divided by the
    /// total explained variance of all `min(n, p)` components, kept or not.
    /// Values sum to 1 when all components are kept.
    ///
    /// Length: $k$ (the number of components).
    pub fn explained_variance_ratio(&self) -> (r: Vec<T>)
        ensures
            r@ == explained_variance_ratio_spec(*self),
            r@.len() == self.singular_values_spec().len(),
            forall|i: int|
                0 <= i < r@.len() ==> #[trigger] r@[i] == T::mul_spec(
                    T::div_spec(
                        T::abs2_spec(self.singular_values_spec()[i]),
                        T::from_usize_spec(
                            (if self.n_samples_spec() > 1 {
                                self.n_samples_spec() - 1
                            } else {
                                1
                            }) as usize,
                        ),
                    ),
                    T::recip_spec(self.total_variance_spec()),
                ),
    {
        let var = self.explained_variance();
        let total_inv = self.total_variance.recip();
        let k = var.len();
        let mut ratio: Vec<T> = Vec::new();
        let mut i: usize = 0;
        while i < k
            invariant
                var@ == explained_variance_spec(*self),
                k == var@.len(),
                i <= k,
                total_inv == T::recip_spec(self.total_variance_spec()),
                ratio@.len() == i,
                forall|q: int| 0 <= q < i ==> #[trigger] ratio@[q] == explained_variance_ratio_spec(*self)[q],
            decreases k - i,
        {
            ratio.push(var[i].times(&total_inv));
            i += 1;
        }
        assert(ratio@ =~= explained_variance_ratio_spec(*self));
        ratio
    }

    /// Projects data onto the principal components.
    ///
    /// Given data $X$ of shape $(m, p)$, returns the centered data projected
    /// onto the components, of shape $(m, k)$. The data must have $p$ columns.
    pub fn transform(&self, x: MatRef<'_, T>) -> (r: Mat<T>)
        requires
            self.wf(),
            x.mat.wf(),
            x.mat.cols() == self.components_spec().rows(),
        ensures
            r.wf(),
            r.rows() == x.mat.rows(),
            r.cols() == self.components_spec().cols(),
            r@ == transform_spec(*self, read_as(x.mat@, x.conj)),
    {
        self.transform_imp(x.mat, x.conj)
    }

    fn transform_imp(&self, x: &Mat<T>, conj: Conj) -> (r: Mat<T>)
        requires
            self.wf(),
            x.wf(),
            x.cols() == self.components_spec().rows(),
        ensures
            r.wf(),
            r.rows() == x.rows(),
            r.cols() == self.components_spec().cols(),
            r@ == transform_spec(*self, read_as(x@, conj)),
            conj == Conj::Yes ==> r@ == transform_spec(*self, mat_conj(x@)),
    {
        // Center the data
        let centered = centered(x, &self.mean, conj);
        proof {
            assert(read_as(x@, conj).len() == x.rows());
        }
        // Project: centered * components
        centered.matmul(&self.components)
    }

    /// Reconstructs data from the reduced representation.
    ///
    /// Given scores $Z$ of shape $(m, k)$, returns the reconstruction
    /// $Z \cdot V^H + \mu$ of shape $(m, p)$. The scores must have $k$ columns.
    pub fn inverse_transform(&self, z: MatRef<'_, T>) -> (r: Mat<T>)
        requires
            self.wf(),
            z.mat.wf(),
            z.mat.cols() == self.components_spec().cols(),
        ensures
            r.wf(),
            r.rows() == z.mat.rows(),
            r.cols() == self.components_spec().rows(),
            r@ == inverse_transform_spec(*self, read_as(z.mat@, z.conj)),
    {
        self.inverse_transform_imp(z.mat, z.conj)
    }

    fn inverse_transform_imp(&self, z: &Mat<T>, conj: Conj) -> (r: Mat<T>)
        requires
            self.wf(),
            z.wf(),
            z.cols() == self.components_spec().cols(),
        ensures
            r.wf(),
            r.rows() == z.rows(),
            r.cols() == self.components_spec().rows(),
            r@ == inverse_transform_spec(*self, read_as(z@, conj)),
    {
        let m = z.nrows();
        let p = self.components.nrows();
        let z = if conj == Conj::Yes {
            z.conjugated()
        } else {
            z.to_owned()
        };
        // Reconstruct: Z * V^H + mean
        let mut result = z.matmul(&self.components.adjoint());
        let ghost prod = result@;
        let ghost target = add_row(prod, self.mean@);
        let mut j: usize = 0;
        while j < p
            invariant
                result.wf(),
                result.rows() == m,
                result.cols() == p,
                self.mean@.len() == p,
                prod.len() == m,
                forall|r: int| 0 <= r < m ==> #[trigger] prod[r].len() == p,
                j <= p,
                target == add_row(prod, self.mean@),
                forall|r: int, q: int| 0 <= r < m && 0 <= q < p ==> #[trigger] result@[r][q] == if q < j {
                    target[r][q]
                } else {
                    prod[r][q]
                },
            decreases p - j,
        {
            let mut i: usize = 0;
            while i < m
                invariant
                    result.wf(),
                    result.rows() == m,
                    result.cols() == p,
                    self.mean@.len() == p,
                    prod.len() == m,
                    forall|r: int| 0 <= r < m ==> #[trigger] prod[r].len() == p,
                    j < p,
                    i <= m,
                    target == add_row(prod, self.mean@),
                    forall|r: int, q: int| 0 <= r < m && 0 <= q < p ==> #[trigger] result@[r][q] == if q < j || (q == j && r < i) {
                        target[r][q]
                    } else {
                        prod[r][q]
                    },
                decreases m - i,
            {
                let v = result.read(i, j).plus(&self.mean[j]);
                result.write(i, j, v);
                i += 1;
            }
            j += 1;
        }
        proof {
            assert forall|r: int| 0 <= r < m implies #[trigger] result@[r] =~= target[r] by {}
            assert(result@ =~= target);
        }
        result
    }
}


impl<'a, T: Scalar> MatRef<'a, T> {
    /// Computes the PCA of the data matrix, as `Pca::new` does.
    pub fn pca<F: Fn(&Mat<T>) -> Result<ThinSvd<T>, SvdError>>(
        self,
        n_components: Option<usize>,
        svd: F,
    ) -> (r: Result<Pca<T>, SvdError>)
        requires
            self.mat.wf(),
            kept_components(n_components, self.mat.rows(), self.mat.cols()) <= self.mat.rows(),
            kept_components(n_components, self.mat.rows(), self.mat.cols()) <= self.mat.cols(),
            forall|m: &Mat<T>| #[trigger] svd.requires((m,)),
            forall|m: &Mat<T>, out: Result<ThinSvd<T>, SvdError>|
                #[trigger] svd.ensures((m,), out) ==> (out matches Ok(d) ==> svd_fits(
                    d,
                    m.rows(),
                    m.cols(),
                ) && is_thin_svd(d, m@)),
        ensures
            pca_outcome(*self.mat, self.conj, n_components, svd, r),
    {
        Pca::new(self, n_components, svd)
    }
}

/// Where the components `v` of `pca` satisfy `v · v^H = I` (as all the right
/// singular vectors of a decomposition do), `inverse_transform` recovers the
/// data from its `transform`.
pub proof fn lemma_transform_roundtrip<T: Scalar>(pca: Pca<T>, x: Seq<Seq<T>>, m: nat)
    requires
        pca.wf(),
        is_mat(x, m, pca.components_spec().rows()),
        mat_mul(
            pca.components_spec()@,
            adjoint(pca.components_spec()@, pca.components_spec().cols()),
            pca.components_spec().rows(),
        ) == identity::<T>(pca.components_spec().rows()),
    ensures
        inverse_transform_spec(pca, transform_spec(pca, x)) == x,
{
    let p = pca.components_spec().rows();
    let k = pca.components_spec().cols();
    let v = pca.components_spec()@;
    let vh = adjoint(v, k);
    let mean = pca.mean_spec();
    let xc = sub_row(x, mean);
    assert(is_mat(xc, m, p));
    lemma_shapes(v, v, T::zero_spec(), k, p, k);
    lemma_mul_assoc(xc, v, vh, p);
    lemma_mul_identity_right(xc, m, p);
    let back = add_row(xc, mean);
    assert forall|i: int, j: int| 0 <= i < m && 0 <= j < p implies #[trigger] back[i][j] == x[i][j] by {
        T::lemma_sub_add(x[i][j], mean[j]);
    }
    assert forall|i: int| 0 <= i < m implies #[trigger] back[i] =~= x[i] by {}
    assert(back =~= x);
}


/// If the right singular vectors `v` (a `p × c` matrix) have orthonormal
/// columns, `v^H · v == I`, so have the first `k` of them, the components.
pub proof fn lemma_components_orthonormal<T: Scalar>(v: Seq<Seq<T>>, p: nat, c: nat, k: nat)
    requires
        is_mat(v, p, c),
        k <= c,
        mat_mul(adjoint(v, c), v, c) == identity::<T>(c),
    ensures
        mat_mul(adjoint(take_cols(v, k), k), take_cols(v, k), k) == identity::<T>(k),
{
    let tv = take_cols(v, k);
    let l = mat_mul(adjoint(tv, k), tv, k);
    let full = mat_mul(adjoint(v, c), v, c);
    assert forall|i: int, j: int| 0 <= i < k && 0 <= j < k implies #[trigger] l[i][j]
        == identity::<T>(k)[i][j] by {
        assert forall|q: int| 0 <= q < p implies #[trigger] T::mul_spec(adjoint(tv, k)[i][q], tv[q][j])
            == T::mul_spec(adjoint(v, c)[i][q], v[q][j]) by {
            assert(v[q].len() == c);
            assert(tv[q][i] == v[q][i]);
            assert(tv[q][j] == v[q][j]);
        }
        lemma_sum_ext(
            |q: int| T::mul_spec(adjoint(tv, k)[i][q], tv[q][j]),
            |q: int| T::mul_spec(adjoint(v, c)[i][q], v[q][j]),
            p,
        );
        let f1 = |q: int| T::mul_spec(adjoint(tv, k)[i][q], tv[q][j]);
        let f2 = |q: int| T::mul_spec(adjoint(v, c)[i][q], v[q][j]);
        assert(tv.len() == p);
        assert(l[i][j] == sum(f1, p));
        assert(full[i][j] == sum(f2, p));
        assert(full[i][j] == identity::<T>(c)[i][j]);
    }
    assert forall|i: int| 0 <= i < k implies #[trigger] l[i] =~= identity::<T>(k)[i] by {}
    assert(l =~= identity::<T>(k));
}

/// The explained variance ratios add up to the explained variance of the
/// kept components times the reciprocal of the total variance of all
/// components.
pub proof fn lemma_explained_variance_ratio_sum<T: Scalar>(pca: Pca<T>)
    ensures
        total(explained_variance_ratio_spec(pca)) == T::mul_spec(
            total(explained_variance_spec(pca)),
            T::recip_spec(pca.total_variance_spec()),
        ),
{
    let var = explained_variance_spec(pca);
    let f = |j: int| var[j];
    let r = T::recip_spec(pca.total_variance_spec());
    lemma_sum_mul_right(f, r, var.len());
    lemma_sum_ext(
        |i: int| explained_variance_ratio_spec(pca)[i],
        |i: int| T::mul_spec(f(i), r),
        var.len(),
    );
}

/// When PCA keeps all `min(n, p)` components, the explained variance ratios
/// add up to the total variance times its reciprocal: to one wherever the
/// total has a reciprocal.
pub proof fn lemma_explained_variance_ratio_sum_all_kept<T: Scalar>(
    pca: Pca<T>,
    a: Seq<Seq<T>>,
    n: nat,
    p: nat,
    d: ThinSvd<T>,
)
    requires
        svd_fits(d, n, p),
        pca_of_svd(pca, a, n, p, if n <= p { n } else { p }, d),
    ensures
        total(explained_variance_ratio_spec(pca)) == T::mul_spec(
            pca.total_variance_spec(),
            T::recip_spec(pca.total_variance_spec()),
        ),
{
    assert(pca.singular_values_spec() =~= d.s@);
    lemma_explained_variance_ratio_sum(pca);
}

/// Where the components `v` of `pca` are orthonormal, `v^H · v == I`,
/// `transform` recovers the scores from their `inverse_transform`.
pub proof fn lemma_transform_inverse_transform<T: Scalar>(pca: Pca<T>, z: Seq<Seq<T>>, m: nat)
    requires
        pca.wf(),
        is_mat(z, m, pca.components_spec().cols()),
        mat_mul(
            adjoint(pca.components_spec()@, pca.components_spec().cols()),
            pca.components_spec()@,
            pca.components_spec().cols(),
        ) == identity::<T>(pca.components_spec().cols()),
    ensures
        transform_spec(pca, inverse_transform_spec(pca, z)) == z,
{
    let p = pca.components_spec().rows();
    let k = pca.components_spec().cols();
    let v = pca.components_spec()@;
    let vh = adjoint(v, k);
    let mean = pca.mean_spec();
    let y = mat_mul(z, vh, p);
    lemma_shapes(z, vh, T::zero_spec(), p, m, k);
    let back = sub_row(add_row(y, mean), mean);
    assert forall|i: int, j: int| 0 <= i < m && 0 <= j < p implies #[trigger] back[i][j] == y[i][j] by {
        T::lemma_add_sub(y[i][j], mean[j]);
    }
    assert forall|i: int| 0 <= i < m implies #[trigger] back[i] =~= y[i] by {}
    assert(back =~= y);
    lemma_mul_assoc(z, vh, v, k);
    lemma_mul_identity_right(z, m, k);
}

/// Where the components of `pca` are orthonormal, reconstruction
/// `R(x) = inverse_transform(transform(x))` is a projection: `transform`
/// cannot tell `R(x)` from `x`, and `R(R(x)) == R(x)`.
pub proof fn lemma_reconstruction_idempotent<T: Scalar>(pca: Pca<T>, x: Seq<Seq<T>>, m: nat)
    requires
        pca.wf(),
        is_mat(x, m, pca.components_spec().rows()),
        mat_mul(
            adjoint(pca.components_spec()@, pca.components_spec().cols()),
            pca.components_spec()@,
            pca.components_spec().cols(),
        ) == identity::<T>(pca.components_spec().cols()),
    ensures
        transform_spec(pca, inverse_transform_spec(pca, transform_spec(pca, x))) == transform_spec(
            pca,
            x,
        ),
        inverse_transform_spec(
            pca,
            transform_spec(pca, inverse_transform_spec(pca, transform_spec(pca, x))),
        ) == inverse_transform_spec(pca, transform_spec(pca, x)),
{
    let p = pca.components_spec().rows();
    let k = pca.components_spec().cols();
    let xc = sub_row(x, pca.mean_spec());
    assert(is_mat(xc, m, p));
    lemma_shapes(xc, pca.components_spec()@, T::zero_spec(), k, m, p);
    lemma_transform_inverse_transform(pca, transform_spec(pca, x), m);
}

/// Transforming data read conjugated is transforming its conjugate.
pub proof fn lemma_transform_conjugated_view<T: Scalar>(pca: Pca<T>, x: Seq<Seq<T>>)
    ensures
        transform_spec(pca, read_as(x, Conj::Yes)) == transform_spec(
            pca,
            read_as(mat_conj(x), Conj::No),
        ),
{
}

/// The components of a PCA computed from a thin SVD are orthonormal:
/// `components^H · components == I`.
pub proof fn lemma_pca_components_orthonormal<T: Scalar>(
    pca: Pca<T>,
    a: Seq<Seq<T>>,
    n: nat,
    p: nat,
    k: nat,
    d: ThinSvd<T>,
    m: Seq<Seq<T>>,
)
    requires
        k <= n,
        k <= p,
        svd_fits(d, n, p),
        is_thin_svd(d, m),
        pca_of_svd(pca, a, n, p, k, d),
    ensures
        mat_mul(adjoint(pca.components_spec()@, k), pca.components_spec()@, k) == identity::<T>(k),
{
    let c = if n <= p { n } else { p };
    lemma_components_orthonormal(d.v@, p, c, k);
}

/// PCA keeping all `min(n, p)` components of data read as it stands
/// reconstructs the data exactly: `inverse_transform(transform(a)) == a`.
pub proof fn lemma_pca_reconstructs_data<T: Scalar>(
    pca: Pca<T>,
    a: Seq<Seq<T>>,
    n: nat,
    p: nat,
    d: ThinSvd<T>,
)
    requires
        is_mat(a, n, p),
        svd_fits(d, n, p),
        is_thin_svd(d, svd_input(a, n, p, Conj::No)),
        pca_of_svd(pca, a, n, p, if n <= p { n } else { p }, d),
    ensures
        inverse_transform_spec(pca, transform_spec(pca, a)) == a,
{
    let k: nat = if n <= p { n } else { p };
    let v = d.v@;
    let vh = adjoint(v, k);
    let mean = pca.mean_spec();
    let xc = sub_row(a, mean);
    let ud = mat_mul(d.u@, diag(d.s@), k);
    assert forall|i: int| 0 <= i < p implies #[trigger] take_cols(v, k)[i] =~= v[i] by {}
    assert(pca.components_spec()@ =~= v);
    assert(xc == svd_input(a, n, p, Conj::No));
    assert(xc == mat_mul(ud, vh, p));
    assert(is_mat(d.u@, n, k));
    lemma_shapes(d.u@, diag(d.s@), T::zero_spec(), k, n, k);
    // xc · v == (u · diag(s) · v^H) · v == u · diag(s) · (v^H · v) == u · diag(s)
    lemma_mul_assoc(ud, vh, v, k);
    lemma_mul_identity_right(ud, n, k);
    let back = add_row(xc, mean);
    assert forall|i: int, j: int| 0 <= i < n && 0 <= j < p implies #[trigger] back[i][j] == a[i][j] by {
        T::lemma_sub_add(a[i][j], mean[j]);
    }
    assert forall|i: int| 0 <= i < n implies #[trigger] back[i] =~= a[i] by {}
    assert(back =~= a);
}

/// With at least as many observations as features, PCA keeping all
/// components reconstructs any data with that many features:
/// `inverse_transform(transform(x)) == x`.
pub proof fn lemma_pca_roundtrip_all_features<T: Scalar>(
    pca: Pca<T>,
    a: Seq<Seq<T>>,
    n: nat,
    p: nat,
    d: ThinSvd<T>,
    m: Seq<Seq<T>>,
    x: Seq<Seq<T>>,
    rows: nat,
)
    requires
        p <= n,
        svd_fits(d, n, p),
        is_thin_svd(d, m),
        pca_of_svd(pca, a, n, p, p, d),
        is_mat(x, rows, p),
    ensures
        inverse_transform_spec(pca, transform_spec(pca, x)) == x,
{
    let v = d.v@;
    assert forall|i: int| 0 <= i < p implies #[trigger] take_cols(v, p)[i] =~= v[i] by {}
    assert(pca.components_spec()@ =~= v);
    lemma_transform_roundtrip(pca, x, rows);
}

/// With an SVD that answers the same matrix the same way, PCA keeping `k`
/// components keeps a prefix of PCA keeping all of them: the first `k`
/// components and singular values, the same mean, sample count and total
/// variance.
pub proof fn lemma_pca_truncation_keeps_prefix<T: Scalar, F>(
    a: Mat<T>,
    conj: Conj,
    k: usize,
    svd: F,
    truncated: Pca<T>,
    full: Pca<T>,
) where F: Fn(&Mat<T>) -> Result<ThinSvd<T>, SvdError>
    requires
        k <= a.rows(),
        k <= a.cols(),
        svd_is_deterministic(svd),
        pca_outcome(a, conj, Some(k), svd, Ok(truncated)),
        pca_outcome(a, conj, None, svd, Ok(full)),
    ensures
        truncated.components_spec()@ == take_cols(full.components_spec()@, k as nat),
        truncated.components_spec().rows() == full.components_spec().rows(),
        truncated.singular_values_spec() == full.singular_values_spec().take(k as int),
        truncated.mean_spec() == full.mean_spec(),
        truncated.n_samples_spec() == full.n_samples_spec(),
        truncated.total_variance_spec() == full.total_variance_spec(),
{
    let n = a.rows();
    let p = a.cols();
    let c: nat = if n <= p { n } else { p };
    let (m1, o1) = choose|m: Mat<T>, out: Result<ThinSvd<T>, SvdError>|
        pca_run(a, conj, Some(k), svd, Ok(truncated), m, out);
    let (m2, o2) = choose|m: Mat<T>, out: Result<ThinSvd<T>, SvdError>|
        pca_run(a, conj, None, svd, Ok(full), m, out);
    assert(svd.ensures((&m1,), o1));
    assert(svd.ensures((&m2,), o2));
    let d1 = o1->Ok_0;
    let d2 = o2->Ok_0;
    assert(d1.v@ == d2.v@ && d1.s@ == d2.s@);
    assert forall|i: int| 0 <= i < p implies #[trigger] truncated.components_spec()@[i] =~= take_cols(
        full.components_spec()@,
        k as nat,
    )[i] by {}
    assert(truncated.components_spec()@ =~= take_cols(full.components_spec()@, k as nat));
    assert(truncated.singular_values_spec() =~= full.singular_values_spec().take(k as int));
}

/// PCA centers by the arithmetic mean of each column: the stored mean of
/// feature `j` is the sum of column `j` over the `n` observations divided by
/// `n`, and the SVD is handed the data minus that mean, entry by entry
/// (conjugated where the data is read conjugated).
pub proof fn lemma_pca_mean_is_column_average<T: Scalar, F>(
    a: Mat<T>,
    conj: Conj,
    n_components: Option<usize>,
    svd: F,
    pca: Pca<T>,
) where F: Fn(&Mat<T>) -> Result<ThinSvd<T>, SvdError>
    requires
        pca_outcome(a, conj, n_components, svd, Ok(pca)),
    ensures
        pca.mean_spec().len() == a.cols(),
        forall|j: int|
            0 <= j < a.cols() ==> #[trigger] pca.mean_spec()[j] == T::div_spec(
                sum(|i: int| a@[i][j], a.rows()),
                T::from_usize_spec(a.rows() as usize),
            ),
        exists|m: Mat<T>, out: Result<ThinSvd<T>, SvdError>|
            {
                &&& #[trigger] svd.ensures((&m,), out)
                &&& m.rows() == a.rows()
                &&& m.cols() == a.cols()
                &&& forall|i: int, j: int|
                    0 <= i < a.rows() && 0 <= j < a.cols() ==> #[trigger] m@[i][j] == if conj
                        == Conj::Yes {
                        T::conj_spec(T::sub_spec(a@[i][j], pca.mean_spec()[j]))
                    } else {
                        T::sub_spec(a@[i][j], pca.mean_spec()[j])
                    }
            },
{
    let (m, out) = choose|m: Mat<T>, out: Result<ThinSvd<T>, SvdError>|
        pca_run(a, conj, n_components, svd, Ok(pca), m, out);
    assert(pca_run(a, conj, n_components, svd, Ok(pca), m, out));
    assert(svd.ensures((&m,), out));
}

/// PCA keeps the first `k` singular values and right singular vectors the
/// SVD returned, as singular values and components, counts the `n`
/// observations, and divides the ratios by the variance of every singular
/// value returned, kept or not: the sum of `σ_j^2 / (n - 1)` (`σ_j^2` for a
/// single observation) over all of them.
pub proof fn lemma_pca_from_svd<T: Scalar, F>(
    a: Mat<T>,
    conj: Conj,
    n_components: Option<usize>,
    svd: F,
    pca: Pca<T>,
    m: Mat<T>,
    out: Result<ThinSvd<T>, SvdError>,
) where F: Fn(&Mat<T>) -> Result<ThinSvd<T>, SvdError>
    requires
        pca_run(a, conj, n_components, svd, Ok(pca), m, out),
    ensures
        out is Ok,
        out->Ok_0.s@.len() == if a.rows() <= a.cols() { a.rows() } else { a.cols() },
        pca.total_variance_spec() == sum(
            |j: int| T::div_spec(
                T::abs2_spec(out->Ok_0.s@[j]),
                T::from_usize_spec((if a.rows() > 1 { a.rows() - 1 } else { 1 }) as usize),
            ),
            out->Ok_0.s@.len(),
        ),
        pca.singular_values_spec().len() == kept_components(n_components, a.rows(), a.cols()),
        forall|i: int|
            0 <= i < pca.singular_values_spec().len() ==> #[trigger] pca.singular_values_spec()[i]
                == out->Ok_0.s@[i],
        pca.components_spec().rows() == a.cols(),
        pca.components_spec().cols() == kept_components(n_components, a.rows(), a.cols()),
        forall|r: int, c: int|
            0 <= r < a.cols() && 0 <= c < pca.components_spec().cols()
                ==> #[trigger] pca.components_spec()@[r][c] == out->Ok_0.v@[r][c],
        pca.n_samples_spec() == a.rows(),
{
    let d = out->Ok_0;
    let v = variances(d.s@, a.rows());
    lemma_sum_ext(
        |j: int| v[j],
        |j: int| T::div_spec(
            T::abs2_spec(d.s@[j]),
            T::from_usize_spec((if a.rows() > 1 { a.rows() - 1 } else { 1 }) as usize),
        ),
        d.s@.len(),
    );
}

/// Each explained variance ratio belongs to its own component: entry `i` is
/// `σ_i^2 / (n - 1)` of singular value `i` times the reciprocal of the total
/// variance, and there is one entry per kept component.
pub proof fn lemma_explained_variance_ratio_entries<T: Scalar>(pca: Pca<T>)
    ensures
        explained_variance_spec(pca).len() == pca.singular_values_spec().len(),
        explained_variance_ratio_spec(pca).len() == pca.singular_values_spec().len(),
        forall|i: int|
            0 <= i < pca.singular_values_spec().len() ==> #[trigger] explained_variance_spec(pca)[i]
                == T::div_spec(
                T::abs2_spec(pca.singular_values_spec()[i]),
                T::from_usize_spec(
                    (if pca.n_samples_spec() > 1 {
                        pca.n_samples_spec() - 1
                    } else {
                        1
                    }) as usize,
                ),
            ),
        forall|i: int|
            0 <= i < pca.singular_values_spec().len() ==> #[trigger] explained_variance_ratio_spec(
                pca,
            )[i] == T::mul_spec(
                explained_variance_spec(pca)[i],
                T::recip_spec(pca.total_variance_spec()),
            ),
{
}

} // verus!
