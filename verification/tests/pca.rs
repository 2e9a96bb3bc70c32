use faer::mat::Mat;
use faer::scalar::Scalar;
use faer::stats::pca::{Pca, SvdError, ThinSvd};

/// Double-precision entries, to run the algorithms in floating point.
#[derive(Clone, Copy, Debug, PartialEq)]
struct F64(f64);

impl Scalar for F64 {
    // The mathematical model and the ring laws exist for verification only;
    // `f64` arithmetic does not satisfy the laws exactly, and none of these
    // items is ever called at run time.
    fn zero_spec() -> Self {
        unreachable!()
    }
    fn one_spec() -> Self {
        unreachable!()
    }
    fn add_spec(_a: Self, _b: Self) -> Self {
        unreachable!()
    }
    fn sub_spec(_a: Self, _b: Self) -> Self {
        unreachable!()
    }
    fn mul_spec(_a: Self, _b: Self) -> Self {
        unreachable!()
    }
    fn conj_spec(_a: Self) -> Self {
        unreachable!()
    }
    fn abs2_spec(_a: Self) -> Self {
        unreachable!()
    }
    fn from_usize_spec(_n: usize) -> Self {
        unreachable!()
    }
    fn div_spec(_a: Self, _b: Self) -> Self {
        unreachable!()
    }
    fn recip_spec(_a: Self) -> Self {
        unreachable!()
    }
    fn lemma_add_assoc(_a: Self, _b: Self, _c: Self) {}
    fn lemma_add_comm(_a: Self, _b: Self) {}
    fn lemma_add_zero(_a: Self) {}
    fn lemma_sub_add(_a: Self, _b: Self) {}
    fn lemma_add_sub(_a: Self, _b: Self) {}
    fn lemma_mul_assoc(_a: Self, _b: Self, _c: Self) {}
    fn lemma_mul_comm(_a: Self, _b: Self) {}
    fn lemma_mul_one(_a: Self) {}
    fn lemma_mul_zero(_a: Self) {}
    fn lemma_mul_distrib(_a: Self, _b: Self, _c: Self) {}

    fn zero() -> Self {
        F64(0.0)
    }
    fn one() -> Self {
        F64(1.0)
    }
    fn plus(&self, rhs: &Self) -> Self {
        F64(self.0 + rhs.0)
    }
    fn minus(&self, rhs: &Self) -> Self {
        F64(self.0 - rhs.0)
    }
    fn times(&self, rhs: &Self) -> Self {
        F64(self.0 * rhs.0)
    }
    fn conj(&self) -> Self {
        *self
    }
    fn abs2(&self) -> Self {
        F64(self.0 * self.0)
    }
    fn from_usize(n: usize) -> Self {
        F64(n as f64)
    }
    fn div(&self, rhs: &Self) -> Self {
        F64(self.0 / rhs.0)
    }
    fn recip(&self) -> Self {
        F64(1.0 / self.0)
    }
}

fn fmat(rows: &[&[f64]]) -> Mat<F64> {
    let ncols = rows[0].len();
    let data: Vec<Vec<F64>> = rows.iter().map(|r| r.iter().map(|&x| F64(x)).collect()).collect();
    Mat::from_rows(ncols, data).unwrap()
}

/// One-sided Jacobi SVD: the first `min(nrows, ncols)` left singular vectors,
/// the singular values (largest first) and the right singular vectors.
fn jacobi_svd(m: &Mat<F64>) -> Result<ThinSvd<F64>, SvdError> {
    let n = m.nrows();
    let p = m.ncols();
    let mut u: Vec<Vec<f64>> = (0..p).map(|j| (0..n).map(|i| m.read(i, j).0).collect()).collect();
    let mut v: Vec<Vec<f64>> = (0..p).map(|j| (0..p).map(|i| if i == j { 1.0 } else { 0.0 }).collect()).collect();
    let dot = |x: &[f64], y: &[f64]| x.iter().zip(y).map(|(a, b)| a * b).sum::<f64>();
    let mut converged = false;
    for _ in 0..100 {
        let mut rotated = false;
        for a in 0..p {
            for b in a + 1..p {
                let alpha = dot(&u[a], &u[a]);
                let beta = dot(&u[b], &u[b]);
                let gamma = dot(&u[a], &u[b]);
                if gamma.abs() <= 1e-15 * (alpha * beta).sqrt() || gamma == 0.0 {
                    continue;
                }
                rotated = true;
                let zeta = (beta - alpha) / (2.0 * gamma);
                let t = zeta.signum() / (zeta.abs() + (1.0 + zeta * zeta).sqrt());
                let c = 1.0 / (1.0 + t * t).sqrt();
                let s = c * t;
                for vecs in [&mut u, &mut v] {
                    for i in 0..vecs[a].len() {
                        let x = vecs[a][i];
                        let y = vecs[b][i];
                        vecs[a][i] = c * x - s * y;
                        vecs[b][i] = s * x + c * y;
                    }
                }
            }
        }
        if !rotated {
            converged = true;
            break;
        }
    }
    if !converged {
        return Err(SvdError::NoConvergence);
    }
    let sigma: Vec<f64> = u.iter().map(|col| dot(col, col).sqrt()).collect();
    let mut order: Vec<usize> = (0..p).collect();
    order.sort_by(|&x, &y| sigma[y].partial_cmp(&sigma[x]).unwrap());
    let k = n.min(p);
    let s = order[..k].iter().map(|&j| F64(sigma[j])).collect();
    let rows: Vec<Vec<F64>> = (0..p).map(|i| order[..k].iter().map(|&j| F64(v[j][i])).collect()).collect();
    let left: Vec<Vec<F64>> = (0..n)
        .map(|i| {
            order[..k]
                .iter()
                .map(|&j| F64(if sigma[j] > 0.0 { u[j][i] / sigma[j] } else { 0.0 }))
                .collect()
        })
        .collect();
    Ok(ThinSvd { u: Mat::from_rows(k, left).unwrap(), s, v: Mat::from_rows(k, rows).unwrap() })
}

fn approx_eq(a: &Mat<F64>, b: &Mat<F64>, tol: f64) -> bool {
    a.nrows() == b.nrows()
        && a.ncols() == b.ncols()
        && (0..a.nrows()).all(|i| {
            (0..a.ncols()).all(|j| {
                let (x, y) = (a.read(i, j).0, b.read(i, j).0);
                (x - y).abs() <= tol * (1.0f64).max(x.abs()).max(y.abs())
            })
        })
}

#[test]
fn test_pca_basic_f64() {
    // 4 observations, 3 features
    let a = fmat(&[
        &[1.0, 2.0, 3.0],
        &[4.0, 5.0, 6.0],
        &[7.0, 8.0, 9.0],
        &[10.0, 11.0, 12.0],
    ]);

    let pca = Pca::new(a.as_ref(), None, jacobi_svd).unwrap();

    // Check mean is correct: [5.5, 6.5, 7.5]
    let mean = pca.mean();
    assert!((mean[0].0 - 5.5).abs() < 1e-10);
    assert!((mean[1].0 - 6.5).abs() < 1e-10);
    assert!((mean[2].0 - 7.5).abs() < 1e-10);

    // Components should be orthonormal columns
    let v = pca.components();
    let vtv = v.adjoint().matmul(v);
    let eye = Mat::<F64>::identity(vtv.nrows());
    assert!(approx_eq(&vtv, &eye, f64::EPSILON * 64.0));

    // Explained variance ratios should sum to 1
    let ratios = pca.explained_variance_ratio();
    let sum: f64 = ratios.iter().map(|r| r.0).sum();
    assert!((sum - 1.0).abs() < 1e-10);
}

#[test]
fn test_pca_n_components() {
    // 5 observations, 3 features
    let a = fmat(&[
        &[2.5, 2.4, 1.0],
        &[0.5, 0.7, 0.3],
        &[2.2, 2.9, 1.1],
        &[1.9, 2.2, 0.9],
        &[3.1, 3.0, 1.5],
    ]);

    let pca = Pca::new(a.as_ref(), Some(2), jacobi_svd).unwrap();
    assert!(pca.components().ncols() == 2);
    assert!(pca.singular_values().len() == 2);
    assert!(pca.explained_variance().len() == 2);
}

#[test]
fn test_pca_transform_inverse_roundtrip() {
    // With all components, transform + inverse_transform should recover
    // the input data
    let a = fmat(&[
        &[2.5, 2.4, 1.0],
        &[0.5, 0.7, 0.3],
        &[2.2, 2.9, 1.1],
        &[1.9, 2.2, 0.9],
        &[3.1, 3.0, 1.5],
    ]);

    let pca = Pca::new(a.as_ref(), None, jacobi_svd).unwrap();
    let scores = pca.transform(a.as_ref());
    let reconstructed = pca.inverse_transform(scores.as_ref());

    assert!(approx_eq(&reconstructed, &a, f64::EPSILON * 256.0));
}

#[test]
fn test_pca_via_matref_convenience() {
    let a = fmat(&[&[1.0, 2.0], &[3.0, 4.0], &[5.0, 6.0]]);
    let pca = a.as_ref().pca(Some(1), jacobi_svd).unwrap();
    assert!(pca.components().ncols() == 1);
}

#[test]
fn test_pca_singular_values_nonnegative_and_sorted() {
    let a = fmat(&[
        &[2.5, 2.4, 1.0],
        &[0.5, 0.7, 0.3],
        &[2.2, 2.9, 1.1],
        &[1.9, 2.2, 0.9],
        &[3.1, 3.0, 1.5],
    ]);

    let pca = Pca::new(a.as_ref(), None, jacobi_svd).unwrap();
    let sv = pca.singular_values();
    for i in 0..sv.len() {
        assert!(sv[i].0 >= 0.0);
        if i > 0 {
            assert!(sv[i - 1].0 >= sv[i].0);
        }
    }
}

// Exact arithmetic (wrapping `i64`), with a decomposition chosen by the test

fn imat(rows: &[&[i64]]) -> Mat<i64> {
    let ncols = rows[0].len();
    Mat::from_rows(ncols, rows.iter().map(|r| r.to_vec()).collect()).unwrap()
}

/// A "decomposition" whose right singular vectors are the columns of the
/// permutation matrix that swaps the first two features.
fn swap_svd(m: &Mat<i64>) -> Result<ThinSvd<i64>, SvdError> {
    let p = m.ncols();
    let k = m.nrows().min(p);
    let rows: Vec<Vec<i64>> = (0..p)
        .map(|i| {
            (0..k)
                .map(|j| {
                    let src = if j == 0 { 1 } else if j == 1 { 0 } else { j };
                    if i == src { 1 } else { 0 }
                })
                .collect()
        })
        .collect();
    Ok(ThinSvd {
        u: Mat::zeros(m.nrows(), k),
        s: (0..k).map(|j| (10 - j) as i64).collect(),
        v: Mat::from_rows(k, rows).unwrap(),
    })
}

/// A "decomposition" with unit singular values and the identity's first
/// columns as right singular vectors.
fn unit_svd(m: &Mat<i64>) -> Result<ThinSvd<i64>, SvdError> {
    let p = m.ncols();
    let k = m.nrows().min(p);
    let rows: Vec<Vec<i64>> = (0..p).map(|i| (0..k).map(|j| if i == j { 1 } else { 0 }).collect()).collect();
    Ok(ThinSvd { u: Mat::zeros(m.nrows(), k), s: vec![1; k], v: Mat::from_rows(k, rows).unwrap() })
}

fn failing_svd(_m: &Mat<i64>) -> Result<ThinSvd<i64>, SvdError> {
    Err(SvdError::NoConvergence)
}

#[test]
fn test_exact_mean_and_transform() {
    let a = imat(&[&[1, 10, 100], &[3, 20, 200], &[5, 30, 300], &[7, 40, 400]]);
    let pca = Pca::new(a.as_ref(), None, swap_svd).unwrap();
    assert_eq!(pca.mean(), &vec![4i64, 25, 250]);
    assert_eq!(pca.singular_values(), &vec![10i64, 9, 8]);
    // scores: centered data with its first two columns swapped
    let scores = pca.transform(a.as_ref());
    let expected = imat(&[&[-15, -3, -150], &[-5, -1, -50], &[5, 1, 50], &[15, 3, 150]]);
    assert_eq!(scores, expected);
    // the permutation matrix is orthogonal, so the data comes back exactly
    assert_eq!(pca.inverse_transform(scores.as_ref()), a);
}

#[test]
fn test_exact_components_truncated() {
    let a = imat(&[&[1, 2, 3], &[4, 5, 6]]);
    let pca = Pca::new(a.as_ref(), Some(1), swap_svd).unwrap();
    let v = pca.components();
    assert_eq!((v.nrows(), v.ncols()), (3, 1));
    assert_eq!(v.to_rows(), vec![vec![0i64], vec![1], vec![0]]);
    assert_eq!(pca.singular_values(), &vec![10i64]);
    let scores = pca.transform(a.as_ref());
    // mean [2, 3, 4] (integer division of [5, 7, 9] by 2)
    assert_eq!(scores.to_rows(), vec![vec![-1i64], vec![2]]);
}

#[test]
fn test_exact_svd_error_is_returned() {
    let a = imat(&[&[1, 2], &[3, 4]]);
    let r = Pca::new(a.as_ref(), None, failing_svd);
    assert_eq!(r.err(), Some(SvdError::NoConvergence));
}

#[test]
fn test_exact_explained_variance() {
    let a = imat(&[&[1, 10, 100], &[3, 20, 200], &[5, 30, 300], &[7, 40, 400]]);
    let pca = Pca::new(a.as_ref(), None, swap_svd).unwrap();
    // σ² / (n - 1) with σ = 10, 9, 8 and n = 4
    assert_eq!(pca.explained_variance(), vec![33i64, 27, 21]);
    // the integer reciprocal of the total 81 is 0
    assert_eq!(pca.explained_variance_ratio(), vec![0i64, 0, 0]);
}

#[test]
fn test_exact_single_sample_divisor() {
    let a = imat(&[&[5, 6]]);
    let pca = Pca::new(a.as_ref(), None, swap_svd).unwrap();
    // one observation: the divisor is 1
    assert_eq!(pca.explained_variance(), vec![100i64]);
    assert_eq!(pca.explained_variance_ratio(), vec![0i64]);
}

#[test]
fn test_exact_conjugated_views() {
    // For real entries the conjugated view reads the same values.
    let a = imat(&[&[1, 10, 100], &[3, 20, 200], &[5, 30, 300], &[7, 40, 400]]);
    let p1 = Pca::new(a.as_ref(), None, swap_svd).unwrap();
    let p2 = Pca::new(a.conjugate(), None, swap_svd).unwrap();
    assert_eq!(p1.transform(a.as_ref()), p2.transform(a.conjugate()));
    let z = p1.transform(a.as_ref());
    assert_eq!(p1.inverse_transform(z.conjugate()), a);
}

#[test]
fn test_ratio_divides_by_variance_of_all_components() {
    let a = fmat(&[
        &[2.5, 2.4, 1.0],
        &[0.5, 0.7, 0.3],
        &[2.2, 2.9, 1.1],
        &[1.9, 2.2, 0.9],
        &[3.1, 3.0, 1.5],
    ]);
    let full = Pca::new(a.as_ref(), None, jacobi_svd).unwrap();
    let one = Pca::new(a.as_ref(), Some(1), jacobi_svd).unwrap();
    let var = full.explained_variance();
    let total: f64 = var.iter().map(|v| v.0).sum();
    let r = one.explained_variance_ratio();
    assert_eq!(r.len(), 1);
    assert!((r[0].0 - var[0].0 / total).abs() < 1e-12);
    assert!((r[0].0 - full.explained_variance_ratio()[0].0).abs() < 1e-12);
    // the dropped components carry variance, so the kept ratios add up to less than one
    assert!(r[0].0 < 1.0 - 1e-6);
}

#[test]
fn test_exact_ratio_with_truncation() {
    // unit singular values, n = 2: each component explains variance 1, the total is 2
    let a = imat(&[&[1, 2], &[3, 4]]);
    let all = Pca::new(a.as_ref(), None, unit_svd).unwrap();
    assert_eq!(all.explained_variance(), vec![1i64, 1]);
    // the integer reciprocal of 2 is 0
    assert_eq!(all.explained_variance_ratio(), vec![0i64, 0]);
    let one = Pca::new(a.as_ref(), Some(1), unit_svd).unwrap();
    assert_eq!(one.explained_variance(), vec![1i64]);
    // divided by the total of both components, not by the kept variance 1
    assert_eq!(one.explained_variance_ratio(), vec![0i64]);
    let single = Pca::new(imat(&[&[1, 2]]).as_ref(), None, unit_svd).unwrap();
    // one component of variance 1: the ratio is exactly one
    assert_eq!(single.explained_variance_ratio(), vec![1i64]);
}

#[test]
fn test_exact_transform_of_inverse_transform() {
    let a = imat(&[&[1, 10, 100], &[3, 20, 200], &[5, 30, 300], &[7, 40, 400]]);
    let pca = Pca::new(a.as_ref(), None, swap_svd).unwrap();
    let z = imat(&[&[1, -2, 3], &[4, 5, -6]]);
    assert_eq!(pca.transform(pca.inverse_transform(z.as_ref()).as_ref()), z);
    let pca1 = Pca::new(a.as_ref(), Some(1), swap_svd).unwrap();
    let z1 = imat(&[&[7], &[-8], &[9]]);
    assert_eq!(pca1.transform(pca1.inverse_transform(z1.as_ref()).as_ref()), z1);
}

#[test]
fn test_exact_reconstruction_is_idempotent() {
    let a = imat(&[&[1, 10, 100], &[3, 20, 200], &[5, 30, 300], &[7, 40, 400]]);
    let pca = Pca::new(a.as_ref(), Some(1), swap_svd).unwrap();
    let x = imat(&[&[2, 3, 5], &[-7, 11, 13]]);
    let r1 = pca.inverse_transform(pca.transform(x.as_ref()).as_ref());
    // only the second feature survives; the others are replaced by the mean
    assert_eq!(r1, imat(&[&[4, 3, 250], &[4, 11, 250]]));
    let r2 = pca.inverse_transform(pca.transform(r1.as_ref()).as_ref());
    assert_eq!(r2, r1);
    assert_eq!(pca.transform(r1.as_ref()), pca.transform(x.as_ref()));
}

#[test]
fn test_exact_roundtrip_any_data() {
    // 4 observations, 3 features, all components kept: v is square and unitary
    let a = imat(&[&[1, 10, 100], &[3, 20, 200], &[5, 30, 300], &[7, 40, 400]]);
    let pca = Pca::new(a.as_ref(), None, swap_svd).unwrap();
    let x = imat(&[&[-9, 8, 7], &[6, -5, 4]]);
    assert_eq!(pca.inverse_transform(pca.transform(x.as_ref()).as_ref()), x);
}

#[test]
fn test_exact_truncation_keeps_prefix() {
    let a = imat(&[&[1, 10, 100], &[3, 20, 200], &[5, 30, 300], &[7, 40, 400]]);
    let full = Pca::new(a.as_ref(), None, swap_svd).unwrap();
    let two = Pca::new(a.as_ref(), Some(2), swap_svd).unwrap();
    let full_rows = full.components().to_rows();
    let prefix: Vec<Vec<i64>> = full_rows.iter().map(|r| r[..2].to_vec()).collect();
    assert_eq!(two.components().to_rows(), prefix);
    assert_eq!(two.singular_values()[..], full.singular_values()[..2]);
    assert_eq!(two.mean(), full.mean());
    // the ratios divide by the same total
    assert_eq!(two.explained_variance_ratio()[..], full.explained_variance_ratio()[..2]);
}
