use std::cell::RefCell;

use faer::linalg::qr::sketched::factor::{qr_in_place, ColPivots};
use faer::mat::Mat;
use faer::scalar::Scalar;
use rand::distr::Distribution;
use rand::rngs::StdRng;
use rand::SeedableRng;
use rand_distr::StandardNormal;

fn imat(rows: &[&[i64]]) -> Mat<i64> {
    let ncols = rows[0].len();
    Mat::from_rows(ncols, rows.iter().map(|r| r.to_vec()).collect()).unwrap()
}

/// The number of transpositions that make up `perm`: its length minus its
/// number of cycles.
fn transpositions(perm: &[usize]) -> usize {
    let mut seen = vec![false; perm.len()];
    let mut cycles = 0;
    for start in 0..perm.len() {
        if !seen[start] {
            cycles += 1;
            let mut j = start;
            while !seen[j] {
                seen[j] = true;
                j = perm[j];
            }
        }
    }
    perm.len() - cycles
}

fn inverse(perm: &[usize]) -> Vec<usize> {
    let mut inv = vec![0; perm.len()];
    for (j, &k) in perm.iter().enumerate() {
        inv[k] = j;
    }
    inv
}

/// Runs the sketched QR with a pivoting step that reports `perm` and a
/// factorization step that leaves its input as it is.
fn run(a: &mut Mat<i64>, sketch: &Mat<i64>, perm: &[usize], count: usize) -> (Vec<usize>, Vec<usize>, usize, Mat<i64>) {
    let m = a.nrows();
    let n = a.ncols();
    let size = m.min(n);
    let mut q_coeff = Mat::<i64>::zeros(2, size);
    let mut col_perm = vec![0usize; n];
    let mut col_perm_inv = vec![0usize; n];
    let p = perm.to_vec();
    let info = qr_in_place(
        a,
        &mut q_coeff,
        &mut col_perm,
        &mut col_perm_inv,
        sketch,
        |_b: Mat<i64>, _bs: usize| ColPivots { perm: p.clone(), perm_inv: inverse(&p), transposition_count: count },
        |x: Mat<i64>, bs: usize| {
            let size = x.nrows().min(x.ncols());
            (x, Mat::<i64>::zeros(bs, size))
        },
    );
    (col_perm, col_perm_inv, info.transposition_count, q_coeff)
}

#[test]
fn test_columns_are_permuted() {
    let mut a = imat(&[&[1, 2, 3, 4], &[5, 6, 7, 8], &[9, 10, 11, 12]]);
    let sketch = imat(&[&[1, 0, 0]]);
    let perm = [2, 0, 3, 1];
    let (col_perm, col_perm_inv, count, q_coeff) = run(&mut a, &sketch, &perm, 3);
    // column j of the result is column perm[j] of the input
    assert_eq!(a, imat(&[&[3, 1, 4, 2], &[7, 5, 8, 6], &[11, 9, 12, 10]]));
    assert_eq!(col_perm, vec![2, 0, 3, 1]);
    assert_eq!(col_perm_inv, vec![1, 3, 0, 2]);
    assert_eq!(count, 3);
    assert_eq!((q_coeff.nrows(), q_coeff.ncols()), (2, 3));
}

#[test]
fn test_identity_permutation_keeps_columns() {
    let mut a = imat(&[&[1, 2, 3], &[4, 5, 6]]);
    let sketch = imat(&[&[1, 1]]);
    let (col_perm, _, count, _) = run(&mut a, &sketch, &[0, 1, 2], 0);
    assert_eq!(a, imat(&[&[1, 2, 3], &[4, 5, 6]]));
    assert_eq!(col_perm, vec![0, 1, 2]);
    assert_eq!(count, 0);
}

#[test]
fn test_several_cycles() {
    // cycles (0 1), (2 3 4), (5)
    let perm = [1, 0, 3, 4, 2, 5];
    let mut a = imat(&[&[10, 11, 12, 13, 14, 15], &[20, 21, 22, 23, 24, 25]]);
    let sketch = imat(&[&[1, 0], &[0, 1]]);
    let (col_perm, col_perm_inv, _, _) = run(&mut a, &sketch, &perm, 3);
    assert_eq!(a, imat(&[&[11, 10, 13, 14, 12, 15], &[21, 20, 23, 24, 22, 25]]));
    assert_eq!(col_perm, perm.to_vec());
    assert_eq!(col_perm_inv, inverse(&perm));
}

#[test]
fn test_every_permutation_of_four() {
    let base = imat(&[&[0, 1, 2, 3], &[4, 5, 6, 7]]);
    let sketch = imat(&[&[1, 2]]);
    let mut perms = Vec::new();
    for a in 0..4 {
        for b in 0..4 {
            for c in 0..4 {
                for d in 0..4 {
                    let p = [a, b, c, d];
                    let mut seen = [false; 4];
                    p.iter().for_each(|&x| seen[x] = true);
                    if seen.iter().all(|&s| s) {
                        perms.push(p);
                    }
                }
            }
        }
    }
    assert_eq!(perms.len(), 24);
    for p in perms {
        let mut a = imat(&[&[0, 1, 2, 3], &[4, 5, 6, 7]]);
        let (col_perm, _, count, _) = run(&mut a, &sketch, &p, transpositions(&p));
        assert_eq!(count, transpositions(&p));
        for i in 0..2 {
            for j in 0..4 {
                assert_eq!(a.read(i, j), base.read(i, p[j]));
            }
        }
        assert_eq!(col_perm, p.to_vec());
    }
}

#[test]
fn test_pivoting_sees_the_sketch_product() {
    let mut a = imat(&[&[1, 2], &[3, 4], &[5, 6]]);
    let sketch = imat(&[&[1, -1, 2], &[0, 3, 1]]);
    let seen: RefCell<Option<(Mat<i64>, usize)>> = RefCell::new(None);
    let mut q_coeff = Mat::<i64>::zeros(4, 2);
    let mut col_perm = vec![0usize; 2];
    let mut col_perm_inv = vec![0usize; 2];
    qr_in_place(
        &mut a,
        &mut q_coeff,
        &mut col_perm,
        &mut col_perm_inv,
        &sketch,
        |b: Mat<i64>, bs: usize| {
            *seen.borrow_mut() = Some((b, bs));
            ColPivots { perm: vec![1, 0], perm_inv: vec![1, 0], transposition_count: 1 }
        },
        |x: Mat<i64>, bs: usize| {
            let size = x.nrows().min(x.ncols());
            (x, Mat::<i64>::zeros(bs, size))
        },
    );
    let (b, bs) = seen.into_inner().unwrap();
    // B = S · A
    assert_eq!(b, imat(&[&[1 - 3 + 10, 2 - 4 + 12], &[9 + 5, 12 + 6]]));
    // min(block size 4, min(sketch rows 2, columns 2))
    assert_eq!(bs, 2);
    assert_eq!(a, imat(&[&[2, 1], &[4, 3], &[6, 5]]));
}

#[test]
fn test_factorization_is_stored() {
    let mut a = imat(&[&[1, 2], &[3, 4]]);
    let sketch = imat(&[&[1, 1]]);
    let mut q_coeff = Mat::<i64>::zeros(1, 2);
    let mut col_perm = vec![0usize; 2];
    let mut col_perm_inv = vec![0usize; 2];
    let seen: RefCell<Option<(Mat<i64>, usize)>> = RefCell::new(None);
    qr_in_place(
        &mut a,
        &mut q_coeff,
        &mut col_perm,
        &mut col_perm_inv,
        &sketch,
        |_b: Mat<i64>, _bs: usize| ColPivots { perm: vec![1, 0], perm_inv: vec![1, 0], transposition_count: 1 },
        |x: Mat<i64>, bs: usize| {
            *seen.borrow_mut() = Some((x, bs));
            (imat(&[&[7, 8], &[0, 9]]), imat(&[&[5, 6]]))
        },
    );
    let (x, bs) = seen.into_inner().unwrap();
    // the unpivoted factorization runs on the permuted matrix
    assert_eq!(x, imat(&[&[2, 1], &[4, 3]]));
    assert_eq!(bs, 1);
    assert_eq!(a, imat(&[&[7, 8], &[0, 9]]));
    assert_eq!(q_coeff, imat(&[&[5, 6]]));
}

// Floating-point runs, with column-pivoted and unpivoted QR kernels written
// here by modified Gram-Schmidt.

/// Double-precision entries.
#[derive(Clone, Copy, Debug, PartialEq)]
struct F64(f64);

impl Scalar for F64 {
    // The mathematical model and the ring laws exist for verification only;
    // `f64` arithmetic does not satisfy the laws exactly, and none of these
    // items is ever called at run time.
    fn zero_spec() -> Self {
        unreachable!()
    }
    fn one_spec() -> Self {
        unreachable!()
    }
    fn add_spec(_a: Self, _b: Self) -> Self {
        unreachable!()
    }
    fn sub_spec(_a: Self, _b: Self) -> Self {
        unreachable!()
    }
    fn mul_spec(_a: Self, _b: Self) -> Self {
        unreachable!()
    }
    fn conj_spec(_a: Self) -> Self {
        unreachable!()
    }
    fn abs2_spec(_a: Self) -> Self {
        unreachable!()
    }
    fn from_usize_spec(_n: usize) -> Self {
        unreachable!()
    }
    fn div_spec(_a: Self, _b: Self) -> Self {
        unreachable!()
    }
    fn recip_spec(_a: Self) -> Self {
        unreachable!()
    }
    fn lemma_add_assoc(_a: Self, _b: Self, _c: Self) {}
    fn lemma_add_comm(_a: Self, _b: Self) {}
    fn lemma_add_zero(_a: Self) {}
    fn lemma_sub_add(_a: Self, _b: Self) {}
    fn lemma_add_sub(_a: Self, _b: Self) {}
    fn lemma_mul_assoc(_a: Self, _b: Self, _c: Self) {}
    fn lemma_mul_comm(_a: Self, _b: Self) {}
    fn lemma_mul_one(_a: Self) {}
    fn lemma_mul_zero(_a: Self) {}
    fn lemma_mul_distrib(_a: Self, _b: Self, _c: Self) {}

    fn zero() -> Self {
        F64(0.0)
    }
    fn one() -> Self {
        F64(1.0)
    }
    fn plus(&self, rhs: &Self) -> Self {
        F64(self.0 + rhs.0)
    }
    fn minus(&self, rhs: &Self) -> Self {
        F64(self.0 - rhs.0)
    }
    fn times(&self, rhs: &Self) -> Self {
        F64(self.0 * rhs.0)
    }
    fn conj(&self) -> Self {
        *self
    }
    fn abs2(&self) -> Self {
        F64(self.0 * self.0)
    }
    fn from_usize(n: usize) -> Self {
        F64(n as f64)
    }
    fn div(&self, rhs: &Self) -> Self {
        F64(self.0 / rhs.0)
    }
    fn recip(&self) -> Self {
        F64(1.0 / self.0)
    }
}

fn columns(a: &Mat<F64>) -> Vec<Vec<f64>> {
    (0..a.ncols()).map(|j| (0..a.nrows()).map(|i| a.read(i, j).0).collect()).collect()
}

fn from_columns(nrows: usize, cols: &[Vec<f64>]) -> Mat<F64> {
    let rows = (0..nrows).map(|i| cols.iter().map(|c| F64(c[i])).collect()).collect();
    Mat::from_rows(cols.len(), rows).unwrap()
}

fn dot(x: &[f64], y: &[f64]) -> f64 {
    x.iter().zip(y).map(|(a, b)| a * b).sum()
}

fn gaussian(rng: &mut StdRng, nrows: usize, ncols: usize) -> Mat<F64> {
    let mut rows = vec![vec![F64(0.0); ncols]; nrows];
    for j in 0..ncols {
        for row in rows.iter_mut() {
            let x: f64 = StandardNormal.sample(rng);
            row[j] = F64(x);
        }
    }
    Mat::from_rows(ncols, rows).unwrap()
}

/// An `m × n` matrix with orthogonal columns, column `j` of norm `2^{scale_fn(j)}`.
fn build_scaled_matrix(m: usize, n: usize, rng: &mut StdRng, scale_fn: impl Fn(usize) -> i32) -> Mat<F64> {
    let mut q = columns(&gaussian(rng, m, n));
    for j in 0..n {
        for t in 0..j {
            let r = dot(&q[t], &q[j]);
            let qt = q[t].clone();
            q[j].iter_mut().zip(&qt).for_each(|(x, y)| *x -= r * y);
        }
        let norm = dot(&q[j], &q[j]).sqrt();
        q[j].iter_mut().for_each(|x| *x /= norm);
    }
    for (j, col) in q.iter_mut().enumerate() {
        let scale = 2f64.powi(scale_fn(j));
        col.iter_mut().for_each(|x| *x *= scale);
    }
    from_columns(m, &q)
}

/// Column-pivoted QR by modified Gram-Schmidt: at each step the column of
/// largest remaining norm comes next.
fn cpqr(b: Mat<F64>, _bs: usize) -> ColPivots {
    let rows = b.nrows();
    let n = b.ncols();
    let mut cols = columns(&b);
    let mut perm: Vec<usize> = (0..n).collect();
    let mut transposition_count = 0;
    for t in 0..rows.min(n) {
        let mut best = t;
        for j in t + 1..n {
            if dot(&cols[j], &cols[j]) > dot(&cols[best], &cols[best]) {
                best = j;
            }
        }
        if best != t {
            cols.swap(t, best);
            perm.swap(t, best);
            transposition_count += 1;
        }
        let norm = dot(&cols[t], &cols[t]).sqrt();
        if norm == 0.0 {
            break;
        }
        let qt: Vec<f64> = cols[t].iter().map(|x| x / norm).collect();
        for col in cols.iter_mut().skip(t + 1) {
            let r = dot(&qt, col);
            col.iter_mut().zip(&qt).for_each(|(x, y)| *x -= r * y);
        }
    }
    let mut perm_inv = vec![0; n];
    for (j, &k) in perm.iter().enumerate() {
        perm_inv[k] = j;
    }
    ColPivots { perm, perm_inv, transposition_count }
}

/// Unpivoted QR by modified Gram-Schmidt: `Q` goes to `q_out`, `R` is
/// returned in the upper triangle of the factor.
fn mgs_qr(x: Mat<F64>, bs: usize, q_out: &RefCell<Vec<Vec<f64>>>) -> (Mat<F64>, Mat<F64>) {
    let m = x.nrows();
    let n = x.ncols();
    let mut q = columns(&x);
    let mut r = vec![vec![0.0; n]; m];
    for j in 0..n {
        for t in 0..j {
            let c = dot(&q[t], &q[j]);
            r[t][j] = c;
            let qt = q[t].clone();
            q[j].iter_mut().zip(&qt).for_each(|(a, b)| *a -= c * b);
        }
        let norm = dot(&q[j], &q[j]).sqrt();
        r[j][j] = norm;
        q[j].iter_mut().for_each(|a| *a /= norm);
    }
    *q_out.borrow_mut() = q;
    let factor = Mat::from_rows(n, r.into_iter().map(|row| row.into_iter().map(F64).collect()).collect()).unwrap();
    (factor, Mat::zeros(bs, m.min(n)))
}

/// `Q · R` equals the input with its columns permuted: column `j` is column `perm[j]`.
fn verify_qrp(q: &[Vec<f64>], r: &Mat<F64>, perm: &[usize], a_orig: &Mat<F64>) {
    let m = a_orig.nrows();
    let n = a_orig.ncols();
    for j in 0..n {
        let col = columns(a_orig)[perm[j]].clone();
        let scale = dot(&col, &col).sqrt().max(1.0);
        for i in 0..m {
            let qr: f64 = (0..n).map(|t| q[t][i] * r.read(t, j).0).sum();
            assert!((qr - col[i]).abs() <= 1e-10 * scale, "Q R P mismatch at ({i}, {j})");
        }
    }
}

fn sketched_qr(a: &mut Mat<F64>, sketch: &Mat<F64>, bs: usize, q: &RefCell<Vec<Vec<f64>>>) -> Vec<usize> {
    let m = a.nrows();
    let n = a.ncols();
    let mut h = Mat::<F64>::zeros(bs, m.min(n));
    let mut col_perm = vec![0usize; n];
    let mut col_perm_inv = vec![0usize; n];
    let info =
        qr_in_place(a, &mut h, &mut col_perm, &mut col_perm_inv, sketch, cpqr, |x: Mat<F64>, bs: usize| mgs_qr(x, bs, q));
    for (j, &k) in col_perm.iter().enumerate() {
        assert_eq!(col_perm_inv[k], j);
    }
    assert_eq!(info.transposition_count, transpositions(&col_perm));
    col_perm
}

#[test]
fn test_sketched_qr_no_pivoting_needed() {
    let rng = &mut StdRng::seed_from_u64(42);
    let n = 20;
    let m = 60;
    let bs = 8;
    let sketch_nrows = 40;

    // column j has norm 2^{-j}
    let mut a = build_scaled_matrix(m, n, rng, |j| -(j as i32));
    let a_orig = a.clone();
    let sketch = gaussian(rng, sketch_nrows, m);
    let q = RefCell::new(Vec::new());
    let perm = sketched_qr(&mut a, &sketch, bs, &q);

    // Check identity permutation (no pivoting needed).
    for j in 0..n {
        assert_eq!(perm[j], j, "expected identity perm at {j}");
    }
    verify_qrp(&q.borrow(), &a, &perm, &a_orig);
}

#[test]
fn test_sketched_qr_pivoting_needed() {
    let rng = &mut StdRng::seed_from_u64(123);
    let n = 15;
    let m = 40;
    let bs = 8;
    let sketch_nrows = 30;

    // column j has norm 2^j
    let mut a = build_scaled_matrix(m, n, rng, |j| j as i32);
    let a_orig = a.clone();

    // Run full CPQR to get the reference permutation.
    let cpqr_fwd = cpqr(a_orig.clone(), bs).perm;

    // Run sketched QR.
    let sketch = gaussian(rng, sketch_nrows, m);
    let q = RefCell::new(Vec::new());
    let perm = sketched_qr(&mut a, &sketch, bs, &q);

    // Verify same permutation as full CPQR.
    for j in 0..n {
        assert_eq!(perm[j], cpqr_fwd[j], "perm mismatch at {j}: sketched={} vs cpqr={}", perm[j], cpqr_fwd[j]);
    }
    verify_qrp(&q.borrow(), &a, &perm, &a_orig);
}

#[test]
fn test_transposition_counts() {
    assert_eq!(transpositions(&[0, 1, 2]), 0);
    assert_eq!(transpositions(&[1, 0, 2]), 1);
    assert_eq!(transpositions(&[2, 0, 3, 1]), 3);
    assert_eq!(transpositions(&[1, 0, 3, 4, 2, 5]), 3);
}

#[test]
fn test_sketched_qr_is_deterministic() {
    let rng = &mut StdRng::seed_from_u64(7);
    let (m, n, bs) = (12, 6, 4);
    let a = build_scaled_matrix(m, n, rng, |j| (j as i32 % 3) - 1);
    let sketch = gaussian(rng, 8, m);
    let run_once = || {
        let mut a1 = a.clone();
        let mut h = Mat::<F64>::zeros(bs, m.min(n));
        let mut col_perm = vec![0usize; n];
        let mut col_perm_inv = vec![0usize; n];
        let q = RefCell::new(Vec::new());
        let info = qr_in_place(&mut a1, &mut h, &mut col_perm, &mut col_perm_inv, &sketch, cpqr, |x: Mat<F64>, bs: usize| {
            mgs_qr(x, bs, &q)
        });
        (a1, h, col_perm, col_perm_inv, info.transposition_count)
    };
    let first = run_once();
    let second = run_once();
    assert_eq!(first.0, second.0);
    assert_eq!(first.1, second.1);
    assert_eq!(first.2, second.2);
    assert_eq!(first.3, second.3);
    assert_eq!(first.4, second.4);
}
