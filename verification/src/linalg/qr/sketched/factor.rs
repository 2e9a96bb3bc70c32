//! The sketched column-pivoted QR factorization.
use vstd::prelude::*;
use crate::scalar::Scalar;
use crate::mat::Mat;
use crate::algebra::{mat_mul, sum};

verus! {

/// `perm` and `inv` are mutually inverse permutations of `0..n`.
pub open spec fn is_perm_pair(perm: Seq<usize>, inv: Seq<usize>, n: nat) -> bool {
    &&& perm.len() == n
    &&& inv.len() == n
    &&& forall|p: int| 0 <= p < n ==> #[trigger] perm[p] < n
    &&& forall|p: int| 0 <= p < n ==> #[trigger] inv[p] < n
    &&& forall|p: int| 0 <= p < n ==> #[trigger] inv[perm[p] as int] == p
    &&& forall|p: int| 0 <= p < n ==> #[trigger] perm[inv[p] as int] == p
}

/// `a` with its columns permuted: column `j` of the result is column
/// `perm[j]` of `a`.
pub open spec fn permute_cols<T>(a: Seq<Seq<T>>, perm: Seq<usize>) -> Seq<Seq<T>> {
    Seq::new(a.len(), |i: int| Seq::new(perm.len(), |j: int| a[i][perm[j] as int]))
}

/// Position `i` after `t` applications of `perm`.
pub open spec fn perm_iter(perm: Seq<usize>, i: int, t: nat) -> int
    decreases t,
{
    if t == 0 {
        i
    } else {
        perm[perm_iter(perm, i, (t - 1) as nat)] as int
    }
}

/// `i` is the least position of its cycle under `perm`.
pub open spec fn is_cycle_leader(perm: Seq<usize>, i: int) -> bool {
    forall|t: nat| t < perm.len() ==> i <= #[trigger] perm_iter(perm, i, t)
}

/// The number of cycles of `perm` whose least position is below `k`.
pub open spec fn leaders_below(perm: Seq<usize>, k: nat) -> nat
    decreases k,
{
    if k == 0 {
        0
    } else {
        leaders_below(perm, (k - 1) as nat) + if is_cycle_leader(perm, k - 1) {
            1nat
        } else {
            0nat
        }
    }
}

/// The number of cycles of the permutation `perm`, fixed points included.
pub open spec fn cycle_count(perm: Seq<usize>) -> nat {
    leaders_below(perm, perm.len())
}

/// `count` is the number of transpositions that make up `perm`: its length
/// minus its number of cycles.
pub open spec fn counts_transpositions(perm: Seq<usize>, count: usize) -> bool {
    count + cycle_count(perm) == perm.len()
}

/// The number of positions `p < k` with `sigma[p] != p`.
spec fn unplaced_count(sigma: Seq<usize>, k: nat) -> nat
    decreases k,
{
    if k == 0 {
        0
    } else {
        unplaced_count(sigma, (k - 1) as nat) + if sigma[k - 1] != k - 1 {
            1nat
        } else {
            0nat
        }
    }
}

proof fn lemma_unplaced_count_place(sigma: Seq<usize>, k: nat, p: int)
    requires
        0 <= p < sigma.len(),
        sigma.len() <= usize::MAX,
        sigma[p] != p,
        p < k <= sigma.len(),
    ensures
        unplaced_count(sigma.update(p, p as usize), k) + 1 == unplaced_count(sigma, k),
    decreases k,
{
    if k - 1 != p {
        lemma_unplaced_count_place(sigma, (k - 1) as nat, p);
    } else {
        lemma_unplaced_count_same(sigma, sigma.update(p, p as usize), (k - 1) as nat);
        assert(sigma.update(p, p as usize)[p] == p);
    }
}

proof fn lemma_unplaced_count_same(s1: Seq<usize>, s2: Seq<usize>, k: nat)
    requires
        k <= s1.len(),
        k <= s2.len(),
        forall|q: int| 0 <= q < k ==> s1[q] == s2[q],
    ensures
        unplaced_count(s1, k) == unplaced_count(s2, k),
    decreases k,
{
    if k > 0 {
        lemma_unplaced_count_same(s1, s2, (k - 1) as nat);
    }
}

/// The state of the in-place permutation between two cycles: `sigma` is what
/// is left of the permutation `pi` (placed positions hold themselves), `tau[p]`
/// is the initial column now held at position `p`.
spec fn settled(sigma: Seq<usize>, pi: Seq<usize>, inv: Seq<usize>, tau: Seq<int>, n: nat) -> bool {
    &&& sigma.len() == n
    &&& tau.len() == n
    &&& forall|p: int| 0 <= p < n ==> #[trigger] sigma[p] == p || sigma[p] == pi[p]
    &&& forall|p: int| 0 <= p < n && #[trigger] sigma[p] == p ==> tau[p] == pi[p]
    &&& forall|p: int| 0 <= p < n && #[trigger] sigma[p] != p ==> tau[p] == p
    &&& forall|q: int|
        0 <= q < n && #[trigger] sigma[q] == q && pi[q] != q ==> sigma[inv[q] as int]
            == inv[q]
}

/// The state inside the walk along the cycle of `i`, with position `j` holding
/// the initial column `i`.
spec fn walking(
    sigma: Seq<usize>,
    pi: Seq<usize>,
    inv: Seq<usize>,
    tau: Seq<int>,
    n: nat,
    i: int,
    j: int,
) -> bool {
    &&& sigma.len() == n
    &&& tau.len() == n
    &&& 0 <= i < n
    &&& 0 <= j < n
    &&& forall|p: int| 0 <= p < n ==> #[trigger] sigma[p] == p || sigma[p] == pi[p]
    &&& sigma[j] == pi[j]
    &&& pi[j] != j
    &&& tau[j] == i
    &&& forall|p: int| 0 <= p < n && #[trigger] sigma[p] == p ==> tau[p] == pi[p]
    &&& forall|p: int| 0 <= p < n && #[trigger] sigma[p] != p && p != j ==> tau[p] == p
    &&& forall|q: int|
        0 <= q < n && #[trigger] sigma[q] == q && pi[q] != q && q != i ==> sigma[inv[q] as int]
            == inv[q]
    &&& j != i ==> sigma[inv[j] as int] == inv[j]
    &&& j != i ==> sigma[i] == i
}

/// Applies the column permutation `col_perm` to `a` in place by walking its
/// cycles: afterwards column `j` of `a` is its former column `col_perm[j]`.
/// `col_perm` is used as scratch space and restored from `col_perm_inv`.
fn permute_cols_in_place<T: Copy>(
    a: &mut Mat<T>,
    col_perm: &mut Vec<usize>,
    col_perm_inv: &Vec<usize>,
)
    requires
        old(a).wf(),
        is_perm_pair(old(col_perm)@, col_perm_inv@, old(a).cols()),
    ensures
        final(a).wf(),
        final(a).rows() == old(a).rows(),
        final(a).cols() == old(a).cols(),
        final(a)@ == permute_cols(old(a)@, old(col_perm)@),
        final(col_perm)@ == old(col_perm)@,
{
    let n = col_perm.len();
    let m = a.nrows();
    let ghost pi = col_perm@;
    let ghost inv = col_perm_inv@;
    let ghost a0 = a@;
    let ghost mut tau: Seq<int> = Seq::new(n as nat, |p: int| p);

    // col_perm[j] = k means column k of the input goes to position j.
    // We walk through cycles and rotate columns in-place.
    let mut i: usize = 0;
    while i < n
        invariant
            n == pi.len(),
            is_perm_pair(pi, inv, n as nat),
            inv == col_perm_inv@,
            a.wf(),
            a.rows() == m,
            a.cols() == n,
            a0.len() == m,
            forall|r: int| 0 <= r < m ==> #[trigger] a0[r].len() == n,
            i <= n,
            settled(col_perm@, pi, inv, tau, n as nat),
            forall|p: int| 0 <= p < i ==> #[trigger] col_perm@[p] == p,
            forall|p: int| 0 <= p < n ==> 0 <= #[trigger] tau[p] < n,
                    forall|r: int, p: int| 0 <= r < m && 0 <= p < n ==> #[trigger] a@[r][p] == a0[r][tau[p]],
        decreases n - i,
    {
        if col_perm[i] != i {
            let mut j = i;
            loop
                invariant_except_break
                    walking(col_perm@, pi, inv, tau, n as nat, i as int, j as int),
                    forall|p: int| 0 <= p < i ==> #[trigger] col_perm@[p] == p,
                    forall|p: int| 0 <= p < n ==> 0 <= #[trigger] tau[p] < n,
                    forall|r: int, p: int| 0 <= r < m && 0 <= p < n ==> #[trigger] a@[r][p] == a0[r][tau[p]],
                invariant
                    n == pi.len(),
                    is_perm_pair(pi, inv, n as nat),
                    inv == col_perm_inv@,
                    a.wf(),
                    a.rows() == m,
                    a.cols() == n,
                    a0.len() == m,
                    forall|r: int| 0 <= r < m ==> #[trigger] a0[r].len() == n,
                    i < n,
                    col_perm@.len() == n,
                ensures
                    settled(col_perm@, pi, inv, tau, n as nat),
                    forall|p: int| 0 <= p <= i ==> #[trigger] col_perm@[p] == p,
                    a.wf(),
                    a.rows() == m,
                    a.cols() == n,
                    forall|p: int| 0 <= p < n ==> 0 <= #[trigger] tau[p] < n,
                    forall|r: int, p: int| 0 <= r < m && 0 <= p < n ==> #[trigger] a@[r][p] == a0[r][tau[p]],
                decreases unplaced_count(col_perm@, n as nat),
            {
                let next = col_perm[j];
                if next == i {
                    proof {
                        lemma_unplaced_count_place(col_perm@, n as nat, j as int);
                    }
                    col_perm.set(j, j);
                    break;
                }
                proof {
                    // `next` has not been placed yet and still holds its own column
                    assert(inv[next as int] == j);
                    if col_perm@[next as int] == next {
                        if pi[next as int] == next {
                            assert(inv[pi[next as int] as int] == next);
                        }
                        assert(col_perm@[inv[next as int] as int] == inv[next as int]);
                    }
                    assert(next != j);
                    assert(tau[next as int] == next);
                    assert(pi[next as int] != next) by {
                        if pi[next as int] == next {
                            assert(inv[pi[next as int] as int] == next);
                        }
                    }
                }
                a.swap_cols(j, next);
                proof {
                    let t0 = tau;
                    tau = t0.update(j as int, t0[next as int]).update(next as int, t0[j as int]);
                    lemma_unplaced_count_place(col_perm@, n as nat, j as int);
                }
                col_perm.set(j, j);
                j = next;
            }
        }
        i += 1;
    }
    proof {
        assert forall|r: int, p: int| 0 <= r < m && 0 <= p < n implies #[trigger] a@[r][p] == permute_cols(a0, pi)[r][p] by {
            assert(col_perm@[p] == p);
        }
        assert forall|r: int| 0 <= r < m implies #[trigger] a@[r] =~= permute_cols(a0, pi)[r] by {}
        assert(a@ =~= permute_cols(a0, pi));
    }

    // Restore col_perm from col_perm_inv.
    let mut k: usize = 0;
    while k < n
        invariant
            n == pi.len(),
            is_perm_pair(pi, inv, n as nat),
            inv == col_perm_inv@,
            col_perm@.len() == n,
            k <= n,
            forall|q: int| 0 <= q < k ==> #[trigger] col_perm@[inv[q] as int] == q,
        decreases n - k,
    {
        proof {
            assert forall|q: int| 0 <= q < k implies #[trigger] inv[q] != inv[k as int] by {
                if inv[q] == inv[k as int] {
                    assert(pi[inv[q] as int] == q);
                    assert(pi[inv[k as int] as int] == k);
                }
            }
        }
        col_perm.set(col_perm_inv[k], k);
        k += 1;
    }
    proof {
        assert forall|p: int| 0 <= p < n implies #[trigger] col_perm@[p] == pi[p] by {
            assert(inv[pi[p] as int] == p);
        }
        assert(col_perm@ =~= pi);
    }
}


/// Information about the resulting sketched $QR$ factorization.
#[derive(Copy, Clone, Debug)]
pub struct SketchedQrInfo {
    /// Number of transpositions in the column permutation.
    pub transposition_count: usize,
}

/// The column permutation that a column-pivoting $QR$ factorization chose,
/// in the convention of `permute_cols`, with its inverse.
#[derive(Debug)]
pub struct ColPivots {
    pub perm: Vec<usize>,
    pub perm_inv: Vec<usize>,
    /// Number of transpositions in the column permutation.
    pub transposition_count: usize,
}

/// `B = S · A`, accumulated row of `A` by row of `A`: for each row `j` of
/// `A` and each row `i` of `B`, `B[i, :] += S[i, j] · A[j, :]`.
fn sketch_product<T: Scalar>(s: &Mat<T>, a: &Mat<T>) -> (b: Mat<T>)
    requires
        s.wf(),
        a.wf(),
        s.cols() == a.rows(),
    ensures
        b.wf(),
        b.rows() == s.rows(),
        b.cols() == a.cols(),
        b@ == mat_mul(s@, a@, a.cols()),
{
    let m = a.nrows();
    let n = a.ncols();
    let sr = s.nrows();
    let mut b = Mat::<T>::zeros(sr, n);
    let ghost entry = |i: int, q: int, l: nat| sum(|t: int| T::mul_spec(s@[i][t], a@[t][q]), l);
    let mut j: usize = 0;
    while j < m
        invariant
            s.wf(),
            a.wf(),
            m == a.rows(),
            n == a.cols(),
            sr == s.rows(),
            m == s.cols(),
            b.wf(),
            b.rows() == sr,
            b.cols() == n,
            j <= m,
            entry == (|i: int, q: int, l: nat| sum(|t: int| T::mul_spec(s@[i][t], a@[t][q]), l)),
            forall|i: int, q: int| 0 <= i < sr && 0 <= q < n ==> #[trigger] b@[i][q] == entry(i, q, j as nat),
        decreases m - j,
    {
        let mut i: usize = 0;
        while i < sr
            invariant
                s.wf(),
                a.wf(),
                m == a.rows(),
                n == a.cols(),
                sr == s.rows(),
                m == s.cols(),
                b.wf(),
                b.rows() == sr,
                b.cols() == n,
                j < m,
                i <= sr,
                entry == (|i: int, q: int, l: nat| sum(|t: int| T::mul_spec(s@[i][t], a@[t][q]), l)),
                forall|r: int, q: int| 0 <= r < sr && 0 <= q < n ==> #[trigger] b@[r][q] == if r < i {
                    entry(r, q, (j + 1) as nat)
                } else {
                    entry(r, q, j as nat)
                },
            decreases sr - i,
        {
            let s_ij = s.read(i, j);
            let mut q: usize = 0;
            while q < n
                invariant
                    s.wf(),
                    a.wf(),
                    m == a.rows(),
                    n == a.cols(),
                    sr == s.rows(),
                    m == s.cols(),
                    b.wf(),
                    b.rows() == sr,
                    b.cols() == n,
                    j < m,
                    i < sr,
                    q <= n,
                    s_ij == s@[i as int][j as int],
                    entry == (|i: int, q: int, l: nat| sum(|t: int| T::mul_spec(s@[i][t], a@[t][q]), l)),
                    forall|r: int, c: int| 0 <= r < sr && 0 <= c < n ==> #[trigger] b@[r][c] == if r < i || (r == i && c < q) {
                        entry(r, c, (j + 1) as nat)
                    } else {
                        entry(r, c, j as nat)
                    },
                decreases n - q,
            {
                let v = b.read(i, q).plus(&s_ij.times(&a.read(j, q)));
                b.write(i, q, v);
                q += 1;
            }
            i += 1;
        }
        j += 1;
    }
    proof {
        assert forall|i: int| 0 <= i < sr implies #[trigger] b@[i] =~= mat_mul(s@, a@, n as nat)[i] by {
            assert forall|q: int| 0 <= q < n implies #[trigger] b@[i][q] == mat_mul(s@, a@, n as nat)[i][q] by {
                assert(a@.len() == m);
            }
        }
        assert(b@ =~= mat_mul(s@, a@, n as nat));
    }
    b
}

pub open spec fn min_nat(x: nat, y: nat) -> nat {
    if x <= y {
        x
    } else {
        y
    }
}

/// The block size of the Householder coefficients of the factorization of
/// the sketch: `min(block_size, min(sketch_nrows, ncols))`.
pub open spec fn sketch_block_size(block_size: nat, sketch_nrows: nat, ncols: nat) -> nat {
    min_nat(block_size, min_nat(sketch_nrows, ncols))
}

/// `x` and `y` are matrices of one shape with the same entries.
pub open spec fn same_mat<T>(x: Mat<T>, y: Mat<T>) -> bool {
    &&& x.wf()
    &&& y.wf()
    &&& x.rows() == y.rows()
    &&& x.cols() == y.cols()
    &&& x@ == y@
}

/// The run of `qr_in_place` on `a` that passed `b` to the pivoting QR, got
/// `piv` from it and passed `ap` to the unpivoted QR, which returned
/// `factors` and `q_coeff`.
pub open spec fn sketched_qr_run<T: Scalar, P, Q>(
    a: Mat<T>,
    block_size: nat,
    sketch: Mat<T>,
    col_piv_qr: P,
    qr: Q,
    factors: Mat<T>,
    q_coeff: Mat<T>,
    col_perm: Seq<usize>,
    col_perm_inv: Seq<usize>,
    transposition_count: usize,
    b: Mat<T>,
    piv: ColPivots,
    ap: Mat<T>,
) -> bool where P: Fn(Mat<T>, usize) -> ColPivots, Q: Fn(Mat<T>, usize) -> (Mat<T>, Mat<T>) {
    &&& b.wf()
    &&& b@ == mat_mul(sketch@, a@, a.cols())
    &&& b.rows() == sketch.rows()
    &&& b.cols() == a.cols()
    &&& col_piv_qr.ensures((b, sketch_block_size(block_size, sketch.rows(), a.cols()) as usize), piv)
    &&& col_perm == piv.perm@
    &&& col_perm_inv == piv.perm_inv@
    &&& transposition_count == piv.transposition_count
    &&& ap.wf()
    &&& ap@ == permute_cols(a@, piv.perm@)
    &&& ap.rows() == a.rows()
    &&& ap.cols() == a.cols()
    &&& qr.ensures((ap, block_size as usize), (factors, q_coeff))
}

/// What `qr_in_place` leaves: the result of some run of its steps.
pub open spec fn sketched_qr_outcome<T: Scalar, P, Q>(
    a: Mat<T>,
    block_size: nat,
    sketch: Mat<T>,
    col_piv_qr: P,
    qr: Q,
    factors: Mat<T>,
    q_coeff: Mat<T>,
    col_perm: Seq<usize>,
    col_perm_inv: Seq<usize>,
    transposition_count: usize,
) -> bool where P: Fn(Mat<T>, usize) -> ColPivots, Q: Fn(Mat<T>, usize) -> (Mat<T>, Mat<T>) {
    exists|b: Mat<T>, piv: ColPivots, ap: Mat<T>|
        #[trigger] sketched_qr_run(
            a,
            block_size,
            sketch,
            col_piv_qr,
            qr,
            factors,
            q_coeff,
            col_perm,
            col_perm_inv,
            transposition_count,
            b,
            piv,
            ap,
        )
}

/// `col_piv_qr` chooses the same pivots for the same matrix and block size.
pub open spec fn pivoting_is_deterministic<T, P>(col_piv_qr: P) -> bool where
    P: Fn(Mat<T>, usize) -> ColPivots,
 {
    forall|b1: Mat<T>, b2: Mat<T>, bs: usize, p1: ColPivots, p2: ColPivots|
        #![trigger col_piv_qr.ensures((b1, bs), p1), col_piv_qr.ensures((b2, bs), p2)]
        col_piv_qr.ensures((b1, bs), p1) && col_piv_qr.ensures((b2, bs), p2) && same_mat(b1, b2)
            ==> p1.perm@ == p2.perm@ && p1.perm_inv@ == p2.perm_inv@ && p1.transposition_count
            == p2.transposition_count
}

/// `qr` factors the same matrix with the same block size the same way.
pub open spec fn qr_is_deterministic<T, Q>(qr: Q) -> bool where
    Q: Fn(Mat<T>, usize) -> (Mat<T>, Mat<T>),
 {
    forall|x1: Mat<T>, x2: Mat<T>, bs: usize, o1: (Mat<T>, Mat<T>), o2: (Mat<T>, Mat<T>)|
        #![trigger qr.ensures((x1, bs), o1), qr.ensures((x2, bs), o2)]
        qr.ensures((x1, bs), o1) && qr.ensures((x2, bs), o2) && same_mat(x1, x2) ==> same_mat(
            o1.0,
            o2.0,
        ) && same_mat(o1.1, o2.1)
}

/// With kernels that answer the same input the same way, two runs of
/// `qr_in_place` on the same matrix, block size and sketch leave the same
/// factors, coefficients and permutation, and count the same transpositions.
pub proof fn lemma_sketched_qr_deterministic<T: Scalar, P, Q>(
    a1: Mat<T>,
    a2: Mat<T>,
    block_size: nat,
    sketch: Mat<T>,
    col_piv_qr: P,
    qr: Q,
    factors1: Mat<T>,
    q_coeff1: Mat<T>,
    col_perm1: Seq<usize>,
    col_perm_inv1: Seq<usize>,
    count1: usize,
    factors2: Mat<T>,
    q_coeff2: Mat<T>,
    col_perm2: Seq<usize>,
    col_perm_inv2: Seq<usize>,
    count2: usize,
) where P: Fn(Mat<T>, usize) -> ColPivots, Q: Fn(Mat<T>, usize) -> (Mat<T>, Mat<T>)
    requires
        same_mat(a1, a2),
        pivoting_is_deterministic(col_piv_qr),
        qr_is_deterministic(qr),
        sketched_qr_outcome(
            a1,
            block_size,
            sketch,
            col_piv_qr,
            qr,
            factors1,
            q_coeff1,
            col_perm1,
            col_perm_inv1,
            count1,
        ),
        sketched_qr_outcome(
            a2,
            block_size,
            sketch,
            col_piv_qr,
            qr,
            factors2,
            q_coeff2,
            col_perm2,
            col_perm_inv2,
            count2,
        ),
    ensures
        same_mat(factors1, factors2),
        same_mat(q_coeff1, q_coeff2),
        col_perm1 == col_perm2,
        col_perm_inv1 == col_perm_inv2,
        count1 == count2,
{
    let (b1, piv1, ap1) = choose|b: Mat<T>, piv: ColPivots, ap: Mat<T>|
        sketched_qr_run(
            a1,
            block_size,
            sketch,
            col_piv_qr,
            qr,
            factors1,
            q_coeff1,
            col_perm1,
            col_perm_inv1,
            count1,
            b,
            piv,
            ap,
        );
    let (b2, piv2, ap2) = choose|b: Mat<T>, piv: ColPivots, ap: Mat<T>|
        sketched_qr_run(
            a2,
            block_size,
            sketch,
            col_piv_qr,
            qr,
            factors2,
            q_coeff2,
            col_perm2,
            col_perm_inv2,
            count2,
            b,
            piv,
            ap,
        );
    assert(same_mat(b1, b2));
    let bs = sketch_block_size(block_size, sketch.rows(), a1.cols()) as usize;
    assert(col_piv_qr.ensures((b1, bs), piv1));
    assert(col_piv_qr.ensures((b2, bs), piv2));
    assert(same_mat(ap1, ap2));
    assert(qr.ensures((ap1, block_size as usize), (factors1, q_coeff1)));
    assert(qr.ensures((ap2, block_size as usize), (factors2, q_coeff2)));
}

/// Computes the sketched column-pivoted QR factorization of matrix $A$.
///
/// The algorithm:
/// 1. Takes the Gaussian sketch matrix $S$ of size `sketch_nrows × nrows`
///    with i.i.d. $\mathcal{N}(0,1)$ entries, drawn by the caller.
/// 2. Computes $B = SA$ (size `sketch_nrows × ncols`).
/// 3. Runs the column-pivoting QR `col_piv_qr` on $B$ (with Householder block
///    size `min(block_size, min(sketch_nrows, ncols))`) to determine the column
///    permutation $P$.
/// 4. Applies $P$ to $A$ and runs the standard (no-pivoting) QR `qr` on $AP^T$
///    with the block size `Q_coeff.nrows()`.
///
/// On output, `A` contains the QR factors of $AP^T$, `Q_coeff` the Householder
/// coefficients, and `col_perm` / `col_perm_inv` describe the column
/// permutation: column `j` of $AP^T$ is column `col_perm[j]` of $A$. The
/// returned transposition count is that of the permutation, `ncols` minus its
/// number of cycles, as the pivoting QR reports it.
/// `col_perm` and `col_perm_inv` must hold `ncols` entries, `Q_coeff` must have
/// `min(nrows, ncols)` columns and the sketch at least one row.
pub fn qr_in_place<T: Scalar, P, Q>(
    a: &mut Mat<T>,
    q_coeff: &mut Mat<T>,
    col_perm: &mut Vec<usize>,
    col_perm_inv: &mut Vec<usize>,
    sketch: &Mat<T>,
    col_piv_qr: P,
    qr: Q,
) -> (info: SketchedQrInfo) where
    P: Fn(Mat<T>, usize) -> ColPivots,
    Q: Fn(Mat<T>, usize) -> (Mat<T>, Mat<T>),

    requires
        old(a).wf(),
        old(q_coeff).wf(),
        sketch.wf(),
        old(col_perm)@.len() == old(a).cols(),
        old(col_perm_inv)@.len() == old(a).cols(),
        old(q_coeff).cols() == min_nat(old(a).rows(), old(a).cols()),
        sketch.rows() > 0,
        sketch.cols() == old(a).rows(),
        forall|b: Mat<T>, bs: usize| #[trigger] col_piv_qr.requires((b, bs)),
        forall|b: Mat<T>, bs: usize, piv: ColPivots|
            #[trigger] col_piv_qr.ensures((b, bs), piv) ==> is_perm_pair(
                piv.perm@,
                piv.perm_inv@,
                b.cols(),
            ) && counts_transpositions(piv.perm@, piv.transposition_count),
        forall|x: Mat<T>, bs: usize| #[trigger] qr.requires((x, bs)),
        forall|x: Mat<T>, bs: usize, out: (Mat<T>, Mat<T>)|
            #[trigger] qr.ensures((x, bs), out) ==> {
                &&& out.0.wf()
                &&& out.0.rows() == x.rows()
                &&& out.0.cols() == x.cols()
                &&& out.1.wf()
                &&& out.1.rows() == bs
                &&& out.1.cols() == min_nat(x.rows(), x.cols())
            },
    ensures
        final(a).wf(),
        final(a).rows() == old(a).rows(),
        final(a).cols() == old(a).cols(),
        final(q_coeff).wf(),
        final(q_coeff).rows() == old(q_coeff).rows(),
        final(q_coeff).cols() == old(q_coeff).cols(),
        counts_transpositions(final(col_perm)@, info.transposition_count),
        sketched_qr_outcome(
            *old(a),
            old(q_coeff).rows(),
            *sketch,
            col_piv_qr,
            qr,
            *final(a),
            *final(q_coeff),
            final(col_perm)@,
            final(col_perm_inv)@,
            info.transposition_count,
        ),
{
    let m = a.nrows();
    let n = a.ncols();
    let block_size = q_coeff.nrows();
    let sketch_nrows = sketch.nrows();

    // Step 1: compute B = S*A.
    let b = sketch_product(sketch, a);
    let ghost b_view = b@;

    // Step 2: Run CPQR on sketch B to get column permutation.
    let sketch_size = if sketch_nrows <= n { sketch_nrows } else { n };
    let sketch_bs = if block_size <= sketch_size { block_size } else { sketch_size };
    let ghost b_spec = b;
    let piv = col_piv_qr(b, sketch_bs);
    let ghost piv_spec = piv;
    let n_trans = piv.transposition_count;
    let ColPivots { perm, perm_inv, transposition_count: _ } = piv;
    *col_perm = perm;
    *col_perm_inv = perm_inv;

    // Step 3: Apply permutation to columns of A using cycle decomposition.
    let ghost a_before = *a;
    permute_cols_in_place(a, col_perm, col_perm_inv);

    // Step 4: Run no-pivoting QR on the permuted A.
    let ghost ap = *a;
    let mut permuted = Mat::<T>::zeros(0, 0);
    std::mem::swap(&mut permuted, a);
    let (factors, coeff) = qr(permuted, block_size);
    let ghost out = (factors, coeff);
    *a = factors;
    *q_coeff = coeff;
    proof {
        assert(sketch_bs == sketch_block_size(block_size as nat, sketch_nrows as nat, n as nat) as usize);
        assert(qr.ensures((ap, block_size), out));
        assert(col_piv_qr.ensures((b_spec, sketch_bs), piv_spec));
        assert(b_spec@ == mat_mul(sketch@, old(a)@, old(a).cols()));
        assert(col_perm@ == piv_spec.perm@);
        assert(col_perm_inv@ == piv_spec.perm_inv@);
        assert(ap@ == permute_cols(old(a)@, piv_spec.perm@));
        assert(qr.ensures((ap, old(q_coeff).rows() as usize), (*a, *q_coeff)));
        assert(sketched_qr_run(
            *old(a),
            old(q_coeff).rows(),
            *sketch,
            col_piv_qr,
            qr,
            *a,
            *q_coeff,
            col_perm@,
            col_perm_inv@,
            n_trans,
            b_spec,
            piv_spec,
            ap,
        ));
    }

    SketchedQrInfo { transposition_count: n_trans }
}

} // verus!
