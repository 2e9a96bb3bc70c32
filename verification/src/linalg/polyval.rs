//! Matrix polynomial evaluation.
//!
//! Given a square matrix `A` and coefficients `[c_0, c_1, ..., c_n]`,
//! computes `p(A) = c_0 * I + c_1 * A + c_2 * A^2 + ... + c_n * A^n`.
//!
//! Two algorithms are provided:
//! - [`polyval`]: Horner's method, using `n` matrix multiplications.
//! - [`polyval_ps`]: Paterson-Stockmeyer algorithm, using ~`2√n` matrix multiplications.
use vstd::prelude::*;
use vstd::arithmetic::div_mod::lemma_fundamental_div_mod;
use crate::scalar::Scalar;
use crate::mat::Mat;
use crate::algebra::{
    horner, identity, is_mat, lemma_horner_eq_poly, lemma_mul_zero_left, lemma_poly_split,
    mat_add, mat_mul, mat_scale, poly, pow, zero_mat,
};

verus! {

/// Adds `c` to every diagonal entry of the square matrix `m`.
fn add_to_diagonal<T: Scalar>(m: &mut Mat<T>, c: T)
    requires
        old(m).wf(),
        old(m).rows() == old(m).cols(),
    ensures
        final(m).wf(),
        final(m).rows() == old(m).rows(),
        final(m).cols() == old(m).cols(),
        final(m)@ == mat_add(old(m)@, mat_scale(c, identity(old(m).rows()))),
{
    let n = m.nrows();
    let ghost target = mat_add(old(m)@, mat_scale(c, identity::<T>(n as nat)));
    proof {
        assert forall|r: int, q: int| 0 <= r < n && 0 <= q < n && r != q implies #[trigger] target[r][q]
            == old(m)@[r][q] by {
            T::lemma_mul_zero(c);
            T::lemma_add_zero(old(m)@[r][q]);
        }
        assert forall|r: int| 0 <= r < n implies #[trigger] target[r][r] == T::add_spec(
            old(m)@[r][r],
            c,
        ) by {
            T::lemma_mul_one(c);
        }
    }
    let mut i: usize = 0;
    while i < n
        invariant
            m.wf(),
            n == m.rows(),
            n == m.cols(),
            n == old(m).rows(),
            i <= n,
            target == mat_add(old(m)@, mat_scale(c, identity::<T>(n as nat))),
            forall|r: int, q: int| 0 <= r < n && 0 <= q < n && r != q ==> #[trigger] target[r][q]
                == old(m)@[r][q],
            forall|r: int| 0 <= r < n ==> #[trigger] target[r][r] == T::add_spec(old(m)@[r][r], c),
            forall|r: int, q: int|
                0 <= r < n && 0 <= q < n ==> #[trigger] m@[r][q] == if r == q && r < i {
                    target[r][q]
                } else {
                    old(m)@[r][q]
                },
        decreases n - i,
    {
        let v = m.read(i, i).plus(&c);
        m.write(i, i, v);
        i += 1;
    }
    proof {
        assert forall|r: int| 0 <= r < n implies #[trigger] m@[r] =~= target[r] by {}
        assert(m@ =~= target);
    }
}

/// Evaluates a polynomial with the given coefficients at the matrix `matrix`.
///
/// The coefficients are ordered from lowest degree to highest:
/// `coeffs = [c_0, c_1, ..., c_n]` represents the polynomial
/// `p(x) = c_0 + c_1 * x + c_2 * x^2 + ... + c_n * x^n`.
///
/// The input array has size `n + 1` for a polynomial of degree `n`.
/// The matrix must be square and `coeffs` must not be empty.
pub fn polyval<T: Scalar>(matrix: &Mat<T>, coeffs: &[T]) -> (result: Mat<T>)
    requires
        matrix.wf(),
        coeffs@.len() > 0,
        matrix.rows() == matrix.cols(),
    ensures
        result.wf(),
        result.rows() == matrix.rows(),
        result.cols() == matrix.rows(),
        result@ == poly(matrix@, coeffs@, matrix.rows()),
{
    let n = matrix.nrows();
    let ghost a = matrix@;
    let ghost len = coeffs@.len();

    // Horner's method: p(A) = (...((c_n * A + c_{n-1} * I) * A + c_{n-2} * I) ... ) * A + c_0 * I
    let degree = coeffs.len() - 1;

    // Start: result = c_n * I
    let mut result = Mat::<T>::zeros(n, n);
    add_to_diagonal(&mut result, coeffs[degree]);
    proof {
        let c = coeffs@.subrange(degree as int, len as int);
        assert(c.drop_first() =~= Seq::<T>::empty());
        assert(is_mat(a, n as nat, n as nat));
        lemma_mul_zero_left(a, n as nat, n as nat);
        assert(horner(a, c.drop_first(), n as nat) == zero_mat::<T>(n as nat, n as nat));
        assert(horner(a, c, n as nat) == mat_add(
            mat_mul(horner(a, c.drop_first(), n as nat), a, n as nat),
            mat_scale(c[0], identity::<T>(n as nat)),
        ));
    }

    // Iterate from c_{n-1} down to c_0: result = result * A + c_k * I
    let mut k = degree;
    while k > 0
        invariant
            matrix.wf(),
            a == matrix@,
            n == matrix.rows(),
            n == matrix.cols(),
            len == coeffs@.len(),
            k <= degree,
            degree == len - 1,
            result.wf(),
            result.rows() == n,
            result.cols() == n,
            result@ == horner(a, coeffs@.subrange(k as int, len as int), n as nat),
        decreases k,
    {
        k -= 1;
        let mut new_result = result.matmul(matrix);
        add_to_diagonal(&mut new_result, coeffs[k]);
        result = new_result;
        proof {
            let c = coeffs@.subrange(k as int, len as int);
            assert(c.drop_first() =~= coeffs@.subrange(k + 1, len as int));
        }
    }
    proof {
        assert(coeffs@.subrange(0, len as int) =~= coeffs@);
        lemma_horner_eq_poly(a, coeffs@, n as nat);
    }
    result
}

/// The least `s` with `s * s >= d`.
fn ceil_sqrt(d: usize) -> (s: usize)
    ensures
        s * s >= d,
        s == 0 || (s - 1) * (s - 1) < d,
        s <= d || d == 0,
{
    let mut s: usize = 0;
    loop
        invariant
            s == 0 || (s - 1) * (s - 1) < d,
            s <= d || d == 0,
        ensures
            s * s >= d,
            s == 0 || (s - 1) * (s - 1) < d,
            s <= d || d == 0,
        decreases d - s,
    {
        assert((s as u128) * (s as u128) <= u128::MAX) by (nonlinear_arith)
            requires
                s <= usize::MAX,
                usize::MAX < 0x1_0000_0000_0000_0000,
        ;
        if (s as u128) * (s as u128) >= d as u128 {
            break;
        }
        proof {
            if s >= d {
                assert(s * s >= d) by (nonlinear_arith)
                    requires
                        s >= d,
                        s >= 1,
                ;
            }
        }
        s += 1;
    }
    s
}

/// The block `c[start..min(start + s, len)]` of the coefficients evaluated at
/// `a`, where `powers[k - 1]` holds `a^k` for `1 <= k < s`:
/// `c_{start} * I + c_{start+1} * A + ... + c_{start+s-1} * A^{s-1}`.
fn eval_block<T: Scalar>(
    powers: &Vec<Mat<T>>,
    coeffs: &[T],
    n: usize,
    s: usize,
    start: usize,
    Ghost(a): Ghost<Seq<Seq<T>>>,
) -> (block: Mat<T>)
    requires
        s >= 1,
        powers@.len() >= s,
        start <= coeffs@.len(),
        is_mat(a, n as nat, n as nat),
        forall|q: int|
            0 <= q < powers@.len() ==> {
                &&& (#[trigger] powers@[q]).wf()
                &&& powers@[q].rows() == n
                &&& powers@[q].cols() == n
                &&& powers@[q]@ == pow(a, (q + 1) as nat, n as nat)
            },
    ensures
        block.wf(),
        block.rows() == n,
        block.cols() == n,
        block@ == poly(
            a,
            coeffs@.subrange(
                start as int,
                if start + s <= coeffs@.len() {
                    start + s
                } else {
                    coeffs@.len() as int
                },
            ),
            n as nat,
        ),
{
    let ghost len = coeffs@.len();
    let mut block = Mat::<T>::zeros(n, n);

    // c_{start} * I, the constant term of this block
    if start < coeffs.len() {
        add_to_diagonal(&mut block, coeffs[start]);
        proof {
            let c = coeffs@.subrange(start as int, start + 1);
            assert(c.drop_last() =~= Seq::<T>::empty());
            assert(c.last() == coeffs@[start as int]);
            assert(pow(a, 0, n as nat) == identity::<T>(n as nat));
            assert(poly(a, c, n as nat) == mat_add(
                poly(a, c.drop_last(), n as nat),
                mat_scale(c.last(), pow(a, 0, n as nat)),
            ));
            assert(poly(a, Seq::<T>::empty(), n as nat) == zero_mat::<T>(n as nat, n as nat));
        }
    } else {
        proof {
            assert(coeffs@.subrange(start as int, len as int) =~= Seq::<T>::empty());
        }
    }

    // c_{start+k} * A^k for k = 1..s-1
    let mut k: usize = 1;
    while k < s
        invariant
            1 <= k <= s,
            s <= powers@.len(),
            start <= len,
            len == coeffs@.len(),
            is_mat(a, n as nat, n as nat),
            forall|q: int|
                0 <= q < powers@.len() ==> {
                    &&& (#[trigger] powers@[q]).wf()
                    &&& powers@[q].rows() == n
                    &&& powers@[q].cols() == n
                    &&& powers@[q]@ == pow(a, (q + 1) as nat, n as nat)
                },
            block.wf(),
            block.rows() == n,
            block.cols() == n,
            block@ == poly(
                a,
                coeffs@.subrange(
                    start as int,
                    if start + k <= len {
                        start + k
                    } else {
                        len as int
                    },
                ),
                n as nat,
            ),
        decreases s - k,
    {
        if k < coeffs.len() - start {
            // block += c_{start+k} * A^k
            block.add_scaled(coeffs[start + k], &powers[k - 1]);
            proof {
                let c = coeffs@.subrange(start as int, start + k + 1);
                assert(c.drop_last() =~= coeffs@.subrange(start as int, start + k));
            }
        }
        k += 1;
    }
    block
}

/// Facts about the number `q` of blocks of size `s` that cover `len` items.
proof fn lemma_block_count(len: nat, s: nat, q: nat)
    requires
        len >= 1,
        s >= 1,
        q == (len - 1) as nat / s + 1,
    ensures
        q >= 1,
        (q - 1) * s < len,
        len <= q * s,
{
    let d = (len - 1) as nat;
    lemma_fundamental_div_mod(d as int, s as int);
    let r = d % s;
    assert(0 <= r < s) by {
        vstd::arithmetic::div_mod::lemma_mod_bound(d as int, s as int);
    }
    assert((q - 1) * s + r == d) by (nonlinear_arith)
        requires
            q - 1 == d / s,
            s * (d / s) + r == d,
    ;
    assert(q * s == (q - 1) * s + s) by (nonlinear_arith);
}

/// Evaluates a matrix polynomial using the Paterson-Stockmeyer algorithm.
///
/// This is more efficient than Horner's method ([`polyval`]) for polynomials of
/// degree >= 4, reducing the number of matrix multiplications from `d` to
/// approximately `2√d`.
///
/// The algorithm works by choosing a block size `s ≈ √d`, precomputing
/// `A, A^2, ..., A^s`, then rewriting the polynomial in base-`s` blocks
/// and evaluating with Horner's method on those blocks.
///
/// The coefficients are ordered from lowest degree to highest:
/// `coeffs = [c_0, c_1, ..., c_n]` represents the polynomial
/// `p(x) = c_0 + c_1 * x + c_2 * x^2 + ... + c_n * x^n`.
/// The matrix must be square and `coeffs` must not be empty.
pub fn polyval_ps<T: Scalar>(matrix: &Mat<T>, coeffs: &[T]) -> (result: Mat<T>)
    requires
        matrix.wf(),
        coeffs@.len() > 0,
        matrix.rows() == matrix.cols(),
    ensures
        result.wf(),
        result.rows() == matrix.rows(),
        result.cols() == matrix.rows(),
        result@ == poly(matrix@, coeffs@, matrix.rows()),
{
    let n = matrix.nrows();
    let ghost a = matrix@;
    let ghost len = coeffs@.len();
    let degree = coeffs.len() - 1;

    // For small polynomials, fall back to Horner's method
    if degree <= 3 {
        return polyval(matrix, coeffs);
    }

    // Choose block size s ≈ √degree
    let s = ceil_sqrt(degree);
    assert(s >= 2) by (nonlinear_arith)
        requires
            s * s >= degree,
            degree >= 4,
    ;

    // Precompute powers: powers[i] = A^(i+1) for i = 0..s-1
    let mut powers: Vec<Mat<T>> = Vec::new();
    powers.push(matrix.to_owned());
    proof {
        lemma_mul_identity_left_pow1(a, n as nat);
    }
    let mut i: usize = 1;
    while i < s
        invariant
            1 <= i <= s,
            powers@.len() == i,
            matrix.wf(),
            a == matrix@,
            n == matrix.rows(),
            n == matrix.cols(),
            forall|q: int|
                0 <= q < powers@.len() ==> {
                    &&& (#[trigger] powers@[q]).wf()
                    &&& powers@[q].rows() == n
                    &&& powers@[q].cols() == n
                    &&& powers@[q]@ == pow(a, (q + 1) as nat, n as nat)
                },
        decreases s - i,
    {
        let power = powers[i - 1].matmul(matrix);
        powers.push(power);
        i += 1;
    }

    // Number of blocks: the least q with q * s >= coeffs.len()
    let clen = coeffs.len();
    let num_blocks = (clen - 1) / s + 1;
    proof {
        lemma_block_count(len, s as nat, num_blocks as nat);
    }
    assert((num_blocks - 1) * s < coeffs.len());

    // Horner evaluation on blocks using A^s as the variable:
    // result = (...((B_{q} * A^s + B_{q-1}) * A^s + B_{q-2}) ...) * A^s + B_0
    let mut j = num_blocks - 1;
    let mut result = eval_block(&powers, coeffs, n, s, j * s, Ghost(a));
    proof {
        assert(j * s + s >= len) by (nonlinear_arith)
            requires
                j == num_blocks - 1,
                len <= num_blocks * s,
        ;
    }
    while j > 0
        invariant
            s >= 2,
            powers@.len() == s,
            j < num_blocks,
            (num_blocks - 1) * s < len,
            len == coeffs@.len(),
            clen == len,
            matrix.wf(),
            a == matrix@,
            n == matrix.rows(),
            n == matrix.cols(),
            forall|q: int|
                0 <= q < powers@.len() ==> {
                    &&& (#[trigger] powers@[q]).wf()
                    &&& powers@[q].rows() == n
                    &&& powers@[q].cols() == n
                    &&& powers@[q]@ == pow(a, (q + 1) as nat, n as nat)
                },
            result.wf(),
            result.rows() == n,
            result.cols() == n,
            result@ == poly(a, coeffs@.subrange(j * s, len as int), n as nat),
        decreases j,
    {
        j -= 1;
        assert(j * s + s <= (num_blocks - 1) * s) by (nonlinear_arith)
            requires
                j + 1 <= num_blocks - 1,
        ;
        // result = B_j + result * A^s
        let mut new_result = eval_block(&powers, coeffs, n, s, j * s, Ghost(a));
        let shifted = result.matmul(&powers[s - 1]);
        new_result.add_assign(&shifted);
        proof {
            let c = coeffs@.subrange(j * s, len as int);
            assert(c.take(s as int) =~= coeffs@.subrange(j * s, j * s + s));
            assert(c.skip(s as int) =~= coeffs@.subrange(j * s + s, len as int));
            assert((j + 1) * s == j * s + s) by (nonlinear_arith);
            lemma_poly_split(a, c, s as nat, n as nat);
        }
        result = new_result;
    }
    proof {
        assert(coeffs@.subrange(0, len as int) =~= coeffs@);
    }
    result
}

/// `a^1 == a` for an `n × n` matrix `a`.
proof fn lemma_mul_identity_left_pow1<T: Scalar>(a: Seq<Seq<T>>, n: nat)
    requires
        is_mat(a, n, n),
    ensures
        pow(a, 1, n) == a,
{
    crate::algebra::lemma_mul_identity_left(a, n, n);
    assert(pow(a, 0, n) == identity::<T>(n));
    assert(pow(a, 1, n) == mat_mul(pow(a, 0, n), a, n));
}

} // verus!
