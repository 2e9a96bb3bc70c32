//! Mathematical model of matrices over a `Scalar` ring: finite sums, matrix
//! sums, scalings and products, matrix powers and matrix polynomials, with the
//! algebraic laws that the algorithms of this crate are proved against.
//!
//! A matrix is modelled as a sequence of rows; `mat_mul(a, b, p)` is the product
//! of `a` with the `b.len() × p` matrix `b`.
use vstd::prelude::*;
use crate::scalar::Scalar;

verus! {

// ---------------------------------------------------------------------------
// Finite sums
// ---------------------------------------------------------------------------

/// `f(0) + f(1) + ... + f(n - 1)`, added from the left.
pub open spec fn sum<T: Scalar>(f: spec_fn(int) -> T, n: nat) -> T
    decreases n,
{
    if n == 0 {
        T::zero_spec()
    } else {
        T::add_spec(sum(f, (n - 1) as nat), f(n - 1))
    }
}

pub proof fn lemma_sum_ext<T: Scalar>(f: spec_fn(int) -> T, g: spec_fn(int) -> T, n: nat)
    requires
        forall|i: int| 0 <= i < n ==> #[trigger] f(i) == g(i),
    ensures
        sum(f, n) == sum(g, n),
    decreases n,
{
    if n > 0 {
        lemma_sum_ext(f, g, (n - 1) as nat);
    }
}

pub proof fn lemma_zero_add<T: Scalar>(a: T)
    ensures
        T::add_spec(T::zero_spec(), a) == a,
{
    T::lemma_add_comm(T::zero_spec(), a);
    T::lemma_add_zero(a);
}

pub proof fn lemma_one_mul<T: Scalar>(a: T)
    ensures
        T::mul_spec(T::one_spec(), a) == a,
{
    T::lemma_mul_comm(T::one_spec(), a);
    T::lemma_mul_one(a);
}

pub proof fn lemma_zero_mul<T: Scalar>(a: T)
    ensures
        T::mul_spec(T::zero_spec(), a) == T::zero_spec(),
{
    T::lemma_mul_comm(T::zero_spec(), a);
    T::lemma_mul_zero(a);
}

pub proof fn lemma_mul_distrib_right<T: Scalar>(a: T, b: T, c: T)
    ensures
        T::mul_spec(T::add_spec(a, b), c) == T::add_spec(T::mul_spec(a, c), T::mul_spec(b, c)),
{
    T::lemma_mul_comm(T::add_spec(a, b), c);
    T::lemma_mul_distrib(c, a, b);
    T::lemma_mul_comm(c, a);
    T::lemma_mul_comm(c, b);
}

/// `(a + b) + (c + d) == (a + c) + (b + d)`
pub proof fn lemma_add_swap_middle<T: Scalar>(a: T, b: T, c: T, d: T)
    ensures
        T::add_spec(T::add_spec(a, b), T::add_spec(c, d)) == T::add_spec(
            T::add_spec(a, c),
            T::add_spec(b, d),
        ),
{
    T::lemma_add_assoc(a, b, T::add_spec(c, d));
    T::lemma_add_assoc(b, c, d);
    T::lemma_add_comm(b, c);
    T::lemma_add_assoc(c, b, d);
    T::lemma_add_assoc(a, c, T::add_spec(b, d));
}

pub proof fn lemma_sum_add<T: Scalar>(f: spec_fn(int) -> T, g: spec_fn(int) -> T, n: nat)
    ensures
        sum(|i: int| T::add_spec(f(i), g(i)), n) == T::add_spec(sum(f, n), sum(g, n)),
    decreases n,
{
    if n == 0 {
        T::lemma_add_zero(T::zero_spec());
    } else {
        lemma_sum_add(f, g, (n - 1) as nat);
        lemma_add_swap_middle(sum(f, (n - 1) as nat), sum(g, (n - 1) as nat), f(n - 1), g(n - 1));
    }
}

pub proof fn lemma_sum_mul_left<T: Scalar>(c: T, f: spec_fn(int) -> T, n: nat)
    ensures
        T::mul_spec(c, sum(f, n)) == sum(|i: int| T::mul_spec(c, f(i)), n),
    decreases n,
{
    if n == 0 {
        T::lemma_mul_zero(c);
    } else {
        lemma_sum_mul_left(c, f, (n - 1) as nat);
        T::lemma_mul_distrib(c, sum(f, (n - 1) as nat), f(n - 1));
    }
}

pub proof fn lemma_sum_mul_right<T: Scalar>(f: spec_fn(int) -> T, c: T, n: nat)
    ensures
        T::mul_spec(sum(f, n), c) == sum(|i: int| T::mul_spec(f(i), c), n),
    decreases n,
{
    if n == 0 {
        lemma_zero_mul(c);
    } else {
        lemma_sum_mul_right(f, c, (n - 1) as nat);
        lemma_mul_distrib_right(sum(f, (n - 1) as nat), f(n - 1), c);
    }
}

pub proof fn lemma_sum_zero<T: Scalar>(f: spec_fn(int) -> T, n: nat)
    requires
        forall|i: int| 0 <= i < n ==> #[trigger] f(i) == T::zero_spec(),
    ensures
        sum(f, n) == T::zero_spec(),
    decreases n,
{
    if n > 0 {
        lemma_sum_zero(f, (n - 1) as nat);
        T::lemma_add_zero(T::zero_spec());
    }
}

/// A sum whose terms vanish except at `t` is its term at `t`.
pub proof fn lemma_sum_single<T: Scalar>(f: spec_fn(int) -> T, n: nat, t: int)
    requires
        0 <= t < n,
        forall|i: int| 0 <= i < n && i != t ==> #[trigger] f(i) == T::zero_spec(),
    ensures
        sum(f, n) == f(t),
    decreases n,
{
    if t == n - 1 {
        lemma_sum_zero(f, (n - 1) as nat);
        lemma_zero_add(f(t));
    } else {
        lemma_sum_single(f, (n - 1) as nat, t);
        T::lemma_add_zero(f(t));
    }
}

/// Finite double sums may be taken in either order.
pub proof fn lemma_sum_swap<T: Scalar>(g: spec_fn(int, int) -> T, n: nat, m: nat)
    ensures
        sum(|i: int| sum(|j: int| g(i, j), m), n) == sum(|j: int| sum(|i: int| g(i, j), n), m),
    decreases n,
{
    if n == 0 {
        lemma_sum_zero(|j: int| sum(|i: int| g(i, j), 0), m);
    } else {
        let n1 = (n - 1) as nat;
        lemma_sum_swap(g, n1, m);
        let f = |j: int| sum(|i: int| g(i, j), n1);
        let h = |j: int| g(n1 as int, j);
        lemma_sum_add(f, h, m);
        lemma_sum_ext(
            |j: int| T::add_spec(f(j), h(j)),
            |j: int| sum(|i: int| g(i, j), n),
            m,
        );
        lemma_sum_ext(
            |i: int| sum(|j: int| g(i, j), m),
            |i: int| sum(|j: int| g(i, j), m),
            n,
        );
    }
}

// ---------------------------------------------------------------------------
// Matrices
// ---------------------------------------------------------------------------

/// `m` has `r` rows of `c` entries each.
pub open spec fn is_mat<T>(m: Seq<Seq<T>>, r: nat, c: nat) -> bool {
    &&& m.len() == r
    &&& forall|i: int| 0 <= i < r ==> #[trigger] m[i].len() == c
}

pub open spec fn zero_mat<T: Scalar>(r: nat, c: nat) -> Seq<Seq<T>> {
    Seq::new(r, |i: int| Seq::new(c, |j: int| T::zero_spec()))
}

pub open spec fn identity<T: Scalar>(n: nat) -> Seq<Seq<T>> {
    Seq::new(
        n,
        |i: int| Seq::new(n, |j: int| if i == j { T::one_spec() } else { T::zero_spec() }),
    )
}

/// Entry-wise sum; the shape is that of `a`.
pub open spec fn mat_add<T: Scalar>(a: Seq<Seq<T>>, b: Seq<Seq<T>>) -> Seq<Seq<T>> {
    Seq::new(a.len(), |i: int| Seq::new(a[i].len(), |j: int| T::add_spec(a[i][j], b[i][j])))
}

/// Entry-wise difference; the shape is that of `a`.
pub open spec fn mat_sub<T: Scalar>(a: Seq<Seq<T>>, b: Seq<Seq<T>>) -> Seq<Seq<T>> {
    Seq::new(a.len(), |i: int| Seq::new(a[i].len(), |j: int| T::sub_spec(a[i][j], b[i][j])))
}

/// `c · a`
pub open spec fn mat_scale<T: Scalar>(c: T, a: Seq<Seq<T>>) -> Seq<Seq<T>> {
    Seq::new(a.len(), |i: int| Seq::new(a[i].len(), |j: int| T::mul_spec(c, a[i][j])))
}

/// Entry-wise conjugate.
pub open spec fn mat_conj<T: Scalar>(a: Seq<Seq<T>>) -> Seq<Seq<T>> {
    Seq::new(a.len(), |i: int| Seq::new(a[i].len(), |j: int| T::conj_spec(a[i][j])))
}

/// `Σ_l row[l] · b[l][j]` over the rows of `b`.
pub open spec fn dot<T: Scalar>(row: Seq<T>, b: Seq<Seq<T>>, j: int) -> T {
    sum(|l: int| T::mul_spec(row[l], b[l][j]), b.len())
}

/// The product `a · b` of `a` with the `b.len() × p` matrix `b`.
pub open spec fn mat_mul<T: Scalar>(a: Seq<Seq<T>>, b: Seq<Seq<T>>, p: nat) -> Seq<Seq<T>> {
    Seq::new(a.len(), |i: int| Seq::new(p, |j: int| dot(a[i], b, j)))
}

/// The conjugate transpose of the `r × c` matrix `a`, a `c × r` matrix.
pub open spec fn adjoint<T: Scalar>(a: Seq<Seq<T>>, c: nat) -> Seq<Seq<T>> {
    Seq::new(c, |i: int| Seq::new(a.len(), |j: int| T::conj_spec(a[j][i])))
}

/// The first `k` columns of a matrix.
pub open spec fn take_cols<T>(a: Seq<Seq<T>>, k: nat) -> Seq<Seq<T>> {
    Seq::new(a.len(), |i: int| a[i].take(k as int))
}

/// `a^k` for an `n × n` matrix `a`.
pub open spec fn pow<T: Scalar>(a: Seq<Seq<T>>, k: nat, n: nat) -> Seq<Seq<T>>
    decreases k,
{
    if k == 0 {
        identity(n)
    } else {
        mat_mul(pow(a, (k - 1) as nat, n), a, n)
    }
}

/// `Σ_k c[k] · a^k`, the polynomial with coefficients `c` (lowest degree
/// first) evaluated at the `n × n` matrix `a`.
pub open spec fn poly<T: Scalar>(a: Seq<Seq<T>>, c: Seq<T>, n: nat) -> Seq<Seq<T>>
    decreases c.len(),
{
    if c.len() == 0 {
        zero_mat(n, n)
    } else {
        mat_add(poly(a, c.drop_last(), n), mat_scale(c.last(), pow(a, (c.len() - 1) as nat, n)))
    }
}

/// Horner's scheme for `poly`: `p(a) = p'(a) · a + c[0] · I`, where `p'` has
/// the coefficients `c[1..]`.
pub open spec fn horner<T: Scalar>(a: Seq<Seq<T>>, c: Seq<T>, n: nat) -> Seq<Seq<T>>
    decreases c.len(),
{
    if c.len() == 0 {
        zero_mat(n, n)
    } else {
        mat_add(mat_mul(horner(a, c.drop_first(), n), a, n), mat_scale(c[0], identity(n)))
    }
}

// ---------------------------------------------------------------------------
// Laws of matrix arithmetic
// ---------------------------------------------------------------------------

pub proof fn lemma_shapes<T: Scalar>(a: Seq<Seq<T>>, b: Seq<Seq<T>>, c: T, p: nat, r: nat, k: nat)
    requires
        is_mat(a, r, k),
    ensures
        is_mat(mat_add(a, b), r, k),
        is_mat(mat_sub(a, b), r, k),
        is_mat(mat_scale(c, a), r, k),
        is_mat(mat_conj(a), r, k),
        is_mat(mat_mul(a, b, p), r, p),
        is_mat(zero_mat::<T>(r, k), r, k),
        is_mat(identity::<T>(r), r, r),
        is_mat(adjoint(a, k), k, r),
{
}

pub proof fn lemma_pow_shape<T: Scalar>(a: Seq<Seq<T>>, k: nat, n: nat)
    ensures
        is_mat(pow(a, k, n), n, n),
    decreases k,
{
    if k > 0 {
        lemma_pow_shape(a, (k - 1) as nat, n);
    }
}

pub proof fn lemma_poly_shape<T: Scalar>(a: Seq<Seq<T>>, c: Seq<T>, n: nat)
    ensures
        is_mat(poly(a, c, n), n, n),
    decreases c.len(),
{
    if c.len() > 0 {
        lemma_poly_shape(a, c.drop_last(), n);
    }
}

pub proof fn lemma_add_comm<T: Scalar>(a: Seq<Seq<T>>, b: Seq<Seq<T>>, r: nat, c: nat)
    requires
        is_mat(a, r, c),
        is_mat(b, r, c),
    ensures
        mat_add(a, b) == mat_add(b, a),
{
    assert forall|i: int, j: int| 0 <= i < r && 0 <= j < c implies #[trigger] mat_add(a, b)[i][j]
        == mat_add(b, a)[i][j] by {
        T::lemma_add_comm(a[i][j], b[i][j]);
    }
    assert forall|i: int| 0 <= i < r implies #[trigger] mat_add(a, b)[i] =~= mat_add(b, a)[i] by {}
    assert(mat_add(a, b) =~= mat_add(b, a));
}

pub proof fn lemma_add_assoc<T: Scalar>(
    a: Seq<Seq<T>>,
    b: Seq<Seq<T>>,
    d: Seq<Seq<T>>,
    r: nat,
    c: nat,
)
    requires
        is_mat(a, r, c),
        is_mat(b, r, c),
        is_mat(d, r, c),
    ensures
        mat_add(mat_add(a, b), d) == mat_add(a, mat_add(b, d)),
{
    assert forall|i: int, j: int| 0 <= i < r && 0 <= j < c implies #[trigger] mat_add(mat_add(a, b), d)[i][j]
        == mat_add(a, mat_add(b, d))[i][j] by {
        T::lemma_add_assoc(a[i][j], b[i][j], d[i][j]);
    }
    assert forall|i: int| 0 <= i < r implies #[trigger] mat_add(mat_add(a, b), d)[i] =~= mat_add(
        a,
        mat_add(b, d),
    )[i] by {}
    assert(mat_add(mat_add(a, b), d) =~= mat_add(a, mat_add(b, d)));
}

pub proof fn lemma_add_zero_right<T: Scalar>(a: Seq<Seq<T>>, r: nat, c: nat)
    requires
        is_mat(a, r, c),
    ensures
        mat_add(a, zero_mat(r, c)) == a,
{
    assert forall|i: int, j: int| 0 <= i < r && 0 <= j < c implies #[trigger] mat_add(
        a,
        zero_mat(r, c),
    )[i][j] == a[i][j] by {
        T::lemma_add_zero(a[i][j]);
    }
    assert forall|i: int| 0 <= i < r implies #[trigger] mat_add(a, zero_mat(r, c))[i] =~= a[i] by {}
    assert(mat_add(a, zero_mat(r, c)) =~= a);
}

pub proof fn lemma_add_zero_left<T: Scalar>(a: Seq<Seq<T>>, r: nat, c: nat)
    requires
        is_mat(a, r, c),
    ensures
        mat_add(zero_mat(r, c), a) == a,
{
    lemma_add_comm(zero_mat(r, c), a, r, c);
    lemma_add_zero_right(a, r, c);
}

/// `(x - y) + y == x`
pub proof fn lemma_sub_add<T: Scalar>(x: Seq<Seq<T>>, y: Seq<Seq<T>>, r: nat, c: nat)
    requires
        is_mat(x, r, c),
        is_mat(y, r, c),
    ensures
        mat_add(mat_sub(x, y), y) == x,
{
    assert forall|i: int, j: int| 0 <= i < r && 0 <= j < c implies #[trigger] mat_add(
        mat_sub(x, y),
        y,
    )[i][j] == x[i][j] by {
        T::lemma_sub_add(x[i][j], y[i][j]);
    }
    assert forall|i: int| 0 <= i < r implies #[trigger] mat_add(mat_sub(x, y), y)[i] =~= x[i] by {}
    assert(mat_add(mat_sub(x, y), y) =~= x);
}

/// Matrix multiplication is associative.
pub proof fn lemma_mul_assoc<T: Scalar>(a: Seq<Seq<T>>, b: Seq<Seq<T>>, c: Seq<Seq<T>>, p: nat)
    ensures
        mat_mul(mat_mul(a, b, c.len()), c, p) == mat_mul(a, mat_mul(b, c, p), p),
{
    let l = mat_mul(mat_mul(a, b, c.len()), c, p);
    let r = mat_mul(a, mat_mul(b, c, p), p);
    assert forall|i: int, j: int| 0 <= i < a.len() && 0 <= j < p implies #[trigger] l[i][j]
        == r[i][j] by {
        let g = |q: int, s: int| T::mul_spec(T::mul_spec(a[i][s], b[s][q]), c[q][j]);
        // left side: Σ_q (Σ_s a_is b_sq) c_qj = Σ_q Σ_s (a_is b_sq) c_qj
        assert forall|q: int| 0 <= q < c.len() implies #[trigger] T::mul_spec(
            mat_mul(a, b, c.len())[i][q],
            c[q][j],
        ) == sum(|s: int| g(q, s), b.len()) by {
            let fq = |s: int| T::mul_spec(a[i][s], b[s][q]);
            assert(mat_mul(a, b, c.len())[i][q] == sum(fq, b.len()));
            lemma_sum_mul_right(fq, c[q][j], b.len());
            lemma_sum_ext(|s: int| T::mul_spec(fq(s), c[q][j]), |s: int| g(q, s), b.len());
        }
        lemma_sum_ext(
            |q: int| T::mul_spec(mat_mul(a, b, c.len())[i][q], c[q][j]),
            |q: int| sum(|s: int| g(q, s), b.len()),
            c.len(),
        );
        // right side: Σ_s a_is (Σ_q b_sq c_qj) = Σ_s Σ_q (a_is b_sq) c_qj
        assert forall|s: int| 0 <= s < b.len() implies #[trigger] T::mul_spec(
            a[i][s],
            mat_mul(b, c, p)[s][j],
        ) == sum(|q: int| g(q, s), c.len()) by {
            let hs = |q: int| T::mul_spec(b[s][q], c[q][j]);
            assert(mat_mul(b, c, p)[s][j] == sum(hs, c.len()));
            lemma_sum_mul_left(a[i][s], hs, c.len());
            assert forall|q: int| 0 <= q < c.len() implies #[trigger] T::mul_spec(a[i][s], hs(q))
                == g(q, s) by {
                T::lemma_mul_assoc(a[i][s], b[s][q], c[q][j]);
            }
            lemma_sum_ext(|q: int| T::mul_spec(a[i][s], hs(q)), |q: int| g(q, s), c.len());
        }
        lemma_sum_ext(
            |s: int| T::mul_spec(a[i][s], mat_mul(b, c, p)[s][j]),
            |s: int| sum(|q: int| g(q, s), c.len()),
            b.len(),
        );
        lemma_sum_swap(g, c.len(), b.len());
    }
    assert forall|i: int| 0 <= i < a.len() implies #[trigger] l[i] =~= r[i] by {}
    assert(l =~= r);
}

pub proof fn lemma_mul_identity_right<T: Scalar>(a: Seq<Seq<T>>, r: nat, n: nat)
    requires
        is_mat(a, r, n),
    ensures
        mat_mul(a, identity(n), n) == a,
{
    let m = mat_mul(a, identity(n), n);
    assert forall|i: int, j: int| 0 <= i < r && 0 <= j < n implies #[trigger] m[i][j]
        == a[i][j] by {
        let f = |l: int| T::mul_spec(a[i][l], identity::<T>(n)[l][j]);
        assert forall|l: int| 0 <= l < n && l != j implies #[trigger] f(l) == T::zero_spec() by {
            T::lemma_mul_zero(a[i][l]);
        }
        T::lemma_mul_one(a[i][j]);
        lemma_sum_single(f, n, j);
    }
    assert forall|i: int| 0 <= i < r implies #[trigger] m[i] =~= a[i] by {}
    assert(m =~= a);
}

pub proof fn lemma_mul_identity_left<T: Scalar>(a: Seq<Seq<T>>, n: nat, p: nat)
    requires
        is_mat(a, n, p),
    ensures
        mat_mul(identity(n), a, p) == a,
{
    let m = mat_mul(identity(n), a, p);
    assert forall|i: int, j: int| 0 <= i < n && 0 <= j < p implies #[trigger] m[i][j]
        == a[i][j] by {
        let f = |l: int| T::mul_spec(identity::<T>(n)[i][l], a[l][j]);
        assert forall|l: int| 0 <= l < n && l != i implies #[trigger] f(l) == T::zero_spec() by {
            lemma_zero_mul(a[l][j]);
        }
        lemma_one_mul(a[i][j]);
        lemma_sum_single(f, n, i);
    }
    assert forall|i: int| 0 <= i < n implies #[trigger] m[i] =~= a[i] by {}
    assert(m =~= a);
}

pub proof fn lemma_mul_zero_left<T: Scalar>(b: Seq<Seq<T>>, r: nat, p: nat)
    ensures
        mat_mul(zero_mat(r, b.len()), b, p) == zero_mat::<T>(r, p),
{
    let m = mat_mul(zero_mat(r, b.len()), b, p);
    assert forall|i: int, j: int| 0 <= i < r && 0 <= j < p implies #[trigger] m[i][j]
        == T::zero_spec() by {
        let f = |l: int| T::mul_spec(zero_mat::<T>(r, b.len())[i][l], b[l][j]);
        assert forall|l: int| 0 <= l < b.len() implies #[trigger] f(l) == T::zero_spec() by {
            lemma_zero_mul(b[l][j]);
        }
        lemma_sum_zero(f, b.len());
    }
    assert forall|i: int| 0 <= i < r implies #[trigger] m[i] =~= zero_mat::<T>(r, p)[i] by {}
    assert(m =~= zero_mat::<T>(r, p));
}

/// `(x + y) · b == x · b + y · b`
pub proof fn lemma_mul_add_right<T: Scalar>(
    x: Seq<Seq<T>>,
    y: Seq<Seq<T>>,
    b: Seq<Seq<T>>,
    r: nat,
    p: nat,
)
    requires
        is_mat(x, r, b.len()),
        is_mat(y, r, b.len()),
    ensures
        mat_mul(mat_add(x, y), b, p) == mat_add(mat_mul(x, b, p), mat_mul(y, b, p)),
{
    let l = mat_mul(mat_add(x, y), b, p);
    let rr = mat_add(mat_mul(x, b, p), mat_mul(y, b, p));
    assert forall|i: int, j: int| 0 <= i < r && 0 <= j < p implies #[trigger] l[i][j]
        == rr[i][j] by {
        let f = |q: int| T::mul_spec(x[i][q], b[q][j]);
        let g = |q: int| T::mul_spec(y[i][q], b[q][j]);
        assert forall|q: int| 0 <= q < b.len() implies T::mul_spec(mat_add(x, y)[i][q], b[q][j])
            == T::add_spec(f(q), g(q)) by {
            lemma_mul_distrib_right(x[i][q], y[i][q], b[q][j]);
        }
        lemma_sum_ext(
            |q: int| T::mul_spec(mat_add(x, y)[i][q], b[q][j]),
            |q: int| T::add_spec(f(q), g(q)),
            b.len(),
        );
        lemma_sum_add(f, g, b.len());
    }
    assert forall|i: int| 0 <= i < r implies #[trigger] l[i] =~= rr[i] by {}
    assert(l =~= rr);
}

/// `(s · x) · b == s · (x · b)`
pub proof fn lemma_mul_scale_left<T: Scalar>(s: T, x: Seq<Seq<T>>, b: Seq<Seq<T>>, r: nat, p: nat)
    requires
        is_mat(x, r, b.len()),
    ensures
        mat_mul(mat_scale(s, x), b, p) == mat_scale(s, mat_mul(x, b, p)),
{
    let l = mat_mul(mat_scale(s, x), b, p);
    let rr = mat_scale(s, mat_mul(x, b, p));
    assert forall|i: int, j: int| 0 <= i < r && 0 <= j < p implies #[trigger] l[i][j]
        == rr[i][j] by {
        let f = |q: int| T::mul_spec(x[i][q], b[q][j]);
        lemma_sum_mul_left(s, f, b.len());
        assert forall|q: int| 0 <= q < b.len() implies T::mul_spec(mat_scale(s, x)[i][q], b[q][j])
            == T::mul_spec(s, f(q)) by {
            T::lemma_mul_assoc(s, x[i][q], b[q][j]);
        }
        lemma_sum_ext(
            |q: int| T::mul_spec(mat_scale(s, x)[i][q], b[q][j]),
            |q: int| T::mul_spec(s, f(q)),
            b.len(),
        );
    }
    assert forall|i: int| 0 <= i < r implies #[trigger] l[i] =~= rr[i] by {}
    assert(l =~= rr);
}

/// `a^x · a^y == a^(x + y)`
pub proof fn lemma_pow_add<T: Scalar>(a: Seq<Seq<T>>, x: nat, y: nat, n: nat)
    requires
        is_mat(a, n, n),
    ensures
        mat_mul(pow(a, x, n), pow(a, y, n), n) == pow(a, x + y, n),
    decreases y,
{
    lemma_pow_shape(a, x, n);
    if y == 0 {
        lemma_mul_identity_right(pow(a, x, n), n, n);
    } else {
        let y1 = (y - 1) as nat;
        lemma_pow_add(a, x, y1, n);
        lemma_pow_shape(a, y1, n);
        lemma_mul_assoc(pow(a, x, n), pow(a, y1, n), a, n);
        assert((x + y1) + 1 == x + y);
    }
}


// ---------------------------------------------------------------------------
// Matrix polynomials
// ---------------------------------------------------------------------------

/// `p(a) = p'(a) · a + c[0] · I`, where `p'` has the coefficients `c[1..]`.
pub proof fn lemma_poly_first<T: Scalar>(a: Seq<Seq<T>>, c: Seq<T>, n: nat)
    requires
        is_mat(a, n, n),
        c.len() >= 1,
    ensures
        poly(a, c, n) == mat_add(
            mat_mul(poly(a, c.drop_first(), n), a, n),
            mat_scale(c[0], identity(n)),
        ),
    decreases c.len(),
{
    let ci = mat_scale(c[0], identity::<T>(n));
    lemma_shapes(identity::<T>(n), identity::<T>(n), c[0], n, n, n);
    if c.len() == 1 {
        assert(c.drop_last() =~= Seq::<T>::empty());
        assert(c.drop_first() =~= Seq::<T>::empty());
        lemma_add_zero_left(ci, n, n);
        lemma_mul_zero_left(a, n, n);
    } else {
        let d = c.drop_last();
        let c1 = c.drop_first();
        let d1 = d.drop_first();
        let k = (c.len() - 1) as nat;
        assert(c1.drop_last() =~= d1);
        assert(c1.last() == c.last());
        assert(d[0] == c[0]);
        lemma_poly_first(a, d, n);
        let x = mat_mul(poly(a, d1, n), a, n);
        let z = mat_scale(c.last(), pow(a, k, n));
        let pk1 = pow(a, (k - 1) as nat, n);
        lemma_poly_shape(a, d1, n);
        lemma_pow_shape(a, (k - 1) as nat, n);
        lemma_pow_shape(a, k, n);
        lemma_shapes(poly(a, d1, n), a, c.last(), n, n, n);
        lemma_shapes(pk1, a, c.last(), n, n, n);
        lemma_shapes(pow(a, k, n), a, c.last(), n, n, n);
        // p'(a) · a = p_d'(a) · a + c_last · a^k
        lemma_mul_add_right(poly(a, d1, n), mat_scale(c.last(), pk1), a, n, n);
        lemma_mul_scale_left(c.last(), pk1, a, n, n);
        // regroup (x + ci) + z into (x + z) + ci
        lemma_add_assoc(x, ci, z, n, n);
        lemma_add_comm(ci, z, n, n);
        lemma_add_assoc(x, z, ci, n, n);
    }
}

/// Horner's scheme computes the matrix polynomial.
pub proof fn lemma_horner_eq_poly<T: Scalar>(a: Seq<Seq<T>>, c: Seq<T>, n: nat)
    requires
        is_mat(a, n, n),
    ensures
        horner(a, c, n) == poly(a, c, n),
    decreases c.len(),
{
    if c.len() > 0 {
        lemma_horner_eq_poly(a, c.drop_first(), n);
        lemma_poly_first(a, c, n);
    }
}

/// Splitting the coefficients at `s`:
/// `p(a) = p_low(a) + p_high(a) · a^s`, where `p_low` has the coefficients
/// `c[..s]` and `p_high` the coefficients `c[s..]`.
pub proof fn lemma_poly_split<T: Scalar>(a: Seq<Seq<T>>, c: Seq<T>, s: nat, n: nat)
    requires
        is_mat(a, n, n),
        s <= c.len(),
    ensures
        poly(a, c, n) == mat_add(
            poly(a, c.take(s as int), n),
            mat_mul(poly(a, c.skip(s as int), n), pow(a, s, n), n),
        ),
    decreases c.len(),
{
    let ps = pow(a, s, n);
    lemma_pow_shape(a, s, n);
    lemma_poly_shape(a, c, n);
    if c.len() == s {
        assert(c.take(s as int) =~= c);
        assert(c.skip(s as int) =~= Seq::<T>::empty());
        lemma_mul_zero_left(ps, n, n);
        lemma_add_zero_right(poly(a, c, n), n, n);
    } else {
        let d = c.drop_last();
        let k = (c.len() - 1) as nat;
        let hi = c.skip(s as int);
        assert(d.take(s as int) =~= c.take(s as int));
        assert(d.skip(s as int) =~= hi.drop_last());
        assert(hi.last() == c.last());
        assert(hi.len() - 1 == k - s);
        lemma_poly_split(a, d, s, n);
        let t = poly(a, c.take(s as int), n);
        let q = mat_mul(poly(a, hi.drop_last(), n), ps, n);
        let pks = pow(a, (k - s) as nat, n);
        let z = mat_scale(c.last(), pow(a, k, n));
        lemma_poly_shape(a, c.take(s as int), n);
        lemma_poly_shape(a, hi.drop_last(), n);
        lemma_pow_shape(a, (k - s) as nat, n);
        lemma_pow_shape(a, k, n);
        lemma_shapes(poly(a, hi.drop_last(), n), ps, c.last(), n, n, n);
        lemma_shapes(pks, ps, c.last(), n, n, n);
        lemma_shapes(pow(a, k, n), ps, c.last(), n, n, n);
        // p_high(a) · a^s = q + c_last · a^(k - s) · a^s = q + c_last · a^k
        lemma_mul_add_right(poly(a, hi.drop_last(), n), mat_scale(c.last(), pks), ps, n, n);
        lemma_mul_scale_left(c.last(), pks, ps, n, n);
        lemma_pow_add(a, (k - s) as nat, s, n);
        assert((k - s) as nat + s == k);
        lemma_add_assoc(t, q, z, n, n);
    }
}


/// `s · I + t · I == (s + t) · I`
proof fn lemma_scale_identity_add<T: Scalar>(s: T, t: T, n: nat)
    ensures
        mat_add(mat_scale(s, identity(n)), mat_scale(t, identity(n))) == mat_scale(
            T::add_spec(s, t),
            identity::<T>(n),
        ),
{
    let l = mat_add(mat_scale(s, identity::<T>(n)), mat_scale(t, identity::<T>(n)));
    let r = mat_scale(T::add_spec(s, t), identity::<T>(n));
    assert forall|i: int, j: int| 0 <= i < n && 0 <= j < n implies #[trigger] l[i][j] == r[i][j] by {
        lemma_mul_distrib_right(s, t, identity::<T>(n)[i][j]);
    }
    assert forall|i: int| 0 <= i < n implies #[trigger] l[i] =~= r[i] by {}
    assert(l =~= r);
}

/// `I^k == I`
pub proof fn lemma_pow_identity<T: Scalar>(k: nat, n: nat)
    ensures
        pow(identity::<T>(n), k, n) == identity::<T>(n),
    decreases k,
{
    if k > 0 {
        lemma_pow_identity::<T>((k - 1) as nat, n);
        lemma_mul_identity_right(identity::<T>(n), n, n);
    }
}

/// At the identity matrix a polynomial is the sum of its coefficients times
/// the identity: `p(I) == (c_0 + c_1 + ... + c_d) · I`.
pub proof fn lemma_poly_at_identity<T: Scalar>(c: Seq<T>, n: nat)
    ensures
        poly(identity::<T>(n), c, n) == mat_scale(sum(|k: int| c[k], c.len()), identity::<T>(n)),
    decreases c.len(),
{
    let id = identity::<T>(n);
    if c.len() == 0 {
        let r = mat_scale(T::zero_spec(), id);
        assert forall|i: int, j: int| 0 <= i < n && 0 <= j < n implies #[trigger] r[i][j]
            == zero_mat::<T>(n, n)[i][j] by {
            lemma_zero_mul(id[i][j]);
        }
        assert forall|i: int| 0 <= i < n implies #[trigger] r[i] =~= zero_mat::<T>(n, n)[i] by {}
        assert(r =~= zero_mat::<T>(n, n));
    } else {
        let d = c.drop_last();
        lemma_poly_at_identity(d, n);
        lemma_pow_identity::<T>((c.len() - 1) as nat, n);
        lemma_sum_ext(|k: int| d[k], |k: int| c[k], d.len());
        lemma_scale_identity_add(sum(|k: int| c[k], d.len()), c.last(), n);
    }
}

/// `c · 0 == 0`
proof fn lemma_scale_zero<T: Scalar>(c: T, n: nat)
    ensures
        mat_scale(c, zero_mat::<T>(n, n)) == zero_mat::<T>(n, n),
{
    let r = mat_scale(c, zero_mat::<T>(n, n));
    assert forall|i: int, j: int| 0 <= i < n && 0 <= j < n implies #[trigger] r[i][j]
        == zero_mat::<T>(n, n)[i][j] by {
        T::lemma_mul_zero(c);
    }
    assert forall|i: int| 0 <= i < n implies #[trigger] r[i] =~= zero_mat::<T>(n, n)[i] by {}
    assert(r =~= zero_mat::<T>(n, n));
}

/// `x · 0 == 0`
proof fn lemma_mul_zero_right<T: Scalar>(x: Seq<Seq<T>>, n: nat)
    requires
        is_mat(x, n, n),
    ensures
        mat_mul(x, zero_mat::<T>(n, n), n) == zero_mat::<T>(n, n),
{
    let r = mat_mul(x, zero_mat::<T>(n, n), n);
    assert forall|i: int, j: int| 0 <= i < n && 0 <= j < n implies #[trigger] r[i][j]
        == T::zero_spec() by {
        let f = |l: int| T::mul_spec(x[i][l], zero_mat::<T>(n, n)[l][j]);
        assert forall|l: int| 0 <= l < n implies #[trigger] f(l) == T::zero_spec() by {
            T::lemma_mul_zero(x[i][l]);
        }
        lemma_sum_zero(f, n);
    }
    assert forall|i: int| 0 <= i < n implies #[trigger] r[i] =~= zero_mat::<T>(n, n)[i] by {}
    assert(r =~= zero_mat::<T>(n, n));
}

/// At the zero matrix a polynomial is its constant term times the identity:
/// `p(0) == c_0 · I`.
pub proof fn lemma_poly_at_zero<T: Scalar>(c: Seq<T>, n: nat)
    requires
        c.len() >= 1,
    ensures
        poly(zero_mat::<T>(n, n), c, n) == mat_scale(c[0], identity::<T>(n)),
    decreases c.len(),
{
    let z = zero_mat::<T>(n, n);
    lemma_shapes(identity::<T>(n), z, c[0], n, n, n);
    if c.len() == 1 {
        assert(c.drop_last() =~= Seq::<T>::empty());
        assert(c.last() == c[0]);
        assert(pow(z, 0, n) == identity::<T>(n));
        lemma_add_zero_left(mat_scale(c[0], identity::<T>(n)), n, n);
        assert(poly(z, c.drop_last(), n) == zero_mat::<T>(n, n));
        assert(poly(z, c, n) == mat_add(poly(z, c.drop_last(), n), mat_scale(c.last(), pow(z, 0, n))));
    } else {
        let d = c.drop_last();
        assert(d[0] == c[0]);
        lemma_poly_at_zero(d, n);
        let k = (c.len() - 1) as nat;
        lemma_pow_shape(z, (k - 1) as nat, n);
        lemma_mul_zero_right(pow(z, (k - 1) as nat, n), n);
        assert(pow(z, k, n) == zero_mat::<T>(n, n));
        lemma_scale_zero(c.last(), n);
        lemma_add_zero_right(mat_scale(c[0], identity::<T>(n)), n, n);
        assert(poly(z, c, n) == mat_add(poly(z, d, n), mat_scale(c.last(), pow(z, k, n))));
    }
}

} // verus!
