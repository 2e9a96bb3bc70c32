//! The scalar abstraction that the matrix algorithms are generic over.
//!
//! `Scalar` lists the operations that the algorithms of this crate perform on
//! matrix entries, each with a mathematical meaning (`*_spec`), together with
//! the ring laws that the proofs of the algebraic properties rely on.
//!
//! The crate provides one verified instance: `i64` with wrapping arithmetic,
//! i.e. the ring of integers modulo 2^64 in two's complement representation.
use vstd::prelude::*;
use vstd::arithmetic::div_mod::*;
use vstd::arithmetic::mul::*;

verus! {

/// A matrix entry type: a commutative ring with a conjugation, together with
/// the division-like operations that the statistics code needs.
pub trait Scalar: Copy + Sized {
    spec fn zero_spec() -> Self;

    spec fn one_spec() -> Self;

    spec fn add_spec(a: Self, b: Self) -> Self;

    spec fn sub_spec(a: Self, b: Self) -> Self;

    spec fn mul_spec(a: Self, b: Self) -> Self;

    spec fn conj_spec(a: Self) -> Self;

    spec fn abs2_spec(a: Self) -> Self;

    spec fn from_usize_spec(n: usize) -> Self;

    spec fn div_spec(a: Self, b: Self) -> Self;

    spec fn recip_spec(a: Self) -> Self;

    proof fn lemma_add_assoc(a: Self, b: Self, c: Self)
        ensures
            Self::add_spec(Self::add_spec(a, b), c) == Self::add_spec(a, Self::add_spec(b, c)),
    ;

    proof fn lemma_add_comm(a: Self, b: Self)
        ensures
            Self::add_spec(a, b) == Self::add_spec(b, a),
    ;

    proof fn lemma_add_zero(a: Self)
        ensures
            Self::add_spec(a, Self::zero_spec()) == a,
    ;

    proof fn lemma_sub_add(a: Self, b: Self)
        ensures
            Self::add_spec(Self::sub_spec(a, b), b) == a,
    ;

    proof fn lemma_add_sub(a: Self, b: Self)
        ensures
            Self::sub_spec(Self::add_spec(a, b), b) == a,
    ;

    proof fn lemma_mul_assoc(a: Self, b: Self, c: Self)
        ensures
            Self::mul_spec(Self::mul_spec(a, b), c) == Self::mul_spec(a, Self::mul_spec(b, c)),
    ;

    proof fn lemma_mul_comm(a: Self, b: Self)
        ensures
            Self::mul_spec(a, b) == Self::mul_spec(b, a),
    ;

    proof fn lemma_mul_one(a: Self)
        ensures
            Self::mul_spec(a, Self::one_spec()) == a,
    ;

    proof fn lemma_mul_zero(a: Self)
        ensures
            Self::mul_spec(a, Self::zero_spec()) == Self::zero_spec(),
    ;

    proof fn lemma_mul_distrib(a: Self, b: Self, c: Self)
        ensures
            Self::mul_spec(a, Self::add_spec(b, c)) == Self::add_spec(
                Self::mul_spec(a, b),
                Self::mul_spec(a, c),
            ),
    ;

    fn zero() -> (r: Self)
        ensures
            r == Self::zero_spec(),
    ;

    fn one() -> (r: Self)
        ensures
            r == Self::one_spec(),
    ;

    fn plus(&self, rhs: &Self) -> (r: Self)
        ensures
            r == Self::add_spec(*self, *rhs),
    ;

    fn minus(&self, rhs: &Self) -> (r: Self)
        ensures
            r == Self::sub_spec(*self, *rhs),
    ;

    fn times(&self, rhs: &Self) -> (r: Self)
        ensures
            r == Self::mul_spec(*self, *rhs),
    ;

    fn conj(&self) -> (r: Self)
        ensures
            r == Self::conj_spec(*self),
    ;

    fn abs2(&self) -> (r: Self)
        ensures
            r == Self::abs2_spec(*self),
    ;

    fn from_usize(n: usize) -> (r: Self)
        ensures
            r == Self::from_usize_spec(n),
    ;

    fn div(&self, rhs: &Self) -> (r: Self)
        ensures
            r == Self::div_spec(*self, *rhs),
    ;

    fn recip(&self) -> (r: Self)
        ensures
            r == Self::recip_spec(*self),
    ;
}

/// The modulus of the wrapping arithmetic of `i64`.
pub open spec fn modulus() -> int {
    0x1_0000_0000_0000_0000int
}

/// Two `i64` values that agree modulo 2^64 are equal.
proof fn lemma_i64_eq_of_congruent(x: i64, y: i64)
    requires
        (x as int) % modulus() == (y as int) % modulus(),
    ensures
        x == y,
{
    let m = modulus();
    lemma_fundamental_div_mod(x as int, m);
    lemma_fundamental_div_mod(y as int, m);
    let qx = (x as int) / m;
    let qy = (y as int) / m;
    assert(m * qx + (x as int) % m == x as int);
    assert(m * qy + (y as int) % m == y as int);
    assert(m * (qx - qy) == x as int - y as int) by {
        lemma_mul_is_distributive_sub(m, qx, qy);
    }
    if qx - qy >= 1 {
        lemma_mul_inequality(1, qx - qy, m);
        lemma_mul_is_commutative(m, qx - qy);
    } else if qx - qy <= -1 {
        lemma_mul_inequality(1, qy - qx, m);
        lemma_mul_is_commutative(m, qy - qx);
        lemma_mul_is_distributive_sub(m, qy, qx);
    } else {
        assert(qx - qy == 0);
        lemma_mul_basics(m);
    }
}

proof fn lemma_wrapping_add_congruent(a: i64, b: i64)
    ensures
        (vstd::wrapping::i64_specs::wrapping_add(a, b) as int) % modulus() == (a + b) % modulus(),
{
    let m = modulus();
    let s = a + b;
    if s > i64::MAX {
        lemma_mod_sub_multiples_vanish(s, m);
    } else if s < i64::MIN {
        lemma_mod_add_multiples_vanish(s, m);
    }
}

proof fn lemma_wrapping_sub_congruent(a: i64, b: i64)
    ensures
        (vstd::wrapping::i64_specs::wrapping_sub(a, b) as int) % modulus() == (a - b) % modulus(),
{
    let m = modulus();
    let s = a - b;
    if s > i64::MAX {
        lemma_mod_sub_multiples_vanish(s, m);
    } else if s < i64::MIN {
        lemma_mod_add_multiples_vanish(s, m);
    }
}

proof fn lemma_wrapping_mul_congruent(a: i64, b: i64)
    ensures
        (vstd::wrapping::i64_specs::wrapping_mul(a, b) as int) % modulus() == (a * b) % modulus(),
{
    let m = modulus();
    let p = a * b;
    lemma_mod_bound(p, m);
    lemma_mod_twice(p, m);
    if p % m > i64::MAX {
        lemma_mod_sub_multiples_vanish(p % m, m);
    } else {
        lemma_small_mod((p % m) as nat, m as nat);
    }
}

/// `i64` under wrapping arithmetic: the ring of integers modulo 2^64.
/// Conjugation is the identity, `abs2` is the wrapping square, and the
/// division-like operations are the truncating integer division of Rust
/// (zero where Rust's division would fail).
impl Scalar for i64 {
    open spec fn zero_spec() -> Self {
        0
    }

    open spec fn one_spec() -> Self {
        1
    }

    open spec fn add_spec(a: Self, b: Self) -> Self {
        vstd::wrapping::i64_specs::wrapping_add(a, b)
    }

    open spec fn sub_spec(a: Self, b: Self) -> Self {
        vstd::wrapping::i64_specs::wrapping_sub(a, b)
    }

    open spec fn mul_spec(a: Self, b: Self) -> Self {
        vstd::wrapping::i64_specs::wrapping_mul(a, b)
    }

    open spec fn conj_spec(a: Self) -> Self {
        a
    }

    open spec fn abs2_spec(a: Self) -> Self {
        vstd::wrapping::i64_specs::wrapping_mul(a, a)
    }

    open spec fn from_usize_spec(n: usize) -> Self {
        n as i64
    }

    open spec fn div_spec(a: Self, b: Self) -> Self {
        match a.checked_div(b) {
            Some(q) => q,
            None => 0,
        }
    }

    open spec fn recip_spec(a: Self) -> Self {
        match 1i64.checked_div(a) {
            Some(q) => q,
            None => 0,
        }
    }

    proof fn lemma_add_assoc(a: Self, b: Self, c: Self) {
        let m = modulus();
        let ab = Self::add_spec(a, b);
        let bc = Self::add_spec(b, c);
        let l = Self::add_spec(ab, c);
        let r = Self::add_spec(a, bc);
        lemma_wrapping_add_congruent(a, b);
        lemma_wrapping_add_congruent(b, c);
        lemma_wrapping_add_congruent(ab, c);
        lemma_wrapping_add_congruent(a, bc);
        lemma_add_mod_noop(ab as int, c as int, m);
        lemma_add_mod_noop(a + b, c as int, m);
        lemma_add_mod_noop(a as int, bc as int, m);
        lemma_add_mod_noop(a as int, b + c, m);
        assert((a + b) + c == a + (b + c));
        lemma_i64_eq_of_congruent(l, r);
    }

    proof fn lemma_add_comm(a: Self, b: Self) {
        lemma_wrapping_add_congruent(a, b);
        lemma_wrapping_add_congruent(b, a);
        lemma_i64_eq_of_congruent(Self::add_spec(a, b), Self::add_spec(b, a));
    }

    proof fn lemma_add_zero(a: Self) {
    }

    proof fn lemma_sub_add(a: Self, b: Self) {
        let m = modulus();
        let d = Self::sub_spec(a, b);
        let s = Self::add_spec(d, b);
        lemma_wrapping_sub_congruent(a, b);
        lemma_wrapping_add_congruent(d, b);
        lemma_add_mod_noop(d as int, b as int, m);
        lemma_add_mod_noop(a - b, b as int, m);
        assert((a - b) + b == a as int);
        lemma_i64_eq_of_congruent(s, a);
    }

    proof fn lemma_add_sub(a: Self, b: Self) {
        let m = modulus();
        let t = Self::add_spec(a, b);
        let d = Self::sub_spec(t, b);
        lemma_wrapping_add_congruent(a, b);
        lemma_wrapping_sub_congruent(t, b);
        lemma_sub_mod_noop(t as int, b as int, m);
        lemma_sub_mod_noop(a + b, b as int, m);
        assert((a + b) - b == a as int);
        lemma_i64_eq_of_congruent(d, a);
    }

    proof fn lemma_mul_assoc(a: Self, b: Self, c: Self) {
        let m = modulus();
        let ab = Self::mul_spec(a, b);
        let bc = Self::mul_spec(b, c);
        let l = Self::mul_spec(ab, c);
        let r = Self::mul_spec(a, bc);
        lemma_wrapping_mul_congruent(a, b);
        lemma_wrapping_mul_congruent(b, c);
        lemma_wrapping_mul_congruent(ab, c);
        lemma_wrapping_mul_congruent(a, bc);
        lemma_mul_mod_noop_general(ab as int, c as int, m);
        lemma_mul_mod_noop_general(a * b, c as int, m);
        lemma_mul_mod_noop_general(a as int, bc as int, m);
        lemma_mul_mod_noop_general(a as int, b * c, m);
        lemma_mul_is_associative(a as int, b as int, c as int);
        lemma_i64_eq_of_congruent(l, r);
    }

    proof fn lemma_mul_comm(a: Self, b: Self) {
        lemma_wrapping_mul_congruent(a, b);
        lemma_wrapping_mul_congruent(b, a);
        lemma_mul_is_commutative(a as int, b as int);
        lemma_i64_eq_of_congruent(Self::mul_spec(a, b), Self::mul_spec(b, a));
    }

    proof fn lemma_mul_one(a: Self) {
        lemma_wrapping_mul_congruent(a, 1);
        lemma_i64_eq_of_congruent(Self::mul_spec(a, 1), a);
    }

    proof fn lemma_mul_zero(a: Self) {
        lemma_wrapping_mul_congruent(a, 0);
        lemma_i64_eq_of_congruent(Self::mul_spec(a, 0), 0);
    }

    proof fn lemma_mul_distrib(a: Self, b: Self, c: Self) {
        let m = modulus();
        let bc = Self::add_spec(b, c);
        let ab = Self::mul_spec(a, b);
        let ac = Self::mul_spec(a, c);
        let l = Self::mul_spec(a, bc);
        let r = Self::add_spec(ab, ac);
        lemma_wrapping_add_congruent(b, c);
        lemma_wrapping_mul_congruent(a, bc);
        lemma_wrapping_mul_congruent(a, b);
        lemma_wrapping_mul_congruent(a, c);
        lemma_wrapping_add_congruent(ab, ac);
        lemma_mul_mod_noop_general(a as int, bc as int, m);
        lemma_mul_mod_noop_general(a as int, b + c, m);
        lemma_add_mod_noop(ab as int, ac as int, m);
        lemma_add_mod_noop(a * b, a * c, m);
        lemma_mul_is_distributive_add(a as int, b as int, c as int);
        lemma_i64_eq_of_congruent(l, r);
    }

    fn zero() -> (r: Self) {
        0
    }

    fn one() -> (r: Self) {
        1
    }

    fn plus(&self, rhs: &Self) -> (r: Self) {
        self.wrapping_add(*rhs)
    }

    fn minus(&self, rhs: &Self) -> (r: Self) {
        self.wrapping_sub(*rhs)
    }

    fn times(&self, rhs: &Self) -> (r: Self) {
        self.wrapping_mul(*rhs)
    }

    fn conj(&self) -> (r: Self) {
        *self
    }

    fn abs2(&self) -> (r: Self) {
        self.wrapping_mul(*self)
    }

    fn from_usize(n: usize) -> (r: Self) {
        n as i64
    }

    fn div(&self, rhs: &Self) -> (r: Self) {
        match self.checked_div(*rhs) {
            Some(q) => q,
            None => 0,
        }
    }

    fn recip(&self) -> (r: Self) {
        match 1i64.checked_div(*self) {
            Some(q) => q,
            None => 0,
        }
    }
}

} // verus!
