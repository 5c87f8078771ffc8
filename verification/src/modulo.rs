//! Floored modulo on the signed machine integers.

use vstd::prelude::*;

verus! {

/// The floored remainder of `a` by `n`: the one `r` with `a == q * n + r` for
/// some integer `q` that is zero or has the sign of `n` and is smaller than
/// `n` in magnitude. For a positive `n` it lies in `0..n`, so `-1` goes to
/// `n - 1`.
pub open spec fn floored_mod(a: int, n: int) -> int
    recommends
        n != 0,
{
    if n > 0 || a % n == 0 {
        a % n
    } else {
        a % n + n
    }
}

/// The quotient that belongs to [`floored_mod`]: `a / n` rounded towards
/// negative infinity.
pub open spec fn floored_div(a: int, n: int) -> int
    recommends
        n != 0,
{
    if n > 0 || a % n == 0 {
        a / n
    } else {
        a / n - 1
    }
}

/// Modulo that handles negative numbers the way the floored division does:
/// the result takes the sign of the divisor, never that of the dividend.
///
/// eg: `(a + b).modulo(c)`
pub trait ModuloSignedExt: Sized {
    /// The integer that the machine value stands for.
    spec fn value(&self) -> int;

    fn modulo(&self, n: Self) -> (r: Self)
        requires
            n.value() != 0,
        ensures
            r.value() == floored_mod(self.value(), n.value()),
    ;
}

impl ModuloSignedExt for i8 {
    open spec fn value(&self) -> int {
        *self as int
    }

    #[inline]
    fn modulo(&self, n: i8) -> (r: i8) {
        if n == -1 {
            // the machine has no remainder of its least value by -1
            0
        } else {
            let r: i8 = *self % n;
            proof {
                lemma_truncated_rem(*self as int, n as int);
            }
            if r != 0 && ((r < 0) != (n < 0)) {
                r + n
            } else {
                r
            }
        }
    }
}

impl ModuloSignedExt for i16 {
    open spec fn value(&self) -> int {
        *self as int
    }

    #[inline]
    fn modulo(&self, n: i16) -> (r: i16) {
        if n == -1 {
            // the machine has no remainder of its least value by -1
            0
        } else {
            let r: i16 = *self % n;
            proof {
                lemma_truncated_rem(*self as int, n as int);
            }
            if r != 0 && ((r < 0) != (n < 0)) {
                r + n
            } else {
                r
            }
        }
    }
}

impl ModuloSignedExt for i32 {
    open spec fn value(&self) -> int {
        *self as int
    }

    #[inline]
    fn modulo(&self, n: i32) -> (r: i32) {
        if n == -1 {
            // the machine has no remainder of its least value by -1
            0
        } else {
            let r: i32 = *self % n;
            proof {
                lemma_truncated_rem(*self as int, n as int);
            }
            if r != 0 && ((r < 0) != (n < 0)) {
                r + n
            } else {
                r
            }
        }
    }
}

impl ModuloSignedExt for i64 {
    open spec fn value(&self) -> int {
        *self as int
    }

    #[inline]
    fn modulo(&self, n: i64) -> (r: i64) {
        if n == -1 {
            // the machine has no remainder of its least value by -1
            0
        } else {
            let r: i64 = *self % n;
            proof {
                lemma_truncated_rem(*self as int, n as int);
            }
            if r != 0 && ((r < 0) != (n < 0)) {
                r + n
            } else {
                r
            }
        }
    }
}

/// The remainder that the machine computes, which takes the sign of the
/// dividend, as an integer expression.
pub open spec fn truncated_rem(a: int, n: int) -> int
    recommends
        n != 0,
{
    if a >= 0 {
        a % n
    } else {
        -((-a) % n)
    }
}

/// How the floored remainder is had from the truncated one: they agree
/// unless the truncated one is nonzero and differs from the divisor in sign,
/// and then the divisor is added once.
pub proof fn lemma_truncated_rem(a: int, n: int)
    requires
        n != 0,
    ensures
        -abs(n) < truncated_rem(a, n) < abs(n),
        a >= 0 ==> truncated_rem(a, n) >= 0,
        a <= 0 ==> truncated_rem(a, n) <= 0,
        floored_mod(a, n) == {
            let r = truncated_rem(a, n);
            if r != 0 && ((r < 0) != (n < 0)) {
                r + n
            } else {
                r
            }
        },
{
    lemma_euclid(a, n);
    lemma_euclid(-a, n);
    if a < 0 {
        let q1 = a / n;
        let r1 = a % n;
        let q2 = (-a) / n;
        let r2 = (-a) % n;
        // a == q1 * n + r1 and -a == q2 * n + r2, so r1 + r2 is a multiple of n
        assert(r1 + r2 == (-(q1 + q2)) * n) by (nonlinear_arith)
            requires
                a == q1 * n + r1,
                -a == q2 * n + r2,
        ;
        lemma_small_multiple(-(q1 + q2), n, r1 + r2);
    } else if a == 0 {
        let q = a / n;
        assert(a % n == (-q) * n) by (nonlinear_arith)
            requires
                0 == q * n + a % n,
        ;
        lemma_small_multiple(-q, n, a % n);
    }
}

/// The floored remainder is zero or has the sign of the divisor, is smaller
/// than it in magnitude, and differs from the dividend by a multiple of the
/// divisor.
pub proof fn lemma_floored_mod(a: int, n: int)
    requires
        n != 0,
    ensures
        a == floored_div(a, n) * n + floored_mod(a, n),
        n > 0 ==> 0 <= floored_mod(a, n) < n,
        n < 0 ==> n < floored_mod(a, n) <= 0,
{
    lemma_euclid(a, n);
    assert((a / n - 1) * n == (a / n) * n - n) by (nonlinear_arith);
}

/// And it is the only remainder of that kind: a quotient and a remainder in
/// that range that make up the dividend are the floored ones.
pub proof fn lemma_floored_mod_unique(a: int, n: int, q: int, r: int)
    requires
        n != 0,
        a == q * n + r,
        n > 0 ==> 0 <= r < n,
        n < 0 ==> n < r <= 0,
    ensures
        r == floored_mod(a, n),
        q == floored_div(a, n),
{
    lemma_floored_mod(a, n);
    let q0 = floored_div(a, n);
    let r0 = floored_mod(a, n);
    assert(q == q0 && r == r0) by (nonlinear_arith)
        requires
            n != 0,
            q * n + r == q0 * n + r0,
            n > 0 ==> 0 <= r < n && 0 <= r0 < n,
            n < 0 ==> n < r <= 0 && n < r0 <= 0,
    ;
}

/// Euclidean division: the remainder lies in `0..|n|`.
pub proof fn lemma_euclid(a: int, n: int)
    requires
        n != 0,
    ensures
        a == (a / n) * n + a % n,
        0 <= a % n < abs(n),
{
    if n > 0 {
        vstd::arithmetic::div_mod::lemma_fundamental_div_mod(a, n);
        vstd::arithmetic::div_mod::lemma_mod_bound(a, n);
        assert((a / n) * n == n * (a / n)) by (nonlinear_arith);
    } else {
        assert(a == (a / n) * n + a % n && 0 <= a % n < -n) by (nonlinear_arith)
            requires
                n < 0,
        ;
    }
}

/// A multiple of `n` that lies in `0..2|n|` is `0` or `|n|`.
proof fn lemma_small_multiple(k: int, n: int, m: int)
    requires
        n != 0,
        m == k * n,
        0 <= m < 2 * abs(n),
    ensures
        m == 0 || m == abs(n),
{
    assert(m == 0 || m == abs(n)) by (nonlinear_arith)
        requires
            n != 0,
            m == k * n,
            0 <= m < 2 * abs(n),
    ;
}

pub open spec fn abs(n: int) -> int {
    if n < 0 {
        -n
    } else {
        n
    }
}

} // verus!
