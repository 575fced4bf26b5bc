//! Integer square roots and the handful of arithmetic facts the geometry
//! rests on.

use vstd::prelude::*;
use vstd::arithmetic::div_mod::{lemma_fundamental_div_mod, lemma_fundamental_div_mod_converse};

verus! {

/// `r` is the largest natural number whose square does not exceed `n`.
pub open spec fn is_floor_root(n: int, r: int) -> bool {
    0 <= r && r * r <= n && n < (r + 1) * (r + 1)
}

/// `r` is the smallest natural number whose square is at least `n`.
pub open spec fn is_ceil_root(n: int, r: int) -> bool {
    0 <= r && n <= r * r && (r == 0 || (r - 1) * (r - 1) < n)
}

/// The integer part of the square root of `n`.
pub open spec fn floor_root(n: int) -> int {
    choose|r: int| is_floor_root(n, r)
}

/// The square root of `n`, rounded up.
pub open spec fn ceil_root(n: int) -> int {
    choose|r: int| is_ceil_root(n, r)
}

/// Squaring is monotone on the naturals.
pub proof fn lemma_square_monotone(a: int, b: int)
    by (nonlinear_arith)
    requires
        0 <= a <= b,
    ensures
        a * a <= b * b,
{
}

/// Squaring is strictly monotone on the naturals.
pub proof fn lemma_square_strict(a: int, b: int)
    by (nonlinear_arith)
    requires
        0 <= a < b,
    ensures
        a * a < b * b,
{
}

/// Every natural number has a floor root.
pub proof fn lemma_floor_root_exists(n: int)
    requires
        n >= 0,
    ensures
        is_floor_root(n, floor_root(n)),
    decreases n,
{
    if n == 0 {
        assert(is_floor_root(0, 0));
    } else {
        lemma_floor_root_exists(n - 1);
        let r = floor_root(n - 1);
        if (r + 1) * (r + 1) <= n {
            assert((r + 2) * (r + 2) > (r + 1) * (r + 1)) by (nonlinear_arith)
                requires
                    r >= 0,
            ;
            assert(is_floor_root(n, r + 1));
        } else {
            assert(is_floor_root(n, r));
        }
    }
}

/// Every natural number has a ceiling root.
pub proof fn lemma_ceil_root_exists(n: int)
    requires
        n >= 0,
    ensures
        is_ceil_root(n, ceil_root(n)),
{
    lemma_floor_root_exists(n);
    let f = floor_root(n);
    if f * f == n {
        if f > 0 {
            lemma_square_strict(f - 1, f);
        }
        assert(is_ceil_root(n, f));
    } else {
        assert(is_ceil_root(n, f + 1));
    }
}

/// A number has at most one floor root.
pub proof fn lemma_floor_root_unique(n: int, r: int)
    requires
        is_floor_root(n, r),
    ensures
        floor_root(n) == r,
{
    let s = floor_root(n);
    assert(is_floor_root(n, s));
    if s < r {
        lemma_square_monotone(s + 1, r);
    } else if r < s {
        lemma_square_monotone(r + 1, s);
    }
}

/// A number has at most one ceiling root.
pub proof fn lemma_ceil_root_unique(n: int, r: int)
    requires
        is_ceil_root(n, r),
    ensures
        ceil_root(n) == r,
{
    let s = ceil_root(n);
    assert(is_ceil_root(n, s));
    if s < r {
        lemma_square_monotone(s, r - 1);
    } else if r < s {
        lemma_square_monotone(r, s - 1);
    }
}

/// Computes the integer part of the square root by bisection.
pub fn sqrt_floor(n: u128) -> (r: u64)
    ensures
        is_floor_root(n as int, r as int),
        r as int == floor_root(n as int),
{
    let mut lo: u128 = 0;
    let mut hi: u128 = 0x1_0000_0000_0000_0000;
    proof {
        assert(0x1_0000_0000_0000_0000int * 0x1_0000_0000_0000_0000int
            == 0x1_0000_0000_0000_0000_0000_0000_0000_0000int);
    }
    while hi - lo > 1
        invariant
            lo < hi <= 0x1_0000_0000_0000_0000,
            lo * lo <= n,
            n < hi * hi,
        decreases hi - lo,
    {
        let mid: u128 = lo + (hi - lo) / 2;
        proof {
            lemma_square_strict(mid as int, 0x1_0000_0000_0000_0000int);
            assert(0x1_0000_0000_0000_0000int * 0x1_0000_0000_0000_0000int
                == 0x1_0000_0000_0000_0000_0000_0000_0000_0000int);
        }
        if mid * mid <= n {
            lo = mid;
        } else {
            hi = mid;
        }
    }
    proof {
        assert(hi == lo + 1);
        lemma_floor_root_unique(n as int, lo as int);
    }
    lo as u64
}

/// Computes the square root rounded up.
pub fn sqrt_ceil(n: u128) -> (r: u128)
    ensures
        is_ceil_root(n as int, r as int),
        r as int == ceil_root(n as int),
        r <= 0x1_0000_0000_0000_0000,
{
    let f: u64 = sqrt_floor(n);
    let f2: u128 = (f as u128) * (f as u128);
    let r: u128 = if f2 == n {
        f as u128
    } else {
        f as u128 + 1
    };
    proof {
        if f2 != n {
            assert((r - 1) * (r - 1) < n);
        } else if f > 0 {
            lemma_square_strict(f as int - 1, f as int);
        }
        lemma_ceil_root_unique(n as int, r as int);
    }
    r
}

/// The product of two bounded integers is bounded by the product of the bounds.
pub proof fn lemma_mul_bound(a: int, b: int, m: int, k: int)
    by (nonlinear_arith)
    requires
        -m <= a <= m,
        -k <= b <= k,
    ensures
        -(m * k) <= a * b <= m * k,
{
}

/// The quotient of a natural number by a positive one, rounded up.
pub open spec fn ceil_div(a: int, b: int) -> int {
    if a % b == 0 {
        a / b
    } else {
        a / b + 1
    }
}

/// Multiplies two machine integers without loss.
pub fn mul_i64(a: i64, b: i64) -> (r: i128)
    ensures
        r == a * b,
{
    proof {
        lemma_mul_bound(a as int, b as int, 0x8000_0000_0000_0000, 0x8000_0000_0000_0000);
    }
    (a as i128) * (b as i128)
}

/// Squares a machine integer without loss.
pub fn square_i64(a: i64) -> (r: u128)
    ensures
        r == a * a,
{
    proof {
        lemma_mul_bound(a as int, a as int, 0x8000_0000_0000_0000, 0x8000_0000_0000_0000);
        assert(a * a >= 0) by (nonlinear_arith);
    }
    let r: i128 = (a as i128) * (a as i128);
    r as u128
}

/// Divides rounding up.
pub fn div_ceil_u128(a: u128, b: u128) -> (r: u128)
    requires
        b > 0,
    ensures
        r == ceil_div(a as int, b as int),
{
    let q: u128 = a / b;
    if a % b == 0 {
        q
    } else {
        proof {
            assert(q * b <= a) by (nonlinear_arith)
                requires
                    q == a as int / b as int,
                    b > 0,
                    a >= 0,
            ;
            assert(q < a) by (nonlinear_arith)
                requires
                    q * b <= a,
                    a as int % b as int != 0,
                    q == a as int / b as int,
                    b > 0,
            {
                if b == 1 {
                    assert(a as int % 1 == 0);
                }
            }
        }
        q + 1
    }
}

/// The quotient of `num` by a divisor other than zero, rounded towards
/// minus infinity.
pub open spec fn floor_div(num: int, den: int) -> int {
    if den > 0 {
        num / den
    } else {
        (-num) / (-den)
    }
}

/// Rounding a negative quotient down is rounding its opposite up.
pub proof fn lemma_floor_div_negative(n: int, d: int)
    requires
        n < 0,
        d > 0,
    ensures
        n / d == -ceil_div(-n, d),
{
    let q = n / d;
    let r = n % d;
    lemma_fundamental_div_mod(n, d);
    assert(n == d * q + r);
    assert(0 <= r < d) by (nonlinear_arith)
        requires
            r == n % d,
            d > 0,
    ;
    if r == 0 {
        assert(-n == (-q) * d + 0) by (nonlinear_arith)
            requires
                n == d * q + r,
                r == 0,
        ;
        lemma_fundamental_div_mod_converse(-n, d, -q, 0);
    } else {
        assert(-n == (-q - 1) * d + (d - r)) by (nonlinear_arith)
            requires
                n == d * q + r,
        ;
        lemma_fundamental_div_mod_converse(-n, d, -q - 1, d - r);
    }
}

/// Divides rounding towards minus infinity.
pub fn floor_div_i128(num: i128, den: i128) -> (q: i128)
    requires
        den != 0,
        -0x4000_0000_0000_0000_0000_0000_0000_0000 <= num <= 0x4000_0000_0000_0000_0000_0000_0000_0000,
        -0x4000_0000_0000_0000_0000_0000_0000_0000 <= den <= 0x4000_0000_0000_0000_0000_0000_0000_0000,
    ensures
        q == floor_div(num as int, den as int),
        num >= 0 && den > 0 ==> 0 <= q <= num,
{
    let n: i128 = if den > 0 {
        num
    } else {
        -num
    };
    let d: i128 = if den > 0 {
        den
    } else {
        -den
    };
    if n >= 0 {
        let q: u128 = (n as u128) / (d as u128);
        proof {
            assert(0 <= q <= n) by (nonlinear_arith)
                requires
                    q == n as int / d as int,
                    n >= 0,
                    d > 0,
            ;
        }
        q as i128
    } else {
        let m: u128 = (-n) as u128;
        let c: u128 = div_ceil_u128(m, d as u128);
        proof {
            lemma_floor_div_negative(n as int, d as int);
            assert(0 <= c <= m) by (nonlinear_arith)
                requires
                    c == ceil_div(m as int, d as int),
                    m > 0,
                    d > 0,
            ;
        }
        -(c as i128)
    }
}

} // verus!
