//! Fixed-point scale constants and the exact integer primitives the
//! intersection math is built on: floor division and an integer square root.

use vstd::prelude::*;
use vstd::arithmetic::div_mod::{
    lemma_div_is_ordered, lemma_fundamental_div_mod, lemma_fundamental_div_mod_converse,
};

verus! {

/// Number of fixed-point units in one world unit: every coordinate, radius
/// and ray parameter in this crate is an integer count of `1/SCALE` world
/// units.
pub const SCALE: i64 = 65536;

/// Bound on the magnitude of every coordinate, radius and ray parameter the
/// intersection routines accept; it keeps every intermediate product of the
/// quadratic solve inside `i128`.
pub const MAX_COORD: i64 = 0x1000_0000;

/// Bound on the magnitude of the coordinates of a point produced by
/// `Ray::at` for bounded inputs.
pub const MAX_POINT: i64 = 0x200_0000_0000;

/// Magnitude bound under which `floor_div` accepts its numerator, and under
/// which its divisor must lie.
pub const DIV_BOUND: i128 = 0x1_0000_0000_0000_0000_0000_0000_0000;

/// Quotients of a numerator bounded by a multiple of the divisor are bounded
/// by the corresponding multiple.
pub proof fn lemma_div_bounds(num: int, den: int, bound: int)
    requires
        0 < den,
        0 <= bound,
        -bound <= num <= bound,
        bound % den == 0,
    ensures
        -(bound / den) <= num / den <= bound / den,
{
    lemma_fundamental_div_mod(bound, den);
    let q = bound / den;
    assert(bound == den * q + 0);
    assert(-bound == (-q) * den + 0) by (nonlinear_arith)
        requires
            bound == den * q;
    lemma_fundamental_div_mod_converse(-bound, den, -q, 0);
    lemma_div_is_ordered(num, bound, den);
    lemma_div_is_ordered(-bound, num, den);
}

/// Floor division: the quotient rounded toward negative infinity, which is
/// exactly the `/` of specifications for a positive divisor.
pub fn floor_div(num: i128, den: i128) -> (q: i128)
    requires
        0 < den < DIV_BOUND,
        -DIV_BOUND < num < DIV_BOUND,
    ensures
        q == num as int / den as int,
        num >= 0 ==> 0 <= q <= num,
        num < 0 ==> num <= q <= 0,
{
    if num >= 0 {
        let a: u128 = num as u128;
        let d: u128 = den as u128;
        let q0: u128 = a / d;
        proof {
            lemma_div_at_most_numerator(num as int, den as int);
        }
        q0 as i128
    } else {
        let a: u128 = (-num) as u128;
        let d: u128 = den as u128;
        let q0: u128 = (a + d - 1) / d;
        proof {
            let ai = a as int;
            let di = d as int;
            lemma_fundamental_div_mod(ai + di - 1, di);
            let qq = (ai + di - 1) / di;
            let rr = (ai + di - 1) % di;
            assert(ai + di - 1 == di * qq + rr);
            assert(num as int == (-qq) * di + (di - 1 - rr)) by (nonlinear_arith)
                requires
                    ai + di - 1 == di * qq + rr,
                    num as int == -ai;
            lemma_fundamental_div_mod_converse(num as int, di, -qq, di - 1 - rr);
            assert(num as int / den as int == -qq);
            // The quotient fits: qq <= a, since qq * d <= a + d - 1 and a >= 1.
            assert(qq <= ai) by (nonlinear_arith)
                requires
                    di * qq <= ai + di - 1,
                    di >= 1,
                    ai >= 1,
                    qq >= 0;
            // And qq >= 1, since a + d - 1 >= d.
            lemma_div_is_ordered(di, ai + di - 1, di);
            assert(di == 1 * di + 0) by (nonlinear_arith);
            lemma_fundamental_div_mod_converse(di, di, 1, 0);
        }
        -(q0 as i128)
    }
}

/// Dividing a non-negative number by a positive divisor cannot increase it.
proof fn lemma_div_at_most_numerator(x: int, d: int)
    requires
        0 <= x,
        1 <= d,
    ensures
        x / d <= x,
{
    lemma_fundamental_div_mod(x, d);
    let q = x / d;
    let r = x % d;
    assert(x == d * q + r);
    if q > x {
        assert(d * q >= q) by (nonlinear_arith)
            requires
                q >= 1,
                d >= 1;
        assert(false);
    }
    if q < 0 {
        assert(d * q <= q) by (nonlinear_arith)
            requires
                q <= -1,
                d >= 1;
        assert(false);
    }
}

/// The integer square root, rounded down: the unique `r >= 0` with
/// `r * r <= n < (r + 1) * (r + 1)` (and `0` for negative arguments).
pub open spec fn sqrt_floor(n: int) -> int
    decreases n,
{
    if n <= 0 {
        0
    } else {
        let r = sqrt_floor(n - 1);
        if (r + 1) * (r + 1) <= n {
            r + 1
        } else {
            r
        }
    }
}

/// `sqrt_floor` really is the rounded-down square root.
pub proof fn lemma_sqrt_floor(n: int)
    requires
        n >= 0,
    ensures
        sqrt_floor(n) >= 0,
        sqrt_floor(n) * sqrt_floor(n) <= n,
        n < (sqrt_floor(n) + 1) * (sqrt_floor(n) + 1),
    decreases n,
{
    if n > 0 {
        lemma_sqrt_floor(n - 1);
        let r = sqrt_floor(n - 1);
        if (r + 1) * (r + 1) <= n {
            assert((r + 1) * (r + 1) < (r + 2) * (r + 2)) by (nonlinear_arith)
                requires
                    r >= 0;
            assert(n <= (r + 1) * (r + 1));
        }
    }
}

/// No two distinct values satisfy the rounded-down square root property.
pub proof fn lemma_sqrt_floor_unique(n: int, r: int)
    requires
        r >= 0,
        r * r <= n,
        n < (r + 1) * (r + 1),
    ensures
        r == sqrt_floor(n),
{
    assert(n >= 0) by (nonlinear_arith)
        requires
            r * r <= n,
            r >= 0;
    lemma_sqrt_floor(n);
    let s = sqrt_floor(n);
    if r < s {
        assert(false) by (nonlinear_arith)
            requires
                r >= 0,
                s >= r + 1,
                s * s <= n,
                n < (r + 1) * (r + 1);
    }
    if s < r {
        assert(false) by (nonlinear_arith)
            requires
                s >= 0,
                r >= s + 1,
                r * r <= n,
                n < (s + 1) * (s + 1);
    }
}

/// Magnitude bound under which `isqrt` accepts its argument.
pub const SQRT_BOUND: i128 = 0x1000_0000_0000_0000_0000_0000_0000_0000;

/// Integer square root of a non-negative number, rounded down.
pub fn isqrt(n: i128) -> (r: i128)
    requires
        0 <= n < SQRT_BOUND,
    ensures
        r == sqrt_floor(n as int),
        0 <= r < 0x4000_0000_0000_0000,
        r * r <= n,
        n < (r + 1) * (r + 1),
{
    let nn: u128 = n as u128;
    let mut lo: u128 = 0;
    let mut hi: u128 = 0x4000_0000_0000_0000;
    proof {
        assert(0x4000_0000_0000_0000u128 * 0x4000_0000_0000_0000u128 == SQRT_BOUND);
    }
    while lo + 1 < hi
        invariant
            0 <= lo < hi <= 0x4000_0000_0000_0000,
            lo * lo <= nn as int,
            (nn as int) < hi * hi,
        decreases hi - lo,
    {
        let mid: u128 = lo + (hi - lo) / 2;
        proof {
            lemma_div_is_ordered(2, hi as int - lo as int, 2);
            lemma_fundamental_div_mod(hi as int - lo as int, 2);
            assert(lo < mid < hi);
        }
        proof {
            assert(mid * mid < SQRT_BOUND) by (nonlinear_arith)
                requires
                    0 <= mid < 0x4000_0000_0000_0000u128;
        }
        if mid * mid <= nn {
            lo = mid;
        } else {
            hi = mid;
        }
    }
    proof {
        assert(hi == lo + 1);
        lemma_sqrt_floor_unique(n as int, lo as int);
    }
    lo as i128
}

} // verus!
