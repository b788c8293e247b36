//! Fixed-point scale and exact integer helpers.
//!
//! A real quantity `r` is stored as the integer `r * FX`, truncated
//! toward zero.  Division and square root are written out here so that
//! their contracts state the exact integer result.

use vstd::prelude::*;

verus! {

/// Fixed-point scale: the real number 1.0 is stored as `FX`.
pub const FX: i64 = 4096;

/// Truncating (round-toward-zero) division, the convention used
/// throughout: it makes negation commute with rescaling.
pub open spec fn div_tz(a: int, b: int) -> int {
    if a >= 0 {
        a / b
    } else {
        -((-a) / b)
    }
}

/// Truncating division is odd in its dividend.
pub proof fn lemma_div_tz_neg(a: int, b: int)
    requires
        b > 0,
    ensures
        div_tz(-a, b) == -div_tz(a, b),
{
    if a > 0 {
        assert(div_tz(-a, b) == -(a / b));
    }
}

/// Rescaling an exact multiple recovers the factor.
pub proof fn lemma_div_tz_exact(k: int, b: int)
    requires
        b > 0,
    ensures
        div_tz(k * b, b) == k,
{
    if k >= 0 {
        assert(k * b >= 0) by (nonlinear_arith)
            requires
                k >= 0,
                b > 0,
        ;
        assert((k * b) / b == k) by (nonlinear_arith)
            requires
                b > 0,
        ;
    } else {
        assert(k * b < 0) by (nonlinear_arith)
            requires
                k < 0,
                b > 0,
        ;
        assert(-(k * b) == (-k) * b) by (nonlinear_arith);
        assert(((-k) * b) / b == -k) by (nonlinear_arith)
            requires
                b > 0,
        ;
    }
}

/// Truncating division never grows the magnitude of the dividend.
pub proof fn lemma_div_tz_bound(a: int, b: int)
    requires
        b > 0,
    ensures
        a >= 0 ==> 0 <= div_tz(a, b) <= a,
        a < 0 ==> a <= div_tz(a, b) <= 0,
{
    if a >= 0 {
        assert(0 <= a / b <= a) by (nonlinear_arith)
            requires
                a >= 0,
                b > 0,
        ;
    } else {
        assert(0 <= (-a) / b <= -a) by (nonlinear_arith)
            requires
                -a >= 0,
                b > 0,
        ;
    }
}

/// A bound on the dividend gives the matching bound on the quotient.
pub proof fn lemma_div_tz_quotient_bound(a: int, b: int, c: int)
    requires
        b > 0,
        c >= 0,
        -(c * b) <= a <= c * b,
    ensures
        -c <= div_tz(a, b) <= c,
{
    if a >= 0 {
        assert(0 <= a / b <= c) by (nonlinear_arith)
            requires
                b > 0,
                c >= 0,
                0 <= a <= c * b,
        ;
    } else {
        assert(0 <= (-a) / b <= c) by (nonlinear_arith)
            requires
                b > 0,
                c >= 0,
                0 <= -a <= c * b,
        ;
    }
}

/// Rescaling never grows a square: the quotient times the divisor
/// stays within the dividend, so its square stays within the
/// dividend's square.
pub proof fn lemma_div_tz_sq_bound(a: int, b: int)
    requires
        b > 0,
    ensures
        div_tz(a, b) * div_tz(a, b) * (b * b) <= a * a,
{
    let n: int = if a >= 0 {
        a
    } else {
        -a
    };
    let d: int = n / b;
    assert(0 <= d && d * b <= n) by (nonlinear_arith)
        requires
            n >= 0,
            b > 0,
            d == n / b,
    ;
    assert((d * b) * (d * b) <= n * n) by (nonlinear_arith)
        requires
            0 <= d * b <= n,
    ;
    assert(d * d * (b * b) == (d * b) * (d * b)) by (nonlinear_arith);
    assert(n * n == a * a) by (nonlinear_arith)
        requires
            n == a || n == -a,
    ;
    if a >= 0 {
        assert(div_tz(a, b) == d);
    } else {
        assert(div_tz(a, b) == -d);
        assert((-d) * (-d) == d * d) by (nonlinear_arith);
    }
}

/// Exact truncating division on machine integers; signed division is
/// carried out on the non-negative halves.
pub fn div_trunc(a: i64, b: i64) -> (r: i64)
    requires
        b > 0,
        a > i64::MIN,
    ensures
        r as int == div_tz(a as int, b as int),
{
    if a >= 0 {
        let q: u64 = (a as u64) / (b as u64);
        proof {
            assert(q <= a as u64);
        }
        q as i64
    } else {
        let n: i64 = -a;
        let q: u64 = (n as u64) / (b as u64);
        proof {
            assert(q <= n as u64);
        }
        -(q as i64)
    }
}

/// Integer square root: the exact floor of the real square root.
pub fn isqrt(x: u128) -> (r: u64)
    ensures
        (r as int) * (r as int) <= x as int,
        (x as int) < (r as int + 1) * (r as int + 1),
{
    if x == 0 {
        return 0;
    }
    let mut lo: u128 = 0;
    let mut hi: u128 = 0x1_0000_0000_0000_0000;
    proof {
        assert((x as int) < (hi as int) * (hi as int)) by (nonlinear_arith)
            requires
                hi as int == 0x1_0000_0000_0000_0000,
                (x as int) <= 0xffff_ffff_ffff_ffff_ffff_ffff_ffff_ffff,
        ;
    }
    while hi - lo > 1
        invariant
            0 <= lo < hi <= 0x1_0000_0000_0000_0000,
            (lo as int) * (lo as int) <= x as int,
            (x as int) < (hi as int) * (hi as int),
        decreases hi - lo,
    {
        let mid: u128 = lo + (hi - lo) / 2;
        proof {
            assert((mid as int) * (mid as int) < 0x1_0000_0000_0000_0000_0000_0000_0000_0000)
                by (nonlinear_arith)
                requires
                    0 <= (mid as int) < 0x1_0000_0000_0000_0000,
            ;
        }
        let sq: u128 = mid * mid;
        if sq <= x {
            lo = mid;
        } else {
            hi = mid;
        }
    }
    proof {
        assert(lo < 0x1_0000_0000_0000_0000);
    }
    lo as u64
}

} // verus!
