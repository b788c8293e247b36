//! Complex numbers over fixed-point integers.
//!
//! A complex amplitude is a pair of scaled integers.  Products are
//! rescaled by [`FX`](crate::fixed::FX) with truncating division, so a
//! product of two unit-scale values is again at unit scale.

use vstd::prelude::*;
use crate::fixed::{div_tz, div_trunc, isqrt, FX};

verus! {

/// A complex value; both parts are fixed-point integers.
#[derive(Clone, Copy, Debug, PartialEq, Eq, Structural)]
pub struct Cx {
    pub re: i64,
    pub im: i64,
}

/// Real part of the exact (unscaled) product `a * b`.
pub open spec fn mul_re(a: Cx, b: Cx) -> int {
    a.re * b.re - a.im * b.im
}

/// Imaginary part of the exact (unscaled) product `a * b`.
pub open spec fn mul_im(a: Cx, b: Cx) -> int {
    a.re * b.im + a.im * b.re
}

/// Real part of the exact product `a * conj(b)`.
pub open spec fn mulc_re(a: Cx, b: Cx) -> int {
    a.re * b.re + a.im * b.im
}

/// Imaginary part of the exact product `a * conj(b)`.
pub open spec fn mulc_im(a: Cx, b: Cx) -> int {
    a.im * b.re - a.re * b.im
}

/// Squared magnitude of the exact value.
pub open spec fn sq_norm(c: Cx) -> int {
    c.re * c.re + c.im * c.im
}

/// Bounded magnitudes multiply to a bounded product.
pub proof fn lemma_abs_mul_bound(a: int, b: int, ca: int, cb: int)
    requires
        -ca <= a <= ca,
        -cb <= b <= cb,
    ensures
        -(ca * cb) <= a * b <= ca * cb,
{
    assert(-(ca * cb) <= a * b <= ca * cb) by (nonlinear_arith)
        requires
            -ca <= a <= ca,
            -cb <= b <= cb,
    ;
}

/// Real part of the running rescaled dot product over the first `n`
/// entries: the sum of `(a[i] * b[i]) / FX`.
pub open spec fn dot_re(a: Seq<Cx>, b: Seq<Cx>, n: int) -> int
    decreases n,
{
    if n <= 0 {
        0
    } else {
        dot_re(a, b, n - 1) + div_tz(mul_re(a[n - 1], b[n - 1]), FX as int)
    }
}

/// Imaginary part of the running rescaled dot product.
pub open spec fn dot_im(a: Seq<Cx>, b: Seq<Cx>, n: int) -> int
    decreases n,
{
    if n <= 0 {
        0
    } else {
        dot_im(a, b, n - 1) + div_tz(mul_im(a[n - 1], b[n - 1]), FX as int)
    }
}

/// Largest amplitude the dot product accepts on its left side.
pub const AMP_MAX: i64 = 0x4000_0000_0000;

/// Largest vector length the dot product accepts.
pub const DOT_LEN_MAX: usize = 16384;

/// Rescaled complex dot product: the sum over `i` of
/// `(a[i] * b[i]) / FX`, each part truncated toward zero.  The right
/// side must hold unit-scale values (phases or unit-scale pixels).
pub fn dot_scaled(a: &Vec<Cx>, b: &Vec<Cx>) -> (r: Cx)
    requires
        a@.len() == b@.len(),
        a@.len() <= DOT_LEN_MAX,
        forall|i: int| 0 <= i < a@.len() ==> -AMP_MAX <= #[trigger] a@[i].re <= AMP_MAX
            && -AMP_MAX <= a@[i].im <= AMP_MAX,
        forall|i: int| 0 <= i < b@.len() ==> -FX <= #[trigger] b@[i].re <= FX
            && -FX <= b@[i].im <= FX,
    ensures
        r.re as int == dot_re(a@, b@, a@.len() as int),
        r.im as int == dot_im(a@, b@, a@.len() as int),
        -(a@.len() as int) * 0x1_0000_0000_0000 <= r.re as int <= (a@.len() as int)
            * 0x1_0000_0000_0000,
        -(a@.len() as int) * 0x1_0000_0000_0000 <= r.im as int <= (a@.len() as int)
            * 0x1_0000_0000_0000,
        (forall|i: int|
            0 <= i < a@.len() ==> -FX <= #[trigger] a@[i].re <= FX && -FX <= a@[i].im <= FX)
            ==> -(a@.len() as int) * 0x2000 <= r.re as int <= (a@.len() as int) * 0x2000 && -(
        a@.len() as int) * 0x2000 <= r.im as int <= (a@.len() as int) * 0x2000,
{
    let mut acc_re: i64 = 0;
    let mut acc_im: i64 = 0;
    let n: usize = a.len();
    let mut i: usize = 0;
    while i < n
        invariant
            0 <= i <= n,
            n == a@.len() == b@.len(),
            n <= DOT_LEN_MAX,
            forall|k: int| 0 <= k < n ==> -AMP_MAX <= #[trigger] a@[k].re <= AMP_MAX
                && -AMP_MAX <= a@[k].im <= AMP_MAX,
            forall|k: int| 0 <= k < n ==> -FX <= #[trigger] b@[k].re <= FX
                && -FX <= b@[k].im <= FX,
            acc_re as int == dot_re(a@, b@, i as int),
            acc_im as int == dot_im(a@, b@, i as int),
            -(i as int) * 0x1_0000_0000_0000 <= acc_re as int <= (i as int) * 0x1_0000_0000_0000,
            -(i as int) * 0x1_0000_0000_0000 <= acc_im as int <= (i as int) * 0x1_0000_0000_0000,
            (forall|k: int|
                0 <= k < n ==> -FX <= #[trigger] a@[k].re <= FX && -FX <= a@[k].im <= FX) ==> -(
            i as int) * 0x2000 <= acc_re as int <= (i as int) * 0x2000 && -(i as int) * 0x2000
                <= acc_im as int <= (i as int) * 0x2000,
        decreases n - i,
    {
        proof {
            lemma_abs_mul_bound(a@[i as int].re as int, b@[i as int].re as int, AMP_MAX as int, FX as int);
            lemma_abs_mul_bound(a@[i as int].im as int, b@[i as int].im as int, AMP_MAX as int, FX as int);
            lemma_abs_mul_bound(a@[i as int].re as int, b@[i as int].im as int, AMP_MAX as int, FX as int);
            lemma_abs_mul_bound(a@[i as int].im as int, b@[i as int].re as int, AMP_MAX as int, FX as int);
        }
        let pr1: i64 = a[i].re * b[i].re;
        let pr2: i64 = a[i].im * b[i].im;
        let pi1: i64 = a[i].re * b[i].im;
        let pi2: i64 = a[i].im * b[i].re;
        let tr: i64 = div_trunc(pr1 - pr2, FX);
        let ti: i64 = div_trunc(pi1 + pi2, FX);
        proof {
            crate::fixed::lemma_div_tz_quotient_bound(
                (pr1 - pr2) as int,
                FX as int,
                0x1_0000_0000_0000,
            );
            crate::fixed::lemma_div_tz_quotient_bound(
                (pi1 + pi2) as int,
                FX as int,
                0x1_0000_0000_0000,
            );
            if forall|k: int|
                0 <= k < n ==> -FX <= #[trigger] a@[k].re <= FX && -FX <= a@[k].im <= FX {
                lemma_abs_mul_bound(a@[i as int].re as int, b@[i as int].re as int, FX as int, FX as int);
                lemma_abs_mul_bound(a@[i as int].im as int, b@[i as int].im as int, FX as int, FX as int);
                lemma_abs_mul_bound(a@[i as int].re as int, b@[i as int].im as int, FX as int, FX as int);
                lemma_abs_mul_bound(a@[i as int].im as int, b@[i as int].re as int, FX as int, FX as int);
                crate::fixed::lemma_div_tz_quotient_bound((pr1 - pr2) as int, FX as int, 0x2000);
                crate::fixed::lemma_div_tz_quotient_bound((pi1 + pi2) as int, FX as int, 0x2000);
            }
        }
        acc_re = acc_re + tr;
        acc_im = acc_im + ti;
        i = i + 1;
    }
    Cx { re: acc_re, im: acc_im }
}

/// Magnitude of a complex value: the integer square root of the exact
/// squared norm.
pub fn magnitude(c: Cx) -> (r: i64)
    requires
        -0x4000_0000_0000_0000 <= c.re <= 0x4000_0000_0000_0000,
        -0x4000_0000_0000_0000 <= c.im <= 0x4000_0000_0000_0000,
    ensures
        r >= 0,
        (r as int) * (r as int) <= sq_norm(c),
        sq_norm(c) < (r as int + 1) * (r as int + 1),
{
    proof {
        assert(0 <= (c.re as int) * (c.re as int) <= 0x1000_0000_0000_0000_0000_0000_0000_0000)
            by (nonlinear_arith)
            requires
                -0x4000_0000_0000_0000 <= (c.re as int) <= 0x4000_0000_0000_0000,
        ;
        assert(0 <= (c.im as int) * (c.im as int) <= 0x1000_0000_0000_0000_0000_0000_0000_0000)
            by (nonlinear_arith)
            requires
                -0x4000_0000_0000_0000 <= (c.im as int) <= 0x4000_0000_0000_0000,
        ;
    }
    let rr: i128 = (c.re as i128) * (c.re as i128);
    let ii: i128 = (c.im as i128) * (c.im as i128);
    let s: i128 = rr + ii;
    let r64: u64 = isqrt(s as u128);
    proof {
        assert((r64 as int) < 0x8000_0000_0000_0000) by (nonlinear_arith)
            requires
                (r64 as int) * (r64 as int) <= 0x2000_0000_0000_0000_0000_0000_0000_0000,
                (r64 as int) >= 0,
        ;
    }
    r64 as i64
}

} // verus!
