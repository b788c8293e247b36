//! Instantaneous per-antenna complex amplitudes and their pairwise
//! cross-correlation (the visibilities).

use vstd::prelude::*;
use crate::complex::{mulc_im, mulc_re, sq_norm, Cx, AMP_MAX};
use crate::fixed::{div_tz, div_trunc, FX};

verus! {

/// Largest signal amplitude the cross-correlation accepts.
pub const SIG_MAX: i64 = 0x800_0000;

/// Real part of the visibility of the ordered antenna pair `(i, j)`:
/// `signal_i * conj(signal_j)`, rescaled by `FX`.
pub open spec fn xcorr_re(s: Seq<Cx>, i: int, j: int) -> int {
    div_tz(mulc_re(s[i], s[j]), FX as int)
}

/// Imaginary part of the visibility of the ordered pair `(i, j)`.
pub open spec fn xcorr_im(s: Seq<Cx>, i: int, j: int) -> int {
    div_tz(mulc_im(s[i], s[j]), FX as int)
}

/// The complex amplitudes received by the antennas at one instant.
pub struct AntennaSignals {
    /// One complex amplitude per antenna.
    pub signals: Vec<Cx>,
}

impl AntennaSignals {
    /// The full cross-correlation: entry `i * n + j` is
    /// `signal_i * conj(signal_j)` rescaled by `FX`, flattened
    /// row-major (`i` outer, `j` inner) — exactly the baseline
    /// flatten order, so visibilities and baselines align index for
    /// index.
    pub fn xcorr(&self) -> (r: Vec<Cx>)
        requires
            self.signals@.len() <= 0xffff,
            forall|k: int|
                0 <= k < self.signals@.len() ==> -SIG_MAX <= (#[trigger] self.signals@[k]).re
                    <= SIG_MAX && -SIG_MAX <= self.signals@[k].im <= SIG_MAX,
        ensures
            r@.len() == self.signals@.len() * self.signals@.len(),
            forall|k: int|
                0 <= k < r@.len() ==> (#[trigger] r@[k]).re as int == xcorr_re(
                    self.signals@,
                    k / self.signals@.len() as int,
                    k % self.signals@.len() as int,
                ) && r@[k].im as int == xcorr_im(
                    self.signals@,
                    k / self.signals@.len() as int,
                    k % self.signals@.len() as int,
                ),
            forall|k: int|
                0 <= k < r@.len() ==> -AMP_MAX <= (#[trigger] r@[k]).re <= AMP_MAX && -AMP_MAX
                    <= r@[k].im <= AMP_MAX,
    {
        let n: usize = self.signals.len();
        proof {
            assert((n as int) * (n as int) <= 0xfffe_0001) by (nonlinear_arith)
                requires
                    0 <= (n as int) <= 0xffff,
            ;
        }
        let total: usize = n * n;
        let mut r: Vec<Cx> = Vec::new();
        let mut k: usize = 0;
        while k < total
            invariant
                0 <= k <= total,
                total == n * n,
                n == self.signals@.len(),
                n <= 0xffff,
                forall|m: int|
                    0 <= m < n ==> -SIG_MAX <= (#[trigger] self.signals@[m]).re <= SIG_MAX
                        && -SIG_MAX <= self.signals@[m].im <= SIG_MAX,
                r@.len() == k,
                forall|m: int|
                    0 <= m < k ==> (#[trigger] r@[m]).re as int == xcorr_re(
                        self.signals@,
                        m / n as int,
                        m % n as int,
                    ) && r@[m].im as int == xcorr_im(self.signals@, m / n as int, m % n as int),
                forall|m: int|
                    0 <= m < k ==> -AMP_MAX <= (#[trigger] r@[m]).re <= AMP_MAX && -AMP_MAX
                        <= r@[m].im <= AMP_MAX,
            decreases total - k,
        {
            proof {
                assert(k / n < n && k % n < n) by (nonlinear_arith)
                    requires
                        0 <= k,
                        (k as int) < (n as int) * (n as int),
                        n > 0,
                ;
            }
            let i: usize = k / n;
            let j: usize = k % n;
            let a: Cx = self.signals[i];
            let b: Cx = self.signals[j];
            proof {
                crate::complex::lemma_abs_mul_bound(
                    a.re as int,
                    b.re as int,
                    SIG_MAX as int,
                    SIG_MAX as int,
                );
                crate::complex::lemma_abs_mul_bound(
                    a.im as int,
                    b.im as int,
                    SIG_MAX as int,
                    SIG_MAX as int,
                );
                crate::complex::lemma_abs_mul_bound(
                    a.im as int,
                    b.re as int,
                    SIG_MAX as int,
                    SIG_MAX as int,
                );
                crate::complex::lemma_abs_mul_bound(
                    a.re as int,
                    b.im as int,
                    SIG_MAX as int,
                    SIG_MAX as int,
                );
                crate::fixed::lemma_div_tz_quotient_bound(
                    (a.re * b.re + a.im * b.im) as int,
                    FX as int,
                    0x800_0000_0000,
                );
                crate::fixed::lemma_div_tz_quotient_bound(
                    (a.im * b.re - a.re * b.im) as int,
                    FX as int,
                    0x800_0000_0000,
                );
            }
            let re: i64 = div_trunc(a.re * b.re + a.im * b.im, FX);
            let im: i64 = div_trunc(a.im * b.re - a.re * b.im, FX);
            r.push(Cx { re, im });
            k = k + 1;
        }
        r
    }
}

/// The cross-correlation is Hermitian: swapping the pair conjugates
/// the visibility, and every diagonal entry is real, non-negative and
/// the squared magnitude of the signal (rescaled by `FX`).
pub proof fn lemma_xcorr_hermitian(s: Seq<Cx>, i: int, j: int)
    requires
        0 <= i < s.len(),
        0 <= j < s.len(),
    ensures
        xcorr_re(s, i, j) == xcorr_re(s, j, i),
        xcorr_im(s, i, j) == -xcorr_im(s, j, i),
        xcorr_im(s, i, i) == 0,
        xcorr_re(s, i, i) >= 0,
        xcorr_re(s, i, i) == div_tz(sq_norm(s[i]), FX as int),
{
    let a: Cx = s[i];
    let b: Cx = s[j];
    assert(mulc_re(a, b) == mulc_re(b, a)) by (nonlinear_arith)
        requires
            mulc_re(a, b) == a.re * b.re + a.im * b.im,
            mulc_re(b, a) == b.re * a.re + b.im * a.im,
    ;
    assert(mulc_im(a, b) == -mulc_im(b, a)) by (nonlinear_arith)
        requires
            mulc_im(a, b) == a.im * b.re - a.re * b.im,
            mulc_im(b, a) == b.im * a.re - b.re * a.im,
    ;
    crate::fixed::lemma_div_tz_neg(mulc_im(s[j], s[i]), FX as int);
    assert(mulc_im(a, a) == 0) by (nonlinear_arith);
    assert(mulc_re(a, a) == sq_norm(a));
    assert(sq_norm(a) >= 0) by (nonlinear_arith);
    crate::fixed::lemma_div_tz_bound(sq_norm(a), FX as int);
}

} // verus!
