//! The beam: a fixed grid of sky direction cosines and the phase of
//! the Fourier kernel tying any UV sample to every grid point.

use vstd::prelude::*;
use crate::fixed::{div_tz, div_trunc, FX};
use crate::meshgrid::meshgrid;
use crate::point::Pt;

verus! {

/// Largest direction-cosine magnitude the kernel accepts.
pub const LM_MAX: i64 = 0x2_0000;

/// Largest UV-coordinate magnitude the kernel accepts.
pub const UV_MAX: i64 = 0x800_0000_0000;

/// The grid value along one axis: `beamwidth * (2*k - n) / n`, the
/// `k`-th of `n` uniform samples spanning `[-beamwidth, beamwidth)`.
pub open spec fn lval(bw: int, n: int, k: int) -> int {
    div_tz(bw * (2 * k - n), n)
}

/// The phase of the kernel entry for UV sample `k` and grid point
/// `p`: `2 * (u*l + v*m)` at scale `FX * FX`.  The complex kernel
/// entry is `exp(i * phase)`; the positive sign here is the one
/// convention used both when synthesising signals and when
/// synthesising the image.
pub open spec fn phase_at(uv: Seq<Pt>, lm: Seq<Pt>, k: int, p: int) -> int {
    2 * (uv[k].x * lm[p].x + uv[k].y * lm[p].y)
}

/// A beam: (l,m) direction cosines of every sky grid point, stacked
/// row-major — the same flatten order the image buffer uses.
pub struct Beam {
    /// Stacked (l,m) coordinates (fixed-point direction cosines).
    pub samples: Vec<Pt>,
}

impl Beam {
    /// Builds the `n * n` grid of (l,m) points spanning
    /// `[-beamwidth, beamwidth)` per axis, flattened row-major:
    /// sample `i * n + j` is `(lval(i), lval(j))`.  Built with the
    /// pairing utility over the axis values, as the image
    /// reconstruction expects.
    pub fn from_beamwidth(beamwidth: i64, n: usize) -> (r: Beam)
        requires
            1 <= n <= 0xffff,
            0 <= beamwidth <= LM_MAX,
        ensures
            r.samples@.len() == n * n,
            forall|k: int|
                0 <= k < r.samples@.len() ==> (#[trigger] r.samples@[k]).x as int == lval(
                    beamwidth as int,
                    n as int,
                    k / n as int,
                ) && r.samples@[k].y as int == lval(beamwidth as int, n as int, k % n as int),
            forall|k: int|
                0 <= k < r.samples@.len() ==> -LM_MAX <= (#[trigger] r.samples@[k]).x <= LM_MAX
                    && -LM_MAX <= r.samples@[k].y <= LM_MAX,
    {
        let mut lvec: Vec<i64> = Vec::new();
        let mut k: usize = 0;
        while k < n
            invariant
                0 <= k <= n,
                1 <= n <= 0xffff,
                0 <= beamwidth <= LM_MAX,
                lvec@.len() == k,
                forall|m: int|
                    0 <= m < k ==> (#[trigger] lvec@[m]) as int == lval(
                        beamwidth as int,
                        n as int,
                        m,
                    ),
                forall|m: int| 0 <= m < k ==> -LM_MAX <= (#[trigger] lvec@[m]) <= LM_MAX,
            decreases n - k,
        {
            let t: i64 = 2 * (k as i64) - (n as i64);
            proof {
                crate::complex::lemma_abs_mul_bound(beamwidth as int, t as int, LM_MAX as int, 0xffff);
                crate::complex::lemma_abs_mul_bound(
                    beamwidth as int,
                    t as int,
                    LM_MAX as int,
                    n as int,
                );
                crate::fixed::lemma_div_tz_quotient_bound(
                    (beamwidth as int) * (t as int),
                    n as int,
                    LM_MAX as int,
                );
            }
            lvec.push(div_trunc(beamwidth * t, n as i64));
            k = k + 1;
        }
        let (lm1, lm2) = meshgrid(&lvec, &lvec);
        proof {
            assert((n as int) * (n as int) <= 0xfffe_0001) by (nonlinear_arith)
                requires
                    0 <= (n as int) <= 0xffff,
            ;
        }
        let total: usize = n * n;
        let mut samples: Vec<Pt> = Vec::new();
        let mut p: usize = 0;
        while p < total
            invariant
                0 <= p <= total,
                total == n * n,
                1 <= n <= 0xffff,
                0 <= beamwidth <= LM_MAX,
                lvec@.len() == n,
                forall|m: int|
                    0 <= m < n ==> (#[trigger] lvec@[m]) as int == lval(
                        beamwidth as int,
                        n as int,
                        m,
                    ),
                forall|m: int| 0 <= m < n ==> -LM_MAX <= (#[trigger] lvec@[m]) <= LM_MAX,
                lm1@.len() == n,
                lm2@.len() == n,
                forall|i: int| 0 <= i < n ==> (#[trigger] lm1@[i])@.len() == n,
                forall|i: int| 0 <= i < n ==> (#[trigger] lm2@[i])@.len() == n,
                forall|i: int, j: int|
                    0 <= i < n && 0 <= j < n ==> (#[trigger] lm1@[i]@[j]) == lvec@[i],
                forall|i: int, j: int|
                    0 <= i < n && 0 <= j < n ==> (#[trigger] lm2@[i]@[j]) == lvec@[j],
                samples@.len() == p,
                forall|m: int|
                    0 <= m < p ==> (#[trigger] samples@[m]).x as int == lval(
                        beamwidth as int,
                        n as int,
                        m / n as int,
                    ) && samples@[m].y as int == lval(beamwidth as int, n as int, m % n as int),
                forall|m: int|
                    0 <= m < p ==> -LM_MAX <= (#[trigger] samples@[m]).x <= LM_MAX && -LM_MAX
                        <= samples@[m].y <= LM_MAX,
            decreases total - p,
        {
            proof {
                assert(p / n < n && p % n < n) by (nonlinear_arith)
                    requires
                        0 <= p,
                        (p as int) < (n as int) * (n as int),
                        n > 0,
                ;
            }
            let i: usize = p / n;
            let j: usize = p % n;
            samples.push(Pt { x: lm1[i][j], y: lm2[i][j] });
            p = p + 1;
        }
        Beam { samples }
    }

    /// The phase of the Fourier kernel for every UV sample against
    /// every beam grid point: entry `(k, p)` of the result is
    /// `2 * (u_k * l_p + v_k * m_p)` at scale `FX * FX`.  The caller
    /// turns each phase into the unit complex value `exp(i * phase)`.
    pub fn phases(&self, uv: &Vec<Pt>) -> (r: Vec<Vec<i64>>)
        requires
            forall|k: int|
                0 <= k < uv@.len() ==> -UV_MAX <= (#[trigger] uv@[k]).x <= UV_MAX && -UV_MAX
                    <= uv@[k].y <= UV_MAX,
            forall|p: int|
                0 <= p < self.samples@.len() ==> -LM_MAX <= (#[trigger] self.samples@[p]).x
                    <= LM_MAX && -LM_MAX <= self.samples@[p].y <= LM_MAX,
        ensures
            r@.len() == uv@.len(),
            forall|k: int| 0 <= k < uv@.len() ==> (#[trigger] r@[k])@.len() == self.samples@.len(),
            forall|k: int, p: int|
                0 <= k < uv@.len() && 0 <= p < self.samples@.len() ==> (#[trigger] r@[k]@[p]) as int
                    == phase_at(uv@, self.samples@, k, p),
    {
        let nk: usize = uv.len();
        let np: usize = self.samples.len();
        let mut r: Vec<Vec<i64>> = Vec::new();
        let mut k: usize = 0;
        while k < nk
            invariant
                0 <= k <= nk,
                nk == uv@.len(),
                np == self.samples@.len(),
                forall|m: int|
                    0 <= m < nk ==> -UV_MAX <= (#[trigger] uv@[m]).x <= UV_MAX && -UV_MAX
                        <= uv@[m].y <= UV_MAX,
                forall|q: int|
                    0 <= q < np ==> -LM_MAX <= (#[trigger] self.samples@[q]).x <= LM_MAX && -LM_MAX
                        <= self.samples@[q].y <= LM_MAX,
                r@.len() == k,
                forall|m: int| 0 <= m < k ==> (#[trigger] r@[m])@.len() == np,
                forall|m: int, q: int|
                    0 <= m < k && 0 <= q < np ==> (#[trigger] r@[m]@[q]) as int == phase_at(
                        uv@,
                        self.samples@,
                        m,
                        q,
                    ),
            decreases nk - k,
        {
            let u: Pt = uv[k];
            let mut row: Vec<i64> = Vec::new();
            let mut p: usize = 0;
            while p < np
                invariant
                    0 <= p <= np,
                    k < nk,
                    nk == uv@.len(),
                    np == self.samples@.len(),
                    u == uv@[k as int],
                    -UV_MAX <= u.x <= UV_MAX,
                    -UV_MAX <= u.y <= UV_MAX,
                    forall|q: int|
                        0 <= q < np ==> -LM_MAX <= (#[trigger] self.samples@[q]).x <= LM_MAX
                            && -LM_MAX <= self.samples@[q].y <= LM_MAX,
                    row@.len() == p,
                    forall|q: int|
                        0 <= q < p ==> (#[trigger] row@[q]) as int == phase_at(
                            uv@,
                            self.samples@,
                            k as int,
                            q,
                        ),
                decreases np - p,
            {
                let lm: Pt = self.samples[p];
                proof {
                    crate::complex::lemma_abs_mul_bound(
                        u.x as int,
                        lm.x as int,
                        UV_MAX as int,
                        LM_MAX as int,
                    );
                    crate::complex::lemma_abs_mul_bound(
                        u.y as int,
                        lm.y as int,
                        UV_MAX as int,
                        LM_MAX as int,
                    );
                }
                row.push(2 * (u.x * lm.x + u.y * lm.y));
                p = p + 1;
            }
            r.push(row);
            k = k + 1;
        }
        r
    }
}

} // verus!
