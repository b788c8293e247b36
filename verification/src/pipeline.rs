//! The synthesis pipeline: per-step signal synthesis, the
//! baseline/visibility history, and the final direct image
//! synthesis.
//!
//! The time loop itself is driven by the caller, because each step
//! needs the sines and cosines of the phase angles, which only the
//! caller can evaluate; every decision and every exact arithmetic
//! step stands here.  The step order matters: each propagation
//! depends on the array state the previous step left behind.

use vstd::prelude::*;
use crate::complex::{dot_im, dot_re, dot_scaled, magnitude, sq_norm, Cx, AMP_MAX, DOT_LEN_MAX};
use crate::fixed::FX;
use crate::point::Pt;
use crate::signals::{AntennaSignals, SIG_MAX};

verus! {

/// Why a pipeline operation was refused.
#[derive(Clone, Copy, Debug, PartialEq, Eq, Structural)]
pub enum PipelineError {
    /// A baseline batch and a visibility batch of different lengths
    /// cannot be recorded: they must stay aligned index for index.
    ShapeMismatch,
}

/// The accumulated history of an observation: every baseline ever
/// recorded and the matching visibility at the same index.
pub struct Observation {
    /// Baseline UV coordinates, all time steps concatenated.
    pub baselines: Vec<Pt>,
    /// Visibilities, index-aligned with the baselines.
    pub visibilities: Vec<Cx>,
}

impl Observation {
    /// Baselines and visibilities stay aligned, and every visibility
    /// is within the amplitude the synthesis accepts.
    pub open spec fn wf(self) -> bool {
        self.baselines@.len() == self.visibilities@.len() && forall|k: int|
            0 <= k < self.visibilities@.len() ==> -AMP_MAX <= (#[trigger] self.visibilities@[k]).re
                <= AMP_MAX && -AMP_MAX <= self.visibilities@[k].im <= AMP_MAX
    }

    /// An empty history.
    pub fn new() -> (r: Observation)
        ensures
            r.wf(),
            r.baselines@.len() == 0,
            r.visibilities@.len() == 0,
    {
        Observation { baselines: Vec::new(), visibilities: Vec::new() }
    }

    /// Appends one time step's baselines and visibilities.  Batches
    /// of unequal length are refused outright: recording them would
    /// silently break the index alignment.
    pub fn record(&mut self, baselines: Vec<Pt>, visibilities: Vec<Cx>) -> (r: Result<
        (),
        PipelineError,
    >)
        requires
            old(self).wf(),
            forall|k: int|
                0 <= k < visibilities@.len() ==> -AMP_MAX <= (#[trigger] visibilities@[k]).re
                    <= AMP_MAX && -AMP_MAX <= visibilities@[k].im <= AMP_MAX,
        ensures
            final(self).wf(),
            baselines@.len() == visibilities@.len() ==> r is Ok && final(self).baselines@ == old(
                self,
            ).baselines@ + baselines@ && final(self).visibilities@ == old(self).visibilities@
                + visibilities@,
            baselines@.len() != visibilities@.len() ==> r == Err::<(), PipelineError>(
                PipelineError::ShapeMismatch,
            ) && final(self).baselines@ == old(self).baselines@ && final(self).visibilities@ == old(
                self,
            ).visibilities@,
    {
        if baselines.len() != visibilities.len() {
            return Err(PipelineError::ShapeMismatch);
        }
        let mut bl: Vec<Pt> = baselines;
        let mut vis: Vec<Cx> = visibilities;
        self.baselines.append(&mut bl);
        self.visibilities.append(&mut vis);
        Ok(())
    }
}

/// The per-antenna signals at one instant: each antenna's coherent
/// sum of sky contributions, `(phase row k) . (sky pixel vector)`,
/// rescaled by `FX`.
pub fn synthesize_signals(phases: &Vec<Vec<Cx>>, pixels: &Vec<Cx>) -> (r: AntennaSignals)
    requires
        pixels@.len() <= DOT_LEN_MAX,
        forall|k: int| 0 <= k < phases@.len() ==> (#[trigger] phases@[k])@.len() == pixels@.len(),
        forall|k: int, p: int|
            0 <= k < phases@.len() && 0 <= p < pixels@.len() ==> -FX <= (
            #[trigger] phases@[k]@[p]).re <= FX && -FX <= phases@[k]@[p].im <= FX,
        forall|p: int|
            0 <= p < pixels@.len() ==> -FX <= (#[trigger] pixels@[p]).re <= FX && -FX
                <= pixels@[p].im <= FX,
    ensures
        r.signals@.len() == phases@.len(),
        forall|k: int|
            0 <= k < phases@.len() ==> (#[trigger] r.signals@[k]).re as int == dot_re(
                phases@[k]@,
                pixels@,
                pixels@.len() as int,
            ) && r.signals@[k].im as int == dot_im(phases@[k]@, pixels@, pixels@.len() as int),
        forall|k: int|
            0 <= k < r.signals@.len() ==> -SIG_MAX <= (#[trigger] r.signals@[k]).re <= SIG_MAX
                && -SIG_MAX <= r.signals@[k].im <= SIG_MAX,
{
    let nk: usize = phases.len();
    let mut signals: Vec<Cx> = Vec::new();
    let mut k: usize = 0;
    while k < nk
        invariant
            0 <= k <= nk,
            nk == phases@.len(),
            pixels@.len() <= DOT_LEN_MAX,
            forall|m: int| 0 <= m < nk ==> (#[trigger] phases@[m])@.len() == pixels@.len(),
            forall|m: int, p: int|
                0 <= m < nk && 0 <= p < pixels@.len() ==> -FX <= (#[trigger] phases@[m]@[p]).re
                    <= FX && -FX <= phases@[m]@[p].im <= FX,
            forall|p: int|
                0 <= p < pixels@.len() ==> -FX <= (#[trigger] pixels@[p]).re <= FX && -FX
                    <= pixels@[p].im <= FX,
            signals@.len() == k,
            forall|m: int|
                0 <= m < k ==> (#[trigger] signals@[m]).re as int == dot_re(
                    phases@[m]@,
                    pixels@,
                    pixels@.len() as int,
                ) && signals@[m].im as int == dot_im(phases@[m]@, pixels@, pixels@.len() as int),
            forall|m: int|
                0 <= m < k ==> -SIG_MAX <= (#[trigger] signals@[m]).re <= SIG_MAX && -SIG_MAX
                    <= signals@[m].im <= SIG_MAX,
        decreases nk - k,
    {
        let s: Cx = dot_scaled(&phases[k], pixels);
        signals.push(s);
        k = k + 1;
    }
    AntennaSignals { signals }
}

/// The visibility column for one beam grid point: entry `k` of the
/// kernel row of baseline `k` at grid point `p`.
pub open spec fn col_at(phases: Seq<Vec<Cx>>, n: int, p: int) -> Seq<Cx> {
    Seq::new(n as nat, |k: int| phases[k]@[p])
}

/// Real part of the synthesis sum for grid point `p`: the rescaled
/// dot product of all visibilities with their kernel values at `p`.
pub open spec fn synth_re(vis: Seq<Cx>, phases: Seq<Vec<Cx>>, p: int) -> int {
    dot_re(vis, col_at(phases, vis.len() as int, p), vis.len() as int)
}

/// Imaginary part of the synthesis sum for grid point `p`.
pub open spec fn synth_im(vis: Seq<Cx>, phases: Seq<Vec<Cx>>, p: int) -> int {
    dot_im(vis, col_at(phases, vis.len() as int, p), vis.len() as int)
}

/// The dirty image: for every beam grid point, the magnitude of the
/// complex dot product of all accumulated visibilities with the
/// synthesis kernel — a direct, non-gridded inverse transform.
pub fn synthesize_image(obs: &Observation, phases: &Vec<Vec<Cx>>, width: usize) -> (r: Vec<i64>)
    requires
        obs.wf(),
        phases@.len() == obs.visibilities@.len(),
        obs.visibilities@.len() <= DOT_LEN_MAX,
        forall|k: int| 0 <= k < phases@.len() ==> (#[trigger] phases@[k])@.len() == width,
        forall|k: int, p: int|
            0 <= k < phases@.len() && 0 <= p < width ==> -FX <= (#[trigger] phases@[k]@[p]).re <= FX
                && -FX <= phases@[k]@[p].im <= FX,
    ensures
        r@.len() == width,
        forall|p: int| 0 <= p < width ==> (#[trigger] r@[p]) >= 0,
        forall|p: int|
            0 <= p < width ==> ((#[trigger] r@[p]) as int) * (r@[p] as int) <= synth_re(
                obs.visibilities@,
                phases@,
                p,
            ) * synth_re(obs.visibilities@, phases@, p) + synth_im(obs.visibilities@, phases@, p)
                * synth_im(obs.visibilities@, phases@, p) && synth_re(obs.visibilities@, phases@, p)
                * synth_re(obs.visibilities@, phases@, p) + synth_im(obs.visibilities@, phases@, p)
                * synth_im(obs.visibilities@, phases@, p) < (r@[p] as int + 1) * (r@[p] as int + 1),
{
    let nk: usize = obs.visibilities.len();
    let mut r: Vec<i64> = Vec::new();
    let mut p: usize = 0;
    while p < width
        invariant
            0 <= p <= width,
            obs.wf(),
            nk == obs.visibilities@.len() == phases@.len(),
            nk <= DOT_LEN_MAX,
            forall|k: int| 0 <= k < nk ==> (#[trigger] phases@[k])@.len() == width,
            forall|k: int, q: int|
                0 <= k < nk && 0 <= q < width ==> -FX <= (#[trigger] phases@[k]@[q]).re <= FX && -FX
                    <= phases@[k]@[q].im <= FX,
            r@.len() == p,
            forall|q: int| 0 <= q < p ==> (#[trigger] r@[q]) >= 0,
            forall|q: int|
                0 <= q < p ==> ((#[trigger] r@[q]) as int) * (r@[q] as int) <= synth_re(
                    obs.visibilities@,
                    phases@,
                    q,
                ) * synth_re(obs.visibilities@, phases@, q) + synth_im(
                    obs.visibilities@,
                    phases@,
                    q,
                ) * synth_im(obs.visibilities@, phases@, q) && synth_re(
                    obs.visibilities@,
                    phases@,
                    q,
                ) * synth_re(obs.visibilities@, phases@, q) + synth_im(
                    obs.visibilities@,
                    phases@,
                    q,
                ) * synth_im(obs.visibilities@, phases@, q) < (r@[q] as int + 1) * (r@[q] as int
                    + 1),
        decreases width - p,
    {
        let mut col: Vec<Cx> = Vec::new();
        let mut k: usize = 0;
        while k < nk
            invariant
                0 <= k <= nk,
                p < width,
                nk == phases@.len(),
                forall|m: int| 0 <= m < nk ==> (#[trigger] phases@[m])@.len() == width,
                forall|m: int, q: int|
                    0 <= m < nk && 0 <= q < width ==> -FX <= (#[trigger] phases@[m]@[q]).re <= FX
                        && -FX <= phases@[m]@[q].im <= FX,
                col@.len() == k,
                forall|m: int| 0 <= m < k ==> (#[trigger] col@[m]) == phases@[m]@[p as int],
            decreases nk - k,
        {
            col.push(phases[k][p]);
            k = k + 1;
        }
        proof {
            assert(col@ =~= col_at(phases@, nk as int, p as int));
        }
        let d: Cx = dot_scaled(&obs.visibilities, &col);
        let m: i64 = magnitude(d);
        proof {
            assert(sq_norm(d) == synth_re(obs.visibilities@, phases@, p as int) * synth_re(
                obs.visibilities@,
                phases@,
                p as int,
            ) + synth_im(obs.visibilities@, phases@, p as int) * synth_im(
                obs.visibilities@,
                phases@,
                p as int,
            ));
        }
        r.push(m);
        p = p + 1;
    }
    r
}

/// With a single antenna there is exactly one baseline index, the
/// self-pairing: its baseline is the zero vector whatever the antenna
/// position — so at every time step of an observation — and its one
/// visibility is the squared signal magnitude: real and non-negative.
pub proof fn lemma_single_antenna(pos: Seq<Pt>, w: int, s: Seq<Cx>)
    requires
        pos.len() == 1,
        s.len() == 1,
        w > 0,
    ensures
        crate::antennaarray::baseline_x(pos, w, 0, 0) == 0,
        crate::antennaarray::baseline_y(pos, w, 0, 0) == 0,
        crate::signals::xcorr_im(s, 0, 0) == 0,
        crate::signals::xcorr_re(s, 0, 0) == crate::fixed::div_tz(sq_norm(s[0]), FX as int),
        crate::signals::xcorr_re(s, 0, 0) >= 0,
{
    crate::antennaarray::lemma_baseline_antisymmetry(pos, w, 0, 0);
    crate::signals::lemma_xcorr_hermitian(s, 0, 0);
}

} // verus!
