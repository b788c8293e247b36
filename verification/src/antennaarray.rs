//! The antenna array: positions, earth-rotation propagation, UV
//! coordinates and baselines.

use vstd::prelude::*;
use crate::fixed::{div_tz, div_trunc, FX};
use crate::meshgrid::meshgrid;
use crate::point::Pt;
use crate::rng::rand_below;

verus! {

/// Largest coordinate magnitude the array operations accept.
pub const POS_MAX: i64 = 0x4000_0000_0000;

/// Every coordinate of `pos` lies in `[-m, m]`.
pub open spec fn positions_bounded(pos: Seq<Pt>, m: int) -> bool {
    forall|k: int|
        0 <= k < pos.len() ==> -m <= (#[trigger] pos[k]).x <= m && -m <= pos[k].y <= m
}

/// An antenna array: positions in fixed-point meters and the
/// parabolic dish size.  It holds at least one antenna, and its
/// antenna count never changes over its lifetime.
pub struct AntennaArray {
    /// Antenna positions (fixed-point meters).
    pub positions: Vec<Pt>,
    /// Parabolic dish size (fixed-point meters).
    pub dish_size: i64,
}

/// The first coordinate of an antenna position scaled into
/// wavelengths: `x / w` at fixed-point scale.
pub open spec fn uv_x(pos: Seq<Pt>, w: int, k: int) -> int {
    div_tz(pos[k].x * FX, w)
}

/// The second coordinate of an antenna position scaled into
/// wavelengths.
pub open spec fn uv_y(pos: Seq<Pt>, w: int, k: int) -> int {
    div_tz(pos[k].y * FX, w)
}

/// First coordinate of the baseline from antenna `j` to antenna `i`,
/// in wavelengths.
pub open spec fn baseline_x(pos: Seq<Pt>, w: int, i: int, j: int) -> int {
    div_tz((pos[i].x - pos[j].x) * FX, w)
}

/// Second coordinate of the baseline from antenna `j` to antenna `i`.
pub open spec fn baseline_y(pos: Seq<Pt>, w: int, i: int, j: int) -> int {
    div_tz((pos[i].y - pos[j].y) * FX, w)
}

/// First coordinate of the exact (unscaled) rotation of `(x, y)` by
/// the matrix `[[c, -s], [s, c]]`.
pub open spec fn rot_x(c: int, s: int, x: int, y: int) -> int {
    c * x - s * y
}

/// Second coordinate of the exact rotation.
pub open spec fn rot_y(c: int, s: int, x: int, y: int) -> int {
    s * x + c * y
}

impl AntennaArray {
    /// The array holds at least one antenna.
    pub open spec fn wf(self) -> bool {
        self.positions@.len() >= 1
    }

    /// Converts the antenna positions to (u,v) coordinates: an
    /// elementwise division by the observing wavelength.
    pub fn as_uv(&self, wavelength: i64) -> (r: Vec<Pt>)
        requires
            wavelength > 0,
            positions_bounded(self.positions@, POS_MAX as int),
        ensures
            r@.len() == self.positions@.len(),
            forall|k: int|
                0 <= k < r@.len() ==> (#[trigger] r@[k]).x as int == uv_x(
                    self.positions@,
                    wavelength as int,
                    k,
                ) && r@[k].y as int == uv_y(self.positions@, wavelength as int, k),
    {
        let n: usize = self.positions.len();
        let mut r: Vec<Pt> = Vec::new();
        let mut k: usize = 0;
        while k < n
            invariant
                0 <= k <= n,
                n == self.positions@.len(),
                wavelength > 0,
                positions_bounded(self.positions@, POS_MAX as int),
                r@.len() == k,
                forall|m: int|
                    0 <= m < k ==> (#[trigger] r@[m]).x as int == uv_x(
                        self.positions@,
                        wavelength as int,
                        m,
                    ) && r@[m].y as int == uv_y(self.positions@, wavelength as int, m),
            decreases n - k,
        {
            let p: Pt = self.positions[k];
            r.push(Pt { x: div_trunc(p.x * FX, wavelength), y: div_trunc(p.y * FX, wavelength) });
            k = k + 1;
        }
        r
    }

    /// The (u,v) coordinates of all ordered antenna pairs: entry
    /// `i * n + j` is `(position_i - position_j) / wavelength`,
    /// flattened row-major (`i` outer, `j` inner) — the same order the
    /// cross-correlation uses, so the two stay aligned index for
    /// index.  Built with the pairing utility over the two coordinate
    /// columns.
    pub fn baselines(&self, wavelength: i64) -> (r: Vec<Pt>)
        requires
            wavelength > 0,
            positions_bounded(self.positions@, POS_MAX as int),
            self.positions@.len() <= 0xffff,
        ensures
            r@.len() == self.positions@.len() * self.positions@.len(),
            forall|k: int|
                0 <= k < r@.len() ==> (#[trigger] r@[k]).x as int == baseline_x(
                    self.positions@,
                    wavelength as int,
                    k / self.positions@.len() as int,
                    k % self.positions@.len() as int,
                ) && r@[k].y as int == baseline_y(
                    self.positions@,
                    wavelength as int,
                    k / self.positions@.len() as int,
                    k % self.positions@.len() as int,
                ),
    {
        let n: usize = self.positions.len();
        let mut xcol: Vec<i64> = Vec::new();
        let mut ycol: Vec<i64> = Vec::new();
        let mut t: usize = 0;
        while t < n
            invariant
                0 <= t <= n,
                n == self.positions@.len(),
                xcol@.len() == t,
                ycol@.len() == t,
                forall|m: int| 0 <= m < t ==> (#[trigger] xcol@[m]) == self.positions@[m].x,
                forall|m: int| 0 <= m < t ==> (#[trigger] ycol@[m]) == self.positions@[m].y,
            decreases n - t,
        {
            let p: Pt = self.positions[t];
            xcol.push(p.x);
            ycol.push(p.y);
            t = t + 1;
        }
        let (x1, x2) = meshgrid(&xcol, &xcol);
        let (y1, y2) = meshgrid(&ycol, &ycol);
        proof {
            assert((n as int) * (n as int) <= 0xfffe_0001) by (nonlinear_arith)
                requires
                    0 <= (n as int) <= 0xffff,
            ;
        }
        let total: usize = n * n;
        let mut r: Vec<Pt> = Vec::new();
        let mut k: usize = 0;
        while k < total
            invariant
                0 <= k <= total,
                total == n * n,
                n == self.positions@.len(),
                n <= 0xffff,
                wavelength > 0,
                positions_bounded(self.positions@, POS_MAX as int),
                x1@.len() == n,
                x2@.len() == n,
                y1@.len() == n,
                y2@.len() == n,
                forall|i: int| 0 <= i < n ==> (#[trigger] x1@[i])@.len() == n,
                forall|i: int| 0 <= i < n ==> (#[trigger] x2@[i])@.len() == n,
                forall|i: int| 0 <= i < n ==> (#[trigger] y1@[i])@.len() == n,
                forall|i: int| 0 <= i < n ==> (#[trigger] y2@[i])@.len() == n,
                forall|i: int, j: int|
                    0 <= i < n && 0 <= j < n ==> (#[trigger] x1@[i]@[j]) == self.positions@[i].x,
                forall|i: int, j: int|
                    0 <= i < n && 0 <= j < n ==> (#[trigger] x2@[i]@[j]) == self.positions@[j].x,
                forall|i: int, j: int|
                    0 <= i < n && 0 <= j < n ==> (#[trigger] y1@[i]@[j]) == self.positions@[i].y,
                forall|i: int, j: int|
                    0 <= i < n && 0 <= j < n ==> (#[trigger] y2@[i]@[j]) == self.positions@[j].y,
                r@.len() == k,
                forall|m: int|
                    0 <= m < k ==> (#[trigger] r@[m]).x as int == baseline_x(
                        self.positions@,
                        wavelength as int,
                        m / n as int,
                        m % n as int,
                    ) && r@[m].y as int == baseline_y(
                        self.positions@,
                        wavelength as int,
                        m / n as int,
                        m % n as int,
                    ),
            decreases total - k,
        {
            proof {
                assert(k / n < n && k % n < n) by (nonlinear_arith)
                    requires
                        0 <= k,
                        (k as int) < (n as int) * (n as int),
                        n > 0,
                ;
            }
            let i: usize = k / n;
            let j: usize = k % n;
            let dx: i64 = x1[i][j] - x2[i][j];
            let dy: i64 = y1[i][j] - y2[i][j];
            r.push(
                Pt { x: div_trunc(dx * FX, wavelength), y: div_trunc(dy * FX, wavelength) },
            );
            k = k + 1;
        }
        r
    }

    /// Rotates every antenna position about the origin by the matrix
    /// `[[c, -s], [s, c]]`, where `c` and `s` are the fixed-point
    /// cosine and sine of the propagation angle
    /// `hours / 24 * 2 * pi`; each new coordinate is the exact
    /// product rescaled by `FX`, truncated toward zero.
    pub fn propagate(&mut self, c: i64, s: i64)
        requires
            -FX <= c <= FX,
            -FX <= s <= FX,
            positions_bounded(old(self).positions@, POS_MAX as int),
        ensures
            final(self).positions@.len() == old(self).positions@.len(),
            final(self).dish_size == old(self).dish_size,
            forall|k: int|
                0 <= k < old(self).positions@.len() ==> (#[trigger] final(self).positions@[k]).x
                    as int == div_tz(
                    rot_x(
                        c as int,
                        s as int,
                        old(self).positions@[k].x as int,
                        old(self).positions@[k].y as int,
                    ),
                    FX as int,
                ) && final(self).positions@[k].y as int == div_tz(
                    rot_y(
                        c as int,
                        s as int,
                        old(self).positions@[k].x as int,
                        old(self).positions@[k].y as int,
                    ),
                    FX as int,
                ),
    {
        let n: usize = self.positions.len();
        let mut k: usize = 0;
        while k < n
            invariant
                0 <= k <= n,
                n == self.positions@.len() == old(self).positions@.len(),
                self.dish_size == old(self).dish_size,
                -FX <= c <= FX,
                -FX <= s <= FX,
                positions_bounded(old(self).positions@, POS_MAX as int),
                forall|m: int| k <= m < n ==> self.positions@[m] == old(self).positions@[m],
                forall|m: int|
                    0 <= m < k ==> (#[trigger] self.positions@[m]).x as int == div_tz(
                        rot_x(
                            c as int,
                            s as int,
                            old(self).positions@[m].x as int,
                            old(self).positions@[m].y as int,
                        ),
                        FX as int,
                    ) && self.positions@[m].y as int == div_tz(
                        rot_y(
                            c as int,
                            s as int,
                            old(self).positions@[m].x as int,
                            old(self).positions@[m].y as int,
                        ),
                        FX as int,
                    ),
            decreases n - k,
        {
            let p: Pt = self.positions[k];
            proof {
                crate::complex::lemma_abs_mul_bound(
                    c as int,
                    p.x as int,
                    FX as int,
                    POS_MAX as int,
                );
                crate::complex::lemma_abs_mul_bound(
                    s as int,
                    p.y as int,
                    FX as int,
                    POS_MAX as int,
                );
                crate::complex::lemma_abs_mul_bound(
                    s as int,
                    p.x as int,
                    FX as int,
                    POS_MAX as int,
                );
                crate::complex::lemma_abs_mul_bound(
                    c as int,
                    p.y as int,
                    FX as int,
                    POS_MAX as int,
                );
            }
            let nx: i64 = div_trunc(c * p.x - s * p.y, FX);
            let ny: i64 = div_trunc(s * p.x + c * p.y, FX);
            self.positions.set(k, Pt { x: nx, y: ny });
            k = k + 1;
        }
    }

    /// Generates an array of `count` antennas placed uniformly at
    /// random in the square `[-scale/2, scale - scale/2)` per axis.
    pub fn random(count: usize, scale: i64, dish_size: i64) -> (r: AntennaArray)
        requires
            count >= 1,
            1 <= scale <= POS_MAX,
        ensures
            r.wf(),
            r.positions@.len() == count,
            r.dish_size == dish_size,
            positions_bounded(r.positions@, POS_MAX as int),
            forall|k: int|
                0 <= k < count ==> -(scale as int / 2) <= (#[trigger] r.positions@[k]).x < scale
                    as int - scale as int / 2 && -(scale as int / 2) <= r.positions@[k].y < scale
                    as int - scale as int / 2,
    {
        let half: i64 = scale / 2;
        let mut positions: Vec<Pt> = Vec::new();
        let mut k: usize = 0;
        while k < count
            invariant
                0 <= k <= count,
                1 <= scale <= POS_MAX,
                half == scale as int / 2,
                positions@.len() == k,
                forall|m: int|
                    0 <= m < k ==> -(scale as int / 2) <= (#[trigger] positions@[m]).x < scale
                        as int - scale as int / 2 && -(scale as int / 2) <= positions@[m].y < scale
                        as int - scale as int / 2,
            decreases count - k,
        {
            let rx: i64 = rand_below(scale) - half;
            let ry: i64 = rand_below(scale) - half;
            positions.push(Pt { x: rx, y: ry });
            k = k + 1;
        }
        AntennaArray { positions, dish_size }
    }
}

/// Rotation preserves the squared norm exactly, up to the squared
/// norm of the coefficient pair: with `c*c + s*s == FX*FX` (a unit
/// cosine/sine pair) the squared distance from the origin is carried
/// over unchanged at scale `FX*FX`, before rescaling.
pub proof fn lemma_rotation_preserves_sq_norm(c: int, s: int, x: int, y: int)
    ensures
        rot_x(c, s, x, y) * rot_x(c, s, x, y) + rot_y(c, s, x, y) * rot_y(c, s, x, y) == (c * c + s
            * s) * (x * x + y * y),
{
    let a: int = c * x;
    let b: int = s * y;
    let d: int = s * x;
    let e: int = c * y;
    let u: int = c * c;
    let v: int = s * s;
    let p: int = x * x;
    let q: int = y * y;
    assert((a - b) * (a - b) == a * a - 2 * (a * b) + b * b) by (nonlinear_arith);
    assert((d + e) * (d + e) == d * d + 2 * (d * e) + e * e) by (nonlinear_arith);
    assert(a * b == d * e) by (nonlinear_arith)
        requires
            a == c * x,
            b == s * y,
            d == s * x,
            e == c * y,
    ;
    assert(a * a == u * p) by (nonlinear_arith)
        requires
            a == c * x,
            u == c * c,
            p == x * x,
    ;
    assert(b * b == v * q) by (nonlinear_arith)
        requires
            b == s * y,
            v == s * s,
            q == y * y,
    ;
    assert(d * d == v * p) by (nonlinear_arith)
        requires
            d == s * x,
            v == s * s,
            p == x * x,
    ;
    assert(e * e == u * q) by (nonlinear_arith)
        requires
            e == c * y,
            u == c * c,
            q == y * y,
    ;
    assert((u + v) * (p + q) == u * p + u * q + v * p + v * q) by (nonlinear_arith);
}

/// What `propagate` stores — the exact rotation rescaled by `FX`
/// with truncation — never grows the squared distance from the
/// origin, whenever the coefficients lie on or inside the unit
/// circle.  With the exact-norm lemma this bounds the truncation
/// drift to the rescaling loss alone.
pub proof fn lemma_rotated_norm_bound(c: int, s: int, x: int, y: int)
    requires
        c * c + s * s <= (FX as int) * (FX as int),
    ensures
        div_tz(rot_x(c, s, x, y), FX as int) * div_tz(rot_x(c, s, x, y), FX as int) + div_tz(
            rot_y(c, s, x, y),
            FX as int,
        ) * div_tz(rot_y(c, s, x, y), FX as int) <= x * x + y * y,
{
    let f: int = FX as int;
    let a: int = rot_x(c, s, x, y);
    let b: int = rot_y(c, s, x, y);
    lemma_rotation_preserves_sq_norm(c, s, x, y);
    assert(x * x + y * y >= 0) by (nonlinear_arith);
    assert((c * c + s * s) * (x * x + y * y) <= (f * f) * (x * x + y * y)) by (nonlinear_arith)
        requires
            c * c + s * s <= f * f,
            x * x + y * y >= 0,
    ;
    crate::fixed::lemma_div_tz_sq_bound(a, f);
    crate::fixed::lemma_div_tz_sq_bound(b, f);
    let da: int = div_tz(a, f);
    let db: int = div_tz(b, f);
    assert(da * da + db * db <= x * x + y * y) by (nonlinear_arith)
        requires
            da * da * (f * f) <= a * a,
            db * db * (f * f) <= b * b,
            a * a + b * b <= (f * f) * (x * x + y * y),
            f * f > 0,
    ;
}

/// Rotation is linear: the rotation of a difference is the difference
/// of the rotations.  With the norm lemma this carries every pairwise
/// distance through a rotation unchanged.
pub proof fn lemma_rotation_linear(c: int, s: int, x1: int, y1: int, x2: int, y2: int)
    ensures
        rot_x(c, s, x1 - x2, y1 - y2) == rot_x(c, s, x1, y1) - rot_x(c, s, x2, y2),
        rot_y(c, s, x1 - x2, y1 - y2) == rot_y(c, s, x1, y1) - rot_y(c, s, x2, y2),
{
    assert(c * (x1 - x2) - s * (y1 - y2) == (c * x1 - s * y1) - (c * x2 - s * y2))
        by (nonlinear_arith);
    assert(s * (x1 - x2) + c * (y1 - y2) == (s * x1 + c * y1) - (s * x2 + c * y2))
        by (nonlinear_arith);
}

/// Rotation carries every pairwise squared distance over unchanged
/// at scale `FX*FX` whenever `c*c + s*s == FX*FX`: the rotated
/// difference vector has the squared norm of the original one, up to
/// the squared norm of the coefficient pair.
pub proof fn lemma_rotation_preserves_pairwise_sq_dist(
    c: int,
    s: int,
    x1: int,
    y1: int,
    x2: int,
    y2: int,
)
    ensures
        (rot_x(c, s, x1, y1) - rot_x(c, s, x2, y2)) * (rot_x(c, s, x1, y1) - rot_x(c, s, x2, y2))
            + (rot_y(c, s, x1, y1) - rot_y(c, s, x2, y2)) * (rot_y(c, s, x1, y1) - rot_y(
            c,
            s,
            x2,
            y2,
        )) == (c * c + s * s) * ((x1 - x2) * (x1 - x2) + (y1 - y2) * (y1 - y2)),
{
    lemma_rotation_linear(c, s, x1, y1, x2, y2);
    lemma_rotation_preserves_sq_norm(c, s, x1 - x2, y1 - y2);
}

/// Two exact rotations compose to the rotation by the angle sum: the
/// composed coefficients are the angle-addition formulas
/// `(c1*c2 - s1*s2, s1*c2 + c1*s2)`.
#[verifier::rlimit(100)]
pub proof fn lemma_rotation_composes(c1: int, s1: int, c2: int, s2: int, x: int, y: int)
    ensures
        rot_x(c2, s2, rot_x(c1, s1, x, y), rot_y(c1, s1, x, y)) == rot_x(
            c1 * c2 - s1 * s2,
            s1 * c2 + c1 * s2,
            x,
            y,
        ),
        rot_y(c2, s2, rot_x(c1, s1, x, y), rot_y(c1, s1, x, y)) == rot_y(
            c1 * c2 - s1 * s2,
            s1 * c2 + c1 * s2,
            x,
            y,
        ),
{
    assert(c2 * (c1 * x - s1 * y) == c1 * c2 * x - s1 * c2 * y) by (nonlinear_arith);
    assert(s2 * (s1 * x + c1 * y) == s1 * s2 * x + c1 * s2 * y) by (nonlinear_arith);
    assert((c1 * c2 - s1 * s2) * x == c1 * c2 * x - s1 * s2 * x) by (nonlinear_arith);
    assert((s1 * c2 + c1 * s2) * y == s1 * c2 * y + c1 * s2 * y) by (nonlinear_arith);
    assert(s2 * (c1 * x - s1 * y) == c1 * s2 * x - s1 * s2 * y) by (nonlinear_arith);
    assert(c2 * (s1 * x + c1 * y) == s1 * c2 * x + c1 * c2 * y) by (nonlinear_arith);
    assert((s1 * c2 + c1 * s2) * x == s1 * c2 * x + c1 * s2 * x) by (nonlinear_arith);
    assert((c1 * c2 - s1 * s2) * y == c1 * c2 * y - s1 * s2 * y) by (nonlinear_arith);
}

/// One full period is the identity: rotating by the coefficient pair
/// `(FX, 0)` — cosine one, sine zero, a whole turn — returns every
/// coordinate unchanged, truncation included.
pub proof fn lemma_full_turn_identity(x: int, y: int)
    ensures
        div_tz(rot_x(FX as int, 0, x, y), FX as int) == x,
        div_tz(rot_y(FX as int, 0, x, y), FX as int) == y,
{
    assert(rot_x(FX as int, 0, x, y) == x * FX) by (nonlinear_arith);
    assert(rot_y(FX as int, 0, x, y) == y * FX) by (nonlinear_arith);
    crate::fixed::lemma_div_tz_exact(x, FX as int);
    crate::fixed::lemma_div_tz_exact(y, FX as int);
}

/// Baselines are antisymmetric in the antenna pair, and every
/// self-pairing is the zero baseline.
pub proof fn lemma_baseline_antisymmetry(pos: Seq<Pt>, w: int, i: int, j: int)
    requires
        w > 0,
        0 <= i < pos.len(),
        0 <= j < pos.len(),
    ensures
        baseline_x(pos, w, i, j) == -baseline_x(pos, w, j, i),
        baseline_y(pos, w, i, j) == -baseline_y(pos, w, j, i),
        baseline_x(pos, w, i, i) == 0,
        baseline_y(pos, w, i, i) == 0,
{
    assert((pos[i].x - pos[j].x) * FX == -((pos[j].x - pos[i].x) * FX)) by (nonlinear_arith);
    assert((pos[i].y - pos[j].y) * FX == -((pos[j].y - pos[i].y) * FX)) by (nonlinear_arith);
    crate::fixed::lemma_div_tz_neg((pos[j].x - pos[i].x) * FX, w);
    crate::fixed::lemma_div_tz_neg((pos[j].y - pos[i].y) * FX, w);
    assert((pos[i].x - pos[i].x) * FX == 0) by (nonlinear_arith);
    assert((pos[i].y - pos[i].y) * FX == 0) by (nonlinear_arith);
}

} // verus!
