//! The image buffer: a square intensity grid stored row-major, with
//! lossless vector conversion, normalization and byte quantization.

use vstd::prelude::*;
use crate::fixed::{div_tz, div_trunc, isqrt, FX};
use crate::rng::rand_below;

verus! {

/// Largest pixel magnitude the normalization accepts.
pub const PIX_MAX: i64 = 0x2_0000_0000_0000;

/// The square of an integer.
pub open spec fn sq(n: int) -> int {
    n * n
}

/// A length that is some non-negative integer squared.
pub open spec fn is_perfect_square(l: int) -> bool {
    exists|n: int| 0 <= n && #[trigger] sq(n) == l
}

/// Largest value among the first `n` entries (`n >= 1`).
pub open spec fn max_of(s: Seq<i64>, n: int) -> int
    decreases n,
{
    if n <= 1 {
        s[0] as int
    } else if s[n - 1] as int > max_of(s, n - 1) {
        s[n - 1] as int
    } else {
        max_of(s, n - 1)
    }
}

/// Smallest value among the first `n` entries (`n >= 1`).
pub open spec fn min_of(s: Seq<i64>, n: int) -> int
    decreases n,
{
    if n <= 1 {
        s[0] as int
    } else if (s[n - 1] as int) < min_of(s, n - 1) {
        s[n - 1] as int
    } else {
        min_of(s, n - 1)
    }
}

/// A normalized intensity quantized to one 8-bit sample, saturating
/// at the ends of the scale.
pub open spec fn byte_of(nv: int) -> int {
    if nv <= 0 {
        0
    } else if nv >= FX as int {
        255
    } else {
        (nv * 255) / (FX as int)
    }
}

/// Why an image operation was refused.
#[derive(Clone, Copy, Debug, PartialEq, Eq, Structural)]
pub enum ImageError {
    /// The vector length is not a perfect square.
    NotPerfectSquare,
    /// The image holds no pixels, so it has no minimum or maximum.
    Empty,
    /// The raw maximum is not positive, so the normalization divisor
    /// is unusable.  (The normalization divides by the raw maximum,
    /// not by the range — kept as designed, even though a negative
    /// minimum then yields values above one.)
    NonPositiveMax,
}

/// A square image of fixed-point intensities, stored row-major.
#[derive(Debug, PartialEq, Eq)]
pub struct ArrayImage {
    /// The pixels, row-major; `side * side` entries.
    pub pixels: Vec<i64>,
    /// The number of pixels per side.
    pub side: usize,
}

impl ArrayImage {
    /// The pixel count matches the square shape.
    pub open spec fn wf(self) -> bool {
        self.pixels@.len() == sq(self.side as int) && self.side <= 0xffff
    }

    /// Creates an image from a flat pixel vector.  Succeeds exactly
    /// when the length is a perfect square; the pixels are kept in
    /// the given row-major order.
    pub fn from_vector(v: &Vec<i64>) -> (r: Result<ArrayImage, ImageError>)
        requires
            v@.len() <= 0xfffe_0001,
        ensures
            r is Ok <==> is_perfect_square(v@.len() as int),
            r matches Ok(img) ==> img.wf() && img.pixels@ == v@ && sq(img.side as int) == v@.len(),
            r is Err ==> r == Err::<ArrayImage, ImageError>(ImageError::NotPerfectSquare),
    {
        let side64: u64 = isqrt(v.len() as u128);
        proof {
            assert(side64 as int <= 0xffff) by (nonlinear_arith)
                requires
                    (side64 as int) * (side64 as int) <= 0xfffe_0001,
                    side64 as int >= 0,
            ;
        }
        let side: usize = side64 as usize;
        let ok: bool = side * side == v.len();
        if !ok {
            proof {
                assert forall|m: int| 0 <= m implies #[trigger] sq(m) != v@.len() as int by {
                    if m <= side as int {
                        assert(sq(m) <= sq(side as int)) by (nonlinear_arith)
                            requires
                                0 <= m <= side as int,
                        ;
                    } else {
                        assert(sq(m) >= sq(side as int + 1)) by (nonlinear_arith)
                            requires
                                m >= side as int + 1,
                                side as int >= 0,
                        ;
                    }
                }
            }
            return Err(ImageError::NotPerfectSquare);
        }
        let mut pixels: Vec<i64> = Vec::new();
        let mut k: usize = 0;
        let n: usize = v.len();
        while k < n
            invariant
                0 <= k <= n,
                n == v@.len(),
                pixels@.len() == k,
                forall|m: int| 0 <= m < k ==> (#[trigger] pixels@[m]) == v@[m],
            decreases n - k,
        {
            pixels.push(v[k]);
            k = k + 1;
        }
        proof {
            assert(pixels@ =~= v@);
            assert(sq(side as int) == v@.len() as int);
        }
        Ok(ArrayImage { pixels, side })
    }

    /// Row-major flatten: returns the pixels in exactly the order
    /// `from_vector` received them.
    pub fn to_vector(&self) -> (r: Vec<i64>)
        ensures
            r@ == self.pixels@,
    {
        let mut r: Vec<i64> = Vec::new();
        let mut k: usize = 0;
        let n: usize = self.pixels.len();
        while k < n
            invariant
                0 <= k <= n,
                n == self.pixels@.len(),
                r@.len() == k,
                forall|m: int| 0 <= m < k ==> (#[trigger] r@[m]) == self.pixels@[m],
            decreases n - k,
        {
            r.push(self.pixels[k]);
            k = k + 1;
        }
        proof {
            assert(r@ =~= self.pixels@);
        }
        r
    }

    /// Rescales every pixel as `(pixel - min) / max` — the divisor is
    /// the raw maximum, not the range — at fixed-point scale.  An
    /// empty image or a non-positive maximum is a reportable error.
    pub fn normalize(&self) -> (r: Result<ArrayImage, ImageError>)
        requires
            self.wf(),
            forall|k: int|
                0 <= k < self.pixels@.len() ==> -PIX_MAX <= #[trigger] self.pixels@[k] <= PIX_MAX,
        ensures
            self.pixels@.len() == 0 ==> r == Err::<ArrayImage, ImageError>(ImageError::Empty),
            self.pixels@.len() > 0 && max_of(self.pixels@, self.pixels@.len() as int) <= 0 ==> r
                == Err::<ArrayImage, ImageError>(ImageError::NonPositiveMax),
            self.pixels@.len() > 0 && max_of(self.pixels@, self.pixels@.len() as int) > 0 ==> (
            r matches Ok(img) && img.side == self.side && img.pixels@.len() == self.pixels@.len()
                && forall|k: int|
                0 <= k < self.pixels@.len() ==> (#[trigger] img.pixels@[k]) as int == div_tz(
                    (self.pixels@[k] - min_of(self.pixels@, self.pixels@.len() as int)) * FX,
                    max_of(self.pixels@, self.pixels@.len() as int),
                )),
    {
        let n: usize = self.pixels.len();
        if n == 0 {
            return Err(ImageError::Empty);
        }
        let mut mx: i64 = self.pixels[0];
        let mut mn: i64 = self.pixels[0];
        let mut k: usize = 1;
        while k < n
            invariant
                1 <= k <= n,
                n == self.pixels@.len(),
                forall|m: int|
                    0 <= m < n ==> -PIX_MAX <= #[trigger] self.pixels@[m] <= PIX_MAX,
                mx as int == max_of(self.pixels@, k as int),
                mn as int == min_of(self.pixels@, k as int),
                -PIX_MAX <= mx <= PIX_MAX,
                -PIX_MAX <= mn <= PIX_MAX,
            decreases n - k,
        {
            let p: i64 = self.pixels[k];
            if p > mx {
                mx = p;
            }
            if p < mn {
                mn = p;
            }
            k = k + 1;
        }
        if mx <= 0 {
            return Err(ImageError::NonPositiveMax);
        }
        let mut out: Vec<i64> = Vec::new();
        let mut t: usize = 0;
        while t < n
            invariant
                0 <= t <= n,
                n == self.pixels@.len(),
                forall|m: int|
                    0 <= m < n ==> -PIX_MAX <= #[trigger] self.pixels@[m] <= PIX_MAX,
                mx as int == max_of(self.pixels@, n as int),
                mn as int == min_of(self.pixels@, n as int),
                -PIX_MAX <= mn <= PIX_MAX,
                0 < mx <= PIX_MAX,
                out@.len() == t,
                forall|m: int|
                    0 <= m < t ==> (#[trigger] out@[m]) as int == div_tz(
                        (self.pixels@[m] - mn as int) * FX,
                        mx as int,
                    ),
            decreases n - t,
        {
            out.push(div_trunc((self.pixels[t] - mn) * FX, mx));
            t = t + 1;
        }
        Ok(ArrayImage { pixels: out, side: self.side })
    }

    /// Normalizes and quantizes the image to one 8-bit grayscale
    /// sample per pixel, row-major, for an external raster encoder.
    pub fn to_gray_bytes(&self) -> (r: Result<Vec<u8>, ImageError>)
        requires
            self.wf(),
            forall|k: int|
                0 <= k < self.pixels@.len() ==> -PIX_MAX <= #[trigger] self.pixels@[k] <= PIX_MAX,
        ensures
            self.pixels@.len() == 0 ==> r == Err::<Vec<u8>, ImageError>(ImageError::Empty),
            self.pixels@.len() > 0 && max_of(self.pixels@, self.pixels@.len() as int) <= 0 ==> r
                == Err::<Vec<u8>, ImageError>(ImageError::NonPositiveMax),
            self.pixels@.len() > 0 && max_of(self.pixels@, self.pixels@.len() as int) > 0 ==> (
            r matches Ok(bytes) && bytes@.len() == self.pixels@.len() && forall|k: int|
                0 <= k < self.pixels@.len() ==> (#[trigger] bytes@[k]) as int == byte_of(
                    div_tz(
                        (self.pixels@[k] - min_of(self.pixels@, self.pixels@.len() as int)) * FX,
                        max_of(self.pixels@, self.pixels@.len() as int),
                    ),
                )),
    {
        let norm: ArrayImage = match self.normalize() {
            Ok(img) => img,
            Err(e) => {
                return Err(e);
            },
        };
        let n: usize = norm.pixels.len();
        let mut bytes: Vec<u8> = Vec::new();
        let mut k: usize = 0;
        while k < n
            invariant
                0 <= k <= n,
                n == norm.pixels@.len() == self.pixels@.len(),
                self.pixels@.len() > 0,
                max_of(self.pixels@, self.pixels@.len() as int) > 0,
                forall|m: int|
                    0 <= m < n ==> (#[trigger] norm.pixels@[m]) as int == div_tz(
                        (self.pixels@[m] - min_of(self.pixels@, self.pixels@.len() as int)) * FX,
                        max_of(self.pixels@, self.pixels@.len() as int),
                    ),
                bytes@.len() == k,
                forall|m: int|
                    0 <= m < k ==> (#[trigger] bytes@[m]) as int == byte_of(
                        norm.pixels@[m] as int,
                    ),
            decreases n - k,
        {
            let nv: i64 = norm.pixels[k];
            let b: u8 = if nv <= 0 {
                0u8
            } else if nv >= FX {
                255u8
            } else {
                let q: i64 = div_trunc(nv * 255, FX);
                proof {
                    crate::fixed::lemma_div_tz_quotient_bound(
                        (nv * 255) as int,
                        FX as int,
                        255,
                    );
                }
                q as u8
            };
            bytes.push(b);
            k = k + 1;
        }
        Ok(bytes)
    }
}

/// Round trip: an image built from a perfect-square vector flattens
/// back to exactly that vector.  The hypotheses are the contracts of
/// `from_vector` (on success) and `to_vector`.
pub proof fn lemma_round_trip(v: Seq<i64>, img: ArrayImage, out: Seq<i64>)
    requires
        img.pixels@ == v,
        out == img.pixels@,
    ensures
        out == v,
{
}

/// How many of the first `n` pixels are lit (non-zero).
pub open spec fn lit_count(s: Seq<i64>, n: int) -> int
    decreases n,
{
    if n <= 0 {
        0
    } else {
        lit_count(s, n - 1) + if s[n - 1] != 0 {
            1int
        } else {
            0int
        }
    }
}

/// A prefix of zeros has no lit pixel.
proof fn lemma_lit_count_zero(s: Seq<i64>, n: int)
    requires
        n <= s.len(),
        forall|k: int| 0 <= k < n ==> (#[trigger] s[k]) == 0,
    ensures
        lit_count(s, n) == 0,
    decreases n,
{
    if n > 0 {
        lemma_lit_count_zero(s, n - 1);
    }
}

/// Overwriting one pixel raises the lit count by at most one.
proof fn lemma_lit_count_update(s: Seq<i64>, i: int, v: i64, n: int)
    requires
        0 <= i < s.len(),
        n <= s.len(),
    ensures
        i < n ==> lit_count(s.update(i, v), n) <= lit_count(s, n) + 1,
        i >= n ==> lit_count(s.update(i, v), n) == lit_count(s, n),
    decreases n,
{
    if n > 0 {
        lemma_lit_count_update(s, i, v, n - 1);
    }
}

/// Generates a square sky image holding up to `stars` unit-intensity
/// pixels at uniformly random positions, zero elsewhere.
pub fn starfield(stars: u32, size: usize) -> (r: ArrayImage)
    requires
        1 <= size <= 0xffff,
    ensures
        r.wf(),
        r.side == size,
        forall|k: int| 0 <= k < r.pixels@.len() ==> (#[trigger] r.pixels@[k]) == 0 || r.pixels@[k] == FX,
        lit_count(r.pixels@, r.pixels@.len() as int) <= stars,
        stars >= 1 ==> exists|k: int| 0 <= k < r.pixels@.len() && r.pixels@[k] == FX,
{
    proof {
        assert((size as int) * (size as int) <= 0xfffe_0001) by (nonlinear_arith)
            requires
                0 <= (size as int) <= 0xffff,
        ;
    }
    let total: usize = size * size;
    let mut pixels: Vec<i64> = Vec::new();
    let mut k: usize = 0;
    while k < total
        invariant
            0 <= k <= total,
            pixels@.len() == k,
            forall|m: int| 0 <= m < k ==> (#[trigger] pixels@[m]) == 0,
        decreases total - k,
    {
        pixels.push(0i64);
        k = k + 1;
    }
    proof {
        lemma_lit_count_zero(pixels@, total as int);
    }
    let mut t: u32 = 0;
    while t < stars
        invariant
            0 <= t <= stars,
            1 <= size <= 0xffff,
            pixels@.len() == total,
            total == (size as int) * (size as int),
            forall|m: int|
                0 <= m < pixels@.len() ==> (#[trigger] pixels@[m]) == 0 || pixels@[m] == FX,
            lit_count(pixels@, total as int) <= t,
            t >= 1 ==> exists|m: int| 0 <= m < pixels@.len() && pixels@[m] == FX,
        decreases stars - t,
    {
        let row: usize = rand_below(size as i64) as usize;
        let col: usize = rand_below(size as i64) as usize;
        proof {
            assert((row as int) * (size as int) + (col as int) < (size as int) * (size as int))
                by (nonlinear_arith)
                requires
                    0 <= (row as int) < (size as int),
                    0 <= (col as int) < (size as int),
            ;
        }
        let idx: usize = row * size + col;
        proof {
            lemma_lit_count_update(pixels@, idx as int, FX, total as int);
        }
        pixels.set(idx, FX);
        proof {
            assert(pixels@[idx as int] == FX);
        }
        t = t + 1;
    }
    ArrayImage { pixels, side: size }
}

} // verus!
