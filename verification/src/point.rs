//! A point of the plane in fixed-point coordinates.

use vstd::prelude::*;

verus! {

/// A planar point or vector; both coordinates are fixed-point
/// integers (meters, wavelengths or direction cosines, by context).
#[derive(Clone, Copy, Debug, PartialEq, Eq, Structural)]
pub struct Pt {
    pub x: i64,
    pub y: i64,
}

/// Negates every point: the receive-direction sign flip the pipeline
/// applies to the UV coordinates.
pub fn negate_all(v: &Vec<Pt>) -> (r: Vec<Pt>)
    requires
        forall|k: int|
            0 <= k < v@.len() ==> (#[trigger] v@[k]).x > i64::MIN && v@[k].y > i64::MIN,
    ensures
        r@.len() == v@.len(),
        forall|k: int|
            0 <= k < v@.len() ==> (#[trigger] r@[k]).x as int == -(v@[k].x as int) && r@[k].y
                as int == -(v@[k].y as int),
{
    let n: usize = v.len();
    let mut r: Vec<Pt> = Vec::new();
    let mut k: usize = 0;
    while k < n
        invariant
            0 <= k <= n,
            n == v@.len(),
            forall|m: int|
                0 <= m < n ==> (#[trigger] v@[m]).x > i64::MIN && v@[m].y > i64::MIN,
            r@.len() == k,
            forall|m: int|
                0 <= m < k ==> (#[trigger] r@[m]).x as int == -(v@[m].x as int) && r@[m].y as int
                    == -(v@[m].y as int),
        decreases n - k,
    {
        let p: Pt = v[k];
        r.push(Pt { x: -p.x, y: -p.y });
        k = k + 1;
    }
    r
}

} // verus!
