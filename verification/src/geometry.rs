//! Bounding boxes and the overlap test used by non-maximum suppression.
//!
//! Coordinates are fixed-point integers: one unit is a thousandth of a
//! pixel in original-image space.  A box is well formed when its corners
//! are ordered and bounded; degenerate (zero-area) boxes are allowed.
//!
//! The suppression rule compares intersection-over-union against 0.7
//! without dividing: `iou >= 7/10` exactly when `10 * inter >= 7 * union`.

use vstd::prelude::*;

verus! {

/// Every well-formed coordinate fits well inside this bound, so all the
/// area arithmetic below stays far away from `i128` overflow.
pub const COORD_LIMIT: i64 = 0x100_0000_0000;

/// An axis-aligned box in original-image space, in thousandths of a pixel.
#[derive(Clone, Copy, Debug, PartialEq, Eq, Structural)]
pub struct BBox {
    pub x1: i64,
    pub y1: i64,
    pub x2: i64,
    pub y2: i64,
}

impl BBox {
    /// Corners ordered and bounded; zero-area boxes are allowed.
    pub open spec fn wf(self) -> bool {
        &&& -COORD_LIMIT <= self.x1 <= self.x2 <= COORD_LIMIT
        &&& -COORD_LIMIT <= self.y1 <= self.y2 <= COORD_LIMIT
    }

    pub open spec fn area(self) -> int {
        (self.x2 - self.x1) * (self.y2 - self.y1)
    }
}

pub open spec fn spec_min(a: int, b: int) -> int {
    if a <= b {
        a
    } else {
        b
    }
}

pub open spec fn spec_max(a: int, b: int) -> int {
    if a >= b {
        a
    } else {
        b
    }
}

/// Signed intersection area: negative when the boxes are disjoint on an
/// axis, exactly as the width-times-height product the detector uses.
pub open spec fn spec_intersection(a: BBox, b: BBox) -> int {
    (spec_min(a.x2 as int, b.x2 as int) - spec_max(a.x1 as int, b.x1 as int)) * (spec_min(
        a.y2 as int,
        b.y2 as int,
    ) - spec_max(a.y1 as int, b.y1 as int))
}

pub open spec fn spec_union(a: BBox, b: BBox) -> int {
    a.area() + b.area() - spec_intersection(a, b)
}

/// Overlap at or above the 0.7 intersection-over-union threshold.
pub open spec fn spec_suppressed(a: BBox, b: BBox) -> bool {
    10 * spec_intersection(a, b) >= 7 * spec_union(a, b)
}

/// The suppression test does not care which box was kept first.
pub proof fn lemma_suppressed_symmetric(a: BBox, b: BBox)
    ensures
        spec_suppressed(a, b) == spec_suppressed(b, a),
{
    assert(spec_intersection(a, b) == spec_intersection(b, a));
}

proof fn lemma_mul_bound(a: int, b: int, m: int)
    requires
        -m <= a <= m,
        -m <= b <= m,
        0 <= m,
    ensures
        -(m * m) <= a * b <= m * m,
{
    assert(-(m * m) <= a * b <= m * m) by (nonlinear_arith)
        requires
            -m <= a <= m,
            -m <= b <= m,
            0 <= m,
    ;
}

fn min_i64(a: i64, b: i64) -> (r: i64)
    ensures
        r == spec_min(a as int, b as int),
{
    if a <= b {
        a
    } else {
        b
    }
}

fn max_i64(a: i64, b: i64) -> (r: i64)
    ensures
        r == spec_max(a as int, b as int),
{
    if a >= b {
        a
    } else {
        b
    }
}

/// Decides whether `b` overlaps `a` enough (IoU >= 0.7) to be suppressed.
pub fn suppressed_by(a: &BBox, b: &BBox) -> (r: bool)
    requires
        a.wf(),
        b.wf(),
    ensures
        r == spec_suppressed(*a, *b),
{
    let iw: i128 = (min_i64(a.x2, b.x2) as i128) - (max_i64(a.x1, b.x1) as i128);
    let ih: i128 = (min_i64(a.y2, b.y2) as i128) - (max_i64(a.y1, b.y1) as i128);
    let aw: i128 = (a.x2 as i128) - (a.x1 as i128);
    let ah: i128 = (a.y2 as i128) - (a.y1 as i128);
    let bw: i128 = (b.x2 as i128) - (b.x1 as i128);
    let bh: i128 = (b.y2 as i128) - (b.y1 as i128);
    proof {
        lemma_mul_bound(iw as int, ih as int, 2 * COORD_LIMIT as int);
        lemma_mul_bound(aw as int, ah as int, 2 * COORD_LIMIT as int);
        lemma_mul_bound(bw as int, bh as int, 2 * COORD_LIMIT as int);
    }
    let inter: i128 = iw * ih;
    let union: i128 = aw * ah + bw * bh - inter;
    10 * inter >= 7 * union
}

} // verus!
