//! Decoding of raw model output into scored candidate boxes.
//!
//! The inference engine hands back `N` rows, each a box center and size in
//! the fixed 640-space the model works in, plus one score per class.  All
//! values arrive as fixed-point integers: scores in units of `1/CONF_ONE`,
//! coordinates in thousandths of a 640-space pixel.  A row is decoded by
//! taking its best class, dropping it when that score is under the fixed
//! detection floor, and rescaling the box into original-image space.

use vstd::prelude::*;

use crate::geometry::BBox;

verus! {

/// Fixed-point representation of a confidence of 1.0.
pub const CONF_ONE: u32 = 10000;

/// Rows whose best class score is under 0.3 are discarded.
pub const DETECTION_FLOOR: u32 = 3000;

/// The model consumes and reports boxes in a square space of this many
/// pixels per side.
pub const MODEL_SIDE: u32 = 640;

/// Raw coordinates are thousandths of a 640-space pixel, clamped by the
/// caller into `[0, SPAN_LIMIT]`; the slack above `640 * 1000` tolerates
/// boxes the model places outside its own canvas.
pub const SPAN_LIMIT: u32 = 2000000;

/// Largest accepted image side, in pixels.
pub const DIM_LIMIT: u32 = 16384;

/// One row of raw model output: box center and size in fixed-point
/// 640-space, and one score per class.
#[derive(Debug)]
pub struct RawRow {
    pub xc: u32,
    pub yc: u32,
    pub w: u32,
    pub h: u32,
    pub scores: Vec<u32>,
}

impl RawRow {
    pub open spec fn wf(self) -> bool {
        &&& self.xc <= SPAN_LIMIT
        &&& self.yc <= SPAN_LIMIT
        &&& self.w <= SPAN_LIMIT
        &&& self.h <= SPAN_LIMIT
        &&& self.scores.len() >= 1
        &&& forall|i: int| 0 <= i < self.scores.len() ==> self.scores[i] <= CONF_ONE
    }
}

/// A scored detection in original-image space.  `label` indexes the
/// detector's class table; `conf` is fixed-point in `[0, CONF_ONE]`.
#[derive(Clone, Copy, Debug, PartialEq, Eq, Structural)]
pub struct Candidate {
    pub bbox: BBox,
    pub label: usize,
    pub conf: u32,
}

impl Candidate {
    pub open spec fn wf(self) -> bool {
        &&& self.bbox.wf()
        &&& self.conf <= CONF_ONE
    }
}

/// Index of the first maximum of a non-empty score list: a later score
/// displaces the champion only when strictly greater.
pub open spec fn spec_arg_best(s: Seq<u32>) -> int
    decreases s.len(),
{
    if s.len() <= 1 {
        0
    } else {
        let r = spec_arg_best(s.drop_last());
        if s.last() > s[r] {
            s.len() - 1
        } else {
            r
        }
    }
}

pub proof fn lemma_arg_best_in_range(s: Seq<u32>)
    requires
        s.len() >= 1,
    ensures
        0 <= spec_arg_best(s) < s.len(),
        forall|i: int| 0 <= i < s.len() ==> #[trigger] s[i] <= s[spec_arg_best(s)],
        forall|i: int| 0 <= i < spec_arg_best(s) ==> #[trigger] s[i] < s[spec_arg_best(s)],
    decreases s.len(),
{
    if s.len() > 1 {
        lemma_arg_best_in_range(s.drop_last());
        assert(forall|i: int| 0 <= i < s.len() - 1 ==> #[trigger] s[i] == s.drop_last()[i]);
    }
}

/// Picks the first highest score, as the row decoder does.
pub fn arg_best(scores: &Vec<u32>) -> (r: usize)
    requires
        scores.len() >= 1,
    ensures
        r == spec_arg_best(scores@),
{
    let mut best: usize = 0;
    let mut i: usize = 1;
    while i < scores.len()
        invariant
            1 <= i <= scores.len(),
            0 <= best < i,
            best == spec_arg_best(scores@.subrange(0, i as int)),
        decreases scores.len() - i,
    {
        assert(scores@.subrange(0, i + 1 as int).drop_last() =~= scores@.subrange(0, i as int));
        assert(scores@.subrange(0, i + 1 as int).last() == scores@[i as int]);
        if scores[i] > scores[best] {
            best = i;
        }
        i = i + 1;
    }
    assert(scores@.subrange(0, scores@.len() as int) =~= scores@);
    best
}

/// Converts one fixed-point 640-space component into original-image space
/// by scaling with `dim / 640`, rounding toward zero.
pub open spec fn spec_scale(v: u32, dim: u32) -> int {
    (v * dim) / (MODEL_SIDE as int)
}

pub proof fn lemma_scale_bounds(v: u32, dim: u32)
    requires
        v <= SPAN_LIMIT,
        dim <= DIM_LIMIT,
    ensures
        0 <= spec_scale(v, dim) <= 51200000,
{
    assert(v * dim <= SPAN_LIMIT * DIM_LIMIT) by (nonlinear_arith)
        requires
            v <= SPAN_LIMIT,
            dim <= DIM_LIMIT,
    ;
    assert(0 <= v * dim) by (nonlinear_arith);
}

fn scale_component(v: u32, dim: u32) -> (r: i64)
    requires
        v <= SPAN_LIMIT,
        dim <= DIM_LIMIT,
    ensures
        r == spec_scale(v, dim),
        0 <= r <= 51200000,
{
    proof {
        lemma_scale_bounds(v, dim);
    }
    ((v as i64) * (dim as i64)) / 640
}

/// The box a raw row describes, rescaled from 640-space into an original
/// image of `w` by `h` pixels: center and size are scaled per axis, then
/// turned into corners, keeping the scaled size exact.
pub open spec fn spec_rescale_box(row: RawRow, w: u32, h: u32) -> BBox {
    let xc = spec_scale(row.xc, w);
    let yc = spec_scale(row.yc, h);
    let bw = spec_scale(row.w, w);
    let bh = spec_scale(row.h, h);
    BBox {
        x1: (xc - bw / 2) as i64,
        y1: (yc - bh / 2) as i64,
        x2: (xc - bw / 2 + bw) as i64,
        y2: (yc - bh / 2 + bh) as i64,
    }
}

pub proof fn lemma_rescale_box_wf(row: RawRow, w: u32, h: u32)
    requires
        row.wf(),
        w <= DIM_LIMIT,
        h <= DIM_LIMIT,
    ensures
        spec_rescale_box(row, w, h).wf(),
{
    lemma_scale_bounds(row.xc, w);
    lemma_scale_bounds(row.yc, h);
    lemma_scale_bounds(row.w, w);
    lemma_scale_bounds(row.h, h);
}

fn rescale_box(row: &RawRow, w: u32, h: u32) -> (r: BBox)
    requires
        row.wf(),
        w <= DIM_LIMIT,
        h <= DIM_LIMIT,
    ensures
        r == spec_rescale_box(*row, w, h),
        r.wf(),
{
    proof {
        lemma_rescale_box_wf(*row, w, h);
    }
    let xc = scale_component(row.xc, w);
    let yc = scale_component(row.yc, h);
    let bw = scale_component(row.w, w);
    let bh = scale_component(row.h, h);
    BBox { x1: xc - bw / 2, y1: yc - bh / 2, x2: xc - bw / 2 + bw, y2: yc - bh / 2 + bh }
}

/// One row becomes a candidate when its best class score reaches the
/// detection floor; the candidate carries that class and score.
pub open spec fn spec_decode_row(row: RawRow, w: u32, h: u32) -> Option<Candidate> {
    let k = spec_arg_best(row.scores@);
    if row.scores@[k] < DETECTION_FLOOR {
        None
    } else {
        Some(
            Candidate {
                bbox: spec_rescale_box(row, w, h),
                label: k as usize,
                conf: row.scores@[k],
            },
        )
    }
}

/// Candidates of a whole output tensor, in row order.
pub open spec fn spec_decode_rows(rows: Seq<RawRow>, w: u32, h: u32) -> Seq<Candidate>
    decreases rows.len(),
{
    if rows.len() == 0 {
        Seq::empty()
    } else {
        let prev = spec_decode_rows(rows.drop_last(), w, h);
        match spec_decode_row(rows.last(), w, h) {
            Some(c) => prev.push(c),
            None => prev,
        }
    }
}

pub proof fn lemma_decode_rows_wf(rows: Seq<RawRow>, w: u32, h: u32)
    requires
        forall|i: int| 0 <= i < rows.len() ==> (#[trigger] rows[i]).wf(),
        w <= DIM_LIMIT,
        h <= DIM_LIMIT,
    ensures
        spec_decode_rows(rows, w, h).len() <= rows.len(),
        forall|i: int|
            0 <= i < spec_decode_rows(rows, w, h).len() ==> (#[trigger] spec_decode_rows(
                rows,
                w,
                h,
            )[i]).wf(),
    decreases rows.len(),
{
    if rows.len() > 0 {
        lemma_decode_rows_wf(rows.drop_last(), w, h);
        let last = rows.last();
        lemma_rescale_box_wf(last, w, h);
        lemma_arg_best_in_range(last.scores@);
    }
}

/// Decodes every row, keeping those whose best score reaches the floor.
pub fn decode_rows(rows: &Vec<RawRow>, w: u32, h: u32) -> (r: Vec<Candidate>)
    requires
        forall|i: int| 0 <= i < rows.len() ==> (#[trigger] rows@[i]).wf(),
        1 <= w <= DIM_LIMIT,
        1 <= h <= DIM_LIMIT,
    ensures
        r@ == spec_decode_rows(rows@, w, h),
        forall|i: int| 0 <= i < r.len() ==> (#[trigger] r@[i]).wf(),
{
    let mut out: Vec<Candidate> = Vec::new();
    let mut i: usize = 0;
    while i < rows.len()
        invariant
            0 <= i <= rows.len(),
            forall|j: int| 0 <= j < rows.len() ==> (#[trigger] rows@[j]).wf(),
            1 <= w <= DIM_LIMIT,
            1 <= h <= DIM_LIMIT,
            out@ == spec_decode_rows(rows@.subrange(0, i as int), w, h),
            forall|j: int| 0 <= j < out.len() ==> (#[trigger] out@[j]).wf(),
        decreases rows.len() - i,
    {
        assert(rows@.subrange(0, i + 1 as int).drop_last() =~= rows@.subrange(0, i as int));
        assert(rows@.subrange(0, i + 1 as int).last() == rows@[i as int]);
        let row = &rows[i];
        let k = arg_best(&row.scores);
        proof {
            lemma_arg_best_in_range(row.scores@);
        }
        let score = row.scores[k];
        if score >= DETECTION_FLOOR {
            let bbox = rescale_box(row, w, h);
            out.push(Candidate { bbox, label: k, conf: score });
        }
        i = i + 1;
    }
    assert(rows@.subrange(0, rows@.len() as int) =~= rows@);
    out
}

} // verus!
