//! Pixel-buffer transformations: model input layout, canvas conversion,
//! and compositing of a drawn overlay onto the original image.
//!
//! Buffers are flat RGBA byte vectors, four bytes per pixel.  The model
//! instead wants one plane per channel (all red bytes, then green, then
//! blue), row-major over its fixed 640 by 640 canvas; the unverified edge
//! divides each byte by 255 when it builds the floating-point tensor.

use vstd::prelude::*;

verus! {

/// Pixels of the model's square input canvas.
pub const MODEL_PIXELS: usize = 409600;

/// Rearranges a 640 by 640 RGBA buffer into three channel planes (red,
/// green, blue), dropping alpha.
pub fn to_planar(rgba: &Vec<u8>) -> (r: Vec<u8>)
    requires
        rgba.len() == 4 * MODEL_PIXELS,
    ensures
        r.len() == 3 * MODEL_PIXELS,
        forall|c: int, i: int|
            0 <= c < 3 && 0 <= i < MODEL_PIXELS ==> #[trigger] r@[c * MODEL_PIXELS + i] == rgba@[4
                * i + c],
{
    let mut out: Vec<u8> = Vec::new();
    let mut c: usize = 0;
    while c < 3
        invariant
            0 <= c <= 3,
            rgba.len() == 4 * MODEL_PIXELS,
            out.len() == c * MODEL_PIXELS,
            forall|d: int, i: int|
                0 <= d < c && 0 <= i < MODEL_PIXELS ==> #[trigger] out@[d * MODEL_PIXELS + i]
                    == rgba@[4 * i + d],
        decreases 3 - c,
    {
        let mut i: usize = 0;
        while i < MODEL_PIXELS
            invariant
                0 <= i <= MODEL_PIXELS,
                0 <= c < 3,
                rgba.len() == 4 * MODEL_PIXELS,
                out.len() == c * MODEL_PIXELS + i,
                forall|d: int, j: int|
                    0 <= d < c && 0 <= j < MODEL_PIXELS ==> #[trigger] out@[d * MODEL_PIXELS + j]
                        == rgba@[4 * j + d],
                forall|j: int|
                    0 <= j < i ==> #[trigger] out@[c * MODEL_PIXELS + j] == rgba@[4 * j + c],
            decreases MODEL_PIXELS - i,
        {
            out.push(rgba[4 * i + c]);
            i = i + 1;
        }
        c = c + 1;
    }
    out
}

/// Red, green, blue and alpha of one packed ARGB word, as the drawing
/// canvas stores a pixel.
pub open spec fn argb_red(p: u32) -> u8 {
    ((p >> 16) & 0xff) as u8
}

pub open spec fn argb_green(p: u32) -> u8 {
    ((p >> 8) & 0xff) as u8
}

pub open spec fn argb_blue(p: u32) -> u8 {
    (p & 0xff) as u8
}

pub open spec fn argb_alpha(p: u32) -> u8 {
    ((p >> 24) & 0xff) as u8
}

/// Unpacks a canvas of packed ARGB words into an RGBA byte buffer.
pub fn argb_to_rgba(canvas: &Vec<u32>) -> (r: Vec<u8>)
    requires
        canvas.len() <= usize::MAX / 4,
    ensures
        r.len() == 4 * canvas.len(),
        forall|i: int|
            0 <= i < canvas.len() ==> {
                &&& #[trigger] r@[4 * i] == argb_red(canvas@[i])
                &&& r@[4 * i + 1] == argb_green(canvas@[i])
                &&& r@[4 * i + 2] == argb_blue(canvas@[i])
                &&& r@[4 * i + 3] == argb_alpha(canvas@[i])
            },
{
    let mut out: Vec<u8> = Vec::new();
    let mut i: usize = 0;
    while i < canvas.len()
        invariant
            0 <= i <= canvas.len(),
            canvas.len() <= usize::MAX / 4,
            out.len() == 4 * i,
            forall|j: int|
                0 <= j < i ==> {
                    &&& #[trigger] out@[4 * j] == argb_red(canvas@[j])
                    &&& out@[4 * j + 1] == argb_green(canvas@[j])
                    &&& out@[4 * j + 2] == argb_blue(canvas@[j])
                    &&& out@[4 * j + 3] == argb_alpha(canvas@[j])
                },
        decreases canvas.len() - i,
    {
        let p = canvas[i];
        assert((p >> 16) & 0xff < 256 && (p >> 8) & 0xff < 256 && p & 0xff < 256 && (p >> 24) & 0xff
            < 256) by (bit_vector);
        out.push(((p >> 16) & 0xff) as u8);
        out.push(((p >> 8) & 0xff) as u8);
        out.push((p & 0xff) as u8);
        out.push(((p >> 24) & 0xff) as u8);
        i = i + 1;
    }
    out
}

/// Pixel `p` of `out` is the overlay pixel wherever the overlay has any
/// alpha, and otherwise the original pixel with its alpha forced to 255.
/// No third value is possible.
pub open spec fn composited_pixel(original: Seq<u8>, overlay: Seq<u8>, out: Seq<u8>, p: int) -> bool {
    if overlay[4 * p + 3] > 0 {
        &&& out[4 * p] == overlay[4 * p]
        &&& out[4 * p + 1] == overlay[4 * p + 1]
        &&& out[4 * p + 2] == overlay[4 * p + 2]
        &&& out[4 * p + 3] == overlay[4 * p + 3]
    } else {
        &&& out[4 * p] == original[4 * p]
        &&& out[4 * p + 1] == original[4 * p + 1]
        &&& out[4 * p + 2] == original[4 * p + 2]
        &&& out[4 * p + 3] == 255
    }
}

/// Lays the drawn overlay over the original image: wherever the overlay
/// has any alpha its pixel wins unchanged; everywhere else the original
/// pixel is kept with its alpha forced to 255.
pub fn composite(original: &Vec<u8>, overlay: &Vec<u8>) -> (r: Vec<u8>)
    requires
        original.len() == overlay.len(),
        original.len() % 4 == 0,
    ensures
        r.len() == original.len(),
        forall|p: int|
            0 <= p < original.len() / 4 ==> #[trigger] composited_pixel(
                original@,
                overlay@,
                r@,
                p,
            ),
{
    let mut out: Vec<u8> = Vec::new();
    let mut i: usize = 0;
    let pixels = original.len() / 4;
    while i < pixels
        invariant
            0 <= i <= pixels,
            pixels == original.len() / 4,
            original.len() == overlay.len(),
            original.len() % 4 == 0,
            out.len() == 4 * i,
            forall|p: int| 0 <= p < i ==> #[trigger] composited_pixel(original@, overlay@, out@, p),
        decreases pixels - i,
    {
        let ghost prev = out@;
        if overlay[4 * i + 3] > 0 {
            out.push(overlay[4 * i]);
            out.push(overlay[4 * i + 1]);
            out.push(overlay[4 * i + 2]);
            out.push(overlay[4 * i + 3]);
        } else {
            out.push(original[4 * i]);
            out.push(original[4 * i + 1]);
            out.push(original[4 * i + 2]);
            out.push(255);
        }
        proof {
            assert(composited_pixel(original@, overlay@, out@, i as int));
            assert forall|p: int| 0 <= p < i implies #[trigger] composited_pixel(
                original@,
                overlay@,
                out@,
                p,
            ) by {
                assert(composited_pixel(original@, overlay@, prev, p));
                assert(out@[4 * p] == prev[4 * p]);
                assert(out@[4 * p + 1] == prev[4 * p + 1]);
                assert(out@[4 * p + 2] == prev[4 * p + 2]);
                assert(out@[4 * p + 3] == prev[4 * p + 3]);
            }
        }
        i = i + 1;
    }
    out
}

} // verus!
