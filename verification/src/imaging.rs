//! Bitmaps, the trusted image-codec boundary, and the two verified
//! assemblies built on it: the model-input preprocessor and the annotation
//! overlay.
//!
//! Decoding, resampling and format sniffing are done by the `image` crate;
//! each call sits behind one trusted declaration whose result is named by
//! an uninterpreted function of the input bytes, since all of them depend
//! on their arguments alone.  Everything around the calls — dimension
//! checks, channel-plane layout, compositing — is verified.

use vstd::prelude::*;

use crate::detect::DIM_LIMIT;
use crate::pixels::MODEL_PIXELS;
use crate::pixels::composited_pixel;
use crate::pixels::argb_red;
use crate::pixels::argb_green;
use crate::pixels::argb_blue;
use crate::pixels::argb_alpha;
use crate::pixels::argb_to_rgba;
use crate::pixels::composite;
use crate::pixels::to_planar;

verus! {

/// A decoded bitmap: RGBA bytes, row-major, four bytes per pixel.
pub struct Bitmap {
    pub width: u32,
    pub height: u32,
    pub rgba: Vec<u8>,
}

impl Bitmap {
    /// Dimensions the pipeline accepts, with a buffer of matching size.
    pub open spec fn wf(self) -> bool {
        &&& 1 <= self.width <= DIM_LIMIT
        &&& 1 <= self.height <= DIM_LIMIT
        &&& self.rgba.len() == 4 * (self.width as int) * (self.height as int)
    }
}

/// What decoding a byte buffer into an RGBA bitmap yields: width, height
/// and pixel bytes, or nothing when the buffer is not a decodable image.
pub uninterp spec fn decoded_image_of(bytes: Seq<u8>) -> Option<(u32, u32, Seq<u8>)>;

/// Relies on image::load_from_memory and DynamicImage::into_rgba8: the
/// decoded pixels depend on the bytes alone, and the buffer of an
/// ImageBuffer holds exactly width * height * 4 bytes.
#[verifier::external_body]
fn decode_bitmap(bytes: &Vec<u8>) -> (r: Option<Bitmap>)
    ensures
        match r {
            Some(b) => {
                &&& decoded_image_of(bytes@) == Some((b.width, b.height, b.rgba@))
                &&& b.rgba@.len() == 4 * (b.width as int) * (b.height as int)
            },
            None => decoded_image_of(bytes@) is None,
        },
{
    match image::load_from_memory(bytes) {
        Ok(img) => {
            let buf = img.into_rgba8();
            let (width, height) = (buf.width(), buf.height());
            Some(Bitmap { width, height, rgba: buf.into_raw() })
        },
        Err(_) => None,
    }
}

/// What decoding one frame of an animated GIF yields, or nothing when the
/// bytes are not a GIF or the frame index is out of bounds.
pub uninterp spec fn gif_frame_of(bytes: Seq<u8>, index: usize) -> Option<(u32, u32, Seq<u8>)>;

/// Relies on image::codecs::gif::GifDecoder and
/// AnimationDecoder::into_frames: the decoded frames depend on the bytes
/// alone; a frame buffer holds exactly width * height * 4 RGBA bytes.
#[verifier::external_body]
fn decode_gif_frame(bytes: &Vec<u8>, index: usize) -> (r: Option<Bitmap>)
    ensures
        match r {
            Some(b) => {
                &&& gif_frame_of(bytes@, index) == Some((b.width, b.height, b.rgba@))
                &&& b.rgba@.len() == 4 * (b.width as int) * (b.height as int)
            },
            None => gif_frame_of(bytes@, index) is None,
        },
{
    let cursor = std::io::Cursor::new(bytes.as_slice());
    let decoder = image::codecs::gif::GifDecoder::new(cursor).ok()?;
    let frames = image::AnimationDecoder::into_frames(decoder).collect_frames().ok()?;
    let frame = frames.into_iter().nth(index)?;
    let buf = frame.into_buffer();
    let (width, height) = (buf.width(), buf.height());
    Some(Bitmap { width, height, rgba: buf.into_raw() })
}

/// Whether sniffing the byte buffer finds the GIF container, another
/// known container, or none at all.
pub uninterp spec fn guessed_gif_of(bytes: Seq<u8>) -> Option<bool>;

/// Relies on image::guess_format: the detected container depends on the
/// leading magic bytes alone.
#[verifier::external_body]
fn guess_is_gif(bytes: &Vec<u8>) -> (r: Option<bool>)
    ensures
        r == guessed_gif_of(bytes@),
{
    match image::guess_format(bytes) {
        Ok(image::ImageFormat::Gif) => Some(true),
        Ok(_) => Some(false),
        Err(_) => None,
    }
}

/// What resampling an RGBA bitmap to `tw` by `th` pixels with the
/// Catmull-Rom filter yields.
pub uninterp spec fn resampled_of(rgba: Seq<u8>, w: u32, h: u32, tw: u32, th: u32) -> Seq<u8>;

/// Relies on image::imageops::resize with FilterType::CatmullRom: the
/// resampled pixels depend on the source pixels and the four dimensions
/// alone, and the result buffer holds exactly tw * th * 4 bytes.
#[verifier::external_body]
fn resample_rgba(src: &Bitmap, tw: u32, th: u32) -> (r: Vec<u8>)
    requires
        src.wf(),
        1 <= tw <= DIM_LIMIT,
        1 <= th <= DIM_LIMIT,
    ensures
        r@ == resampled_of(src.rgba@, src.width, src.height, tw, th),
        r@.len() == 4 * (tw as int) * (th as int),
{
    let img = image::RgbaImage::from_raw(src.width, src.height, src.rgba.clone()).unwrap();
    let out = image::imageops::resize(&img, tw, th, image::imageops::FilterType::CatmullRom);
    out.into_raw()
}

/// How one fetched message image is decoded: the container is sniffed
/// first; the first frame of a GIF, the whole bitmap otherwise, nothing
/// when sniffing or decoding fails.
pub open spec fn spec_message_decode(bytes: Seq<u8>) -> Option<(u32, u32, Seq<u8>)> {
    match guessed_gif_of(bytes) {
        None => None,
        Some(true) => gif_frame_of(bytes, 0),
        Some(false) => decoded_image_of(bytes),
    }
}

/// Decodes one fetched image the way the pipeline wants it, accepting
/// only bitmaps whose dimensions the detector can process.
pub fn load_message_bitmap(bytes: &Vec<u8>) -> (r: Option<Bitmap>)
    ensures
        match r {
            Some(b) => {
                &&& b.wf()
                &&& spec_message_decode(bytes@) == Some((b.width, b.height, b.rgba@))
            },
            None => match spec_message_decode(bytes@) {
                Some((w, h, px)) => !(1 <= w <= DIM_LIMIT && 1 <= h <= DIM_LIMIT),
                None => true,
            },
        },
{
    let decoded = match guess_is_gif(bytes) {
        None => None,
        Some(true) => decode_gif_frame(bytes, 0),
        Some(false) => decode_bitmap(bytes),
    };
    match decoded {
        Some(b) => {
            if 1 <= b.width && b.width <= DIM_LIMIT && 1 <= b.height && b.height <= DIM_LIMIT {
                Some(b)
            } else {
                None
            }
        },
        None => None,
    }
}

/// Builds the model's input planes from an arbitrary-size bitmap: the
/// bitmap is resampled onto the model's square canvas, then split into
/// red, green and blue planes.  The unverified caller divides each byte
/// by 255 to reach the unit interval the model expects.
pub fn model_input(src: &Bitmap) -> (r: Vec<u8>)
    requires
        src.wf(),
    ensures
        r.len() == 3 * MODEL_PIXELS,
        forall|c: int, i: int|
            0 <= c < 3 && 0 <= i < MODEL_PIXELS ==> #[trigger] r@[c * MODEL_PIXELS + i]
                == resampled_of(src.rgba@, src.width, src.height, 640, 640)[4 * i + c],
{
    let resized = resample_rgba(src, 640, 640);
    to_planar(&resized)
}

/// Composites a drawn canvas of packed ARGB words over the original
/// bitmap: overlay pixels with any alpha win; everywhere else the
/// original pixel is kept with alpha forced to 255.
pub fn overlay_canvas(original: &Bitmap, canvas: &Vec<u32>) -> (r: Vec<u8>)
    requires
        original.wf(),
        canvas.len() == (original.width as int) * (original.height as int),
    ensures
        r.len() == original.rgba.len(),
        forall|p: int|
            0 <= p < canvas.len() ==> #[trigger] composited_pixel(
                original.rgba@,
                spec_argb_bytes(canvas@),
                r@,
                p,
            ),
{
    proof {
        let w = original.width as int;
        let h = original.height as int;
        assert(1 * 1 <= w * h <= 16384 * 16384 && 4 * (w * h) == 4 * w * h) by (nonlinear_arith)
            requires
                1 <= w <= 16384,
                1 <= h <= 16384,
        ;
    }
    let bytes = argb_to_rgba(canvas);
    proof {
        assert forall|j: int| 0 <= j < bytes@.len() implies bytes@[j] == spec_argb_bytes(canvas@)[j] by {
            let p = j / 4;
            assert(bytes@[4 * p] == argb_red(canvas@[p]));
            assert(bytes@[4 * p + 1] == argb_green(canvas@[p]));
            assert(bytes@[4 * p + 2] == argb_blue(canvas@[p]));
            assert(bytes@[4 * p + 3] == argb_alpha(canvas@[p]));
        }
        assert(bytes@ =~= spec_argb_bytes(canvas@));
    }
    composite(&original.rgba, &bytes)
}

/// The RGBA byte expansion of a packed ARGB canvas.
pub open spec fn spec_argb_bytes(canvas: Seq<u32>) -> Seq<u8> {
    Seq::new(
        (4 * canvas.len()) as nat,
        |i: int|
            {
                let p = canvas[i / 4];
                if i % 4 == 0 {
                    argb_red(p)
                } else if i % 4 == 1 {
                    argb_green(p)
                } else if i % 4 == 2 {
                    argb_blue(p)
                } else {
                    argb_alpha(p)
                }
            },
    )
}

} // verus!
