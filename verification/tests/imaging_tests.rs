use meme_guard::imaging::Bitmap;
use meme_guard::imaging::load_message_bitmap;
use meme_guard::imaging::model_input;
use meme_guard::imaging::overlay_canvas;
use meme_guard::pixels::MODEL_PIXELS;
use meme_guard::pixels::argb_to_rgba;
use meme_guard::pixels::composite;
use meme_guard::pixels::to_planar;

fn png_bytes(width: u32, height: u32, rgba: Vec<u8>) -> Vec<u8> {
    let img = image::RgbaImage::from_raw(width, height, rgba).unwrap();
    let mut out: Vec<u8> = Vec::new();
    img.write_to(&mut std::io::Cursor::new(&mut out), image::ImageFormat::Png).unwrap();
    out
}

// A PNG round-trips through decoding: dimensions and every pixel byte
// come back as encoded.
#[test]
fn decodes_png_pixels() {
    let rgba = vec![255, 0, 0, 255, 0, 255, 0, 255];
    let bytes = png_bytes(2, 1, rgba.clone());
    let bitmap = load_message_bitmap(&bytes).unwrap();
    assert_eq!(bitmap.width, 2);
    assert_eq!(bitmap.height, 1);
    assert_eq!(bitmap.rgba, rgba);
}

// A GIF is recognised by its magic bytes and its first frame is decoded.
#[test]
fn decodes_first_gif_frame() {
    let rgba = [255u8, 0, 0, 255];
    let mut bytes: Vec<u8> = Vec::new();
    {
        let mut enc = image::codecs::gif::GifEncoder::new(&mut bytes);
        enc.encode(&rgba, 1, 1, image::ExtendedColorType::Rgba8).unwrap();
    }
    let bitmap = load_message_bitmap(&bytes).unwrap();
    assert_eq!(bitmap.width, 1);
    assert_eq!(bitmap.height, 1);
    assert_eq!(bitmap.rgba, rgba.to_vec());
}

// Bytes that no decoder accepts yield nothing.
#[test]
fn rejects_undecodable_bytes() {
    assert!(load_message_bitmap(&vec![1, 2, 3, 4, 5]).is_none());
    assert!(load_message_bitmap(&Vec::new()).is_none());
}

// The model input is three full 640 x 640 planes, so a 1 x 1 source is
// genuinely resampled, not passed through.
#[test]
fn model_input_has_three_planes() {
    let bitmap = Bitmap { width: 1, height: 1, rgba: vec![200, 100, 50, 255] };
    let planes = model_input(&bitmap);
    assert_eq!(planes.len(), 3 * MODEL_PIXELS);
    // A constant source resamples to a constant canvas.
    assert_eq!(planes[0], 200);
    assert_eq!(planes[MODEL_PIXELS], 100);
    assert_eq!(planes[2 * MODEL_PIXELS], 50);
}

// Channel planes read the interleaved buffer in R, G, B order.
#[test]
fn planar_layout_is_channel_major() {
    let mut rgba = vec![0u8; 4 * MODEL_PIXELS];
    rgba[0] = 11;
    rgba[1] = 22;
    rgba[2] = 33;
    rgba[3] = 44;
    rgba[4 * 9999] = 55;
    rgba[4 * 9999 + 2] = 66;
    let planes = to_planar(&rgba);
    assert_eq!(planes.len(), 3 * MODEL_PIXELS);
    assert_eq!(planes[0], 11);
    assert_eq!(planes[MODEL_PIXELS], 22);
    assert_eq!(planes[2 * MODEL_PIXELS], 33);
    assert_eq!(planes[9999], 55);
    assert_eq!(planes[2 * MODEL_PIXELS + 9999], 66);
}

// Packed ARGB words unpack to RGBA bytes.
#[test]
fn argb_words_unpack() {
    let out = argb_to_rgba(&vec![0x11223344, 0xFF000080]);
    assert_eq!(out, vec![0x22, 0x33, 0x44, 0x11, 0x00, 0x00, 0x80, 0xFF]);
}

// Compositing: a transparent overlay pixel keeps the original bytes with
// alpha forced to 255; any drawn alpha replaces the pixel outright.
#[test]
fn composite_picks_overlay_or_original() {
    let original = vec![10, 20, 30, 40, 50, 60, 70, 80];
    let overlay = vec![0, 0, 0, 0, 200, 210, 220, 1];
    let out = composite(&original, &overlay);
    assert_eq!(out, vec![10, 20, 30, 255, 200, 210, 220, 1]);
}

// The same through the canvas path: pixels outside any stroke stay
// bit-identical but for alpha.
#[test]
fn overlay_canvas_matches_composite() {
    let bitmap = Bitmap { width: 2, height: 1, rgba: vec![10, 20, 30, 40, 50, 60, 70, 80] };
    let canvas = vec![0x00000000u32, 0xFF0000FFu32];
    let out = overlay_canvas(&bitmap, &canvas);
    assert_eq!(out, vec![10, 20, 30, 255, 0, 0, 255, 255]);
}
