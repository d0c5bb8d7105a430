//! Thumbnails: the deterministic placeholder image and its JPEG encoding.
//!
//! Thumbnail generation falls back to a deterministically generated
//! placeholder rather than failing: a derived-asset failure is soft and
//! must never block serving an asset. The placeholder is a fixed-size
//! gradient pattern, synthesized pixel by pixel here and encoded as JPEG
//! by the `image` crate.

use vstd::prelude::*;

verus! {

/// Width of a generated thumbnail, in pixels.
pub const THUMB_WIDTH: u32 = 320;

/// Height of a generated thumbnail, in pixels.
pub const THUMB_HEIGHT: u32 = 180;

/// One byte of the placeholder pattern. The pattern is row-major RGB:
/// byte `p` is channel `p % 3` of pixel `p / 3`, and the pixel at
/// `(x, y)` ramps with `(x + y) % 50`, its green and blue channels
/// offset and saturated.
pub open spec fn spec_channel_at(p: int, width: int) -> u8 {
    let q = p / 3;
    let c = p % 3;
    let x = q % width;
    let y = q / width;
    let base = (x + y) % 50;
    let inten = base * 5;
    if c == 0 {
        inten as u8
    } else if c == 1 {
        (if inten + 20 > 255 {
            255
        } else {
            inten + 20
        }) as u8
    } else {
        (if inten + 40 > 255 {
            255
        } else {
            inten + 40
        }) as u8
    }
}

/// The raw RGB bytes of the placeholder image.
pub open spec fn spec_placeholder_pixels(width: int, height: int) -> Seq<u8> {
    Seq::new((width * height * 3) as nat, |p: int| spec_channel_at(p, width))
}

/// Executable form of `spec_channel_at`.
fn channel_at(p: usize, width: u32) -> (r: u8)
    requires
        width >= 1,
        p <= 0xffff_ffff,
    ensures
        r == spec_channel_at(p as int, width as int),
{
    let q: usize = p / 3;
    let c: usize = p % 3;
    let x: usize = q % (width as usize);
    let y: usize = q / (width as usize);
    proof {
        vstd::arithmetic::div_mod::lemma_div_nonincreasing(p as int, 3);
        vstd::arithmetic::div_mod::lemma_div_nonincreasing(q as int, width as int);
    }
    let base: usize = ((x as u64 + y as u64) % 50) as usize;
    let inten: usize = base * 5;
    if c == 0 {
        inten as u8
    } else if c == 1 {
        (if inten + 20 > 255 {
            255
        } else {
            inten + 20
        }) as u8
    } else {
        (if inten + 40 > 255 {
            255
        } else {
            inten + 40
        }) as u8
    }
}

/// Synthesize the raw RGB bytes of the placeholder image.
pub fn placeholder_pixels(width: u32, height: u32) -> (r: Vec<u8>)
    requires
        1 <= width,
        1 <= height,
        width * height * 3 <= 0xffff_ffff,
    ensures
        r@ == spec_placeholder_pixels(width as int, height as int),
{
    let total: usize = (width as usize) * (height as usize) * 3;
    let mut out: Vec<u8> = Vec::new();
    let mut p: usize = 0;
    while p < total
        invariant
            width >= 1,
            total == width * height * 3,
            total <= 0xffff_ffff,
            p <= total,
            out@.len() == p,
            forall|j: int|
                0 <= j < p ==> #[trigger] out@[j] == spec_channel_at(j, width as int),
        decreases total - p,
    {
        out.push(channel_at(p, width));
        p = p + 1;
    }
    proof {
        assert(out@ =~= spec_placeholder_pixels(width as int, height as int));
    }
    out
}

/// The JPEG encoding of an RGB image: a pure function of the dimensions
/// and pixel bytes, computed by the `image` crate's encoder.
pub uninterp spec fn jpeg_of(width: u32, height: u32, rgb: Seq<u8>) -> Seq<u8>;

/// Relies on `image::ImageBuffer::from_raw` and `write_to` with the JPEG
/// format: for an RGB8 buffer of exactly `width * height * 3` bytes with
/// both dimensions in `1..=65535`, encoding into an in-memory cursor
/// succeeds, writes at least the JPEG start-of-image marker, and its
/// output depends only on the dimensions and pixel bytes.
#[verifier::external_body]
fn encode_jpeg_rgb(width: u32, height: u32, rgb: &Vec<u8>) -> (r: Vec<u8>)
    requires
        1 <= width <= 0xffff,
        1 <= height <= 0xffff,
        rgb@.len() == width * height * 3,
    ensures
        r@ == jpeg_of(width, height, rgb@),
        r@.len() > 0,
{
    let img: image::ImageBuffer<image::Rgb<u8>, Vec<u8>> =
        image::ImageBuffer::from_raw(width, height, rgb.clone()).unwrap();
    let mut cursor = std::io::Cursor::new(Vec::new());
    img.write_to(&mut cursor, image::ImageFormat::Jpeg).unwrap();
    cursor.into_inner()
}

/// What every thumbnail fallback serves: the placeholder pattern at the
/// fixed thumbnail size, JPEG-encoded.
pub open spec fn spec_placeholder_jpeg() -> Seq<u8> {
    jpeg_of(320, 180, spec_placeholder_pixels(320, 180))
}

/// Generate the placeholder thumbnail: a deterministic, non-empty JPEG.
pub fn generate_placeholder_thumbnail() -> (r: Vec<u8>)
    ensures
        r@ == spec_placeholder_jpeg(),
        r@.len() > 0,
{
    let pixels = placeholder_pixels(THUMB_WIDTH, THUMB_HEIGHT);
    encode_jpeg_rgb(THUMB_WIDTH, THUMB_HEIGHT, &pixels)
}

} // verus!
