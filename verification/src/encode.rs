//! Turning a depth map into an 8-bit grayscale PNG.
//!
//! The inference engine hands back one depth value per canvas pixel.  The
//! encoder stretches the value range onto [0, 255] and serializes the raster
//! as a PNG.  Depth values arrive as fixed-point integers: the unverified
//! shell scales the engine's floating-point output by a constant factor
//! before calling in, which keeps the rescaling arithmetic exact here.

use crate::bridge::BridgeError;
use vstd::arithmetic::div_mod::{lemma_div_is_ordered, lemma_div_multiples_vanish};
use vstd::arithmetic::mul::lemma_mul_inequality;
use vstd::prelude::*;

verus! {

/// Least value in `s`; 0 for an empty sequence (never consulted then).
pub open spec fn seq_min(s: Seq<i64>) -> int
    decreases s.len(),
{
    if s.len() == 0 {
        0
    } else if s.len() == 1 {
        s[0] as int
    } else {
        let rest = seq_min(s.drop_last());
        if s.last() as int <= rest {
            s.last() as int
        } else {
            rest
        }
    }
}

/// Greatest value in `s`; 0 for an empty sequence (never consulted then).
pub open spec fn seq_max(s: Seq<i64>) -> int
    decreases s.len(),
{
    if s.len() == 0 {
        0
    } else if s.len() == 1 {
        s[0] as int
    } else {
        let rest = seq_max(s.drop_last());
        if s.last() as int >= rest {
            s.last() as int
        } else {
            rest
        }
    }
}

/// Every element lies between the least and the greatest.
pub proof fn lemma_seq_min_max_bounds(s: Seq<i64>, i: int)
    requires
        0 <= i < s.len(),
    ensures
        seq_min(s) <= s[i] <= seq_max(s),
    decreases s.len(),
{
    if i < s.len() - 1 {
        lemma_seq_min_max_bounds(s.drop_last(), i);
    }
}

/// The 8-bit value a depth element rescales to: the range stretched onto
/// [0, 255], truncated; mid-gray when the range is degenerate, so the
/// degenerate case never divides.
pub open spec fn rescaled(v: int, min: int, max: int) -> int {
    if max > min {
        (v - min) * 255 / (max - min)
    } else {
        127
    }
}

/// The byte owed at raster position `i`: the rescaled depth element where
/// one exists, zero for canvas pixels past the end of the depth map.
pub open spec fn gray_pixel(depth: Seq<i64>, i: int) -> u8 {
    if 0 <= i < depth.len() {
        rescaled(depth[i] as int, seq_min(depth), seq_max(depth)) as u8
    } else {
        0u8
    }
}

/// The whole grayscale raster of `pixel_count` bytes.
pub open spec fn grayscale_of(depth: Seq<i64>, pixel_count: int) -> Seq<u8> {
    Seq::new(pixel_count as nat, |i: int| gray_pixel(depth, i))
}

/// Result Encoder invariant: with a non-degenerate range every rescaled
/// value lies in [0, 255]; with a degenerate one the guard yields 127.
pub proof fn lemma_rescaled_in_range(v: int, min: int, max: int)
    requires
        min <= v <= max,
    ensures
        0 <= rescaled(v, min, max) <= 255,
{
    if max > min {
        let d = v - min;
        let range = max - min;
        lemma_mul_inequality(d, range, 255);
        lemma_div_is_ordered(d * 255, range * 255, range);
        lemma_div_multiples_vanish(255, range);
        assert(range * 255 == 255 * range);
        lemma_div_multiples_vanish(0, range);
        assert(range * 0 == 0);
        lemma_div_is_ordered(0, d * 255, range);
    }
}

/// Least and greatest element of a non-empty depth map, in one pass.
fn min_max(depth: &Vec<i64>) -> (mm: (i64, i64))
    requires
        depth.len() >= 1,
    ensures
        mm.0 as int == seq_min(depth@),
        mm.1 as int == seq_max(depth@),
{
    let mut mn: i64 = depth[0];
    let mut mx: i64 = depth[0];
    let mut i: usize = 1;
    while i < depth.len()
        invariant
            1 <= i <= depth.len(),
            mn as int == seq_min(depth@.take(i as int)),
            mx as int == seq_max(depth@.take(i as int)),
        decreases depth.len() - i,
    {
        proof {
            assert(depth@.take(i + 1 as int).drop_last() =~= depth@.take(i as int));
            assert(depth@.take(i + 1 as int).last() == depth@[i as int]);
        }
        let v = depth[i];
        if v < mn {
            mn = v;
        }
        if v > mx {
            mx = v;
        }
        i = i + 1;
    }
    proof {
        assert(depth@.take(depth.len() as int) =~= depth@);
    }
    (mn, mx)
}

/// Rescales the depth map onto a `width * height` grayscale raster: one
/// byte per depth element, zero for raster positions past the end of the
/// depth map.
pub fn rescale_to_gray(depth: &Vec<i64>, width: usize, height: usize) -> (pixels: Vec<u8>)
    requires
        1 <= width,
        1 <= height,
        depth.len() <= width * height,
        width * height <= u32::MAX,
    ensures
        pixels@ == grayscale_of(depth@, (width * height) as int),
        pixels.len() == width * height,
{
    let total: usize = width * height;
    let mut pixels: Vec<u8> = Vec::new();
    if depth.len() == 0 {
        let mut i: usize = 0;
        while i < total
            invariant
                i <= total,
                pixels.len() == i,
                depth.len() == 0,
                forall|j: int| 0 <= j < i ==> pixels@[j] == gray_pixel(depth@, j),
            decreases total - i,
        {
            pixels.push(0u8);
            i = i + 1;
        }
    } else {
        let (mn, mx) = min_max(depth);
        let mut i: usize = 0;
        while i < total
            invariant
                i <= total,
                pixels.len() == i,
                1 <= depth.len() <= total,
                mn as int == seq_min(depth@),
                mx as int == seq_max(depth@),
                forall|j: int| 0 <= j < i ==> pixels@[j] == gray_pixel(depth@, j),
            decreases total - i,
        {
            if i < depth.len() {
                let v = depth[i];
                proof {
                    lemma_seq_min_max_bounds(depth@, i as int);
                }
                if mx > mn {
                    let d: u128 = (v as i128 - mn as i128) as u128;
                    let range: u128 = (mx as i128 - mn as i128) as u128;
                    let scaled: u128 = d * 255 / range;
                    proof {
                        lemma_rescaled_in_range(v as int, mn as int, mx as int);
                        assert(scaled == rescaled(v as int, mn as int, mx as int));
                    }
                    pixels.push(scaled as u8);
                } else {
                    pixels.push(127u8);
                }
            } else {
                pixels.push(0u8);
            }
            i = i + 1;
        }
    }
    proof {
        assert(pixels@ =~= grayscale_of(depth@, (width * height) as int));
    }
    pixels
}

/// A name for what the PNG encoder of the `image` crate produces from a
/// given grayscale raster: the byte stream depends on the raster and its
/// dimensions alone.
pub uninterp spec fn png_bytes(pixels: Seq<u8>, width: int, height: int) -> Seq<u8>;

/// The eight fixed bytes that open every PNG stream.
pub open spec fn png_signature() -> Seq<u8> {
    seq![137u8, 80u8, 78u8, 71u8, 13u8, 10u8, 26u8, 10u8]
}

/// Relies on `image::GrayImage::from_raw` and `ImageBuffer::write_to` with
/// `ImageFormat::Png`: `from_raw` accepts a buffer of exactly
/// `width * height` bytes, and the PNG encoder writes a byte stream that is
/// a function of the raster and its dimensions alone.  Writing goes to an
/// in-memory vector, which cannot fail, and the encoder rejects only zero
/// dimensions, so a stream is owed whenever both dimensions are positive;
/// every stream opens with the fixed PNG signature and continues past it.
#[verifier::external_body]
fn png_encode(pixels: &Vec<u8>, width: u32, height: u32) -> (r: Option<Vec<u8>>)
    requires
        pixels.len() == width * height,
    ensures
        1 <= width && 1 <= height ==> r is Some,
        r matches Some(png) ==> png@ == png_bytes(pixels@, width as int, height as int)
            && png@.len() > 8 && png@.subrange(0, 8) == png_signature(),
{
    let img = match image::GrayImage::from_raw(width, height, pixels.clone()) {
        Some(img) => img,
        None => return None,
    };
    let mut buffer: Vec<u8> = Vec::new();
    match img.write_to(&mut std::io::Cursor::new(&mut buffer), image::ImageFormat::Png) {
        Ok(()) => Some(buffer),
        Err(_) => None,
    }
}

/// Rescales the depth map and serializes the raster as a PNG.  Success is
/// owed on every allowed input: the bytes are exactly the PNG encoding of
/// the rescaled raster, open with the PNG signature, and run past it — so
/// no result can be mistaken for a failure sentinel.  The error arm is kept
/// only as a defensive shape for the shell.
pub fn encode_depth_image(depth: &Vec<i64>, width: usize, height: usize) -> (r: Result<
    Vec<u8>,
    BridgeError,
>)
    requires
        1 <= width,
        1 <= height,
        depth.len() <= width * height,
        width * height <= u32::MAX,
    ensures
        r is Ok,
        r matches Ok(png) ==> png@ == png_bytes(
            grayscale_of(depth@, (width * height) as int),
            width as int,
            height as int,
        ) && png@.len() > 8 && png@.subrange(0, 8) == png_signature(),
{
    let pixels = rescale_to_gray(depth, width, height);
    proof {
        assert(width <= u32::MAX && height <= u32::MAX) by (nonlinear_arith)
            requires
                1 <= width,
                1 <= height,
                width * height <= u32::MAX,
        ;
    }
    match png_encode(&pixels, width as u32, height as u32) {
        Some(png) => Ok(png),
        None => Err(BridgeError::EncodeFailed),
    }
}

} // verus!
