//! Padding and centering an RGB image onto the fixed model canvas.
//!
//! The model expects one 518 x 518 RGB frame.  A smaller source image is
//! copied into the middle of a zero-filled canvas, channel bytes interleaved
//! exactly as in the source buffer.  Normalization of each byte to the unit
//! range (dividing by 255) happens in the unverified shell right before the
//! tensor is handed to the inference engine; every canvas byte lies in
//! [0, 255], so every normalized element lies in [0, 1].

use vstd::prelude::*;

verus! {

/// Width and height of the model's input canvas.
pub const TARGET_DIM: usize = 518;

/// Total byte count of the canvas: three channels per canvas pixel.
pub const CANVAS_LEN: usize = 518 * 518 * 3;

/// Offset that centers a source row or column range inside the canvas.
pub open spec fn start_offset(dim: int) -> int {
    (518 - dim) / 2
}

/// Flat index of channel `c` of source pixel (`x`, `y`) in the source buffer.
pub open spec fn source_index(x: int, y: int, c: int, width: int) -> int {
    (y * width + x) * 3 + c
}

/// Flat index in the canvas where channel `c` of source pixel (`x`, `y`)
/// lands once the image is centered.
pub open spec fn canvas_index(x: int, y: int, c: int, width: int, height: int) -> int {
    ((start_offset(height) + y) * 518 + (start_offset(width) + x)) * 3 + c
}

/// Whether flat canvas index `i` falls inside the centered copy of a
/// `width` x `height` source image.
pub open spec fn in_centered_region(i: int, width: int, height: int) -> bool {
    let row = (i / 3) / 518;
    let col = (i / 3) % 518;
    &&& start_offset(height) <= row < start_offset(height) + height
    &&& start_offset(width) <= col < start_offset(width) + width
}

/// The byte that belongs at flat canvas index `i`: the matching source byte
/// inside the centered region, zero outside it.
pub open spec fn canvas_byte(image: Seq<u8>, width: int, height: int, i: int) -> u8 {
    if in_centered_region(i, width, height) {
        let row = (i / 3) / 518;
        let col = (i / 3) % 518;
        image[source_index(col - start_offset(width), row - start_offset(height), i % 3, width)]
    } else {
        0u8
    }
}

/// The whole canvas, as a sequence of `CANVAS_LEN` bytes.
pub open spec fn padded_canvas(image: Seq<u8>, width: int, height: int) -> Seq<u8> {
    Seq::new((518 * 518 * 3) as nat, |i: int| canvas_byte(image, width, height, i))
}

/// Builds the zero-filled canvas with the source image centered in it.
/// The canvas holds exactly 518 * 518 * 3 bytes, one per element of the
/// 1 x 3 x 518 x 518 input tensor built from it.
pub fn pad_and_center(image: &Vec<u8>, width: usize, height: usize) -> (canvas: Vec<u8>)
    requires
        1 <= width <= 518,
        1 <= height <= 518,
        width * height * 3 <= image.len(),
    ensures
        canvas@ == padded_canvas(image@, width as int, height as int),
        canvas.len() == 518 * 518 * 3,
{
    let start_x: usize = (518 - width) / 2;
    let start_y: usize = (518 - height) / 2;
    let mut canvas: Vec<u8> = Vec::new();
    let mut i: usize = 0;
    while i < 518 * 518 * 3
        invariant
            i <= 518 * 518 * 3,
            canvas.len() == i,
            1 <= width <= 518,
            1 <= height <= 518,
            width * height * 3 <= image.len(),
            start_x == start_offset(width as int),
            start_y == start_offset(height as int),
            forall|j: int|
                0 <= j < i ==> canvas@[j] == canvas_byte(
                    image@,
                    width as int,
                    height as int,
                    j,
                ),
        decreases 518 * 518 * 3 - i,
    {
        let p: usize = i / 3;
        let c: usize = i % 3;
        let row: usize = p / 518;
        let col: usize = p % 518;
        let b: u8;
        if start_y <= row && row < start_y + height && start_x <= col && col < start_x + width {
            let y: usize = row - start_y;
            let x: usize = col - start_x;
            proof {
                assert((y * width + x) * 3 + c < width * height * 3) by (nonlinear_arith)
                    requires
                        0 <= x < width,
                        0 <= y < height,
                        0 <= c < 3,
                ;
            }
            let src: usize = (y * width + x) * 3 + c;
            b = image[src];
        } else {
            b = 0;
        }
        canvas.push(b);
        i = i + 1;
    }
    proof {
        assert(canvas@ =~= padded_canvas(image@, width as int, height as int));
    }
    canvas
}

/// Centering invariant: every canvas byte outside the centered region is
/// exactly zero.
pub proof fn lemma_centering_zeroes(image: Seq<u8>, width: int, height: int)
    ensures
        forall|i: int|
            0 <= i < 518 * 518 * 3 && !in_centered_region(i, width, height)
                ==> #[trigger] padded_canvas(image, width, height)[i] == 0,
{
}

/// Copy invariant: inside the centered region the canvas repeats the source
/// image byte for byte, channel order preserved.
pub proof fn lemma_canvas_copies_source(
    image: Seq<u8>,
    width: int,
    height: int,
    x: int,
    y: int,
    c: int,
)
    requires
        1 <= width <= 518,
        1 <= height <= 518,
        width * height * 3 <= image.len(),
        0 <= x < width,
        0 <= y < height,
        0 <= c < 3,
    ensures
        0 <= canvas_index(x, y, c, width, height) < 518 * 518 * 3,
        in_centered_region(canvas_index(x, y, c, width, height), width, height),
        padded_canvas(image, width, height)[canvas_index(x, y, c, width, height)] == image[
            source_index(x, y, c, width)
        ],
{
    let sx = start_offset(width);
    let sy = start_offset(height);
    let q = (sy + y) * 518 + (sx + x);
    let idx = q * 3 + c;
    assert(0 <= sx && sx + width <= 518);
    assert(0 <= sy && sy + height <= 518);
    assert(idx / 3 == q && idx % 3 == c);
    assert(q / 518 == sy + y && q % 518 == sx + x);
}

/// Normalization invariant, stated over the integer bytes: every canvas byte
/// lies in [0, 255], so dividing by 255 sends every tensor element into the
/// unit interval.
pub proof fn lemma_canvas_bytes_bounded(image: Seq<u8>, width: int, height: int)
    ensures
        forall|i: int|
            0 <= i < 518 * 518 * 3 ==> 0 <= #[trigger] padded_canvas(image, width, height)[i] <= 255,
{
}

} // verus!
