use depth_bridge::bridge::{add, failure_sentinel, greet, square, FailureTier};
use depth_bridge::encode::{encode_depth_image, rescale_to_gray};
use depth_bridge::geometry::find_image_dimensions;
use depth_bridge::preprocess::{pad_and_center, CANVAS_LEN, TARGET_DIM};

const TARGET: usize = TARGET_DIM;

#[test]
fn resolver_canonical_resolutions() {
    assert_eq!(find_image_dimensions(512 * 512), (512, 512));
    assert_eq!(find_image_dimensions(640 * 480), (640, 480));
    assert_eq!(find_image_dimensions(800 * 600), (800, 600));
    assert_eq!(find_image_dimensions(1024 * 768), (1024, 768));
    assert_eq!(find_image_dimensions(1920 * 1080), (1920, 1080));
}

#[test]
fn resolver_fallback_square_root_split() {
    // round(sqrt(100000)) = 316 and 100000 / 316 = 316.
    assert_eq!(find_image_dimensions(100000), (316, 316));
}

#[test]
fn resolver_fallback_small_counts() {
    assert_eq!(find_image_dimensions(1), (1, 1));
    // round(sqrt(2)) = 1, so the split is 1 x 2.
    assert_eq!(find_image_dimensions(2), (1, 2));
    // round(sqrt(10)) = 3 and 10 / 3 = 3: one trailing pixel is dropped.
    assert_eq!(find_image_dimensions(10), (3, 3));
    // round(sqrt(99)) = 10 (9.95 rounds up), 99 / 10 = 9.
    assert_eq!(find_image_dimensions(99), (10, 9));
}

#[test]
fn canvas_has_fixed_element_count() {
    let image = vec![9u8; 3];
    let canvas = pad_and_center(&image, 1, 1);
    // 1 x 3 x 518 x 518 elements once reshaped into the input tensor.
    assert_eq!(canvas.len(), CANVAS_LEN);
    assert_eq!(canvas.len(), 1 * 3 * TARGET * TARGET);
}

#[test]
fn canvas_centers_source_bytes() {
    let image: Vec<u8> = (1..=12u8).collect();
    let canvas = pad_and_center(&image, 2, 2);
    let start = (TARGET - 2) / 2;
    for y in 0..2 {
        for x in 0..2 {
            for c in 0..3 {
                let src = (y * 2 + x) * 3 + c;
                let dst = ((start + y) * TARGET + (start + x)) * 3 + c;
                assert_eq!(canvas[dst], image[src]);
            }
        }
    }
}

#[test]
fn canvas_zero_outside_centered_region() {
    let image = vec![255u8; 4 * 5 * 3];
    let canvas = pad_and_center(&image, 4, 5);
    let start_x = (TARGET - 4) / 2;
    let start_y = (TARGET - 5) / 2;
    let mut nonzero = 0usize;
    for (i, &b) in canvas.iter().enumerate() {
        let pixel = i / 3;
        let row = pixel / TARGET;
        let col = pixel % TARGET;
        let inside = row >= start_y && row < start_y + 5 && col >= start_x && col < start_x + 4;
        if inside {
            assert_eq!(b, 255);
            nonzero += 1;
        } else {
            assert_eq!(b, 0);
        }
    }
    assert_eq!(nonzero, 4 * 5 * 3);
}

#[test]
fn normalization_stays_in_unit_range() {
    // The shell divides each canvas byte by 255.0 to build the tensor:
    // every possible byte lands inside [0.0, 1.0].
    for b in 0..=255u8 {
        let v = b as f32 / 255.0;
        assert!((0.0..=1.0).contains(&v));
    }
    let image: Vec<u8> = (0..60u8).map(|b| b.wrapping_mul(37)).collect();
    let canvas = pad_and_center(&image, 4, 5);
    for &b in &canvas {
        let v = b as f32 / 255.0;
        assert!(!v.is_nan());
        assert!((0.0..=1.0).contains(&v));
    }
}

#[test]
fn rescale_formula_is_exact() {
    let depth: Vec<i64> = vec![0, 50, 100];
    let pixels = rescale_to_gray(&depth, 3, 1);
    assert_eq!(pixels, vec![0, 127, 255]);
}

#[test]
fn rescale_endpoints_and_padding() {
    let depth: Vec<i64> = vec![-40, 10, 60];
    let pixels = rescale_to_gray(&depth, 2, 3);
    // min maps to 0, max to 255, the midpoint to 127; unused raster
    // positions stay 0.
    assert_eq!(pixels, vec![0, 127, 255, 0, 0, 0]);
}

#[test]
fn rescale_constant_depth_is_mid_gray() {
    let depth: Vec<i64> = vec![5, 5, 5, 5];
    let pixels = rescale_to_gray(&depth, 2, 2);
    assert_eq!(pixels, vec![127, 127, 127, 127]);
}

#[test]
fn encoded_constant_depth_decodes_defined() {
    let depth: Vec<i64> = vec![8; 16];
    let png = encode_depth_image(&depth, 4, 4).unwrap();
    let decoded = image::load_from_memory(&png).unwrap().to_luma8();
    assert_eq!(decoded.dimensions(), (4, 4));
    for y in 0..4 {
        for x in 0..4 {
            assert_eq!(decoded.get_pixel(x, y).0[0], 127);
        }
    }
}

#[test]
fn encoded_gradient_decodes_with_row_major_layout() {
    let depth: Vec<i64> = (0..(TARGET * TARGET) as i64).collect();
    let png = encode_depth_image(&depth, TARGET, TARGET).unwrap();
    let decoded = image::load_from_memory(&png).unwrap().to_luma8();
    assert_eq!(decoded.dimensions(), (TARGET as u32, TARGET as u32));
    // The flattened index i sits at (i % width, i / width).
    assert_eq!(decoded.get_pixel(0, 0).0[0], 0);
    assert_eq!(decoded.get_pixel(517, 517).0[0], 255);
    let i = 123 * TARGET + 77;
    let expected = ((i as i64) * 255 / (TARGET * TARGET - 1) as i64) as u8;
    assert_eq!(decoded.get_pixel(77, 123).0[0], expected);
}

#[test]
fn round_trip_all_127_buffer() {
    // The computational half of the round trip that needs no inference
    // engine: a 512 x 512 x 3 all-127 buffer is resolved, centered, and a
    // constant depth map of canvas size encodes as a valid canvas-sized
    // image.
    let image = vec![127u8; 512 * 512 * 3];
    let (w, h) = find_image_dimensions(image.len() / 3);
    assert_eq!((w, h), (512, 512));
    let canvas = pad_and_center(&image, w, h);
    let start = (TARGET - 512) / 2;
    assert_eq!(canvas[((start * TARGET) + start) * 3], 127);
    assert_eq!(canvas[0], 0);
    let depth = vec![42i64; TARGET * TARGET];
    let png = encode_depth_image(&depth, TARGET, TARGET).unwrap();
    let decoded = image::load_from_memory(&png).unwrap().to_luma8();
    assert_eq!(decoded.dimensions(), (TARGET as u32, TARGET as u32));
}

#[test]
fn sentinel_payloads_per_tier() {
    assert_eq!(failure_sentinel(FailureTier::Marshal), vec![0u8, 0, 0]);
    assert_eq!(failure_sentinel(FailureTier::Pipeline), vec![0u8, 2]);
    assert_eq!(failure_sentinel(FailureTier::Fault), vec![0u8, 0, 1]);
}

#[test]
fn sentinel_payloads_are_distinct() {
    let marshal = failure_sentinel(FailureTier::Marshal);
    let pipeline = failure_sentinel(FailureTier::Pipeline);
    let fault = failure_sentinel(FailureTier::Fault);
    assert_ne!(marshal, pipeline);
    assert_ne!(marshal, fault);
    assert_ne!(pipeline, fault);
}

#[test]
fn encoded_image_distinguishable_from_sentinels() {
    let depth: Vec<i64> = vec![1, 2, 3, 4];
    let png = encode_depth_image(&depth, 2, 2).unwrap();
    let signature: [u8; 8] = [137, 80, 78, 71, 13, 10, 26, 10];
    assert!(png.len() > 8);
    assert_eq!(&png[..8], &signature);
    assert_ne!(png, failure_sentinel(FailureTier::Marshal));
    assert_ne!(png, failure_sentinel(FailureTier::Pipeline));
    assert_ne!(png, failure_sentinel(FailureTier::Fault));
}

#[test]
fn greet_builds_greeting() {
    let g = greet("World");
    assert_eq!(g.as_str(), "Hello World!");
    assert_eq!(greet("").as_str(), "Hello !");
}

#[test]
fn square_and_add() {
    assert_eq!(square(12), 144);
    assert_eq!(square(-5), 25);
    assert_eq!(square(0), 0);
    assert_eq!(add(2, 3), 5);
    assert_eq!(add(-7, 7), 0);
}
