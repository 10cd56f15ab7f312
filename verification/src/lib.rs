//! Verified core of a depth-estimation inference bridge.
//!
//! The bridge accepts a flat RGB byte buffer and a serialized model, prepares
//! the image for a fixed-shape model input, and turns the model's depth map
//! into a grayscale PNG.  The pieces that are pure data manipulation live
//! here, each with a proved contract: recovering image geometry from a pixel
//! count, padding and centering the image onto the fixed canvas, rescaling a
//! depth map to 8-bit gray, and choosing the sentinel bytes that stand for
//! each failure tier at the foreign boundary.

pub mod bridge;
pub mod encode;
pub mod geometry;
pub mod preprocess;
