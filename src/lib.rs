//! Decision core of a primary-ray renderer.
//!
//! Floating-point geometry and colour arithmetic happen outside this crate.
//! What reaches it are plain values: each hit distance as the IEEE-754 bit
//! pattern of a `f64`, each object colour already quantised to RGBA8. From
//! those the crate picks the nearest object for every pixel, rejects faulty
//! distances, and assembles the output image.

mod image_io;

pub mod hit;
pub mod frame;
