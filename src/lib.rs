//! Pixel-output primitives for a small renderer: a canvas of pixels, the
//! clamped integer channels that a color is shown as, the plain-text PPM
//! image format that a canvas serializes to, the kind of a homogeneous
//! tuple, and square matrices compared entry by entry.
pub mod canvas;
pub mod matrix;
pub mod ppm;
pub mod text;
pub mod tuples;
