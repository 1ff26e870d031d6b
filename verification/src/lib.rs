//! A software rasterizer for a rotating torus on a character display.
//!
//! Each frame samples the torus surface over two angular parameters, rotates
//! the samples by the caller's two animation angles, projects them onto an
//! integer character grid with perspective, resolves overlaps with a depth
//! test, and shades each visible cell with one glyph from a fixed ramp.
//!
//! All arithmetic is fixed-point: a trigonometric value `v` in `[-1, 1]` is
//! carried as the integer `round(v * SCALE)`. The caller supplies the
//! cosine/sine tables for the two sweep parameters and the pair for each
//! rotation angle; everything after that point is exact integer arithmetic.

pub mod trig;
pub mod geometry;
pub mod frame;
pub mod render;
pub mod laws;
