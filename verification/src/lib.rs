//! Verified core of a Mandelbrot zoom renderer.
//!
//! The library owns the discrete side of the renderer: the RGB pixel
//! buffer with its row-major layout, the photometric inversion pass,
//! and the frame schedule of the zoom sequence (frame order and
//! zero-padded frame labels). The floating-point escape-time and
//! color computations live outside the library and hand it plain
//! per-pixel colors.

pub mod buffer;
pub mod frames;
