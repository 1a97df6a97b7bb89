//! A verified core for a grayscale Mandelbrot-set renderer.
//!
//! The library holds what can be stated and proved over integers and
//! strings: pair parsing of command-line values, the pixel grid with its
//! row-major indexing and shading, the partition of the output buffer
//! into disjoint horizontal bands for lock-free parallel rendering, and a
//! greatest-common-divisor kernel. The floating-point iteration, the
//! worker threads and the image file belong to the program built on top.

pub mod euclid;
pub mod parse;
pub mod partition;
pub mod raster;

pub use euclid::gcd;
