//! Escape-time raster of the Mandelbrot set, filled by interchangeable
//! partitioning strategies (serial, row-chunked pools, recursive bisection,
//! flat parallel-for), with a benchmarking harness and PPM encoding.
//!
//! Every strategy is generic over the pixel function, so that the buffer it
//! produces is stated exactly: each index holds the pixel value of the column
//! and row that the index maps to (`grid::rendered`).

pub mod grid;
pub mod harness;
pub mod laws;
pub mod ppm;
pub mod strategies;
