//! The integer core of a Mandelbrot renderer: the colour gradient and its
//! lookup, the tiling of the pixel grid, and the filling of the pixel buffer
//! from the shades that the escape-time iteration gives.

pub mod arith;
pub mod config;
pub mod gradient;
pub mod raster;
pub mod tiles;
