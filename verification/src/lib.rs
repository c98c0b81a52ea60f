//! Drawing on a canvas of RGB pixels, indexed `pixels[y][x]`: Bresenham lines,
//! rasterized triangles, quadrangles made of two triangles, filled squares, and
//! the binary PPM image of a canvas. Every drawing operation states exactly which
//! pixels it colours and that it leaves all others alone.

pub mod geometry;
pub mod canvas;
pub mod line;
pub mod raster;
pub mod shapes;
pub mod ppm;
