//! A small CPU renderer core: a packed colour model, a fail-fast byte cursor,
//! a TGA image codec and an integer rasterizer with a depth buffer.
//! Every function carries a contract over a mathematical model of its data.

pub mod bytereader;
pub mod color;
pub mod depth;
pub mod drawing;
pub mod grid;
pub mod lines;
pub mod point;
pub mod text;
pub mod tga;
pub mod tga_format;
pub mod triangles;
pub mod wavefront;
