//! A software rasterizer core: homogeneous frustum clipping, scanline and
//! DDA rasterization with attribute interpolation, and a depth-tested
//! render target, over exact fixed-point integer coordinates.
pub mod vertex;
pub mod primitives;
pub mod clipping;
pub mod target;
pub mod raster;
pub mod pipeline;
pub mod model;
pub mod gpu;
pub mod shaders;
pub mod bitmap;
pub mod sampling;
