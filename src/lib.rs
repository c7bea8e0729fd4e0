//! Fixed-point software 3D pipeline: camera pose and projection, plane
//! clipping of triangles, back-face culling and depth ordering.

pub mod geometry;
pub mod triangle;
pub mod camera;
pub mod clip;
pub mod frame;
pub mod mesh;
