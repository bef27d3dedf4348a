//! Integer and structural core of a recursive ray tracer: the framebuffer
//! layout and its PNG encoding, the mapping of pixels to image-plane
//! coordinates, supersampling, the per-ray recursion state with its medium
//! stack, the cast and local-illumination steps of shading, and the scene
//! defaults.

pub mod scene;
pub mod fb;
pub mod camera;
pub mod raytrace;
pub mod encode;
