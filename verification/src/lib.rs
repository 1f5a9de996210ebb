//! A software 2.5D rasterizer core: fixed-point color compositing, a
//! framebuffer with per-pixel depth testing, and the integer scan-conversion
//! routines shared by the wall, sprite, background and floor passes.
//!
//! Real-valued camera work (trigonometry, perspective division) happens in the
//! surrounding application; it hands this library plain integers: screen
//! coordinates, texel coordinates, fog weights as fixed-point fractions, and
//! view-space depths as order-preserving bit patterns.

pub mod buffer;
pub mod render;
pub mod util;
