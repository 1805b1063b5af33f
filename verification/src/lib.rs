//! A software rasterizer: meshes of triangles drawn into a pixel buffer, on
//! the processor alone.
//!
//! Everything is computed on integers. Screen coordinates are whole pixels,
//! model coordinates, depths, light intensities and texture coordinates are
//! fixed-point numbers, and divisions round down, so that every picture is
//! determined to the last bit.
//!
//! The buffers are [`Image`] and [`DepthBuffer`], both modelled by a
//! [`Grid`]. [`line`] draws lines, [`triangle`] and [`fill_triangle`] fill
//! triangles, [`triangle_with_zbuffer`] and
//! [`triangle_with_zbuffer_with_texture`] fill them through the depth test,
//! and [`render_wireframe`], [`render_flat_shading`] and
//! [`render_flat_shading_with_texture`] draw whole meshes.

pub mod arith;
pub mod color;
pub mod depth;
pub mod fill;
pub mod grid;
pub mod image;
pub mod line;
pub mod render;
pub mod shade;
pub mod sweep;
pub mod triangle;
pub mod vec;
pub mod zbuffer;

pub use crate::color::{Color, Intensity};
pub use crate::depth::DepthBuffer;
pub use crate::fill::{fill_triangle, triangle, FillStrategy};
pub use crate::grid::Grid;
pub use crate::image::{Error, Image};
pub use crate::line::line;
pub use crate::render::{
    render_flat_shading, render_flat_shading_with_texture, render_wireframe, Mesh, Vertex,
};
pub use crate::shade::{intensity, is_lit, world_to_screen_coords};
pub use crate::vec::{Vec2, Vec3};
pub use crate::zbuffer::{triangle_with_zbuffer, triangle_with_zbuffer_with_texture};
