//! Render-geometry handoff types.
//!
//! The importer produces one [`Model`] per distinct texture: a flat
//! vertex buffer, an index buffer, and the texture's name.  Turning
//! these into GPU resources (buffers, programs, loaded texture images)
//! is the graphics collaborator's business, outside this crate.

use crate::math::Vec3;
use vstd::prelude::*;

verus! {

/// One render vertex: a position (already remapped to the collision
/// convention, Y and Z swapped) and a texture coordinate whose V
/// component has been flipped (`v' = 1 - v`), both fixed-point.
#[derive(Clone, Copy, Debug, PartialEq, Eq, Structural)]
pub struct Vertex {
    pub position: Vec3,
    pub tex_u: i64,
    pub tex_v: i64,
}

/// One drawable mesh: every face of a single texture, flattened.
/// `indices[i] == i` — each expanded mesh vertex is referenced once, in
/// order.
#[derive(Debug)]
pub struct Model {
    pub vertices: Vec<Vertex>,
    pub indices: Vec<u32>,
    /// Name of the texture to draw this mesh with, as stored in the
    /// map (the asset loader appends its own file suffix).
    pub texture: String,
}

} // verus!
