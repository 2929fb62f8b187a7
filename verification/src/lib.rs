//! Binary space partition collision engine and binary map importer.
//!
//! The library is built around three pieces:
//! * [`math`] — a fixed-point scalar representation (16 fractional bits)
//!   with the vector operations the geometry needs, and a decoder that
//!   turns IEEE-754 single-precision bit patterns into fixed-point values;
//! * [`bsp`] — planes, tree nodes and the tree itself, with point
//!   containment and ray casting queries;
//! * [`qbsp_import`] — a byte-exact parser for the lump-directory binary
//!   map format that assembles a collision tree and per-texture render
//!   meshes.

pub mod bsp;
pub mod graphics;
pub mod math;
pub mod qbsp_import;
