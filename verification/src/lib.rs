//! Verified core of an N-body physics sandbox: the integer and symbolic
//! logic behind its coordinate grid, octree, sphere mesh, stellar
//! lifecycle, console, input bindings, diagnostics and GPU set-up.
use vstd::prelude::*;

pub mod clock;
pub mod components;
pub mod console;
pub mod coordinates;
pub mod diagnostics;
pub mod gpu;
pub mod icosahedron;
pub mod icosphere;
pub mod icosphere_mesh;
pub mod input;
pub mod names;
pub mod octree;
pub mod octree_shape;
pub mod render;
pub mod stellar;

verus! {

} // verus!
