//! Octant numbering of the Barnes-Hut octree.
//!
//! A node's eight children are numbered 0..8: bit 0 is set for the upper
//! half along x, bit 1 along y and bit 2 along z.  Whether a position lies in
//! the upper half of an axis (`pos >= center`) is decided by the caller.
use vstd::prelude::*;

verus! {

/// Maximum depth of the octree; a body that reaches it becomes a leaf.
pub const MAX_DEPTH: u32 = 40;

/// Octant number of the child whose region lies on the given sides of the
/// node's center.
pub open spec fn octant_of(x_upper: bool, y_upper: bool, z_upper: bool) -> int {
    (if x_upper { 1int } else { 0int }) + (if y_upper { 2int } else { 0int }) + (if z_upper {
        4int
    } else {
        0int
    })
}

/// Octant (0..8) of the child that holds a position, given on which side of
/// the node's center the position lies along each axis.
pub fn octant_index(x_upper: bool, y_upper: bool, z_upper: bool) -> (idx: usize)
    ensures
        idx == octant_of(x_upper, y_upper, z_upper),
        idx < 8,
{
    let mut idx: usize = 0;
    if x_upper {
        idx = idx + 1;
    }
    if y_upper {
        idx = idx + 2;
    }
    if z_upper {
        idx = idx + 4;
    }
    idx
}

/// Sides of the node's center on which child `octant` lies: upper half along
/// x, y and z.  Only the three low bits of `octant` are read.
pub open spec fn octant_sides_of(octant: int) -> (bool, bool, bool) {
    (octant % 2 == 1, (octant / 2) % 2 == 1, (octant / 4) % 2 == 1)
}

/// Sides of the node's center on which child `octant` lies (the child's
/// center is a quarter of the node size away from the node's center, towards
/// those sides).
pub fn octant_sides(octant: usize) -> (sides: (bool, bool, bool))
    ensures
        sides == octant_sides_of(octant as int),
{
    let x = octant & 1 != 0;
    let y = octant & 2 != 0;
    let z = octant & 4 != 0;
    assert(x == (octant % 2 == 1)) by (bit_vector)
        requires
            x == (octant & 1 != 0),
    ;
    assert(y == ((octant / 2) % 2 == 1)) by (bit_vector)
        requires
            y == (octant & 2 != 0),
    ;
    assert(z == ((octant / 4) % 2 == 1)) by (bit_vector)
        requires
            z == (octant & 4 != 0),
    ;
    (x, y, z)
}

/// A body inserted into the child given by [`octant_index`] lies on the same
/// sides as that child's region: the two numberings agree.
pub proof fn lemma_octant_round_trip(x_upper: bool, y_upper: bool, z_upper: bool)
    ensures
        0 <= octant_of(x_upper, y_upper, z_upper) < 8,
        octant_sides_of(octant_of(x_upper, y_upper, z_upper)) == (x_upper, y_upper, z_upper),
{
}

/// The eight octants are eight different regions: every octant number below
/// 8 is the number of exactly its own sides.
pub proof fn lemma_octant_numbering_bijective(octant: int)
    requires
        0 <= octant < 8,
    ensures
        ({
            let s = octant_sides_of(octant);
            octant_of(s.0, s.1, s.2) == octant
        }),
{
}

} // verus!
