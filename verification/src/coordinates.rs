//! Coarse sector grid of the hierarchical coordinate system.
//!
//! A position is a sector index (integers, one cube of `sector_size` metres
//! per step) plus a small offset inside that sector.  This module holds the
//! integer half: sector indices and their arithmetic.
use vstd::prelude::*;

verus! {

/// A vector of three sector indices.
#[derive(Clone, Copy, PartialEq, Eq, Structural, Debug, Hash, Default)]
pub struct SectorIndex {
    pub x: i64,
    pub y: i64,
    pub z: i64,
}

/// Coarse grid position of an entity: the physical origin of the sector is
/// `index * sector_size` metres.
#[derive(Clone, Copy, PartialEq, Eq, Structural, Debug, Hash, Default)]
pub struct Sector(pub SectorIndex);

/// The three components fit in `i64` when added.
pub open spec fn sum_fits(a: SectorIndex, b: SectorIndex) -> bool {
    &&& i64::MIN <= a.x + b.x <= i64::MAX
    &&& i64::MIN <= a.y + b.y <= i64::MAX
    &&& i64::MIN <= a.z + b.z <= i64::MAX
}

/// The three components fit in `i64` when `a` is subtracted from `b`.
pub open spec fn difference_fits(a: SectorIndex, b: SectorIndex) -> bool {
    &&& i64::MIN <= b.x - a.x <= i64::MAX
    &&& i64::MIN <= b.y - a.y <= i64::MAX
    &&& i64::MIN <= b.z - a.z <= i64::MAX
}

/// `a + d`, component by component (meaningful when [`sum_fits`]).
pub open spec fn shift_index(a: SectorIndex, d: SectorIndex) -> SectorIndex {
    SectorIndex { x: (a.x + d.x) as i64, y: (a.y + d.y) as i64, z: (a.z + d.z) as i64 }
}

/// `b - a`, component by component (meaningful when [`difference_fits`]).
pub open spec fn delta_index(a: SectorIndex, b: SectorIndex) -> SectorIndex {
    SectorIndex { x: (b.x - a.x) as i64, y: (b.y - a.y) as i64, z: (b.z - a.z) as i64 }
}

impl SectorIndex {
    /// The vector `(x, y, z)`.
    pub fn new(x: i64, y: i64, z: i64) -> (v: Self)
        ensures
            v == (SectorIndex { x, y, z }),
    {
        SectorIndex { x, y, z }
    }
}

impl Sector {
    /// The sector at grid coordinates `(x, y, z)`.
    pub fn new(x: i64, y: i64, z: i64) -> (s: Self)
        ensures
            s.0 == (SectorIndex { x, y, z }),
    {
        Sector(SectorIndex { x, y, z })
    }

    /// The sector at the origin.
    pub fn origin() -> (s: Self)
        ensures
            s.0 == (SectorIndex { x: 0, y: 0, z: 0 }),
    {
        Sector(SectorIndex { x: 0, y: 0, z: 0 })
    }

    /// The sector `delta` steps away from this one.
    pub fn shifted(&self, delta: SectorIndex) -> (s: Self)
        requires
            sum_fits(self.0, delta),
        ensures
            s.0 == shift_index(self.0, delta),
            s.0.x == self.0.x + delta.x,
            s.0.y == self.0.y + delta.y,
            s.0.z == self.0.z + delta.z,
    {
        Sector(SectorIndex { x: self.0.x + delta.x, y: self.0.y + delta.y, z: self.0.z + delta.z })
    }
}

/// Number of sector steps from sector `a` to sector `b` on each axis (`b - a`).
pub fn sector_delta(a: &Sector, b: &Sector) -> (d: SectorIndex)
    requires
        difference_fits(a.0, b.0),
    ensures
        d == delta_index(a.0, b.0),
        d.x == b.0.x - a.0.x,
        d.y == b.0.y - a.0.y,
        d.z == b.0.z - a.0.z,
{
    SectorIndex { x: b.0.x - a.0.x, y: b.0.y - a.0.y, z: b.0.z - a.0.z }
}

/// Shifting a sector by the steps between it and another sector lands on
/// the other one, and the steps between a sector and a shift of it are the
/// shift.
pub proof fn lemma_delta_and_shift_agree(a: SectorIndex, b: SectorIndex, d: SectorIndex)
    ensures
        difference_fits(a, b) ==> sum_fits(a, delta_index(a, b)) && shift_index(a, delta_index(a, b))
            == b,
        sum_fits(a, d) ==> difference_fits(a, shift_index(a, d)) && delta_index(a, shift_index(a, d))
            == d,
{
}

/// Offset of entry `k` (0..27) of a 3x3x3 neighbourhood: `dx`, `dy`, `dz`
/// each run over -1, 0, 1, with `dz` varying fastest.
pub open spec fn neighbour_offset(k: int) -> (int, int, int) {
    (k / 9 - 1, (k / 3) % 3 - 1, k % 3 - 1)
}

/// The 27 sectors around `center` (itself included), in the order of
/// [`neighbour_offset`]; the sector grid is drawn for these.
pub fn sector_neighbourhood(center: &Sector) -> (v: Vec<Sector>)
    requires
        i64::MIN < center.0.x < i64::MAX,
        i64::MIN < center.0.y < i64::MAX,
        i64::MIN < center.0.z < i64::MAX,
    ensures
        v.len() == 27,
        forall|k: int|
            0 <= k < 27 ==> {
                &&& (#[trigger] v[k]).0.x == center.0.x + neighbour_offset(k).0
                &&& v[k].0.y == center.0.y + neighbour_offset(k).1
                &&& v[k].0.z == center.0.z + neighbour_offset(k).2
            },
{
    let mut v: Vec<Sector> = Vec::new();
    let mut dx: i64 = -1;
    while dx <= 1
        invariant
            -1 <= dx <= 2,
            v.len() == 9 * (dx + 1),
            i64::MIN < center.0.x < i64::MAX,
            i64::MIN < center.0.y < i64::MAX,
            i64::MIN < center.0.z < i64::MAX,
            forall|k: int|
                0 <= k < v.len() ==> {
                    &&& (#[trigger] v[k]).0.x == center.0.x + neighbour_offset(k).0
                    &&& v[k].0.y == center.0.y + neighbour_offset(k).1
                    &&& v[k].0.z == center.0.z + neighbour_offset(k).2
                },
        decreases 2 - dx,
    {
        let mut dy: i64 = -1;
        while dy <= 1
            invariant
                -1 <= dx <= 1,
                -1 <= dy <= 2,
                v.len() == 9 * (dx + 1) + 3 * (dy + 1),
                i64::MIN < center.0.x < i64::MAX,
                i64::MIN < center.0.y < i64::MAX,
                i64::MIN < center.0.z < i64::MAX,
                forall|k: int|
                    0 <= k < v.len() ==> {
                        &&& (#[trigger] v[k]).0.x == center.0.x + neighbour_offset(k).0
                        &&& v[k].0.y == center.0.y + neighbour_offset(k).1
                        &&& v[k].0.z == center.0.z + neighbour_offset(k).2
                    },
            decreases 2 - dy,
        {
            let mut dz: i64 = -1;
            while dz <= 1
                invariant
                    -1 <= dx <= 1,
                    -1 <= dy <= 1,
                    -1 <= dz <= 2,
                    v.len() == 9 * (dx + 1) + 3 * (dy + 1) + (dz + 1),
                    i64::MIN < center.0.x < i64::MAX,
                    i64::MIN < center.0.y < i64::MAX,
                    i64::MIN < center.0.z < i64::MAX,
                    forall|k: int|
                        0 <= k < v.len() ==> {
                            &&& (#[trigger] v[k]).0.x == center.0.x + neighbour_offset(k).0
                            &&& v[k].0.y == center.0.y + neighbour_offset(k).1
                            &&& v[k].0.z == center.0.z + neighbour_offset(k).2
                        },
                decreases 2 - dz,
            {
                let ghost k = v.len() as int;
                v.push(Sector(SectorIndex { x: center.0.x + dx, y: center.0.y + dy, z: center.0.z + dz }));
                proof {
                    assert(k / 9 == dx + 1);
                    assert((k / 3) % 3 == dy + 1);
                    assert(k % 3 == dz + 1);
                }
                dz = dz + 1;
            }
            dy = dy + 1;
        }
        dx = dx + 1;
    }
    v
}

} // verus!
