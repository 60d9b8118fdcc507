//! The base icosahedron as a solid: exact vertex positions over the golden
//! ratio, and the check that the twenty base faces are its faces, wound
//! outwards.
use vstd::prelude::*;

verus! {

use crate::icosphere::base_triangles;

/// A number `a + b * phi` of the ring generated by the golden ratio phi
/// (`phi * phi == phi + 1`), held as `(a, b)`.
pub type Golden = (int, int);

pub open spec fn golden_add(x: Golden, y: Golden) -> Golden {
    (x.0 + y.0, x.1 + y.1)
}

pub open spec fn golden_sub(x: Golden, y: Golden) -> Golden {
    (x.0 - y.0, x.1 - y.1)
}

/// `(a + b phi)(c + d phi) = ac + bd + (ad + bc + bd) phi`, as `phi^2 = phi + 1`.
pub open spec fn golden_mul(x: Golden, y: Golden) -> Golden {
    (x.0 * y.0 + x.1 * y.1, x.0 * y.1 + x.1 * y.0 + x.1 * y.1)
}

/// Whether `a + b phi > 0`: with `phi = (1 + sqrt 5) / 2` that is
/// `(2a + b) + b sqrt 5 > 0`.
pub open spec fn golden_positive(x: Golden) -> bool {
    let p = 2 * x.0 + x.1;
    let q = x.1;
    ||| p > 0 && q >= 0
    ||| p >= 0 && q > 0
    ||| p > 0 && q < 0 && p * p > 5 * q * q
    ||| p < 0 && q > 0 && 5 * q * q > p * p
}

/// Position of base vertex `i` of the icosahedron (before scaling onto the
/// unit sphere): the cyclic permutations of `(+-1, +-phi, 0)`.
pub open spec fn base_vertex(i: int) -> (Golden, Golden, Golden) {
    if i == 0 {
        ((-1int, 0int), (0int, 1int), (0int, 0int))
    } else if i == 1 {
        ((1int, 0int), (0int, 1int), (0int, 0int))
    } else if i == 2 {
        ((-1int, 0int), (0int, -1int), (0int, 0int))
    } else if i == 3 {
        ((1int, 0int), (0int, -1int), (0int, 0int))
    } else if i == 4 {
        ((0int, 0int), (-1int, 0int), (0int, 1int))
    } else if i == 5 {
        ((0int, 0int), (1int, 0int), (0int, 1int))
    } else if i == 6 {
        ((0int, 0int), (-1int, 0int), (0int, -1int))
    } else if i == 7 {
        ((0int, 0int), (1int, 0int), (0int, -1int))
    } else if i == 8 {
        ((0int, 1int), (0int, 0int), (-1int, 0int))
    } else if i == 9 {
        ((0int, 1int), (0int, 0int), (1int, 0int))
    } else if i == 10 {
        ((0int, -1int), (0int, 0int), (-1int, 0int))
    } else {
        ((0int, -1int), (0int, 0int), (1int, 0int))
    }
}

pub open spec fn golden_dot(u: (Golden, Golden, Golden), v: (Golden, Golden, Golden)) -> Golden {
    golden_add(golden_add(golden_mul(u.0, v.0), golden_mul(u.1, v.1)), golden_mul(u.2, v.2))
}

pub open spec fn golden_diff(u: (Golden, Golden, Golden), v: (Golden, Golden, Golden)) -> (
    Golden,
    Golden,
    Golden,
) {
    (golden_sub(u.0, v.0), golden_sub(u.1, v.1), golden_sub(u.2, v.2))
}

pub open spec fn golden_cross(u: (Golden, Golden, Golden), v: (Golden, Golden, Golden)) -> (
    Golden,
    Golden,
    Golden,
) {
    (
        golden_sub(golden_mul(u.1, v.2), golden_mul(u.2, v.1)),
        golden_sub(golden_mul(u.2, v.0), golden_mul(u.0, v.2)),
        golden_sub(golden_mul(u.0, v.1), golden_mul(u.1, v.0)),
    )
}

/// Squared distance between base vertices `i` and `j`.
pub open spec fn base_distance_squared(i: int, j: int) -> Golden {
    let d = golden_diff(base_vertex(i), base_vertex(j));
    golden_dot(d, d)
}

/// Base vertices `i`, `j`, `k` are pairwise neighbours on the icosahedron
/// (at the edge length 2 from each other) and, in this order, wind
/// counter-clockwise seen from outside (the normal points away from the
/// centre).
pub open spec fn outward_face(i: int, j: int, k: int) -> bool {
    let a = base_vertex(i);
    let b = base_vertex(j);
    let c = base_vertex(k);
    &&& 0 <= i < 12 && 0 <= j < 12 && 0 <= k < 12
    &&& base_distance_squared(i, j) == (4int, 0int)
    &&& base_distance_squared(j, k) == (4int, 0int)
    &&& base_distance_squared(k, i) == (4int, 0int)
    &&& golden_positive(golden_dot(golden_cross(golden_diff(b, a), golden_diff(c, a)), a))
}

/// Face `f` of `idx` is an outward face of the icosahedron.
pub open spec fn outward_icosahedron_face(idx: Seq<u32>, f: int) -> bool {
    outward_face(idx[3 * f] as int, idx[3 * f + 1] as int, idx[3 * f + 2] as int)
}

proof fn lemma_base_face(f: int)
    requires
        0 <= f < 20,
    ensures
        outward_icosahedron_face(base_triangles(), f),
{
    let b = base_triangles();
    if f == 0 {
        assert(b[0] == 0 && b[1] == 11 && b[2] == 5);
        assert(base_distance_squared(0, 11) == (4int, 0int)) by (nonlinear_arith);
        assert(base_distance_squared(11, 5) == (4int, 0int)) by (nonlinear_arith);
        assert(base_distance_squared(5, 0) == (4int, 0int)) by (nonlinear_arith);
        assert(golden_dot(golden_cross(golden_diff(base_vertex(11), base_vertex(0)), golden_diff(base_vertex(5), base_vertex(0))), base_vertex(0)) == (2int, 2int)) by (nonlinear_arith);
        assert(golden_positive((2int, 2int))) by (nonlinear_arith);
        assert(outward_face(0, 11, 5));
    } else if f == 1 {
        assert(b[3] == 0 && b[4] == 5 && b[5] == 1);
        assert(base_distance_squared(0, 5) == (4int, 0int)) by (nonlinear_arith);
        assert(base_distance_squared(5, 1) == (4int, 0int)) by (nonlinear_arith);
        assert(base_distance_squared(1, 0) == (4int, 0int)) by (nonlinear_arith);
        assert(golden_dot(golden_cross(golden_diff(base_vertex(5), base_vertex(0)), golden_diff(base_vertex(1), base_vertex(0))), base_vertex(0)) == (2int, 2int)) by (nonlinear_arith);
        assert(golden_positive((2int, 2int))) by (nonlinear_arith);
        assert(outward_face(0, 5, 1));
    } else if f == 2 {
        assert(b[6] == 0 && b[7] == 1 && b[8] == 7);
        assert(base_distance_squared(0, 1) == (4int, 0int)) by (nonlinear_arith);
        assert(base_distance_squared(1, 7) == (4int, 0int)) by (nonlinear_arith);
        assert(base_distance_squared(7, 0) == (4int, 0int)) by (nonlinear_arith);
        assert(golden_dot(golden_cross(golden_diff(base_vertex(1), base_vertex(0)), golden_diff(base_vertex(7), base_vertex(0))), base_vertex(0)) == (2int, 2int)) by (nonlinear_arith);
        assert(golden_positive((2int, 2int))) by (nonlinear_arith);
        assert(outward_face(0, 1, 7));
    } else if f == 3 {
        assert(b[9] == 0 && b[10] == 7 && b[11] == 10);
        assert(base_distance_squared(0, 7) == (4int, 0int)) by (nonlinear_arith);
        assert(base_distance_squared(7, 10) == (4int, 0int)) by (nonlinear_arith);
        assert(base_distance_squared(10, 0) == (4int, 0int)) by (nonlinear_arith);
        assert(golden_dot(golden_cross(golden_diff(base_vertex(7), base_vertex(0)), golden_diff(base_vertex(10), base_vertex(0))), base_vertex(0)) == (2int, 2int)) by (nonlinear_arith);
        assert(golden_positive((2int, 2int))) by (nonlinear_arith);
        assert(outward_face(0, 7, 10));
    } else if f == 4 {
        assert(b[12] == 0 && b[13] == 10 && b[14] == 11);
        assert(base_distance_squared(0, 10) == (4int, 0int)) by (nonlinear_arith);
        assert(base_distance_squared(10, 11) == (4int, 0int)) by (nonlinear_arith);
        assert(base_distance_squared(11, 0) == (4int, 0int)) by (nonlinear_arith);
        assert(golden_dot(golden_cross(golden_diff(base_vertex(10), base_vertex(0)), golden_diff(base_vertex(11), base_vertex(0))), base_vertex(0)) == (2int, 2int)) by (nonlinear_arith);
        assert(golden_positive((2int, 2int))) by (nonlinear_arith);
        assert(outward_face(0, 10, 11));
    } else if f == 5 {
        assert(b[15] == 1 && b[16] == 5 && b[17] == 9);
        assert(base_distance_squared(1, 5) == (4int, 0int)) by (nonlinear_arith);
        assert(base_distance_squared(5, 9) == (4int, 0int)) by (nonlinear_arith);
        assert(base_distance_squared(9, 1) == (4int, 0int)) by (nonlinear_arith);
        assert(golden_dot(golden_cross(golden_diff(base_vertex(5), base_vertex(1)), golden_diff(base_vertex(9), base_vertex(1))), base_vertex(1)) == (2int, 2int)) by (nonlinear_arith);
        assert(golden_positive((2int, 2int))) by (nonlinear_arith);
        assert(outward_face(1, 5, 9));
    } else if f == 6 {
        assert(b[18] == 5 && b[19] == 11 && b[20] == 4);
        assert(base_distance_squared(5, 11) == (4int, 0int)) by (nonlinear_arith);
        assert(base_distance_squared(11, 4) == (4int, 0int)) by (nonlinear_arith);
        assert(base_distance_squared(4, 5) == (4int, 0int)) by (nonlinear_arith);
        assert(golden_dot(golden_cross(golden_diff(base_vertex(11), base_vertex(5)), golden_diff(base_vertex(4), base_vertex(5))), base_vertex(5)) == (2int, 2int)) by (nonlinear_arith);
        assert(golden_positive((2int, 2int))) by (nonlinear_arith);
        assert(outward_face(5, 11, 4));
    } else if f == 7 {
        assert(b[21] == 11 && b[22] == 10 && b[23] == 2);
        assert(base_distance_squared(11, 10) == (4int, 0int)) by (nonlinear_arith);
        assert(base_distance_squared(10, 2) == (4int, 0int)) by (nonlinear_arith);
        assert(base_distance_squared(2, 11) == (4int, 0int)) by (nonlinear_arith);
        assert(golden_dot(golden_cross(golden_diff(base_vertex(10), base_vertex(11)), golden_diff(base_vertex(2), base_vertex(11))), base_vertex(11)) == (2int, 2int)) by (nonlinear_arith);
        assert(golden_positive((2int, 2int))) by (nonlinear_arith);
        assert(outward_face(11, 10, 2));
    } else if f == 8 {
        assert(b[24] == 10 && b[25] == 7 && b[26] == 6);
        assert(base_distance_squared(10, 7) == (4int, 0int)) by (nonlinear_arith);
        assert(base_distance_squared(7, 6) == (4int, 0int)) by (nonlinear_arith);
        assert(base_distance_squared(6, 10) == (4int, 0int)) by (nonlinear_arith);
        assert(golden_dot(golden_cross(golden_diff(base_vertex(7), base_vertex(10)), golden_diff(base_vertex(6), base_vertex(10))), base_vertex(10)) == (2int, 2int)) by (nonlinear_arith);
        assert(golden_positive((2int, 2int))) by (nonlinear_arith);
        assert(outward_face(10, 7, 6));
    } else if f == 9 {
        assert(b[27] == 7 && b[28] == 1 && b[29] == 8);
        assert(base_distance_squared(7, 1) == (4int, 0int)) by (nonlinear_arith);
        assert(base_distance_squared(1, 8) == (4int, 0int)) by (nonlinear_arith);
        assert(base_distance_squared(8, 7) == (4int, 0int)) by (nonlinear_arith);
        assert(golden_dot(golden_cross(golden_diff(base_vertex(1), base_vertex(7)), golden_diff(base_vertex(8), base_vertex(7))), base_vertex(7)) == (2int, 2int)) by (nonlinear_arith);
        assert(golden_positive((2int, 2int))) by (nonlinear_arith);
        assert(outward_face(7, 1, 8));
    } else if f == 10 {
        assert(b[30] == 3 && b[31] == 9 && b[32] == 4);
        assert(base_distance_squared(3, 9) == (4int, 0int)) by (nonlinear_arith);
        assert(base_distance_squared(9, 4) == (4int, 0int)) by (nonlinear_arith);
        assert(base_distance_squared(4, 3) == (4int, 0int)) by (nonlinear_arith);
        assert(golden_dot(golden_cross(golden_diff(base_vertex(9), base_vertex(3)), golden_diff(base_vertex(4), base_vertex(3))), base_vertex(3)) == (2int, 2int)) by (nonlinear_arith);
        assert(golden_positive((2int, 2int))) by (nonlinear_arith);
        assert(outward_face(3, 9, 4));
    } else if f == 11 {
        assert(b[33] == 3 && b[34] == 4 && b[35] == 2);
        assert(base_distance_squared(3, 4) == (4int, 0int)) by (nonlinear_arith);
        assert(base_distance_squared(4, 2) == (4int, 0int)) by (nonlinear_arith);
        assert(base_distance_squared(2, 3) == (4int, 0int)) by (nonlinear_arith);
        assert(golden_dot(golden_cross(golden_diff(base_vertex(4), base_vertex(3)), golden_diff(base_vertex(2), base_vertex(3))), base_vertex(3)) == (2int, 2int)) by (nonlinear_arith);
        assert(golden_positive((2int, 2int))) by (nonlinear_arith);
        assert(outward_face(3, 4, 2));
    } else if f == 12 {
        assert(b[36] == 3 && b[37] == 2 && b[38] == 6);
        assert(base_distance_squared(3, 2) == (4int, 0int)) by (nonlinear_arith);
        assert(base_distance_squared(2, 6) == (4int, 0int)) by (nonlinear_arith);
        assert(base_distance_squared(6, 3) == (4int, 0int)) by (nonlinear_arith);
        assert(golden_dot(golden_cross(golden_diff(base_vertex(2), base_vertex(3)), golden_diff(base_vertex(6), base_vertex(3))), base_vertex(3)) == (2int, 2int)) by (nonlinear_arith);
        assert(golden_positive((2int, 2int))) by (nonlinear_arith);
        assert(outward_face(3, 2, 6));
    } else if f == 13 {
        assert(b[39] == 3 && b[40] == 6 && b[41] == 8);
        assert(base_distance_squared(3, 6) == (4int, 0int)) by (nonlinear_arith);
        assert(base_distance_squared(6, 8) == (4int, 0int)) by (nonlinear_arith);
        assert(base_distance_squared(8, 3) == (4int, 0int)) by (nonlinear_arith);
        assert(golden_dot(golden_cross(golden_diff(base_vertex(6), base_vertex(3)), golden_diff(base_vertex(8), base_vertex(3))), base_vertex(3)) == (2int, 2int)) by (nonlinear_arith);
        assert(golden_positive((2int, 2int))) by (nonlinear_arith);
        assert(outward_face(3, 6, 8));
    } else if f == 14 {
        assert(b[42] == 3 && b[43] == 8 && b[44] == 9);
        assert(base_distance_squared(3, 8) == (4int, 0int)) by (nonlinear_arith);
        assert(base_distance_squared(8, 9) == (4int, 0int)) by (nonlinear_arith);
        assert(base_distance_squared(9, 3) == (4int, 0int)) by (nonlinear_arith);
        assert(golden_dot(golden_cross(golden_diff(base_vertex(8), base_vertex(3)), golden_diff(base_vertex(9), base_vertex(3))), base_vertex(3)) == (2int, 2int)) by (nonlinear_arith);
        assert(golden_positive((2int, 2int))) by (nonlinear_arith);
        assert(outward_face(3, 8, 9));
    } else if f == 15 {
        assert(b[45] == 4 && b[46] == 9 && b[47] == 5);
        assert(base_distance_squared(4, 9) == (4int, 0int)) by (nonlinear_arith);
        assert(base_distance_squared(9, 5) == (4int, 0int)) by (nonlinear_arith);
        assert(base_distance_squared(5, 4) == (4int, 0int)) by (nonlinear_arith);
        assert(golden_dot(golden_cross(golden_diff(base_vertex(9), base_vertex(4)), golden_diff(base_vertex(5), base_vertex(4))), base_vertex(4)) == (2int, 2int)) by (nonlinear_arith);
        assert(golden_positive((2int, 2int))) by (nonlinear_arith);
        assert(outward_face(4, 9, 5));
    } else if f == 16 {
        assert(b[48] == 2 && b[49] == 4 && b[50] == 11);
        assert(base_distance_squared(2, 4) == (4int, 0int)) by (nonlinear_arith);
        assert(base_distance_squared(4, 11) == (4int, 0int)) by (nonlinear_arith);
        assert(base_distance_squared(11, 2) == (4int, 0int)) by (nonlinear_arith);
        assert(golden_dot(golden_cross(golden_diff(base_vertex(4), base_vertex(2)), golden_diff(base_vertex(11), base_vertex(2))), base_vertex(2)) == (2int, 2int)) by (nonlinear_arith);
        assert(golden_positive((2int, 2int))) by (nonlinear_arith);
        assert(outward_face(2, 4, 11));
    } else if f == 17 {
        assert(b[51] == 6 && b[52] == 2 && b[53] == 10);
        assert(base_distance_squared(6, 2) == (4int, 0int)) by (nonlinear_arith);
        assert(base_distance_squared(2, 10) == (4int, 0int)) by (nonlinear_arith);
        assert(base_distance_squared(10, 6) == (4int, 0int)) by (nonlinear_arith);
        assert(golden_dot(golden_cross(golden_diff(base_vertex(2), base_vertex(6)), golden_diff(base_vertex(10), base_vertex(6))), base_vertex(6)) == (2int, 2int)) by (nonlinear_arith);
        assert(golden_positive((2int, 2int))) by (nonlinear_arith);
        assert(outward_face(6, 2, 10));
    } else if f == 18 {
        assert(b[54] == 8 && b[55] == 6 && b[56] == 7);
        assert(base_distance_squared(8, 6) == (4int, 0int)) by (nonlinear_arith);
        assert(base_distance_squared(6, 7) == (4int, 0int)) by (nonlinear_arith);
        assert(base_distance_squared(7, 8) == (4int, 0int)) by (nonlinear_arith);
        assert(golden_dot(golden_cross(golden_diff(base_vertex(6), base_vertex(8)), golden_diff(base_vertex(7), base_vertex(8))), base_vertex(8)) == (2int, 2int)) by (nonlinear_arith);
        assert(golden_positive((2int, 2int))) by (nonlinear_arith);
        assert(outward_face(8, 6, 7));
    } else if f == 19 {
        assert(b[57] == 9 && b[58] == 8 && b[59] == 1);
        assert(base_distance_squared(9, 8) == (4int, 0int)) by (nonlinear_arith);
        assert(base_distance_squared(8, 1) == (4int, 0int)) by (nonlinear_arith);
        assert(base_distance_squared(1, 9) == (4int, 0int)) by (nonlinear_arith);
        assert(golden_dot(golden_cross(golden_diff(base_vertex(8), base_vertex(9)), golden_diff(base_vertex(1), base_vertex(9))), base_vertex(9)) == (2int, 2int)) by (nonlinear_arith);
        assert(golden_positive((2int, 2int))) by (nonlinear_arith);
        assert(outward_face(9, 8, 1));
    }
}

/// The twenty base faces are faces of the icosahedron whose twelve vertices
/// all lie at the same distance from the centre: each joins three vertices
/// at the edge length from one another, wound counter-clockwise seen from
/// outside.
pub proof fn lemma_base_faces_are_icosahedron_faces()
    ensures
        base_triangles().len() == 60,
        forall|i: int| 0 <= i < 12 ==> golden_dot(#[trigger] base_vertex(i), base_vertex(i)) == (2int, 1int),
        forall|f: int| 0 <= f < 20 ==> #[trigger] outward_icosahedron_face(base_triangles(), f),
{
    assert forall|i: int| 0 <= i < 12 implies golden_dot(#[trigger] base_vertex(i), base_vertex(i))
        == (2int, 1int) by {
        if i == 0 {
            assert(golden_dot(base_vertex(0), base_vertex(0)) == (2int, 1int)) by (nonlinear_arith);
        } else if i == 1 {
            assert(golden_dot(base_vertex(1), base_vertex(1)) == (2int, 1int)) by (nonlinear_arith);
        } else if i == 2 {
            assert(golden_dot(base_vertex(2), base_vertex(2)) == (2int, 1int)) by (nonlinear_arith);
        } else if i == 3 {
            assert(golden_dot(base_vertex(3), base_vertex(3)) == (2int, 1int)) by (nonlinear_arith);
        } else if i == 4 {
            assert(golden_dot(base_vertex(4), base_vertex(4)) == (2int, 1int)) by (nonlinear_arith);
        } else if i == 5 {
            assert(golden_dot(base_vertex(5), base_vertex(5)) == (2int, 1int)) by (nonlinear_arith);
        } else if i == 6 {
            assert(golden_dot(base_vertex(6), base_vertex(6)) == (2int, 1int)) by (nonlinear_arith);
        } else if i == 7 {
            assert(golden_dot(base_vertex(7), base_vertex(7)) == (2int, 1int)) by (nonlinear_arith);
        } else if i == 8 {
            assert(golden_dot(base_vertex(8), base_vertex(8)) == (2int, 1int)) by (nonlinear_arith);
        } else if i == 9 {
            assert(golden_dot(base_vertex(9), base_vertex(9)) == (2int, 1int)) by (nonlinear_arith);
        } else if i == 10 {
            assert(golden_dot(base_vertex(10), base_vertex(10)) == (2int, 1int)) by (nonlinear_arith);
        } else {
            assert(golden_dot(base_vertex(11), base_vertex(11)) == (2int, 1int)) by (nonlinear_arith);
        }
    }
    assert forall|f: int| 0 <= f < 20 implies #[trigger] outward_icosahedron_face(base_triangles(), f) by {
        lemma_base_face(f);
    }
}

} // verus!
