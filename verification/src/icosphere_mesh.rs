//! The icosphere is a closed surface: every edge borders exactly two
//! triangles, which walk it in opposite directions, and its vertex count
//! after `n` subdivisions is `10 * 4^n + 2`.
use vstd::prelude::*;

verus! {

use crate::icosphere::{
    base_triangles, corner_successor, lemma_first_occurrences_facts, lemma_pow4_bounds, edge_key, first_occurrences, icosphere_level,
    midpoint_vertex, pow4, subdivided, subdivided_index, triangle_edges, MAX_SUBDIVISIONS,
};

/// The corner before corner `k` inside its triangle.
pub open spec fn corner_predecessor(k: int) -> int {
    corner_successor(corner_successor(k))
}

/// The directed edge from corner `k` to the next corner of its triangle.
pub open spec fn directed_edge(idx: Seq<u32>, k: int) -> (u32, u32) {
    (idx[k], idx[corner_successor(k)])
}

/// `e` walked the other way.
pub open spec fn reversed(e: (u32, u32)) -> (u32, u32) {
    (e.1, e.0)
}

/// Every index names one of the `nv` vertices.
pub open spec fn indices_below(idx: Seq<u32>, nv: int) -> bool {
    forall|k: int| 0 <= k < idx.len() ==> #[trigger] idx[k] < nv
}

/// No triangle repeats a vertex.
pub open spec fn corners_distinct(idx: Seq<u32>) -> bool {
    forall|k: int| 0 <= k < idx.len() ==> (#[trigger] directed_edge(idx, k)).0 != directed_edge(idx, k).1
}

/// No directed edge occurs twice.
pub open spec fn edges_unique(idx: Seq<u32>) -> bool {
    forall|k1: int, k2: int|
        0 <= k1 < idx.len() && 0 <= k2 < idx.len() && #[trigger] directed_edge(idx, k1)
            == #[trigger] directed_edge(idx, k2) ==> k1 == k2
}

/// Some corner's directed edge is the edge of corner `k` walked backwards.
pub open spec fn has_twin(idx: Seq<u32>, k: int) -> bool {
    exists|k2: int|
        0 <= k2 < idx.len() && #[trigger] directed_edge(idx, k2) == reversed(directed_edge(idx, k))
}

/// Every directed edge is also walked the other way.
pub open spec fn edges_paired(idx: Seq<u32>) -> bool {
    forall|k: int| 0 <= k < idx.len() ==> #[trigger] has_twin(idx, k)
}

/// The two triangles on either side of an edge have different third
/// vertices (the surface never folds back onto a copy of a triangle).
pub open spec fn no_folded_pair(idx: Seq<u32>) -> bool {
    forall|k1: int, k2: int|
        0 <= k1 < idx.len() && 0 <= k2 < idx.len() && #[trigger] directed_edge(idx, k2)
            == reversed(#[trigger] directed_edge(idx, k1)) ==> idx[corner_predecessor(k2)]
            != idx[corner_predecessor(k1)]
}

/// A closed triangle mesh over `nv` vertices: whole triangles, valid
/// indices, three distinct corners per triangle, each directed edge once and
/// its reverse once.
pub open spec fn closed_mesh(idx: Seq<u32>, nv: int) -> bool {
    &&& idx.len() % 3 == 0
    &&& indices_below(idx, nv)
    &&& corners_distinct(idx)
    &&& edges_unique(idx)
    &&& edges_paired(idx)
    &&& no_folded_pair(idx)
}

/// For each corner of the base icosahedron, the corner whose edge is its
/// edge walked backwards.
spec fn base_twin() -> Seq<int> {
    seq![
        14, 18, 3, 2, 15, 6, 5, 27, 9, 8, 24, 12, 11, 21, 0, 4, 46, 59, 1, 49,
        47, 13, 52, 50, 10, 55, 53, 7, 58, 56, 44, 45, 33, 32, 48, 36, 35, 51, 39, 38,
        54, 42, 41, 57, 30, 31, 16, 20, 34, 19, 23, 37, 22, 26, 40, 25, 29, 43, 28, 17,
    ]
}

/// The corner of the base icosahedron whose directed edge has code
/// `12 * from + to`.
spec fn base_edge_corner() -> Seq<int> {
    seq![
        0, 6, 0, 0, 0, 3, 0, 9, 0, 0, 12, 0, 5, 0, 0, 0, 0, 15, 0, 7, 28, 59, 0, 0,
        0, 0, 0, 35, 48, 0, 37, 0, 0, 0, 52, 23, 0, 0, 36, 0, 33, 0, 39, 0, 42, 30, 0, 0,
        0, 0, 34, 32, 0, 20, 0, 0, 0, 45, 0, 49, 2, 4, 0, 0, 47, 0, 0, 0, 0, 16, 0, 18,
        0, 0, 51, 38, 0, 0, 0, 55, 40, 0, 26, 0, 8, 27, 0, 0, 0, 0, 25, 0, 56, 0, 10, 0,
        0, 58, 0, 41, 0, 0, 54, 29, 0, 43, 0, 0, 0, 17, 0, 44, 31, 46, 0, 0, 57, 0, 0, 0,
        11, 0, 22, 0, 0, 0, 53, 24, 0, 0, 0, 13, 14, 0, 50, 0, 19, 1, 0, 0, 0, 0, 21, 0,
    ]
}

proof fn lemma_base_corner(k: int)
    requires
        0 <= k < 60,
    ensures
        base_triangles()[k] < 12,
        base_triangles()[k] != base_triangles()[corner_successor(k)],
        base_edge_corner()[12 * base_triangles()[k] + base_triangles()[corner_successor(k)]] == k,
        0 <= base_twin()[k] < 60,
        directed_edge(base_triangles(), base_twin()[k]) == reversed(directed_edge(base_triangles(), k)),
        base_triangles()[corner_predecessor(base_twin()[k])] != base_triangles()[corner_predecessor(k)],
{
}

proof fn lemma_base_closed()
    ensures
        closed_mesh(base_triangles(), 12),
{
    let b = base_triangles();
    assert(b.len() == 60);
    assert forall|k: int| 0 <= k < b.len() implies #[trigger] b[k] < 12 by {
        lemma_base_corner(k);
    }
    assert forall|k: int| 0 <= k < b.len() implies (#[trigger] directed_edge(b, k)).0
        != directed_edge(b, k).1 by {
        lemma_base_corner(k);
    }
    assert forall|k1: int, k2: int|
        0 <= k1 < b.len() && 0 <= k2 < b.len() && #[trigger] directed_edge(b, k1)
            == #[trigger] directed_edge(b, k2) implies k1 == k2 by {
        lemma_base_corner(k1);
        lemma_base_corner(k2);
    }
    assert forall|k: int| 0 <= k < b.len() implies #[trigger] has_twin(b, k) by {
        lemma_base_corner(k);
        assert(directed_edge(b, base_twin()[k]) == reversed(directed_edge(b, k)));
    }
    assert forall|k1: int, k2: int|
        0 <= k1 < b.len() && 0 <= k2 < b.len() && #[trigger] directed_edge(b, k2)
            == reversed(#[trigger] directed_edge(b, k1)) implies b[corner_predecessor(k2)]
            != b[corner_predecessor(k1)] by {
        lemma_base_corner(k1);
        lemma_base_corner(k2);
        let t = base_twin()[k1];
        lemma_base_corner(t);
        assert(directed_edge(b, t) == directed_edge(b, k2));
    }
}

/// Number of times `x` occurs in `s`.
pub open spec fn occurrences<A>(s: Seq<A>, x: A) -> nat
    decreases s.len(),
{
    if s.len() == 0 {
        0
    } else {
        occurrences(s.drop_last(), x) + if s.last() == x {
            1nat
        } else {
            0nat
        }
    }
}

/// Sum of the occurrences in `s` of the elements of `u`.
spec fn occurrence_sum<A>(u: Seq<A>, s: Seq<A>) -> nat
    decreases u.len(),
{
    if u.len() == 0 {
        0
    } else {
        occurrence_sum(u.drop_last(), s) + occurrences(s, u.last())
    }
}

proof fn lemma_occurrences_push<A>(s: Seq<A>, y: A, x: A)
    ensures
        occurrences(s.push(y), x) == occurrences(s, x) + if y == x {
            1nat
        } else {
            0nat
        },
{
    assert(s.push(y).drop_last() =~= s);
}

proof fn lemma_occurrences_absent<A>(s: Seq<A>, x: A)
    requires
        forall|k: int| 0 <= k < s.len() ==> s[k] != x,
    ensures
        occurrences(s, x) == 0,
    decreases s.len(),
{
    if s.len() > 0 {
        lemma_occurrences_absent(s.drop_last(), x);
    }
}

proof fn lemma_occurrences_once<A>(s: Seq<A>, x: A, i: int)
    requires
        0 <= i < s.len(),
        s[i] == x,
        forall|k: int| 0 <= k < s.len() && k != i ==> s[k] != x,
    ensures
        occurrences(s, x) == 1,
    decreases s.len(),
{
    if i == s.len() - 1 {
        lemma_occurrences_absent(s.drop_last(), x);
    } else {
        lemma_occurrences_once(s.drop_last(), x, i);
    }
}

proof fn lemma_occurrences_twice<A>(s: Seq<A>, x: A, i: int, j: int)
    requires
        0 <= i < j < s.len(),
        s[i] == x,
        s[j] == x,
        forall|k: int| 0 <= k < s.len() && k != i && k != j ==> s[k] != x,
    ensures
        occurrences(s, x) == 2,
    decreases s.len(),
{
    if j == s.len() - 1 {
        lemma_occurrences_once(s.drop_last(), x, i);
    } else {
        lemma_occurrences_twice(s.drop_last(), x, i, j);
    }
}

proof fn lemma_occurrence_sum_push<A>(u: Seq<A>, s: Seq<A>, y: A)
    requires
        u.no_duplicates(),
    ensures
        occurrence_sum(u, s.push(y)) == occurrence_sum(u, s) + if u.contains(y) {
            1nat
        } else {
            0nat
        },
    decreases u.len(),
{
    if u.len() > 0 {
        let v = u.drop_last();
        assert(v.no_duplicates());
        lemma_occurrence_sum_push(v, s, y);
        lemma_occurrences_push(s, y, u.last());
        if v.contains(y) {
            let k = choose|k: int| 0 <= k < v.len() && v[k] == y;
            assert(u[k] == y);
            assert(u.contains(y));
        }
        if u.contains(y) && !v.contains(y) {
            let k = choose|k: int| 0 <= k < u.len() && u[k] == y;
            if k < v.len() {
                assert(v[k] == y);
            }
        }
    }
}

proof fn lemma_length_is_occurrence_sum<A>(s: Seq<A>)
    ensures
        s.len() == occurrence_sum(first_occurrences(s), s),
    decreases s.len(),
{
    if s.len() > 0 {
        let s0 = s.drop_last();
        let y = s.last();
        assert(s =~= s0.push(y));
        lemma_length_is_occurrence_sum(s0);
        let u0 = first_occurrences(s0);
        lemma_first_occurrences_facts(s0);
        lemma_occurrence_sum_push(u0, s0, y);
        if !u0.contains(y) {
            let u = u0.push(y);
            assert(u.drop_last() =~= u0);
            lemma_occurrences_push(s0, y, y);
            assert forall|k: int| 0 <= k < s0.len() implies s0[k] != y by {
                if s0[k] == y {
                    assert(s0.contains(y));
                }
            }
            lemma_occurrences_absent(s0, y);
        }
    }
}

proof fn lemma_occurrence_sum_twice<A>(u: Seq<A>, s: Seq<A>)
    requires
        forall|i: int| 0 <= i < u.len() ==> occurrences(s, #[trigger] u[i]) == 2,
    ensures
        occurrence_sum(u, s) == 2 * u.len(),
    decreases u.len(),
{
    if u.len() > 0 {
        let v = u.drop_last();
        assert forall|i: int| 0 <= i < v.len() implies occurrences(s, #[trigger] v[i]) == 2 by {
            assert(v[i] == u[i]);
        }
        lemma_occurrence_sum_twice(v, s);
        assert(occurrences(s, u[u.len() - 1]) == 2);
    }
}

/// When every element of `s` occurs exactly twice, `s` holds half as many
/// distinct elements as it has entries.
proof fn lemma_each_twice_halves<A>(s: Seq<A>)
    requires
        forall|k: int| 0 <= k < s.len() ==> occurrences(s, #[trigger] s[k]) == 2,
    ensures
        2 * first_occurrences(s).len() == s.len(),
{
    let u = first_occurrences(s);
    lemma_first_occurrences_facts(s);
    lemma_length_is_occurrence_sum(s);
    assert forall|i: int| 0 <= i < u.len() implies occurrences(s, #[trigger] u[i]) == 2 by {
        assert(u.contains(u[i]));
        assert(s.contains(u[i]));
        let k = choose|k: int| 0 <= k < s.len() && s[k] == u[i];
        assert(occurrences(s, s[k]) == 2);
    }
    lemma_occurrence_sum_twice(u, s);
}

proof fn lemma_corner_positions(k: int)
    requires
        0 <= k,
    ensures
        3 * (k / 3) <= k < 3 * (k / 3) + 3,
        3 * (k / 3) <= corner_successor(k) < 3 * (k / 3) + 3,
        3 * (k / 3) <= corner_predecessor(k) < 3 * (k / 3) + 3,
        corner_successor(k) / 3 == k / 3,
        corner_predecessor(k) / 3 == k / 3,
        corner_successor(k) != k,
        corner_predecessor(k) != k,
        corner_successor(k) != corner_predecessor(k),
        corner_successor(corner_predecessor(k)) == k,
        corner_predecessor(corner_successor(k)) == k,
{
    let t = k / 3;
    assert(k == 3 * t + k % 3);
    let s = corner_successor(k);
    let p = corner_predecessor(k);
    if k % 3 == 0 {
        assert(s == k + 1 && s % 3 == 1);
        assert(p == k + 2);
    } else if k % 3 == 1 {
        assert(s == k + 1 && s % 3 == 2);
        assert(p == k - 1 && p % 3 == 0);
    } else {
        assert(s == k - 2 && s % 3 == 0);
        assert(p == k - 1 && p % 3 == 1);
    }
}

proof fn lemma_same_triangle(k: int, q: int)
    requires
        0 <= k,
        0 <= q,
        k / 3 == q / 3,
    ensures
        q == k || q == corner_successor(k) || q == corner_predecessor(k),
{
    lemma_corner_positions(k);
    lemma_corner_positions(q);
}

/// The three corners of a triangle hold three different vertices.
proof fn lemma_triangle_vertices(idx: Seq<u32>, k: int)
    requires
        idx.len() % 3 == 0,
        corners_distinct(idx),
        0 <= k < idx.len(),
    ensures
        corner_successor(k) < idx.len(),
        corner_predecessor(k) < idx.len(),
        idx[k] != idx[corner_successor(k)],
        idx[k] != idx[corner_predecessor(k)],
        idx[corner_successor(k)] != idx[corner_predecessor(k)],
{
    lemma_corner_positions(k);
    let s = corner_successor(k);
    let p = corner_predecessor(k);
    assert(3 * (k / 3) + 3 <= idx.len()) by {
        assert(idx.len() == 3 * (idx.len() / 3));
    }
    assert(directed_edge(idx, k).0 != directed_edge(idx, k).1);
    assert(directed_edge(idx, s).0 != directed_edge(idx, s).1);
    assert(directed_edge(idx, p).0 != directed_edge(idx, p).1);
}

/// Inside one triangle, a vertex or an undirected edge fixes the corner.
proof fn lemma_corner_determined(idx: Seq<u32>, k: int, q: int)
    requires
        idx.len() % 3 == 0,
        corners_distinct(idx),
        0 <= k < idx.len(),
        0 <= q < idx.len(),
        k / 3 == q / 3,
    ensures
        idx[q] == idx[k] ==> q == k,
        triangle_edges(idx)[q] == triangle_edges(idx)[k] ==> q == k,
{
    lemma_same_triangle(k, q);
    lemma_triangle_vertices(idx, k);
    lemma_corner_positions(k);
    let s = corner_successor(k);
    let p = corner_predecessor(k);
    assert(corner_successor(s) == p);
    assert(triangle_edges(idx)[k] == edge_key(idx[k], idx[s]));
    assert(triangle_edges(idx)[q] == edge_key(idx[q], idx[corner_successor(q)]));
}

/// In a closed mesh every undirected edge occurs exactly twice among the
/// triangle edges: once in each direction, in two different triangles.
pub proof fn lemma_edge_in_two_triangles(idx: Seq<u32>, nv: int, k: int, k2: int, m: int)
    requires
        closed_mesh(idx, nv),
        0 <= k < idx.len(),
        0 <= k2 < idx.len(),
        0 <= m < idx.len(),
        directed_edge(idx, k2) == reversed(directed_edge(idx, k)),
    ensures
        k2 / 3 != k / 3,
        triangle_edges(idx)[k2] == triangle_edges(idx)[k],
        triangle_edges(idx)[m] == triangle_edges(idx)[k] ==> m == k || m == k2,
{
    lemma_triangle_vertices(idx, k);
    lemma_triangle_vertices(idx, k2);
    assert(triangle_edges(idx)[k] == edge_key(idx[k], idx[corner_successor(k)]));
    assert(triangle_edges(idx)[k2] == edge_key(idx[k2], idx[corner_successor(k2)]));
    assert(triangle_edges(idx)[m] == edge_key(idx[m], idx[corner_successor(m)]));
    if k2 / 3 == k / 3 {
        lemma_same_triangle(k, k2);
        lemma_corner_positions(k);
        assert(corner_successor(corner_successor(k)) == corner_predecessor(k));
    }
    if triangle_edges(idx)[m] == triangle_edges(idx)[k] {
        if directed_edge(idx, m) == directed_edge(idx, k) {
            assert(m == k);
        } else {
            assert(directed_edge(idx, m) == directed_edge(idx, k2));
        }
    }
}

proof fn lemma_closed_edges_twice(idx: Seq<u32>, nv: int)
    requires
        closed_mesh(idx, nv),
    ensures
        2 * first_occurrences(triangle_edges(idx)).len() == idx.len(),
{
    let s = triangle_edges(idx);
    assert forall|k: int| 0 <= k < s.len() implies occurrences(s, #[trigger] s[k]) == 2 by {
        assert(has_twin(idx, k));
        let k2 = choose|k2: int|
            0 <= k2 < idx.len() && #[trigger] directed_edge(idx, k2) == reversed(
                directed_edge(idx, k),
            );
        lemma_edge_in_two_triangles(idx, nv, k, k2, k);
        assert forall|m: int| 0 <= m < s.len() && m != k && m != k2 implies s[m] != s[k] by {
            lemma_edge_in_two_triangles(idx, nv, k, k2, m);
        }
        if k < k2 {
            lemma_occurrences_twice(s, s[k], k, k2);
        } else {
            lemma_occurrences_twice(s, s[k], k2, k);
        }
    }
    lemma_each_twice_halves(s);
}

/// Midpoint vertex of the edge that leaves corner `k`.
spec fn corner_mid(idx: Seq<u32>, base: int, pairs: Seq<(u32, u32)>, k: int) -> int {
    midpoint_vertex(pairs, base, idx[k], idx[corner_successor(k)])
}

/// The corner of the coarse mesh that position `p` of the subdivided mesh
/// comes from: the corner triangles of coarse triangle `t` fill positions
/// `12 t .. 12 t + 9`, three per coarse corner, and its centre triangle
/// fills `12 t + 9 .. 12 t + 12`, one position per coarse corner.
spec fn parent_corner(p: int) -> int {
    if p % 12 < 9 {
        3 * (p / 12) + (p % 12) / 3
    } else {
        3 * (p / 12) + p % 12 - 9
    }
}

/// The directed edge at position `p` of the subdivided mesh, in terms of
/// its parent corner `k`: `(v, m(k))`, `(m(k), m(pred k))`, `(m(pred k), v)`
/// in the corner triangle, `(m(k), m(succ k))` in the centre triangle.
spec fn split_edge(idx: Seq<u32>, base: int, pairs: Seq<(u32, u32)>, p: int) -> (int, int) {
    let k = parent_corner(p);
    if p % 12 >= 9 {
        (corner_mid(idx, base, pairs, k), corner_mid(idx, base, pairs, corner_successor(k)))
    } else if p % 3 == 0 {
        (idx[k] as int, corner_mid(idx, base, pairs, k))
    } else if p % 3 == 1 {
        (corner_mid(idx, base, pairs, k), corner_mid(idx, base, pairs, corner_predecessor(k)))
    } else {
        (corner_mid(idx, base, pairs, corner_predecessor(k)), idx[k] as int)
    }
}

/// The vertex opposite the edge at position `p` of the subdivided mesh.
spec fn split_opposite(idx: Seq<u32>, base: int, pairs: Seq<(u32, u32)>, p: int) -> int {
    let k = parent_corner(p);
    if p % 12 >= 9 || p % 3 == 0 {
        corner_mid(idx, base, pairs, corner_predecessor(k))
    } else if p % 3 == 1 {
        idx[k] as int
    } else {
        corner_mid(idx, base, pairs, k)
    }
}

#[verifier::rlimit(60)]
proof fn lemma_split(idx: Seq<u32>, base: int, pairs: Seq<(u32, u32)>, p: int)
    requires
        idx.len() % 3 == 0,
        0 <= p < 4 * idx.len(),
        forall|k: int|
            0 <= k < idx.len() ==> 0 <= #[trigger] corner_mid(idx, base, pairs, k) <= u32::MAX,
    ensures
        subdivided(idx, base, pairs).len() == 4 * idx.len(),
        0 <= parent_corner(p) < idx.len(),
        parent_corner(p) / 3 == p / 12,
        0 <= corner_successor(p) < 4 * idx.len(),
        0 <= corner_predecessor(p) < 4 * idx.len(),
        (subdivided(idx, base, pairs)[p] as int, subdivided(idx, base, pairs)[corner_successor(
            p,
        )] as int) == split_edge(idx, base, pairs, p),
        subdivided(idx, base, pairs)[corner_predecessor(p)] as int == split_opposite(
            idx,
            base,
            pairs,
            p,
        ),
{
    let n = subdivided(idx, base, pairs);
    let t = p / 12;
    let j = p % 12;
    assert(p == 12 * t + j);
    assert(idx.len() == 3 * (idx.len() / 3));
    assert(3 * t + 3 <= idx.len());
    let k0 = 3 * t;
    assert(corner_successor(k0) == k0 + 1);
    assert(corner_successor(k0 + 1) == k0 + 2);
    assert(corner_successor(k0 + 2) == k0);
    assert(corner_predecessor(k0) == k0 + 2);
    assert(corner_predecessor(k0 + 1) == k0);
    assert(corner_predecessor(k0 + 2) == k0 + 1);
    let ab = corner_mid(idx, base, pairs, k0);
    let bc = corner_mid(idx, base, pairs, k0 + 1);
    let ca = corner_mid(idx, base, pairs, k0 + 2);
    assert(0 <= ab <= u32::MAX && 0 <= bc <= u32::MAX && 0 <= ca <= u32::MAX);
    let q = 12 * t;
    assert forall|i: int| 0 <= i < 12 implies (#[trigger] n[q + i]) as int == (if i == 0 {
        idx[k0] as int
    } else if i == 1 || i == 5 || i == 9 {
        ab
    } else if i == 2 || i == 7 || i == 11 {
        ca
    } else if i == 3 {
        idx[k0 + 1] as int
    } else if i == 4 || i == 8 || i == 10 {
        bc
    } else {
        idx[k0 + 2] as int
    }) by {
        assert((q + i) / 12 == t && (q + i) % 12 == i);
    }
    if j % 3 == 0 {
        assert(corner_successor(p) == p + 1 && corner_predecessor(p) == p + 2);
    } else if j % 3 == 1 {
        assert(corner_successor(p) == p + 1 && corner_predecessor(p) == p - 1);
    } else {
        assert(corner_successor(p) == p - 2 && corner_predecessor(p) == p - 1);
    }
    assert(n[p] == n[q + j]);
}

proof fn lemma_mid_all(idx: Seq<u32>, base: int)
    requires
        idx.len() % 3 == 0,
    ensures
        forall|k: int|
            0 <= k < idx.len() ==> base <= #[trigger] corner_mid(
                idx,
                base,
                first_occurrences(triangle_edges(idx)),
                k,
            ) < base + first_occurrences(triangle_edges(idx)).len(),
        forall|k1: int, k2: int|
            0 <= k1 < idx.len() && 0 <= k2 < idx.len() ==> (#[trigger] corner_mid(
                idx,
                base,
                first_occurrences(triangle_edges(idx)),
                k1,
            ) == #[trigger] corner_mid(idx, base, first_occurrences(triangle_edges(idx)), k2)
                <==> triangle_edges(idx)[k1] == triangle_edges(idx)[k2]),
{
    let s = triangle_edges(idx);
    let pairs = first_occurrences(s);
    lemma_first_occurrences_facts(s);
    assert forall|k: int| 0 <= k < idx.len() implies #[trigger] pairs.contains(s[k])
        && pairs[pairs.index_of(s[k])] == s[k] && 0 <= pairs.index_of(s[k]) < pairs.len()
        && corner_mid(idx, base, pairs, k) == base + pairs.index_of(s[k]) by {
        assert(s.contains(s[k]));
    }
    assert forall|k: int| 0 <= k < idx.len() implies base <= #[trigger] corner_mid(
        idx,
        base,
        pairs,
        k,
    ) < base + pairs.len() by {
        assert(pairs.contains(s[k]));
    }
    assert forall|k1: int, k2: int| 0 <= k1 < idx.len() && 0 <= k2 < idx.len() implies (
    #[trigger] corner_mid(idx, base, pairs, k1) == #[trigger] corner_mid(idx, base, pairs, k2)
        <==> s[k1] == s[k2]) by {
        assert(pairs.contains(s[k1]));
        assert(pairs.contains(s[k2]));
    }
}

/// Two corners of one triangle whose edges are both edges of another
/// triangle's two corners are those very corners.
proof fn lemma_two_shared_edges(idx: Seq<u32>, nv: int, x1: int, y1: int, x2: int, y2: int)
    requires
        closed_mesh(idx, nv),
        0 <= x1 < idx.len(),
        0 <= x2 < idx.len(),
        y1 == corner_successor(x1) || y1 == corner_predecessor(x1),
        y2 == corner_successor(x2) || y2 == corner_predecessor(x2),
        triangle_edges(idx)[x1] == triangle_edges(idx)[x2],
        triangle_edges(idx)[y1] == triangle_edges(idx)[y2],
    ensures
        x1 == x2,
        y1 == y2,
{
    lemma_corner_positions(x1);
    lemma_corner_positions(x2);
    lemma_triangle_vertices(idx, x1);
    lemma_triangle_vertices(idx, x2);
    let s = triangle_edges(idx);
    assert(s[x1] == edge_key(idx[x1], idx[corner_successor(x1)]));
    assert(s[x2] == edge_key(idx[x2], idx[corner_successor(x2)]));
    assert(s[y1] == edge_key(idx[y1], idx[corner_successor(y1)]));
    assert(s[y2] == edge_key(idx[y2], idx[corner_successor(y2)]));
    assert(corner_successor(corner_successor(x1)) == corner_predecessor(x1));
    assert(corner_successor(corner_successor(x2)) == corner_predecessor(x2));
    if directed_edge(idx, x1) == directed_edge(idx, x2) {
        assert(x1 == x2);
        lemma_corner_determined(idx, y1, y2);
    } else if directed_edge(idx, y1) == directed_edge(idx, y2) {
        assert(y1 == y2);
        lemma_corner_determined(idx, x1, x2);
    } else {
        assert(directed_edge(idx, x2) == reversed(directed_edge(idx, x1)));
        assert(directed_edge(idx, y2) == reversed(directed_edge(idx, y1)));
        if y1 == corner_predecessor(x1) {
            assert(idx[y2] == idx[corner_successor(x2)]);
            lemma_corner_determined(idx, corner_successor(x2), y2);
            assert(idx[corner_predecessor(x2)] == idx[corner_predecessor(x1)]);
        } else {
            assert(idx[corner_successor(y2)] == idx[x2]);
            lemma_corner_determined(idx, x2, corner_successor(y2));
            assert(idx[corner_predecessor(y2)] == idx[corner_predecessor(y1)]);
        }
    }
}

proof fn lemma_position_determined(p1: int, p2: int)
    requires
        0 <= p1,
        0 <= p2,
        parent_corner(p1) == parent_corner(p2),
        (p1 % 12 >= 9) == (p2 % 12 >= 9),
        p1 % 3 == p2 % 3,
    ensures
        p1 == p2,
{
    assert(p1 == 12 * (p1 / 12) + p1 % 12);
    assert(p2 == 12 * (p2 / 12) + p2 % 12);
    assert(p1 % 3 == (p1 % 12) % 3);
    assert(p2 % 3 == (p2 % 12) % 3);
}

/// The facts the proofs about one subdivision step start from.
spec fn step_ready(idx: Seq<u32>, base: int) -> bool {
    &&& closed_mesh(idx, base)
    &&& 0 <= base
    &&& base + first_occurrences(triangle_edges(idx)).len() <= u32::MAX
}

proof fn lemma_step_split(idx: Seq<u32>, base: int, p: int)
    requires
        step_ready(idx, base),
        0 <= p < 4 * idx.len(),
    ensures
        ({
            let pairs = first_occurrences(triangle_edges(idx));
            let n = subdivided(idx, base, pairs);
            let e = split_edge(idx, base, pairs, p);
            let k = parent_corner(p);
            &&& n.len() == 4 * idx.len()
            &&& 0 <= k < idx.len()
            &&& k / 3 == p / 12
            &&& 0 <= corner_successor(p) < n.len()
            &&& 0 <= corner_predecessor(p) < n.len()
            &&& (n[p] as int, n[corner_successor(p)] as int) == e
            &&& n[corner_predecessor(p)] as int == split_opposite(idx, base, pairs, p)
            &&& 0 <= e.0 < base + pairs.len()
            &&& 0 <= e.1 < base + pairs.len()
            &&& (p % 12 < 9 && p % 3 == 0 ==> e.0 < base <= e.1)
            &&& (p % 12 < 9 && p % 3 == 2 ==> e.1 < base <= e.0)
            &&& (p % 12 >= 9 || p % 3 == 1 ==> base <= e.0 && base <= e.1)
            &&& (p % 12 < 9 && p % 3 == 1 ==> split_opposite(idx, base, pairs, p) < base)
            &&& (p % 12 >= 9 ==> base <= split_opposite(idx, base, pairs, p))
        }),
{
    let pairs = first_occurrences(triangle_edges(idx));
    lemma_mid_all(idx, base);
    lemma_split(idx, base, pairs, p);
    let k = parent_corner(p);
    lemma_corner_positions(k);
    lemma_triangle_vertices(idx, k);
    assert(idx[k] < base);
    assert(p % 3 == (p % 12) % 3) by {
        assert(p == 12 * (p / 12) + p % 12);
    }
}

proof fn lemma_step_basic(idx: Seq<u32>, base: int)
    requires
        step_ready(idx, base),
    ensures
        ({
            let pairs = first_occurrences(triangle_edges(idx));
            let n = subdivided(idx, base, pairs);
            &&& n.len() % 3 == 0
            &&& indices_below(n, base + pairs.len())
            &&& corners_distinct(n)
        }),
{
    let pairs = first_occurrences(triangle_edges(idx));
    let n = subdivided(idx, base, pairs);
    lemma_mid_all(idx, base);
    assert(n.len() == 4 * idx.len());
    assert forall|p: int| 0 <= p < n.len() implies #[trigger] n[p] < base + pairs.len() by {
        lemma_step_split(idx, base, p);
    }
    assert forall|p: int| 0 <= p < n.len() implies (#[trigger] directed_edge(n, p)).0
        != directed_edge(n, p).1 by {
        lemma_step_split(idx, base, p);
        let k = parent_corner(p);
        lemma_corner_positions(k);
        lemma_triangle_vertices(idx, k);
        lemma_corner_determined(idx, k, corner_successor(k));
        lemma_corner_determined(idx, k, corner_predecessor(k));
    }
}

proof fn lemma_step_unique(idx: Seq<u32>, base: int, p1: int, p2: int)
    requires
        step_ready(idx, base),
        0 <= p1 < 4 * idx.len(),
        0 <= p2 < 4 * idx.len(),
        directed_edge(subdivided(idx, base, first_occurrences(triangle_edges(idx))), p1)
            == directed_edge(subdivided(idx, base, first_occurrences(triangle_edges(idx))), p2),
    ensures
        p1 == p2,
{
    let pairs = first_occurrences(triangle_edges(idx));
    let s = triangle_edges(idx);
    lemma_mid_all(idx, base);
    lemma_step_split(idx, base, p1);
    lemma_step_split(idx, base, p2);
    let k1 = parent_corner(p1);
    let k2 = parent_corner(p2);
    lemma_corner_positions(k1);
    lemma_corner_positions(k2);
    lemma_triangle_vertices(idx, k1);
    lemma_triangle_vertices(idx, k2);
    assert(s[k1] == edge_key(idx[k1], idx[corner_successor(k1)]));
    assert(s[k2] == edge_key(idx[k2], idx[corner_successor(k2)]));
    let c1 = corner_predecessor(k1);
    let c2 = corner_predecessor(k2);
    assert(s[c1] == edge_key(idx[c1], idx[corner_successor(c1)]));
    assert(s[c2] == edge_key(idx[c2], idx[corner_successor(c2)]));
    if p1 % 12 < 9 && p1 % 3 == 0 {
        assert(directed_edge(idx, k1) == directed_edge(idx, k2));
        lemma_position_determined(p1, p2);
    } else if p1 % 12 < 9 && p1 % 3 == 2 {
        assert(directed_edge(idx, c1) == directed_edge(idx, c2));
        lemma_position_determined(p1, p2);
    } else {
        let y1 = if p1 % 12 >= 9 {
            corner_successor(k1)
        } else {
            c1
        };
        let y2 = if p2 % 12 >= 9 {
            corner_successor(k2)
        } else {
            c2
        };
        lemma_two_shared_edges(idx, base, k1, y1, k2, y2);
        lemma_position_determined(p1, p2);
    }
}

/// Position of the `r`-th edge of the corner triangle at coarse corner `k`.
spec fn corner_child(k: int, r: int) -> int {
    12 * (k / 3) + 3 * (k % 3) + r
}

/// Position of the edge of the centre triangle that starts at the midpoint
/// of the edge leaving coarse corner `k`.
spec fn centre_child(k: int) -> int {
    12 * (k / 3) + 9 + k % 3
}

proof fn lemma_child_positions(k: int, len: int, r: int)
    requires
        0 <= k < len,
        len % 3 == 0,
        0 <= r < 3,
    ensures
        0 <= corner_child(k, r) < 4 * len,
        parent_corner(corner_child(k, r)) == k,
        corner_child(k, r) % 12 < 9,
        corner_child(k, r) % 3 == r,
        0 <= centre_child(k) < 4 * len,
        parent_corner(centre_child(k)) == k,
        centre_child(k) % 12 >= 9,
{
    let t = k / 3;
    assert(k == 3 * t + k % 3);
    assert(len == 3 * (len / 3));
    assert(t < len / 3);
    let a = corner_child(k, r);
    assert(a / 12 == t && a % 12 == 3 * (k % 3) + r);
    let b = centre_child(k);
    assert(b / 12 == t && b % 12 == 9 + k % 3);
}

proof fn lemma_step_paired(idx: Seq<u32>, base: int, p: int)
    requires
        step_ready(idx, base),
        0 <= p < 4 * idx.len(),
    ensures
        has_twin(subdivided(idx, base, first_occurrences(triangle_edges(idx))), p),
{
    let pairs = first_occurrences(triangle_edges(idx));
    let n = subdivided(idx, base, pairs);
    let s = triangle_edges(idx);
    lemma_mid_all(idx, base);
    lemma_step_split(idx, base, p);
    let k = parent_corner(p);
    lemma_corner_positions(k);
    lemma_triangle_vertices(idx, k);
    let len = idx.len() as int;
    let q = if p % 12 >= 9 {
        lemma_child_positions(corner_successor(k), len, 1);
        corner_child(corner_successor(k), 1)
    } else if p % 3 == 1 {
        lemma_child_positions(corner_predecessor(k), len, 0);
        centre_child(corner_predecessor(k))
    } else if p % 3 == 0 {
        assert(has_twin(idx, k));
        let k2 = choose|k2: int|
            0 <= k2 < idx.len() && #[trigger] directed_edge(idx, k2) == reversed(
                directed_edge(idx, k),
            );
        lemma_edge_in_two_triangles(idx, base, k, k2, k);
        lemma_corner_positions(k2);
        lemma_triangle_vertices(idx, k2);
        lemma_child_positions(corner_successor(k2), len, 2);
        assert(corner_predecessor(corner_successor(k2)) == k2);
        corner_child(corner_successor(k2), 2)
    } else {
        let c = corner_predecessor(k);
        assert(has_twin(idx, c));
        let k2 = choose|k2: int|
            0 <= k2 < idx.len() && #[trigger] directed_edge(idx, k2) == reversed(
                directed_edge(idx, c),
            );
        lemma_corner_positions(c);
        lemma_edge_in_two_triangles(idx, base, c, k2, c);
        lemma_child_positions(k2, len, 0);
        corner_child(k2, 0)
    };
    lemma_step_split(idx, base, q);
    let kq = parent_corner(q);
    lemma_corner_positions(kq);
    assert(directed_edge(n, q) == reversed(directed_edge(n, p)));
}

proof fn lemma_step_fold_half(idx: Seq<u32>, base: int, p1: int, p2: int)
    requires
        step_ready(idx, base),
        0 <= p1 < 4 * idx.len(),
        0 <= p2 < 4 * idx.len(),
        p1 % 12 < 9 && p1 % 3 == 0,
        directed_edge(subdivided(idx, base, first_occurrences(triangle_edges(idx))), p2)
            == reversed(
            directed_edge(subdivided(idx, base, first_occurrences(triangle_edges(idx))), p1),
        ),
    ensures
        ({
            let n = subdivided(idx, base, first_occurrences(triangle_edges(idx)));
            n[corner_predecessor(p2)] != n[corner_predecessor(p1)]
        }),
{
    let pairs = first_occurrences(triangle_edges(idx));
    let n = subdivided(idx, base, pairs);
    let s = triangle_edges(idx);
    lemma_mid_all(idx, base);
    lemma_step_split(idx, base, p1);
    lemma_step_split(idx, base, p2);
    let k1 = parent_corner(p1);
    let k2 = parent_corner(p2);
    lemma_corner_positions(k1);
    lemma_corner_positions(k2);
    assert(p2 % 12 < 9 && p2 % 3 == 2);
    if n[corner_predecessor(p2)] == n[corner_predecessor(p1)] {
        let c1 = corner_predecessor(k1);
        let c2 = corner_predecessor(k2);
        assert(corner_successor(c2) == k2);
        lemma_two_shared_edges(idx, base, k1, c1, c2, k2);
        lemma_corner_positions(c1);
    }
}

proof fn lemma_step_folded(idx: Seq<u32>, base: int, p1: int, p2: int)
    requires
        step_ready(idx, base),
        0 <= p1 < 4 * idx.len(),
        0 <= p2 < 4 * idx.len(),
        directed_edge(subdivided(idx, base, first_occurrences(triangle_edges(idx))), p2)
            == reversed(
            directed_edge(subdivided(idx, base, first_occurrences(triangle_edges(idx))), p1),
        ),
    ensures
        ({
            let n = subdivided(idx, base, first_occurrences(triangle_edges(idx)));
            n[corner_predecessor(p2)] != n[corner_predecessor(p1)]
        }),
{
    let pairs = first_occurrences(triangle_edges(idx));
    let n = subdivided(idx, base, pairs);
    lemma_mid_all(idx, base);
    lemma_step_split(idx, base, p1);
    lemma_step_split(idx, base, p2);
    if p1 % 12 < 9 && p1 % 3 == 0 {
        lemma_step_fold_half(idx, base, p1, p2);
    } else if p1 % 12 < 9 && p1 % 3 == 2 {
        lemma_step_fold_half(idx, base, p2, p1);
    } else {
        let k1 = parent_corner(p1);
        let k2 = parent_corner(p2);
        lemma_corner_positions(k1);
        lemma_corner_positions(k2);
        let y1 = if p1 % 12 >= 9 {
            corner_successor(k1)
        } else {
            corner_predecessor(k1)
        };
        let y2 = if p2 % 12 >= 9 {
            corner_successor(k2)
        } else {
            corner_predecessor(k2)
        };
        lemma_corner_positions(y2);
        lemma_two_shared_edges(idx, base, k1, y1, y2, k2);
        lemma_corner_positions(y1);
    }
}

proof fn lemma_step_closed(idx: Seq<u32>, base: int)
    requires
        step_ready(idx, base),
    ensures
        closed_mesh(
            subdivided(idx, base, first_occurrences(triangle_edges(idx))),
            base + first_occurrences(triangle_edges(idx)).len(),
        ),
{
    let pairs = first_occurrences(triangle_edges(idx));
    let n = subdivided(idx, base, pairs);
    lemma_step_basic(idx, base);
    assert(n.len() == 4 * idx.len());
    assert forall|p1: int, p2: int|
        0 <= p1 < n.len() && 0 <= p2 < n.len() && #[trigger] directed_edge(n, p1)
            == #[trigger] directed_edge(n, p2) implies p1 == p2 by {
        lemma_step_unique(idx, base, p1, p2);
    }
    assert forall|p: int| 0 <= p < n.len() implies #[trigger] has_twin(n, p) by {
        lemma_step_paired(idx, base, p);
    }
    assert forall|p1: int, p2: int|
        0 <= p1 < n.len() && 0 <= p2 < n.len() && #[trigger] directed_edge(n, p2)
            == reversed(#[trigger] directed_edge(n, p1)) implies n[corner_predecessor(p2)]
            != n[corner_predecessor(p1)] by {
        lemma_step_folded(idx, base, p1, p2);
    }
}

/// After any number of subdivisions (up to [`MAX_SUBDIVISIONS`]) the sphere
/// mesh is closed: every index names one of its vertices, no triangle repeats
/// a vertex, every directed edge occurs once and is walked backwards by
/// exactly one other triangle (see [`lemma_edge_in_two_triangles`]), and the
/// two triangles at an edge have different third vertices.  It has
/// `20 * 4^n` triangles, `30 * 4^n` edges and `10 * 4^n + 2` vertices.
pub proof fn lemma_icosphere_closed(n: nat)
    requires
        n <= MAX_SUBDIVISIONS,
    ensures
        closed_mesh(icosphere_level(n).0, 12 + icosphere_level(n).1.len() as int),
        icosphere_level(n).0.len() == 60 * pow4(n),
        2 * first_occurrences(triangle_edges(icosphere_level(n).0)).len() == 60 * pow4(n),
        12 + icosphere_level(n).1.len() == 10 * pow4(n) + 2,
    decreases n,
{
    if n == 0 {
        lemma_base_closed();
        assert(pow4(0) == 1);
    } else {
        let m = (n - 1) as nat;
        lemma_icosphere_closed(m);
        let prev = icosphere_level(m);
        let base = 12 + prev.1.len() as int;
        let pairs = first_occurrences(triangle_edges(prev.0));
        lemma_closed_edges_twice(prev.0, base);
        lemma_pow4_bounds(m);
        assert(pow4(n) == 4 * pow4(m));
        assert(step_ready(prev.0, base));
        lemma_step_closed(prev.0, base);
        assert(icosphere_level(n).1.len() == prev.1.len() + pairs.len());
    }
    lemma_closed_edges_twice(icosphere_level(n).0, 12 + icosphere_level(n).1.len() as int);
}

} // verus!
