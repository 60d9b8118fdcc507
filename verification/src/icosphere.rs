//! Topology of the icosphere mesh used to draw bodies.
//!
//! The sphere mesh starts from the twenty faces of an icosahedron and splits
//! every triangle into four at each subdivision level.  Each edge gets one
//! midpoint vertex that is shared by the two triangles meeting at that edge.
//! This module computes the triangle index buffer and, for every vertex that a
//! subdivision creates, the pair of vertices it is the midpoint of.  The vertex
//! positions themselves (normalised midpoints on the unit sphere) are computed
//! by the caller from that list.
use vstd::prelude::*;
use std::collections::HashMap;

verus! {

broadcast use vstd::std_specs::hash::group_hash_axioms;

/// Number of vertices of the base icosahedron.
pub const BASE_VERTEX_COUNT: u32 = 12;

/// Largest number of subdivision levels whose index buffer still fits in `u32`.
pub const MAX_SUBDIVISIONS: u32 = 13;

/// The undirected edge between `a` and `b`, smaller vertex first.
pub open spec fn edge_key(a: u32, b: u32) -> (u32, u32) {
    if a < b {
        (a, b)
    } else {
        (b, a)
    }
}

/// The corner that follows corner `k` inside its triangle (a -> b -> c -> a).
pub open spec fn corner_successor(k: int) -> int {
    if k % 3 == 2 {
        k - 2
    } else {
        k + 1
    }
}

/// The edges in the order in which subdivision visits them: for every
/// triangle `(a, b, c)` the edges `ab`, `bc` and `ca`.
pub open spec fn triangle_edges(idx: Seq<u32>) -> Seq<(u32, u32)> {
    Seq::new(idx.len(), |k: int| edge_key(idx[k], idx[corner_successor(k)]))
}

/// `s` with every element kept only at its first occurrence.
pub open spec fn first_occurrences<A>(s: Seq<A>) -> Seq<A>
    decreases s.len(),
{
    if s.len() == 0 {
        Seq::empty()
    } else {
        let prev = first_occurrences(s.drop_last());
        if prev.contains(s.last()) {
            prev
        } else {
            prev.push(s.last())
        }
    }
}

/// Index of the midpoint vertex of edge `(a, b)`, when the new vertices are
/// numbered from `base` in the order of `pairs`.
pub open spec fn midpoint_vertex(pairs: Seq<(u32, u32)>, base: int, a: u32, b: u32) -> int {
    base + pairs.index_of(edge_key(a, b))
}

/// Entry `k` of the index buffer after one subdivision: triangle `(a, b, c)`
/// becomes `(a, ab, ca)`, `(b, bc, ab)`, `(c, ca, bc)` and `(ab, bc, ca)`.
pub open spec fn subdivided_index(idx: Seq<u32>, base: int, pairs: Seq<(u32, u32)>, k: int) -> int {
    let t = k / 12;
    let j = k % 12;
    let a = idx[3 * t];
    let b = idx[3 * t + 1];
    let c = idx[3 * t + 2];
    let ab = midpoint_vertex(pairs, base, a, b);
    let bc = midpoint_vertex(pairs, base, b, c);
    let ca = midpoint_vertex(pairs, base, c, a);
    if j == 0 {
        a as int
    } else if j == 1 {
        ab
    } else if j == 2 {
        ca
    } else if j == 3 {
        b as int
    } else if j == 4 {
        bc
    } else if j == 5 {
        ab
    } else if j == 6 {
        c as int
    } else if j == 7 {
        ca
    } else if j == 8 {
        bc
    } else if j == 9 {
        ab
    } else if j == 10 {
        bc
    } else {
        ca
    }
}

/// The whole index buffer after one subdivision.
pub open spec fn subdivided(idx: Seq<u32>, base: int, pairs: Seq<(u32, u32)>) -> Seq<u32> {
    Seq::new(4 * idx.len(), |k: int| subdivided_index(idx, base, pairs, k) as u32)
}

/// The twenty faces of the base icosahedron.
pub open spec fn base_triangles() -> Seq<u32> {
    seq![
        0, 11, 5, 0, 5, 1, 0, 1, 7, 0, 7, 10, 0, 10, 11,
        1, 5, 9, 5, 11, 4, 11, 10, 2, 10, 7, 6, 7, 1, 8,
        3, 9, 4, 3, 4, 2, 3, 2, 6, 3, 6, 8, 3, 8, 9,
        4, 9, 5, 2, 4, 11, 6, 2, 10, 8, 6, 7, 9, 8, 1,
    ]
}

/// Index buffer and created midpoints after `n` subdivisions.  Vertex
/// `12 + i` is the midpoint of `level.1[i]`.
pub open spec fn icosphere_level(n: nat) -> (Seq<u32>, Seq<(u32, u32)>)
    decreases n,
{
    if n == 0 {
        (base_triangles(), Seq::empty())
    } else {
        let prev = icosphere_level((n - 1) as nat);
        let pairs = first_occurrences(triangle_edges(prev.0));
        (subdivided(prev.0, 12 + prev.1.len() as int, pairs), prev.1 + pairs)
    }
}

/// `4^n`.
pub open spec fn pow4(n: nat) -> nat
    decreases n,
{
    if n == 0 {
        1
    } else {
        4 * pow4((n - 1) as nat)
    }
}

/// Key under which the midpoint cache stores an edge.
pub open spec fn edge_code(e: (u32, u32)) -> u64 {
    (e.0 as int * 0x1_0000_0000 + e.1 as int) as u64
}

/// The midpoint cache maps the code of every recorded edge to its vertex.
pub open spec fn cache_matches(cache: Map<u64, u32>, pairs: Seq<(u32, u32)>, base: int) -> bool {
    &&& forall|i: int|
        0 <= i < pairs.len() ==> #[trigger] cache.contains_key(edge_code(pairs[i]))
            && cache[edge_code(pairs[i])] == base + i
    &&& forall|c: u64|
        #[trigger] cache.contains_key(c) ==> exists|i: int|
            0 <= i < pairs.len() && edge_code(pairs[i]) == c
}

proof fn lemma_edge_code_injective(e: (u32, u32), f: (u32, u32))
    requires
        edge_code(e) == edge_code(f),
    ensures
        e == f,
{
    let x = e.0 as int * 0x1_0000_0000 + e.1 as int;
    let y = f.0 as int * 0x1_0000_0000 + f.1 as int;
    assert(0 <= x < 0x1_0000_0000_0000_0000 && 0 <= y < 0x1_0000_0000_0000_0000) by (nonlinear_arith)
        requires
            x == e.0 as int * 0x1_0000_0000 + e.1 as int,
            y == f.0 as int * 0x1_0000_0000 + f.1 as int,
            0 <= e.0 < 0x1_0000_0000,
            0 <= e.1 < 0x1_0000_0000,
            0 <= f.0 < 0x1_0000_0000,
            0 <= f.1 < 0x1_0000_0000,
    ;
    assert(x == y);
    assert(e.0 == f.0 && e.1 == f.1) by (nonlinear_arith)
        requires
            e.0 as int * 0x1_0000_0000 + e.1 as int == f.0 as int * 0x1_0000_0000 + f.1 as int,
            0 <= e.1 < 0x1_0000_0000,
            0 <= f.1 < 0x1_0000_0000,
    ;
}

pub(crate) proof fn lemma_index_of_at<A>(s: Seq<A>, i: int)
    requires
        s.no_duplicates(),
        0 <= i < s.len(),
    ensures
        s.index_of(s[i]) == i,
        s.contains(s[i]),
{
    assert(s.contains(s[i]));
    let j = s.index_of(s[i]);
    assert(0 <= j < s.len() && s[j] == s[i]);
}

proof fn lemma_no_duplicates_push<A>(s: Seq<A>, x: A)
    requires
        s.no_duplicates(),
        !s.contains(x),
    ensures
        s.push(x).no_duplicates(),
{
    let t = s.push(x);
    assert forall|a: int, b: int| 0 <= a < t.len() && 0 <= b < t.len() && a != b implies t[a]
        != t[b] by {
        if a < s.len() && b < s.len() {
            assert(t[a] == s[a] && t[b] == s[b]);
        } else if a == s.len() {
            assert(t[a] == x);
            assert(t[b] == s[b]);
        } else {
            assert(t[b] == x);
            assert(t[a] == s[a]);
        }
    }
}

proof fn lemma_index_of_push<A>(s: Seq<A>, x: A, e: A)
    requires
        s.no_duplicates(),
        !s.contains(x),
        s.contains(e),
    ensures
        s.push(x).no_duplicates(),
        s.push(x).index_of(e) == s.index_of(e),
        0 <= s.index_of(e) < s.len(),
{
    let i = s.index_of(e);
    assert(0 <= i < s.len() && s[i] == e);
    let t = s.push(x);
    lemma_no_duplicates_push(s, x);
    assert(t[i] == e);
    lemma_index_of_at(t, i);
}

pub(crate) proof fn lemma_first_occurrences_facts<A>(s: Seq<A>)
    ensures
        first_occurrences(s).no_duplicates(),
        first_occurrences(s).len() <= s.len(),
        forall|x: A| first_occurrences(s).contains(x) <==> s.contains(x),
    decreases s.len(),
{
    if s.len() > 0 {
        let prev = first_occurrences(s.drop_last());
        lemma_first_occurrences_facts(s.drop_last());
        assert forall|x: A| s.contains(x) <==> (s.drop_last().contains(x) || x == s.last()) by {
            if s.contains(x) {
                let k = choose|k: int| 0 <= k < s.len() && s[k] == x;
                if k < s.len() - 1 {
                    assert(s.drop_last()[k] == x);
                }
            }
            if s.drop_last().contains(x) {
                let k = choose|k: int| 0 <= k < s.drop_last().len() && s.drop_last()[k] == x;
                assert(s[k] == x);
            }
            if x == s.last() {
                assert(s[s.len() - 1] == x);
            }
        }
        if !prev.contains(s.last()) {
            let t = prev.push(s.last());
            assert forall|x: A| t.contains(x) <==> (prev.contains(x) || x == s.last()) by {
                if t.contains(x) {
                    let k = choose|k: int| 0 <= k < t.len() && t[k] == x;
                    if k < prev.len() {
                        assert(prev[k] == x);
                    }
                }
                if prev.contains(x) {
                    let k = choose|k: int| 0 <= k < prev.len() && prev[k] == x;
                    assert(t[k] == x);
                }
                if x == s.last() {
                    assert(t[prev.len() as int] == x);
                }
            }
            assert forall|a: int, b: int| 0 <= a < t.len() && 0 <= b < t.len() && a != b implies t[a]
                != t[b] by {
                if a == prev.len() {
                    assert(t[b] == prev[b]);
                } else if b == prev.len() {
                    assert(t[a] == prev[a]);
                }
            }
        }
    }
}

proof fn lemma_triangle_edges_at(idx: Seq<u32>, t: int)
    requires
        0 <= t,
        3 * t + 3 <= idx.len(),
    ensures
        triangle_edges(idx)[3 * t] == edge_key(idx[3 * t], idx[3 * t + 1]),
        triangle_edges(idx)[3 * t + 1] == edge_key(idx[3 * t + 1], idx[3 * t + 2]),
        triangle_edges(idx)[3 * t + 2] == edge_key(idx[3 * t + 2], idx[3 * t]),
{
    assert((3 * t) % 3 == 0);
    assert((3 * t + 1) % 3 == 1);
    assert((3 * t + 2) % 3 == 2);
    assert(corner_successor(3 * t) == 3 * t + 1);
    assert(corner_successor(3 * t + 1) == 3 * t + 2);
    assert(corner_successor(3 * t + 2) == 3 * t);
}

/// Extending the midpoint list with a new edge does not move the midpoints of
/// the triangles that are already subdivided.
proof fn lemma_subdivided_prefix_stable(
    idx: Seq<u32>,
    base: int,
    s: Seq<(u32, u32)>,
    x: (u32, u32),
    t: int,
)
    requires
        s.no_duplicates(),
        !s.contains(x),
        0 <= t,
        3 * t <= idx.len(),
        forall|m: int| 0 <= m < 3 * t ==> s.contains(#[trigger] triangle_edges(idx)[m]),
    ensures
        forall|k: int|
            0 <= k < 12 * t ==> subdivided_index(idx, base, s, k) == subdivided_index(
                idx,
                base,
                s.push(x),
                k,
            ),
{
    assert forall|k: int| 0 <= k < 12 * t implies subdivided_index(idx, base, s, k)
        == subdivided_index(idx, base, s.push(x), k) by {
        let tt = k / 12;
        assert(0 <= tt < t);
        lemma_triangle_edges_at(idx, tt);
        assert(s.contains(triangle_edges(idx)[3 * tt]));
        assert(s.contains(triangle_edges(idx)[3 * tt + 1]));
        assert(s.contains(triangle_edges(idx)[3 * tt + 2]));
        lemma_index_of_push(s, x, triangle_edges(idx)[3 * tt]);
        lemma_index_of_push(s, x, triangle_edges(idx)[3 * tt + 1]);
        lemma_index_of_push(s, x, triangle_edges(idx)[3 * tt + 2]);
    }
}

proof fn lemma_push_keeps_contains<A>(s: Seq<A>, e: A)
    ensures
        forall|x: A| s.contains(x) ==> #[trigger] s.push(e).contains(x),
        s.push(e).contains(e),
{
    assert forall|x: A| s.contains(x) implies #[trigger] s.push(e).contains(x) by {
        let i = choose|i: int| 0 <= i < s.len() && s[i] == x;
        assert(s.push(e)[i] == x);
    }
    assert(s.push(e)[s.len() as int] == e);
}

/// One step of `first_occurrences` over the prefix of a sequence.
proof fn lemma_first_occurrences_take_step<A>(s: Seq<A>, m: int)
    requires
        0 <= m < s.len(),
    ensures
        first_occurrences(s.take(m + 1)) == (if first_occurrences(s.take(m)).contains(s[m]) {
            first_occurrences(s.take(m))
        } else {
            first_occurrences(s.take(m)).push(s[m])
        }),
{
    assert(s.take(m + 1).drop_last() =~= s.take(m));
    assert(s.take(m + 1).last() == s[m]);
}

/// Subdivides triangle `t`, extending the midpoint cache, the midpoint list
/// and the output index buffer.
#[verifier::rlimit(40)]
fn subdivide_triangle(
    indices: &Vec<u32>,
    base: u32,
    t: usize,
    cache: &mut HashMap<u64, u32>,
    pairs: &mut Vec<(u32, u32)>,
    out: &mut Vec<u32>,
)
    requires
        3 * t + 3 <= indices.len(),
        forall|i: int| 0 <= i < indices.len() ==> indices[i] < base,
        base + indices.len() <= u32::MAX,
        old(pairs)@ == first_occurrences(triangle_edges(indices@).take(3 * t as int)),
        old(pairs)@.no_duplicates(),
        old(pairs).len() <= 3 * t,
        cache_matches(old(cache)@, old(pairs)@, base as int),
        forall|m: int| 0 <= m < 3 * t ==> old(pairs)@.contains(#[trigger] triangle_edges(indices@)[m]),
        old(out).len() == 12 * t,
        forall|k: int|
            0 <= k < 12 * t ==> old(out)[k] as int == subdivided_index(
                indices@,
                base as int,
                old(pairs)@,
                k,
            ),
    ensures
        final(pairs)@ == first_occurrences(triangle_edges(indices@).take(3 * t + 3)),
        final(pairs)@.no_duplicates(),
        final(pairs).len() <= 3 * t + 3,
        cache_matches(final(cache)@, final(pairs)@, base as int),
        forall|m: int| 0 <= m < 3 * t + 3 ==> final(pairs)@.contains(#[trigger] triangle_edges(indices@)[m]),
        final(out).len() == 12 * t + 12,
        forall|k: int|
            0 <= k < 12 * t + 12 ==> final(out)[k] as int == subdivided_index(
                indices@,
                base as int,
                final(pairs)@,
                k,
            ),
{
    let ghost edges = triangle_edges(indices@);
        let a = indices[3 * t];
        let b = indices[3 * t + 1];
        let c = indices[3 * t + 2];
        proof {
            lemma_triangle_edges_at(indices@, t as int);
        }
        let ghost p0 = pairs@;
        let ab = midpoint(cache, pairs, base, a, b);
        proof {
            lemma_first_occurrences_take_step(edges, 3 * t as int);
            lemma_push_keeps_contains(p0, edge_key(a, b));
            if !p0.contains(edge_key(a, b)) {
                lemma_subdivided_prefix_stable(indices@, base as int, p0, edge_key(a, b), t as int);
            }
        }
        let ghost p1 = pairs@;
        let bc = midpoint(cache, pairs, base, b, c);
        proof {
            lemma_first_occurrences_take_step(edges, 3 * t + 1);
            lemma_push_keeps_contains(p1, edge_key(b, c));
            if !p1.contains(edge_key(b, c)) {
                lemma_subdivided_prefix_stable(indices@, base as int, p1, edge_key(b, c), t as int);
                lemma_index_of_push(p1, edge_key(b, c), edge_key(a, b));
            }
        }
        let ghost p2 = pairs@;
        let ca = midpoint(cache, pairs, base, c, a);
        proof {
            lemma_first_occurrences_take_step(edges, 3 * t + 2);
            lemma_push_keeps_contains(p2, edge_key(c, a));
            if !p2.contains(edge_key(c, a)) {
                lemma_subdivided_prefix_stable(indices@, base as int, p2, edge_key(c, a), t as int);
                lemma_index_of_push(p2, edge_key(c, a), edge_key(a, b));
                lemma_index_of_push(p2, edge_key(c, a), edge_key(b, c));
            }
            assert(ab as int == midpoint_vertex(pairs@, base as int, a, b));
            assert(bc as int == midpoint_vertex(pairs@, base as int, b, c));
            assert(ca as int == midpoint_vertex(pairs@, base as int, c, a));
            assert forall|m: int| 0 <= m < 3 * (t + 1) implies pairs@.contains(#[trigger] edges[m]) by {
                if m < 3 * t {
                    assert(p0.contains(edges[m]));
                    assert(p1.contains(edges[m]));
                    assert(p2.contains(edges[m]));
                } else if m == 3 * t {
                    assert(p1.contains(edges[m]));
                    assert(p2.contains(edges[m]));
                } else if m == 3 * t + 1 {
                    assert(p2.contains(edges[m]));
                }
            }
        }
        let ghost out0 = out@;
        out.push(a);
        out.push(ab);
        out.push(ca);
        out.push(b);
        out.push(bc);
        out.push(ab);
        out.push(c);
        out.push(ca);
        out.push(bc);
        out.push(ab);
        out.push(bc);
        out.push(ca);
        proof {
            assert forall|k: int| 0 <= k < 12 * (t + 1) implies out[k] as int == subdivided_index(
                indices@,
                base as int,
                pairs@,
                k,
            ) by {
                if k < 12 * t {
                    assert(out[k] == out0[k]);
                } else {
                    let j = k - 12 * t;
                    assert(k / 12 == t as int);
                    assert(k % 12 == j);
                }
            }
        }
}

/// Splits every triangle of `indices` into four.  New vertices are numbered
/// from `base` on; the second result lists, in that order, the edge whose
/// midpoint each new vertex is.  Every edge gets exactly one midpoint, so two
/// triangles that share an edge share its midpoint.
pub fn subdivide(indices: &Vec<u32>, base: u32) -> (res: (Vec<u32>, Vec<(u32, u32)>))
    requires
        indices.len() % 3 == 0,
        forall|i: int| 0 <= i < indices.len() ==> indices[i] < base,
        base + indices.len() <= u32::MAX,
        4 * indices.len() <= usize::MAX,
    ensures
        res.1@ == first_occurrences(triangle_edges(indices@)),
        res.0@ == subdivided(indices@, base as int, res.1@),
        res.1.len() <= indices.len(),
        forall|k: int| 0 <= k < res.0.len() ==> res.0[k] < base + res.1.len(),
        forall|i: int| 0 <= i < res.1.len() ==> (#[trigger] res.1[i]).0 <= res.1[i].1 < base,
{
    let ntri = indices.len() / 3;
    let ghost edges = triangle_edges(indices@);
    let mut cache: HashMap<u64, u32> = HashMap::new();
    let mut pairs: Vec<(u32, u32)> = Vec::new();
    let mut out: Vec<u32> = Vec::with_capacity(indices.len() * 4);
    let mut t: usize = 0;
    proof {
        assert(edges.take(0) =~= Seq::<(u32, u32)>::empty());
    }
    while t < ntri
        invariant
            ntri * 3 == indices.len(),
            0 <= t <= ntri,
            forall|i: int| 0 <= i < indices.len() ==> indices[i] < base,
            base + indices.len() <= u32::MAX,
            edges == triangle_edges(indices@),
            pairs@ == first_occurrences(edges.take(3 * t as int)),
            pairs@.no_duplicates(),
            pairs.len() <= 3 * t,
            cache_matches(cache@, pairs@, base as int),
            forall|m: int| 0 <= m < 3 * t ==> pairs@.contains(#[trigger] edges[m]),
            out.len() == 12 * t,
            forall|k: int|
                0 <= k < 12 * t ==> out[k] as int == subdivided_index(
                    indices@,
                    base as int,
                    pairs@,
                    k,
                ),
        decreases ntri - t,
    {
        subdivide_triangle(indices, base, t, &mut cache, &mut pairs, &mut out);
        t = t + 1;
    }
    proof {
        assert(edges.take(3 * t as int) =~= edges);
        lemma_first_occurrences_facts(edges);
        assert(out@ =~= subdivided(indices@, base as int, pairs@));
        assert forall|k: int| 0 <= k < out.len() implies out[k] < base + pairs.len() by {
            let tt = k / 12;
            lemma_triangle_edges_at(indices@, tt);
            let e0 = edges[3 * tt];
            let e1 = edges[3 * tt + 1];
            let e2 = edges[3 * tt + 2];
            assert(pairs@.contains(e0) && pairs@.contains(e1) && pairs@.contains(e2));
            assert(0 <= pairs@.index_of(e0) < pairs.len());
            assert(0 <= pairs@.index_of(e1) < pairs.len());
            assert(0 <= pairs@.index_of(e2) < pairs.len());
        }
        assert forall|i: int| 0 <= i < pairs.len() implies (#[trigger] pairs[i]).0 <= pairs[i].1 < base by {
            assert(pairs@.contains(pairs@[i]));
            assert(edges.contains(pairs@[i]));
            let k = choose|k: int| 0 <= k < edges.len() && edges[k] == pairs@[i];
            assert(0 <= corner_successor(k) < indices.len()) by {
                assert(k % 3 == 2 ==> k >= 2);
                assert(k % 3 != 2 ==> k + 1 < indices.len()) by {
                    assert(indices.len() % 3 == 0);
                }
            }
        }
    }
    (out, pairs)
}

/// Subdivision creates exactly one midpoint per edge of the input mesh: the
/// list of midpoints holds every edge once and nothing else, the midpoint of
/// an edge does not depend on the direction in which a triangle walks it (so
/// the two triangles on either side of an edge share its midpoint), and
/// distinct edges get distinct midpoint vertices.
pub proof fn lemma_one_midpoint_per_edge(indices: Seq<u32>, base: int)
    ensures
        first_occurrences(triangle_edges(indices)).no_duplicates(),
        forall|e: (u32, u32)|
            #[trigger] first_occurrences(triangle_edges(indices)).contains(e)
                <==> triangle_edges(indices).contains(e),
        forall|a: u32, b: u32|
            #[trigger] midpoint_vertex(first_occurrences(triangle_edges(indices)), base, a, b)
                == midpoint_vertex(first_occurrences(triangle_edges(indices)), base, b, a),
        forall|a: u32, b: u32, c: u32, d: u32|
            triangle_edges(indices).contains(edge_key(a, b)) && triangle_edges(indices).contains(
                edge_key(c, d),
            ) && edge_key(a, b) != edge_key(c, d) ==> #[trigger] midpoint_vertex(
                first_occurrences(triangle_edges(indices)),
                base,
                a,
                b,
            ) != #[trigger] midpoint_vertex(first_occurrences(triangle_edges(indices)), base, c, d),
{
    let pairs = first_occurrences(triangle_edges(indices));
    lemma_first_occurrences_facts(triangle_edges(indices));
    assert forall|a: u32, b: u32, c: u32, d: u32|
        triangle_edges(indices).contains(edge_key(a, b)) && triangle_edges(indices).contains(
            edge_key(c, d),
        ) && edge_key(a, b) != edge_key(c, d) implies #[trigger] midpoint_vertex(pairs, base, a, b)
        != #[trigger] midpoint_vertex(pairs, base, c, d) by {
        assert(pairs.contains(edge_key(a, b)));
        assert(pairs.contains(edge_key(c, d)));
        let i = pairs.index_of(edge_key(a, b));
        let j = pairs.index_of(edge_key(c, d));
        assert(pairs[i] == edge_key(a, b));
        assert(pairs[j] == edge_key(c, d));
    }
}

pub(crate) proof fn lemma_pow4_monotone(n: nat, m: nat)
    requires
        n <= m,
    ensures
        1 <= pow4(n) <= pow4(m),
    decreases m,
{
    if n < m {
        lemma_pow4_monotone(n, (m - 1) as nat);
    } else if m > 0 {
        lemma_pow4_monotone((m - 1) as nat, (m - 1) as nat);
    }
}

pub(crate) proof fn lemma_pow4_bounds(n: nat)
    requires
        n <= 13,
    ensures
        1 <= pow4(n) <= 67108864,
        n <= 12 ==> pow4(n) <= 16777216,
{
    reveal_with_fuel(pow4, 14);
    assert(pow4(12) == 16777216);
    assert(pow4(13) == 67108864);
    if n <= 12 {
        lemma_pow4_monotone(n, 12);
    } else {
        lemma_pow4_monotone(n, 13);
    }
}

/// Looks up or creates the midpoint vertex of edge `(a, b)`.
fn midpoint(
    cache: &mut HashMap<u64, u32>,
    pairs: &mut Vec<(u32, u32)>,
    base: u32,
    a: u32,
    b: u32,
) -> (m: u32)
    requires
        cache_matches(old(cache)@, old(pairs)@, base as int),
        old(pairs)@.no_duplicates(),
        base + old(pairs)@.len() < u32::MAX,
    ensures
        final(pairs)@ == (if old(pairs)@.contains(edge_key(a, b)) {
            old(pairs)@
        } else {
            old(pairs)@.push(edge_key(a, b))
        }),
        cache_matches(final(cache)@, final(pairs)@, base as int),
        final(pairs)@.no_duplicates(),
        final(pairs)@.contains(edge_key(a, b)),
        m as int == midpoint_vertex(final(pairs)@, base as int, a, b),
{
    let key = if a < b {
        (a, b)
    } else {
        (b, a)
    };
    assert(key == edge_key(a, b));
    assert(key.0 as int * 0x1_0000_0000 <= 0xffff_ffff_0000_0000) by (nonlinear_arith)
        requires
            key.0 <= 0xffff_ffff,
    ;
    let code: u64 = (key.0 as u64) * 0x1_0000_0000u64 + (key.1 as u64);
    assert(code == edge_code(key));
    match cache.get(&code) {
        Some(idx) => {
            let m = *idx;
            proof {
                let i = choose|i: int| 0 <= i < pairs@.len() && edge_code(pairs@[i]) == code;
                lemma_edge_code_injective(pairs@[i], key);
                lemma_index_of_at(pairs@, i);
            }
            m
        },
        None => {
            proof {
                if pairs@.contains(key) {
                    let i = choose|i: int| 0 <= i < pairs@.len() && pairs@[i] == key;
                    assert(cache@.contains_key(edge_code(pairs@[i])));
                }
            }
            let m = base + pairs.len() as u32;
            let ghost old_pairs = pairs@;
            let ghost old_cache = cache@;
            pairs.push(key);
            cache.insert(code, m);
            proof {
                lemma_no_duplicates_push(old_pairs, key);
                lemma_index_of_at(pairs@, old_pairs.len() as int);
                assert(pairs@[old_pairs.len() as int] == key);
                assert forall|i: int| 0 <= i < pairs@.len() implies #[trigger] cache@.contains_key(
                    edge_code(pairs@[i]),
                ) && cache@[edge_code(pairs@[i])] == base + i by {
                    if i < old_pairs.len() {
                        assert(pairs@[i] == old_pairs[i]);
                        if edge_code(old_pairs[i]) == code {
                            lemma_edge_code_injective(old_pairs[i], key);
                        }
                        assert(old_cache.contains_key(edge_code(old_pairs[i])));
                    }
                }
                assert forall|c: u64| #[trigger] cache@.contains_key(c) implies exists|i: int|
                    0 <= i < pairs@.len() && edge_code(pairs@[i]) == c by {
                    if c == code {
                        assert(edge_code(pairs@[old_pairs.len() as int]) == c);
                    } else {
                        assert(old_cache.contains_key(c));
                        let i = choose|i: int| 0 <= i < old_pairs.len() && edge_code(old_pairs[i]) == c;
                        assert(pairs@[i] == old_pairs[i]);
                    }
                }
            }
            m
        },
    }
}

/// Index buffer of the mesh together with the origin of every vertex that
/// the subdivisions added.
pub struct IcosphereTopology {
    /// Triangle list: three vertex indices per triangle.
    pub indices: Vec<u32>,
    /// Vertex `BASE_VERTEX_COUNT + i` is the midpoint of the two vertices
    /// in `midpoints[i]`.
    pub midpoints: Vec<(u32, u32)>,
}

/// The twenty faces of the base icosahedron, as an index buffer.
pub fn base_triangle_indices() -> (v: Vec<u32>)
    ensures
        v@ == base_triangles(),
        v.len() == 60,
        forall|f: int|
            0 <= f < 20 ==> #[trigger] crate::icosahedron::outward_icosahedron_face(v@, f),
{
    proof {
        crate::icosahedron::lemma_base_faces_are_icosahedron_faces();
    }
    let v: Vec<u32> = vec![
        0, 11, 5, 0, 5, 1, 0, 1, 7, 0, 7, 10, 0, 10, 11,
        1, 5, 9, 5, 11, 4, 11, 10, 2, 10, 7, 6, 7, 1, 8,
        3, 9, 4, 3, 4, 2, 3, 2, 6, 3, 6, 8, 3, 8, 9,
        4, 9, 5, 2, 4, 11, 6, 2, 10, 8, 6, 7, 9, 8, 1,
    ];
    assert(v@ =~= base_triangles());
    v
}

/// Topology of the icosphere after `subdivisions` levels of subdivision:
/// `20 * 4^n` triangles over `10 * 4^n + 2` vertices.
///
/// Every index refers to an existing vertex, and each added vertex is the
/// midpoint of two vertices that exist before it, so the vertex positions can
/// be computed in order.
pub fn icosphere_topology(subdivisions: u32) -> (topo: IcosphereTopology)
    requires
        subdivisions <= MAX_SUBDIVISIONS,
    ensures
        topo.indices@ == icosphere_level(subdivisions as nat).0,
        topo.midpoints@ == icosphere_level(subdivisions as nat).1,
        topo.indices.len() == 60 * pow4(subdivisions as nat),
        BASE_VERTEX_COUNT + topo.midpoints.len() == 10 * pow4(subdivisions as nat) + 2,
        forall|k: int|
            0 <= k < topo.indices.len() ==> topo.indices[k] < BASE_VERTEX_COUNT
                + topo.midpoints.len(),
        forall|i: int|
            0 <= i < topo.midpoints.len() ==> (#[trigger] topo.midpoints[i]).0 <= topo.midpoints[i].1
                < BASE_VERTEX_COUNT + i,
{
    let mut indices = base_triangle_indices();
    let mut midpoints: Vec<(u32, u32)> = Vec::new();
    let mut level: u32 = 0;
    proof {
        assert(pow4(0) == 1);
        assert forall|k: int| 0 <= k < indices.len() implies indices[k] < 12 by {
            assert(base_triangles()[k] < 12);
        }
    }
    while level < subdivisions
        invariant
            level <= subdivisions <= MAX_SUBDIVISIONS,
            indices@ == icosphere_level(level as nat).0,
            midpoints@ == icosphere_level(level as nat).1,
            indices.len() == 60 * pow4(level as nat),
            midpoints.len() + 20 <= 20 * pow4(level as nat),
            forall|k: int| 0 <= k < indices.len() ==> indices[k] < 12 + midpoints.len(),
            forall|i: int|
                0 <= i < midpoints.len() ==> (#[trigger] midpoints[i]).0 <= midpoints[i].1 < 12 + i,
        decreases subdivisions - level,
    {
        proof {
            lemma_pow4_bounds(level as nat);
            assert(indices.len() % 3 == 0);
        }
        let base = 12 + midpoints.len() as u32;
        let (next, mut pairs) = subdivide(&indices, base);
        let ghost old_mids = midpoints@;
        let ghost new_pairs = pairs@;
        midpoints.append(&mut pairs);
        indices = next;
        level = level + 1;
        proof {
            assert(pow4(level as nat) == 4 * pow4((level - 1) as nat));
            assert(midpoints@ =~= old_mids + new_pairs);
            assert forall|i: int| 0 <= i < midpoints.len() implies (#[trigger] midpoints[i]).0
                <= midpoints[i].1 < 12 + i by {
                if i >= old_mids.len() {
                    assert(midpoints[i] == new_pairs[i - old_mids.len()]);
                } else {
                    assert(midpoints[i] == old_mids[i]);
                }
            }
        }
    }
    proof {
        crate::icosphere_mesh::lemma_icosphere_closed(subdivisions as nat);
    }
    IcosphereTopology { indices, midpoints }
}

} // verus!
