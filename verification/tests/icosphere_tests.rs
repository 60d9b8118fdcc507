use phys_rs::icosphere::{icosphere_topology, subdivide, base_triangle_indices, BASE_VERTEX_COUNT};
use std::collections::HashMap;

#[test]
fn single_triangle_splits_into_four() {
    let (indices, pairs) = subdivide(&vec![0, 1, 2], 3);
    assert_eq!(pairs, vec![(0, 1), (1, 2), (0, 2)]);
    assert_eq!(indices, vec![0, 3, 5, 1, 4, 3, 2, 5, 4, 3, 4, 5]);
}

#[test]
fn shared_edge_gets_one_midpoint() {
    // Two triangles sharing edge (1, 2), walked in opposite directions.
    let (indices, pairs) = subdivide(&vec![0, 1, 2, 2, 1, 3], 4);
    assert_eq!(pairs, vec![(0, 1), (1, 2), (0, 2), (1, 3), (2, 3)]);
    assert_eq!(indices.len(), 24);
    // Midpoint of (1, 2) is vertex 5 in both triangles.
    assert_eq!(indices[4], 5);
    assert_eq!(indices[12 + 1], 5);
}

#[test]
fn base_icosahedron_has_twenty_faces() {
    let base = base_triangle_indices();
    assert_eq!(base.len(), 60);
    assert!(base.iter().all(|&i| i < BASE_VERTEX_COUNT));
    let topo = icosphere_topology(0);
    assert_eq!(topo.indices, base);
    assert!(topo.midpoints.is_empty());
}

#[test]
fn one_subdivision_adds_one_vertex_per_edge() {
    let topo = icosphere_topology(1);
    assert_eq!(topo.indices.len(), 240);
    // An icosahedron has 30 edges.
    assert_eq!(topo.midpoints.len(), 30);
}

#[test]
fn three_subdivisions_match_icosphere_counts() {
    let topo = icosphere_topology(3);
    assert_eq!(topo.indices.len(), 3 * 1280);
    // 10 * 4^3 + 2 vertices in all.
    assert_eq!(BASE_VERTEX_COUNT as usize + topo.midpoints.len(), 642);
    let vertex_count = BASE_VERTEX_COUNT + topo.midpoints.len() as u32;
    assert!(topo.indices.iter().all(|&i| i < vertex_count));
    for (i, &(a, b)) in topo.midpoints.iter().enumerate() {
        assert!(a < b);
        assert!((b as usize) < BASE_VERTEX_COUNT as usize + i);
    }
}

#[test]
fn subdivided_mesh_is_closed() {
    // Every undirected edge of a closed mesh is used by exactly two triangles.
    let topo = icosphere_topology(2);
    let mut uses: HashMap<(u32, u32), u32> = HashMap::new();
    for tri in topo.indices.chunks(3) {
        for k in 0..3 {
            let a = tri[k];
            let b = tri[(k + 1) % 3];
            let key = if a < b { (a, b) } else { (b, a) };
            *uses.entry(key).or_insert(0) += 1;
        }
    }
    assert!(uses.values().all(|&n| n == 2));
    // Euler characteristic of a sphere: V - E + F = 2.
    let v = BASE_VERTEX_COUNT as i64 + topo.midpoints.len() as i64;
    let e = uses.len() as i64;
    let f = (topo.indices.len() / 3) as i64;
    assert_eq!(v - e + f, 2);
}

#[test]
fn icosphere_is_a_closed_surface() {
    for n in 0..5u32 {
        let topo = phys_rs::icosphere::icosphere_topology(n);
        let nv = 12 + topo.midpoints.len();
        assert_eq!(nv, 10 * 4usize.pow(n) + 2);
        let idx = &topo.indices;
        let mut directed: HashMap<(u32, u32), usize> = HashMap::new();
        for t in 0..idx.len() / 3 {
            let c = [idx[3 * t], idx[3 * t + 1], idx[3 * t + 2]];
            assert!(c[0] != c[1] && c[1] != c[2] && c[2] != c[0]);
            for i in 0..3 {
                let e = (c[i], c[(i + 1) % 3]);
                assert!(directed.insert(e, t).is_none(), "directed edge repeated");
            }
        }
        for (&(a, b), &t) in &directed {
            let t2 = directed[&(b, a)];
            assert_ne!(t, t2);
        }
        assert_eq!(directed.len() / 2, 30 * 4usize.pow(n));
    }
}
