use phys_rs::octree::{octant_index, octant_sides, MAX_DEPTH};
use phys_rs::octree_shape::{build_octree, insert_body, OctreeNode};

fn leaves(node: &OctreeNode, out: &mut Vec<usize>) {
    match node {
        OctreeNode::Empty => {}
        OctreeNode::Leaf(b) => out.push(*b),
        OctreeNode::Internal(ch) => {
            assert_eq!(ch.len(), 8);
            for c in ch {
                leaves(c, out);
            }
        }
    }
}

#[test]
fn octant_numbering_round_trips() {
    for o in 0..8usize {
        let (x, y, z) = octant_sides(o);
        assert_eq!(octant_index(x, y, z), o);
    }
    assert_eq!(octant_index(false, false, false), 0);
    assert_eq!(octant_index(true, false, false), 1);
    assert_eq!(octant_index(false, true, false), 2);
    assert_eq!(octant_index(true, true, true), 7);
    assert_eq!(octant_sides(5), (true, false, true));
    assert_eq!(MAX_DEPTH, 40);
}

#[test]
fn two_bodies_split_the_root() {
    // Body 0 in octant 0, body 1 in octant 7.
    let paths = vec![vec![0u8, 3], vec![7u8, 1]];
    let root = build_octree(&paths, 2);
    match &root {
        OctreeNode::Internal(ch) => {
            assert!(matches!(ch[0], OctreeNode::Leaf(0)));
            assert!(matches!(ch[7], OctreeNode::Leaf(1)));
            for k in 1..7 {
                assert!(matches!(ch[k], OctreeNode::Empty));
            }
        }
        _ => panic!("root should be subdivided"),
    }
}

#[test]
fn bodies_sharing_an_octant_split_deeper() {
    let paths = vec![vec![2u8, 4, 0], vec![2u8, 5, 0], vec![6u8, 0, 0]];
    let root = build_octree(&paths, 3);
    let mut found = Vec::new();
    leaves(&root, &mut found);
    found.sort();
    assert_eq!(found, vec![0, 1, 2]);
    match &root {
        OctreeNode::Internal(ch) => match &ch[2] {
            OctreeNode::Internal(g) => {
                assert!(matches!(g[4], OctreeNode::Leaf(0)));
                assert!(matches!(g[5], OctreeNode::Leaf(1)));
            }
            _ => panic!("octant 2 should be subdivided"),
        },
        _ => panic!("root should be subdivided"),
    }
}

#[test]
fn identical_paths_keep_last_body_at_depth_limit() {
    // Two bodies that cannot be told apart down to the depth limit: the
    // node at the limit keeps the body inserted last.
    let paths = vec![vec![1u8, 1], vec![1u8, 1]];
    let root = build_octree(&paths, 2);
    let mut found = Vec::new();
    leaves(&root, &mut found);
    assert_eq!(found, vec![1]);
}

#[test]
fn single_insert_into_empty_is_leaf() {
    let paths = vec![vec![3u8]];
    let node = insert_body(OctreeNode::Empty, 0, &paths, 0, 1);
    assert!(matches!(node, OctreeNode::Leaf(0)));
    let at_limit = insert_body(OctreeNode::Leaf(0), 0, &paths, 1, 1);
    assert!(matches!(at_limit, OctreeNode::Leaf(0)));
}
