//! Shape of the Barnes-Hut octree: which body ends up in which leaf.
//!
//! The tree is built by inserting the bodies one after another.  Each body
//! comes with its octant path: the octant it falls into at every depth,
//! which the caller computes from the body's position and the node centres.
//! A node at depth `stop` or deeper (the depth limit, or a node smaller than
//! the minimum node size) becomes a leaf holding the body inserted last.  The
//! aggregate masses and centres of mass are floating-point data that the
//! caller keeps beside this shape.
use vstd::prelude::*;

verus! {

/// A node of the octree.
pub enum OctreeNode {
    /// A region without bodies.
    Empty,
    /// A region holding one body, by index.
    Leaf(usize),
    /// A subdivided region with its eight children, by octant.
    Internal(Vec<OctreeNode>),
}

/// The mathematical shape of an octree node.
pub enum TreeShape {
    Empty,
    Leaf(nat),
    Internal(Seq<TreeShape>),
}

/// Shape of a node.
pub open spec fn shape_of(n: OctreeNode) -> TreeShape
    decreases n,
{
    match n {
        OctreeNode::Empty => TreeShape::Empty,
        OctreeNode::Leaf(b) => TreeShape::Leaf(b as nat),
        OctreeNode::Internal(ch) => TreeShape::Internal(shapes_of(ch@)),
    }
}

/// Shapes of a list of nodes.
pub open spec fn shapes_of(s: Seq<OctreeNode>) -> Seq<TreeShape>
    decreases s,
{
    if s.len() == 0 {
        Seq::empty()
    } else {
        shapes_of(s.drop_last()).push(shape_of(s.last()))
    }
}

/// Eight empty children.
pub open spec fn empty_children() -> Seq<TreeShape> {
    Seq::new(8, |i: int| TreeShape::Empty)
}

/// Every path names an octant at each depth below `stop`.
pub open spec fn valid_paths(paths: Seq<Vec<u8>>, stop: nat) -> bool {
    forall|b: int|
        0 <= b < paths.len() ==> (#[trigger] paths[b])@.len() >= stop && forall|d: int|
            0 <= d < paths[b]@.len() ==> paths[b]@[d] < 8
}

/// Internal nodes have eight children, leaves hold bodies that have a path.
pub open spec fn well_formed(t: TreeShape, nbodies: nat) -> bool
    decreases t,
{
    match t {
        TreeShape::Empty => true,
        TreeShape::Leaf(b) => b < nbodies,
        TreeShape::Internal(ch) => {
            &&& ch.len() == 8
            &&& well_formed(ch[0], nbodies)
            &&& well_formed(ch[1], nbodies)
            &&& well_formed(ch[2], nbodies)
            &&& well_formed(ch[3], nbodies)
            &&& well_formed(ch[4], nbodies)
            &&& well_formed(ch[5], nbodies)
            &&& well_formed(ch[6], nbodies)
            &&& well_formed(ch[7], nbodies)
        },
    }
}

/// The shape after inserting body `b` into a node at depth `depth`: at or
/// below depth `stop` the node becomes a leaf holding `b`; an empty node
/// becomes a leaf; a leaf is split into eight children, its body moved into
/// the child of its octant, and `b` inserted into the child of its own
/// octant; an internal node passes `b` on to the child of its octant.
pub open spec fn inserted(t: TreeShape, b: nat, paths: Seq<Vec<u8>>, depth: nat, stop: nat) -> TreeShape
    decreases stop - depth,
{
    if depth >= stop {
        TreeShape::Leaf(b)
    } else {
        match t {
            TreeShape::Empty => TreeShape::Leaf(b),
            TreeShape::Leaf(e) => {
                let oe = paths[e as int]@[depth as int] as int;
                let ob = paths[b as int]@[depth as int] as int;
                let split = empty_children().update(
                    oe,
                    inserted(TreeShape::Empty, e, paths, depth + 1, stop),
                );
                TreeShape::Internal(
                    split.update(ob, inserted(split[ob], b, paths, depth + 1, stop)),
                )
            },
            TreeShape::Internal(ch) => {
                let ob = paths[b as int]@[depth as int] as int;
                TreeShape::Internal(ch.update(ob, inserted(ch[ob], b, paths, depth + 1, stop)))
            },
        }
    }
}

/// The shape after inserting bodies `0..n` in order into an empty tree.
pub open spec fn built(paths: Seq<Vec<u8>>, n: nat, stop: nat) -> TreeShape
    decreases n,
{
    if n == 0 {
        TreeShape::Empty
    } else {
        inserted(built(paths, (n - 1) as nat, stop), (n - 1) as nat, paths, 0, stop)
    }
}

proof fn lemma_internal_children_well_formed(s: Seq<TreeShape>, n: nat)
    requires
        well_formed(TreeShape::Internal(s), n),
    ensures
        s.len() == 8,
        forall|i: int| 0 <= i < 8 ==> #[trigger] well_formed(s[i], n),
{
    assert forall|i: int| 0 <= i < 8 implies #[trigger] well_formed(s[i], n) by {
        if i == 0 {
        } else if i == 1 {
        } else if i == 2 {
        } else if i == 3 {
        } else if i == 4 {
        } else if i == 5 {
        } else if i == 6 {
        } else {
        }
    }
}

proof fn lemma_internal_well_formed_from_children(s: Seq<TreeShape>, n: nat)
    requires
        s.len() == 8,
        forall|i: int| 0 <= i < 8 ==> #[trigger] well_formed(s[i], n),
    ensures
        well_formed(TreeShape::Internal(s), n),
{
    assert(well_formed(s[0], n));
    assert(well_formed(s[1], n));
    assert(well_formed(s[2], n));
    assert(well_formed(s[3], n));
    assert(well_formed(s[4], n));
    assert(well_formed(s[5], n));
    assert(well_formed(s[6], n));
    assert(well_formed(s[7], n));
}

/// Every body in `t` lies in the region of `t`: the octant path of a leaf's
/// body starts with the path `prefix` from the root to that leaf.
pub open spec fn placed(t: TreeShape, paths: Seq<Vec<u8>>, prefix: Seq<u8>) -> bool
    decreases t,
{
    match t {
        TreeShape::Empty => true,
        TreeShape::Leaf(b) => {
            &&& b < paths.len()
            &&& prefix.len() <= paths[b as int]@.len()
            &&& paths[b as int]@.subrange(0, prefix.len() as int) == prefix
        },
        TreeShape::Internal(ch) => {
            &&& ch.len() == 8
            &&& placed(ch[0], paths, prefix.push(0u8))
            &&& placed(ch[1], paths, prefix.push(1u8))
            &&& placed(ch[2], paths, prefix.push(2u8))
            &&& placed(ch[3], paths, prefix.push(3u8))
            &&& placed(ch[4], paths, prefix.push(4u8))
            &&& placed(ch[5], paths, prefix.push(5u8))
            &&& placed(ch[6], paths, prefix.push(6u8))
            &&& placed(ch[7], paths, prefix.push(7u8))
        },
    }
}

/// Internal nodes only occur above depth `stop`, for a subtree at `depth`.
pub open spec fn bounded(t: TreeShape, depth: nat, stop: nat) -> bool
    decreases t,
{
    match t {
        TreeShape::Internal(ch) => {
            &&& depth < stop
            &&& ch.len() == 8
            &&& bounded(ch[0], depth + 1, stop)
            &&& bounded(ch[1], depth + 1, stop)
            &&& bounded(ch[2], depth + 1, stop)
            &&& bounded(ch[3], depth + 1, stop)
            &&& bounded(ch[4], depth + 1, stop)
            &&& bounded(ch[5], depth + 1, stop)
            &&& bounded(ch[6], depth + 1, stop)
            &&& bounded(ch[7], depth + 1, stop)
        },
        _ => true,
    }
}

/// Body `b` is held by some leaf of `t`.
pub open spec fn holds(t: TreeShape, b: nat) -> bool
    decreases t,
{
    match t {
        TreeShape::Empty => false,
        TreeShape::Leaf(x) => x == b,
        TreeShape::Internal(ch) => {
            ||| ch.len() == 8 && holds(ch[0], b)
            ||| ch.len() == 8 && holds(ch[1], b)
            ||| ch.len() == 8 && holds(ch[2], b)
            ||| ch.len() == 8 && holds(ch[3], b)
            ||| ch.len() == 8 && holds(ch[4], b)
            ||| ch.len() == 8 && holds(ch[5], b)
            ||| ch.len() == 8 && holds(ch[6], b)
            ||| ch.len() == 8 && holds(ch[7], b)
        },
    }
}

proof fn lemma_placed_children(ch: Seq<TreeShape>, paths: Seq<Vec<u8>>, prefix: Seq<u8>)
    ensures
        placed(TreeShape::Internal(ch), paths, prefix) <==> (ch.len() == 8 && forall|i: int|
            0 <= i < 8 ==> #[trigger] placed(ch[i], paths, prefix.push(i as u8))),
{
    if ch.len() == 8 && forall|i: int| 0 <= i < 8 ==> #[trigger] placed(ch[i], paths, prefix.push(i as u8)) {
        assert(placed(ch[0], paths, prefix.push(0 as u8)));
        assert(placed(ch[1], paths, prefix.push(1 as u8)));
        assert(placed(ch[2], paths, prefix.push(2 as u8)));
        assert(placed(ch[3], paths, prefix.push(3 as u8)));
        assert(placed(ch[4], paths, prefix.push(4 as u8)));
        assert(placed(ch[5], paths, prefix.push(5 as u8)));
        assert(placed(ch[6], paths, prefix.push(6 as u8)));
        assert(placed(ch[7], paths, prefix.push(7 as u8)));
    }
    if placed(TreeShape::Internal(ch), paths, prefix) {
        assert forall|i: int| 0 <= i < 8 implies #[trigger] placed(ch[i], paths, prefix.push(i as u8)) by {
            if i == 0 {
            } else if i == 1 {
            } else if i == 2 {
            } else if i == 3 {
            } else if i == 4 {
            } else if i == 5 {
            } else if i == 6 {
            } else {
            }
        }
    }
}

proof fn lemma_bounded_children(ch: Seq<TreeShape>, depth: nat, stop: nat)
    ensures
        bounded(TreeShape::Internal(ch), depth, stop) <==> (depth < stop && ch.len() == 8 && forall|i: int|
            0 <= i < 8 ==> #[trigger] bounded(ch[i], depth + 1, stop)),
{
    if depth < stop && ch.len() == 8 && forall|i: int| 0 <= i < 8 ==> #[trigger] bounded(ch[i], depth + 1, stop) {
        assert(bounded(ch[0], depth + 1, stop));
        assert(bounded(ch[1], depth + 1, stop));
        assert(bounded(ch[2], depth + 1, stop));
        assert(bounded(ch[3], depth + 1, stop));
        assert(bounded(ch[4], depth + 1, stop));
        assert(bounded(ch[5], depth + 1, stop));
        assert(bounded(ch[6], depth + 1, stop));
        assert(bounded(ch[7], depth + 1, stop));
    }
    if bounded(TreeShape::Internal(ch), depth, stop) {
        assert forall|i: int| 0 <= i < 8 implies #[trigger] bounded(ch[i], depth + 1, stop) by {
            if i == 0 {
            } else if i == 1 {
            } else if i == 2 {
            } else if i == 3 {
            } else if i == 4 {
            } else if i == 5 {
            } else if i == 6 {
            } else {
            }
        }
    }
}

proof fn lemma_holds_children(ch: Seq<TreeShape>, b: nat)
    requires
        ch.len() == 8,
    ensures
        holds(TreeShape::Internal(ch), b) <==> exists|i: int| 0 <= i < 8 && #[trigger] holds(ch[i], b),
{
    if exists|i: int| 0 <= i < 8 && #[trigger] holds(ch[i], b) {
        let i = choose|i: int| 0 <= i < 8 && #[trigger] holds(ch[i], b);
        if i == 0 {
        } else if i == 1 {
        } else if i == 2 {
        } else if i == 3 {
        } else if i == 4 {
        } else if i == 5 {
        } else if i == 6 {
        } else {
        }
    }
    if holds(TreeShape::Internal(ch), b) {
        if holds(ch[0], b) {
            assert(holds(ch[0], b));
        } else if holds(ch[1], b) {
            assert(holds(ch[1], b));
        } else if holds(ch[2], b) {
            assert(holds(ch[2], b));
        } else if holds(ch[3], b) {
            assert(holds(ch[3], b));
        } else if holds(ch[4], b) {
            assert(holds(ch[4], b));
        } else if holds(ch[5], b) {
            assert(holds(ch[5], b));
        } else if holds(ch[6], b) {
            assert(holds(ch[6], b));
        } else if holds(ch[7], b) {
            assert(holds(ch[7], b));
        }
    }
}

proof fn lemma_empty_children_facts(paths: Seq<Vec<u8>>, prefix: Seq<u8>, depth: nat, stop: nat, b: nat)
    ensures
        empty_children().len() == 8,
        forall|i: int| 0 <= i < 8 ==> #[trigger] empty_children()[i] == TreeShape::Empty,
        forall|i: int| 0 <= i < 8 ==> placed(#[trigger] empty_children()[i], paths, prefix.push(i as u8)),
        forall|i: int| 0 <= i < 8 ==> bounded(#[trigger] empty_children()[i], depth + 1, stop),
        forall|i: int| 0 <= i < 8 ==> !holds(#[trigger] empty_children()[i], b),
{
}

proof fn lemma_push_prefix(path: Seq<u8>, prefix: Seq<u8>, depth: int)
    requires
        0 <= depth < path.len(),
        prefix.len() == depth,
        path.subrange(0, depth) == prefix,
    ensures
        path.subrange(0, depth + 1) == prefix.push(path[depth]),
{
    assert(path.subrange(0, depth + 1) =~= prefix.push(path[depth]));
}

/// Inserting a body whose path starts with `prefix` into a subtree at
/// `prefix` keeps every body inside its own region and keeps the depth bound.
proof fn lemma_inserted_placed(
    t: TreeShape,
    b: nat,
    paths: Seq<Vec<u8>>,
    depth: nat,
    stop: nat,
    prefix: Seq<u8>,
)
    requires
        valid_paths(paths, stop),
        b < paths.len(),
        depth <= stop,
        prefix.len() == depth,
        paths[b as int]@.subrange(0, depth as int) == prefix,
        placed(t, paths, prefix),
        bounded(t, depth, stop),
    ensures
        placed(inserted(t, b, paths, depth, stop), paths, prefix),
        bounded(inserted(t, b, paths, depth, stop), depth, stop),
    decreases stop - depth,
{
    assert(paths[b as int]@.len() >= stop);
    if depth >= stop {
    } else {
        match t {
            TreeShape::Empty => {},
            TreeShape::Leaf(e) => {
                let oe = paths[e as int]@[depth as int] as int;
                let ob = paths[b as int]@[depth as int] as int;
                assert(paths[e as int]@.len() >= stop);
                assert(0 <= oe < 8 && 0 <= ob < 8);
                lemma_push_prefix(paths[e as int]@, prefix, depth as int);
                lemma_push_prefix(paths[b as int]@, prefix, depth as int);
                assert(prefix.push(oe as u8) == prefix.push(paths[e as int]@[depth as int]));
                assert(prefix.push(ob as u8) == prefix.push(paths[b as int]@[depth as int]));
                lemma_empty_children_facts(paths, prefix, depth, stop, b);
                lemma_inserted_placed(TreeShape::Empty, e, paths, depth + 1, stop, prefix.push(oe as u8));
                let child_e = inserted(TreeShape::Empty, e, paths, depth + 1, stop);
                let split = empty_children().update(oe, child_e);
                assert forall|i: int| 0 <= i < 8 implies #[trigger] placed(split[i], paths, prefix.push(i as u8))
                    && bounded(split[i], depth + 1, stop) by {
                    if i != oe {
                        assert(split[i] == empty_children()[i]);
                    }
                }
                lemma_inserted_placed(split[ob], b, paths, depth + 1, stop, prefix.push(ob as u8));
                let res = split.update(ob, inserted(split[ob], b, paths, depth + 1, stop));
                assert forall|i: int| 0 <= i < 8 implies #[trigger] placed(res[i], paths, prefix.push(i as u8))
                    && bounded(res[i], depth + 1, stop) by {
                    if i != ob {
                        assert(res[i] == split[i]);
                    }
                }
                lemma_placed_children(res, paths, prefix);
                lemma_bounded_children(res, depth, stop);
            },
            TreeShape::Internal(ch) => {
                lemma_placed_children(ch, paths, prefix);
                lemma_bounded_children(ch, depth, stop);
                let ob = paths[b as int]@[depth as int] as int;
                assert(0 <= ob < 8);
                lemma_push_prefix(paths[b as int]@, prefix, depth as int);
                assert(prefix.push(ob as u8) == prefix.push(paths[b as int]@[depth as int]));
                assert(placed(ch[ob], paths, prefix.push(ob as u8)));
                assert(bounded(ch[ob], depth + 1, stop));
                lemma_inserted_placed(ch[ob], b, paths, depth + 1, stop, prefix.push(ob as u8));
                let res = ch.update(ob, inserted(ch[ob], b, paths, depth + 1, stop));
                assert forall|i: int| 0 <= i < 8 implies #[trigger] placed(res[i], paths, prefix.push(i as u8))
                    && bounded(res[i], depth + 1, stop) by {
                    if i != ob {
                        assert(res[i] == ch[i]);
                        assert(placed(ch[i], paths, prefix.push(i as u8)));
                        assert(bounded(ch[i], depth + 1, stop));
                    }
                }
                lemma_placed_children(res, paths, prefix);
                lemma_bounded_children(res, depth, stop);
            },
        }
    }
}

/// The body just inserted is held by the new subtree, and every body held by
/// the new subtree is that body or was held before.
proof fn lemma_inserted_holds(
    t: TreeShape,
    b: nat,
    paths: Seq<Vec<u8>>,
    depth: nat,
    stop: nat,
    prefix: Seq<u8>,
)
    requires
        valid_paths(paths, stop),
        b < paths.len(),
        depth <= stop,
        prefix.len() == depth,
        paths[b as int]@.subrange(0, depth as int) == prefix,
        placed(t, paths, prefix),
        bounded(t, depth, stop),
    ensures
        holds(inserted(t, b, paths, depth, stop), b),
        forall|e: nat| #[trigger] holds(inserted(t, b, paths, depth, stop), e) ==> e == b || holds(t, e),
    decreases stop - depth,
{
    assert(paths[b as int]@.len() >= stop);
    if depth >= stop {
    } else {
        match t {
            TreeShape::Empty => {},
            TreeShape::Leaf(x) => {
                let oe = paths[x as int]@[depth as int] as int;
                let ob = paths[b as int]@[depth as int] as int;
                assert(paths[x as int]@.len() >= stop);
                assert(0 <= oe < 8 && 0 <= ob < 8);
                lemma_push_prefix(paths[x as int]@, prefix, depth as int);
                lemma_push_prefix(paths[b as int]@, prefix, depth as int);
                assert(prefix.push(oe as u8) == prefix.push(paths[x as int]@[depth as int]));
                assert(prefix.push(ob as u8) == prefix.push(paths[b as int]@[depth as int]));
                lemma_empty_children_facts(paths, prefix, depth, stop, b);
                lemma_inserted_placed(TreeShape::Empty, x, paths, depth + 1, stop, prefix.push(oe as u8));
                lemma_inserted_holds(TreeShape::Empty, x, paths, depth + 1, stop, prefix.push(oe as u8));
                let child_e = inserted(TreeShape::Empty, x, paths, depth + 1, stop);
                let split = empty_children().update(oe, child_e);
                assert(placed(split[ob], paths, prefix.push(ob as u8)) && bounded(split[ob], depth + 1, stop)) by {
                    if ob != oe {
                        assert(split[ob] == empty_children()[ob]);
                    }
                }
                lemma_inserted_holds(split[ob], b, paths, depth + 1, stop, prefix.push(ob as u8));
                let res = split.update(ob, inserted(split[ob], b, paths, depth + 1, stop));
                lemma_holds_children(res, b);
                assert(holds(res[ob], b));
                assert forall|e: nat| #[trigger] holds(TreeShape::Internal(res), e) implies e == b || holds(t, e) by {
                    lemma_holds_children(res, e);
                    let i = choose|i: int| 0 <= i < 8 && #[trigger] holds(res[i], e);
                    if i == ob {
                        assert(holds(inserted(split[ob], b, paths, depth + 1, stop), e));
                        if e != b {
                            assert(holds(split[ob], e));
                            if ob == oe {
                                assert(split[ob] == child_e);
                                assert(holds(child_e, e));
                            } else {
                                assert(split[ob] == empty_children()[ob]);
                            }
                        }
                    } else if i == oe {
                        assert(res[i] == child_e);
                    } else {
                        assert(res[i] == empty_children()[i]);
                    }
                }
            },
            TreeShape::Internal(ch) => {
                lemma_placed_children(ch, paths, prefix);
                lemma_bounded_children(ch, depth, stop);
                let ob = paths[b as int]@[depth as int] as int;
                assert(0 <= ob < 8);
                lemma_push_prefix(paths[b as int]@, prefix, depth as int);
                assert(prefix.push(ob as u8) == prefix.push(paths[b as int]@[depth as int]));
                assert(placed(ch[ob], paths, prefix.push(ob as u8)));
                assert(bounded(ch[ob], depth + 1, stop));
                lemma_inserted_holds(ch[ob], b, paths, depth + 1, stop, prefix.push(ob as u8));
                let res = ch.update(ob, inserted(ch[ob], b, paths, depth + 1, stop));
                lemma_holds_children(res, b);
                assert(holds(res[ob], b));
                assert forall|e: nat| #[trigger] holds(TreeShape::Internal(res), e) implies e == b || holds(t, e) by {
                    lemma_holds_children(res, e);
                    lemma_holds_children(ch, e);
                    let i = choose|i: int| 0 <= i < 8 && #[trigger] holds(res[i], e);
                    if i == ob {
                        assert(holds(inserted(ch[ob], b, paths, depth + 1, stop), e));
                    } else {
                        assert(res[i] == ch[i]);
                    }
                }
            },
        }
    }
}

/// Inserting a body keeps every body whose path differs from the new body's
/// path somewhere above depth `stop`.
proof fn lemma_inserted_keeps(
    t: TreeShape,
    b: nat,
    e: nat,
    paths: Seq<Vec<u8>>,
    depth: nat,
    stop: nat,
    prefix: Seq<u8>,
)
    requires
        valid_paths(paths, stop),
        b < paths.len(),
        depth <= stop,
        prefix.len() == depth,
        paths[b as int]@.subrange(0, depth as int) == prefix,
        placed(t, paths, prefix),
        bounded(t, depth, stop),
        holds(t, e),
        e < paths.len(),
        paths[e as int]@.subrange(0, stop as int) != paths[b as int]@.subrange(0, stop as int),
    ensures
        holds(inserted(t, b, paths, depth, stop), e),
    decreases stop - depth,
{
    assert(paths[b as int]@.len() >= stop);
    assert(paths[e as int]@.len() >= stop);
    if depth >= stop {
        match t {
            TreeShape::Leaf(x) => {
                assert(x == e);
                assert(paths[e as int]@.subrange(0, stop as int) == prefix);
            },
            _ => {},
        }
    } else {
        match t {
            TreeShape::Empty => {},
            TreeShape::Leaf(x) => {
                assert(x == e);
                let oe = paths[x as int]@[depth as int] as int;
                let ob = paths[b as int]@[depth as int] as int;
                assert(0 <= oe < 8 && 0 <= ob < 8);
                lemma_push_prefix(paths[x as int]@, prefix, depth as int);
                lemma_push_prefix(paths[b as int]@, prefix, depth as int);
                assert(prefix.push(oe as u8) == prefix.push(paths[x as int]@[depth as int]));
                assert(prefix.push(ob as u8) == prefix.push(paths[b as int]@[depth as int]));
                lemma_empty_children_facts(paths, prefix, depth, stop, b);
                lemma_inserted_placed(TreeShape::Empty, x, paths, depth + 1, stop, prefix.push(oe as u8));
                lemma_inserted_holds(TreeShape::Empty, x, paths, depth + 1, stop, prefix.push(oe as u8));
                let child_e = inserted(TreeShape::Empty, x, paths, depth + 1, stop);
                let split = empty_children().update(oe, child_e);
                let res = split.update(ob, inserted(split[ob], b, paths, depth + 1, stop));
                lemma_holds_children(res, e);
                if ob == oe {
                    lemma_inserted_keeps(split[ob], b, e, paths, depth + 1, stop, prefix.push(ob as u8));
                    assert(holds(res[ob], e));
                } else {
                    assert(res[oe] == child_e);
                    assert(holds(res[oe], e));
                }
            },
            TreeShape::Internal(ch) => {
                lemma_placed_children(ch, paths, prefix);
                lemma_bounded_children(ch, depth, stop);
                lemma_holds_children(ch, e);
                let ob = paths[b as int]@[depth as int] as int;
                assert(0 <= ob < 8);
                lemma_push_prefix(paths[b as int]@, prefix, depth as int);
                assert(prefix.push(ob as u8) == prefix.push(paths[b as int]@[depth as int]));
                let res = ch.update(ob, inserted(ch[ob], b, paths, depth + 1, stop));
                lemma_holds_children(res, e);
                let i = choose|i: int| 0 <= i < 8 && #[trigger] holds(ch[i], e);
                if i == ob {
                    assert(placed(ch[ob], paths, prefix.push(ob as u8)));
                    assert(bounded(ch[ob], depth + 1, stop));
                    lemma_inserted_keeps(ch[ob], b, e, paths, depth + 1, stop, prefix.push(ob as u8));
                    assert(holds(res[ob], e));
                } else {
                    assert(res[i] == ch[i]);
                    assert(holds(res[i], e));
                }
            },
        }
    }
}

/// In the tree built from bodies `0..n`, every body lies in the region its
/// octant path selects, and internal nodes only occur above depth `stop`.
pub proof fn lemma_built_tree_placed(paths: Seq<Vec<u8>>, n: nat, stop: nat)
    requires
        valid_paths(paths, stop),
        n <= paths.len(),
    ensures
        placed(built(paths, n, stop), paths, Seq::empty()),
        bounded(built(paths, n, stop), 0, stop),
    decreases n,
{
    if n > 0 {
        lemma_built_tree_placed(paths, (n - 1) as nat, stop);
        assert(paths[n - 1]@.subrange(0, 0) =~= Seq::<u8>::empty());
        lemma_inserted_placed(built(paths, (n - 1) as nat, stop), (n - 1) as nat, paths, 0, stop, Seq::empty());
    }
}

/// The tree built from bodies `0..n` holds only those bodies, and always the
/// last one inserted.
pub proof fn lemma_built_tree_holds_only_inserted(paths: Seq<Vec<u8>>, n: nat, stop: nat)
    requires
        valid_paths(paths, stop),
        n <= paths.len(),
    ensures
        forall|e: nat| #[trigger] holds(built(paths, n, stop), e) ==> e < n,
        n > 0 ==> holds(built(paths, n, stop), (n - 1) as nat),
    decreases n,
{
    if n > 0 {
        lemma_built_tree_holds_only_inserted(paths, (n - 1) as nat, stop);
        lemma_built_tree_placed(paths, (n - 1) as nat, stop);
        assert(paths[n - 1]@.subrange(0, 0) =~= Seq::<u8>::empty());
        lemma_inserted_holds(built(paths, (n - 1) as nat, stop), (n - 1) as nat, paths, 0, stop, Seq::empty());
    }
}

/// No body is lost: when no two bodies share their octant path down to depth
/// `stop`, the tree built from bodies `0..n` holds every one of them.
pub proof fn lemma_built_tree_keeps_distinct_bodies(paths: Seq<Vec<u8>>, n: nat, stop: nat)
    requires
        valid_paths(paths, stop),
        n <= paths.len(),
        forall|i: int, j: int|
            0 <= i < n && 0 <= j < n && i != j ==> #[trigger] paths[i]@.subrange(0, stop as int)
                != #[trigger] paths[j]@.subrange(0, stop as int),
    ensures
        forall|b: nat| b < n ==> #[trigger] holds(built(paths, n, stop), b),
    decreases n,
{
    if n > 0 {
        let m = (n - 1) as nat;
        lemma_built_tree_keeps_distinct_bodies(paths, m, stop);
        lemma_built_tree_placed(paths, m, stop);
        lemma_built_tree_holds_only_inserted(paths, n, stop);
        assert(paths[m as int]@.subrange(0, 0) =~= Seq::<u8>::empty());
        assert forall|b: nat| b < n implies #[trigger] holds(built(paths, n, stop), b) by {
            if b < m {
                assert(holds(built(paths, m, stop), b));
                assert(paths[b as int]@.subrange(0, stop as int) != paths[m as int]@.subrange(0, stop as int));
                lemma_inserted_keeps(built(paths, m, stop), m, b, paths, 0, stop, Seq::empty());
            }
        }
    }
}

proof fn lemma_shapes_of_facts(s: Seq<OctreeNode>)
    ensures
        shapes_of(s).len() == s.len(),
        forall|i: int| 0 <= i < s.len() ==> #[trigger] shapes_of(s)[i] == shape_of(s[i]),
    decreases s.len(),
{
    if s.len() > 0 {
        lemma_shapes_of_facts(s.drop_last());
        assert forall|i: int| 0 <= i < s.len() implies #[trigger] shapes_of(s)[i] == shape_of(
            s[i],
        ) by {
            if i < s.len() - 1 {
                assert(s.drop_last()[i] == s[i]);
            }
        }
    }
}

proof fn lemma_shapes_of_update(s: Seq<OctreeNode>, i: int, x: OctreeNode)
    requires
        0 <= i < s.len(),
    ensures
        shapes_of(s.update(i, x)) == shapes_of(s).update(i, shape_of(x)),
{
    lemma_shapes_of_facts(s);
    lemma_shapes_of_facts(s.update(i, x));
    assert(shapes_of(s.update(i, x)) =~= shapes_of(s).update(i, shape_of(x)));
}

/// Inserts body `b` into the child of its octant at a node of depth `depth`.
fn insert_into_children(
    ch: Vec<OctreeNode>,
    b: usize,
    paths: &Vec<Vec<u8>>,
    depth: usize,
    stop: usize,
) -> (r: Vec<OctreeNode>)
    requires
        depth < stop,
        b < paths.len(),
        valid_paths(paths@, stop as nat),
        ch.len() == 8,
        forall|i: int| 0 <= i < 8 ==> well_formed(#[trigger] shape_of(ch@[i]), paths.len() as nat),
    ensures
        r.len() == 8,
        shapes_of(r@) == shapes_of(ch@).update(
            paths@[b as int]@[depth as int] as int,
            inserted(
                shapes_of(ch@)[paths@[b as int]@[depth as int] as int],
                b as nat,
                paths@,
                (depth + 1) as nat,
                stop as nat,
            ),
        ),
        forall|i: int| 0 <= i < 8 ==> well_formed(#[trigger] shape_of(r@[i]), paths.len() as nat),
    decreases stop - depth, 0nat,
{
    let mut ch = ch;
    let o = paths[b][depth] as usize;
    proof {
        lemma_shapes_of_facts(ch@);
    }
    let ghost old_ch = ch@;
    let child = ch.remove(o);
    let new_child = insert_body(child, b, paths, depth + 1, stop);
    ch.insert(o, new_child);
    proof {
        assert(ch@ =~= old_ch.update(o as int, new_child));
        lemma_shapes_of_update(old_ch, o as int, new_child);
        lemma_shapes_of_facts(ch@);
        assert forall|i: int| 0 <= i < 8 implies well_formed(
            #[trigger] shape_of(ch@[i]),
            paths.len() as nat,
        ) by {
            if i != o {
                assert(ch@[i] == old_ch[i]);
            }
        }
    }
    ch
}

/// Inserts body `b` into a node at depth `depth` (see [`inserted`]).
pub fn insert_body(
    node: OctreeNode,
    b: usize,
    paths: &Vec<Vec<u8>>,
    depth: usize,
    stop: usize,
) -> (r: OctreeNode)
    requires
        depth <= stop,
        b < paths.len(),
        valid_paths(paths@, stop as nat),
        well_formed(shape_of(node), paths.len() as nat),
    ensures
        shape_of(r) == inserted(shape_of(node), b as nat, paths@, depth as nat, stop as nat),
        well_formed(shape_of(r), paths.len() as nat),
        shape_of(node) == TreeShape::Empty ==> shape_of(r) == TreeShape::Leaf(b as nat),
    decreases stop - depth, 1nat,
{
    proof {
        lemma_insert_into_empty(b as nat, paths@, depth as nat, stop as nat);
    }
    if depth >= stop {
        return OctreeNode::Leaf(b);
    }
    match node {
        OctreeNode::Empty => OctreeNode::Leaf(b),
        OctreeNode::Leaf(e) => {
            let mut ch: Vec<OctreeNode> = Vec::new();
            let mut k: usize = 0;
            while k < 8
                invariant
                    k <= 8,
                    ch.len() == k,
                    forall|i: int| 0 <= i < k ==> #[trigger] ch@[i] == OctreeNode::Empty,
                decreases 8 - k,
            {
                ch.push(OctreeNode::Empty);
                k = k + 1;
            }
            proof {
                lemma_shapes_of_facts(ch@);
                assert(shapes_of(ch@) =~= empty_children());
            }
            let oe = paths[e][depth] as usize;
            let ghost empty_ch = ch@;
            let moved = ch.remove(oe);
            let moved = insert_body(moved, e, paths, depth + 1, stop);
            ch.insert(oe, moved);
            proof {
                assert(ch@ =~= empty_ch.update(oe as int, moved));
                lemma_shapes_of_update(empty_ch, oe as int, moved);
                lemma_shapes_of_facts(ch@);
                assert forall|i: int| 0 <= i < 8 implies well_formed(
                    #[trigger] shape_of(ch@[i]),
                    paths.len() as nat,
                ) by {
                    if i != oe {
                        assert(ch@[i] == empty_ch[i]);
                    }
                }
            }
            let r = insert_into_children(ch, b, paths, depth, stop);
            proof {
                lemma_shapes_of_facts(r@);
                assert forall|i: int| 0 <= i < 8 implies #[trigger] well_formed(
                    shapes_of(r@)[i],
                    paths.len() as nat,
                ) by {
                    assert(shapes_of(r@)[i] == shape_of(r@[i]));
                }
                lemma_internal_well_formed_from_children(shapes_of(r@), paths.len() as nat);
            }
            OctreeNode::Internal(r)
        },
        OctreeNode::Internal(ch) => {
            proof {
                assert(shape_of(node) == TreeShape::Internal(shapes_of(ch@)));
                lemma_internal_children_well_formed(shapes_of(ch@), paths.len() as nat);
                lemma_shapes_of_facts(ch@);
                assert forall|i: int| 0 <= i < 8 implies well_formed(
                    #[trigger] shape_of(ch@[i]),
                    paths.len() as nat,
                ) by {
                    assert(shapes_of(ch@)[i] == shape_of(ch@[i]));
                    assert(well_formed(shapes_of(ch@)[i], paths.len() as nat));
                }
            }
            let r = insert_into_children(ch, b, paths, depth, stop);
            proof {
                lemma_shapes_of_facts(r@);
                assert forall|i: int| 0 <= i < 8 implies #[trigger] well_formed(
                    shapes_of(r@)[i],
                    paths.len() as nat,
                ) by {
                    assert(shapes_of(r@)[i] == shape_of(r@[i]));
                }
                lemma_internal_well_formed_from_children(shapes_of(r@), paths.len() as nat);
            }
            OctreeNode::Internal(r)
        },
    }
}

/// Builds the octree shape by inserting bodies `0..paths.len()` in order;
/// `paths[b][d]` is the octant body `b` falls into at depth `d`, and nodes at
/// depth `stop` are leaves.
pub fn build_octree(paths: &Vec<Vec<u8>>, stop: usize) -> (root: OctreeNode)
    requires
        valid_paths(paths@, stop as nat),
    ensures
        shape_of(root) == built(paths@, paths.len() as nat, stop as nat),
        well_formed(shape_of(root), paths.len() as nat),
        paths.len() == 1 ==> shape_of(root) == TreeShape::Leaf(0),
{
    proof {
        if paths.len() == 1 {
            lemma_single_body_tree(paths@, stop as nat);
        }
    }
    let mut root = OctreeNode::Empty;
    let mut b: usize = 0;
    while b < paths.len()
        invariant
            b <= paths.len(),
            valid_paths(paths@, stop as nat),
            shape_of(root) == built(paths@, b as nat, stop as nat),
            well_formed(shape_of(root), paths.len() as nat),
        decreases paths.len() - b,
    {
        root = insert_body(root, b, paths, 0, stop);
        b = b + 1;
    }
    root
}

/// A body inserted into an empty node becomes a leaf there, at any depth:
/// nothing is subdivided for a single body.
pub proof fn lemma_insert_into_empty(b: nat, paths: Seq<Vec<u8>>, depth: nat, stop: nat)
    ensures
        inserted(TreeShape::Empty, b, paths, depth, stop) == TreeShape::Leaf(b),
{
}

/// The tree of a single body is one leaf holding it.
pub proof fn lemma_single_body_tree(paths: Seq<Vec<u8>>, stop: nat)
    ensures
        built(paths, 1, stop) == TreeShape::Leaf(0),
{
    assert(built(paths, 0, stop) == TreeShape::Empty);
    lemma_insert_into_empty(0, paths, 0, stop);
}

/// Above the depth limit, a body that arrives at a leaf whose body lies in a
/// different octant splits the leaf into eight children: the two bodies
/// become leaves in their own octants and the other six stay empty.
pub proof fn lemma_split_leaf(e: nat, b: nat, paths: Seq<Vec<u8>>, depth: nat, stop: nat)
    requires
        depth < stop,
        e < paths.len(),
        b < paths.len(),
        valid_paths(paths, stop),
        paths[e as int]@[depth as int] != paths[b as int]@[depth as int],
    ensures
        ({
            let oe = paths[e as int]@[depth as int] as int;
            let ob = paths[b as int]@[depth as int] as int;
            inserted(TreeShape::Leaf(e), b, paths, depth, stop) == TreeShape::Internal(
                Seq::new(
                    8,
                    |i: int|
                        if i == oe {
                            TreeShape::Leaf(e)
                        } else if i == ob {
                            TreeShape::Leaf(b)
                        } else {
                            TreeShape::Empty
                        },
                ),
            )
        }),
{
    let oe = paths[e as int]@[depth as int] as int;
    let ob = paths[b as int]@[depth as int] as int;
    assert(paths[e as int]@.len() >= stop);
    assert(paths[b as int]@.len() >= stop);
    lemma_insert_into_empty(e, paths, depth + 1, stop);
    lemma_insert_into_empty(b, paths, depth + 1, stop);
    let split = empty_children().update(oe, inserted(TreeShape::Empty, e, paths, depth + 1, stop));
    assert(split[ob] == TreeShape::Empty);
    let r = split.update(ob, inserted(split[ob], b, paths, depth + 1, stop));
    assert(r =~= Seq::new(
        8,
        |i: int|
            if i == oe {
                TreeShape::Leaf(e)
            } else if i == ob {
                TreeShape::Leaf(b)
            } else {
                TreeShape::Empty
            },
    ));
}

/// At or below the depth limit a node always becomes a leaf holding the body
/// inserted last, whatever it held before.
pub proof fn lemma_insert_at_depth_limit(t: TreeShape, b: nat, paths: Seq<Vec<u8>>, depth: nat, stop: nat)
    requires
        depth >= stop,
    ensures
        inserted(t, b, paths, depth, stop) == TreeShape::Leaf(b),
{
}

/// Above the depth limit, a body that reaches a subdivided node changes only
/// the child of its own octant; the other seven children stay as they were.
pub proof fn lemma_insert_into_internal(
    ch: Seq<TreeShape>,
    b: nat,
    paths: Seq<Vec<u8>>,
    depth: nat,
    stop: nat,
)
    requires
        depth < stop,
        ch.len() == 8,
        b < paths.len(),
        valid_paths(paths, stop),
    ensures
        ({
            let ob = paths[b as int]@[depth as int] as int;
            let r = inserted(TreeShape::Internal(ch), b, paths, depth, stop);
            &&& r is Internal
            &&& r->Internal_0.len() == 8
            &&& forall|i: int| 0 <= i < 8 && i != ob ==> r->Internal_0[i] == ch[i]
            &&& r->Internal_0[ob] == inserted(ch[ob], b, paths, depth + 1, stop)
        }),
{
    assert(paths[b as int]@.len() >= stop);
}

/// Above the depth limit, a body that arrives at a leaf whose body lies in the
/// same octant moves both bodies one level down into that octant; the other
/// seven children are empty.
pub proof fn lemma_split_leaf_same_octant(e: nat, b: nat, paths: Seq<Vec<u8>>, depth: nat, stop: nat)
    requires
        depth < stop,
        e < paths.len(),
        b < paths.len(),
        valid_paths(paths, stop),
        paths[e as int]@[depth as int] == paths[b as int]@[depth as int],
    ensures
        ({
            let o = paths[b as int]@[depth as int] as int;
            let r = inserted(TreeShape::Leaf(e), b, paths, depth, stop);
            &&& r is Internal
            &&& r->Internal_0.len() == 8
            &&& forall|i: int| 0 <= i < 8 && i != o ==> r->Internal_0[i] == TreeShape::Empty
            &&& r->Internal_0[o] == inserted(TreeShape::Leaf(e), b, paths, depth + 1, stop)
        }),
{
    assert(paths[b as int]@.len() >= stop);
    lemma_insert_into_empty(e, paths, depth + 1, stop);
}

} // verus!
