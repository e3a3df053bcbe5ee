//! What the bits of a plane's cell trees mean: which part of the plane
//! each leaf covers, and in what order the leaves come.
use super::geometry_bank::{child_extent, children_tile_their_node};
use super::macroblock::{
    lemma_motion_leaf, lemma_node_bits, lemma_vq_leaf, motion_leaf, node_bits, plane_tree,
    tree_walk, vq_leaf, vq_walk, CellModel, MacroblockError, NodeRect, VqCell, VqLeaf, VqNull,
};
use super::plane_model::{next_bit, Cursor};
use vstd::prelude::*;

verus! {

/// Parts `a` and `b` are the upper and the lower part of a node: they have
/// its columns, and their rows follow one another.
pub open spec fn stacked_parts(node: NodeRect, a: NodeRect, b: NodeRect) -> bool {
    &&& a.x == node.x
    &&& b.x == node.x
    &&& a.w == node.w
    &&& b.w == node.w
    &&& a.y == node.y
    &&& b.y == node.y + a.h
    &&& a.h + b.h == node.h
    &&& halves(node.h as int, a.h as int)
}

/// Parts `a` and `b` are the left and the right part of a node: they have
/// its rows, and their columns follow one another.
pub open spec fn parts_beside(node: NodeRect, a: NodeRect, b: NodeRect) -> bool {
    &&& a.y == node.y
    &&& b.y == node.y
    &&& a.h == node.h
    &&& b.h == node.h
    &&& a.x == node.x
    &&& b.x == node.x + a.w
    &&& a.w + b.w == node.w
    &&& halves(node.w as int, a.w as int)
}

/// The first part of an extent: the nearest half in whole groups of eight
/// above eight, the larger half up to eight. Extents from 504 on keep the
/// low eight bits of it.
pub open spec fn halves(extent: int, first: int) -> bool {
    &&& 8 < extent < 504 ==> first % 8 == 0 && extent - 8 < 2 * first <= extent + 8
    &&& extent <= 8 ==> first == (extent + 1) / 2
    &&& 0 <= first <= extent
}

proof fn lemma_parts(node: NodeRect)
    requires
        node.x + node.w <= u32::MAX,
        node.y + node.h <= u32::MAX,
    ensures
        stacked_parts(node, node.stacked(false), node.stacked(true)),
        parts_beside(node, node.beside(false), node.beside(true)),
{
    children_tile_their_node(node.w as int);
    children_tile_their_node(node.h as int);
}

/// A VQ node whose bits are `0 0` is split into its upper and its lower
/// part, and one whose bits are `0 1` into its left and its right part;
/// the first part is walked before the second one, and both before the
/// nodes that were pending.
pub proof fn vq_splits_follow_their_bits(
    data: Seq<u8>,
    c: Cursor,
    rest: Seq<NodeRect>,
    node: NodeRect,
    leaves: Seq<VqCell>,
    a: NodeRect,
    b: NodeRect,
    b1: int,
    c1: Cursor,
)
    requires
        c.inside(data),
        node.x + node.w <= u32::MAX,
        node.y + node.h <= u32::MAX,
        node_bits(data, c) == Some((0int, b1, c1)),
        b1 == 0 || b1 == 1,
        b1 == 0 ==> stacked_parts(node, a, b) && (node.h >= 504 ==> a.h == child_extent(
            node.h as int,
            false,
        )),
        b1 == 1 ==> parts_beside(node, a, b) && (node.w >= 504 ==> a.w == child_extent(
            node.w as int,
            false,
        )),
    ensures
        vq_walk(data, c, rest.push(node), leaves) == vq_walk(
            data,
            c1,
            rest.push(b).push(a),
            leaves,
        ),
{
    lemma_parts(node);
    lemma_node_bits(data, c);
    let pending = rest.push(node);
    assert(pending.drop_last() =~= rest);
    assert(pending.last() == node);
    let (p, q) = if b1 == 1 {
        (node.beside(false), node.beside(true))
    } else {
        (node.stacked(false), node.stacked(true))
    };
    lemma_half_is_unique(node.w as int, node.beside(false).w as int, a.w as int);
    lemma_half_is_unique(node.h as int, node.stacked(false).h as int, a.h as int);
    assert(p == a && q == b);
    assert(rest + node.split(b1 == 1) =~= rest.push(b).push(a));
}

proof fn lemma_half_is_unique(extent: int, f: int, g: int)
    requires
        halves(extent, f),
    ensures
        extent < 504 && halves(extent, g) ==> f == g,
{
}

/// The same of the motion tree.
pub proof fn motion_splits_follow_their_bits(
    data: Seq<u8>,
    c: Cursor,
    rest: Seq<NodeRect>,
    node: NodeRect,
    cells: Seq<CellModel>,
    vectors: int,
    a: NodeRect,
    b: NodeRect,
    b1: int,
    c1: Cursor,
)
    requires
        c.inside(data),
        node.x + node.w <= u32::MAX,
        node.y + node.h <= u32::MAX,
        node_bits(data, c) == Some((0int, b1, c1)),
        b1 == 0 || b1 == 1,
        b1 == 0 ==> stacked_parts(node, a, b) && (node.h >= 504 ==> a.h == child_extent(
            node.h as int,
            false,
        )),
        b1 == 1 ==> parts_beside(node, a, b) && (node.w >= 504 ==> a.w == child_extent(
            node.w as int,
            false,
        )),
    ensures
        tree_walk(data, c, rest.push(node), cells, vectors) == tree_walk(
            data,
            c1,
            rest.push(b).push(a),
            cells,
            vectors,
        ),
{
    lemma_parts(node);
    lemma_node_bits(data, c);
    let pending = rest.push(node);
    assert(pending.drop_last() =~= rest);
    assert(pending.last() == node);
    let (p, q) = if b1 == 1 {
        (node.beside(false), node.beside(true))
    } else {
        (node.stacked(false), node.stacked(true))
    };
    lemma_half_is_unique(node.w as int, node.beside(false).w as int, a.w as int);
    lemma_half_is_unique(node.h as int, node.stacked(false).h as int, a.h as int);
    assert(p == a && q == b);
    assert(rest + node.split(b1 == 1) =~= rest.push(b).push(a));
}

/// The two bits of a node are the next two bits of the payload.
pub proof fn nodes_are_two_bits(data: Seq<u8>, c: Cursor)
    ensures
        match node_bits(data, c) {
            Some((b0, b1, c1)) => {
                &&& next_bit(data, c) is Some
                &&& (next_bit(data, c)->0).0 == b0
                &&& next_bit(data, (next_bit(data, c)->0).1) == Some((b1, c1))
            },
            None => next_bit(data, c) is None || next_bit(data, (next_bit(data, c)->0).1) is None,
        },
{
}

/// The cell of a leaf has the leaf's top left corner and its extents in
/// whole groups of four; a leaf under four samples either way is refused.
pub open spec fn covers(node: NodeRect, rect: NodeRect) -> bool {
    &&& node.w >= 4
    &&& node.h >= 4
    &&& rect.x == node.x
    &&& rect.y == node.y
    &&& rect.w == node.w - node.w % 4
    &&& rect.h == node.h - node.h % 4
}

/// A VQ leaf `1 1` is coded, and so is `1 0 1`: the next whole byte is its
/// mode byte, and the bits go on after it. `1 0 0 0` is a copy and
/// `1 0 0 1` a skip.
pub proof fn vq_leaves_follow_their_bits(data: Seq<u8>, c: Cursor, node: NodeRect, b1: int)
    requires
        c.inside(data),
        b1 == 0 || b1 == 1,
    ensures
        match vq_leaf(data, c, node, b1) {
            Ok((cell, after)) => {
                &&& covers(node, cell.rect)
                &&& if b1 == 1 {
                    &&& c.pos < data.len()
                    &&& cell.leaf == VqLeaf::Data { mode: data[c.pos] }
                    &&& after == Cursor { pos: c.pos + 1, acc: c.acc, nbits: c.nbits }
                } else {
                    &&& next_bit(data, c) matches Some((s0, c0))
                    &&& if s0 == 1 {
                        &&& c0.pos < data.len()
                        &&& cell.leaf == VqLeaf::Data { mode: data[c0.pos] }
                        &&& after == Cursor { pos: c0.pos + 1, acc: c0.acc, nbits: c0.nbits }
                    } else {
                        &&& next_bit(data, c0) matches Some((s1, c1))
                        &&& s1 == 0 ==> cell.leaf == VqLeaf::Null(VqNull::Copy)
                        &&& s1 != 0 ==> cell.leaf == VqLeaf::Null(VqNull::Skip)
                        &&& after == c1
                    }
                }
            },
            Err(e) => if node.w < 4 || node.h < 4 {
                e == MacroblockError::UnderFourNode
            } else {
                &&& e == MacroblockError::StreamExhausted
                &&& if b1 == 1 {
                    c.pos >= data.len()
                } else {
                    match next_bit(data, c) {
                        None => true,
                        Some((s0, c0)) => if s0 == 1 {
                            c0.pos >= data.len()
                        } else {
                            next_bit(data, c0) is None
                        },
                    }
                }
            },
        },
{
}

/// A VQ node whose first bit is 1 is one leaf, which comes after the
/// leaves before it; a payload that ends before a node's bits is
/// exhausted; a tree is done when no node is left.
pub proof fn vq_leaves_come_in_stream_order(
    data: Seq<u8>,
    c: Cursor,
    rest: Seq<NodeRect>,
    node: NodeRect,
    leaves: Seq<VqCell>,
)
    requires
        c.inside(data),
    ensures
        vq_walk(data, c, Seq::empty(), leaves).leaves == leaves,
        vq_walk(data, c, Seq::empty(), leaves).cursor == c,
        vq_walk(data, c, Seq::empty(), leaves).error is None,
        ({
            let end = vq_walk(data, c, rest.push(node), leaves);
            match node_bits(data, c) {
                None => end.error == Some(MacroblockError::StreamExhausted),
                Some((b0, b1, c1)) => b0 != 0 ==> match vq_leaf(data, c1, node, b1) {
                    Err(e) => end.error == Some(e),
                    Ok((leaf, d)) => end == vq_walk(data, d, rest, leaves.push(leaf)),
                },
            }
        }),
{
    let pending = rest.push(node);
    assert(pending.drop_last() =~= rest);
    assert(pending.last() == node);
    lemma_node_bits(data, c);
    if let Some((b0, b1, c1)) = node_bits(data, c) {
        lemma_vq_leaf(data, c1, node, b1);
    }
}

/// The leaves of pending nodes are those of the node walked first, then
/// those of the others: walking a node alone and going on with the others
/// from where it ends is the same.
pub proof fn nodes_are_walked_in_turn(
    data: Seq<u8>,
    c: Cursor,
    rest: Seq<NodeRect>,
    nodes: Seq<NodeRect>,
    leaves: Seq<VqCell>,
)
    requires
        c.inside(data),
    ensures
        ({
            let first = vq_walk(data, c, nodes, leaves);
            let both = vq_walk(data, c, rest + nodes, leaves);
            match first.error {
                Some(e) => both.error == Some(e),
                None => both == vq_walk(data, first.cursor, rest, first.leaves),
            }
        }),
    decreases c.bits_left(data),
{
    let all = rest + nodes;
    if nodes.len() == 0 {
        assert(all =~= rest);
    } else {
        let node = nodes.last();
        assert(all.last() == node);
        assert(all.drop_last() =~= rest + nodes.drop_last());
        lemma_node_bits(data, c);
        if let Some((b0, b1, c1)) = node_bits(data, c) {
            if b0 == 0 {
                let more = nodes.drop_last() + node.split(b1 == 1);
                assert(all.drop_last() + node.split(b1 == 1) =~= rest + more);
                nodes_are_walked_in_turn(data, c1, rest, more, leaves);
            } else {
                lemma_vq_leaf(data, c1, node, b1);
                if let Ok((leaf, d)) = vq_leaf(data, c1, node, b1) {
                    nodes_are_walked_in_turn(data, d, rest, nodes.drop_last(), leaves.push(leaf));
                }
            }
        }
    }
}

/// A motion leaf `1 1` is INTER: the next whole byte is its vector index,
/// which must be below the plane's vector count. `1 0` is INTRA: its VQ
/// tree, over the whole leaf, follows.
pub proof fn motion_leaves_follow_their_bits(
    data: Seq<u8>,
    c: Cursor,
    node: NodeRect,
    b1: int,
    vectors: int,
)
    requires
        c.inside(data),
        b1 == 0 || b1 == 1,
        0 <= vectors <= u32::MAX,
    ensures
        match motion_leaf(data, c, node, b1, vectors) {
            Ok((cell, after)) => if b1 == 1 {
                &&& c.pos < data.len()
                &&& data[c.pos] < vectors
                &&& cell matches CellModel::Inter { rect, mv_index }
                &&& covers(node, rect)
                &&& mv_index == data[c.pos]
                &&& after == Cursor { pos: c.pos + 1, acc: c.acc, nbits: c.nbits }
            } else {
                let tree = vq_walk(data, c, Seq::empty().push(node), Seq::empty());
                &&& cell matches CellModel::Intra { rect, vq_leaves }
                &&& covers(node, rect)
                &&& tree.error is None
                &&& vq_leaves == tree.leaves
                &&& after == tree.cursor
            },
            Err(e) => if node.w < 4 || node.h < 4 {
                e == MacroblockError::UnderFourNode
            } else if b1 == 1 && c.pos >= data.len() {
                e == MacroblockError::StreamExhausted
            } else if b1 == 1 {
                &&& data[c.pos] >= vectors
                &&& e == MacroblockError::BadVectorIndex {
                    index: data[c.pos],
                    num_vectors: vectors as u32,
                }
            } else {
                vq_walk(data, c, Seq::empty().push(node), Seq::empty()).error == Some(e)
            },
        },
{
    assert(Seq::<NodeRect>::empty().push(node) =~= seq![node]);
}

/// A motion node whose first bit is 1 is one cell, which comes after the
/// cells before it. The plane is one node from its top left corner on, and
/// its tree starts with the first bit of the payload.
pub proof fn cells_come_in_stream_order(
    data: Seq<u8>,
    c: Cursor,
    rest: Seq<NodeRect>,
    node: NodeRect,
    cells: Seq<CellModel>,
    vectors: int,
    width: u32,
    height: u32,
)
    requires
        c.inside(data),
    ensures
        tree_walk(data, c, Seq::empty(), cells, vectors).cells == cells,
        tree_walk(data, c, Seq::empty(), cells, vectors).error is None,
        ({
            let end = tree_walk(data, c, rest.push(node), cells, vectors);
            match node_bits(data, c) {
                None => end.error == Some(MacroblockError::StreamExhausted),
                Some((b0, b1, c1)) => b0 != 0 ==> match motion_leaf(data, c1, node, b1, vectors) {
                    Err(e) => end.error == Some(e),
                    Ok((cell, d)) => end == tree_walk(data, d, rest, cells.push(cell), vectors),
                },
            }
        }),
        plane_tree(data, width, height, vectors) == tree_walk(
            data,
            Cursor { pos: 0, acc: 0, nbits: 0 },
            Seq::empty().push(NodeRect { x: 0, y: 0, w: width, h: height }),
            Seq::empty(),
            vectors,
        ),
{
    let pending = rest.push(node);
    assert(pending.drop_last() =~= rest);
    assert(pending.last() == node);
    lemma_node_bits(data, c);
    if let Some((b0, b1, c1)) = node_bits(data, c) {
        lemma_motion_leaf(data, c1, node, b1, vectors);
    }
    let root = NodeRect { x: 0, y: 0, w: width, h: height };
    assert(Seq::<NodeRect>::empty().push(root) =~= seq![root]);
}

/// An INTRA plane whose VQ tree starts with a split: the bits `0 0` give
/// it the leaves of its upper part and then those of its lower part, and
/// `0 1` those of its left part and then those of its right part.
pub proof fn split_planes_have_the_leaves_of_their_parts(
    data: Seq<u8>,
    c: Cursor,
    node: NodeRect,
    a: NodeRect,
    b: NodeRect,
    b1: int,
    c1: Cursor,
)
    requires
        c.inside(data),
        node.x + node.w <= u32::MAX,
        node.y + node.h <= u32::MAX,
        node.w < 504,
        node.h < 504,
        node_bits(data, c) == Some((0int, b1, c1)),
        b1 == 0 ==> stacked_parts(node, a, b),
        b1 == 1 ==> parts_beside(node, a, b),
        b1 == 0 || b1 == 1,
    ensures
        ({
            let none = Seq::<VqCell>::empty();
            let whole = vq_walk(data, c, Seq::empty().push(node), none);
            let first = vq_walk(data, c1, Seq::empty().push(a), none);
            match first.error {
                Some(e) => whole.error == Some(e),
                None => whole == vq_walk(
                    data,
                    first.cursor,
                    Seq::empty().push(b),
                    first.leaves,
                ),
            }
        }),
{
    let none = Seq::<VqCell>::empty();
    lemma_node_bits(data, c);
    vq_splits_follow_their_bits(data, c, Seq::empty(), node, none, a, b, b1, c1);
    let rest = Seq::<NodeRect>::empty().push(b);
    let nodes = Seq::<NodeRect>::empty().push(a);
    assert(rest + nodes =~= Seq::<NodeRect>::empty().push(b).push(a));
    nodes_are_walked_in_turn(data, c1, rest, nodes, none);
}

/// A leaf lies in a part of its plane.
pub open spec fn lies_in(rect: NodeRect, node: NodeRect) -> bool {
    &&& node.x <= rect.x
    &&& node.y <= rect.y
    &&& rect.x + rect.w <= node.x + node.w
    &&& rect.y + rect.h <= node.y + node.h
}

/// The leaves of a node lie in it.
pub proof fn leaves_lie_in_their_node(
    data: Seq<u8>,
    c: Cursor,
    nodes: Seq<NodeRect>,
    leaves: Seq<VqCell>,
    node: NodeRect,
    i: int,
)
    requires
        c.inside(data),
        node.x + node.w <= u32::MAX,
        node.y + node.h <= u32::MAX,
        forall|k: int| 0 <= k < nodes.len() ==> lies_in(#[trigger] nodes[k], node),
        vq_walk(data, c, nodes, leaves).error is None,
        leaves.len() <= i < vq_walk(data, c, nodes, leaves).leaves.len(),
    ensures
        lies_in(vq_walk(data, c, nodes, leaves).leaves[i].rect, node),
        vq_walk(data, c, nodes, leaves).leaves.len() >= leaves.len(),
    decreases c.bits_left(data),
{
    if nodes.len() > 0 {
        let top = nodes.last();
        assert(lies_in(nodes[nodes.len() - 1], node));
        lemma_node_bits(data, c);
        let (b0, b1, c1) = node_bits(data, c)->0;
        if b0 == 0 {
            lemma_parts(top);
            let more = nodes.drop_last() + top.split(b1 == 1);
            assert forall|k: int| 0 <= k < more.len() implies lies_in(#[trigger] more[k], node) by {
                if k < nodes.len() - 1 {
                    assert(more[k] == nodes[k]);
                } else {
                    assert(more[k] == top.split(b1 == 1)[k - (nodes.len() - 1)]);
                }
            }
            leaves_lie_in_their_node(data, c1, more, leaves, node, i);
        } else {
            lemma_vq_leaf(data, c1, top, b1);
            let (leaf, d) = vq_leaf(data, c1, top, b1)->Ok_0;
            let end = vq_walk(data, d, nodes.drop_last(), leaves.push(leaf));
            if i == leaves.len() {
                lemma_leaves_stand(data, d, nodes.drop_last(), leaves.push(leaf), i);
            } else {
                leaves_lie_in_their_node(
                    data,
                    d,
                    nodes.drop_last(),
                    leaves.push(leaf),
                    node,
                    i,
                );
            }
        }
    }
}

/// Leaves that were read stay as they are.
proof fn lemma_leaves_stand(
    data: Seq<u8>,
    c: Cursor,
    nodes: Seq<NodeRect>,
    leaves: Seq<VqCell>,
    i: int,
)
    requires
        c.inside(data),
        0 <= i < leaves.len(),
    ensures
        vq_walk(data, c, nodes, leaves).leaves.len() >= leaves.len(),
        vq_walk(data, c, nodes, leaves).leaves[i] == leaves[i],
    decreases c.bits_left(data),
{
    if nodes.len() > 0 {
        let top = nodes.last();
        lemma_node_bits(data, c);
        if let Some((b0, b1, c1)) = node_bits(data, c) {
            if b0 == 0 {
                lemma_leaves_stand(data, c1, nodes.drop_last() + top.split(b1 == 1), leaves, i);
            } else {
                lemma_vq_leaf(data, c1, top, b1);
                if let Ok((leaf, d)) = vq_leaf(data, c1, top, b1) {
                    lemma_leaves_stand(data, d, nodes.drop_last(), leaves.push(leaf), i);
                }
            }
        }
    }
}

} // verus!
