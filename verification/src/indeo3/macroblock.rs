//! The cell trees of a plane: the binary motion tree, whose leaves are
//! INTRA and INTER cells, and the VQ tree below each INTRA cell.
//!
//! Every node is two bits, most significant first: `00` splits the node
//! into an upper and a lower child, `01` into a left and a right one. A
//! motion leaf is `10` (INTRA) or `11` (INTER, with a vector index byte).
//! A VQ leaf is `11` (coded, with a mode byte) or `10` (NULL), which is
//! followed by `1` (coded after all, with a mode byte), `00` (copy) or
//! `01` (skip).
use super::cell_decoder::Reader;
use super::geometry_bank::{child_extent, children_tile_their_node, split_extent};
use super::plane_model::{next_bit, Cursor};
use super::text::{decimal, push_decimal};
use vstd::prelude::*;
use vstd::slice::slice_subrange;
use vstd::string::StringExecFns;

verus! {

/// A node's rectangle in its plane.
#[derive(Debug, Clone, Copy, PartialEq, Eq, Structural)]
pub struct NodeRect {
    /// Left column.
    pub x: u32,
    /// Top row.
    pub y: u32,
    /// Width in samples.
    pub w: u32,
    /// Height in samples.
    pub h: u32,
}

impl NodeRect {
    /// The number of samples.
    pub open spec fn area(self) -> int {
        self.w * self.h
    }

    /// The rectangle lies in a plane.
    pub open spec fn within(self, width: int, height: int) -> bool {
        &&& self.x + self.w <= width
        &&& self.y + self.h <= height
    }

    /// The upper (or, with `second`, the lower) child.
    pub open spec fn stacked(self, second: bool) -> Self {
        NodeRect {
            y: (self.y + if second {
                child_extent(self.h as int, false)
            } else {
                0
            }) as u32,
            h: child_extent(self.h as int, second) as u32,
            ..self
        }
    }

    /// The left (or, with `second`, the right) child.
    pub open spec fn beside(self, second: bool) -> Self {
        NodeRect {
            x: (self.x + if second {
                child_extent(self.w as int, false)
            } else {
                0
            }) as u32,
            w: child_extent(self.w as int, second) as u32,
            ..self
        }
    }

    /// The two children, the second one first, so that the first one is
    /// taken first.
    pub open spec fn split(self, side_by_side: bool) -> Seq<NodeRect> {
        if side_by_side {
            seq![self.beside(true), self.beside(false)]
        } else {
            seq![self.stacked(true), self.stacked(false)]
        }
    }

    /// The cell of a leaf: whole groups of four samples each way. A leaf
    /// under four samples has none.
    pub open spec fn cell(self) -> Option<NodeRect> {
        if self.w < 4 || self.h < 4 {
            None
        } else {
            Some(NodeRect { w: (self.w / 4 * 4) as u32, h: (self.h / 4 * 4) as u32, ..self })
        }
    }

    /// The cell of a leaf.
    fn leaf_cell(self) -> (r: Result<NodeRect, MacroblockError>)
        ensures
            match r {
                Ok(c) => self.cell() == Some(c),
                Err(e) => self.cell() is None && e == MacroblockError::UnderFourNode,
            },
    {
        if self.w < 4 || self.h < 4 {
            Err(MacroblockError::UnderFourNode)
        } else {
            Ok(NodeRect { w: self.w / 4 * 4, h: self.h / 4 * 4, ..self })
        }
    }

    /// Push the two children.
    fn push_children(
        self,
        side_by_side: bool,
        pending: &mut Vec<NodeRect>,
        Ghost(width): Ghost<int>,
        Ghost(height): Ghost<int>,
    )
        requires
            width <= u32::MAX - 8,
            height <= u32::MAX - 8,
            self.within(width, height),
        ensures
            final(pending)@ == old(pending)@ + self.split(side_by_side),
    {
        let ghost before = pending@;
        proof {
            children_tile_their_node(self.w as int);
            children_tile_their_node(self.h as int);
        }
        if side_by_side {
            let (first, second) = split_extent(self.w);
            pending.push(NodeRect { x: self.x + first, w: second, ..self });
            pending.push(NodeRect { w: first, ..self });
        } else {
            let (first, second) = split_extent(self.h);
            pending.push(NodeRect { y: self.y + first, h: second, ..self });
            pending.push(NodeRect { h: first, ..self });
        }
        assert(pending@ =~= before + self.split(side_by_side));
    }
}

/// Why a plane's trees do not parse.
#[derive(Debug, Clone, Copy, PartialEq, Eq, Structural)]
pub enum MacroblockError {
    /// The payload ends inside the trees.
    StreamExhausted,
    /// A leaf is under four samples wide or high.
    UnderFourNode,
    /// An INTER leaf names a vector the plane does not have.
    BadVectorIndex {
        /// The index.
        index: u8,
        /// The plane's vector count.
        num_vectors: u32,
    },
}

impl MacroblockError {
    /// The message of the error.
    pub open spec fn text(self) -> Seq<char> {
        match self {
            MacroblockError::StreamExhausted => "payload exhausted inside the cell trees"@,
            MacroblockError::UnderFourNode => "leaf under four samples"@,
            MacroblockError::BadVectorIndex { index, num_vectors } => "vector index "@ + decimal(
                index as int,
            ) + " of a plane with "@ + decimal(num_vectors as int) + " vector(s)"@,
        }
    }

    /// The message of the error.
    pub fn message(&self) -> (r: String)
        ensures
            r@ == self.text(),
    {
        match self {
            MacroblockError::StreamExhausted => String::from_str(
                "payload exhausted inside the cell trees",
            ),
            MacroblockError::UnderFourNode => String::from_str("leaf under four samples"),
            MacroblockError::BadVectorIndex { index, num_vectors } => {
                let mut out = String::from_str("vector index ");
                push_decimal(&mut out, *index as usize);
                out.append(" of a plane with ");
                push_decimal(&mut out, *num_vectors as usize);
                out.append(" vector(s)");
                out
            },
        }
    }
}

/// What a VQ_NULL leaf asks for.
#[derive(Debug, Clone, Copy, PartialEq, Eq, Structural)]
pub enum VqNull {
    /// Copy the row above.
    Copy,
    /// Keep the content and mark it.
    Skip,
}

/// A leaf of a VQ tree.
#[derive(Debug, Clone, Copy, PartialEq, Eq, Structural)]
pub enum VqLeaf {
    /// A coded cell.
    Data {
        /// Its mode byte.
        mode: u8,
    },
    /// A NULL cell.
    Null(VqNull),
}

/// A VQ leaf and its rectangle.
#[derive(Debug, Clone, Copy, PartialEq, Eq, Structural)]
pub struct VqCell {
    /// The rectangle.
    pub rect: NodeRect,
    /// The leaf.
    pub leaf: VqLeaf,
}

/// A leaf of the motion tree.
#[derive(Debug, Clone, PartialEq, Eq)]
pub enum Cell {
    /// A motion-compensated cell.
    Inter {
        /// Its rectangle.
        rect: NodeRect,
        /// Its vector index.
        mv_index: u8,
    },
    /// A cell with a VQ tree.
    Intra {
        /// Its rectangle.
        rect: NodeRect,
        /// The leaves of its VQ tree, in stream order.
        vq_leaves: Vec<VqCell>,
    },
}

/// The mathematical value of a [`Cell`].
pub ghost enum CellModel {
    Inter { rect: NodeRect, mv_index: u8 },
    Intra { rect: NodeRect, vq_leaves: Seq<VqCell> },
}

impl View for Cell {
    type V = CellModel;

    open spec fn view(&self) -> CellModel {
        match self {
            Cell::Inter { rect, mv_index } => CellModel::Inter { rect: *rect, mv_index: *mv_index },
            Cell::Intra { rect, vq_leaves } => CellModel::Intra {
                rect: *rect,
                vq_leaves: vq_leaves@,
            },
        }
    }
}

/// The cells of a plane.
#[derive(Debug, Clone, PartialEq, Eq)]
pub struct CellTree {
    /// Plane width in samples.
    pub plane_width: u32,
    /// Plane height in samples.
    pub plane_height: u32,
    /// The cells, in stream order.
    pub cells: Vec<Cell>,
}

/// The cells as mathematical values.
pub open spec fn cell_models(cells: Seq<Cell>) -> Seq<CellModel> {
    Seq::new(cells.len(), |i: int| cells[i]@)
}

/// Where the walk of a VQ tree ends.
pub ghost struct VqEnd {
    pub cursor: Cursor,
    pub leaves: Seq<VqCell>,
    pub error: Option<MacroblockError>,
}

/// A coded leaf: its mode byte.
pub open spec fn data_leaf(data: Seq<u8>, c: Cursor, rect: NodeRect) -> Result<
    (VqCell, Cursor),
    MacroblockError,
> {
    if c.pos < data.len() {
        Ok(
            (
                VqCell { rect, leaf: VqLeaf::Data { mode: data[c.pos] } },
                Cursor { pos: c.pos + 1, ..c },
            ),
        )
    } else {
        Err(MacroblockError::StreamExhausted)
    }
}

/// A leaf of a VQ tree: `b1` is the second bit of its node.
pub open spec fn vq_leaf(data: Seq<u8>, c: Cursor, node: NodeRect, b1: int) -> Result<
    (VqCell, Cursor),
    MacroblockError,
> {
    match node.cell() {
        None => Err(MacroblockError::UnderFourNode),
        Some(rect) => if b1 == 1 {
            data_leaf(data, c, rect)
        } else {
            match next_bit(data, c) {
                None => Err(MacroblockError::StreamExhausted),
                Some((s0, c0)) => if s0 == 1 {
                    data_leaf(data, c0, rect)
                } else {
                    match next_bit(data, c0) {
                        None => Err(MacroblockError::StreamExhausted),
                        Some((s1, c1)) => Ok(
                            (
                                VqCell {
                                    rect,
                                    leaf: VqLeaf::Null(
                                        if s1 == 0 {
                                            VqNull::Copy
                                        } else {
                                            VqNull::Skip
                                        },
                                    ),
                                },
                                c1,
                            ),
                        ),
                    }
                },
            }
        },
    }
}

/// The two bits of a node and the cursor after them.
pub open spec fn node_bits(data: Seq<u8>, c: Cursor) -> Option<(int, int, Cursor)> {
    match next_bit(data, c) {
        None => None,
        Some((b0, c0)) => match next_bit(data, c0) {
            None => None,
            Some((b1, c1)) => Some((b0, b1, c1)),
        },
    }
}

/// A node takes two bits.
pub proof fn lemma_node_bits(data: Seq<u8>, c: Cursor)
    requires
        c.inside(data),
    ensures
        node_bits(data, c) matches Some((b0, b1, c1)) ==> c1.inside(data) && c1.bits_left(data)
            == c.bits_left(data) - 2,
{
    if let Some((b0, c0)) = next_bit(data, c) {
        assert(c0.inside(data) && c0.bits_left(data) == c.bits_left(data) - 1);
    }
}

/// A leaf takes no bits back.
pub proof fn lemma_vq_leaf(data: Seq<u8>, c: Cursor, node: NodeRect, b1: int)
    requires
        c.inside(data),
    ensures
        vq_leaf(data, c, node, b1) matches Ok((cell, d)) ==> d.inside(data) && d.bits_left(data)
            <= c.bits_left(data) && Some(cell.rect) == node.cell(),
{
    if let Some((s0, c0)) = next_bit(data, c) {
        assert(c0.inside(data) && c0.bits_left(data) == c.bits_left(data) - 1);
    }
}

/// The walk over the nodes of a VQ tree that are pending, the last one
/// first.
pub open spec fn vq_walk(
    data: Seq<u8>,
    c: Cursor,
    pending: Seq<NodeRect>,
    leaves: Seq<VqCell>,
) -> VqEnd
    decreases c.bits_left(data),
    when c.inside(data)
{
    if pending.len() == 0 {
        VqEnd { cursor: c, leaves, error: None }
    } else {
        proof {
            lemma_node_bits(data, c);
        }
        match node_bits(data, c) {
            None => VqEnd { cursor: c, leaves, error: Some(MacroblockError::StreamExhausted) },
            Some((b0, b1, c1)) => if b0 == 0 {
                vq_walk(data, c1, pending.drop_last() + pending.last().split(b1 == 1), leaves)
            } else {
                proof {
                    lemma_vq_leaf(data, c1, pending.last(), b1);
                }
                match vq_leaf(data, c1, pending.last(), b1) {
                    Err(e) => VqEnd { cursor: c, leaves, error: Some(e) },
                    Ok((leaf, d)) => vq_walk(data, d, pending.drop_last(), leaves.push(leaf)),
                }
            },
        }
    }
}

/// A VQ walk that succeeds stays in the payload and takes no bits back.
pub proof fn lemma_vq_walk(data: Seq<u8>, c: Cursor, pending: Seq<NodeRect>, leaves: Seq<VqCell>)
    requires
        c.inside(data),
    ensures
        ({
            let end = vq_walk(data, c, pending, leaves);
            end.error is None ==> end.cursor.inside(data) && end.cursor.bits_left(data)
                <= c.bits_left(data)
        }),
    decreases c.bits_left(data),
{
    if pending.len() > 0 {
        lemma_node_bits(data, c);
        if let Some((b0, b1, c1)) = node_bits(data, c) {
            if b0 == 0 {
                lemma_vq_walk(data, c1, pending.drop_last() + pending.last().split(b1 == 1), leaves);
            } else {
                lemma_vq_leaf(data, c1, pending.last(), b1);
                if let Ok((leaf, d)) = vq_leaf(data, c1, pending.last(), b1) {
                    lemma_vq_walk(data, d, pending.drop_last(), leaves.push(leaf));
                }
            }
        }
    }
}

/// Where the walk of a motion tree ends.
pub ghost struct TreeEnd {
    pub cells: Seq<CellModel>,
    pub error: Option<MacroblockError>,
}

/// A walk that fails.
pub open spec fn tree_failed(cells: Seq<CellModel>, error: MacroblockError) -> TreeEnd {
    TreeEnd { cells, error: Some(error) }
}

/// A leaf of the motion tree: `b1` is the second bit of its node.
pub open spec fn motion_leaf(
    data: Seq<u8>,
    c: Cursor,
    node: NodeRect,
    b1: int,
    vectors: int,
) -> Result<
    (CellModel, Cursor),
    MacroblockError,
> {
    match node.cell() {
        None => Err(MacroblockError::UnderFourNode),
        Some(rect) => if b1 == 1 {
            if c.pos >= data.len() {
                Err(MacroblockError::StreamExhausted)
            } else if data[c.pos] >= vectors {
                Err(
                    MacroblockError::BadVectorIndex {
                        index: data[c.pos],
                        num_vectors: vectors as u32,
                    },
                )
            } else {
                Ok(
                    (
                        CellModel::Inter { rect, mv_index: data[c.pos] },
                        Cursor { pos: c.pos + 1, ..c },
                    ),
                )
            }
        } else {
            let end = vq_walk(data, c, seq![node], Seq::empty());
            match end.error {
                Some(e) => Err(e),
                None => Ok((CellModel::Intra { rect, vq_leaves: end.leaves }, end.cursor)),
            }
        },
    }
}

/// A motion leaf takes no bits back.
pub proof fn lemma_motion_leaf(data: Seq<u8>, c: Cursor, node: NodeRect, b1: int, vectors: int)
    requires
        c.inside(data),
    ensures
        motion_leaf(data, c, node, b1, vectors) matches Ok((cell, d)) ==> d.inside(data)
            && d.bits_left(data) <= c.bits_left(data),
{
    lemma_vq_walk(data, c, seq![node], Seq::empty());
}

/// The walk over the nodes of a motion tree that are pending, the last
/// one first.
pub open spec fn tree_walk(
    data: Seq<u8>,
    c: Cursor,
    pending: Seq<NodeRect>,
    cells: Seq<CellModel>,
    vectors: int,
) -> TreeEnd
    decreases c.bits_left(data),
    when c.inside(data)
{
    if pending.len() == 0 {
        TreeEnd { cells, error: None }
    } else {
        proof {
            lemma_node_bits(data, c);
        }
        match node_bits(data, c) {
            None => tree_failed(cells, MacroblockError::StreamExhausted),
            Some((b0, b1, c1)) => if b0 == 0 {
                tree_walk(
                    data,
                    c1,
                    pending.drop_last() + pending.last().split(b1 == 1),
                    cells,
                    vectors,
                )
            } else {
                proof {
                    lemma_motion_leaf(data, c1, pending.last(), b1, vectors);
                }
                match motion_leaf(data, c1, pending.last(), b1, vectors) {
                    Err(e) => tree_failed(cells, e),
                    Ok((cell, d)) => tree_walk(
                        data,
                        d,
                        pending.drop_last(),
                        cells.push(cell),
                        vectors,
                    ),
                }
            },
        }
    }
}

/// The cells of a plane payload.
pub open spec fn plane_tree(data: Seq<u8>, width: u32, height: u32, vectors: int) -> TreeEnd {
    tree_walk(
        data,
        Cursor { pos: 0, acc: 0, nbits: 0 },
        seq![NodeRect { x: 0, y: 0, w: width, h: height }],
        Seq::empty(),
        vectors,
    )
}

/// Every node lies in the plane.
pub open spec fn nodes_within(nodes: Seq<NodeRect>, width: int, height: int) -> bool {
    forall|i: int| 0 <= i < nodes.len() ==> (#[trigger] nodes[i]).within(width, height)
}

/// The children of a node in the plane lie in it too.
proof fn lemma_split_within(nodes: Seq<NodeRect>, side_by_side: bool, width: int, height: int)
    requires
        nodes.len() > 0,
        nodes_within(nodes, width, height),
        width <= u32::MAX,
        height <= u32::MAX,
    ensures
        nodes_within(nodes.drop_last() + nodes.last().split(side_by_side), width, height),
{
    let node = nodes.last();
    children_tile_their_node(node.w as int);
    children_tile_their_node(node.h as int);
    let next = nodes.drop_last() + node.split(side_by_side);
    assert forall|i: int| 0 <= i < next.len() implies (#[trigger] next[i]).within(width, height) by {
        if i < nodes.len() - 1 {
            assert(next[i] == nodes[i]);
        } else {
            assert(next[i] == node.split(side_by_side)[i - (nodes.len() - 1)]);
        }
    }
}

/// Read the two bits of a node.
fn read_node(r: &mut Reader<'_>) -> (res: Result<(u8, u8), MacroblockError>)
    requires
        old(r).inside(),
    ensures
        final(r).inside(),
        final(r).data == old(r).data,
        match res {
            Ok((b0, b1)) => node_bits(old(r).data@, old(r).cursor()) == Some(
                (b0 as int, b1 as int, final(r).cursor()),
            ),
            Err(e) => node_bits(old(r).data@, old(r).cursor()) is None && e
                == MacroblockError::StreamExhausted,
        },
{
    let b0: u8 = match r.bit() {
        Ok(b) => b,
        Err(_) => return Err(MacroblockError::StreamExhausted),
    };
    match r.bit() {
        Ok(b1) => Ok((b0, b1)),
        Err(_) => Err(MacroblockError::StreamExhausted),
    }
}

/// Read a coded leaf.
fn read_data_leaf(r: &mut Reader<'_>, rect: NodeRect) -> (res: Result<VqCell, MacroblockError>)
    requires
        old(r).inside(),
    ensures
        final(r).inside(),
        final(r).data == old(r).data,
        match res {
            Ok(cell) => data_leaf(old(r).data@, old(r).cursor(), rect) == Ok::<
                (VqCell, Cursor),
                MacroblockError,
            >((cell, final(r).cursor())),
            Err(e) => data_leaf(old(r).data@, old(r).cursor(), rect) == Err::<
                (VqCell, Cursor),
                MacroblockError,
            >(e),
        },
{
    match r.byte() {
        Ok(mode) => Ok(VqCell { rect, leaf: VqLeaf::Data { mode } }),
        Err(_) => Err(MacroblockError::StreamExhausted),
    }
}

/// Read a VQ leaf.
fn read_vq_leaf(r: &mut Reader<'_>, node: NodeRect, b1: u8) -> (res: Result<
    VqCell,
    MacroblockError,
>)
    requires
        old(r).inside(),
    ensures
        final(r).inside(),
        final(r).data == old(r).data,
        match res {
            Ok(cell) => vq_leaf(old(r).data@, old(r).cursor(), node, b1 as int) == Ok::<
                (VqCell, Cursor),
                MacroblockError,
            >((cell, final(r).cursor())),
            Err(e) => vq_leaf(old(r).data@, old(r).cursor(), node, b1 as int) == Err::<
                (VqCell, Cursor),
                MacroblockError,
            >(e),
        },
{
    let rect = match node.leaf_cell() {
        Ok(c) => c,
        Err(e) => return Err(e),
    };
    if b1 == 1 {
        return read_data_leaf(r, rect);
    }
    let s0: u8 = match r.bit() {
        Ok(b) => b,
        Err(_) => return Err(MacroblockError::StreamExhausted),
    };
    if s0 == 1 {
        return read_data_leaf(r, rect);
    }
    match r.bit() {
        Ok(s1) => Ok(
            VqCell {
                rect,
                leaf: VqLeaf::Null(
                    if s1 == 0 {
                        VqNull::Copy
                    } else {
                        VqNull::Skip
                    },
                ),
            },
        ),
        Err(_) => Err(MacroblockError::StreamExhausted),
    }
}

/// Read the VQ tree of a node.
fn read_vq_tree(
    r: &mut Reader<'_>,
    node: NodeRect,
    Ghost(width): Ghost<int>,
    Ghost(height): Ghost<int>,
) -> (res: Result<
    Vec<VqCell>,
    MacroblockError,
>)
    requires
        old(r).inside(),
        node.within(width, height),
        width <= u32::MAX - 8,
        height <= u32::MAX - 8,
    ensures
        final(r).inside(),
        final(r).data == old(r).data,
        ({
            let end = vq_walk(old(r).data@, old(r).cursor(), seq![node], Seq::empty());
            match res {
                Ok(leaves) => end.error is None && end.leaves == leaves@ && end.cursor
                    == final(r).cursor(),
                Err(e) => end.error == Some(e),
            }
        }),
{
    let ghost data = r.data@;
    let ghost end = vq_walk(data, r.cursor(), seq![node], Seq::empty());
    let mut leaves: Vec<VqCell> = Vec::new();
    let mut pending: Vec<NodeRect> = Vec::new();
    pending.push(node);
    assert(pending@ =~= seq![node]);
    while pending.len() > 0
        invariant
            r.inside(),
            r.data == old(r).data,
            data == r.data@,
            width <= u32::MAX - 8,
            height <= u32::MAX - 8,
            nodes_within(pending@, width, height),
            end == vq_walk(old(r).data@, old(r).cursor(), seq![node], Seq::empty()),
            end == vq_walk(data, r.cursor(), pending@, leaves@),
        decreases r.cursor().bits_left(data),
    {
        let ghost before = pending@;
        proof {
            lemma_node_bits(data, r.cursor());
        }
        let (b0, b1) = match read_node(r) {
            Ok(bits) => bits,
            Err(e) => return Err(e),
        };
        let n: usize = pending.len();
        let top = pending[n - 1];
        pending.pop();
        assert(pending@ =~= before.drop_last());
        if b0 == 0 {
            proof {
                lemma_split_within(before, b1 == 1, width, height);
            }
            top.push_children(b1 == 1, &mut pending, Ghost(width), Ghost(height));
        } else {
            proof {
                lemma_vq_leaf(data, r.cursor(), top, b1 as int);
            }
            match read_vq_leaf(r, top, b1) {
                Ok(leaf) => {
                    leaves.push(leaf);
                },
                Err(e) => return Err(e),
            }
        }
    }
    Ok(leaves)
}

/// Read a leaf of the motion tree.
fn read_motion_leaf(
    r: &mut Reader<'_>,
    node: NodeRect,
    b1: u8,
    vectors: u32,
    Ghost(width): Ghost<int>,
    Ghost(height): Ghost<int>,
) -> (res: Result<
    Cell,
    MacroblockError,
>)
    requires
        old(r).inside(),
        node.within(width, height),
        width <= u32::MAX - 8,
        height <= u32::MAX - 8,
    ensures
        final(r).inside(),
        final(r).data == old(r).data,
        match res {
            Ok(cell) => motion_leaf(
                old(r).data@,
                old(r).cursor(),
                node,
                b1 as int,
                vectors as int,
            ) == Ok::<(CellModel, Cursor), MacroblockError>((cell@, final(r).cursor())),
            Err(e) => motion_leaf(
                old(r).data@,
                old(r).cursor(),
                node,
                b1 as int,
                vectors as int,
            ) == Err::<(CellModel, Cursor), MacroblockError>(e),
        },
{
    let rect = match node.leaf_cell() {
        Ok(c) => c,
        Err(e) => return Err(e),
    };
    if b1 == 1 {
        match r.byte() {
            Ok(index) => {
                if index as u32 >= vectors {
                    Err(MacroblockError::BadVectorIndex { index, num_vectors: vectors })
                } else {
                    Ok(Cell::Inter { rect, mv_index: index })
                }
            },
            Err(_) => Err(MacroblockError::StreamExhausted),
        }
    } else {
        match read_vq_tree(r, node, Ghost(width), Ghost(height)) {
            Ok(vq_leaves) => Ok(Cell::Intra { rect, vq_leaves }),
            Err(e) => Err(e),
        }
    }
}

/// Walk the trees of a plane whose payload begins at `payload_offset` of
/// the codec frame.
pub fn decode_plane_tree(
    input: &[u8],
    payload_offset: usize,
    num_vectors: u32,
    plane_width: u32,
    plane_height: u32,
) -> (res: Result<CellTree, MacroblockError>)
    requires
        payload_offset <= input@.len(),
        plane_width <= u32::MAX - 8,
        plane_height <= u32::MAX - 8,
    ensures
        ({
            let end = plane_tree(
                input@.skip(payload_offset as int),
                plane_width,
                plane_height,
                num_vectors as int,
            );
            match res {
                Ok(tree) => {
                    &&& end.error is None
                    &&& tree.plane_width == plane_width
                    &&& tree.plane_height == plane_height
                    &&& cell_models(tree.cells@) == end.cells
                },
                Err(e) => end.error == Some(e),
            }
        }),
{
    let payload: &[u8] = slice_subrange(input, payload_offset, input.len());
    let ghost data = payload@;
    assert(data =~= input@.skip(payload_offset as int));
    let ghost width = plane_width as int;
    let ghost height = plane_height as int;
    let mut r = Reader { data: payload, pos: 0, acc: 0, nbits: 0 };
    let root = NodeRect { x: 0, y: 0, w: plane_width, h: plane_height };
    let ghost end = plane_tree(data, plane_width, plane_height, num_vectors as int);
    let mut cells: Vec<Cell> = Vec::new();
    let mut pending: Vec<NodeRect> = Vec::new();
    pending.push(root);
    assert(pending@ =~= seq![root]);
    assert(cell_models(cells@) =~= Seq::empty());
    while pending.len() > 0
        invariant
            r.inside(),
            data == r.data@,
            data == input@.skip(payload_offset as int),
            width == plane_width,
            height == plane_height,
            width <= u32::MAX - 8,
            height <= u32::MAX - 8,
            nodes_within(pending@, width, height),
            end == plane_tree(data, plane_width, plane_height, num_vectors as int),
            end == tree_walk(
                data,
                r.cursor(),
                pending@,
                cell_models(cells@),
                num_vectors as int,
            ),
        decreases r.cursor().bits_left(data),
    {
        let ghost before = pending@;
        proof {
            lemma_node_bits(data, r.cursor());
        }
        let (b0, b1) = match read_node(&mut r) {
            Ok(bits) => bits,
            Err(e) => return Err(e),
        };
        let n: usize = pending.len();
        let top = pending[n - 1];
        pending.pop();
        assert(pending@ =~= before.drop_last());
        if b0 == 0 {
            proof {
                lemma_split_within(before, b1 == 1, width, height);
            }
            top.push_children(b1 == 1, &mut pending, Ghost(width), Ghost(height));
        } else {
            proof {
                lemma_motion_leaf(data, r.cursor(), top, b1 as int, num_vectors as int);
            }
            let ghost models = cell_models(cells@);
            match read_motion_leaf(&mut r, top, b1, num_vectors, Ghost(width), Ghost(height)) {
                Ok(cell) => {
                    cells.push(cell);
                    assert(cell_models(cells@) =~= models.push(cell@));
                },
                Err(e) => return Err(e),
            }
        }
    }
    Ok(CellTree { plane_width, plane_height, cells })
}

/// A cell's rectangle: whole groups of four samples each way, in the
/// plane.
pub open spec fn proper_cell(rect: NodeRect, width: int, height: int) -> bool {
    &&& rect.within(width, height)
    &&& rect.w >= 4
    &&& rect.h >= 4
    &&& rect.w % 4 == 0
    &&& rect.h % 4 == 0
}

/// All VQ leaves are proper cells.
pub open spec fn proper_leaves(leaves: Seq<VqCell>, width: int, height: int) -> bool {
    forall|i: int| 0 <= i < leaves.len() ==> proper_cell((#[trigger] leaves[i]).rect, width, height)
}

/// All cells, and the VQ leaves of all INTRA cells, are proper cells.
pub open spec fn proper_cells(cells: Seq<CellModel>, width: int, height: int) -> bool {
    forall|i: int|
        0 <= i < cells.len() ==> match #[trigger] cells[i] {
            CellModel::Inter { rect, mv_index } => proper_cell(rect, width, height),
            CellModel::Intra { rect, vq_leaves } => proper_cell(rect, width, height)
                && proper_leaves(vq_leaves, width, height),
        }
}

/// The samples of the nodes.
pub open spec fn nodes_area(nodes: Seq<NodeRect>) -> int
    decreases nodes.len(),
{
    if nodes.len() == 0 {
        0
    } else {
        nodes_area(nodes.drop_last()) + nodes.last().area()
    }
}

/// The samples of VQ leaves.
pub open spec fn leaves_area(leaves: Seq<VqCell>) -> int
    decreases leaves.len(),
{
    if leaves.len() == 0 {
        0
    } else {
        leaves_area(leaves.drop_last()) + leaves.last().rect.area()
    }
}

/// The samples of a cell: those of an INTER cell, or of an INTRA cell's
/// VQ leaves.
pub open spec fn cell_area(cell: CellModel) -> int {
    match cell {
        CellModel::Inter { rect, mv_index } => rect.area(),
        CellModel::Intra { rect, vq_leaves } => leaves_area(vq_leaves),
    }
}

/// The samples of the cells.
pub open spec fn cells_area(cells: Seq<CellModel>) -> int
    decreases cells.len(),
{
    if cells.len() == 0 {
        0
    } else {
        cells_area(cells.drop_last()) + cell_area(cells.last())
    }
}

/// Two children have the samples of their node.
proof fn lemma_split_area(nodes: Seq<NodeRect>, side_by_side: bool)
    requires
        nodes.len() > 0,
        nodes.last().x + nodes.last().w <= u32::MAX,
        nodes.last().y + nodes.last().h <= u32::MAX,
    ensures
        nodes_area(nodes.drop_last() + nodes.last().split(side_by_side)) == nodes_area(nodes),
{
    let node = nodes.last();
    let rest = nodes.drop_last();
    let pair = node.split(side_by_side);
    let all = rest + pair;
    children_tile_their_node(node.w as int);
    children_tile_their_node(node.h as int);
    assert(all.drop_last() =~= rest.push(pair[0]));
    assert(all.drop_last().drop_last() =~= rest);
    let (a, b) = (child_extent(node.w as int, false), child_extent(node.w as int, true));
    let (c, d) = (child_extent(node.h as int, false), child_extent(node.h as int, true));
    assert(a * node.h + b * node.h == (a + b) * node.h) by (nonlinear_arith);
    assert(node.w * c + node.w * d == node.w * (c + d)) by (nonlinear_arith);
    assert(pair[0].area() + pair[1].area() == node.area());
    assert(all.last() == pair[1]);
    assert(all.drop_last().last() == pair[0]);
    assert(nodes_area(all.drop_last()) == nodes_area(rest) + pair[0].area());
}

/// The cell of a leaf is proper and no larger than its node.
proof fn lemma_cell(node: NodeRect, width: int, height: int)
    requires
        node.within(width, height),
        node.cell() is Some,
    ensures
        proper_cell(node.cell()->0, width, height),
        0 <= node.cell()->0.area() <= node.area(),
{
    let w = node.w / 4 * 4;
    let h = node.h / 4 * 4;
    assert(0 <= w * h <= node.w * node.h) by (nonlinear_arith)
        requires
            0 <= w <= node.w,
            0 <= h <= node.h,
    ;
}

proof fn lemma_vq_walk_proper(
    data: Seq<u8>,
    c: Cursor,
    pending: Seq<NodeRect>,
    leaves: Seq<VqCell>,
    width: int,
    height: int,
)
    requires
        c.inside(data),
        width <= u32::MAX,
        height <= u32::MAX,
        nodes_within(pending, width, height),
        proper_leaves(leaves, width, height),
        vq_walk(data, c, pending, leaves).error is None,
    ensures
        ({
            let end = vq_walk(data, c, pending, leaves);
            &&& proper_leaves(end.leaves, width, height)
            &&& leaves_area(end.leaves) <= leaves_area(leaves) + nodes_area(pending)
        }),
    decreases c.bits_left(data),
{
    if pending.len() > 0 {
        lemma_node_bits(data, c);
        let (b0, b1, c1) = node_bits(data, c)->0;
        let node = pending.last();
        if b0 == 0 {
            lemma_split_within(pending, b1 == 1, width, height);
            lemma_split_area(pending, b1 == 1);
            lemma_vq_walk_proper(
                data,
                c1,
                pending.drop_last() + node.split(b1 == 1),
                leaves,
                width,
                height,
            );
        } else {
            lemma_vq_leaf(data, c1, node, b1);
            let (leaf, d) = vq_leaf(data, c1, node, b1)->Ok_0;
            lemma_cell(node, width, height);
            assert(leaves.push(leaf).drop_last() =~= leaves);
            lemma_vq_walk_proper(
                data,
                d,
                pending.drop_last(),
                leaves.push(leaf),
                width,
                height,
            );
        }
    }
}

proof fn lemma_tree_walk_proper(
    data: Seq<u8>,
    c: Cursor,
    pending: Seq<NodeRect>,
    cells: Seq<CellModel>,
    vectors: int,
    width: int,
    height: int,
)
    requires
        c.inside(data),
        width <= u32::MAX,
        height <= u32::MAX,
        nodes_within(pending, width, height),
        proper_cells(cells, width, height),
        tree_walk(data, c, pending, cells, vectors).error is None,
    ensures
        ({
            let end = tree_walk(data, c, pending, cells, vectors);
            &&& proper_cells(end.cells, width, height)
            &&& cells_area(end.cells) <= cells_area(cells) + nodes_area(pending)
        }),
    decreases c.bits_left(data),
{
    if pending.len() > 0 {
        lemma_node_bits(data, c);
        let (b0, b1, c1) = node_bits(data, c)->0;
        let node = pending.last();
        if b0 == 0 {
            lemma_split_within(pending, b1 == 1, width, height);
            lemma_split_area(pending, b1 == 1);
            lemma_tree_walk_proper(
                data,
                c1,
                pending.drop_last() + node.split(b1 == 1),
                cells,
                vectors,
                width,
                height,
            );
        } else {
            lemma_motion_leaf(data, c1, node, b1, vectors);
            let (cell, d) = motion_leaf(data, c1, node, b1, vectors)->Ok_0;
            lemma_cell(node, width, height);
            if b1 != 1 {
                lemma_vq_walk_proper(data, c1, seq![node], Seq::empty(), width, height);
                assert(seq![node].drop_last() =~= Seq::empty());
                assert(nodes_area(seq![node].drop_last()) == 0);
            }
            assert(cells.push(cell).drop_last() =~= cells);
            lemma_tree_walk_proper(
                data,
                d,
                pending.drop_last(),
                cells.push(cell),
                vectors,
                width,
                height,
            );
        }
    }
}

/// The cells of a plane lie in it, and together have no more samples than
/// it has.
pub proof fn cells_fit_their_plane(data: Seq<u8>, width: u32, height: u32, vectors: int)
    requires
        plane_tree(data, width, height, vectors).error is None,
    ensures
        proper_cells(plane_tree(data, width, height, vectors).cells, width as int, height as int),
        cells_area(plane_tree(data, width, height, vectors).cells) <= width * height,
{
    let root = NodeRect { x: 0, y: 0, w: width, h: height };
    assert(seq![root].drop_last() =~= Seq::empty());
    assert(nodes_area(seq![root].drop_last()) == 0);
    lemma_tree_walk_proper(
        data,
        Cursor { pos: 0, acc: 0, nbits: 0 },
        seq![root],
        Seq::empty(),
        vectors,
        width as int,
        height as int,
    );
}

} // verus!
