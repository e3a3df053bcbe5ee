//! The reconstruction plan of a plane: what is to be done with each of
//! its leaves, in stream order.
use super::frame::{unit_count, vq_counts};
use super::macroblock::{
    cell_models, cells_area, leaves_area, proper_cell, proper_cells, Cell, CellModel, CellTree,
    NodeRect, VqCell, VqLeaf, VqNull,
};
use vstd::prelude::*;

verus! {

/// What is to be done with a leaf.
#[derive(Debug, Clone, Copy, PartialEq, Eq, Structural)]
pub enum CellDisposition {
    /// Copy the row above.
    VqNullCopy,
    /// Keep the content and mark it.
    VqNullSkip,
    /// Decode codes.
    VqData,
    /// Fetch from a reference frame.
    Inter,
}

/// A leaf and what is to be done with it.
#[derive(Debug, Clone, Copy, PartialEq, Eq, Structural)]
pub struct CellPlanEntry {
    /// The leaf's rectangle.
    pub rect: NodeRect,
    /// What is to be done.
    pub disposition: CellDisposition,
}

/// The reconstruction plan of a plane.
#[derive(Debug, Clone, PartialEq, Eq)]
pub struct PlaneReconstructPlan {
    /// Plane index.
    pub plane_idx: usize,
    /// Plane width in samples.
    pub plane_width: u32,
    /// Plane height in samples.
    pub plane_height: u32,
    /// The leaves, in stream order.
    pub entries: Vec<CellPlanEntry>,
}

/// What is to be done with a VQ leaf.
pub open spec fn leaf_entry(cell: VqCell) -> CellPlanEntry {
    CellPlanEntry {
        rect: cell.rect,
        disposition: match cell.leaf {
            VqLeaf::Data { mode } => CellDisposition::VqData,
            VqLeaf::Null(VqNull::Copy) => CellDisposition::VqNullCopy,
            VqLeaf::Null(VqNull::Skip) => CellDisposition::VqNullSkip,
        },
    }
}

/// What is to be done with a cell.
pub open spec fn cell_entries(cell: CellModel) -> Seq<CellPlanEntry> {
    match cell {
        CellModel::Inter { rect, mv_index } => seq![
            CellPlanEntry { rect, disposition: CellDisposition::Inter },
        ],
        CellModel::Intra { rect, vq_leaves } => Seq::new(
            vq_leaves.len(),
            |i: int| leaf_entry(vq_leaves[i]),
        ),
    }
}

/// What is to be done with some cells.
pub open spec fn entries_of(cells: Seq<CellModel>) -> Seq<CellPlanEntry>
    decreases cells.len(),
{
    if cells.len() == 0 {
        Seq::empty()
    } else {
        entries_of(cells.drop_last()) + cell_entries(cells.last())
    }
}

/// The plan of a plane's cells.
pub fn classify_cell_tree(plane_idx: usize, tree: &CellTree) -> (r: PlaneReconstructPlan)
    ensures
        r.plane_idx == plane_idx,
        r.plane_width == tree.plane_width,
        r.plane_height == tree.plane_height,
        r.entries@ == entries_of(cell_models(tree.cells@)),
{
    let ghost models = cell_models(tree.cells@);
    let n: usize = tree.cells.len();
    let mut entries: Vec<CellPlanEntry> = Vec::new();
    let mut i: usize = 0;
    assert(models.take(0) =~= Seq::empty());
    while i < n
        invariant
            i <= n,
            n == tree.cells@.len(),
            models == cell_models(tree.cells@),
            entries@ == entries_of(models.take(i as int)),
        decreases n - i,
    {
        proof {
            let t = models.take(i + 1);
            assert(t.drop_last() =~= models.take(i as int));
            assert(t.last() == tree.cells@[i as int]@);
        }
        let ghost before = entries@;
        match &tree.cells[i] {
            Cell::Inter { rect, mv_index } => {
                entries.push(CellPlanEntry { rect: *rect, disposition: CellDisposition::Inter });
                assert(entries@ =~= before + cell_entries(models[i as int]));
            },
            Cell::Intra { rect, vq_leaves } => {
                push_leaves(vq_leaves, &mut entries);
                assert(entries@ =~= before + cell_entries(models[i as int]));
            },
        }
        i = i + 1;
    }
    assert(models.take(n as int) =~= models);
    PlaneReconstructPlan {
        plane_idx,
        plane_width: tree.plane_width,
        plane_height: tree.plane_height,
        entries,
    }
}

/// Append what is to be done with the leaves of a VQ tree.
fn push_leaves(leaves: &Vec<VqCell>, entries: &mut Vec<CellPlanEntry>)
    ensures
        final(entries)@ == old(entries)@ + Seq::new(
            leaves@.len(),
            |i: int| leaf_entry(leaves@[i]),
        ),
{
    let ghost before = entries@;
    let n: usize = leaves.len();
    let mut i: usize = 0;
    while i < n
        invariant
            i <= n,
            n == leaves@.len(),
            before == old(entries)@,
            entries@ == before + Seq::new(i as nat, |k: int| leaf_entry(leaves@[k])),
        decreases n - i,
    {
        let cell = leaves[i];
        let disposition = match cell.leaf {
            VqLeaf::Data { mode } => CellDisposition::VqData,
            VqLeaf::Null(VqNull::Copy) => CellDisposition::VqNullCopy,
            VqLeaf::Null(VqNull::Skip) => CellDisposition::VqNullSkip,
        };
        entries.push(CellPlanEntry { rect: cell.rect, disposition });
        i = i + 1;
        assert(entries@ =~= before + Seq::new(i as nat, |k: int| leaf_entry(leaves@[k])));
    }
}

/// The samples of the entries.
pub open spec fn entries_area(entries: Seq<CellPlanEntry>) -> int
    decreases entries.len(),
{
    if entries.len() == 0 {
        0
    } else {
        entries_area(entries.drop_last()) + entries.last().rect.area()
    }
}

/// All entries are proper cells of the plane.
pub open spec fn proper_entries(entries: Seq<CellPlanEntry>, width: int, height: int) -> bool {
    forall|i: int|
        0 <= i < entries.len() ==> proper_cell((#[trigger] entries[i]).rect, width, height)
}

proof fn lemma_entries_area_adds(a: Seq<CellPlanEntry>, b: Seq<CellPlanEntry>)
    ensures
        entries_area(a + b) == entries_area(a) + entries_area(b),
    decreases b.len(),
{
    if b.len() == 0 {
        assert(a + b =~= a);
    } else {
        assert((a + b).drop_last() =~= a + b.drop_last());
        lemma_entries_area_adds(a, b.drop_last());
    }
}

proof fn lemma_leaf_entries_area(leaves: Seq<VqCell>)
    ensures
        entries_area(Seq::new(leaves.len(), |i: int| leaf_entry(leaves[i]))) == leaves_area(leaves),
    decreases leaves.len(),
{
    let entries = Seq::new(leaves.len(), |i: int| leaf_entry(leaves[i]));
    if leaves.len() > 0 {
        let before = leaves.drop_last();
        assert(entries.drop_last() =~= Seq::new(before.len(), |i: int| leaf_entry(before[i])));
        lemma_leaf_entries_area(before);
    }
}

/// A plan's entries are the leaves of the plane: as many, with as many
/// samples, and proper where they are.
pub proof fn entries_are_the_leaves(cells: Seq<CellModel>, width: int, height: int)
    ensures
        entries_area(entries_of(cells)) == cells_area(cells),
        entries_of(cells).len() == unit_count(cells),
        proper_cells(cells, width, height) ==> proper_entries(entries_of(cells), width, height),
    decreases cells.len(),
{
    if cells.len() > 0 {
        let before = cells.drop_last();
        entries_are_the_leaves(before, width, height);
        let added = cell_entries(cells.last());
        lemma_entries_area_adds(entries_of(before), added);
        match cells.last() {
            CellModel::Inter { rect, mv_index } => {
                assert(added.drop_last() =~= Seq::empty());
                assert(entries_area(added.drop_last()) == 0);
            },
            CellModel::Intra { rect, vq_leaves } => {
                lemma_leaf_entries_area(vq_leaves);
                lemma_leaves_are_counted(vq_leaves);
            },
        }
        if proper_cells(cells, width, height) {
            assert forall|i: int| 0 <= i < before.len() implies #[trigger] before[i] == cells[i] by {}
            assert(proper_cells(before, width, height));
            let all = entries_of(cells);
            let n = entries_of(before).len();
            assert(cells[cells.len() - 1] == cells.last());
            assert forall|i: int| 0 <= i < all.len() implies proper_cell(
                (#[trigger] all[i]).rect,
                width,
                height,
            ) by {
                if i < n {
                    assert(all[i] == entries_of(before)[i]);
                } else {
                    assert(all[i] == added[i - n]);
                }
            }
        }
    }
}

proof fn lemma_leaves_are_counted(leaves: Seq<VqCell>)
    ensures
        vq_counts(leaves).0 + vq_counts(leaves).1 == leaves.len(),
    decreases leaves.len(),
{
    if leaves.len() > 0 {
        lemma_leaves_are_counted(leaves.drop_last());
    }
}

} // verus!
