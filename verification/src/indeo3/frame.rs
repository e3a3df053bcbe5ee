//! The structural decode of a codec frame: header, picture layer and the
//! cell trees of its planes.
use super::bytes::dword_at;
use super::header::{
    bit_set, header_fault, header_in, header_is_determined, FrameHeader, HeaderError,
};
use super::macroblock::{
    cell_models, cells_area, cells_fit_their_plane, decode_plane_tree, leaves_area, plane_tree,
    proper_cell, proper_cells, proper_leaves, Cell, CellModel, CellTree, MacroblockError, NodeRect,
    TreeEnd, VqCell, VqLeaf,
};
use super::picture_layer::{
    payload_base, picture_fault, plane_base, plane_coded, plane_extent, plane_offset, PictureLayer,
    PictureLayerError, PlaneDecodePlan, PlanePresence, PLANE_COUNT,
};
use super::text::{decimal, push_decimal};
use vstd::prelude::*;
use vstd::std_specs::convert::FromSpecImpl;
use vstd::string::StringExecFns;

verus! {

/// The order in which planes are decoded: U, V, Y.
pub const FRAME_PLANE_DECODE_ORDER: [usize; 3] = [2, 1, 0];

/// Why a frame does not decode.
#[derive(Debug, Clone, Copy, PartialEq, Eq, Structural)]
pub enum FrameDecodeError {
    /// The header is rejected.
    Header(HeaderError),
    /// The picture layer is rejected.
    PictureLayer(PictureLayerError),
    /// The trees of a plane do not parse.
    PlaneTree {
        /// Plane index.
        plane_idx: usize,
        /// The error of the trees.
        source: MacroblockError,
    },
    /// A coded plane has no decode plan. A frame never fails so.
    PlanePlanUnavailable {
        /// Plane index.
        plane_idx: usize,
    },
}

impl FrameDecodeError {
    /// The message of the error.
    pub open spec fn text(self) -> Seq<char> {
        match self {
            FrameDecodeError::Header(e) => "indeo3 frame: header: "@ + e.text(),
            FrameDecodeError::PictureLayer(e) => "indeo3 frame: picture layer: "@ + e.text(),
            FrameDecodeError::PlaneTree { plane_idx, source } => "indeo3 frame: plane "@ + decimal(
                plane_idx as int,
            ) + " tree walk: "@ + source.text(),
            FrameDecodeError::PlanePlanUnavailable { plane_idx } => "indeo3 frame: plane "@
                + decimal(plane_idx as int) + " has no decode plan"@,
        }
    }

    /// The message of the error.
    pub fn message(&self) -> (r: String)
        ensures
            r@ == self.text(),
    {
        match self {
            FrameDecodeError::Header(e) => {
                let mut out = String::from_str("indeo3 frame: header: ");
                out.append(e.message().as_str());
                out
            },
            FrameDecodeError::PictureLayer(e) => {
                let mut out = String::from_str("indeo3 frame: picture layer: ");
                out.append(e.message().as_str());
                out
            },
            FrameDecodeError::PlaneTree { plane_idx, source } => {
                let mut out = String::from_str("indeo3 frame: plane ");
                push_decimal(&mut out, *plane_idx);
                out.append(" tree walk: ");
                out.append(source.message().as_str());
                out
            },
            FrameDecodeError::PlanePlanUnavailable { plane_idx } => {
                let mut out = String::from_str("indeo3 frame: plane ");
                push_decimal(&mut out, *plane_idx);
                out.append(" has no decode plan");
                out
            },
        }
    }
}

impl FromSpecImpl<HeaderError> for FrameDecodeError {
    open spec fn obeys_from_spec() -> bool {
        true
    }

    open spec fn from_spec(e: HeaderError) -> Self {
        FrameDecodeError::Header(e)
    }
}

impl From<HeaderError> for FrameDecodeError {
    fn from(e: HeaderError) -> (r: Self) {
        FrameDecodeError::Header(e)
    }
}

impl FromSpecImpl<PictureLayerError> for FrameDecodeError {
    open spec fn obeys_from_spec() -> bool {
        true
    }

    open spec fn from_spec(e: PictureLayerError) -> Self {
        FrameDecodeError::PictureLayer(e)
    }
}

impl From<PictureLayerError> for FrameDecodeError {
    fn from(e: PictureLayerError) -> (r: Self) {
        FrameDecodeError::PictureLayer(e)
    }
}

/// How many coded and NULL leaves a VQ tree has.
pub open spec fn vq_counts(leaves: Seq<VqCell>) -> (int, int)
    decreases leaves.len(),
{
    if leaves.len() == 0 {
        (0, 0)
    } else {
        let (data, null) = vq_counts(leaves.drop_last());
        match leaves.last().leaf {
            VqLeaf::Data { mode } => (data + 1, null),
            VqLeaf::Null(_) => (data, null + 1),
        }
    }
}

/// The cell counts of a plane.
pub ghost struct CellCounts {
    pub intra: int,
    pub inter: int,
    pub data: int,
    pub null: int,
}

/// The cell counts of some cells.
pub open spec fn cell_counts(cells: Seq<CellModel>) -> CellCounts
    decreases cells.len(),
{
    if cells.len() == 0 {
        CellCounts { intra: 0, inter: 0, data: 0, null: 0 }
    } else {
        let before = cell_counts(cells.drop_last());
        match cells.last() {
            CellModel::Inter { rect, mv_index } => CellCounts { inter: before.inter + 1, ..before },
            CellModel::Intra { rect, vq_leaves } => CellCounts {
                intra: before.intra + 1,
                inter: before.inter,
                data: before.data + vq_counts(vq_leaves).0,
                null: before.null + vq_counts(vq_leaves).1,
            },
        }
    }
}

/// Every leaf is counted once.
proof fn lemma_vq_counts(leaves: Seq<VqCell>)
    ensures
        0 <= vq_counts(leaves).0,
        0 <= vq_counts(leaves).1,
        vq_counts(leaves).0 + vq_counts(leaves).1 == leaves.len(),
    decreases leaves.len(),
{
    if leaves.len() > 0 {
        lemma_vq_counts(leaves.drop_last());
    }
}

/// Every cell is counted once.
pub proof fn every_cell_is_counted(cells: Seq<CellModel>)
    ensures
        cell_counts(cells).intra + cell_counts(cells).inter == cells.len(),
        0 <= cell_counts(cells).intra,
        0 <= cell_counts(cells).inter,
        0 <= cell_counts(cells).data,
        0 <= cell_counts(cells).null,
    decreases cells.len(),
{
    if cells.len() > 0 {
        every_cell_is_counted(cells.drop_last());
        if let CellModel::Intra { rect, vq_leaves } = cells.last() {
            lemma_vq_counts(vq_leaves);
        }
    }
}

/// The leaves a plane decode has to do with: INTER cells and VQ leaves.
pub open spec fn unit_count(cells: Seq<CellModel>) -> int {
    cell_counts(cells).inter + cell_counts(cells).data + cell_counts(cells).null
}

proof fn lemma_leaves_are_few(leaves: Seq<VqCell>, width: int, height: int)
    requires
        proper_leaves(leaves, width, height),
    ensures
        16 * leaves.len() <= leaves_area(leaves),
    decreases leaves.len(),
{
    if leaves.len() > 0 {
        assert(proper_leaves(leaves.drop_last(), width, height)) by {
            assert forall|i: int| 0 <= i < leaves.len() - 1 implies proper_cell(
                (#[trigger] leaves.drop_last()[i]).rect,
                width,
                height,
            ) by {
                assert(leaves.drop_last()[i] == leaves[i]);
            }
        }
        lemma_leaves_are_few(leaves.drop_last(), width, height);
        lemma_area_is_large(leaves[leaves.len() - 1].rect);
    }
}

proof fn lemma_area_is_large(rect: NodeRect)
    requires
        rect.w >= 4,
        rect.h >= 4,
    ensures
        rect.area() >= 16,
{
    assert(rect.w * rect.h >= 16) by (nonlinear_arith)
        requires
            rect.w >= 4,
            rect.h >= 4,
    ;
}

/// A plane has at most one unit per sixteen samples.
pub proof fn lemma_units_are_few(cells: Seq<CellModel>, width: int, height: int)
    requires
        proper_cells(cells, width, height),
    ensures
        16 * unit_count(cells) <= cells_area(cells),
    decreases cells.len(),
{
    if cells.len() > 0 {
        let before = cells.drop_last();
        assert forall|i: int| 0 <= i < before.len() implies #[trigger] before[i] == cells[i] by {}
        assert(proper_cells(before, width, height));
        lemma_units_are_few(before, width, height);
        let last = cells[cells.len() - 1];
        match last {
            CellModel::Inter { rect, mv_index } => {
                lemma_area_is_large(rect);
            },
            CellModel::Intra { rect, vq_leaves } => {
                lemma_vq_counts(vq_leaves);
                lemma_leaves_are_few(vq_leaves, width, height);
            },
        }
    }
}

/// The cell counts of one plane.
#[derive(Debug, Clone, Copy, PartialEq, Eq, Structural)]
pub struct PlaneCellStats {
    /// INTRA cells.
    pub intra_cells: usize,
    /// INTER cells.
    pub inter_cells: usize,
    /// Coded leaves of all INTRA cells.
    pub vq_data_cells: usize,
    /// NULL leaves of all INTRA cells.
    pub vq_null_cells: usize,
}

impl Default for PlaneCellStats {
    fn default() -> (r: Self)
        ensures
            r.counts() == cell_counts(Seq::empty()),
    {
        PlaneCellStats { intra_cells: 0, inter_cells: 0, vq_data_cells: 0, vq_null_cells: 0 }
    }
}

impl PlaneCellStats {
    /// The counts.
    pub open spec fn counts(self) -> CellCounts {
        CellCounts {
            intra: self.intra_cells as int,
            inter: self.inter_cells as int,
            data: self.vq_data_cells as int,
            null: self.vq_null_cells as int,
        }
    }

    /// All INTRA and INTER cells.
    pub fn total_cells(&self) -> (r: usize)
        requires
            self.intra_cells + self.inter_cells <= usize::MAX,
        ensures
            r == self.intra_cells + self.inter_cells,
    {
        self.intra_cells + self.inter_cells
    }

    /// Count the cells of a plane.
    pub fn from_tree(tree: &CellTree) -> (r: Self)
        requires
            unit_count(cell_models(tree.cells@)) <= usize::MAX,
        ensures
            r.counts() == cell_counts(cell_models(tree.cells@)),
    {
        let ghost models = cell_models(tree.cells@);
        let n: usize = tree.cells.len();
        let mut stats = PlaneCellStats::default();
        let mut i: usize = 0;
        assert(models.take(0) =~= Seq::empty());
        while i < n
            invariant
                i <= n,
                n == tree.cells@.len(),
                models == cell_models(tree.cells@),
                unit_count(models) <= usize::MAX,
                stats.counts() == cell_counts(models.take(i as int)),
            decreases n - i,
        {
            proof {
                let t = models.take(i + 1);
                assert(t.drop_last() =~= models.take(i as int));
                assert(t.last() == tree.cells@[i as int]@);
                every_cell_is_counted(t);
                lemma_counts_grow(models, i + 1);
            }
            match &tree.cells[i] {
                Cell::Inter { rect, mv_index } => {
                    stats.inter_cells = stats.inter_cells + 1;
                },
                Cell::Intra { rect, vq_leaves } => {
                    let (data, null) = count_vq(vq_leaves);
                    stats.intra_cells = stats.intra_cells + 1;
                    stats.vq_data_cells = stats.vq_data_cells + data;
                    stats.vq_null_cells = stats.vq_null_cells + null;
                },
            }
            i = i + 1;
        }
        assert(models.take(n as int) =~= models);
        stats
    }
}

/// More cells have no fewer leaves.
proof fn lemma_counts_grow(cells: Seq<CellModel>, k: int)
    requires
        0 <= k <= cells.len(),
    ensures
        cell_counts(cells.take(k)).inter <= cell_counts(cells).inter,
        cell_counts(cells.take(k)).data <= cell_counts(cells).data,
        cell_counts(cells.take(k)).null <= cell_counts(cells).null,
        unit_count(cells.take(k)) <= unit_count(cells),
    decreases cells.len(),
{
    if k == cells.len() {
        assert(cells.take(k) =~= cells);
    } else {
        lemma_counts_grow(cells.drop_last(), k);
        assert(cells.drop_last().take(k) =~= cells.take(k));
        if let CellModel::Intra { rect, vq_leaves } = cells.last() {
            lemma_vq_counts(vq_leaves);
        }
    }
}

/// Count the leaves of a VQ tree.
fn count_vq(leaves: &Vec<VqCell>) -> (r: (usize, usize))
    ensures
        r.0 == vq_counts(leaves@).0,
        r.1 == vq_counts(leaves@).1,
{
    let n: usize = leaves.len();
    let mut data: usize = 0;
    let mut null: usize = 0;
    let mut i: usize = 0;
    while i < n
        invariant
            i <= n,
            n == leaves@.len(),
            data + null == i,
            data == vq_counts(leaves@.take(i as int)).0,
            null == vq_counts(leaves@.take(i as int)).1,
        decreases n - i,
    {
        proof {
            assert(leaves@.take(i + 1).drop_last() =~= leaves@.take(i as int));
        }
        match leaves[i].leaf {
            VqLeaf::Data { mode } => {
                data = data + 1;
            },
            VqLeaf::Null(_) => {
                null = null + 1;
            },
        }
        i = i + 1;
    }
    assert(leaves@.take(n as int) =~= leaves@);
    (data, null)
}

/// The cells of a coded plane.
pub open spec fn plane_cells(header: FrameHeader, input: Seq<u8>, plane_idx: int) -> TreeEnd {
    let offset = plane_offset(header, plane_idx);
    plane_tree(
        input.skip(payload_base(input, offset)),
        plane_extent(header.bitstream.width as int, plane_idx) as u32,
        plane_extent(header.bitstream.height as int, plane_idx) as u32,
        dword_at(input, plane_base(offset)),
    )
}

/// The coded planes among those up to `plane_idx`, in decode order.
pub open spec fn coded_planes(header: FrameHeader, plane_idx: int) -> Seq<int>
    decreases plane_idx + 1,
{
    if plane_idx < 0 {
        Seq::empty()
    } else if plane_coded(header, plane_idx) {
        seq![plane_idx] + coded_planes(header, plane_idx - 1)
    } else {
        coded_planes(header, plane_idx - 1)
    }
}

/// The error of the first plane, in decode order, among those up to
/// `plane_idx`, whose trees do not parse.
pub open spec fn tree_fault(header: FrameHeader, input: Seq<u8>, plane_idx: int) -> Option<
    FrameDecodeError,
>
    decreases plane_idx + 1,
{
    if plane_idx < 0 {
        None
    } else if plane_coded(header, plane_idx) && plane_cells(
        header,
        input,
        plane_idx,
    ).error is Some {
        Some(
            FrameDecodeError::PlaneTree {
                plane_idx: plane_idx as usize,
                source: plane_cells(header, input, plane_idx).error->0,
            },
        )
    } else {
        tree_fault(header, input, plane_idx - 1)
    }
}

/// Why a frame does not decode.
pub open spec fn frame_fault(input: Seq<u8>) -> Option<FrameDecodeError> {
    match header_fault(input) {
        Some(e) => Some(FrameDecodeError::Header(e)),
        None => match picture_fault(header_in(input), input) {
            Some(e) => Some(FrameDecodeError::PictureLayer(e)),
            None => tree_fault(header_in(input), input, 2),
        },
    }
}

/// A decoded plane.
#[derive(Debug, Clone, PartialEq, Eq)]
pub struct DecodedPlane {
    /// Plane index.
    pub plane_idx: usize,
    /// The decode plan.
    pub plan: PlaneDecodePlan,
    /// The cells.
    pub tree: CellTree,
    /// The cell counts.
    pub stats: PlaneCellStats,
}

impl DecodedPlane {
    /// The plane is the decode of a coded plane of the frame.
    pub open spec fn describes(
        self,
        header: FrameHeader,
        input: Seq<u8>,
        plane_idx: int,
        selector: bool,
    ) -> bool {
        let offset = plane_offset(header, plane_idx);
        let cells = cell_models(self.tree.cells@);
        &&& self.plane_idx == plane_idx
        &&& self.plan.describes(
            header,
            payload_base(input, offset),
            dword_at(input, plane_base(offset)),
            plane_idx,
            selector,
        )
        &&& self.tree.plane_width == self.plan.plane_width
        &&& self.tree.plane_height == self.plan.plane_height
        &&& plane_cells(header, input, plane_idx).error is None
        &&& cells == plane_cells(header, input, plane_idx).cells
        &&& self.stats.counts() == cell_counts(cells)
    }

    /// The plane's cells are proper and no more than the plane holds, and
    /// it is no larger than a picture can be.
    pub open spec fn sized(self) -> bool {
        let cells = cell_models(self.tree.cells@);
        &&& self.tree.plane_width <= 0xffff
        &&& self.tree.plane_height <= 0xffff
        &&& proper_cells(cells, self.tree.plane_width as int, self.tree.plane_height as int)
        &&& cells_area(cells) <= self.tree.plane_width * self.tree.plane_height
    }

    /// True iff the plane carries no motion vectors.
    pub fn is_intra(&self) -> (r: bool)
        ensures
            r == (self.plan.num_vectors == 0),
    {
        self.plan.is_intra()
    }
}

/// How far a frame was decoded.
#[derive(Debug, Clone, Copy, PartialEq, Eq, Structural)]
pub enum ReconstructionStatus {
    /// A NULL frame: it carries no planes, and shows the previous output.
    NullFrame,
    /// The trees of every coded plane were walked to their end.
    StructureComplete,
}

/// The structural decode of a codec frame.
#[derive(Debug, Clone, PartialEq, Eq)]
pub struct DecodedFrame {
    /// The header.
    pub header: FrameHeader,
    /// The picture layer.
    pub picture: PictureLayer,
    /// The coded planes, in decode order (U, V, Y).
    pub planes: Vec<DecodedPlane>,
    /// How far the frame was decoded.
    pub reconstruction_status: ReconstructionStatus,
}

/// Planes are the decodes of the planes the indices name.
pub open spec fn planes_describe(
    planes: Seq<DecodedPlane>,
    indices: Seq<int>,
    header: FrameHeader,
    input: Seq<u8>,
    selector: bool,
) -> bool {
    &&& planes.len() == indices.len()
    &&& forall|k: int|
        0 <= k < planes.len() ==> (#[trigger] planes[k]).describes(
            header,
            input,
            indices[k],
            selector,
        )
}

/// The first of some planes that has the given index.
pub open spec fn first_plane(planes: Seq<DecodedPlane>, plane_idx: usize, from: int) -> Option<int>
    decreases planes.len() - from,
{
    if from >= planes.len() {
        None
    } else if planes[from].plane_idx == plane_idx {
        Some(from)
    } else {
        first_plane(planes, plane_idx, from + 1)
    }
}

impl DecodedFrame {
    /// The frame is the decode of the bytes.
    pub open spec fn describes(self, input: Seq<u8>, selector: bool) -> bool {
        &&& self.header.describes(input)
        &&& self.picture.describes(self.header, input)
        &&& planes_describe(
            self.planes@,
            coded_planes(self.header, 2),
            self.header,
            input,
            selector,
        )
        &&& self.reconstruction_status == if self.header.bitstream.is_null() {
            ReconstructionStatus::NullFrame
        } else {
            ReconstructionStatus::StructureComplete
        }
    }

    /// Every plane is sized, and there are no more than a frame has.
    pub open spec fn sized(self) -> bool {
        &&& self.planes@.len() <= PLANE_COUNT
        &&& forall|k: int| 0 <= k < self.planes@.len() ==> (#[trigger] self.planes@[k]).sized()
    }

    /// Coded picture width.
    pub fn width(&self) -> (r: u16)
        ensures
            r == self.header.bitstream.width,
    {
        self.header.bitstream.width
    }

    /// Coded picture height.
    pub fn height(&self) -> (r: u16)
        ensures
            r == self.header.bitstream.height,
    {
        self.header.bitstream.height
    }

    /// True iff this is a NULL frame.
    pub fn is_null_frame(&self) -> (r: bool)
        ensures
            r == (self.reconstruction_status == ReconstructionStatus::NullFrame),
    {
        matches!(self.reconstruction_status, ReconstructionStatus::NullFrame)
    }

    /// The buffer selector of the frame's flags.
    pub fn buffer_selector(&self) -> (r: bool)
        ensures
            r == bit_set(self.header.bitstream.frame_flags.0, 0x0200),
    {
        self.header.bitstream.frame_flags.buffer_selector()
    }

    /// The decoded plane of an index, if the frame has it.
    pub fn plane(&self, plane_idx: usize) -> (r: Option<&DecodedPlane>)
        ensures
            match r {
                Some(p) => first_plane(self.planes@, plane_idx, 0) is Some && *p
                    == self.planes@[first_plane(self.planes@, plane_idx, 0)->0],
                None => first_plane(self.planes@, plane_idx, 0) is None,
            },
    {
        let n: usize = self.planes.len();
        let mut i: usize = 0;
        while i < n
            invariant
                i <= n,
                n == self.planes@.len(),
                first_plane(self.planes@, plane_idx, 0) == first_plane(
                    self.planes@,
                    plane_idx,
                    i as int,
                ),
            decreases n - i,
        {
            if self.planes[i].plane_idx == plane_idx {
                return Some(&self.planes[i]);
            }
            i = i + 1;
        }
        None
    }
}

/// Decode one coded plane.
fn decode_one_plane(
    input: &[u8],
    header: &FrameHeader,
    picture: &PictureLayer,
    plane_idx: usize,
    buffer_selector: bool,
) -> (r: Result<DecodedPlane, FrameDecodeError>)
    requires
        plane_idx < 3,
        plane_coded(*header, plane_idx as int),
        picture.describes(*header, input@),
    ensures
        match r {
            Ok(p) => p.describes(*header, input@, plane_idx as int, buffer_selector) && p.sized(),
            Err(e) => plane_cells(*header, input@, plane_idx as int).error matches Some(source) && e
                == (FrameDecodeError::PlaneTree { plane_idx, source }),
        },
{
    assert(picture.planes@[plane_idx as int].describes(*header, input@, plane_idx as int));
    let plan = match picture.plane_decode_plan(plane_idx, header, buffer_selector) {
        Some(p) => p,
        None => return Err(FrameDecodeError::PlanePlanUnavailable { plane_idx }),
    };
    let tree = match decode_plane_tree(
        input,
        plan.payload_offset,
        plan.num_vectors,
        plan.plane_width,
        plan.plane_height,
    ) {
        Ok(t) => t,
        Err(source) => return Err(FrameDecodeError::PlaneTree { plane_idx, source }),
    };
    proof {
        let data = input@.skip(plan.payload_offset as int);
        let (w, h) = (plan.plane_width as int, plan.plane_height as int);
        cells_fit_their_plane(
            data,
            plan.plane_width,
            plan.plane_height,
            plan.num_vectors as int,
        );
        lemma_units_are_few(cell_models(tree.cells@), w, h);
        assert(w * h <= 0xffff * 0xffff) by (nonlinear_arith)
            requires
                0 <= w <= 0xffff,
                0 <= h <= 0xffff,
        ;
    }
    let stats = PlaneCellStats::from_tree(&tree);
    Ok(DecodedPlane { plane_idx, plan, tree, stats })
}

/// Decode the structure of a codec frame. `buffer_selector` chooses the
/// bank its planes decode into.
pub fn decode_frame_with_selector(input: &[u8], buffer_selector: bool) -> (r: Result<
    DecodedFrame,
    FrameDecodeError,
>)
    ensures
        match r {
            Ok(f) => frame_fault(input@) is None && f.describes(input@, buffer_selector)
                && f.sized(),
            Err(e) => frame_fault(input@) == Some(e),
        },
{
    let header = match FrameHeader::parse(input) {
        Ok(h) => h,
        Err(e) => return Err(FrameDecodeError::from(e)),
    };
    proof {
        header_is_determined(header, input@);
    }
    let picture = match PictureLayer::parse(&header, input) {
        Ok(p) => p,
        Err(e) => return Err(FrameDecodeError::from(e)),
    };
    if header.bitstream.is_null_frame() {
        proof {
            reveal_with_fuel(coded_planes, 4);
            reveal_with_fuel(tree_fault, 4);
        }
        return Ok(
            DecodedFrame {
                header,
                picture,
                planes: Vec::new(),
                reconstruction_status: ReconstructionStatus::NullFrame,
            },
        );
    }
    let mut planes: Vec<DecodedPlane> = Vec::new();
    let ghost mut done: Seq<int> = Seq::empty();
    let mut k: usize = 0;
    assert(done + coded_planes(header, 2) =~= coded_planes(header, 2));
    while k < PLANE_COUNT
        invariant
            k <= PLANE_COUNT,
            header_fault(input@) is None,
            header_in(input@) == header,
            picture_fault(header, input@) is None,
            picture.describes(header, input@),
            done + coded_planes(header, 2 - k) == coded_planes(header, 2),
            tree_fault(header, input@, 2) == tree_fault(header, input@, 2 - k),
            planes@.len() <= k,
            planes_describe(planes@, done, header, input@, buffer_selector),
            forall|j: int| 0 <= j < planes@.len() ==> (#[trigger] planes@[j]).sized(),
        decreases PLANE_COUNT - k,
    {
        let plane_idx: usize = FRAME_PLANE_DECODE_ORDER[k];
        assert(plane_idx == 2 - k);
        assert(picture.planes@[plane_idx as int].describes(header, input@, plane_idx as int));
        let coded: bool = matches!(picture.planes[plane_idx], PlanePresence::Present(_));
        if coded {
            match decode_one_plane(input, &header, &picture, plane_idx, buffer_selector) {
                Ok(plane) => {
                    planes.push(plane);
                    proof {
                        let rest = coded_planes(header, plane_idx - 1);
                        assert(done.push(plane_idx as int) + rest =~= done + (seq![plane_idx as int]
                            + rest));
                        done = done.push(plane_idx as int);
                    }
                },
                Err(e) => return Err(e),
            }
        }
        k = k + 1;
    }
    assert(done + Seq::empty() =~= done);
    Ok(
        DecodedFrame {
            header,
            picture,
            planes,
            reconstruction_status: ReconstructionStatus::StructureComplete,
        },
    )
}

/// Decode the structure of a codec frame, with the buffer selector of its
/// own flags.
pub fn decode_frame(input: &[u8]) -> (r: Result<DecodedFrame, FrameDecodeError>)
    ensures
        match r {
            Ok(f) => frame_fault(input@) is None && f.describes(
                input@,
                bit_set(header_in(input@).bitstream.frame_flags.0, 0x0200),
            ) && f.sized(),
            Err(e) => frame_fault(input@) == Some(e),
        },
{
    let header = match FrameHeader::parse(input) {
        Ok(h) => h,
        Err(e) => return Err(FrameDecodeError::from(e)),
    };
    proof {
        header_is_determined(header, input@);
    }
    decode_frame_with_selector(input, header.bitstream.frame_flags.buffer_selector())
}

/// A NULL frame, and a frame whose planes are all skipped, decode to no
/// planes.
pub proof fn uncoded_frames_have_no_planes(header: FrameHeader)
    requires
        forall|i: int| 0 <= i < 3 ==> !#[trigger] plane_coded(header, i),
    ensures
        coded_planes(header, 2).len() == 0,
{
    assert(!plane_coded(header, 0) && !plane_coded(header, 1) && !plane_coded(header, 2));
    reveal_with_fuel(coded_planes, 4);
}

} // verus!
