//! Indeo 3: the headers and the structural decode of a codec frame, the
//! plane decoder, the per-cell executors, the output and the stateful
//! decoder. The modules are public; what a caller needs is also found
//! here.
pub mod bank_select;
pub mod bytes;
pub mod cell_decoder;
pub mod cell_emit;
pub mod cell_geometry;
pub mod cell_loop;
pub mod cell_null;
pub mod cell_reconstruct;
pub mod cell_subarray;
pub mod cell_unpack;
pub mod code_laws;
pub mod codebook_seed;
pub mod decoder;
pub mod entropy;
pub mod fill_laws;
pub mod frame;
pub mod frame_assemble;
pub mod frame_exit;
pub mod frame_finalise;
pub mod frame_laws;
pub mod frame_output;
pub mod frame_reconstruct;
pub mod frame_session;
pub mod frame_yuv;
pub mod geometry_bank;
pub mod geometry_laws;
pub mod header;
pub mod macroblock;
pub mod mc_kernel;
pub mod output_laws;
pub mod picture_laws;
pub mod picture_layer;
pub mod plane_execute;
pub mod plane_laws;
pub mod plane_model;
pub mod plane_reconstruct;
pub mod reconstruct;
pub mod staging;
pub mod strip_context;
pub mod text;
pub mod tree_laws;
pub mod unpack_laws;
pub mod vq;
pub mod walk_laws;

pub use bank_select::{Bank, McBankAssignment, BANK_INVERSION_DELTA};
pub use cell_decoder::{decode_plane, CellDecodeError, PlaneBuffers, PlaneContext, PlaneStats};
pub use cell_emit::{
    emit_cell_chain, rows_per_source_row, CellEmitError, CellEmitGeometry, CellEmitStats, DyadDelta,
    PIXELS_PER_DYAD_DWORD,
};
pub use cell_geometry::{
    cell_coords_from_dst_addr, cell_height_from_row_band_count, cell_width_from_column_group_count,
    reverse_decompose, row_band_count_from_ch_register, CellCoords, CellRect, CellRectDecodeError,
    CELL_PIXELS_PER_COLUMN_GROUP, CELL_PIXELS_PER_ROW_BAND,
};
pub use cell_loop::{
    advance_row, dispatch_cell_preamble, iterate_column_rows, read_cell_position_dword,
    read_cl_row_counter, CellLoopPreamble, CellLoopState, CellRowAdvance, CodebookBankView,
    CELL_BANK_LEN, CELL_DATA_TABLE, CELL_POSITION_MAX, CELL_POSITION_TABLE, CH_CONTROL_LUT,
    CL_ROW_COUNTER_LUT, INTRA_CONTEXT_CLEAR_MASK, INTRA_CONTEXT_FLAG, MIRROR_TABLE_OFFSET,
    SLOT_INDEX_LUT,
};
pub use cell_null::{
    copy_upper_cell, mark_edge_cell, CopyUpperError, CopyUpperGeometry, CopyUpperStats,
    MarkEdgeError, MarkEdgeGeometry, MarkEdgeStats, VqNullSubCode, COPY_UPPER_COLUMN_GROUP_BYTES,
    COPY_UPPER_RAW_ROW_OFFSETS, COPY_UPPER_ROW_COUNT,
};
pub use cell_reconstruct::{
    reconstruct_cell_static, CellOutcome, CellReconstructError, CellReconstructGeometry,
    PositionEffect,
};
pub use cell_subarray::{
    cell_stack_array_offset, cell_stack_slot_offset, CellStackReadSite, CellStackTopDispatch,
    CELL_STACK_BEGIN_OFFSET, CELL_STACK_ENTRY_SIZE, CELL_STACK_MAX_ENTRIES,
    PER_CELL_EDGE_HEIGHT_STEP, PER_CELL_EDGE_PREV_BR_NEXT_OFFSET, PER_CELL_EDGE_PREV_BR_OFFSET,
    PER_CELL_EDGE_ROW_STRIDE,
};
pub use cell_unpack::{
    unpack_cell, CellUnpackError, DyadEmit, UnpackEffect, UnpackOutcome, UnpackRun,
};
pub use codebook_seed::{
    CodebookSeedArea, SeedBlock, SeedPair, BLOCK_DEST_ADVANCE, BLOCK_TERMINATOR, SEED_AREA_VMA,
};
pub use decoder::{DecodedOutput, DecoderError, Indeo3Decoder};
pub use entropy::{
    apply_continuation_xor, continuation_needed, fb_category, fb_category_table, variant_entry_rva,
    DyadAddress, FbCategory, FbCounter, HighNibbleAction, JumpTable, JumpTableEntry, LiteralMode,
    ModeByte, ModeByteKind, PositionClass, RleEscape, ARENA_BAND_STRIDE, CONTINUATION_XOR,
    LITERAL_MODE_MAX, PRIMARY_TABLE_DISP, RLE_ESCAPE_MIN, SECONDARY_TABLE_DISP, VARIANT_A_ENTRY,
    VARIANT_B_ENTRY, VARIANT_C_ENTRY, VARIANT_D_ENTRY,
};
pub use frame::{
    decode_frame, decode_frame_with_selector, DecodedFrame, DecodedPlane, FrameDecodeError,
    PlaneCellStats, ReconstructionStatus, FRAME_PLANE_DECODE_ORDER,
};
pub use frame_assemble::{
    allocate_strip_buffers, assemble_output, plane_strip_buffer_lengths, AssembleError, OutputFrame,
    OutputPlane, OUTPUT_ASSEMBLE_ORDER,
};
pub use frame_exit::{
    FrameExitDisposition, FramePlaneStatusFold, FRAME_FAULT_RETURN_RVA,
    FRAME_OUTPUT_RECONSTRUCTION_RVA, PER_PLANE_DECODE_ARG_COUNT, PER_PLANE_DECODE_CALL_SITE_RVA,
    PER_PLANE_DECODE_ENTRY_RVA, PER_PLANE_DECODE_RET_CLEANUP_BYTES, PER_PLANE_DECODE_RET_RVA,
    PLANE_ITERATION_ORDER,
};
pub use frame_finalise::{
    DecodeReturn, FrameContinuity, FrameFinalisation, SavedFrameFlags, SavedFrameNumber,
    BUFFER_SELECTOR_MASK, FRAME_NUMBER_CONTINUITY_CHECK_RVA, FRAME_NUMBER_SEEK_PATH_RVA,
    PERFORMS_BUFFER_ROTATION, RETURN_INPUT_ERROR, RETURN_REPEAT_PREVIOUS, RETURN_SUCCESS,
    SAVED_FRAME_FLAGS_SLOT_OFFSET, SAVED_FRAME_FLAGS_STORE_RVA, SAVED_FRAME_NUMBER_SLOT_OFFSET,
    SAVED_FRAME_NUMBER_STORE_RVA,
};
pub use frame_output::{
    assemble_plane_if09, strip_min_buffer_bytes, upsample_chroma_4x4, upshift_7bit_to_8bit,
    ChromaUpsampleError, PlaneAssembleError, CHROMA_UPSAMPLE_FACTOR, FRAME_OUTPUT_SRC_ROW_STRIDE,
    IF09_FOURCC, IF09_FOURCC_CASE_RVA, IF09_PASSTHROUGH_RVA, OUTPUT_PLANE_ORDER,
    OUTPUT_UPSHIFT_BITS,
};
pub use frame_reconstruct::{
    reconstruct_frame, FrameReconstructError, FrameReconstructStats, ReconstructedFrame,
};
pub use frame_session::{AdmittedFrame, DecodeSession, FrameAdmission, SessionError};
pub use frame_yuv::{assemble_yuv, upsample_frame, YuvError, YuvFrame, YuvPlane};
pub use geometry_bank::{chroma_plane_dims, split_extent, GeometryBank, PlaneBanks};
pub use header::{
    alt_quant_indices, BitstreamHeader, FrameFlags, FrameHeader, FrameHeaderPreamble, HeaderError,
    BITSTREAM_HEADER_LEN, COMBINED_HEADER_LEN, FLAG_YVU9_8BIT, FRAME_HEADER_LEN, MAGIC_FRMH,
    MAX_HEIGHT, MAX_WIDTH, MIN_DIMENSION, NULL_FRAME_DATA_SIZE_BITS, REQUIRED_DEC_VERSION,
};
pub use macroblock::{decode_plane_tree, Cell, CellTree, MacroblockError, VqCell, VqLeaf, VqNull};
pub use mc_kernel::{MC_BAND_ROWS, MC_COLUMN_GROUP_PIXELS, MC_ROW_STRIDE};
pub use picture_layer::{
    MotionVector, PictureLayer, PictureLayerError, PlaneDecodePlan, PlanePrelude, PlanePresence,
    MC_VECTOR_ENTRY_LEN, MIN_PRELUDE_LEN, NUM_VECTORS_FIELD_LEN, PLANE_COUNT, PLANE_IDX_U,
    PLANE_IDX_V, PLANE_IDX_Y,
};
pub use plane_execute::{
    exec_plane_plan, plane_strip_len, DeferredFrontier, PlaneExecError, PlaneExecStats,
    ReconstructedPlane, STRIP_ROW_STRIDE,
};
pub use plane_reconstruct::{
    classify_cell_tree, CellDisposition, CellPlanEntry, PlaneReconstructPlan,
};
pub use reconstruct::{
    apply_dyad_pair, average_7bit, emit_variant, halve_fefefefe, pack_predictor, unpack_pixels,
    DyadOutcome, VariantEmission, EDGE_MARKER_BIT, PREDICTOR_ROW_STRIDE, TOP_OF_STRIP_PREDICTOR,
};
pub use staging::StagingImage;
pub use strip_context::{
    strip_slot_index, PlaneDecodeStatus, PlaneRole, StripGeometry, PLANE_DECODE_STATUS_MALFORMED,
    PLANE_DECODE_STATUS_OK, PRIMARY_BANK_SLOTS, SECONDARY_BANK_SLOTS, STRIP_SLOT_COUNT,
    STRIP_SLOT_STRIDE,
};
pub use vq::{
    apply_row_band_seed, CellVariant, DyadDeltaTable, RowBandSeed, VqArena, ARENA_BANDS_OFFSET,
    ARENA_BAND_COUNT, ARENA_BAND_LEN, ARENA_HALF_LEN, ARENA_LEN, DYAD_BANK_COUNT, DYAD_BANK_STRIDE,
    DYAD_TABLE_LEN,
};
