use oxideav_indeo::indeo3::frame_exit::{
    FRAME_FAULT_RETURN_RVA, FRAME_OUTPUT_RECONSTRUCTION_RVA, FrameExitDisposition,
    FramePlaneStatusFold, PER_PLANE_DECODE_ARG_COUNT, PER_PLANE_DECODE_CALL_SITE_RVA,
    PER_PLANE_DECODE_ENTRY_RVA, PER_PLANE_DECODE_RET_CLEANUP_BYTES, PER_PLANE_DECODE_RET_RVA,
    PLANE_ITERATION_ORDER,
};
use oxideav_indeo::indeo3::picture_layer::{PLANE_COUNT, PLANE_IDX_U, PLANE_IDX_V, PLANE_IDX_Y};
use oxideav_indeo::indeo3::strip_context::{
    PLANE_DECODE_STATUS_MALFORMED, PLANE_DECODE_STATUS_OK, PlaneDecodeStatus,
};

#[test]
fn iteration_order_is_u_v_y_countdown() {
    assert_eq!(PLANE_ITERATION_ORDER, [2, 1, 0]);
    assert_eq!(PLANE_ITERATION_ORDER[0], PLANE_IDX_U);
    assert_eq!(PLANE_ITERATION_ORDER[1], PLANE_IDX_V);
    assert_eq!(PLANE_ITERATION_ORDER[2], PLANE_IDX_Y);
}

#[test]
fn iteration_order_is_a_permutation_of_all_planes() {
    let mut seen = [false; PLANE_COUNT];
    for &idx in &PLANE_ITERATION_ORDER {
        assert!(idx < PLANE_COUNT);
        assert!(!seen[idx], "plane {idx} visited twice");
        seen[idx] = true;
    }
    assert!(seen.iter().all(|&s| s), "not every plane visited");
}

#[test]
fn rva_constants_match_spec() {
    assert_eq!(PER_PLANE_DECODE_CALL_SITE_RVA, 0x1000_4637);
    assert_eq!(PER_PLANE_DECODE_ENTRY_RVA, 0x1000_6538);
    assert_eq!(PER_PLANE_DECODE_RET_RVA, 0x1000_6b94);
    assert_eq!(FRAME_OUTPUT_RECONSTRUCTION_RVA, 0x1000_4644);
    assert_eq!(FRAME_FAULT_RETURN_RVA, 0x1000_6ba2);
}

#[test]
fn ret_cleanup_is_one_dword_per_argument() {
    assert_eq!(PER_PLANE_DECODE_RET_CLEANUP_BYTES, 0x1c);
    assert_eq!(PER_PLANE_DECODE_ARG_COUNT, 7);
    assert_eq!(
        PER_PLANE_DECODE_RET_CLEANUP_BYTES,
        PER_PLANE_DECODE_ARG_COUNT * 4
    );
}

#[test]
fn entry_precedes_ret_and_fault_in_code_memory() {
    let entry = std::hint::black_box(PER_PLANE_DECODE_ENTRY_RVA);
    let ret = std::hint::black_box(PER_PLANE_DECODE_RET_RVA);
    let fault = std::hint::black_box(FRAME_FAULT_RETURN_RVA);
    assert!(entry < ret);
    assert!(entry < fault);
    assert!(fault > ret);
}

#[test]
fn reconstruction_target_after_call_site() {
    let recon = std::hint::black_box(FRAME_OUTPUT_RECONSTRUCTION_RVA);
    let call_site = std::hint::black_box(PER_PLANE_DECODE_CALL_SITE_RVA);
    assert!(recon > call_site);
}

#[test]
fn proceed_disposition_targets_reconstruction() {
    let d = FrameExitDisposition::ProceedToReconstruction;
    assert!(d.proceeds_to_reconstruction());
    assert!(!d.is_fault());
    assert_eq!(d.target_rva(), FRAME_OUTPUT_RECONSTRUCTION_RVA);
    assert_eq!(d.frame_status(), PLANE_DECODE_STATUS_OK);
}

#[test]
fn fault_disposition_targets_fault_return() {
    let d = FrameExitDisposition::EndOfFrameFault;
    assert!(d.is_fault());
    assert!(!d.proceeds_to_reconstruction());
    assert_eq!(d.target_rva(), FRAME_FAULT_RETURN_RVA);
    assert_eq!(d.frame_status(), PLANE_DECODE_STATUS_MALFORMED);
    assert_eq!(d.frame_status(), 3);
}

#[test]
fn all_ok_proceeds_to_reconstruction() {
    let fold = FramePlaneStatusFold::from_iteration_order([
        PlaneDecodeStatus::Decoded,
        PlaneDecodeStatus::Decoded,
        PlaneDecodeStatus::Decoded,
    ]);
    assert!(fold.proceeds_to_reconstruction());
    assert_eq!(
        fold.disposition,
        FrameExitDisposition::ProceedToReconstruction
    );
    assert_eq!(fold.first_fault_iteration_index, None);
    assert_eq!(fold.first_fault_plane_idx(), None);
}

#[test]
fn first_plane_fault_short_circuits_at_index_zero() {
    let fold = FramePlaneStatusFold::from_iteration_order([
        PlaneDecodeStatus::Malformed,
        PlaneDecodeStatus::Decoded,
        PlaneDecodeStatus::Decoded,
    ]);
    assert!(fold.disposition.is_fault());
    assert_eq!(fold.first_fault_iteration_index, Some(0));
    assert_eq!(fold.first_fault_plane_idx(), Some(PLANE_IDX_U));
}

#[test]
fn last_plane_fault_records_index_two() {
    let fold = FramePlaneStatusFold::from_iteration_order([
        PlaneDecodeStatus::Decoded,
        PlaneDecodeStatus::Decoded,
        PlaneDecodeStatus::Malformed,
    ]);
    assert!(fold.disposition.is_fault());
    assert_eq!(fold.first_fault_iteration_index, Some(2));
    assert_eq!(fold.first_fault_plane_idx(), Some(PLANE_IDX_Y));
}

#[test]
fn fold_short_circuits_at_first_of_multiple_faults() {
    let fold = FramePlaneStatusFold::from_iteration_order([
        PlaneDecodeStatus::Decoded,
        PlaneDecodeStatus::Malformed,
        PlaneDecodeStatus::Malformed,
    ]);
    assert!(fold.disposition.is_fault());
    assert_eq!(fold.first_fault_iteration_index, Some(1));
    assert_eq!(fold.first_fault_plane_idx(), Some(PLANE_IDX_V));
}

#[test]
fn plane_idx_order_constructor_reorders_into_iteration_order() {
    let by_plane_idx = [
        PlaneDecodeStatus::Malformed,
        PlaneDecodeStatus::Decoded,
        PlaneDecodeStatus::Decoded,
    ];
    let fold = FramePlaneStatusFold::from_plane_idx_order(by_plane_idx);
    assert!(fold.disposition.is_fault());
    assert_eq!(fold.first_fault_iteration_index, Some(2));
    assert_eq!(fold.first_fault_plane_idx(), Some(PLANE_IDX_Y));
}

#[test]
fn plane_idx_and_iteration_order_agree_on_disposition() {
    let by_plane_idx = [
        PlaneDecodeStatus::Decoded,
        PlaneDecodeStatus::Decoded,
        PlaneDecodeStatus::Malformed,
    ];
    let via_plane_idx = FramePlaneStatusFold::from_plane_idx_order(by_plane_idx);
    let via_iteration = FramePlaneStatusFold::from_iteration_order([
        PlaneDecodeStatus::Malformed,
        PlaneDecodeStatus::Decoded,
        PlaneDecodeStatus::Decoded,
    ]);
    assert_eq!(via_plane_idx.disposition, via_iteration.disposition);
    assert_eq!(
        via_plane_idx.first_fault_iteration_index,
        via_iteration.first_fault_iteration_index
    );
    assert_eq!(via_plane_idx.first_fault_plane_idx(), Some(PLANE_IDX_U));
}
