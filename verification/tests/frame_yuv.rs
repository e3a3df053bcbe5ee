use oxideav_indeo::indeo3::frame_assemble::{OutputFrame, OutputPlane};
use oxideav_indeo::indeo3::frame_yuv::upsample_frame;
use oxideav_indeo::indeo3::picture_layer::{PLANE_IDX_U, PLANE_IDX_V, PLANE_IDX_Y};

fn build_output_frame(
    luma_w: u32,
    luma_h: u32,
    y_fill: u8,
    v_fill: u8,
    u_fill: u8,
) -> OutputFrame {
    let cw = luma_w / 4;
    let ch = luma_h / 4;
    OutputFrame {
        planes: vec![
            OutputPlane {
                plane_idx: PLANE_IDX_Y,
                width: luma_w,
                height: luma_h,
                pixels: vec![y_fill; (luma_w * luma_h) as usize],
            },
            OutputPlane {
                plane_idx: PLANE_IDX_V,
                width: cw,
                height: ch,
                pixels: vec![v_fill; (cw * ch) as usize],
            },
            OutputPlane {
                plane_idx: PLANE_IDX_U,
                width: cw,
                height: ch,
                pixels: vec![u_fill; (cw * ch) as usize],
            },
        ],
    }
}

#[test]
fn luma_plane_is_carried_through_unchanged() {
    let of = build_output_frame(16, 16, 0x42, 0x10, 0x20);
    let yuv = upsample_frame(&of).expect("upsample");
    let y = yuv.luma().expect("luma present");
    assert_eq!(y.width, 16);
    assert_eq!(y.height, 16);
    assert_eq!(y.pixels.len(), 16 * 16);
    assert!(y.pixels.iter().all(|&b| b == 0x42));
}

#[test]
fn chroma_planes_upsample_to_luma_resolution() {
    let of = build_output_frame(16, 16, 0x42, 0x10, 0x20);
    let yuv = upsample_frame(&of).expect("upsample");

    let v = yuv.chroma_v().expect("V present");
    assert_eq!(v.width, 16);
    assert_eq!(v.height, 16);
    assert_eq!(v.pixels.len(), 16 * 16);
    assert!(v.pixels.iter().all(|&b| b == 0x10));

    let u = yuv.chroma_u().expect("U present");
    assert_eq!(u.width, 16);
    assert_eq!(u.height, 16);
    assert!(u.pixels.iter().all(|&b| b == 0x20));
}

#[test]
fn box_filter_replicates_each_sample_into_a_4x4_block() {
    let of = OutputFrame {
        planes: vec![OutputPlane {
            plane_idx: PLANE_IDX_V,
            width: 2,
            height: 1,
            pixels: vec![0x05, 0x0a],
        }],
    };
    let yuv = upsample_frame(&of).expect("upsample");
    let v = yuv.chroma_v().expect("V present");
    assert_eq!(v.width, 8);
    assert_eq!(v.height, 4);
    for y in 0..4 {
        let row = v.row(y).expect("row");
        assert_eq!(&row[0..4], &[0x05; 4]);
        assert_eq!(&row[4..8], &[0x0a; 4]);
    }
}

#[test]
fn output_order_is_preserved_y_v_u() {
    let of = build_output_frame(16, 16, 1, 2, 3);
    let yuv = upsample_frame(&of).expect("upsample");
    let order: Vec<usize> = yuv.planes.iter().map(|p| p.plane_idx).collect();
    assert_eq!(order, vec![PLANE_IDX_Y, PLANE_IDX_V, PLANE_IDX_U]);
}

#[test]
fn luma_only_frame_yields_single_plane() {
    let of = OutputFrame {
        planes: vec![OutputPlane {
            plane_idx: PLANE_IDX_Y,
            width: 8,
            height: 8,
            pixels: vec![0x7f; 64],
        }],
    };
    let yuv = upsample_frame(&of).expect("upsample");
    assert_eq!(yuv.planes.len(), 1);
    assert!(yuv.chroma_v().is_none());
    assert!(yuv.chroma_u().is_none());
    assert_eq!(yuv.luma().unwrap().width, 8);
}
