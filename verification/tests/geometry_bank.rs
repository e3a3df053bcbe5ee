use oxideav_indeo::indeo3::geometry_bank::{chroma_plane_dims, split_extent, PlaneBanks};

#[test]
fn split_rule() {
    assert_eq!(split_extent(160), (80, 80));
    assert_eq!(split_extent(120), (64, 56));
    assert_eq!(split_extent(56), (32, 24));
    assert_eq!(split_extent(24), (16, 8));
    assert_eq!(split_extent(16), (8, 8));
    assert_eq!(split_extent(8), (4, 4));
    assert_eq!(split_extent(4), (2, 2));
    assert_eq!(split_extent(5), (3, 2));
    assert_eq!(split_extent(0), (0, 0));
}

#[test]
fn chroma_dims_pad_to_four() {
    assert_eq!(chroma_plane_dims(160, 120), (40, 32));
    assert_eq!(chroma_plane_dims(176, 144), (44, 36));
    assert_eq!(chroma_plane_dims(320, 240), (80, 60));
}

#[test]
fn luma_160x120_head() {
    let b = PlaneBanks::luma(160, 120);
    assert_eq!(b.nstrips, 1);
    let f = &b.full;
    assert_eq!(
        (f.h4[1], f.w4[1], f.strip[1], f.ypos[1], f.xpos[1]),
        (30, 40, 0, 0, 0)
    );
    assert_eq!(
        (f.h4[3], f.w4[3], f.ypos[3], f.xpos[3]),
        (14, 20, 11264, 80)
    );
    assert_eq!(
        (f.h4[7], f.w4[7], f.ypos[7], f.xpos[7]),
        (6, 10, 16896, 120)
    );
    assert_eq!((f.h4[8], f.w4[8]), (4, 6));
    assert!(std::ptr::eq(b.bank_for_slot(0), &b.last));
}

#[test]
fn luma_176x144_last_strip_bank() {
    let b = PlaneBanks::luma(176, 144);
    assert_eq!(b.nstrips, 2);
    assert_eq!(b.last_strip, 16);
    let l = &b.last;
    assert_eq!((l.h4[1], l.w4[1], l.strip[1]), (36, 0, 2));
    assert_eq!((l.h4[2], l.w4[2], l.strip[2]), (18, 4, 0));
    assert_eq!((l.h4[3], l.w4[3], l.strip[3], l.ypos[3]), (18, 4, 1, 12672));
    assert_eq!(
        (l.h4[5], l.w4[5], l.strip[5], l.ypos[5], l.xpos[5]),
        (8, 2, 0, 7040, 8)
    );
    assert!(std::ptr::eq(b.bank_for_slot(1), &b.last));
    assert!(std::ptr::eq(b.bank_for_slot(0), &b.full));
}

#[test]
fn wide_400x300_full_bank_slots() {
    let b = PlaneBanks::luma(400, 300);
    let f = &b.full;
    assert_eq!((f.h4[1], f.w4[1], f.strip[1]), (75, 0, 2));
    assert_eq!((f.h4[2], f.w4[2], f.strip[2]), (38, 99, 2));
    assert_eq!(
        (f.h4[3], f.w4[3], f.strip[3], f.ypos[3]),
        (37, 99, 2, 26752)
    );
    assert_eq!((f.w4[4], f.strip[4]), (40, 0));
    assert_eq!((f.w4[5], f.strip[5], f.ypos[5]), (40, 1, 14080));
    assert_eq!((f.w4[7], f.strip[7]), (40, 2));
}
