use oxideav_indeo::indeo3::header::{
    alt_quant_indices, BITSTREAM_HEADER_LEN, COMBINED_HEADER_LEN, FLAG_YVU9_8BIT, FRAME_HEADER_LEN,
    FrameFlags, FrameHeader, HeaderError, MAGIC_FRMH, NULL_FRAME_DATA_SIZE_BITS,
    REQUIRED_DEC_VERSION,
};

#[derive(Clone, Copy)]
struct HeaderFields {
    frame_number: u32,
    unknown1: u32,
    frame_size: u32,
    frame_flags: u16,
    data_size_bits: u32,
    cb_offset: i8,
    reserved1: u8,
    bsh_checksum: u16,
    height: u16,
    width: u16,
    y_offset: u32,
    v_offset: u32,
    u_offset: u32,
    reserved2: u32,
    alt_quant: [u8; 16],
}

impl HeaderFields {
    fn minimal() -> Self {
        Self {
            frame_number: 0,
            unknown1: 0,
            frame_size: 0x4000,
            frame_flags: 0,
            data_size_bits: NULL_FRAME_DATA_SIZE_BITS,
            cb_offset: 0,
            reserved1: 0,
            bsh_checksum: 0,
            height: 16,
            width: 16,
            y_offset: 0x30,
            v_offset: 0x40,
            u_offset: 0x50,
            reserved2: 0,
            alt_quant: [0; 16],
        }
    }
}

fn build_valid_header(f: HeaderFields) -> [u8; COMBINED_HEADER_LEN] {
    let HeaderFields {
        frame_number,
        unknown1,
        frame_size,
        frame_flags,
        data_size_bits,
        cb_offset,
        reserved1,
        bsh_checksum,
        height,
        width,
        y_offset,
        v_offset,
        u_offset,
        reserved2,
        alt_quant,
    } = f;
    let mut buf = [0u8; COMBINED_HEADER_LEN];
    let check_sum = frame_number ^ unknown1 ^ frame_size ^ MAGIC_FRMH;

    buf[0x00..0x04].copy_from_slice(&frame_number.to_le_bytes());
    buf[0x04..0x08].copy_from_slice(&unknown1.to_le_bytes());
    buf[0x08..0x0c].copy_from_slice(&check_sum.to_le_bytes());
    buf[0x0c..0x10].copy_from_slice(&frame_size.to_le_bytes());

    let bsh = &mut buf[FRAME_HEADER_LEN..];
    bsh[0x00..0x02].copy_from_slice(&REQUIRED_DEC_VERSION.to_le_bytes());
    bsh[0x02..0x04].copy_from_slice(&frame_flags.to_le_bytes());
    bsh[0x04..0x08].copy_from_slice(&data_size_bits.to_le_bytes());
    bsh[0x08] = cb_offset as u8;
    bsh[0x09] = reserved1;
    bsh[0x0a..0x0c].copy_from_slice(&bsh_checksum.to_le_bytes());
    bsh[0x0c..0x0e].copy_from_slice(&height.to_le_bytes());
    bsh[0x0e..0x10].copy_from_slice(&width.to_le_bytes());
    bsh[0x10..0x14].copy_from_slice(&y_offset.to_le_bytes());
    bsh[0x14..0x18].copy_from_slice(&v_offset.to_le_bytes());
    bsh[0x18..0x1c].copy_from_slice(&u_offset.to_le_bytes());
    bsh[0x1c..0x20].copy_from_slice(&reserved2.to_le_bytes());
    bsh[0x20..0x30].copy_from_slice(&alt_quant);

    buf
}

#[test]
fn parses_minimal_intra_frame() {
    let buf = build_valid_header(HeaderFields {
        frame_flags: 0x0005,
        data_size_bits: 0x1000,
        height: 240,
        width: 320,
        ..HeaderFields::minimal()
    });
    let hdr = FrameHeader::parse(&buf).expect("minimal intra header must parse");

    assert_eq!(hdr.frame.frame_number, 0);
    assert_eq!(hdr.frame.unknown1, 0);
    assert_eq!(hdr.frame.frame_size, 0x4000);
    assert_eq!(hdr.bitstream.dec_version, REQUIRED_DEC_VERSION);
    assert_eq!(hdr.bitstream.data_size, 0x1000);
    assert_eq!(hdr.bitstream.height, 240);
    assert_eq!(hdr.bitstream.width, 320);
    assert_eq!(hdr.bitstream.y_offset, 0x30);
    assert_eq!(hdr.bitstream.v_offset, 0x40);
    assert_eq!(hdr.bitstream.u_offset, 0x50);

    let flags = hdr.bitstream.frame_flags;
    assert!(flags.periodic_intra());
    assert!(flags.intra());
    assert!(!flags.is_inter());
    assert!(!flags.yvu9_8bit());
    assert!(!hdr.bitstream.is_null_frame());
}

#[test]
fn rejects_buffer_shorter_than_64_bytes() {
    let buf = [0u8; 63];
    let err = FrameHeader::parse(&buf).unwrap_err();
    assert_eq!(
        err,
        HeaderError::BufferTooShort {
            needed: COMBINED_HEADER_LEN,
            actual: 63,
        }
    );
}

#[test]
fn rejects_checksum_mismatch() {
    let mut buf = build_valid_header(HeaderFields {
        frame_number: 7,
        frame_flags: 0x0005,
        data_size_bits: 0x1000,
        height: 240,
        width: 320,
        ..HeaderFields::minimal()
    });
    buf[0x08] ^= 0xff;
    match FrameHeader::parse(&buf) {
        Err(HeaderError::ChecksumMismatch { got, expected }) => {
            assert_ne!(got, expected);
            assert_eq!(expected, 7u32 ^ 0x4000u32 ^ MAGIC_FRMH);
        }
        other => panic!("expected ChecksumMismatch, got {other:?}"),
    }
}

#[test]
fn rejects_frame_size_at_or_below_header_length() {
    for too_small in 0u32..=(FRAME_HEADER_LEN as u32) {
        let buf = build_valid_header(HeaderFields {
            frame_number: 1,
            unknown1: 2,
            frame_size: too_small,
            ..HeaderFields::minimal()
        });
        match FrameHeader::parse(&buf) {
            Err(HeaderError::FrameSizeTooSmall { frame_size }) => {
                assert_eq!(frame_size, too_small);
            }
            other => {
                panic!("expected FrameSizeTooSmall for frame_size={too_small}, got {other:?}")
            }
        }
    }
}

#[test]
fn accepts_frame_size_just_above_header_length() {
    let buf = build_valid_header(HeaderFields {
        frame_number: 1,
        unknown1: 2,
        frame_size: (FRAME_HEADER_LEN as u32) + 1,
        ..HeaderFields::minimal()
    });
    let hdr = FrameHeader::parse(&buf).expect("frame_size = 17 must parse");
    assert_eq!(hdr.frame.frame_size, 17);
}

#[test]
fn rejects_unsupported_dec_version() {
    let mut buf = build_valid_header(HeaderFields::minimal());
    buf[FRAME_HEADER_LEN..FRAME_HEADER_LEN + 2].copy_from_slice(&0x0030u16.to_le_bytes());
    match FrameHeader::parse(&buf) {
        Err(HeaderError::UnsupportedDecVersion { got }) => assert_eq!(got, 0x0030),
        other => panic!("expected UnsupportedDecVersion, got {other:?}"),
    }
}

#[test]
fn rejects_yvu9_8bit_pixel_format() {
    let buf = build_valid_header(HeaderFields {
        frame_flags: FLAG_YVU9_8BIT,
        ..HeaderFields::minimal()
    });
    match FrameHeader::parse(&buf) {
        Err(HeaderError::UnsupportedPixelFormat { flags }) => {
            assert_eq!(flags, FLAG_YVU9_8BIT);
        }
        other => panic!("expected UnsupportedPixelFormat, got {other:?}"),
    }
}

#[test]
fn null_frame_sentinel_round_trips() {
    let buf = build_valid_header(HeaderFields {
        frame_number: 42,
        frame_size: 0x40,
        ..HeaderFields::minimal()
    });
    let hdr = FrameHeader::parse(&buf).expect("null frame must parse");
    assert!(hdr.bitstream.is_null_frame());
    assert!(hdr.bitstream.frame_flags.is_inter());
    assert!(!hdr.bitstream.frame_flags.periodic_intra());
    assert!(!hdr.bitstream.frame_flags.intra());
}

#[test]
fn frame_flags_decode_named_bits() {
    let raw = 0x0001 | FLAG_YVU9_8BIT | 0x0004 | 0x0008 | 0x0010 | 0x0020 | 0x0100 | 0x0200;
    let f = FrameFlags(raw);
    assert_eq!(f.bits(), raw);
    assert!(f.periodic_intra());
    assert!(f.yvu9_8bit());
    assert!(f.intra());
    assert!(f.next_intra_hint());
    assert!(f.mv_halfpel_horiz());
    assert!(f.mv_halfpel_vert());
    assert!(f.droppable_inter());
    assert!(f.buffer_selector());
    assert!(!f.is_inter());

    let inter = FrameFlags(0x0200);
    assert!(inter.is_inter());
    assert!(!inter.periodic_intra());
    assert!(!inter.intra());
    assert!(inter.buffer_selector());
}

#[test]
fn cb_offset_is_signed() {
    let buf = build_valid_header(HeaderFields {
        cb_offset: -1,
        ..HeaderFields::minimal()
    });
    let hdr = FrameHeader::parse(&buf).expect("cb_offset = -1 must parse");
    assert_eq!(hdr.bitstream.cb_offset, -1);
}

#[test]
fn alt_quant_round_trips_and_splits() {
    let mut tbl = [0u8; 16];
    for (i, slot) in tbl.iter_mut().enumerate() {
        *slot = ((i as u8) << 4) | (15 - i as u8);
    }
    let buf = build_valid_header(HeaderFields {
        alt_quant: tbl,
        ..HeaderFields::minimal()
    });
    let hdr = FrameHeader::parse(&buf).expect("must parse");
    assert_eq!(hdr.bitstream.alt_quant, tbl);

    for (i, byte) in tbl.iter().enumerate() {
        let (primary, secondary) = alt_quant_indices(*byte);
        assert_eq!(primary, i as u8);
        assert_eq!(secondary, 15 - i as u8);
    }
}

#[test]
fn bsh_checksum_and_reserved_fields_are_tolerated() {
    let buf = build_valid_header(HeaderFields {
        frame_number: 0x1234_5678,
        unknown1: 0xdead_beef,
        frame_flags: 0x0005,
        cb_offset: -42,
        reserved1: 0xaa,
        bsh_checksum: 0xcafe,
        height: 240,
        width: 320,
        reserved2: 0xfeed_face,
        ..HeaderFields::minimal()
    });
    let hdr = FrameHeader::parse(&buf).expect("must parse");
    assert_eq!(hdr.frame.unknown1, 0xdead_beef);
    assert_eq!(hdr.bitstream.reserved1, 0xaa);
    assert_eq!(hdr.bitstream.checksum, 0xcafe);
    assert_eq!(hdr.bitstream.reserved2, 0xfeed_face);
    assert_eq!(hdr.bitstream.cb_offset, -42);
}

#[test]
fn header_size_constants_match_spec() {
    assert_eq!(FRAME_HEADER_LEN, 16);
    assert_eq!(BITSTREAM_HEADER_LEN, 48);
    assert_eq!(COMBINED_HEADER_LEN, 64);
}

#[test]
fn frmh_magic_constant_matches_spec() {
    assert_eq!(MAGIC_FRMH, u32::from_le_bytes(*b"HMRF"));
    let frmh = [b'F', b'R', b'M', b'H'];
    let on_disk = [b'H', b'M', b'R', b'F'];
    assert_eq!(MAGIC_FRMH, u32::from_be_bytes(frmh));
    assert_eq!(MAGIC_FRMH, u32::from_le_bytes(on_disk));
}
