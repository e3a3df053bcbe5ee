use oxideav_indeo::common::{clip_u8, BitReader};

#[test]
fn read_bits_le_byte_msb_pack() {
    let buf = [0xB2, 0xCA];
    let mut br = BitReader::new(&buf);
    assert_eq!(br.read_bits(3), Some(0b010));
    assert_eq!(br.read_bits(5), Some(0b01101));
    assert_eq!(br.read_bits(4), Some(0b0101));
    assert_eq!(br.read_bits(4), Some(0b0011));
    assert_eq!(br.bits_remaining(), 0);
    assert!(br.at_eof());
}

#[test]
fn peek_does_not_advance() {
    let buf = [0xFF, 0x00];
    let mut br = BitReader::new(&buf);
    assert_eq!(br.peek_bits(8), Some(0xFF));
    assert_eq!(br.peek_bits(8), Some(0xFF));
    assert_eq!(br.read_bits(8), Some(0xFF));
    assert_eq!(br.peek_bits(8), Some(0x00));
}

#[test]
fn read_one_bit_at_a_time() {
    let buf = [0b1010_0110];
    let mut br = BitReader::new(&buf);
    let expected = [0u8, 1, 1, 0, 0, 1, 0, 1];
    for &e in &expected {
        assert_eq!(br.read_bit().unwrap(), e);
    }
}

#[test]
fn underflow_returns_none() {
    let buf = [0x00];
    let mut br = BitReader::new(&buf);
    assert_eq!(br.read_bits(8), Some(0));
    assert_eq!(br.read_bits(1), None);
    assert_eq!(br.peek_bits(1), None);
}

#[test]
fn clip_u8_clamps_extremes() {
    assert_eq!(clip_u8(-1), 0);
    assert_eq!(clip_u8(0), 0);
    assert_eq!(clip_u8(127), 127);
    assert_eq!(clip_u8(255), 255);
    assert_eq!(clip_u8(256), 255);
    assert_eq!(clip_u8(-1000), 0);
    assert_eq!(clip_u8(1000), 255);
}
