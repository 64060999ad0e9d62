use csi_types::error::CsiError;
use csi_types::stream::BitReader;

#[test]
fn reader_needs_a_first_word() {
    assert!(matches!(BitReader::new(&[]), Err(CsiError::TruncatedFrame)));
    assert!(matches!(BitReader::new(&[1]), Err(CsiError::TruncatedFrame)));
    let r = BitReader::new(&[1, 2]).unwrap();
    assert_eq!(r.bytes_read(), 2);
    assert_eq!(r.bits_left(), 16);
}

#[test]
fn peek_and_consume_walk_the_stream() {
    let data = [0xCDu8, 0xAB, 0x34, 0x12];
    let mut r = BitReader::new(&data).unwrap();
    assert_eq!(r.peek(0), Ok(0));
    assert_eq!(r.peek(4), Ok(0xD));
    assert_eq!(r.peek(16), Ok(0xABCD));
    assert_eq!(r.peek(17), Err(CsiError::MisalignedStream));
    assert_eq!(r.consume(4), Ok(()));
    assert_eq!(r.bits_left(), 12);
    assert_eq!(r.peek(8), Ok(0xBC));
    assert_eq!(r.refill(), Ok(()));
    assert_eq!(r.bytes_read(), 4);
    assert_eq!(r.bits_left(), 28);
    assert_eq!(r.peek(28), Ok(0x1234ABC));
    assert_eq!(r.consume(12), Ok(()));
    assert_eq!(r.peek(16), Ok(0x1234));
    assert_eq!(r.consume(17), Err(CsiError::MisalignedStream));
    assert_eq!(r.bits_left(), 16);
    assert_eq!(r.consume(16), Ok(()));
    assert_eq!(r.bits_left(), 0);
    assert_eq!(r.peek(0), Ok(0));
    assert_eq!(r.peek(1), Err(CsiError::MisalignedStream));
    assert_eq!(r.refill(), Err(CsiError::TruncatedFrame));
    assert_eq!(r.bytes_read(), 4);
}

#[test]
fn refill_refuses_a_full_accumulator() {
    let data = [1u8, 2, 3, 4, 5, 6];
    let mut r = BitReader::new(&data).unwrap();
    assert_eq!(r.refill(), Err(CsiError::MisalignedStream));
    assert_eq!(r.bytes_read(), 2);
    assert_eq!(r.consume(1), Ok(()));
    assert_eq!(r.refill(), Ok(()));
    assert_eq!(r.bits_left(), 31);
    assert_eq!(r.refill(), Err(CsiError::MisalignedStream));
}

#[test]
fn read_signed_takes_ten_bit_values() {
    // -1, 1, 511, -512
    let data = [255u8, 7, 240, 31, 128, 0];
    let mut r = BitReader::new(&data).unwrap();
    assert_eq!(r.read_signed(10), Ok(-1));
    assert_eq!(r.bytes_read(), 2);
    assert_eq!(r.read_signed(10), Ok(1));
    assert_eq!(r.bytes_read(), 4);
    assert_eq!(r.read_signed(10), Ok(511));
    assert_eq!(r.bytes_read(), 4);
    assert_eq!(r.read_signed(10), Ok(-512));
    assert_eq!(r.bytes_read(), 6);
    assert_eq!(r.bits_left(), 8);
    assert_eq!(r.read_signed(10), Err(CsiError::TruncatedFrame));
    assert_eq!(r.bits_left(), 8);
}

#[test]
fn read_signed_refuses_widths_it_cannot_serve() {
    let data = [1u8, 2, 3, 4];
    let mut r = BitReader::new(&data).unwrap();
    assert_eq!(r.read_signed(0), Err(CsiError::MisalignedStream));
    assert_eq!(r.read_signed(17), Err(CsiError::MisalignedStream));
    assert_eq!(r.bits_left(), 16);
    assert_eq!(r.read_signed(16), Ok(0x0201));
    assert_eq!(r.read_signed(8), Ok(3));
    assert_eq!(r.read_signed(8), Ok(4));
    assert_eq!(r.read_signed(1), Err(CsiError::TruncatedFrame));
}

#[test]
fn read_signed_other_widths() {
    let data = [0x80u8, 0xFF, 0x7F, 0x00];
    let mut r = BitReader::new(&data).unwrap();
    assert_eq!(r.read_signed(8), Ok(-128));
    assert_eq!(r.read_signed(8), Ok(-1));
    assert_eq!(r.read_signed(8), Ok(127));
    assert_eq!(r.read_signed(1), Ok(0));
}
