use csi_types::csi::{FRAME_BUF_LEN, PAYLOAD_BUF_LEN};
use csi_types::error::CsiError;
use csi_types::header::{CSIStruct, Endianness};
use csi_types::matrix::new_matrix;
use csi_types::CSI;
use num::complex::Complex;

/// A big-endian frame for one receive antenna, one transmit antenna and two tones,
/// with a payload of three bytes.
fn small_frame() -> Vec<u8> {
    let mut f = vec![0u8; 25];
    f[0] = 42; // tstamp
    f[9] = 6; // csi_len
    f[11] = 1; // channel
    f[16] = 2; // num_tones
    f[17] = 1; // nr
    f[18] = 1; // nc
    f[24] = 3; // payload_len
    // tone 0: re 1, im -1; tone 1: re -512, im 511
    f.extend_from_slice(&[255, 7, 240, 31, 128, 0]);
    f.extend_from_slice(&[0xA0, 0xA1, 0xA2]);
    f.extend_from_slice(&[0, 36]); // buf_len
    f
}

#[test]
fn new_decoder_is_zero() {
    let csi = CSI::new();
    assert_eq!(FRAME_BUF_LEN, 4096);
    assert_eq!(PAYLOAD_BUF_LEN, 15000);
    assert_eq!(csi.frame().len(), 4096);
    assert_eq!(csi.payload().len(), 15000);
    assert!(csi.frame().iter().all(|b| *b == 0));
    assert!(csi.payload().iter().all(|b| *b == 0));
    assert_eq!(csi.csi_status, CSIStruct::new());
    assert_eq!(csi.csi_matrix, new_matrix());
    assert_eq!(csi.endianness(), Endianness::native());
    assert_eq!(CSI::with_endianness(Endianness::Big).endianness(), Endianness::Big);
    assert_eq!(CSI::with_endianness(Endianness::Little).endianness(), Endianness::Little);
}

#[test]
fn load_copies_what_fits() {
    let mut csi = CSI::with_endianness(Endianness::Big);
    assert_eq!(csi.load(&[1, 2, 3]), 3);
    assert_eq!(&csi.frame()[..4], &[1, 2, 3, 0]);
    assert_eq!(csi.load(&[9]), 1);
    assert_eq!(&csi.frame()[..4], &[9, 2, 3, 0]);
    assert_eq!(csi.load(&[]), 0);
    assert_eq!(&csi.frame()[..4], &[9, 2, 3, 0]);
    let big: Vec<u8> = (0..5000).map(|i| (i % 251) as u8).collect();
    assert_eq!(csi.load(&big), 4096);
    assert_eq!(csi.frame(), &big[..4096]);
}

#[test]
fn decode_a_small_frame() {
    let frame = small_frame();
    let mut csi = CSI::with_endianness(Endianness::Big);
    let n = csi.load(&frame);
    assert_eq!(n, 36);
    assert_eq!(csi.record_status(n), Ok(()));
    assert_eq!(csi.csi_status.tstamp, 42);
    assert_eq!(csi.csi_status.csi_len, 6);
    assert_eq!(csi.csi_status.channel, 1);
    assert_eq!(csi.csi_status.num_tones, 2);
    assert_eq!(csi.csi_status.nr, 1);
    assert_eq!(csi.csi_status.nc, 1);
    assert_eq!(csi.csi_status.payload_len, 3);
    assert_eq!(csi.csi_status.buf_len, 36);
    assert_eq!(csi.record_csi_payload(), Ok(()));
    assert_eq!(csi.csi_matrix[0][0][0], Complex::new(1, -1));
    assert_eq!(csi.csi_matrix[0][0][1], Complex::new(-512, 511));
    assert_eq!(csi.csi_matrix[0][0][2], Complex::new(0, 0));
    assert_eq!(&csi.payload()[..4], &[0xA0, 0xA1, 0xA2, 0]);
    let s = csi.to_ser();
    assert_eq!(s.csi_matrix[0][0][1].re, -512);
    assert_eq!(s.csi_matrix[0][0][1].im, 511);
    assert_eq!(s.csi_status, csi.csi_status);
}

#[test]
fn decode_in_little_endian_mode() {
    let mut frame = small_frame();
    frame[0..8].reverse();
    frame[8..10].reverse();
    frame[10..12].reverse();
    frame[23..25].reverse();
    frame[34..36].reverse();
    let mut little = CSI::with_endianness(Endianness::Little);
    let n = little.load(&frame);
    assert_eq!(little.record_status(n), Ok(()));
    let mut big = CSI::with_endianness(Endianness::Big);
    let n = big.load(&small_frame());
    assert_eq!(big.record_status(n), Ok(()));
    assert_eq!(little.csi_status, big.csi_status);
    assert_eq!(little.record_csi_payload(), Ok(()));
    assert_eq!(little.csi_matrix[0][0][1], Complex::new(-512, 511));
}

#[test]
fn record_status_checks_the_received_length() {
    let mut csi = CSI::with_endianness(Endianness::Big);
    csi.load(&small_frame());
    for cnt in 0..25 {
        assert_eq!(csi.record_status(cnt), Err(CsiError::TruncatedFrame));
    }
    assert_eq!(csi.record_status(4097), Err(CsiError::TruncatedFrame));
    assert_eq!(csi.record_status(usize::MAX), Err(CsiError::TruncatedFrame));
    assert_eq!(csi.csi_status, CSIStruct::new());
    assert_eq!(csi.record_status(25), Ok(()));
    assert_eq!(csi.csi_status.buf_len, 3);
    assert_eq!(csi.record_status(4096), Ok(()));
    assert_eq!(csi.csi_status.buf_len, 0);
}

#[test]
fn invalid_dimensions_are_refused() {
    let mut csi = CSI::with_endianness(Endianness::Big);
    for (tones, nr, nc) in [(2u8, 0u8, 1u8), (2, 1, 0), (2, 4, 1), (2, 1, 4), (115, 1, 1), (255, 255, 255)] {
        let mut frame = small_frame();
        frame[16] = tones;
        frame[17] = nr;
        frame[18] = nc;
        let n = csi.load(&frame);
        assert_eq!(csi.record_status(n), Ok(()));
        assert_eq!(csi.record_csi_payload(), Err(CsiError::InvalidDimensions));
        assert_eq!(csi.csi_matrix, new_matrix());
        assert!(csi.payload().iter().all(|b| *b == 0));
    }
}

#[test]
fn payload_beyond_what_was_received_is_refused() {
    let mut csi = CSI::with_endianness(Endianness::Big);
    // a payload of 100 bytes would end at byte 131 of a frame of 36 bytes
    let mut frame = small_frame();
    frame[24] = 100;
    let n = csi.load(&frame);
    assert_eq!(n, 36);
    assert_eq!(csi.record_status(n), Ok(()));
    assert_eq!(csi.received_len(), 36);
    assert_eq!(csi.csi_status.payload_len, 100);
    assert_eq!(csi.record_csi_payload(), Err(CsiError::TruncatedFrame));
    assert_eq!(csi.csi_matrix, new_matrix());
    assert!(csi.payload().iter().all(|b| *b == 0));
    // a payload that starts at byte 4093 is beyond a frame of 36 bytes, too
    let mut frame = small_frame();
    frame[8] = 0x0F;
    frame[9] = 0xE4;
    let n = csi.load(&frame);
    assert_eq!(csi.record_status(n), Ok(()));
    assert_eq!(csi.record_csi_payload(), Err(CsiError::TruncatedFrame));
    frame[23] = 0xFF;
    frame[24] = 0xFF;
    let n = csi.load(&frame);
    assert_eq!(csi.record_status(n), Ok(()));
    assert_eq!(csi.record_csi_payload(), Err(CsiError::TruncatedFrame));
    assert_eq!(csi.csi_matrix, new_matrix());
    assert!(csi.payload().iter().all(|b| *b == 0));
}

#[test]
fn payload_may_end_with_the_frame() {
    let mut csi = CSI::with_endianness(Endianness::Big);
    let mut frame = small_frame();
    // the payload starts at byte 31: five bytes end at byte 36, six at byte 37
    frame[24] = 5;
    let n = csi.load(&frame);
    assert_eq!(csi.record_status(n), Ok(()));
    assert_eq!(csi.record_csi_payload(), Ok(()));
    assert_eq!(&csi.payload()[..6], &[0xA0, 0xA1, 0xA2, 0, 36, 0]);
    frame[24] = 6;
    let n = csi.load(&frame);
    assert_eq!(csi.record_status(n), Ok(()));
    assert_eq!(csi.record_csi_payload(), Err(CsiError::TruncatedFrame));
    assert_eq!(&csi.payload()[..6], &[0xA0, 0xA1, 0xA2, 0, 36, 0]);
}

#[test]
fn matrix_beyond_what_was_received_is_refused() {
    let mut csi = CSI::with_endianness(Endianness::Big);
    // a long frame leaves its bytes in the buffer
    let mut long = small_frame();
    long.extend(std::iter::repeat(0x55u8).take(4000));
    let n = csi.load(&long);
    assert_eq!(csi.record_status(n), Ok(()));
    assert_eq!(csi.record_csi_payload(), Ok(()));
    let decoded = csi.csi_matrix.clone();
    // three tones need 60 bits, four words: bytes 25 to 33; the payload is empty
    let mut frame = small_frame();
    frame[16] = 3;
    frame[24] = 0;
    let n = csi.load(&frame[..32]);
    assert_eq!(n, 32);
    assert_eq!(csi.record_status(n), Ok(()));
    assert_eq!(csi.record_csi_payload(), Err(CsiError::TruncatedFrame));
    assert_eq!(csi.csi_matrix, decoded);
    let n = csi.load(&frame[..33]);
    assert_eq!(csi.record_status(n), Ok(()));
    assert_eq!(csi.record_csi_payload(), Ok(()));
    assert_eq!(csi.csi_matrix[0][0][0], Complex::new(1, -1));
    assert_eq!(csi.csi_matrix[0][0][1], Complex::new(-512, 511));
    // the third tone is in the bytes 0, 0xA0, 0xA1: its imaginary part is bits 40 to
    // 49, which are clear, its real part bits 50 to 59, 0b101000 + (0b0001 << 6)
    assert_eq!(csi.csi_matrix[0][0][2], Complex::new(104, 0));
    // the whole matrix of a frame of 36 bytes cannot be there
    let mut frame = small_frame();
    frame[16] = 114;
    frame[17] = 3;
    frame[18] = 3;
    frame[24] = 0;
    let before = csi.csi_matrix.clone();
    let n = csi.load(&frame);
    assert_eq!(csi.record_status(n), Ok(()));
    assert_eq!(csi.record_csi_payload(), Err(CsiError::TruncatedFrame));
    assert_eq!(csi.csi_matrix, before);
}

#[test]
fn nothing_counts_as_received_before_a_status_is_recorded() {
    let mut csi = CSI::with_endianness(Endianness::Big);
    assert_eq!(csi.received_len(), 0);
    // the status of a new decoder has no antennas
    assert_eq!(csi.record_csi_payload(), Err(CsiError::InvalidDimensions));
    let n = csi.load(&small_frame());
    assert_eq!(csi.received_len(), 0);
    assert_eq!(csi.record_status(n), Ok(()));
    assert_eq!(csi.received_len(), 36);
    assert_eq!(csi.record_csi_payload(), Ok(()));
    // a refused length leaves the one that was recorded
    assert_eq!(csi.record_status(24), Err(CsiError::TruncatedFrame));
    assert_eq!(csi.record_status(4097), Err(CsiError::TruncatedFrame));
    assert_eq!(csi.received_len(), 36);
    assert_eq!(csi.record_status(30), Ok(()));
    assert_eq!(csi.received_len(), 30);
    assert_eq!(csi.record_csi_payload(), Err(CsiError::TruncatedFrame));
    // new bytes are not decoded by the status of the frame before
    assert_eq!(csi.record_status(36), Ok(()));
    let n = csi.load(&small_frame());
    assert_eq!(n, 36);
    assert_eq!(csi.received_len(), 0);
    assert_eq!(csi.record_csi_payload(), Err(CsiError::TruncatedFrame));
    // unpacking a stream of the caller's leaves the received length alone
    assert_eq!(csi.record_status(36), Ok(()));
    assert_eq!(csi.fill_matrix(&[10, 80, 224, 1, 10, 0], 2, 1, 1), Ok(()));
    assert_eq!(csi.received_len(), 36);
}

#[test]
fn fill_matrix_unpacks_into_the_decoder() {
    let mut csi = CSI::new();
    assert_eq!(csi.fill_matrix(&[10, 80, 224, 1, 10, 0], 2, 1, 1), Ok(()));
    assert_eq!(csi.csi_matrix[0][0][0], Complex::new(20, 10));
    assert_eq!(csi.csi_matrix[1][0][0], Complex::new(40, 30));
    assert_eq!(csi.fill_matrix(&[10, 80, 224, 1, 10], 2, 1, 1), Err(CsiError::TruncatedFrame));
    assert_eq!(csi.fill_matrix(&[10, 80, 224, 1, 10, 0], 2, 1, 200), Err(CsiError::InvalidDimensions));
    assert_eq!(csi.csi_matrix[1][0][0], Complex::new(40, 30));
}

#[test]
fn buffers_are_reused_across_decodes() {
    let mut csi = CSI::with_endianness(Endianness::Big);
    let n = csi.load(&small_frame());
    assert_eq!(csi.record_status(n), Ok(()));
    assert_eq!(csi.record_csi_payload(), Ok(()));
    let mut second = small_frame();
    second[16] = 1; // one tone
    second[24] = 1; // one byte of payload
    second[25] = 5;
    second[26] = 244;
    second[27] = 15;
    second[28] = 0;
    let n = csi.load(&second);
    assert_eq!(csi.record_status(n), Ok(()));
    assert_eq!(csi.record_csi_payload(), Ok(()));
    // the first tone is written anew, the second is left from the decode before
    assert_eq!(csi.csi_matrix[0][0][0], Complex::new(-3, 5));
    assert_eq!(csi.csi_matrix[0][0][1], Complex::new(-512, 511));
    assert_eq!(&csi.payload()[..4], &[0xA0, 0xA1, 0xA2, 0]);
}
