use csi_types::ser::{
    norm_sqr, populated_squared_magnitudes, squared_magnitudes, ComplexDef, SerCSI,
    MAGNITUDE_TONES,
};
use csi_types::{CSIStruct, CsiError, Endianness, CSI};
use num::complex::Complex;

#[test]
fn squared_norm_values() {
    assert_eq!(norm_sqr(&ComplexDef { re: 3, im: 4 }), 25);
    assert_eq!(norm_sqr(&ComplexDef { re: -3, im: 4 }), 25);
    assert_eq!(norm_sqr(&ComplexDef { re: 0, im: 0 }), 0);
    assert_eq!(norm_sqr(&ComplexDef { re: -512, im: 511 }), 512 * 512 + 511 * 511);
    let min = isize::MIN;
    let m = (min as i128).unsigned_abs();
    assert_eq!(norm_sqr(&ComplexDef { re: min, im: min }), 2 * m * m);
    assert_eq!(
        norm_sqr(&ComplexDef { re: isize::MAX, im: 1 }),
        (isize::MAX as u128) * (isize::MAX as u128) + 1
    );
}

#[test]
fn magnitude_view_keeps_the_first_56_tones() {
    assert_eq!(MAGNITUDE_TONES, 56);
    let mut m: Vec<Vec<Vec<ComplexDef<isize>>>> = Vec::new();
    for i in 0..3 {
        let mut row = Vec::new();
        for j in 0..3 {
            let mut tones = Vec::new();
            for t in 0..114 {
                tones.push(ComplexDef { re: (i * 1000 + j * 100 + t) as isize, im: 1 });
            }
            row.push(tones);
        }
        m.push(row);
    }
    let v = squared_magnitudes(&m);
    assert_eq!(v.len(), 3);
    for i in 0..3 {
        assert_eq!(v[i].len(), 3);
        for j in 0..3 {
            assert_eq!(v[i][j].len(), 56);
            for t in 0..56 {
                let re = (i * 1000 + j * 100 + t) as u128;
                assert_eq!(v[i][j][t], re * re + 1);
            }
        }
    }
}

#[test]
fn magnitude_view_of_short_rows_is_whole() {
    let tones = |n: usize| -> Vec<ComplexDef<isize>> {
        (0..n).map(|t| ComplexDef { re: t as isize, im: 0 }).collect()
    };
    let m = vec![vec![tones(0), tones(1), tones(55)], vec![tones(56), tones(57)], vec![]];
    let v = squared_magnitudes(&m);
    assert_eq!(v.len(), 3);
    assert_eq!(v[0].len(), 3);
    assert_eq!(v[1].len(), 2);
    assert_eq!(v[2].len(), 0);
    assert_eq!(v[0][0].len(), 0);
    assert_eq!(v[0][1], vec![0]);
    assert_eq!(v[0][2].len(), 55);
    assert_eq!(v[1][0].len(), 56);
    assert_eq!(v[1][1].len(), 56);
    assert_eq!(v[1][1][55], 55 * 55);
    assert_eq!(squared_magnitudes(&Vec::new()).len(), 0);
}

#[test]
fn to_ser_copies_matrix_and_status() {
    let mut csi = CSI::new();
    csi.csi_matrix[2][1][100] = Complex::new(-5, 9);
    csi.csi_status.payload_len = 77;
    csi.csi_status.nr = 3;
    let s: SerCSI = csi.to_ser();
    assert_eq!(s.csi_status, csi.csi_status);
    assert_eq!(s.csi_status.payload_len, 77);
    assert_eq!(s.csi_matrix.len(), 3);
    for i in 0..3 {
        assert_eq!(s.csi_matrix[i].len(), 3);
        for j in 0..3 {
            assert_eq!(s.csi_matrix[i][j].len(), 114);
            for t in 0..114 {
                assert_eq!(s.csi_matrix[i][j][t].re, csi.csi_matrix[i][j][t].re);
                assert_eq!(s.csi_matrix[i][j][t].im, csi.csi_matrix[i][j][t].im);
            }
        }
    }
    assert_eq!(s.csi_matrix[2][1][100].re, -5);
    assert_eq!(s.csi_matrix[2][1][100].im, 9);
    let v = squared_magnitudes(&s.csi_matrix);
    assert_eq!(v[2][1].len(), 56);
    assert_eq!(CSIStruct::new(), CSI::new().csi_status);
}

#[test]
fn complex_pairs_are_cloned_part_by_part() {
    let c = ComplexDef { re: -7isize, im: 9isize };
    let d = c.clone();
    assert_eq!(d.re, -7);
    assert_eq!(d.im, 9);
    assert_eq!(norm_sqr(&d), 130);
}

fn numbered_matrix() -> Vec<Vec<Vec<ComplexDef<isize>>>> {
    let mut m: Vec<Vec<Vec<ComplexDef<isize>>>> = Vec::new();
    for i in 0..3 {
        let mut row = Vec::new();
        for j in 0..3 {
            let mut tones = Vec::new();
            for t in 0..114 {
                tones.push(ComplexDef { re: (i * 1000 + j * 100 + t) as isize, im: 2 });
            }
            row.push(tones);
        }
        m.push(row);
    }
    m
}

#[test]
fn populated_view_has_the_dimensions_of_the_frame() {
    let m = numbered_matrix();
    let v = populated_squared_magnitudes(&m, 1, 1, 2);
    assert_eq!(v, vec![vec![vec![4u128, 5]]]);
    let v = populated_squared_magnitudes(&m, 2, 3, 1);
    assert_eq!(v.len(), 2);
    assert_eq!(v[0], vec![vec![4u128], vec![100 * 100 + 4], vec![200 * 200 + 4]]);
    assert_eq!(v[1], vec![vec![1000u128 * 1000 + 4], vec![1100 * 1100 + 4], vec![1200 * 1200 + 4]]);
    let v = populated_squared_magnitudes(&m, 3, 2, 0);
    assert_eq!(v, vec![vec![vec![], vec![]], vec![vec![], vec![]], vec![vec![], vec![]]]);
    let v = populated_squared_magnitudes(&m, 0, 0, 0);
    assert_eq!(v.len(), 0);
}

#[test]
fn populated_view_is_capped_at_56_tones() {
    let m = numbered_matrix();
    for tones in [55usize, 56, 57, 114] {
        let v = populated_squared_magnitudes(&m, 3, 3, tones);
        assert_eq!(v.len(), 3);
        for i in 0..3 {
            assert_eq!(v[i].len(), 3);
            for j in 0..3 {
                assert_eq!(v[i][j].len(), tones.min(56));
                for t in 0..tones.min(56) {
                    let re = (i * 1000 + j * 100 + t) as u128;
                    assert_eq!(v[i][j][t], re * re + 4);
                }
            }
        }
    }
}

#[test]
fn view_of_a_decoded_frame_leaves_stale_cells_out() {
    let mut frame = vec![0u8; 25];
    frame[9] = 6; // csi_len
    frame[16] = 2; // num_tones
    frame[17] = 1; // nr
    frame[18] = 1; // nc
    // tone 0: re 1, im -1; tone 1: re -512, im 511
    frame.extend_from_slice(&[255, 7, 240, 31, 128, 0]);
    let mut csi = CSI::with_endianness(Endianness::Big);
    csi.csi_matrix[2][2][0] = Complex::new(9, 9);
    csi.csi_matrix[0][0][5] = Complex::new(9, 9);
    let n = csi.load(&frame);
    assert_eq!(csi.record_status(n), Ok(()));
    assert_eq!(csi.record_csi_payload(), Ok(()));
    let s = csi.to_ser();
    assert_eq!(s.squared_magnitudes(), Ok(vec![vec![vec![2u128, 512 * 512 + 511 * 511]]]));
    // the view of the whole container has every pair
    let whole = squared_magnitudes(&s.csi_matrix);
    assert_eq!(whole.len(), 3);
    assert_eq!(whole[2][2][0], 162);
}

#[test]
fn view_refuses_dimensions_that_the_matrix_does_not_hold() {
    let status = |nr: u8, nc: u8, tones: u8| -> CSIStruct {
        let mut h = CSIStruct::new();
        h.nr = nr;
        h.nc = nc;
        h.num_tones = tones;
        h
    };
    for (nr, nc, tones) in [(0u8, 1u8, 1u8), (1, 0, 1), (4, 1, 1), (1, 4, 1), (1, 1, 115), (255, 255, 255)] {
        let s = SerCSI { csi_matrix: numbered_matrix(), csi_status: status(nr, nc, tones) };
        assert_eq!(s.squared_magnitudes(), Err(CsiError::InvalidDimensions));
    }
    let s = SerCSI { csi_matrix: numbered_matrix(), csi_status: status(3, 3, 114) };
    assert_eq!(s.squared_magnitudes().unwrap()[2][2].len(), 56);
    let s = SerCSI { csi_matrix: numbered_matrix(), csi_status: status(3, 3, 0) };
    assert_eq!(s.squared_magnitudes().unwrap()[2][2].len(), 0);
    // a matrix that is smaller than its status says
    let mut small = numbered_matrix();
    small[1][2].truncate(10);
    let s = SerCSI { csi_matrix: small.clone(), csi_status: status(2, 3, 11) };
    assert_eq!(s.squared_magnitudes(), Err(CsiError::InvalidDimensions));
    let s = SerCSI { csi_matrix: small.clone(), csi_status: status(2, 3, 10) };
    assert_eq!(s.squared_magnitudes().unwrap()[1][2].len(), 10);
    let s = SerCSI { csi_matrix: small.clone(), csi_status: status(1, 3, 11) };
    assert_eq!(s.squared_magnitudes().unwrap()[0][2].len(), 11);
    small[0].truncate(1);
    let s = SerCSI { csi_matrix: small.clone(), csi_status: status(1, 2, 1) };
    assert_eq!(s.squared_magnitudes(), Err(CsiError::InvalidDimensions));
    small.truncate(0);
    let s = SerCSI { csi_matrix: small, csi_status: status(1, 1, 1) };
    assert_eq!(s.squared_magnitudes(), Err(CsiError::InvalidDimensions));
}
