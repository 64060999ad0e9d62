use vstd::prelude::*;

use crate::error::CsiError;
use crate::header::CSIStruct;
use crate::matrix::{dimensions_ok, MAX_ANTENNAS, MAX_TONES};

verus! {

/// The most tones per antenna pair that the magnitude view gives: the device has
/// no more usable subcarriers than these, whatever a frame declares.
pub const MAGNITUDE_TONES: usize = 56;

/// A complex number as a plain pair of parts.
#[derive(Debug)]
pub struct ComplexDef<T> {
    /// The real part.
    pub re: T,
    /// The imaginary part.
    pub im: T,
}

impl<T: Clone> Clone for ComplexDef<T> {
    fn clone(&self) -> (c: Self)
        ensures
            cloned(self.re, c.re),
            cloned(self.im, c.im),
    {
        ComplexDef { re: self.re.clone(), im: self.im.clone() }
    }
}

/// A decoded frame as plain data: the whole matrix and the status header.
#[derive(Debug)]
pub struct SerCSI {
    /// The matrix, by receive antenna, transmit antenna and tone.
    pub csi_matrix: Vec<Vec<Vec<ComplexDef<isize>>>>,
    /// The status header.
    pub csi_status: CSIStruct,
}

/// The square of the magnitude of a complex number with parts `re` and `im`.
pub open spec fn norm_sqr_of(re: int, im: int) -> int {
    re * re + im * im
}

fn square(x: isize) -> (r: u128)
    ensures
        r == x * x,
        r <= 0x4000_0000_0000_0000_0000_0000_0000_0000,
{
    let wide: i128 = x as i128;
    let a: u128 = if wide < 0 {
        (-wide) as u128
    } else {
        wide as u128
    };
    assert(a * a == x * x && a * a <= 0x4000_0000_0000_0000_0000_0000_0000_0000)
        by (nonlinear_arith)
        requires
            a == x || a == -x,
            0 <= a <= 0x8000_0000_0000_0000,
    ;
    a * a
}

/// The square of the magnitude of `c`, in a type that holds it for every `c`.
pub fn norm_sqr(c: &ComplexDef<isize>) -> (r: u128)
    ensures
        r == norm_sqr_of(c.re as int, c.im as int),
{
    square(c.re) + square(c.im)
}

/// How many tones of an antenna pair with `n` tones the magnitude view gives.
pub open spec fn view_len(n: int) -> int {
    if n <= MAGNITUDE_TONES {
        n
    } else {
        MAGNITUDE_TONES as int
    }
}

/// The squared magnitudes of the first `limit` tones of `tones`, at most 56 of them.
fn squared_tones(tones: &Vec<ComplexDef<isize>>, limit: usize) -> (out: Vec<u128>)
    requires
        limit <= tones.len(),
    ensures
        out.len() == view_len(limit as int),
        forall|c: int|
            0 <= c < out.len() ==> #[trigger] out[c] == norm_sqr_of(
                tones[c].re as int,
                tones[c].im as int,
            ),
{
    let n: usize = if limit <= MAGNITUDE_TONES {
        limit
    } else {
        MAGNITUDE_TONES
    };
    let mut out: Vec<u128> = Vec::new();
    let mut c: usize = 0;
    while c < n
        invariant
            c <= n <= tones.len(),
            out.len() == c,
            forall|k: int|
                0 <= k < c ==> #[trigger] out[k] == norm_sqr_of(
                    tones[k].re as int,
                    tones[k].im as int,
                ),
        decreases n - c,
    {
        out.push(norm_sqr(&tones[c]));
        c += 1;
    }
    out
}

/// The magnitude view of a whole matrix, squared: for every antenna pair that the
/// matrix has room for, the squared magnitudes of its first tones, in their order,
/// and of no more than 56 of them.
///
/// A matrix that was decoded from a frame has room for more cells than the frame
/// filled: `populated_squared_magnitudes` gives the view of the frame's cells alone.
pub fn squared_magnitudes(m: &Vec<Vec<Vec<ComplexDef<isize>>>>) -> (out: Vec<Vec<Vec<u128>>>)
    ensures
        out.len() == m.len(),
        forall|a: int| 0 <= a < m.len() ==> (#[trigger] out[a]).len() == m[a].len(),
        forall|a: int, b: int|
            0 <= a < m.len() && 0 <= b < m[a].len() ==> {
                &&& (#[trigger] out[a][b]).len() == view_len(m[a][b].len() as int)
                &&& out[a][b].len() <= MAGNITUDE_TONES
            },
        forall|a: int, b: int, c: int|
            0 <= a < m.len() && 0 <= b < m[a].len() && 0 <= c < out[a][b].len()
                ==> #[trigger] out[a][b][c] == norm_sqr_of(
                m[a][b][c].re as int,
                m[a][b][c].im as int,
            ),
{
    let mut out: Vec<Vec<Vec<u128>>> = Vec::new();
    let mut a: usize = 0;
    while a < m.len()
        invariant
            a <= m.len(),
            out.len() == a,
            forall|x: int| 0 <= x < a ==> (#[trigger] out[x]).len() == m[x].len(),
            forall|x: int, y: int|
                0 <= x < a && 0 <= y < m[x].len() ==> {
                    &&& (#[trigger] out[x][y]).len() == view_len(m[x][y].len() as int)
                    &&& out[x][y].len() <= MAGNITUDE_TONES
                },
            forall|x: int, y: int, z: int|
                0 <= x < a && 0 <= y < m[x].len() && 0 <= z < out[x][y].len()
                    ==> #[trigger] out[x][y][z] == norm_sqr_of(
                    m[x][y][z].re as int,
                    m[x][y][z].im as int,
                ),
        decreases m.len() - a,
    {
        let row = &m[a];
        let mut out_row: Vec<Vec<u128>> = Vec::new();
        let mut b: usize = 0;
        while b < row.len()
            invariant
                b <= row.len(),
                out_row.len() == b,
                forall|y: int|
                    0 <= y < b ==> {
                        &&& (#[trigger] out_row[y]).len() == view_len(row[y].len() as int)
                        &&& out_row[y].len() <= MAGNITUDE_TONES
                    },
                forall|y: int, z: int|
                    0 <= y < b && 0 <= z < out_row[y].len() ==> #[trigger] out_row[y][z]
                        == norm_sqr_of(row[y][z].re as int, row[y][z].im as int),
            decreases row.len() - b,
        {
            out_row.push(squared_tones(&row[b], row[b].len()));
            b += 1;
        }
        out.push(out_row);
        a += 1;
    }
    out
}

/// The matrix `m` has the cells of `nr` receive antennas, `nc` transmit antennas and
/// `num_tones` tones.
pub open spec fn holds_dimensions(
    m: Vec<Vec<Vec<ComplexDef<isize>>>>,
    nr: int,
    nc: int,
    num_tones: int,
) -> bool {
    &&& 0 <= nr <= m.len()
    &&& forall|a: int| 0 <= a < nr ==> nc <= (#[trigger] m[a]).len()
    &&& forall|a: int, b: int|
        0 <= a < nr && 0 <= b < nc ==> num_tones <= (#[trigger] m[a][b]).len()
}

/// The magnitude view of the populated cells of a matrix, squared: for each of the
/// `nr` by `nc` antenna pairs of the frame, the squared magnitudes of the first of
/// its `num_tones` tones, in their order, and of no more than 56 of them. The cells
/// of the matrix beyond these dimensions are not read.
pub fn populated_squared_magnitudes(
    m: &Vec<Vec<Vec<ComplexDef<isize>>>>,
    nr: usize,
    nc: usize,
    num_tones: usize,
) -> (out: Vec<Vec<Vec<u128>>>)
    requires
        holds_dimensions(*m, nr as int, nc as int, num_tones as int),
    ensures
        out.len() == nr,
        forall|a: int| 0 <= a < nr ==> (#[trigger] out[a]).len() == nc,
        forall|a: int, b: int|
            0 <= a < nr && 0 <= b < nc ==> (#[trigger] out[a][b]).len() == view_len(
                num_tones as int,
            ),
        forall|a: int, b: int, c: int|
            0 <= a < nr && 0 <= b < nc && 0 <= c < view_len(num_tones as int)
                ==> #[trigger] out[a][b][c] == norm_sqr_of(
                m[a][b][c].re as int,
                m[a][b][c].im as int,
            ),
{
    let mut out: Vec<Vec<Vec<u128>>> = Vec::new();
    let mut a: usize = 0;
    while a < nr
        invariant
            a <= nr,
            holds_dimensions(*m, nr as int, nc as int, num_tones as int),
            out.len() == a,
            forall|x: int| 0 <= x < a ==> (#[trigger] out[x]).len() == nc,
            forall|x: int, y: int|
                0 <= x < a && 0 <= y < nc ==> (#[trigger] out[x][y]).len() == view_len(
                    num_tones as int,
                ),
            forall|x: int, y: int, z: int|
                0 <= x < a && 0 <= y < nc && 0 <= z < view_len(num_tones as int)
                    ==> #[trigger] out[x][y][z] == norm_sqr_of(
                    m[x][y][z].re as int,
                    m[x][y][z].im as int,
                ),
        decreases nr - a,
    {
        let row = &m[a];
        let mut out_row: Vec<Vec<u128>> = Vec::new();
        let mut b: usize = 0;
        while b < nc
            invariant
                b <= nc <= row.len(),
                out_row.len() == b,
                forall|y: int| 0 <= y < nc ==> num_tones <= (#[trigger] row[y]).len(),
                forall|y: int|
                    0 <= y < b ==> (#[trigger] out_row[y]).len() == view_len(num_tones as int),
                forall|y: int, z: int|
                    0 <= y < b && 0 <= z < view_len(num_tones as int) ==> #[trigger] out_row[y][z]
                        == norm_sqr_of(row[y][z].re as int, row[y][z].im as int),
            decreases nc - b,
        {
            out_row.push(squared_tones(&row[b], num_tones));
            b += 1;
        }
        out.push(out_row);
        a += 1;
    }
    out
}

/// Whether `m` has the cells of the given dimensions.
fn has_dimensions(m: &Vec<Vec<Vec<ComplexDef<isize>>>>, nr: usize, nc: usize, num_tones: usize) -> (r:
    bool)
    ensures
        r == holds_dimensions(*m, nr as int, nc as int, num_tones as int),
{
    if nr > m.len() {
        return false;
    }
    let mut a: usize = 0;
    while a < nr
        invariant
            a <= nr <= m.len(),
            forall|x: int| 0 <= x < a ==> nc <= (#[trigger] m[x]).len(),
            forall|x: int, y: int|
                0 <= x < a && 0 <= y < nc ==> num_tones <= (#[trigger] m[x][y]).len(),
        decreases nr - a,
    {
        let row = &m[a];
        if nc > row.len() {
            return false;
        }
        let mut b: usize = 0;
        while b < nc
            invariant
                a < nr <= m.len(),
                *row == m[a as int],
                b <= nc <= row.len(),
                forall|y: int| 0 <= y < b ==> num_tones <= (#[trigger] row[y]).len(),
            decreases nc - b,
        {
            if num_tones > row[b].len() {
                assert(m[a as int][b as int].len() < num_tones);
                return false;
            }
            b += 1;
        }
        a += 1;
    }
    true
}

impl SerCSI {
    /// The dimensions in the status are ones that a frame may declare, and the matrix
    /// has the cells for them.
    pub open spec fn populated(self) -> bool {
        &&& dimensions_ok(
            self.csi_status.nr as int,
            self.csi_status.nc as int,
            self.csi_status.num_tones as int,
        )
        &&& holds_dimensions(
            self.csi_matrix,
            self.csi_status.nr as int,
            self.csi_status.nc as int,
            self.csi_status.num_tones as int,
        )
    }

    /// The magnitude view of the frame, squared: the view of the cells within the
    /// dimensions that the status declares, as `populated_squared_magnitudes` gives
    /// it.
    ///
    /// A frame whose status declares dimensions that no frame may have, or more
    /// cells than its matrix has, is refused.
    pub fn squared_magnitudes(&self) -> (r: Result<Vec<Vec<Vec<u128>>>, CsiError>)
        ensures
            match r {
                Ok(out) => {
                    let nr = self.csi_status.nr as int;
                    let nc = self.csi_status.nc as int;
                    let shown = view_len(self.csi_status.num_tones as int);
                    &&& self.populated()
                    &&& out.len() == nr
                    &&& forall|a: int| 0 <= a < nr ==> (#[trigger] out[a]).len() == nc
                    &&& forall|a: int, b: int|
                        0 <= a < nr && 0 <= b < nc ==> (#[trigger] out[a][b]).len() == shown
                    &&& forall|a: int, b: int, c: int|
                        0 <= a < nr && 0 <= b < nc && 0 <= c < shown ==> #[trigger] out[a][b][c]
                            == norm_sqr_of(
                            self.csi_matrix[a][b][c].re as int,
                            self.csi_matrix[a][b][c].im as int,
                        )
                },
                Err(e) => e == CsiError::InvalidDimensions && !self.populated(),
            },
    {
        let nr: usize = self.csi_status.nr as usize;
        let nc: usize = self.csi_status.nc as usize;
        let num_tones: usize = self.csi_status.num_tones as usize;
        if nr < 1 || nr > MAX_ANTENNAS || nc < 1 || nc > MAX_ANTENNAS || num_tones > MAX_TONES {
            return Err(CsiError::InvalidDimensions);
        }
        if !has_dimensions(&self.csi_matrix, nr, nc, num_tones) {
            return Err(CsiError::InvalidDimensions);
        }
        Ok(populated_squared_magnitudes(&self.csi_matrix, nr, nc, num_tones))
    }
}

} // verus!
