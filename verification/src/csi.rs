use num::complex::Complex;
use vstd::prelude::*;
use vstd::slice::slice_subrange;

use crate::error::CsiError;
use crate::header::{
    is_header_of, parse_header, payload_start, CSIStruct, Endianness, CSI_ST_LEN,
};
use crate::matrix::{
    bytes_needed, cell, dimensions_ok, matrix_wf, new_matrix, unpack_into, unpacked,
    MAX_ANTENNAS, MAX_TONES,
};
use crate::ser::{ComplexDef, SerCSI};

verus! {

/// The size in bytes of the buffer that holds one received frame.
pub const FRAME_BUF_LEN: usize = 4096;

/// The size in bytes of the buffer that holds the payload of a frame.
pub const PAYLOAD_BUF_LEN: usize = 15000;

/// A decoder with its buffers: the frame as received, the matrix and the payload
/// that were last decoded from it, and the status header.
///
/// The buffers are allocated once and written anew by every decode. The frame
/// buffer is larger than most frames: the decoder keeps the number of bytes that
/// were received for the frame whose status it recorded, and reads no byte beyond
/// them.
pub struct CSI {
    /// The matrix, by receive antenna, transmit antenna and tone. Only the cells
    /// within the dimensions of the last decoded frame belong to that frame.
    pub csi_matrix: Vec<Vec<Vec<Complex<isize>>>>,
    buf: Vec<u8>,
    data_buf: Vec<u8>,
    /// The status header that was last recorded.
    pub csi_status: CSIStruct,
    endianness: Endianness,
    received: usize,
}

impl CSI {
    /// The matrix.
    pub closed spec fn matrix(self) -> Vec<Vec<Vec<Complex<isize>>>> {
        self.csi_matrix
    }

    /// The status header.
    pub closed spec fn status(self) -> CSIStruct {
        self.csi_status
    }

    /// The bytes of the frame buffer.
    pub closed spec fn frame_buf(self) -> Seq<u8> {
        self.buf@
    }

    /// The bytes of the payload buffer.
    pub closed spec fn payload_buf(self) -> Seq<u8> {
        self.data_buf@
    }

    /// The byte order in which headers are read.
    pub closed spec fn byte_order(self) -> Endianness {
        self.endianness
    }

    /// How many bytes of the frame buffer were received for the frame whose status
    /// was recorded last: 0 while no status is recorded for what the buffer holds.
    pub closed spec fn received(self) -> nat {
        self.received as nat
    }

    /// The buffers have their sizes, the matrix has its full capacity, and no more
    /// was received than the frame buffer holds.
    pub open spec fn wf(self) -> bool {
        &&& matrix_wf(self.matrix())
        &&& self.frame_buf().len() == FRAME_BUF_LEN
        &&& self.payload_buf().len() == PAYLOAD_BUF_LEN
        &&& self.received() <= FRAME_BUF_LEN
    }

    /// A decoder for frames in byte order `mode`, with every buffer zero and nothing
    /// received.
    pub fn with_endianness(mode: Endianness) -> (csi: Self)
        ensures
            csi.wf(),
            csi.byte_order() == mode,
            csi.received() == 0,
            csi.status() == CSIStruct::zero(),
            csi.frame_buf() == Seq::new(FRAME_BUF_LEN as nat, |i: int| 0u8),
            csi.payload_buf() == Seq::new(PAYLOAD_BUF_LEN as nat, |i: int| 0u8),
            forall|a: int, b: int, c: int|
                0 <= a < MAX_ANTENNAS && 0 <= b < MAX_ANTENNAS && 0 <= c < MAX_TONES ==> {
                    let x = #[trigger] cell(csi.matrix(), a, b, c);
                    x.re == 0 && x.im == 0
                },
    {
        Self {
            csi_matrix: new_matrix(),
            buf: vec![0u8; FRAME_BUF_LEN],
            data_buf: vec![0u8; PAYLOAD_BUF_LEN],
            csi_status: CSIStruct::new(),
            endianness: mode,
            received: 0,
        }
    }

    /// A decoder for frames in the byte order of this machine, with every buffer zero
    /// and nothing received.
    pub fn new() -> (csi: Self)
        ensures
            csi.wf(),
            csi.received() == 0,
            csi.status() == CSIStruct::zero(),
            csi.frame_buf() == Seq::new(FRAME_BUF_LEN as nat, |i: int| 0u8),
            csi.payload_buf() == Seq::new(PAYLOAD_BUF_LEN as nat, |i: int| 0u8),
            forall|a: int, b: int, c: int|
                0 <= a < MAX_ANTENNAS && 0 <= b < MAX_ANTENNAS && 0 <= c < MAX_TONES ==> {
                    let x = #[trigger] cell(csi.matrix(), a, b, c);
                    x.re == 0 && x.im == 0
                },
    {
        Self::with_endianness(Endianness::native())
    }

    /// The byte order in which headers are read.
    pub fn endianness(&self) -> (mode: Endianness)
        ensures
            mode == self.byte_order(),
    {
        self.endianness
    }

    /// How many bytes were received for the frame whose status was recorded last.
    pub fn received_len(&self) -> (n: usize)
        ensures
            n == self.received(),
    {
        self.received
    }

    /// The frame buffer.
    pub fn frame(&self) -> (bytes: &[u8])
        ensures
            bytes@ == self.frame_buf(),
    {
        self.buf.as_slice()
    }

    /// The payload buffer, of which the first `csi_status.payload_len` bytes are the
    /// payload of the last decoded frame.
    pub fn payload(&self) -> (bytes: &[u8])
        ensures
            bytes@ == self.payload_buf(),
    {
        self.data_buf.as_slice()
    }

    /// Copies received bytes to the start of the frame buffer, as many as it holds,
    /// and returns how many were copied. The rest of the buffer stays as it was.
    ///
    /// The status that was recorded belongs to the frame before: until a status is
    /// recorded for the new bytes, none of them counts as received.
    pub fn load(&mut self, bytes: &[u8]) -> (n: usize)
        requires
            old(self).wf(),
        ensures
            final(self).wf(),
            final(self).received() == 0,
            n == if bytes@.len() <= FRAME_BUF_LEN {
                bytes@.len()
            } else {
                FRAME_BUF_LEN as nat
            },
            final(self).frame_buf() == bytes@.take(n as int) + old(self).frame_buf().skip(n as int),
            final(self).payload_buf() == old(self).payload_buf(),
            final(self).matrix() == old(self).matrix(),
            final(self).status() == old(self).status(),
            final(self).byte_order() == old(self).byte_order(),
    {
        let n: usize = if bytes.len() <= FRAME_BUF_LEN {
            bytes.len()
        } else {
            FRAME_BUF_LEN
        };
        self.received = 0;
        let mut i: usize = 0;
        while i < n
            invariant
                i <= n <= bytes@.len(),
                n <= FRAME_BUF_LEN,
                self.received == 0,
                self.buf@.len() == FRAME_BUF_LEN,
                old(self).buf@.len() == FRAME_BUF_LEN,
                self.buf@ == bytes@.take(i as int) + old(self).buf@.skip(i as int),
                self.data_buf == old(self).data_buf,
                self.csi_matrix == old(self).csi_matrix,
                self.csi_status == old(self).csi_status,
                self.endianness == old(self).endianness,
            decreases n - i,
        {
            self.buf[i] = bytes[i];
            i += 1;
        }
        n
    }

    /// Reads the status header from the first `cnt` bytes of the frame buffer, the
    /// bytes that were received, and keeps `cnt` as the length of the frame.
    ///
    /// Fewer than 25 received bytes cannot hold a header, and more than the buffer
    /// holds cannot have been received: both are refused, and the status and the
    /// received length stay.
    pub fn record_status(&mut self, cnt: usize) -> (r: Result<(), CsiError>)
        requires
            old(self).wf(),
        ensures
            final(self).wf(),
            final(self).frame_buf() == old(self).frame_buf(),
            final(self).payload_buf() == old(self).payload_buf(),
            final(self).matrix() == old(self).matrix(),
            final(self).byte_order() == old(self).byte_order(),
            match r {
                Ok(_) => {
                    &&& CSI_ST_LEN + 2 <= cnt <= FRAME_BUF_LEN
                    &&& is_header_of(
                        final(self).status(),
                        old(self).frame_buf().take(cnt as int),
                        old(self).byte_order(),
                    )
                    &&& final(self).received() == cnt
                },
                Err(e) => {
                    &&& e == CsiError::TruncatedFrame
                    &&& cnt < CSI_ST_LEN + 2 || cnt > FRAME_BUF_LEN
                    &&& final(self).status() == old(self).status()
                    &&& final(self).received() == old(self).received()
                },
            },
    {
        if cnt > FRAME_BUF_LEN {
            return Err(CsiError::TruncatedFrame);
        }
        let received = slice_subrange(self.buf.as_slice(), 0, cnt);
        match parse_header(received, self.endianness) {
            Ok(h) => {
                self.csi_status = h;
                self.received = cnt;
                Ok(())
            },
            Err(e) => Err(e),
        }
    }

    /// Unpacks the samples of `csi_addr` into the matrix.
    ///
    /// On success every cell within the dimensions holds its sample and the other
    /// cells are as they were. Dimensions that the matrix cannot hold, and a stream
    /// that is too short for the dimensions, are refused and leave the matrix as it
    /// was.
    pub fn fill_matrix(&mut self, csi_addr: &[u8], nr: usize, nc: usize, num_tones: usize) -> (r:
        Result<(), CsiError>)
        requires
            old(self).wf(),
        ensures
            final(self).wf(),
            final(self).frame_buf() == old(self).frame_buf(),
            final(self).payload_buf() == old(self).payload_buf(),
            final(self).status() == old(self).status(),
            final(self).byte_order() == old(self).byte_order(),
            final(self).received() == old(self).received(),
            match r {
                Ok(_) => {
                    &&& dimensions_ok(nr as int, nc as int, num_tones as int)
                    &&& bytes_needed(nr as int, nc as int, num_tones as int) <= csi_addr@.len()
                    &&& unpacked(
                        old(self).matrix(),
                        final(self).matrix(),
                        csi_addr@,
                        nr as int,
                        nc as int,
                        num_tones as int,
                    )
                },
                Err(e) => {
                    &&& final(self).matrix() == old(self).matrix()
                    &&& e == CsiError::InvalidDimensions <==> !dimensions_ok(
                        nr as int,
                        nc as int,
                        num_tones as int,
                    )
                    &&& e == CsiError::TruncatedFrame <==> dimensions_ok(
                        nr as int,
                        nc as int,
                        num_tones as int,
                    ) && csi_addr@.len() < bytes_needed(nr as int, nc as int, num_tones as int)
                    &&& e != CsiError::MisalignedStream
                },
            },
    {
        match unpack_into(&mut self.csi_matrix, csi_addr, nr, nc, num_tones) {
            Ok(_) => Ok(()),
            Err(e) => Err(e),
        }
    }

    /// Decodes the frame in the frame buffer by the status that was recorded for it:
    /// copies its payload to the start of the payload buffer and unpacks its matrix,
    /// which starts right after the header and the payload length.
    ///
    /// Only the bytes that were received are read. Dimensions that the matrix cannot
    /// hold are refused, and so is a frame whose payload or whose matrix would end
    /// beyond what was received. A refused frame leaves the matrix and the payload
    /// buffer as they were.
    pub fn record_csi_payload(&mut self) -> (r: Result<(), CsiError>)
        requires
            old(self).wf(),
        ensures
            final(self).wf(),
            final(self).frame_buf() == old(self).frame_buf(),
            final(self).status() == old(self).status(),
            final(self).byte_order() == old(self).byte_order(),
            final(self).received() == old(self).received(),
            match r {
                Ok(_) => {
                    let h = old(self).status();
                    let n = old(self).received() as int;
                    &&& dimensions_ok(h.nr as int, h.nc as int, h.num_tones as int)
                    &&& payload_start(h) + h.payload_len <= n
                    &&& CSI_ST_LEN + 2 + bytes_needed(h.nr as int, h.nc as int, h.num_tones as int)
                        <= n
                    &&& unpacked(
                        old(self).matrix(),
                        final(self).matrix(),
                        old(self).frame_buf().subrange(CSI_ST_LEN as int + 2, n),
                        h.nr as int,
                        h.nc as int,
                        h.num_tones as int,
                    )
                    &&& final(self).payload_buf() == old(self).frame_buf().subrange(
                        payload_start(h),
                        payload_start(h) + h.payload_len,
                    ) + old(self).payload_buf().skip(h.payload_len as int)
                },
                Err(e) => {
                    let h = old(self).status();
                    let n = old(self).received() as int;
                    &&& final(self).matrix() == old(self).matrix()
                    &&& final(self).payload_buf() == old(self).payload_buf()
                    &&& e == CsiError::InvalidDimensions <==> !dimensions_ok(
                        h.nr as int,
                        h.nc as int,
                        h.num_tones as int,
                    )
                    &&& e == CsiError::TruncatedFrame <==> dimensions_ok(
                        h.nr as int,
                        h.nc as int,
                        h.num_tones as int,
                    ) && (n < payload_start(h) + h.payload_len || n < CSI_ST_LEN + 2
                        + bytes_needed(h.nr as int, h.nc as int, h.num_tones as int))
                    &&& e != CsiError::MisalignedStream
                },
            },
    {
        let nr: usize = self.csi_status.nr as usize;
        let nc: usize = self.csi_status.nc as usize;
        let num_tones: usize = self.csi_status.num_tones as usize;
        let payload_len: usize = self.csi_status.payload_len as usize;
        let csi_len: usize = self.csi_status.csi_len as usize;
        let received: usize = self.received;
        if nr < 1 || nr > MAX_ANTENNAS || nc < 1 || nc > MAX_ANTENNAS || num_tones > MAX_TONES {
            return Err(CsiError::InvalidDimensions);
        }
        let start: usize = CSI_ST_LEN + 2 + csi_len;
        if start + payload_len > received {
            return Err(CsiError::TruncatedFrame);
        }
        let stream = slice_subrange(self.buf.as_slice(), CSI_ST_LEN + 2, received);
        match unpack_into(&mut self.csi_matrix, stream, nr, nc, num_tones) {
            Ok(_) => {},
            Err(e) => {
                return Err(e);
            },
        }
        let mut i: usize = 0;
        while i < payload_len
            invariant
                i <= payload_len,
                start + payload_len <= received <= FRAME_BUF_LEN,
                self.received == received,
                self.buf@.len() == FRAME_BUF_LEN,
                self.data_buf@.len() == PAYLOAD_BUF_LEN,
                old(self).data_buf@.len() == PAYLOAD_BUF_LEN,
                self.buf == old(self).buf,
                self.csi_status == old(self).csi_status,
                self.endianness == old(self).endianness,
                matrix_wf(self.csi_matrix),
                unpacked(
                    old(self).csi_matrix,
                    self.csi_matrix,
                    old(self).buf@.subrange(CSI_ST_LEN as int + 2, received as int),
                    nr as int,
                    nc as int,
                    num_tones as int,
                ),
                self.data_buf@ == self.buf@.subrange(start as int, start + i) + old(
                    self,
                ).data_buf@.skip(i as int),
            decreases payload_len - i,
        {
            self.data_buf[i] = self.buf[start + i];
            i += 1;
        }
        Ok(())
    }

    /// The decoder's matrix and status as plain data.
    pub fn to_ser(&self) -> (s: SerCSI)
        ensures
            s.csi_status == self.status(),
            s.csi_matrix.len() == self.matrix().len(),
            forall|a: int|
                0 <= a < s.csi_matrix.len() ==> (#[trigger] s.csi_matrix[a]).len()
                    == self.matrix()[a].len(),
            forall|a: int, b: int|
                0 <= a < s.csi_matrix.len() && 0 <= b < s.csi_matrix[a].len() ==> (
                #[trigger] s.csi_matrix[a][b]).len() == self.matrix()[a][b].len(),
            forall|a: int, b: int, c: int|
                0 <= a < s.csi_matrix.len() && 0 <= b < s.csi_matrix[a].len() && 0 <= c
                    < s.csi_matrix[a][b].len() ==> {
                    let x = #[trigger] s.csi_matrix[a][b][c];
                    &&& x.re == self.matrix()[a][b][c].re
                    &&& x.im == self.matrix()[a][b][c].im
                },
    {
        let m = &self.csi_matrix;
        let mut mm: Vec<Vec<Vec<ComplexDef<isize>>>> = Vec::new();
        let mut a: usize = 0;
        while a < m.len()
            invariant
                a <= m.len(),
                mm.len() == a,
                forall|x: int| 0 <= x < a ==> (#[trigger] mm[x]).len() == m[x].len(),
                forall|x: int, y: int|
                    0 <= x < a && 0 <= y < mm[x].len() ==> (#[trigger] mm[x][y]).len()
                        == m[x][y].len(),
                forall|x: int, y: int, z: int|
                    0 <= x < a && 0 <= y < mm[x].len() && 0 <= z < mm[x][y].len() ==> {
                        let v = #[trigger] mm[x][y][z];
                        v.re == m[x][y][z].re && v.im == m[x][y][z].im
                    },
            decreases m.len() - a,
        {
            let row = &m[a];
            let mut out_row: Vec<Vec<ComplexDef<isize>>> = Vec::new();
            let mut b: usize = 0;
            while b < row.len()
                invariant
                    b <= row.len(),
                    out_row.len() == b,
                    forall|y: int| 0 <= y < b ==> (#[trigger] out_row[y]).len() == row[y].len(),
                    forall|y: int, z: int|
                        0 <= y < b && 0 <= z < out_row[y].len() ==> {
                            let v = #[trigger] out_row[y][z];
                            v.re == row[y][z].re && v.im == row[y][z].im
                        },
                decreases row.len() - b,
            {
                let tones = &row[b];
                let mut out_tones: Vec<ComplexDef<isize>> = Vec::new();
                let mut c: usize = 0;
                while c < tones.len()
                    invariant
                        c <= tones.len(),
                        out_tones.len() == c,
                        forall|z: int|
                            0 <= z < c ==> {
                                let v = #[trigger] out_tones[z];
                                v.re == tones[z].re && v.im == tones[z].im
                            },
                    decreases tones.len() - c,
                {
                    out_tones.push(ComplexDef { re: tones[c].re, im: tones[c].im });
                    c += 1;
                }
                out_row.push(out_tones);
                b += 1;
            }
            mm.push(out_row);
            a += 1;
        }
        SerCSI { csi_matrix: mm, csi_status: self.csi_status }
    }
}

} // verus!
