use vstd::prelude::*;
use vstd::slice::{slice_subrange, slice_to_vec};

use crate::error::CsiError;
use crate::stream::le_int;

verus! {

/// Length in bytes of the fixed status header at the start of every frame.
pub const CSI_ST_LEN: usize = 23;

/// Length in bytes of the status header as the kernel driver lays it out.
#[allow(non_upper_case_globals)]
pub const Kernel_CSI_ST_LEN: usize = 23;

/// The byte order in which the capturing hardware wrote the multi-byte header fields.
#[derive(Clone, Copy, Debug, PartialEq, Eq, Structural)]
pub enum Endianness {
    /// The first byte of a field is its most significant.
    Big,
    /// The first byte of a field is its least significant.
    Little,
}

/// The status header of one frame.
#[allow(non_snake_case)]
#[derive(Clone, Copy, Debug, PartialEq, Eq, Structural)]
pub struct CSIStruct {
    /// Hardware-assigned time stamp.
    pub tstamp: u64,
    /// Wireless channel, as its center frequency.
    pub channel: u16,
    /// Channel bandwidth (0 for 20 MHz, 1 for 40 MHz).
    pub chanBW: u8,
    /// Transmission rate.
    pub rate: u8,
    /// Number of receiving antennas.
    pub nr: u8,
    /// Number of transmitting antennas.
    pub nc: u8,
    /// Number of tones (subcarriers).
    pub num_tones: u8,
    /// Noise floor.
    pub noise: u8,
    /// PHY error code, 0 if the frame is correct.
    pub phyerr: u8,
    /// Received signal strength of the frame.
    pub rssi: u8,
    /// Received signal strength on chain 0.
    pub rssi_0: u8,
    /// Received signal strength on chain 1.
    pub rssi_1: u8,
    /// Received signal strength on chain 2.
    pub rssi_2: u8,
    /// Length of the payload in bytes.
    pub payload_len: u16,
    /// Length of the packed matrix in bytes.
    pub csi_len: u16,
    /// Length of the data in the buffer.
    pub buf_len: u16,
}

impl CSIStruct {
    /// The header with every field zero.
    pub open spec fn zero() -> Self {
        CSIStruct {
            tstamp: 0,
            channel: 0,
            chanBW: 0,
            rate: 0,
            nr: 0,
            nc: 0,
            num_tones: 0,
            noise: 0,
            phyerr: 0,
            rssi: 0,
            rssi_0: 0,
            rssi_1: 0,
            rssi_2: 0,
            payload_len: 0,
            csi_len: 0,
            buf_len: 0,
        }
    }

    /// A header with every field zero.
    pub fn new() -> (h: Self)
        ensures
            h == Self::zero(),
    {
        Self {
            tstamp: 0,
            channel: 0,
            chanBW: 0,
            rate: 0,
            nr: 0,
            nc: 0,
            num_tones: 0,
            noise: 0,
            phyerr: 0,
            rssi: 0,
            rssi_0: 0,
            rssi_1: 0,
            rssi_2: 0,
            payload_len: 0,
            csi_len: 0,
            buf_len: 0,
        }
    }
}

/// The byte order that is not `mode`.
pub open spec fn opposite_of(mode: Endianness) -> Endianness {
    match mode {
        Endianness::Big => Endianness::Little,
        Endianness::Little => Endianness::Big,
    }
}

/// The number that the bytes `s` of a field spell in the given byte order.
pub open spec fn word_in(s: Seq<u8>, mode: Endianness) -> nat {
    match mode {
        Endianness::Little => le_int(s),
        Endianness::Big => le_int(s.reverse()),
    }
}

/// `h` is the header that `frame` holds when its fields are read in byte order `mode`.
///
/// The time stamp, the matrix length and the channel open the frame; eleven
/// single-byte fields follow, from byte 12 on; the payload length comes right after
/// the header, and the buffer length is the last two bytes of the frame. The
/// two-byte fields are in byte order `mode`. The time stamp is laid out the other
/// way round: its first byte is the least significant in big-endian mode and the
/// most significant in little-endian mode.
pub open spec fn is_header_of(h: CSIStruct, frame: Seq<u8>, mode: Endianness) -> bool {
    &&& h.tstamp == word_in(frame.subrange(0, 8), opposite_of(mode))
    &&& h.csi_len == word_in(frame.subrange(8, 10), mode)
    &&& h.channel == word_in(frame.subrange(10, 12), mode)
    &&& h.phyerr == frame[12]
    &&& h.noise == frame[13]
    &&& h.rate == frame[14]
    &&& h.chanBW == frame[15]
    &&& h.num_tones == frame[16]
    &&& h.nr == frame[17]
    &&& h.nc == frame[18]
    &&& h.rssi == frame[19]
    &&& h.rssi_0 == frame[20]
    &&& h.rssi_1 == frame[21]
    &&& h.rssi_2 == frame[22]
    &&& h.payload_len == word_in(
        frame.subrange(CSI_ST_LEN as int, CSI_ST_LEN as int + 2),
        mode,
    )
    &&& h.buf_len == word_in(frame.subrange(frame.len() - 2, frame.len() as int), mode)
}

proof fn lemma_le_int_step(s: Seq<u8>, k: int)
    requires
        0 <= k < s.len(),
    ensures
        le_int(s.skip(k)) == s[k] + 256 * le_int(s.skip(k + 1)),
{
    assert(s.skip(k).drop_first() =~= s.skip(k + 1));
}

/// Two bytes spell their little-endian 16-bit word.
pub proof fn lemma_le_int_2(s: Seq<u8>)
    requires
        s.len() == 2,
    ensures
        le_int(s) == s[0] + 256 * s[1],
{
    lemma_le_int_step(s, 0);
    lemma_le_int_step(s, 1);
}

/// Eight bytes spell their little-endian 64-bit word.
pub proof fn lemma_le_int_8(s: Seq<u8>)
    requires
        s.len() == 8,
    ensures
        le_int(s) == s[0] + 256 * (s[1] + 256 * (s[2] + 256 * (s[3] + 256 * (s[4] + 256 * (s[5]
            + 256 * (s[6] + 256 * s[7])))))),
{
    lemma_le_int_step(s, 0);
    lemma_le_int_step(s, 1);
    lemma_le_int_step(s, 2);
    lemma_le_int_step(s, 3);
    lemma_le_int_step(s, 4);
    lemma_le_int_step(s, 5);
    lemma_le_int_step(s, 6);
    lemma_le_int_step(s, 7);
}

proof fn lemma_join_2(lo: u8, hi: u8)
    by (bit_vector)
    ensures
        (((hi as u16) << 8u16) | (lo as u16)) == (lo as u16) + 256 * (hi as u16),
{
}

proof fn lemma_join_8(b0: u8, b1: u8, b2: u8, b3: u8, b4: u8, b5: u8, b6: u8, b7: u8)
    by (bit_vector)
    ensures
        (((b7 as u64) << 56u64) | ((b6 as u64) << 48u64) | ((b5 as u64) << 40u64) | ((b4 as u64)
            << 32u64) | ((b3 as u64) << 24u64) | ((b2 as u64) << 16u64) | ((b1 as u64) << 8u64)
            | (b0 as u64)) == (b0 as u64) + 256 * ((b1 as u64) + 256 * ((b2 as u64) + 256 * ((b3 as u64)
            + 256 * ((b4 as u64) + 256 * ((b5 as u64) + 256 * ((b6 as u64) + 256 * (b7 as u64))))))),
{
}

/// Reads the two bytes at `at` as a number in byte order `mode`.
fn read_u16(frame: &[u8], at: usize, mode: Endianness) -> (x: u16)
    requires
        at + 2 <= frame@.len(),
    ensures
        x == word_in(frame@.subrange(at as int, at + 2), mode),
{
    let first = frame[at];
    let second = frame[at + 1];
    let ghost s = frame@.subrange(at as int, at + 2);
    match mode {
        Endianness::Big => {
            proof {
                lemma_le_int_2(s.reverse());
                lemma_join_2(second, first);
            }
            ((first as u16) << 8u16) | (second as u16)
        },
        Endianness::Little => {
            proof {
                lemma_le_int_2(s);
                lemma_join_2(first, second);
            }
            ((second as u16) << 8u16) | (first as u16)
        },
    }
}

/// Reads the eight bytes at `at` as a number in byte order `mode`.
fn read_u64(frame: &[u8], at: usize, mode: Endianness) -> (x: u64)
    requires
        at + 8 <= frame@.len(),
    ensures
        x == word_in(frame@.subrange(at as int, at + 8), mode),
{
    let b0 = frame[at];
    let b1 = frame[at + 1];
    let b2 = frame[at + 2];
    let b3 = frame[at + 3];
    let b4 = frame[at + 4];
    let b5 = frame[at + 5];
    let b6 = frame[at + 6];
    let b7 = frame[at + 7];
    let ghost s = frame@.subrange(at as int, at + 8);
    match mode {
        Endianness::Big => {
            proof {
                lemma_le_int_8(s.reverse());
                lemma_join_8(b7, b6, b5, b4, b3, b2, b1, b0);
            }
            ((b0 as u64) << 56u64) | ((b1 as u64) << 48u64) | ((b2 as u64) << 40u64) | ((b3 as u64)
                << 32u64) | ((b4 as u64) << 24u64) | ((b5 as u64) << 16u64) | ((b6 as u64) << 8u64)
                | (b7 as u64)
        },
        Endianness::Little => {
            proof {
                lemma_le_int_8(s);
                lemma_join_8(b0, b1, b2, b3, b4, b5, b6, b7);
            }
            ((b7 as u64) << 56u64) | ((b6 as u64) << 48u64) | ((b5 as u64) << 40u64) | ((b4 as u64)
                << 32u64) | ((b3 as u64) << 24u64) | ((b2 as u64) << 16u64) | ((b1 as u64) << 8u64)
                | (b0 as u64)
        },
    }
}

/// Reads the status header of `frame`, whose two-byte fields are in byte order
/// `mode` and whose time stamp is in the opposite order.
///
/// The whole of `frame` is taken as received: its last two bytes are the buffer
/// length. A frame of fewer than 25 bytes, which cannot hold the header and the
/// payload length, is refused.
pub fn parse_header(frame: &[u8], mode: Endianness) -> (r: Result<CSIStruct, CsiError>)
    ensures
        match r {
            Ok(h) => frame@.len() >= CSI_ST_LEN + 2 && is_header_of(h, frame@, mode),
            Err(e) => e == CsiError::TruncatedFrame && frame@.len() < CSI_ST_LEN + 2,
        },
{
    let cnt = frame.len();
    if cnt < CSI_ST_LEN + 2 {
        return Err(CsiError::TruncatedFrame);
    }
    Ok(
        CSIStruct {
            tstamp: read_u64(frame, 0, mode.opposite()),
            csi_len: read_u16(frame, 8, mode),
            channel: read_u16(frame, 10, mode),
            buf_len: read_u16(frame, cnt - 2, mode),
            payload_len: read_u16(frame, CSI_ST_LEN, mode),
            phyerr: frame[12],
            noise: frame[13],
            rate: frame[14],
            chanBW: frame[15],
            num_tones: frame[16],
            nr: frame[17],
            nc: frame[18],
            rssi: frame[19],
            rssi_0: frame[20],
            rssi_1: frame[21],
            rssi_2: frame[22],
        },
    )
}

/// The index in a frame of the first byte of the payload: the header, the two bytes of
/// the payload length and the packed matrix come before it.
pub open spec fn payload_start(h: CSIStruct) -> int {
    CSI_ST_LEN + 2 + h.csi_len
}

/// Copies the payload that `status` locates out of `frame`.
///
/// A frame that ends before the payload does is refused.
pub fn extract_payload(frame: &[u8], status: &CSIStruct) -> (r: Result<Vec<u8>, CsiError>)
    ensures
        match r {
            Ok(p) => {
                &&& payload_start(*status) + status.payload_len <= frame@.len()
                &&& p@ == frame@.subrange(
                    payload_start(*status),
                    payload_start(*status) + status.payload_len,
                )
            },
            Err(e) => {
                &&& e == CsiError::TruncatedFrame
                &&& frame@.len() < payload_start(*status) + status.payload_len
            },
        },
{
    let start: usize = CSI_ST_LEN + 2 + status.csi_len as usize;
    let end: usize = start + status.payload_len as usize;
    if frame.len() < end {
        return Err(CsiError::TruncatedFrame);
    }
    Ok(slice_to_vec(slice_subrange(frame, start, end)))
}

/// `u16::to_ne_bytes`: the two bytes of `x` in the byte order of the machine, which
/// is one of the two orders.
#[verifier::external_body]
fn native_bytes(x: u16) -> (b: [u8; 2])
    ensures
        (b[0] == x % 256 && b[1] == x / 256) || (b[0] == x / 256 && b[1] == x % 256),
{
    x.to_ne_bytes()
}

impl Endianness {
    /// The byte order of a machine that stores the number 1 in two bytes as `one`:
    /// big-endian where the first byte is the high one, which is zero.
    pub fn of_layout(one: [u8; 2]) -> (mode: Self)
        ensures
            mode == if one[0] == 0 {
                Endianness::Big
            } else {
                Endianness::Little
            },
    {
        if one[0] == 0 {
            Endianness::Big
        } else {
            Endianness::Little
        }
    }

    /// The byte order of the machine that runs this.
    pub fn native() -> (mode: Self) {
        Self::of_layout(native_bytes(1))
    }

    /// The other byte order.
    pub fn opposite(self) -> (mode: Self)
        ensures
            mode == opposite_of(self),
    {
        match self {
            Endianness::Big => Endianness::Little,
            Endianness::Little => Endianness::Big,
        }
    }

    /// Whether this is the order that puts the most significant byte first.
    pub fn is_big(self) -> (r: bool)
        ensures
            r == (self == Endianness::Big),
    {
        match self {
            Endianness::Big => true,
            Endianness::Little => false,
        }
    }
}

/// Whether the machine that runs this stores the most significant byte of a number
/// first.
pub fn is_big_endian() -> (r: bool) {
    Endianness::native().is_big()
}

/// A field written in one byte order reads as the same number when its bytes are
/// reversed and it is read in the other order.
pub proof fn lemma_word_in_reversed(s: Seq<u8>, mode: Endianness)
    ensures
        word_in(s.reverse(), mode) == word_in(s, opposite_of(mode)),
{
    assert(s.reverse().reverse() =~= s);
}

/// A frame read as big-endian and the frame whose time stamp, matrix length and
/// channel have their bytes reversed, read as little-endian, give the same time
/// stamp, matrix length and channel.
pub proof fn lemma_endianness_round_trip(
    big: Seq<u8>,
    little: Seq<u8>,
    h_big: CSIStruct,
    h_little: CSIStruct,
)
    requires
        big.len() >= CSI_ST_LEN + 2,
        little.len() >= CSI_ST_LEN + 2,
        is_header_of(h_big, big, Endianness::Big),
        is_header_of(h_little, little, Endianness::Little),
        little.subrange(0, 8) == big.subrange(0, 8).reverse(),
        little.subrange(8, 10) == big.subrange(8, 10).reverse(),
        little.subrange(10, 12) == big.subrange(10, 12).reverse(),
    ensures
        h_big.tstamp == h_little.tstamp,
        h_big.csi_len == h_little.csi_len,
        h_big.channel == h_little.channel,
{
    lemma_word_in_reversed(big.subrange(0, 8), Endianness::Big);
}

} // verus!
