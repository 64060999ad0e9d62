//! Decoder for the channel state information (CSI) frames of a wireless capture
//! device: the status header, the payload, and the matrix of complex channel
//! estimates that the device packs as a stream of 10-bit numbers.

pub mod bits;
pub mod complex;
pub mod csi;
pub mod error;
pub mod header;
pub mod matrix;
pub mod ser;
pub mod stream;

pub use bits::bit_convert;
pub use csi::CSI;
pub use error::CsiError;
pub use header::{
    extract_payload, is_big_endian, parse_header, CSIStruct, Endianness, Kernel_CSI_ST_LEN,
    CSI_ST_LEN,
};
pub use matrix::{new_matrix, unpack_into, unpack_matrix};
pub use stream::BitReader;
