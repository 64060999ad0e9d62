use vstd::prelude::*;

verus! {

/// Why a frame was rejected.
#[derive(Clone, Copy, Debug, PartialEq, Eq, Structural)]
pub enum CsiError {
    /// The buffer ends before the bytes that a field or a sample needs.
    TruncatedFrame,
    /// The number of receive or transmit antennas, or of tones, is outside what the
    /// matrix can hold.
    InvalidDimensions,
    /// More bits were asked of the bit accumulator than it can hold or give.
    MisalignedStream,
}

} // verus!
