//! The failures that the codec reports, each with the values that were seen.

use vstd::prelude::*;

verus! {

/// Why a header, a window or a stream was refused. No failure is recovered
/// from: the codec value that reported it is gone.
#[derive(Debug, Clone, Copy, Eq, PartialEq)]
pub enum QoiError {
    /// The decoder's window is shorter than 16 bytes or its size is not
    /// divisible by 4. Holds the size.
    BadBufferSize(usize),
    /// The header is not 14 bytes long. Holds its length.
    BadHeaderSize(usize),
    /// The header does not start with "qoif". Holds its first four bytes.
    InvalidMagicBytes(u8, u8, u8, u8),
    /// The width or the height is 0. Holds both.
    InvalidWidthHeight(u32, u32),
    /// The channel count is neither 3 nor 4. Holds it.
    InvalidChannelsValue(u8),
    /// The colorspace is neither 0 nor 1. Holds it.
    InvalidColorspaceValue(u8),
    /// The decoder was fed no byte, or more bytes than its window takes. Holds
    /// the number of bytes and the size of the window.
    BadInputSize(usize, usize),
    /// More than 8 bytes follow the last pixel. Holds their number.
    BadEndMarkerSize(usize),
    /// The 8 bytes that follow the last pixel are not the end marker. Holds
    /// them.
    BadEndMarkerBytes([u8; 8]),
    /// The pixel bytes do not divide into pixels. Holds their number and the
    /// channel count.
    IncorrectInputData(usize, u8),
    /// Width times height is not the number of pixels that were handed in.
    /// Holds width, height and that number.
    InputHeaderMismatch(u32, u32, u64),
    /// The encoder's window is shorter than 5 bytes. Holds its size.
    BufferTooSmall(usize),
}

} // verus!
