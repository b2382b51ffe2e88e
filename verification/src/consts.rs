//! The fixed values of the format.

use vstd::prelude::*;
use crate::pixel::Pixel;

verus! {

/// The four bytes that open every header: "qoif".
pub const MAGIC_BYTES: [u8; 4] = [113, 111, 105, 102];

/// The eight bytes that follow the last chunk of every stream.
pub const END_MARKER: [u8; 8] = [0, 0, 0, 0, 0, 0, 0, 1];

/// The pixel that stands for the one before the first.
pub open spec fn default_pixel() -> Pixel {
    Pixel { red: 0, green: 0, blue: 0, alpha: 255 }
}

/// The pixel that fills the dictionary at the start.
pub open spec fn zero_pixel() -> Pixel {
    Pixel { red: 0, green: 0, blue: 0, alpha: 0 }
}

/// The magic bytes as a sequence.
pub open spec fn magic() -> Seq<u8> {
    seq![113u8, 111u8, 105u8, 102u8]
}

/// The end marker as a sequence.
pub open spec fn end_marker() -> Seq<u8> {
    seq![0u8, 0u8, 0u8, 0u8, 0u8, 0u8, 0u8, 1u8]
}

/// The two constants hold the bytes that the format names.
pub proof fn lemma_constants()
    ensures
        MAGIC_BYTES@ == magic(),
        END_MARKER@ == end_marker(),
{
    assert(MAGIC_BYTES@ =~= magic());
    assert(END_MARKER@ =~= end_marker());
}

} // verus!
