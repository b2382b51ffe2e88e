//! The four-channel pixel, its index hash and the two difference encodings.

use vstd::prelude::*;

verus! {

/// A pixel of four 8-bit channels.
#[derive(Clone, Copy, Debug)]
pub struct Pixel {
    pub red: u8,
    pub green: u8,
    pub blue: u8,
    pub alpha: u8,
}

impl Pixel {
    /// The slot of the 64-entry dictionary that this pixel belongs to.
    pub open spec fn hash_index(self) -> int {
        (3 * self.red + 5 * self.green + 7 * self.blue + 11 * self.alpha) % 64
    }

    /// The channels as the four bytes red, green, blue, alpha.
    pub open spec fn bytes(self) -> Seq<u8> {
        seq![self.red, self.green, self.blue, self.alpha]
    }

    /// The red, green and blue differences to `old` modulo 256, each biased
    /// by 2.
    pub open spec fn diff_fields(self, old: Pixel) -> (u8, u8, u8) {
        (
            self.red.wrapping_sub(old.red).wrapping_add(2),
            self.green.wrapping_sub(old.green).wrapping_add(2),
            self.blue.wrapping_sub(old.blue).wrapping_add(2),
        )
    }

    /// The one-byte difference chunk that turns `old` into this pixel, where
    /// each colour channel differs by -2 to 1. Alpha is not looked at.
    pub open spec fn diff_chunk(self, old: Pixel) -> Option<u8> {
        let (red, green, blue) = self.diff_fields(old);
        if red > 3 || green > 3 || blue > 3 {
            None
        } else {
            Some(64u8 | (red << 4) | (green << 2) | blue)
        }
    }

    /// The biased fields of the two-byte difference chunk: red relative to
    /// green (bias 8), green (bias 32), blue relative to green (bias 8).
    pub open spec fn luma_fields(self, old: Pixel) -> (u8, u8, u8) {
        let green_diff = self.green.wrapping_sub(old.green);
        (
            self.red.wrapping_sub(old.red).wrapping_add(8).wrapping_sub(green_diff),
            green_diff.wrapping_add(32),
            self.blue.wrapping_sub(old.blue).wrapping_add(8).wrapping_sub(green_diff),
        )
    }

    /// The two-byte difference chunk that turns `old` into this pixel, where
    /// green differs by -32 to 31 and red and blue differ from green's
    /// difference by -8 to 7. Alpha is not looked at.
    pub open spec fn luma_chunk(self, old: Pixel) -> Option<(u8, u8)> {
        let (red, green, blue) = self.luma_fields(old);
        if red > 15 || green > 63 || blue > 15 {
            None
        } else {
            Some((128u8 | green, (red << 4) | blue))
        }
    }

    pub fn new(red: u8, green: u8, blue: u8, alpha: u8) -> (pixel: Self)
        ensures
            pixel == (Pixel { red, green, blue, alpha }),
    {
        Self { red, green, blue, alpha }
    }

    pub fn calculate_hash_index(self) -> (index: usize)
        ensures
            index == self.hash_index(),
            index < 64,
    {
        (self.red as usize * 3 + self.green as usize * 5 + self.blue as usize * 7
            + self.alpha as usize * 11) % 64
    }

    /// Whether all four channels are equal.
    pub fn is_same(self, other: Self) -> (same: bool)
        ensures
            same == (self == other),
    {
        self.red == other.red && self.green == other.green && self.blue == other.blue
            && self.alpha == other.alpha
    }

    pub fn diff(self, old: Self) -> (chunk: Option<u8>)
        ensures
            chunk == self.diff_chunk(old),
    {
        let red = self.red.wrapping_sub(old.red).wrapping_add(2);
        let green = self.green.wrapping_sub(old.green).wrapping_add(2);
        let blue = self.blue.wrapping_sub(old.blue).wrapping_add(2);
        if red > 3 || green > 3 || blue > 3 {
            return None;
        }
        Some(64 | red << 4 | green << 2 | blue)
    }

    pub fn luma(self, old: Self) -> (chunk: Option<(u8, u8)>)
        ensures
            chunk == self.luma_chunk(old),
    {
        let red_diff = self.red.wrapping_sub(old.red);
        let green_diff = self.green.wrapping_sub(old.green);
        let blue_diff = self.blue.wrapping_sub(old.blue);
        let red = red_diff.wrapping_add(8).wrapping_sub(green_diff);
        let green = green_diff.wrapping_add(32);
        let blue = blue_diff.wrapping_add(8).wrapping_sub(green_diff);
        if red > 15 || green > 63 || blue > 15 {
            return None;
        }
        Some((128 | green, red << 4 | blue))
    }

    /// Writes the four channels into `output` from `index` on and returns the
    /// array with the index behind them.
    pub fn to_output<const N: usize>(self, output: [u8; N], index: usize) -> (written: (
        [u8; N],
        usize,
    ))
        requires
            index + 4 <= N,
        ensures
            written.1 == index + 4,
            written.0@ == output@.update(index as int, self.red).update(
                index + 1,
                self.green,
            ).update(index + 2, self.blue).update(index + 3, self.alpha),
    {
        let mut output = output;
        output[index] = self.red;
        output[index + 1] = self.green;
        output[index + 2] = self.blue;
        output[index + 3] = self.alpha;
        (output, index + 4)
    }

    /// Writes the chunk that carries red, green and blue in full (tag 254)
    /// into `output` from `index` on and returns the array with the index
    /// behind the chunk.
    pub fn rgb_to_output<const N: usize>(self, output: [u8; N], index: usize) -> (written: (
        [u8; N],
        usize,
    ))
        requires
            index + 4 <= N,
        ensures
            written.1 == index + 4,
            written.0@ == output@.update(index as int, 254u8).update(index + 1, self.red).update(
                index + 2,
                self.green,
            ).update(index + 3, self.blue),
    {
        let mut output = output;
        output[index] = 254;
        output[index + 1] = self.red;
        output[index + 2] = self.green;
        output[index + 3] = self.blue;
        (output, index + 4)
    }

    /// Writes the chunk that carries all four channels in full (tag 255) into
    /// `output` from `index` on and returns the array with the index behind
    /// the chunk.
    pub fn rgba_to_output<const N: usize>(self, output: [u8; N], index: usize) -> (written: (
        [u8; N],
        usize,
    ))
        requires
            index + 5 <= N,
        ensures
            written.1 == index + 5,
            written.0@ == output@.update(index as int, 255u8).update(index + 1, self.red).update(
                index + 2,
                self.green,
            ).update(index + 3, self.blue).update(index + 4, self.alpha),
    {
        let mut output = output;
        output[index] = 255;
        output[index + 1] = self.red;
        output[index + 2] = self.green;
        output[index + 3] = self.blue;
        output[index + 4] = self.alpha;
        (output, index + 5)
    }
}

} // verus!
