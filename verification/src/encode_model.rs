//! What encoding means: the pixels that a run of input bytes stands for, the
//! chunk that the next pixels are turned into, and the bytes that a run of
//! pixels yields, with a bounded and with an unbounded window for the bytes.

use vstd::prelude::*;
use crate::pixel::Pixel;

verus! {

/// The pixels that `input` holds, tightly packed: four bytes each where
/// `alpha` is set, else three bytes each and an alpha of 255.
pub open spec fn input_pixels(input: Seq<u8>, alpha: bool) -> Seq<Pixel> {
    if alpha {
        Seq::new(
            input.len() / 4,
            |i: int|
                Pixel {
                    red: input[4 * i],
                    green: input[4 * i + 1],
                    blue: input[4 * i + 2],
                    alpha: input[4 * i + 3],
                },
        )
    } else {
        Seq::new(
            input.len() / 3,
            |i: int|
                Pixel {
                    red: input[3 * i],
                    green: input[3 * i + 1],
                    blue: input[3 * i + 2],
                    alpha: 255,
                },
        )
    }
}

/// The number of pixels from `from` on that equal `pixel`, counted up to
/// `limit`.
pub open spec fn repeats(pixel: Pixel, pixels: Seq<Pixel>, from: nat, limit: nat) -> nat
    decreases limit,
{
    if limit == 0 || from >= pixels.len() || pixels[from as int] != pixel {
        0
    } else {
        1 + repeats(pixel, pixels, from + 1, (limit - 1) as nat)
    }
}

/// No more pixels repeat than the limit allows or than there are.
pub proof fn lemma_repeats_bound(pixel: Pixel, pixels: Seq<Pixel>, from: nat, limit: nat)
    requires
        from <= pixels.len(),
    ensures
        repeats(pixel, pixels, from, limit) <= limit,
        from + repeats(pixel, pixels, from, limit) <= pixels.len(),
    decreases limit,
{
    if limit == 0 || from >= pixels.len() || pixels[from as int] != pixel {
    } else {
        lemma_repeats_bound(pixel, pixels, from + 1, (limit - 1) as nat);
    }
}

/// The byte of a run of `length` pixels: the tag 0xC0 with the length less
/// one in the low six bits.
pub open spec fn run_byte(length: nat) -> u8
    recommends
        1 <= length <= 62,
{
    0xc0u8 | ((length - 1) as u8)
}

/// The bytes of one chunk and the number of pixels that it stands for.
pub struct Chunk {
    pub bytes: Seq<u8>,
    pub count: nat,
}

/// What an encoder knows between two chunks.
pub struct EncodeState {
    /// The pixel that came last, or the default pixel.
    pub previous: Pixel,
    /// The 64 slots of the dictionary.
    pub dictionary: Seq<Pixel>,
}

/// The result of encoding: the state reached, the position of the next pixel
/// and the bytes of the chunks.
pub struct Encoded {
    pub state: EncodeState,
    pub position: nat,
    pub bytes: Seq<u8>,
}

impl EncodeState {
    /// The state before the first pixel.
    pub open spec fn initial() -> EncodeState {
        EncodeState {
            previous: crate::consts::default_pixel(),
            dictionary: Seq::new(64, |i: int| crate::consts::zero_pixel()),
        }
    }

    /// The dictionary has its 64 slots.
    pub open spec fn wf(self) -> bool {
        self.dictionary.len() == 64
    }

    /// The state after a chunk that ended with `pixel`: it is the previous
    /// pixel and fills its slot of the dictionary.
    pub open spec fn after(self, pixel: Pixel) -> EncodeState {
        EncodeState {
            previous: pixel,
            dictionary: self.dictionary.update(pixel.hash_index(), pixel),
        }
    }

    /// The chunk for the pixel at `from` and, in a run, those behind it.
    ///
    /// A pixel that equals the previous one opens a run, which takes in the
    /// equal pixels that follow, up to 62 in all. This also holds of the
    /// first pixel of an image, which the dictionary cannot hold yet. Any
    /// other pixel that the dictionary holds in its slot becomes the number
    /// of the slot. Any other pixel with the alpha of the previous one
    /// becomes the one-byte difference where that applies, else the two-byte
    /// difference where that applies, else its three colours in full. A
    /// pixel with another alpha is written in full.
    pub open spec fn next_chunk(self, pixels: Seq<Pixel>, from: nat) -> Chunk
        recommends
            from < pixels.len(),
            self.wf(),
    {
        let pixel = pixels[from as int];
        let slot = pixel.hash_index();
        if pixel == self.previous {
            let count = 1 + repeats(pixel, pixels, from + 1, 61);
            Chunk { bytes: seq![run_byte(count)], count }
        } else if self.dictionary[slot] == pixel {
            Chunk { bytes: seq![slot as u8], count: 1 }
        } else if pixel.alpha == self.previous.alpha {
            match pixel.diff_chunk(self.previous) {
                Some(byte) => Chunk { bytes: seq![byte], count: 1 },
                None => match pixel.luma_chunk(self.previous) {
                    Some((first, second)) => Chunk { bytes: seq![first, second], count: 1 },
                    None => Chunk {
                        bytes: seq![254u8, pixel.red, pixel.green, pixel.blue],
                        count: 1,
                    },
                },
            }
        } else {
            Chunk {
                bytes: seq![255u8, pixel.red, pixel.green, pixel.blue, pixel.alpha],
                count: 1,
            }
        }
    }

    /// Every chunk has one to five bytes and stands for one to 62 pixels,
    /// no more than there are.
    pub proof fn lemma_chunk_count(self, pixels: Seq<Pixel>, from: nat)
        requires
            from < pixels.len(),
        ensures
            1 <= self.next_chunk(pixels, from).count <= 62,
            from + self.next_chunk(pixels, from).count <= pixels.len(),
            1 <= self.next_chunk(pixels, from).bytes.len() <= 5,
    {
        lemma_repeats_bound(pixels[from as int], pixels, from + 1, 61);
    }

    /// Encoding the pixels from `from` on with room for `room` bytes: chunk
    /// follows chunk until the pixels end or the next chunk does not fit.
    pub open spec fn drive(self, pixels: Seq<Pixel>, from: nat, room: nat) -> Encoded
        decreases pixels.len() - from,
    {
        if from >= pixels.len() {
            Encoded { state: self, position: from, bytes: Seq::empty() }
        } else {
            let chunk = self.next_chunk(pixels, from);
            if chunk.bytes.len() > room {
                Encoded { state: self, position: from, bytes: Seq::empty() }
            } else {
                proof {
                    self.lemma_chunk_count(pixels, from);
                }
                let rest = self.after(pixels[from as int]).drive(
                    pixels,
                    from + chunk.count,
                    (room - chunk.bytes.len()) as nat,
                );
                Encoded { bytes: chunk.bytes + rest.bytes, ..rest }
            }
        }
    }

    /// Encoding all pixels from `from` on with room for every byte.
    pub open spec fn encode(self, pixels: Seq<Pixel>, from: nat) -> Encoded
        decreases pixels.len() - from,
    {
        if from >= pixels.len() {
            Encoded { state: self, position: from, bytes: Seq::empty() }
        } else {
            let chunk = self.next_chunk(pixels, from);
            proof {
                self.lemma_chunk_count(pixels, from);
            }
            let rest = self.after(pixels[from as int]).encode(pixels, from + chunk.count);
            Encoded { bytes: chunk.bytes + rest.bytes, ..rest }
        }
    }

    /// The calls that a caller makes on one image: one after the other, each
    /// with an empty window of `room` bytes, until the pixels end. The bytes
    /// of all calls are joined.
    pub open spec fn session(self, pixels: Seq<Pixel>, from: nat, room: nat) -> Encoded
        decreases pixels.len() - from,
    {
        let first = self.drive(pixels, from, room);
        if from < first.position < pixels.len() {
            let others = first.state.session(pixels, first.position, room);
            Encoded { bytes: first.bytes + others.bytes, ..others }
        } else {
            first
        }
    }
}

} // verus!
