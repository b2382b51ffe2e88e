//! What decoding means: the state that a decoder carries from byte to byte,
//! the effect of one byte on it, and the pixels that a run of bytes yields,
//! with a bounded and with an unbounded window for the pixels.

use vstd::prelude::*;
use crate::consts::end_marker;
use crate::pixel::Pixel;

verus! {

/// The number of bytes of the chunk that starts with `tag`.
pub open spec fn chunk_size(tag: u8) -> nat {
    if tag == 255 {
        5
    } else if tag == 254 {
        4
    } else if 128 <= tag <= 191 {
        2
    } else {
        1
    }
}

/// Whether `tag` opens a run of the previous pixel. The two highest values of
/// that range are the tags of the chunks that carry channels in full.
pub open spec fn is_run(tag: u8) -> bool {
    192 <= tag <= 253
}

/// The length of the run that `tag` opens: its low six bits and one.
pub open spec fn run_length(tag: u8) -> nat {
    ((tag & 0x3f) + 1) as nat
}

/// The pixel that the two-byte difference chunk `tag`, `body` makes of
/// `previous`.
pub open spec fn luma_pixel(previous: Pixel, tag: u8, body: u8) -> Pixel {
    let green_diff = (tag & 0x3f).wrapping_sub(32);
    let from_green = green_diff.wrapping_sub(8);
    Pixel {
        red: previous.red.wrapping_add(from_green.wrapping_add((body >> 4) & 0x0f)),
        green: previous.green.wrapping_add(green_diff),
        blue: previous.blue.wrapping_add(from_green.wrapping_add(body & 0x0f)),
        alpha: previous.alpha,
    }
}

/// The pixel that the one-byte difference chunk `tag` makes of `previous`.
pub open spec fn diff_pixel(previous: Pixel, tag: u8) -> Pixel {
    Pixel {
        red: previous.red.wrapping_add((tag >> 4) & 0x03).wrapping_sub(2),
        green: previous.green.wrapping_add((tag >> 2) & 0x03).wrapping_sub(2),
        blue: previous.blue.wrapping_add(tag & 0x03).wrapping_sub(2),
        alpha: previous.alpha,
    }
}

/// The pixel that a whole chunk other than a run stands for.
pub open spec fn chunk_pixel(previous: Pixel, dictionary: Seq<Pixel>, chunk: Seq<u8>) -> Pixel
    recommends
        chunk.len() > 0,
        chunk.len() == chunk_size(chunk[0]),
        !is_run(chunk[0]),
        dictionary.len() == 64,
{
    let tag = chunk[0];
    if tag == 255 {
        Pixel { red: chunk[1], green: chunk[2], blue: chunk[3], alpha: chunk[4] }
    } else if tag == 254 {
        Pixel { red: chunk[1], green: chunk[2], blue: chunk[3], alpha: previous.alpha }
    } else if tag >= 128 {
        luma_pixel(previous, tag, chunk[1])
    } else if tag >= 64 {
        diff_pixel(previous, tag)
    } else {
        dictionary[tag as int]
    }
}

/// The bytes of `pixels`, four for each.
pub open spec fn pixel_bytes(pixels: Seq<Pixel>) -> Seq<u8> {
    Seq::new(4 * pixels.len(), |i: int| pixels[i / 4].bytes()[i % 4])
}

/// What a decoder knows between two bytes of the stream.
pub struct DecodeState {
    /// The pixel that came last, or the default pixel.
    pub previous: Pixel,
    /// The 64 slots of the dictionary.
    pub dictionary: Seq<Pixel>,
    /// The number of pixels that are still to come.
    pub remaining: nat,
    /// The number of pixels of an opened run that are still to come.
    pub run: nat,
    /// The bytes of a chunk that has begun and not ended.
    pub partial: Seq<u8>,
    /// The bytes that came after the last pixel.
    pub tail: Seq<u8>,
}

/// A state together with the pixels that were decoded on the way to it.
pub struct Decoded {
    pub state: DecodeState,
    pub pixels: Seq<Pixel>,
}

/// How a call of the decoder ends.
pub enum Progress {
    /// All input was taken; the decoder waits for more in this state.
    AwaitInput(DecodeState),
    /// The window for the pixels was full; the decoder goes on from this
    /// state with this input still unread.
    ContinueProcessing(DecodeState, Seq<u8>),
    /// The last pixel was followed by the end marker.
    Finished,
    /// The last pixel was followed by this many bytes, more than the end
    /// marker has.
    BadEndMarkerSize(nat),
    /// The last pixel was followed by these eight bytes, which are not the
    /// end marker.
    BadEndMarkerBytes(Seq<u8>),
}

/// The end of a call together with the pixels decoded in it.
pub struct Step {
    pub progress: Progress,
    pub pixels: Seq<Pixel>,
}

/// The result of decoding into a bounded window: the state reached, the
/// number of bytes taken from the input and the pixels decoded.
pub struct Drive {
    pub state: DecodeState,
    pub consumed: nat,
    pub pixels: Seq<Pixel>,
}

impl DecodeState {
    /// The state before the first byte of an image of `pixel_count` pixels.
    pub open spec fn initial(pixel_count: nat) -> DecodeState {
        DecodeState {
            previous: crate::consts::default_pixel(),
            dictionary: Seq::new(64, |i: int| crate::consts::zero_pixel()),
            remaining: pixel_count,
            run: 0,
            partial: Seq::empty(),
            tail: Seq::empty(),
        }
    }

    /// The dictionary has its 64 slots; a begun chunk is one of several bytes
    /// and lacks at least one; a run is open only while pixels are still to
    /// come and no chunk has begun; after the last pixel nothing is left
    /// open, and only then there is a tail.
    pub open spec fn wf(self) -> bool {
        &&& self.dictionary.len() == 64
        &&& self.run <= 62
        &&& self.partial.len() > 0 ==> self.partial.len() < chunk_size(self.partial[0])
        &&& self.run > 0 ==> self.partial.len() == 0
        &&& self.remaining == 0 ==> self.run == 0 && self.partial.len() == 0
        &&& self.tail.len() > 0 ==> self.remaining == 0
    }

    /// The state after `pixel` was decoded from a chunk: it is the previous
    /// pixel and fills its slot of the dictionary.
    pub open spec fn emitted(self, pixel: Pixel) -> DecodeState {
        DecodeState {
            previous: pixel,
            dictionary: self.dictionary.update(pixel.hash_index(), pixel),
            remaining: (self.remaining - 1) as nat,
            run: 0,
            partial: Seq::empty(),
            tail: self.tail,
        }
    }

    /// The state after one byte, and the pixel that it completed, if any.
    /// After the last pixel the byte joins the tail. Before that it joins
    /// the chunk that has begun. A chunk that is whole opens a run or yields
    /// its pixel.
    pub open spec fn absorb(self, byte: u8) -> Decoded
        recommends
            self.run == 0,
    {
        let chunk = self.partial.push(byte);
        if self.remaining == 0 {
            Decoded {
                state: DecodeState { tail: self.tail.push(byte), ..self },
                pixels: Seq::empty(),
            }
        } else if chunk.len() < chunk_size(chunk[0]) {
            Decoded { state: DecodeState { partial: chunk, ..self }, pixels: Seq::empty() }
        } else if is_run(chunk[0]) {
            Decoded {
                state: DecodeState { run: run_length(chunk[0]), partial: Seq::empty(), ..self },
                pixels: Seq::empty(),
            }
        } else {
            let pixel = chunk_pixel(self.previous, self.dictionary, chunk);
            Decoded { state: self.emitted(pixel), pixels: seq![pixel] }
        }
    }

    /// The state after one pixel of the open run: the previous pixel once
    /// more, which also fills its slot of the dictionary. A run ends with the
    /// image, however long it was meant to be.
    pub open spec fn run_step(self) -> DecodeState
        recommends
            self.run > 0,
            self.remaining > 0,
    {
        DecodeState {
            dictionary: self.dictionary.update(self.previous.hash_index(), self.previous),
            remaining: (self.remaining - 1) as nat,
            run: if self.remaining == 1 {
                0
            } else {
                (self.run - 1) as nat
            },
            ..self
        }
    }

    /// Decoding `input` with room for `room` pixels: it goes on while pixels
    /// are to come, there is room, and a run is open or input is left.
    pub open spec fn drive(self, input: Seq<u8>, room: nat) -> Drive
        decreases input.len(), self.run,
    {
        if self.remaining == 0 || room == 0 {
            Drive { state: self, consumed: 0, pixels: Seq::empty() }
        } else if self.run > 0 {
            let rest = self.run_step().drive(input, (room - 1) as nat);
            Drive { pixels: seq![self.previous] + rest.pixels, ..rest }
        } else if input.len() == 0 {
            Drive { state: self, consumed: 0, pixels: Seq::empty() }
        } else {
            let first = self.absorb(input[0]);
            let rest = first.state.drive(input.drop_first(), (room - first.pixels.len()) as nat);
            Drive {
                state: rest.state,
                consumed: rest.consumed + 1,
                pixels: first.pixels + rest.pixels,
            }
        }
    }

    /// Decoding all of `input` with room for every pixel: an open run is
    /// expanded, then each byte is absorbed in turn.
    pub open spec fn decode(self, input: Seq<u8>) -> Decoded
        decreases input.len(), self.run,
    {
        if self.run > 0 && self.remaining > 0 {
            let rest = self.run_step().decode(input);
            Decoded { pixels: seq![self.previous] + rest.pixels, ..rest }
        } else if input.len() == 0 {
            Decoded { state: self, pixels: Seq::empty() }
        } else {
            let first = self.absorb(input[0]);
            let rest = first.state.decode(input.drop_first());
            Decoded { state: rest.state, pixels: first.pixels + rest.pixels }
        }
    }

    /// How a call ends that has taken all its input and reached this state.
    /// While pixels are to come the decoder waits. After the last pixel the
    /// tail decides: with fewer than eight bytes the decoder waits for the
    /// rest, with eight they are the end marker or not, and more are too
    /// many.
    pub open spec fn verdict(self) -> Progress {
        if self.remaining > 0 || self.tail.len() < 8 {
            Progress::AwaitInput(self)
        } else if self.tail.len() > 8 {
            Progress::BadEndMarkerSize(self.tail.len())
        } else if self.tail == end_marker() {
            Progress::Finished
        } else {
            Progress::BadEndMarkerBytes(self.tail)
        }
    }

    /// One call of the decoder with `input` unread and room for `room`
    /// pixels. After the last pixel the rest of the input is the tail, or
    /// joins it. Before that the call ends for want of input, or else for
    /// want of room.
    pub open spec fn step(self, input: Seq<u8>, room: nat) -> Step {
        let driven = self.drive(input, room);
        let rest = input.skip(driven.consumed as int);
        let state = driven.state;
        let progress = if state.remaining == 0 {
            (DecodeState { tail: state.tail + rest, ..state }).verdict()
        } else if rest.len() == 0 && state.run == 0 {
            Progress::AwaitInput(state)
        } else {
            Progress::ContinueProcessing(state, rest)
        };
        Step { progress, pixels: driven.pixels }
    }

    /// The calls that a caller makes on one input: the first, and one more
    /// for as long as the decoder asks to go on. The pixels of all calls are
    /// joined.
    pub open spec fn session(self, input: Seq<u8>, room: nat) -> Step
        decreases self.remaining,
    {
        let first = self.step(input, room);
        match first.progress {
            Progress::ContinueProcessing(state, rest) => {
                if state.remaining < self.remaining {
                    let others = state.session(rest, room);
                    Step { progress: others.progress, pixels: first.pixels + others.pixels }
                } else {
                    first
                }
            },
            _ => first,
        }
    }

    /// Feeding `input` one byte at a time: each byte gets the calls that a
    /// caller makes on one input, and the next byte follows for as long as
    /// the decoder waits for input. The pixels of all calls are joined.
    pub open spec fn feed_bytewise(self, input: Seq<u8>, room: nat) -> Step
        decreases input.len(),
    {
        if input.len() == 0 {
            Step { progress: Progress::AwaitInput(self), pixels: Seq::empty() }
        } else {
            let first = self.session(seq![input[0]], room);
            match first.progress {
                Progress::AwaitInput(state) => {
                    let others = state.feed_bytewise(input.drop_first(), room);
                    Step { progress: others.progress, pixels: first.pixels + others.pixels }
                },
                _ => first,
            }
        }
    }
}

} // verus!
