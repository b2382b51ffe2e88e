//! The streaming encoder: it reads RGB or RGBA pixel bytes from a cursor on,
//! hands out chunks through an output window, and picks up where it stopped
//! when the window could not take the next chunk.

use vstd::prelude::*;
use crate::encode_model::{input_pixels, repeats, run_byte, EncodeState};
use crate::error::QoiError;
use crate::header::{HeaderFields, QoiHeader, QoiHeaderInternal};
use crate::pixel::Pixel;

verus! {

/// How a call of the encoder ended. Each variant holds the output window and
/// the number of bytes at its end that are free.
pub enum QoiEncoderProgress<const N: usize> {
    /// Pixels are left. The encoder is ready to go on.
    Unfinished(QoiEncoder, [u8; N], usize),
    /// The last pixel has been encoded. The end marker is the caller's to
    /// add.
    Finished([u8; N], usize),
}

/// An encoder for one image.
pub struct QoiEncoder {
    state: QoiEncoderInternal,
}

/// What an encoder holds between two calls.
pub struct QoiEncoderInternal {
    byte_index: usize,
    seen_pixels: [Pixel; 64],
    previous_pixel: Pixel,
    pixel_amount: u64,
    alpha: bool,
    output_buffer_space: usize,
}

impl QoiEncoderInternal {
    /// The state of encoding that the fields stand for.
    pub closed spec fn state(self) -> EncodeState {
        EncodeState { previous: self.previous_pixel, dictionary: self.seen_pixels@ }
    }

    /// Whether the input holds four bytes for each pixel, not three.
    pub closed spec fn has_alpha(self) -> bool {
        self.alpha
    }

    /// The position of the next pixel in the input.
    pub closed spec fn position(self) -> nat {
        if self.alpha {
            (self.byte_index / 4) as nat
        } else {
            (self.byte_index / 3) as nat
        }
    }

    /// The number of pixels that are still to be encoded.
    pub closed spec fn remaining(self) -> nat {
        self.pixel_amount as nat
    }

    /// The length of the input that the encoder works on.
    pub closed spec fn input_len(self) -> nat {
        if self.alpha {
            (self.byte_index + 4 * self.pixel_amount) as nat
        } else {
            (self.byte_index + 3 * self.pixel_amount) as nat
        }
    }

    /// The cursor stands at the start of a pixel and the input is no longer
    /// than a slice can be.
    pub closed spec fn wf(self) -> bool {
        &&& self.input_len() <= usize::MAX
        &&& if self.alpha {
            self.byte_index % 4 == 0
        } else {
            self.byte_index % 3 == 0
        }
    }

    /// The cursor stands behind a pixel that has been read and not counted
    /// yet.
    spec fn reading(self, input: Seq<u8>) -> bool {
        &&& self.pixel_amount > 0
        &&& if self.alpha {
            self.byte_index % 4 == 0 && self.byte_index >= 4 && self.byte_index + 4 * (
            self.pixel_amount - 1) == input.len()
        } else {
            self.byte_index % 3 == 0 && self.byte_index >= 3 && self.byte_index + 3 * (
            self.pixel_amount - 1) == input.len()
        }
    }

    /// The encoder before the first pixel of `pixel_amount` pixels.
    fn new(pixel_amount: u64, alpha: bool) -> (encoder: Self)
        ensures
            encoder.byte_index == 0,
            encoder.state() == EncodeState::initial(),
            encoder.pixel_amount == pixel_amount,
            encoder.alpha == alpha,
            encoder.output_buffer_space == 0,
    {
        let encoder = Self {
            byte_index: 0,
            seen_pixels: [Pixel::new(0, 0, 0, 0);64],
            previous_pixel: Pixel::new(0, 0, 0, 255),
            pixel_amount,
            alpha,
            output_buffer_space: 0,
        };
        assert(encoder.state().dictionary =~= EncodeState::initial().dictionary);
        encoder
    }

    /// Whether the cursor stands before the end of `input`.
    fn is_byte_index_safe(&self, input: &[u8]) -> (safe: bool)
        ensures
            safe == (self.byte_index < input@.len()),
    {
        self.byte_index < input.len()
    }

    /// Reads the pixel under the cursor and moves the cursor behind it.
    fn advance_input_pixel(self, input: &[u8]) -> (read: (Self, Pixel))
        requires
            self.alpha ==> self.byte_index % 4 == 0 && self.byte_index + 4 <= input@.len(),
            !self.alpha ==> self.byte_index % 3 == 0 && self.byte_index + 3 <= input@.len(),
        ensures
            read.0.byte_index == self.byte_index + if self.alpha {
                4int
            } else {
                3int
            },
            read.0.seen_pixels == self.seen_pixels,
            read.0.previous_pixel == self.previous_pixel,
            read.0.pixel_amount == self.pixel_amount,
            read.0.alpha == self.alpha,
            read.0.output_buffer_space == self.output_buffer_space,
            read.0.position() == self.position() + 1,
            self.position() < input_pixels(input@, self.alpha).len(),
            read.1 == input_pixels(input@, self.alpha)[self.position() as int],
    {
        let mut encoder = self;
        let red = input[encoder.byte_index];
        let green = input[encoder.byte_index + 1];
        let blue = input[encoder.byte_index + 2];
        encoder.byte_index += 3;
        let mut alpha: u8 = 255;
        if encoder.alpha {
            alpha = input[encoder.byte_index];
            encoder.byte_index += 1;
        }
        (encoder, Pixel::new(red, green, blue, alpha))
    }

    /// Moves the cursor back to the start of the pixel that was read last.
    fn rewind_input_index(self) -> (encoder: Self)
        requires
            self.alpha ==> self.byte_index >= 4,
            !self.alpha ==> self.byte_index >= 3,
        ensures
            encoder.byte_index == self.byte_index - if self.alpha {
                4int
            } else {
                3int
            },
            encoder.seen_pixels == self.seen_pixels,
            encoder.previous_pixel == self.previous_pixel,
            encoder.pixel_amount == self.pixel_amount,
            encoder.alpha == self.alpha,
            encoder.output_buffer_space == self.output_buffer_space,
    {
        let mut encoder = self;
        if encoder.alpha {
            encoder.byte_index -= 4;
        } else {
            encoder.byte_index -= 3;
        }
        encoder
    }

    /// Takes in the pixels that follow and equal the previous one, up to 61
    /// of them, and writes the byte of the run that they make with the pixel
    /// that was read last.
    fn run_chunk<const N: usize>(self, input: &[u8], output: [u8; N], output_index: usize) -> (run: (
        Self,
        [u8; N],
        usize,
    ))
        requires
            self.reading(input@),
            output_index < N,
        ensures
            ({
                let extra = repeats(
                    self.previous_pixel,
                    input_pixels(input@, self.alpha),
                    self.position(),
                    61,
                );
                &&& run.0.reading(input@)
                &&& run.0.position() == self.position() + extra
                &&& run.0.pixel_amount == self.pixel_amount - extra
                &&& run.1@ == output@.update(output_index as int, run_byte(1 + extra))
            }),
            run.0.seen_pixels == self.seen_pixels,
            run.0.previous_pixel == self.previous_pixel,
            run.0.alpha == self.alpha,
            run.0.output_buffer_space == self.output_buffer_space,
            run.2 == output_index + 1,
    {
        let ghost pixels = input_pixels(input@, self.alpha);
        let ghost start = self.position();
        let ghost previous = self.previous_pixel;
        let ghost amount = self.pixel_amount;
        let mut encoder = self;
        let mut output = output;
        let mut run: u8 = 0;
        let mut going = true;
        while going && encoder.is_byte_index_safe(input) && run < 61
            invariant
                encoder.reading(input@),
                encoder.seen_pixels == self.seen_pixels,
                encoder.previous_pixel == previous,
                encoder.alpha == self.alpha,
                encoder.output_buffer_space == self.output_buffer_space,
                pixels == input_pixels(input@, self.alpha),
                run <= 61,
                encoder.position() == start + run,
                encoder.pixel_amount + run == amount,
                repeats(previous, pixels, start, 61) == run + repeats(
                    previous,
                    pixels,
                    encoder.position(),
                    (61 - run) as nat,
                ),
                !going ==> repeats(previous, pixels, encoder.position(), (61 - run) as nat) == 0,
            decreases
                    61 - run + if going {
                        1int
                    } else {
                        0int
                    },
        {
            let ghost before = encoder;
            let (advanced, new_pixel) = encoder.advance_input_pixel(input);
            encoder = advanced;
            if encoder.previous_pixel.is_same(new_pixel) {
                run += 1;
                encoder.pixel_amount -= 1;
            } else {
                encoder = encoder.rewind_input_index();
                going = false;
                assert(encoder == before);
            }
        }
        proof {
            if going && run < 61 {
                assert(encoder.position() >= pixels.len());
            }
            assert(repeats(previous, pixels, encoder.position(), (61 - run) as nat) == 0);
            assert(repeats(previous, pixels, start, 61) == run);
        }
        output[output_index] = 0xc0 | run;
        (encoder, output, output_index + 1)
    }

    /// Encodes the pixel under the cursor, and in a run those behind it, into
    /// `output` from `output_index` on, if the chunk fits there. Says whether
    /// it did; if not, nothing has changed.
    fn encode_chunk<const N: usize>(self, input: &[u8], output: [u8; N], output_index: usize) -> (next: (
        Self,
        [u8; N],
        usize,
        bool,
    ))
        requires
            self.wf(),
            self.pixel_amount > 0,
            input@.len() == self.input_len(),
            output_index < N,
        ensures
            ({
                let pixels = input_pixels(input@, self.alpha);
                let chunk = self.state().next_chunk(pixels, self.position());
                &&& self.position() < pixels.len()
                &&& next.3 == (chunk.bytes.len() <= N - output_index)
                &&& !next.3 ==> next.0 == self && next.1 == output && next.2 == output_index
                &&& next.3 ==> {
                    &&& next.0.wf()
                    &&& next.0.input_len() == self.input_len()
                    &&& next.0.alpha == self.alpha
                    &&& next.0.output_buffer_space == self.output_buffer_space
                    &&& next.0.state() == self.state().after(pixels[self.position() as int])
                    &&& next.0.position() == self.position() + chunk.count
                    &&& next.0.pixel_amount == self.pixel_amount - chunk.count
                    &&& next.2 == output_index + chunk.bytes.len()
                    &&& next.1@.subrange(output_index as int, next.2 as int) == chunk.bytes
                    &&& forall|i: int|
                        0 <= i < N && !(output_index <= i < next.2) ==> next.1@[i] == output@[i]
                }
            }),
    {
        let ghost pixels = input_pixels(input@, self.alpha);
        let ghost chunk = self.state().next_chunk(pixels, self.position());
        let ghost before = self;
        proof {
            self.state().lemma_chunk_count(pixels, self.position());
        }
        let (advanced, new_pixel) = self.advance_input_pixel(input);
        let mut encoder = advanced;
        let mut output = output;
        let mut output_index = output_index;
        let ghost start = output_index;
        let index = new_pixel.calculate_hash_index();
        if encoder.previous_pixel.is_same(new_pixel) {
            let (run, written, written_index) = encoder.run_chunk(input, output, output_index);
            encoder = run;
            output = written;
            output_index = written_index;
        } else if encoder.seen_pixels[index].is_same(new_pixel) {
            output[output_index] = index as u8;
            output_index += 1;
        } else if new_pixel.alpha == encoder.previous_pixel.alpha {
            if let Some(diff) = new_pixel.diff(encoder.previous_pixel) {
                output[output_index] = diff;
                output_index += 1;
            } else if let Some((tag_green, red_blue)) = new_pixel.luma(encoder.previous_pixel) {
                if N - output_index < 2 {
                    encoder = encoder.rewind_input_index();
                    assert(encoder == before);
                    return (encoder, output, output_index, false);
                }
                output[output_index] = tag_green;
                output[output_index + 1] = red_blue;
                output_index += 2;
            } else {
                if N - output_index < 4 {
                    encoder = encoder.rewind_input_index();
                    assert(encoder == before);
                    return (encoder, output, output_index, false);
                }
                let (written, written_index) = new_pixel.rgb_to_output(output, output_index);
                output = written;
                output_index = written_index;
            }
        } else {
            if N - output_index < 5 {
                encoder = encoder.rewind_input_index();
                assert(encoder == before);
                return (encoder, output, output_index, false);
            }
            let (written, written_index) = new_pixel.rgba_to_output(output, output_index);
            output = written;
            output_index = written_index;
        }
        assert(output@.subrange(start as int, output_index as int) =~= chunk.bytes);
        encoder.previous_pixel = new_pixel;
        encoder.seen_pixels[index] = new_pixel;
        encoder.pixel_amount -= 1;
        (encoder, output, output_index, true)
    }

    /// Encodes pixels from the cursor on into `output` until the pixels end
    /// or the next chunk does not fit.
    fn process_pixels<const N: usize>(self, input: &[u8], output: [u8; N]) -> (done: (
        Self,
        [u8; N],
    ))
        requires
            self.wf(),
            input@.len() == self.input_len(),
            N >= 5,
        ensures
            done.0.wf(),
            done.0.input_len() == self.input_len(),
            done.0.alpha == self.alpha,
            ({
                let driven = self.state().drive(
                    input_pixels(input@, self.alpha),
                    self.position(),
                    N as nat,
                );
                &&& driven.bytes.len() <= N
                &&& done.0.state() == driven.state
                &&& done.0.position() == driven.position
                &&& done.0.position() + done.0.pixel_amount == input_pixels(
                    input@,
                    self.alpha,
                ).len()
                &&& done.0.output_buffer_space == N - driven.bytes.len()
                &&& done.1@ == driven.bytes + output@.skip(driven.bytes.len() as int)
            }),
    {
        let ghost pixels = input_pixels(input@, self.alpha);
        let ghost all = self.state().drive(pixels, self.position(), N as nat);
        let ghost mut bytes: Seq<u8> = Seq::empty();
        let ghost window = output@;
        let mut encoder = self;
        let mut output = output;
        let mut output_index: usize = 0;
        let mut full = false;
        proof {
            assert(bytes + all.bytes =~= all.bytes);
            assert(output@.subrange(0, 0) =~= bytes);
        }
        while encoder.pixel_amount != 0 && !full
            invariant
                N >= 5,
                encoder.wf(),
                input@.len() == encoder.input_len(),
                encoder.alpha == self.alpha,
                pixels == input_pixels(input@, self.alpha),
                encoder.position() + encoder.pixel_amount == pixels.len(),
                output_index <= N,
                !full ==> output_index < N,
                output@.subrange(0, output_index as int) == bytes,
                forall|i: int| output_index <= i < N ==> output@[i] == window[i],
                ({
                    let rest = encoder.state().drive(
                        pixels,
                        encoder.position(),
                        (N - output_index) as nat,
                    );
                    &&& all.state == rest.state
                    &&& all.position == rest.position
                    &&& all.bytes == bytes + rest.bytes
                    &&& full ==> rest.bytes.len() == 0 && rest.state == encoder.state()
                        && rest.position == encoder.position()
                }),
            decreases
                    encoder.pixel_amount + if full {
                        0int
                    } else {
                        1int
                    },
        {
            let ghost before = encoder;
            let ghost chunk = before.state().next_chunk(pixels, before.position());
            let ghost rest = before.state().drive(
                pixels,
                before.position(),
                (N - output_index) as nat,
            );
            let ghost start = output_index;
            let ghost held = output@;
            proof {
                before.state().lemma_chunk_count(pixels, before.position());
            }
            let (next, written, written_index, fitted) = encoder.encode_chunk(
                input,
                output,
                output_index,
            );
            encoder = next;
            output = written;
            output_index = written_index;
            if fitted {
                proof {
                    let next = encoder.state().drive(
                        pixels,
                        encoder.position(),
                        (N - output_index) as nat,
                    );
                    assert(rest.bytes == chunk.bytes + next.bytes);
                    assert(output@.subrange(0, output_index as int) =~= held.subrange(
                        0,
                        start as int,
                    ) + output@.subrange(start as int, output_index as int));
                    assert(bytes + (chunk.bytes + next.bytes) =~= (bytes + chunk.bytes)
                        + next.bytes);
                    bytes = bytes + chunk.bytes;
                    if encoder.position() < pixels.len() {
                        encoder.state().lemma_chunk_count(pixels, encoder.position());
                    }
                }
                if output_index == N {
                    full = true;
                }
            } else {
                full = true;
            }
        }
        encoder.output_buffer_space = N - output_index;
        proof {
            assert(bytes + Seq::<u8>::empty() =~= bytes);
            assert(output@ =~= bytes + window.skip(output_index as int));
        }
        (encoder, output)
    }
}

/// Why `new` refuses pixel bytes of the length `length` with these numbers,
/// if it does. The checks come in this order: dimensions, channel count,
/// colorspace, whether the bytes divide into pixels, whether there are as
/// many pixels as width times height.
pub open spec fn new_error(
    length: usize,
    width: u32,
    height: u32,
    channels: u8,
    colorspace: u8,
) -> Option<QoiError> {
    if width == 0 || height == 0 {
        Some(QoiError::InvalidWidthHeight(width, height))
    } else if channels != 3 && channels != 4 {
        Some(QoiError::InvalidChannelsValue(channels))
    } else if colorspace != 0 && colorspace != 1 {
        Some(QoiError::InvalidColorspaceValue(colorspace))
    } else if length % (channels as usize) != 0 {
        Some(QoiError::IncorrectInputData(length, channels))
    } else if length / (channels as usize) != width * height {
        Some(QoiError::InputHeaderMismatch(width, height, (length / (channels as usize)) as u64))
    } else {
        None
    }
}

impl QoiEncoder {
    /// The state of encoding.
    pub closed spec fn state(self) -> EncodeState {
        self.state.state()
    }

    /// Whether the input holds four bytes for each pixel, not three.
    pub closed spec fn has_alpha(self) -> bool {
        self.state.has_alpha()
    }

    /// The position of the next pixel in the input.
    pub closed spec fn position(self) -> nat {
        self.state.position()
    }

    /// The place of the cursor in the input: the number of bytes before the
    /// next pixel.
    pub closed spec fn cursor(self) -> usize {
        self.state.byte_index
    }

    /// The number of pixels that are still to be encoded.
    pub closed spec fn remaining(self) -> nat {
        self.state.remaining()
    }

    /// The length of the input that the encoder works on.
    pub closed spec fn input_len(self) -> nat {
        self.state.input_len()
    }

    /// The number of free bytes at the end of the window that the last call
    /// handed out.
    pub closed spec fn space(self) -> usize {
        self.state.output_buffer_space
    }

    /// The cursor stands at the start of a pixel, and the pixels before it
    /// and those still to be encoded are the pixels of the input.
    pub closed spec fn wf(self) -> bool {
        self.state.wf()
    }

    /// What holds of every encoder.
    pub proof fn lemma_wf(self)
        requires
            self.wf(),
        ensures
            self.input_len() <= usize::MAX,
            self.cursor() == self.position() * if self.has_alpha() {
                4int
            } else {
                3int
            },
            self.input_len() == (self.position() + self.remaining()) * if self.has_alpha() {
                4int
            } else {
                3int
            },
    {
    }

    /// Checks the numbers against the pixel bytes in `input`, which must be
    /// as many as width times height times the channel count, and makes an
    /// encoder for them and the header of the image.
    pub fn new(input: &[u8], width: u32, height: u32, channels: u8, colorspace: u8) -> (result:
        Result<(Self, QoiHeader), QoiError>)
        ensures
            match result {
                Ok((encoder, header)) => {
                    &&& new_error(input@.len() as usize, width, height, channels, colorspace)
                        is None
                    &&& encoder.wf()
                    &&& encoder.state() == EncodeState::initial()
                    &&& encoder.has_alpha() == (channels == 4)
                    &&& encoder.position() == 0
                    &&& encoder.cursor() == 0
                    &&& encoder.remaining() == width * height
                    &&& encoder.input_len() == input@.len()
                    &&& encoder.space() == 0
                    &&& header.internal().magic_bytes@ == crate::consts::magic()
                    &&& header.internal().fields() == (HeaderFields {
                        width,
                        height,
                        channels,
                        colorspace,
                    })
                },
                Err(error) => new_error(
                    input@.len() as usize,
                    width,
                    height,
                    channels,
                    colorspace,
                ) == Some(error),
            },
    {
        if width == 0 || height == 0 {
            return Err(QoiError::InvalidWidthHeight(width, height));
        }
        if channels != 3 && channels != 4 {
            return Err(QoiError::InvalidChannelsValue(channels));
        }
        if colorspace != 0 && colorspace != 1 {
            return Err(QoiError::InvalidColorspaceValue(colorspace));
        }
        assert(width * height <= u64::MAX) by (nonlinear_arith)
            requires
                width <= u32::MAX,
                height <= u32::MAX,
        ;
        let specified_pixel_amount: u64 = width as u64 * height as u64;
        if input.len() % (channels as usize) != 0 {
            return Err(QoiError::IncorrectInputData(input.len(), channels));
        }
        let actual_pixel_amount: u64 = (input.len() / (channels as usize)) as u64;
        if specified_pixel_amount != actual_pixel_amount {
            return Err(QoiError::InputHeaderMismatch(width, height, actual_pixel_amount));
        }
        let header = QoiHeaderInternal::new(width, height, channels, colorspace);
        let encoder = QoiEncoder {
            state: QoiEncoderInternal::new(specified_pixel_amount, channels != 3),
        };
        Ok((encoder, header.public()))
    }

    /// Encodes pixels of `input`, which must be the pixel bytes that the
    /// encoder was made for, into `output`, a window of five bytes or more,
    /// from where the last call stopped.
    pub fn process_pixels<const N: usize>(self, input: &[u8], output: [u8; N]) -> (result: Result<
        QoiEncoderProgress<N>,
        QoiError,
    >)
        requires
            self.wf(),
            input@.len() == self.input_len(),
        ensures
            N < 5 ==> (result matches Err(QoiError::BufferTooSmall(size)) && size == N),
            N >= 5 ==> ({
                let pixels = input_pixels(input@, self.has_alpha());
                let driven = self.state().drive(pixels, self.position(), N as nat);
                match result {
                    Ok(QoiEncoderProgress::Unfinished(encoder, buffer, empty)) => {
                        &&& driven.position < pixels.len()
                        &&& encoder.wf()
                        &&& encoder.state() == driven.state
                        &&& encoder.position() == driven.position
                        &&& encoder.remaining() == pixels.len() - driven.position
                        &&& encoder.has_alpha() == self.has_alpha()
                        &&& encoder.input_len() == self.input_len()
                        &&& encoder.space() == empty
                        &&& empty == N - driven.bytes.len()
                        &&& buffer@ == driven.bytes + output@.skip(driven.bytes.len() as int)
                    },
                    Ok(QoiEncoderProgress::Finished(buffer, empty)) => {
                        &&& driven.position == pixels.len()
                        &&& empty == N - driven.bytes.len()
                        &&& buffer@ == driven.bytes + output@.skip(driven.bytes.len() as int)
                    },
                    Err(_) => false,
                }
            }),
    {
        if N < 5 {
            return Err(QoiError::BufferTooSmall(N));
        }
        let (encoder, output) = self.state.process_pixels(input, output);
        let done = QoiEncoder { state: encoder };
        let empty = done.state.output_buffer_space;
        if done.all_pixels_processed() {
            Ok(QoiEncoderProgress::Finished(output, empty))
        } else {
            Ok(QoiEncoderProgress::Unfinished(done, output, empty))
        }
    }

    fn all_pixels_processed(&self) -> (done: bool)
        ensures
            done == (self.remaining() == 0),
    {
        self.state.pixel_amount == 0
    }

    /// The place of the cursor in the input.
    pub fn byte_index(&self) -> (index: usize)
        ensures
            index == self.cursor(),
    {
        self.state.byte_index
    }

    /// The dictionary.
    pub fn seen_pixels(&self) -> (pixels: [Pixel; 64])
        ensures
            pixels@ == self.state().dictionary,
    {
        self.state.seen_pixels
    }

    /// The pixel that came last.
    pub fn previous_pixel(&self) -> (pixel: Pixel)
        ensures
            pixel == self.state().previous,
    {
        self.state.previous_pixel
    }

    /// The number of pixels that are still to be encoded.
    pub fn pixel_amount(&self) -> (amount: u64)
        ensures
            amount == self.remaining(),
    {
        self.state.pixel_amount
    }

    /// Whether the input holds four bytes for each pixel, not three.
    pub fn alpha(&self) -> (alpha: bool)
        ensures
            alpha == self.has_alpha(),
    {
        self.state.alpha
    }

    /// The number of free bytes at the end of the window that the last call
    /// handed out.
    pub fn output_buffer_space(&self) -> (space: usize)
        ensures
            space == self.space(),
    {
        self.state.output_buffer_space
    }
}

} // verus!
