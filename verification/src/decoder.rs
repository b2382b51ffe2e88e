//! The streaming decoder: it takes encoded bytes through an input window,
//! hands out RGBA pixel bytes through an output window, and picks up where it
//! stopped when either window was exhausted, also in the middle of a chunk or
//! of a run.

use vstd::prelude::*;
use crate::buffer::{QoiInputBuffer, QoiOutputBuffer};
use crate::consts::{lemma_constants, END_MARKER};
use crate::decode_laws::{lemma_absorb_wf, lemma_run_length, lemma_run_step_wf};
use crate::decode_model::{
    chunk_pixel, chunk_size, diff_pixel, is_run, luma_pixel, pixel_bytes, DecodeState, Progress,
    Step,
};
use crate::error::QoiError;
use crate::header::{parse_header, HeaderFields, QoiHeader, QoiHeaderInternal};
use crate::pixel::Pixel;
use crate::utils::is_identical;

verus! {

/// The first bytes of a chunk of which at least one byte has not come yet: the
/// tag and up to three bytes of the body.
#[derive(Clone, Copy, Debug, PartialEq, Eq)]
pub enum PartialChunk {
    OneByte(u8),
    TwoBytes(u8, u8),
    ThreeBytes(u8, u8, u8),
    FourBytes(u8, u8, u8, u8),
}

impl PartialChunk {
    /// The bytes held, the tag first.
    pub open spec fn bytes(self) -> Seq<u8> {
        match self {
            PartialChunk::OneByte(tag) => seq![tag],
            PartialChunk::TwoBytes(tag, one) => seq![tag, one],
            PartialChunk::ThreeBytes(tag, one, two) => seq![tag, one, two],
            PartialChunk::FourBytes(tag, one, two, three) => seq![tag, one, two, three],
        }
    }

    /// The tag of the chunk.
    pub fn get_tag(self) -> (tag: u8)
        ensures
            tag == self.bytes()[0],
    {
        match self {
            Self::OneByte(tag)
            | Self::TwoBytes(tag, _)
            | Self::ThreeBytes(tag, _, _)
            | Self::FourBytes(tag, _, _, _) => tag,
        }
    }

    /// The number of bytes held.
    pub fn size(self) -> (size: usize)
        ensures
            size == self.bytes().len(),
            1 <= size <= 4,
    {
        match self {
            Self::OneByte(_) => 1,
            Self::TwoBytes(_, _) => 2,
            Self::ThreeBytes(_, _, _) => 3,
            Self::FourBytes(_, _, _, _) => 4,
        }
    }

    /// The chunk with one more byte of the body, unless it holds four bytes
    /// already.
    pub fn add_byte(self, byte: u8) -> (longer: Option<Self>)
        ensures
            match longer {
                Some(chunk) => chunk.bytes() == self.bytes().push(byte),
                None => self.bytes().len() == 4,
            },
    {
        match self {
            Self::OneByte(tag) => {
                assert(seq![tag, byte] =~= seq![tag].push(byte));
                Some(Self::TwoBytes(tag, byte))
            },
            Self::TwoBytes(tag, one) => {
                assert(seq![tag, one, byte] =~= seq![tag, one].push(byte));
                Some(Self::ThreeBytes(tag, one, byte))
            },
            Self::ThreeBytes(tag, one, two) => {
                assert(seq![tag, one, two, byte] =~= seq![tag, one, two].push(byte));
                Some(Self::FourBytes(tag, one, two, byte))
            },
            Self::FourBytes(_, _, _, _) => None,
        }
    }
}

/// The bytes of a chunk that has begun, none where none has.
pub open spec fn partial_bytes(partial: Option<PartialChunk>) -> Seq<u8> {
    match partial {
        Some(chunk) => chunk.bytes(),
        None => Seq::empty(),
    }
}

/// The number of bytes of the chunk that starts with `tag`.
pub fn chunk_length(tag: u8) -> (length: usize)
    ensures
        length == chunk_size(tag),
{
    if tag == 255 {
        5
    } else if tag == 254 {
        4
    } else if 128 <= tag && tag <= 191 {
        2
    } else {
        1
    }
}

/// The bytes of two runs of pixels, one after the other, are the bytes of
/// the first followed by the bytes of the second.
pub proof fn lemma_pixel_bytes_join(first: Seq<Pixel>, second: Seq<Pixel>)
    ensures
        pixel_bytes(first + second) == pixel_bytes(first) + pixel_bytes(second),
{
    let joined = pixel_bytes(first + second);
    let parts = pixel_bytes(first) + pixel_bytes(second);
    assert(joined.len() == parts.len());
    assert forall|i: int| 0 <= i < joined.len() implies joined[i] == parts[i] by {
        if i >= 4 * first.len() {
            let k = i - 4 * first.len();
            assert(k / 4 == i / 4 - first.len());
            assert(k % 4 == i % 4);
        }
    }
    assert(joined =~= parts);
}

/// How a call of the decoder ended. Each variant may hold the output window
/// and the number of its leading bytes that are pixel bytes of this call.
pub enum QoiDecoderProgress<const N: usize> {
    /// All input was taken. The decoder is ready for more.
    AwaitInput(QoiDecoderReady<N>, Option<([u8; N], usize)>),
    /// The output window was full before the input was used up. The decoder
    /// is ready to go on with the input it has.
    ContinueProcessing(QoiDecoder<N>, Option<([u8; N], usize)>),
    /// The last pixel and the end marker have come.
    Finished(Option<([u8; N], usize)>),
}

/// A decoder that has input left to work on.
pub struct QoiDecoder<const N: usize> {
    data: QoiDecoderInternal<N>,
}

/// A decoder that waits for input.
pub struct QoiDecoderReady<const N: usize> {
    data: QoiDecoderInternal<N>,
}

/// A count as a call reports it: itself where it fits, else the largest
/// number there is.
pub open spec fn as_size(count: nat) -> usize {
    if count <= usize::MAX {
        count as usize
    } else {
        usize::MAX
    }
}

/// The content of an output window that held `window` and then took the
/// bytes of `pixels` from its start on.
pub open spec fn window_after(window: Seq<u8>, pixels: Seq<Pixel>) -> Seq<u8> {
    pixel_bytes(pixels) + window.skip(4 * pixels.len() as int)
}

/// Whether `output` hands out `pixels` in a window that held `window` before:
/// nothing where there are none, else the window with their bytes in front
/// and the number of those bytes.
pub open spec fn delivered<const N: usize>(
    output: Option<([u8; N], usize)>,
    pixels: Seq<Pixel>,
    window: Seq<u8>,
) -> bool {
    match output {
        None => pixels.len() == 0,
        Some((bytes, amount)) => {
            &&& pixels.len() > 0
            &&& amount == 4 * pixels.len()
            &&& bytes@ == window_after(window, pixels)
        },
    }
}

/// Whether `result` is what a call returns that ended as `step` says, made
/// on a decoder whose input window held `input`, `capacity` bytes of it
/// valid, and whose output window held `window`. A decoder that is handed
/// back is in the state that `step` names, with the input window read as far
/// as `step` says and an empty output window. A failure hands out no pixels.
pub open spec fn reports<const N: usize>(
    result: Result<QoiDecoderProgress<N>, QoiError>,
    step: Step,
    input: Seq<u8>,
    capacity: usize,
    window: Seq<u8>,
) -> bool {
    match step.progress {
        Progress::AwaitInput(state) => {
            &&& result matches Ok(QoiDecoderProgress::AwaitInput(ready, output))
            &&& ready.wf()
            &&& ready.state() == state
            &&& ready.input().data@ == input
            &&& ready.input().capacity == capacity
            &&& ready.input().index == capacity
            &&& ready.output().data@ == window_after(window, step.pixels)
            &&& delivered(output, step.pixels, window)
        },
        Progress::ContinueProcessing(state, rest) => {
            &&& result matches Ok(QoiDecoderProgress::ContinueProcessing(decoder, output))
            &&& decoder.wf()
            &&& decoder.state() == state
            &&& decoder.input().data@ == input
            &&& decoder.input().capacity == capacity
            &&& decoder.input().index == capacity - rest.len()
            &&& decoder.output().data@ == window_after(window, step.pixels)
            &&& delivered(output, step.pixels, window)
        },
        Progress::Finished => {
            &&& result matches Ok(QoiDecoderProgress::Finished(output))
            &&& delivered(output, step.pixels, window)
        },
        Progress::BadEndMarkerSize(count) => {
            &&& result matches Err(QoiError::BadEndMarkerSize(size))
            &&& size == as_size(count)
        },
        Progress::BadEndMarkerBytes(bytes) => {
            &&& result matches Err(QoiError::BadEndMarkerBytes(end))
            &&& end@ == bytes
        },
    }
}

/// Why `init` refuses a window of `size` bytes or the header `header`, if it
/// does. The window is looked at first, then the length of the header, then
/// what it holds.
pub open spec fn init_error(header: Seq<u8>, size: usize) -> Option<QoiError> {
    if size < 16 || size % 4 != 0 {
        Some(QoiError::BadBufferSize(size))
    } else if header.len() != 14 {
        Some(QoiError::BadHeaderSize(header.len() as usize))
    } else {
        match parse_header(header) {
            Ok(_) => None,
            Err(error) => Some(error),
        }
    }
}

/// The state that the parts of a decoder stand for, with no tail.
pub open spec fn state_of_parts(
    seen_pixels: [Pixel; 64],
    previous_pixel: Pixel,
    pixel_amount: u64,
    run_amount: u8,
    partial_chunk: Option<PartialChunk>,
) -> DecodeState {
    DecodeState {
        previous: previous_pixel,
        dictionary: seen_pixels@,
        remaining: pixel_amount as nat,
        run: run_amount as nat,
        partial: partial_bytes(partial_chunk),
        tail: Seq::empty(),
    }
}

impl<const N: usize> QoiDecoder<N> {
    /// The state of decoding.
    pub closed spec fn state(self) -> DecodeState {
        self.data.state()
    }

    /// The input window.
    pub closed spec fn input(self) -> QoiInputBuffer<N> {
        self.data.input()
    }

    /// The output window.
    pub closed spec fn output(self) -> QoiOutputBuffer<N> {
        self.data.output()
    }

    /// The decoder is well formed and its output window is empty.
    pub closed spec fn wf(self) -> bool {
        self.data.wf() && self.data.output().space == N
    }

    /// What holds of every decoder.
    pub proof fn lemma_wf(self)
        requires
            self.wf(),
        ensures
            N >= 4,
            N % 4 == 0,
            self.state().wf(),
            self.state().tail.len() < 8,
            self.input().wf(),
            self.output().space == N,
    {
    }

    /// Reads the header and makes a decoder that works through windows of the
    /// size of `buffer`, which must be 16 bytes or more and divisible by 4.
    pub fn init(header_input: &[u8], buffer: [u8; N]) -> (result: Result<
        (QoiHeader, QoiDecoderReady<N>),
        QoiError,
    >)
        ensures
            match result {
                Ok((header, ready)) => {
                    &&& init_error(header_input@, N) is None
                    &&& parse_header(header_input@) == Ok::<HeaderFields, QoiError>(
                        header.internal().fields(),
                    )
                    &&& header.internal().magic_bytes@ == crate::consts::magic()
                    &&& ready.wf()
                    &&& ready.state() == DecodeState::initial(
                        header.internal().fields().pixel_count(),
                    )
                    &&& ready.input() == (QoiInputBuffer { data: buffer, capacity: 0, index: 0 })
                    &&& ready.output() == (QoiOutputBuffer { data: buffer, space: N })
                },
                Err(error) => init_error(header_input@, N) == Some(error),
            },
    {
        if N < 16 || N % 4 != 0 {
            Err(QoiError::BadBufferSize(N))
        } else if header_input.len() != 14 {
            Err(QoiError::BadHeaderSize(header_input.len()))
        } else {
            match QoiHeaderInternal::extract(header_input) {
                Ok(header) => {
                    assert(header.width * header.height <= u64::MAX) by (nonlinear_arith)
                        requires
                            header.width <= u32::MAX,
                            header.height <= u32::MAX,
                    ;
                    let pixel_amount = (header.width as u64) * (header.height as u64);
                    Ok(
                        (
                            header.public(),
                            QoiDecoderReady { data: QoiDecoderInternal::new(pixel_amount, buffer) },
                        ),
                    )
                },
                Err(e) => Err(e),
            }
        }
    }

    /// Works on with the input that is left in the input window.
    pub fn continue_processing(self) -> (result: Result<QoiDecoderProgress<N>, QoiError>)
        requires
            self.wf(),
        ensures
            reports(
                result,
                self.state().step(self.input().unread(), (N / 4) as nat),
                self.input().data@,
                self.input().capacity,
                self.output().data@,
            ),
    {
        self.data.continue_processing()
    }

    /// A decoder made of its parts, where they fit together: the windows
    /// take whole pixels, the cursor of the input window is in range, the
    /// output window is empty, and the rest is a well-formed state.
    pub fn from_parts(
        input: QoiInputBuffer<N>,
        output: QoiOutputBuffer<N>,
        seen_pixels: [Pixel; 64],
        previous_pixel: Pixel,
        pixel_amount: u64,
        run_amount: u8,
        partial_chunk: Option<PartialChunk>,
    ) -> (made: Option<Self>)
        ensures
            made is Some <==> N >= 4 && N % 4 == 0 && input.wf() && output.space == N
                && state_of_parts(
                seen_pixels,
                previous_pixel,
                pixel_amount,
                run_amount,
                partial_chunk,
            ).wf(),
            made matches Some(decoder) ==> ({
                &&& decoder.wf()
                &&& decoder.input() == input
                &&& decoder.output() == output
                &&& decoder.state() == state_of_parts(
                    seen_pixels,
                    previous_pixel,
                    pixel_amount,
                    run_amount,
                    partial_chunk,
                )
            }),
    {
        let windows = N >= 4 && N % 4 == 0 && input.index <= input.capacity && input.capacity <= N
            && output.space == N;
        let chunk = match partial_chunk {
            Some(part) => part.size() < chunk_length(part.get_tag()) && run_amount == 0,
            None => true,
        };
        let counts = run_amount <= 62 && (pixel_amount != 0 || (run_amount == 0
            && partial_chunk.is_none()));
        if windows && chunk && counts {
            let data = QoiDecoderInternal {
                input,
                output,
                seen_pixels,
                previous_pixel,
                pixel_amount,
                run_amount,
                partial_chunk,
                end_bytes: [0u8;8],
                end_amount: 0,
            };
            assert(data.state().tail =~= Seq::<u8>::empty());
            Some(QoiDecoder { data })
        } else {
            None
        }
    }

    /// The input window.
    pub fn input_buffer(&self) -> (buffer: QoiInputBuffer<N>)
        ensures
            buffer == self.input(),
    {
        self.data.input
    }

    /// The output window.
    pub fn output_buffer(&self) -> (buffer: QoiOutputBuffer<N>)
        ensures
            buffer == self.output(),
    {
        self.data.output
    }

    /// The dictionary.
    pub fn seen_pixels(&self) -> (pixels: [Pixel; 64])
        ensures
            pixels@ == self.state().dictionary,
    {
        self.data.seen_pixels
    }

    /// The pixel that came last.
    pub fn previous_pixel(&self) -> (pixel: Pixel)
        ensures
            pixel == self.state().previous,
    {
        self.data.previous_pixel
    }

    /// The number of pixels that are still to come.
    pub fn pixel_amount(&self) -> (amount: u64)
        ensures
            amount == self.state().remaining,
    {
        self.data.pixel_amount
    }

    /// The number of pixels of the open run that are still to come.
    pub fn run_amount(&self) -> (amount: u8)
        ensures
            amount == self.state().run,
    {
        self.data.run_amount
    }

    /// The chunk that has begun, if one has.
    pub fn partial_chunk(&self) -> (chunk: Option<PartialChunk>)
        ensures
            partial_bytes(chunk) == self.state().partial,
    {
        self.data.partial_chunk
    }
}

impl<const N: usize> QoiDecoderReady<N> {
    /// The state of decoding.
    pub closed spec fn state(self) -> DecodeState {
        self.data.state()
    }

    /// The input window.
    pub closed spec fn input(self) -> QoiInputBuffer<N> {
        self.data.input()
    }

    /// The output window.
    pub closed spec fn output(self) -> QoiOutputBuffer<N> {
        self.data.output()
    }

    /// The decoder is well formed and its output window is empty.
    pub closed spec fn wf(self) -> bool {
        self.data.wf() && self.data.output().space == N
    }

    /// What holds of every decoder.
    pub proof fn lemma_wf(self)
        requires
            self.wf(),
        ensures
            N >= 4,
            N % 4 == 0,
            self.state().wf(),
            self.state().tail.len() < 8,
            self.input().wf(),
            self.output().space == N,
    {
    }

    /// Takes `input`, which is one byte or more and no more than the window
    /// holds, into the input window and works on it.
    pub fn input_bytes_to_process(self, input: &[u8]) -> (result: Result<
        QoiDecoderProgress<N>,
        QoiError,
    >)
        requires
            self.wf(),
        ensures
            input@.len() == 0 || input@.len() > N ==> (result matches Err(
                QoiError::BadInputSize(length, size),
            ) && length == input@.len() && size == N),
            0 < input@.len() <= N ==> reports(
                result,
                self.state().step(input@, (N / 4) as nat),
                input@ + self.input().data@.skip(input@.len() as int),
                input@.len() as usize,
                self.output().data@,
            ),
    {
        if input.len() == 0 || input.len() > N {
            Err(QoiError::BadInputSize(input.len(), N))
        } else {
            let mut data = self.data;
            data.input = data.input.write_bytes(input);
            data.continue_processing()
        }
    }

    /// The input window.
    pub fn input_buffer(&self) -> (buffer: QoiInputBuffer<N>)
        ensures
            buffer == self.input(),
    {
        self.data.input
    }

    /// The output window.
    pub fn output_buffer(&self) -> (buffer: QoiOutputBuffer<N>)
        ensures
            buffer == self.output(),
    {
        self.data.output
    }

    /// The dictionary.
    pub fn seen_pixels(&self) -> (pixels: [Pixel; 64])
        ensures
            pixels@ == self.state().dictionary,
    {
        self.data.seen_pixels
    }

    /// The pixel that came last.
    pub fn previous_pixel(&self) -> (pixel: Pixel)
        ensures
            pixel == self.state().previous,
    {
        self.data.previous_pixel
    }

    /// The number of pixels that are still to come.
    pub fn pixel_amount(&self) -> (amount: u64)
        ensures
            amount == self.state().remaining,
    {
        self.data.pixel_amount
    }

    /// The number of pixels of the open run that are still to come.
    pub fn run_amount(&self) -> (amount: u8)
        ensures
            amount == self.state().run,
    {
        self.data.run_amount
    }

    /// The chunk that has begun, if one has.
    pub fn partial_chunk(&self) -> (chunk: Option<PartialChunk>)
        ensures
            partial_bytes(chunk) == self.state().partial,
    {
        self.data.partial_chunk
    }
}

/// What a decoder holds between two calls.
pub struct QoiDecoderInternal<const N: usize> {
    input: QoiInputBuffer<N>,
    output: QoiOutputBuffer<N>,
    seen_pixels: [Pixel; 64],
    previous_pixel: Pixel,
    pixel_amount: u64,
    run_amount: u8,
    partial_chunk: Option<PartialChunk>,
    end_bytes: [u8; 8],
    end_amount: usize,
}

impl<const N: usize> QoiDecoderInternal<N> {
    /// The state of decoding that the fields stand for.
    pub closed spec fn state(self) -> DecodeState {
        DecodeState {
            previous: self.previous_pixel,
            dictionary: self.seen_pixels@,
            remaining: self.pixel_amount as nat,
            run: self.run_amount as nat,
            partial: partial_bytes(self.partial_chunk),
            tail: self.end_bytes@.subrange(0, self.end_amount as int),
        }
    }

    /// The input window.
    pub closed spec fn input(self) -> QoiInputBuffer<N> {
        self.input
    }

    /// The output window.
    pub closed spec fn output(self) -> QoiOutputBuffer<N> {
        self.output
    }

    /// The windows take whole pixels, the input cursor is in range, the
    /// state is well formed and its tail is shorter than the end marker.
    pub closed spec fn wf(self) -> bool {
        &&& N >= 4
        &&& N % 4 == 0
        &&& self.input.wf()
        &&& self.output.wf()
        &&& self.output.space % 4 == 0
        &&& self.end_amount < 8
        &&& self.state().wf()
    }

    /// The room for pixels in the output window.
    pub closed spec fn room(self) -> nat {
        (self.output.space / 4) as nat
    }

    fn all_pixels_processed(&self) -> (done: bool)
        ensures
            done == (self.state().remaining == 0),
    {
        self.pixel_amount == 0
    }

    fn all_input_processed(&self) -> (done: bool)
        requires
            self.input.wf(),
        ensures
            done == (self.input.unread().len() == 0),
    {
        self.input.index == self.input.capacity
    }

    /// Puts `pixel` into the output window.
    fn emit(self, pixel: Pixel) -> (decoder: Self)
        requires
            self.output.wf(),
            self.output.space >= 4,
        ensures
            decoder.output.space == self.output.space - 4,
            decoder.output.filled() == self.output.filled() + pixel.bytes(),
            forall|i: int|
                N - decoder.output.space <= i < N ==> decoder.output.data@[i]
                    == self.output.data@[i],
            decoder.input == self.input,
            decoder.seen_pixels == self.seen_pixels,
            decoder.previous_pixel == self.previous_pixel,
            decoder.pixel_amount == self.pixel_amount,
            decoder.run_amount == self.run_amount,
            decoder.partial_chunk == self.partial_chunk,
            decoder.end_bytes == self.end_bytes,
            decoder.end_amount == self.end_amount,
    {
        let mut decoder = self;
        let bytes = [pixel.red, pixel.green, pixel.blue, pixel.alpha];
        assert(bytes@ =~= pixel.bytes());
        decoder.output = decoder.output.append_bytes(&bytes);
        decoder
    }

    /// Decodes one more pixel of the open run.
    fn expand_run(self) -> (decoder: Self)
        requires
            self.wf(),
            self.state().run > 0,
            self.state().remaining > 0,
            self.output.space >= 4,
        ensures
            decoder.wf(),
            decoder.state() == self.state().run_step(),
            decoder.input == self.input,
            decoder.end_bytes == self.end_bytes,
            decoder.end_amount == self.end_amount,
            decoder.output.space == self.output.space - 4,
            decoder.output.filled() == self.output.filled() + self.state().previous.bytes(),
            forall|i: int|
                N - decoder.output.space <= i < N ==> decoder.output.data@[i]
                    == self.output.data@[i],
    {
        proof {
            lemma_run_step_wf(self.state());
        }
        let previous = self.previous_pixel;
        let mut decoder = self.emit(previous);
        decoder.pixel_amount -= 1;
        decoder.run_amount = if decoder.pixel_amount == 0 {
            0
        } else {
            decoder.run_amount - 1
        };
        let index = decoder.previous_pixel.calculate_hash_index();
        decoder.seen_pixels[index] = decoder.previous_pixel;
        decoder
    }

    /// Takes one byte from the input window: it joins the chunk that has
    /// begun, and a chunk that is whole opens a run or yields its pixel.
    fn process_byte(self) -> (decoder: Self)
        requires
            self.wf(),
            self.state().run == 0,
            self.state().remaining > 0,
            self.output.space >= 4,
            self.input.unread().len() > 0,
        ensures
            decoder.wf(),
            decoder.state() == self.state().absorb(self.input.unread()[0]).state,
            decoder.input.data == self.input.data,
            decoder.input.capacity == self.input.capacity,
            decoder.input.index == self.input.index + 1,
            decoder.input.unread() == self.input.unread().drop_first(),
            decoder.end_bytes == self.end_bytes,
            decoder.end_amount == self.end_amount,
            decoder.output.space == self.output.space - 4 * self.state().absorb(
                self.input.unread()[0],
            ).pixels.len(),
            decoder.output.filled() == self.output.filled() + pixel_bytes(
                self.state().absorb(self.input.unread()[0]).pixels,
            ),
            forall|i: int|
                N - decoder.output.space <= i < N ==> decoder.output.data@[i]
                    == self.output.data@[i],
    {
        let mut decoder = self;
        let (input, byte) = decoder.input.read_byte();
        decoder.input = input;
        let ghost chunk = partial_bytes(self.partial_chunk).push(byte);
        proof {
            lemma_absorb_wf(self.state(), byte);
            assert(pixel_bytes(Seq::<Pixel>::empty()) =~= Seq::<u8>::empty());
            assert(self.output.filled() + Seq::<u8>::empty() =~= self.output.filled());
        }
        let (tag, held) = match decoder.partial_chunk {
            Some(part) => (part.get_tag(), part.size()),
            None => (byte, 0),
        };
        assert(tag == chunk[0]);
        if held + 1 < chunk_length(tag) {
            decoder.partial_chunk = match decoder.partial_chunk {
                Some(part) => part.add_byte(byte),
                None => Some(PartialChunk::OneByte(byte)),
            };
            assert(partial_bytes(decoder.partial_chunk) =~= chunk);
        } else if 192 <= tag && tag <= 253 {
            proof {
                lemma_run_length(tag);
            }
            assert(tag & 0x3f <= 63) by (bit_vector);
            decoder.run_amount = (tag & 0x3f) + 1;
            decoder.partial_chunk = None;
        } else {
            let pixel = Self::process_pixel(
                decoder.partial_chunk,
                byte,
                decoder.previous_pixel,
                &decoder.seen_pixels,
            );
            decoder = decoder.emit(pixel);
            decoder.pixel_amount -= 1;
            decoder.partial_chunk = None;
            let index = pixel.calculate_hash_index();
            decoder.seen_pixels[index] = pixel;
            decoder.previous_pixel = pixel;
            assert(pixel_bytes(seq![pixel]) =~= pixel.bytes());
        }
        decoder
    }

    /// The decoder before the first byte of an image of `pixel_amount`
    /// pixels, with windows that hold what `data` holds.
    fn new(pixel_amount: u64, data: [u8; N]) -> (decoder: Self)
        requires
            N >= 4,
            N % 4 == 0,
        ensures
            decoder.wf(),
            decoder.state() == DecodeState::initial(pixel_amount as nat),
            decoder.input == (QoiInputBuffer { data, capacity: 0, index: 0 }),
            decoder.output == (QoiOutputBuffer { data, space: N }),
    {
        let decoder = Self {
            input: QoiInputBuffer { data, capacity: 0, index: 0 },
            output: QoiOutputBuffer { data, space: N },
            seen_pixels: [Pixel::new(0, 0, 0, 0);64],
            previous_pixel: Pixel::new(0, 0, 0, 255),
            pixel_amount,
            run_amount: 0,
            partial_chunk: None,
            end_bytes: [0u8;8],
            end_amount: 0,
        };
        assert(decoder.state().dictionary =~= DecodeState::initial(
            pixel_amount as nat,
        ).dictionary);
        assert(decoder.state().tail =~= Seq::<u8>::empty());
        decoder
    }

    /// The bytes that came after the last pixel: those kept from earlier
    /// calls, then those unread in the input window, then zeros.
    fn get_end_bytes_from_input(&self) -> (end: [u8; 8])
        requires
            self.input.wf(),
            self.end_amount + self.input.unread().len() <= 8,
        ensures
            end@.subrange(0, self.end_amount + self.input.unread().len()) == self.state().tail
                + self.input.unread(),
    {
        let mut end = [0u8;8];
        let mut index: usize = 0;
        while index < self.end_amount
            invariant
                index <= self.end_amount <= 8,
                forall|i: int| 0 <= i < index ==> end@[i] == self.end_bytes@[i],
            decreases self.end_amount - index,
        {
            end[index] = self.end_bytes[index];
            index += 1;
        }
        let mut data_index: usize = self.input.index;
        while data_index < self.input.capacity
            invariant
                self.input.wf(),
                self.end_amount + self.input.unread().len() <= 8,
                self.input.index <= data_index <= self.input.capacity,
                index == self.end_amount + (data_index - self.input.index),
                forall|i: int| 0 <= i < self.end_amount ==> end@[i] == self.end_bytes@[i],
                forall|i: int|
                    self.input.index <= i < data_index ==> end@[self.end_amount + (i
                        - self.input.index)] == self.input.data@[i],
            decreases self.input.capacity - data_index,
        {
            end[index] = self.input.data[data_index];
            index += 1;
            data_index += 1;
        }
        assert(end@.subrange(0, self.end_amount + self.input.unread().len()) =~= self.state().tail
            + self.input.unread());
        end
    }

    /// Works on the input window and says how the call ended.
    fn continue_processing(self) -> (result: Result<QoiDecoderProgress<N>, QoiError>)
        requires
            self.wf(),
            self.output.space == N,
        ensures
            reports(
                result,
                self.state().step(self.input.unread(), (N / 4) as nat),
                self.input.data@,
                self.input.capacity,
                self.output.data@,
            ),
    {
        let ghost step = self.state().step(self.input.unread(), (N / 4) as nat);
        let ghost driven = self.state().drive(self.input.unread(), (N / 4) as nat);
        let ghost rest = self.input.unread().skip(driven.consumed as int);
        let mut decoder = self.process_chunks();
        let amount = N - decoder.output.space;
        let (emptied, bytes) = decoder.output.get_all_bytes();
        proof {
            assert(self.output.filled() =~= Seq::<u8>::empty());
            assert(bytes@ =~= window_after(self.output.data@, driven.pixels));
            assert(decoder.input.unread() =~= rest);
        }
        decoder.output = emptied;
        let output = if amount == 0 {
            None
        } else {
            Some((bytes, amount))
        };
        if decoder.all_pixels_processed() {
            let input_left = decoder.input.capacity - decoder.input.index;
            if input_left > 8 - decoder.end_amount {
                let size = if input_left > usize::MAX - decoder.end_amount {
                    usize::MAX
                } else {
                    decoder.end_amount + input_left
                };
                Err(QoiError::BadEndMarkerSize(size))
            } else {
                let end = decoder.get_end_bytes_from_input();
                let length = decoder.end_amount + input_left;
                if length == 8 {
                    proof {
                        lemma_constants();
                        assert(end@.subrange(0, 8) =~= end@);
                        assert(END_MARKER@.subrange(0, 8) =~= END_MARKER@);
                    }
                    if is_identical(&end, &END_MARKER) {
                        Ok(QoiDecoderProgress::Finished(output))
                    } else {
                        Err(QoiError::BadEndMarkerBytes(end))
                    }
                } else {
                    decoder.end_bytes = end;
                    decoder.end_amount = length;
                    decoder.input.index = decoder.input.capacity;
                    Ok(QoiDecoderProgress::AwaitInput(QoiDecoderReady { data: decoder }, output))
                }
            }
        } else if decoder.all_input_processed() && decoder.run_amount == 0 {
            Ok(QoiDecoderProgress::AwaitInput(QoiDecoderReady { data: decoder }, output))
        } else {
            Ok(QoiDecoderProgress::ContinueProcessing(QoiDecoder { data: decoder }, output))
        }
    }

    /// Decodes from the input window into the output window until the last
    /// pixel has come, the output window is full, or no run is open and the
    /// input window is read to its end.
    fn process_chunks(self) -> (decoder: Self)
        requires
            self.wf(),
        ensures
            decoder.wf(),
            decoder.input.data == self.input.data,
            decoder.input.capacity == self.input.capacity,
            decoder.end_bytes == self.end_bytes,
            decoder.end_amount == self.end_amount,
            ({
                let driven = self.state().drive(self.input.unread(), self.room());
                &&& decoder.state() == driven.state
                &&& decoder.input.index == self.input.index + driven.consumed
                &&& decoder.output.space + 4 * driven.pixels.len() == self.output.space
                &&& decoder.output.filled() == self.output.filled() + pixel_bytes(driven.pixels)
            }),
            forall|i: int|
                N - decoder.output.space <= i < N ==> decoder.output.data@[i]
                    == self.output.data@[i],
    {
        let mut decoder = self;
        let ghost mut pixels: Seq<Pixel> = Seq::empty();
        proof {
            assert(pixel_bytes(pixels) =~= Seq::<u8>::empty());
            assert(self.output.filled() + pixel_bytes(pixels) =~= self.output.filled());
            assert(pixels + self.state().drive(self.input.unread(), self.room()).pixels
                =~= self.state().drive(self.input.unread(), self.room()).pixels);
        }
        while decoder.pixel_amount != 0 && decoder.output.space != 0 && (decoder.run_amount != 0
            || decoder.input.index != decoder.input.capacity)
            invariant
                decoder.wf(),
                decoder.input.data == self.input.data,
                decoder.input.capacity == self.input.capacity,
                decoder.end_bytes == self.end_bytes,
                decoder.end_amount == self.end_amount,
                self.input.index <= decoder.input.index,
                decoder.output.space + 4 * pixels.len() == self.output.space,
                decoder.output.filled() == self.output.filled() + pixel_bytes(pixels),
                forall|i: int|
                    N - decoder.output.space <= i < N ==> decoder.output.data@[i]
                        == self.output.data@[i],
                ({
                    let all = self.state().drive(self.input.unread(), self.room());
                    let rest = decoder.state().drive(decoder.input.unread(), decoder.room());
                    &&& all.state == rest.state
                    &&& all.consumed == decoder.input.index - self.input.index + rest.consumed
                    &&& all.pixels == pixels + rest.pixels
                }),
            decreases decoder.input.capacity - decoder.input.index, decoder.run_amount,
        {
            let ghost before = decoder;
            let ghost rest = before.state().drive(before.input.unread(), before.room());
            if decoder.run_amount != 0 {
                decoder = decoder.expand_run();
                proof {
                    let next = decoder.state().drive(decoder.input.unread(), decoder.room());
                    let added = seq![before.state().previous];
                    assert(rest.pixels == added + next.pixels);
                    lemma_pixel_bytes_join(pixels, added);
                    assert(pixel_bytes(added) =~= before.state().previous.bytes());
                    assert(self.output.filled() + pixel_bytes(pixels + added) =~= (
                        self.output.filled() + pixel_bytes(pixels)) + pixel_bytes(added));
                    assert(pixels + (added + next.pixels) =~= (pixels + added) + next.pixels);
                    pixels = pixels + added;
                }
            } else {
                decoder = decoder.process_byte();
                proof {
                    let first = before.state().absorb(before.input.unread()[0]);
                    lemma_absorb_wf(before.state(), before.input.unread()[0]);
                    let next = decoder.state().drive(decoder.input.unread(), decoder.room());
                    assert(decoder.room() == (before.room() - first.pixels.len()) as nat);
                    assert(rest.pixels == first.pixels + next.pixels);
                    lemma_pixel_bytes_join(pixels, first.pixels);
                    assert(self.output.filled() + pixel_bytes(pixels + first.pixels) =~= (
                        self.output.filled() + pixel_bytes(pixels)) + pixel_bytes(first.pixels));
                    assert(pixels + (first.pixels + next.pixels) =~= (pixels + first.pixels)
                        + next.pixels);
                    pixels = pixels + first.pixels;
                }
            }
        }
        proof {
            let rest = decoder.state().drive(decoder.input.unread(), decoder.room());
            assert(pixels + rest.pixels =~= pixels);
        }
        decoder
    }

    /// The pixel of the chunk that carries all four channels in full, of which
    /// `part` came before and `last` is the alpha byte.
    fn process_rgba(part: PartialChunk, last: u8) -> (pixel: Pixel)
        requires
            part.bytes().len() == 4,
        ensures
            pixel == (Pixel {
                red: part.bytes()[1],
                green: part.bytes()[2],
                blue: part.bytes()[3],
                alpha: last,
            }),
    {
        match part {
            PartialChunk::FourBytes(_, red, green, blue) => Pixel::new(red, green, blue, last),
            _ => Pixel::new(0, 0, 0, last),
        }
    }

    /// The pixel of the chunk that carries red, green and blue in full, of which
    /// `part` came before and `last` is the blue byte. The alpha is handed on.
    fn process_rgb(part: PartialChunk, last: u8, alpha: u8) -> (pixel: Pixel)
        requires
            part.bytes().len() == 3,
        ensures
            pixel == (Pixel { red: part.bytes()[1], green: part.bytes()[2], blue: last, alpha }),
    {
        match part {
            PartialChunk::ThreeBytes(_, red, green) => Pixel::new(red, green, last, alpha),
            _ => Pixel::new(0, 0, last, alpha),
        }
    }

    /// The pixel of the two-byte difference chunk `tag`, `body` after `previous`.
    fn process_luma(previous: Pixel, tag: u8, body: u8) -> (pixel: Pixel)
        ensures
            pixel == luma_pixel(previous, tag, body),
    {
        let green_diff = (tag & 0x3f).wrapping_sub(32);
        let from_green = green_diff.wrapping_sub(8);
        Pixel::new(
            previous.red.wrapping_add(from_green.wrapping_add((body >> 4) & 0x0f)),
            previous.green.wrapping_add(green_diff),
            previous.blue.wrapping_add(from_green.wrapping_add(body & 0x0f)),
            previous.alpha,
        )
    }

    /// The pixel of the one-byte difference chunk `tag` after `previous`.
    fn process_diff(previous: Pixel, tag: u8) -> (pixel: Pixel)
        ensures
            pixel == diff_pixel(previous, tag),
    {
        Pixel::new(
            previous.red.wrapping_add((tag >> 4) & 0x03).wrapping_sub(2),
            previous.green.wrapping_add((tag >> 2) & 0x03).wrapping_sub(2),
            previous.blue.wrapping_add(tag & 0x03).wrapping_sub(2),
            previous.alpha,
        )
    }

    /// The pixel of a chunk other than a run, of which `part` came before and
    /// `last` is the last byte.
    fn process_pixel(
        part: Option<PartialChunk>,
        last: u8,
        previous: Pixel,
        seen_pixels: &[Pixel; 64],
    ) -> (pixel: Pixel)
        requires
            partial_bytes(part).len() + 1 == chunk_size(partial_bytes(part).push(last)[0]),
            !is_run(partial_bytes(part).push(last)[0]),
        ensures
            pixel == chunk_pixel(previous, seen_pixels@, partial_bytes(part).push(last)),
    {
        match part {
            Some(part) => {
                let tag = part.get_tag();
                assert(part.bytes().push(last)[0] == tag);
                if tag == 255 {
                    Self::process_rgba(part, last)
                } else if tag == 254 {
                    Self::process_rgb(part, last, previous.alpha)
                } else {
                    Self::process_luma(previous, tag, last)
                }
            },
            None => {
                assert(Seq::<u8>::empty().push(last)[0] == last);
                if last >= 64 {
                    Self::process_diff(previous, last)
                } else {
                    seen_pixels[last as usize]
                }
            },
        }
    }
}

} // verus!
