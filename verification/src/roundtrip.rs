//! Decoding undoes encoding: the chunks that the encoder makes of an image
//! are decoded to the pixels of that image.

use vstd::prelude::*;
use crate::decode_laws::{lemma_decode_split, lemma_decode_tail};
use crate::decode_model::{
    chunk_pixel, chunk_size, diff_pixel, is_run, luma_pixel, pixel_bytes, run_length, DecodeState,
    Decoded, Progress,
};
use crate::encode_model::{input_pixels, repeats, run_byte, EncodeState};
use crate::consts::end_marker;
use crate::pixel::Pixel;

verus! {

/// The state of a decoder that has decoded what an encoder in the state
/// `encoder` has encoded, with `remaining` pixels to come: it has the same
/// previous pixel and dictionary, and nothing is open.
pub open spec fn decoder_of(encoder: EncodeState, remaining: nat) -> DecodeState {
    DecodeState {
        previous: encoder.previous,
        dictionary: encoder.dictionary,
        remaining,
        run: 0,
        partial: Seq::empty(),
        tail: Seq::empty(),
    }
}

/// The fields of a one-byte difference are read back from its byte, which
/// lies in the range of its kind.
proof fn lemma_diff_byte(red: u8, green: u8, blue: u8)
    requires
        red <= 3,
        green <= 3,
        blue <= 3,
    ensures
        ({
            let tag = 64u8 | (red << 4) | (green << 2) | blue;
            &&& 64 <= tag <= 127
            &&& (tag >> 4) & 0x03 == red
            &&& (tag >> 2) & 0x03 == green
            &&& tag & 0x03 == blue
        }),
{
    assert(red <= 3 && green <= 3 && blue <= 3 ==> ({
        let tag = 64u8 | (red << 4) | (green << 2) | blue;
        &&& 64 <= tag <= 127
        &&& (tag >> 4) & 0x03 == red
        &&& (tag >> 2) & 0x03 == green
        &&& tag & 0x03 == blue
    })) by (bit_vector);
}

/// The fields of a two-byte difference are read back from its bytes, the
/// first of which lies in the range of its kind.
proof fn lemma_luma_bytes(red: u8, green: u8, blue: u8)
    requires
        red <= 15,
        green <= 63,
        blue <= 15,
    ensures
        ({
            let tag = 128u8 | green;
            let body = (red << 4) | blue;
            &&& 128 <= tag <= 191
            &&& tag & 0x3f == green
            &&& (body >> 4) & 0x0f == red
            &&& body & 0x0f == blue
        }),
{
    assert(red <= 15 && green <= 63 && blue <= 15 ==> ({
        let tag = 128u8 | green;
        let body = (red << 4) | blue;
        &&& 128 <= tag <= 191
        &&& tag & 0x3f == green
        &&& (body >> 4) & 0x0f == red
        &&& body & 0x0f == blue
    })) by (bit_vector);
}

/// The byte of a run lies in the range of its kind and gives the length
/// back.
proof fn lemma_run_byte(length: nat)
    requires
        1 <= length <= 62,
    ensures
        is_run(run_byte(length)),
        run_length(run_byte(length)) == length,
{
    let less = (length - 1) as u8;
    assert(less <= 61 ==> 192 <= (0xc0u8 | less) <= 253 && (0xc0u8 | less) & 0x3f == less)
        by (bit_vector);
}

/// The one-byte difference from `old` to `pixel`, applied to `old`, gives
/// the colours of `pixel`.
pub proof fn lemma_diff_inverts(pixel: Pixel, old: Pixel)
    requires
        pixel.diff_chunk(old) is Some,
        pixel.alpha == old.alpha,
    ensures
        64 <= pixel.diff_chunk(old)->Some_0 <= 127,
        diff_pixel(old, pixel.diff_chunk(old)->Some_0) == pixel,
{
    let (red, green, blue) = pixel.diff_fields(old);
    lemma_diff_byte(red, green, blue);
}

/// The two-byte difference from `old` to `pixel`, applied to `old`, gives
/// the colours of `pixel`.
pub proof fn lemma_luma_inverts(pixel: Pixel, old: Pixel)
    requires
        pixel.luma_chunk(old) is Some,
        pixel.alpha == old.alpha,
    ensures
        128 <= pixel.luma_chunk(old)->Some_0.0 <= 191,
        luma_pixel(old, pixel.luma_chunk(old)->Some_0.0, pixel.luma_chunk(old)->Some_0.1)
            == pixel,
{
    let (red, green, blue) = pixel.luma_fields(old);
    lemma_luma_bytes(red, green, blue);
}

/// A chunk other than a run, whose first bytes have come and whose other
/// bytes are `rest`, is decoded to its pixel when `rest` comes.
pub proof fn lemma_decode_chunk(state: DecodeState, rest: Seq<u8>)
    requires
        state.run == 0,
        state.remaining > 0,
        rest.len() > 0,
        (state.partial + rest).len() == chunk_size((state.partial + rest)[0]),
        !is_run((state.partial + rest)[0]),
    ensures
        state.decode(rest) == ({
            let pixel = chunk_pixel(state.previous, state.dictionary, state.partial + rest);
            Decoded { state: state.emitted(pixel), pixels: seq![pixel] }
        }),
    decreases rest.len(),
{
    let chunk = state.partial + rest;
    let pixel = chunk_pixel(state.previous, state.dictionary, chunk);
    let first = state.absorb(rest[0]);
    let longer = state.partial.push(rest[0]);
    assert(longer[0] == chunk[0]);
    if rest.len() == 1 {
        assert(longer =~= chunk);
        assert(rest.drop_first() =~= Seq::<u8>::empty());
        assert(first.state.decode(Seq::empty()) == Decoded {
            state: first.state,
            pixels: Seq::empty(),
        });
        assert(first.pixels + Seq::<Pixel>::empty() =~= first.pixels);
    } else {
        assert(longer + rest.drop_first() =~= chunk);
        lemma_decode_chunk(first.state, rest.drop_first());
        assert(first.state.emitted(pixel) == state.emitted(pixel));
        assert(Seq::<Pixel>::empty() + seq![pixel] =~= seq![pixel]);
    }
}

/// The state after a run of `count` pixels has been expanded.
pub open spec fn after_run(state: DecodeState, count: nat) -> DecodeState {
    DecodeState {
        dictionary: state.dictionary.update(state.previous.hash_index(), state.previous),
        remaining: (state.remaining - count) as nat,
        run: 0,
        ..state
    }
}

/// An open run that the image has room for is expanded to as many copies of
/// the previous pixel before anything else is decoded.
pub proof fn lemma_decode_run(state: DecodeState, input: Seq<u8>)
    requires
        1 <= state.run <= state.remaining,
        state.dictionary.len() == 64,
    ensures
        state.decode(input).state == after_run(state, state.run).decode(input).state,
        state.decode(input).pixels == Seq::new(state.run, |i: int| state.previous) + after_run(
            state,
            state.run,
        ).decode(input).pixels,
    decreases state.run,
{
    let next = state.run_step();
    let copies = Seq::new(state.run, |i: int| state.previous);
    let end = after_run(state, state.run);
    if state.run == 1 {
        assert(next == end);
        assert(copies =~= seq![state.previous]);
    } else {
        lemma_decode_run(next, input);
        assert(after_run(next, next.run).dictionary =~= end.dictionary);
        assert(after_run(next, next.run) == end);
        let fewer = Seq::new(next.run, |i: int| state.previous);
        assert(seq![state.previous] + fewer =~= copies);
        assert(seq![state.previous] + (fewer + end.decode(input).pixels) =~= (
            seq![state.previous] + fewer) + end.decode(input).pixels);
    }
}

/// The pixels that were counted as repeats are equal to the pixel.
pub proof fn lemma_repeats_equal(pixel: Pixel, pixels: Seq<Pixel>, from: nat, limit: nat)
    ensures
        forall|i: int|
            from <= i < from + repeats(pixel, pixels, from, limit) ==> pixels[i] == pixel,
    decreases limit,
{
    if limit == 0 || from >= pixels.len() || pixels[from as int] != pixel {
    } else {
        lemma_repeats_equal(pixel, pixels, from + 1, (limit - 1) as nat);
    }
}

/// The chunk that the encoder makes of the next pixels is decoded to those
/// pixels, by a decoder that has decoded what the encoder has encoded, and
/// leaves the decoder in step with the encoder.
pub proof fn lemma_chunk_decodes(encoder: EncodeState, pixels: Seq<Pixel>, from: nat)
    requires
        encoder.wf(),
        from < pixels.len(),
    ensures
        ({
            let chunk = encoder.next_chunk(pixels, from);
            let decoder = decoder_of(encoder, (pixels.len() - from) as nat);
            &&& from + chunk.count <= pixels.len()
            &&& decoder.decode(chunk.bytes) == Decoded {
                state: decoder_of(
                    encoder.after(pixels[from as int]),
                    (pixels.len() - from - chunk.count) as nat,
                ),
                pixels: pixels.subrange(from as int, (from + chunk.count) as int),
            }
        }),
{
    let chunk = encoder.next_chunk(pixels, from);
    let pixel = pixels[from as int];
    let decoder = decoder_of(encoder, (pixels.len() - from) as nat);
    let next = decoder_of(encoder.after(pixel), (pixels.len() - from - chunk.count) as nat);
    encoder.lemma_chunk_count(pixels, from);
    assert(decoder.partial + chunk.bytes =~= chunk.bytes);
    if pixel == encoder.previous {
        lemma_run_byte(chunk.count);
        lemma_repeats_equal(pixel, pixels, from + 1, 61);
        let byte = run_byte(chunk.count);
        let first = decoder.absorb(byte);
        assert(decoder.partial.push(byte)[0] == byte);
        assert(chunk.bytes.drop_first() =~= Seq::<u8>::empty());
        lemma_decode_run(first.state, Seq::empty());
        assert(after_run(first.state, chunk.count) == next);
        assert(Seq::new(chunk.count, |i: int| pixel) =~= pixels.subrange(
            from as int,
            (from + chunk.count) as int,
        ));
        assert(first.pixels + (Seq::new(chunk.count, |i: int| pixel) + Seq::<Pixel>::empty())
            =~= Seq::new(chunk.count, |i: int| pixel));
    } else {
        if encoder.dictionary[pixel.hash_index()] == pixel {
        } else if pixel.alpha == encoder.previous.alpha {
            if pixel.diff_chunk(encoder.previous) is Some {
                lemma_diff_inverts(pixel, encoder.previous);
            } else if pixel.luma_chunk(encoder.previous) is Some {
                lemma_luma_inverts(pixel, encoder.previous);
            }
        }
        assert(chunk.bytes.len() == chunk_size(chunk.bytes[0]));
        assert(!is_run(chunk.bytes[0]));
        assert(chunk_pixel(encoder.previous, encoder.dictionary, chunk.bytes) == pixel);
        lemma_decode_chunk(decoder, chunk.bytes);
        assert(decoder.emitted(pixel) == next);
        assert(seq![pixel] =~= pixels.subrange(from as int, (from + chunk.count) as int));
    }
}

/// Decoding undoes encoding from any pixel on: a decoder that has decoded
/// what the encoder has encoded so far decodes the chunks of the other
/// pixels to those pixels, and ends in step with the encoder, with nothing
/// left open.
pub proof fn lemma_roundtrip_from(encoder: EncodeState, pixels: Seq<Pixel>, from: nat)
    requires
        encoder.wf(),
        from <= pixels.len(),
    ensures
        decoder_of(encoder, (pixels.len() - from) as nat).decode(
            encoder.encode(pixels, from).bytes,
        ) == (Decoded {
            state: decoder_of(encoder.encode(pixels, from).state, 0),
            pixels: pixels.skip(from as int),
        }),
    decreases pixels.len() - from,
{
    let decoder = decoder_of(encoder, (pixels.len() - from) as nat);
    if from >= pixels.len() {
        assert(pixels.skip(from as int) =~= Seq::<Pixel>::empty());
    } else {
        let chunk = encoder.next_chunk(pixels, from);
        let next = encoder.after(pixels[from as int]);
        let rest = next.encode(pixels, from + chunk.count);
        lemma_chunk_decodes(encoder, pixels, from);
        lemma_roundtrip_from(next, pixels, from + chunk.count);
        lemma_decode_split(decoder, chunk.bytes, rest.bytes);
        assert(pixels.subrange(from as int, (from + chunk.count) as int) + pixels.skip(
            (from + chunk.count) as int,
        ) =~= pixels.skip(from as int));
    }
}

/// Decoding undoes encoding: the chunks that the encoder makes of an image
/// are decoded to the pixels of the image, and with the end marker behind
/// them the stream ends as it should.
pub proof fn lemma_roundtrip(pixels: Seq<Pixel>)
    ensures
        ({
            let chunks = EncodeState::initial().encode(pixels, 0).bytes;
            let start = DecodeState::initial(pixels.len());
            &&& start.decode(chunks).pixels == pixels
            &&& start.decode(chunks + end_marker()).pixels == pixels
            &&& start.decode(chunks + end_marker()).state.verdict() == Progress::Finished
        }),
{
    let chunks = EncodeState::initial().encode(pixels, 0).bytes;
    let start = DecodeState::initial(pixels.len());
    let marker = end_marker();
    assert(start == decoder_of(EncodeState::initial(), pixels.len()));
    lemma_roundtrip_from(EncodeState::initial(), pixels, 0);
    assert(pixels.skip(0) =~= pixels);
    lemma_decode_split(start, chunks, marker);
    let end = start.decode(chunks).state;
    lemma_decode_tail(end, marker);
    assert(end.tail + marker =~= marker);
    assert(pixels + Seq::<Pixel>::empty() =~= pixels);
}

/// Decoding, encoding and decoding again gives what decoding gave: the
/// pixels that any bytes are decoded to, for an image of any size, come back
/// from their own encoding.
pub proof fn lemma_decode_encode_decode(stream: Seq<u8>, pixel_count: nat)
    ensures
        ({
            let decoded = DecodeState::initial(pixel_count).decode(stream).pixels;
            let encoded = EncodeState::initial().encode(decoded, 0).bytes;
            DecodeState::initial(decoded.len()).decode(encoded).pixels == decoded
        }),
{
    lemma_roundtrip(DecodeState::initial(pixel_count).decode(stream).pixels);
}

/// The pixel bytes that the decoder hands out for the pixels of RGBA input
/// are that input.
pub proof fn lemma_rgba_bytes(input: Seq<u8>)
    requires
        input.len() % 4 == 0,
    ensures
        pixel_bytes(input_pixels(input, true)) == input,
{
    let pixels = input_pixels(input, true);
    let bytes = pixel_bytes(pixels);
    assert(bytes.len() == input.len());
    assert forall|i: int| 0 <= i < bytes.len() implies bytes[i] == input[i] by {
        let pixel = pixels[i / 4];
        assert(4 * (i / 4) + i % 4 == i);
    }
    assert(bytes =~= input);
}

} // verus!
