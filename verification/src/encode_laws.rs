//! What holds of encoding whatever room the bytes are given.

use vstd::prelude::*;
use crate::encode_model::EncodeState;
use crate::pixel::Pixel;

verus! {

/// Encoding into a bounded window keeps the state well formed, does not go
/// past the last pixel and yields no more bytes than there is room for. With
/// room for the longest chunk it takes at least one pixel, if there is one.
pub proof fn lemma_drive_bounds(state: EncodeState, pixels: Seq<Pixel>, from: nat, room: nat)
    requires
        state.wf(),
        from <= pixels.len(),
    ensures
        state.drive(pixels, from, room).state.wf(),
        from <= state.drive(pixels, from, room).position <= pixels.len(),
        state.drive(pixels, from, room).bytes.len() <= room,
        room >= 5 && from < pixels.len() ==> state.drive(pixels, from, room).position > from,
    decreases pixels.len() - from,
{
    if from < pixels.len() {
        let chunk = state.next_chunk(pixels, from);
        state.lemma_chunk_count(pixels, from);
        if chunk.bytes.len() <= room {
            lemma_drive_bounds(
                state.after(pixels[from as int]),
                pixels,
                from + chunk.count,
                (room - chunk.bytes.len()) as nat,
            );
        }
    }
}

/// Encoding with room for every byte keeps the state well formed and ends
/// behind the last pixel.
pub proof fn lemma_encode_bounds(state: EncodeState, pixels: Seq<Pixel>, from: nat)
    requires
        state.wf(),
        from <= pixels.len(),
    ensures
        state.encode(pixels, from).state.wf(),
        state.encode(pixels, from).position == pixels.len(),
    decreases pixels.len() - from,
{
    if from < pixels.len() {
        let chunk = state.next_chunk(pixels, from);
        state.lemma_chunk_count(pixels, from);
        lemma_encode_bounds(state.after(pixels[from as int]), pixels, from + chunk.count);
    }
}

/// Whatever room the bytes are given, encoding into it and then encoding the
/// pixels that were left gives the state and the bytes of encoding all the
/// pixels at once.
pub proof fn lemma_drive_then_encode(state: EncodeState, pixels: Seq<Pixel>, from: nat, room: nat)
    requires
        from <= pixels.len(),
    ensures
        ({
            let driven = state.drive(pixels, from, room);
            let rest = driven.state.encode(pixels, driven.position);
            &&& rest.state == state.encode(pixels, from).state
            &&& rest.position == state.encode(pixels, from).position
            &&& driven.bytes + rest.bytes == state.encode(pixels, from).bytes
        }),
    decreases pixels.len() - from,
{
    let all = state.encode(pixels, from);
    if from >= pixels.len() {
        assert(Seq::<u8>::empty() + all.bytes =~= all.bytes);
    } else {
        let chunk = state.next_chunk(pixels, from);
        state.lemma_chunk_count(pixels, from);
        if chunk.bytes.len() > room {
            assert(Seq::<u8>::empty() + all.bytes =~= all.bytes);
        } else {
            let next = state.after(pixels[from as int]);
            let room_left = (room - chunk.bytes.len()) as nat;
            lemma_drive_then_encode(next, pixels, from + chunk.count, room_left);
            let inner = next.drive(pixels, from + chunk.count, room_left);
            let rest = inner.state.encode(pixels, inner.position);
            assert((chunk.bytes + inner.bytes) + rest.bytes =~= chunk.bytes + (inner.bytes
                + rest.bytes));
        }
    }
}

/// The size of the window for the bytes does not matter: with room for the
/// longest chunk, the calls that a caller makes on one image yield the bytes
/// of encoding it at once, and end in the same state behind the last pixel.
pub proof fn lemma_session_is_encode(state: EncodeState, pixels: Seq<Pixel>, from: nat, room: nat)
    requires
        state.wf(),
        from <= pixels.len(),
        room >= 5,
    ensures
        state.session(pixels, from, room) == state.encode(pixels, from),
        state.session(pixels, from, room).position == pixels.len(),
    decreases pixels.len() - from,
{
    let first = state.drive(pixels, from, room);
    lemma_drive_bounds(state, pixels, from, room);
    lemma_drive_then_encode(state, pixels, from, room);
    lemma_encode_bounds(state, pixels, from);
    if from < first.position < pixels.len() {
        lemma_session_is_encode(first.state, pixels, first.position, room);
    } else {
        assert(first.position == pixels.len());
        assert(first.bytes + Seq::<u8>::empty() =~= first.bytes);
    }
}

/// Two windows of different sizes give the same result.
pub proof fn lemma_session_any_room(
    state: EncodeState,
    pixels: Seq<Pixel>,
    from: nat,
    room: nat,
    other: nat,
)
    requires
        state.wf(),
        from <= pixels.len(),
        room >= 5,
        other >= 5,
    ensures
        state.session(pixels, from, room) == state.session(pixels, from, other),
{
    lemma_session_is_encode(state, pixels, from, room);
    lemma_session_is_encode(state, pixels, from, other);
}

} // verus!
