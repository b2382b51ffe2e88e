//! What holds of decoding however the input is cut into pieces and whatever
//! room the pixels are given.

use vstd::prelude::*;
use crate::decode_model::{chunk_size, is_run, run_length, DecodeState, Decoded, Progress, Step};

verus! {

/// A run tag opens a run of 1 to 62 pixels.
pub proof fn lemma_run_length(tag: u8)
    requires
        is_run(tag),
    ensures
        1 <= run_length(tag) <= 62,
        run_length(tag) == tag - 191,
{
    assert(192 <= tag <= 253 ==> (tag & 0x3f) == tag - 192) by (bit_vector);
}

/// One byte takes a well-formed state with no open run to a well-formed
/// state, and yields at most one pixel, which is counted.
pub proof fn lemma_absorb_wf(state: DecodeState, byte: u8)
    requires
        state.wf(),
        state.run == 0,
    ensures
        state.absorb(byte).state.wf(),
        state.absorb(byte).pixels.len() <= 1,
        state.absorb(byte).state.remaining + state.absorb(byte).pixels.len() == state.remaining,
{
    let chunk = state.partial.push(byte);
    assert(chunk[0] == if state.partial.len() > 0 {
        state.partial[0]
    } else {
        byte
    });
    if state.remaining > 0 && chunk.len() >= chunk_size(chunk[0]) && is_run(chunk[0]) {
        lemma_run_length(chunk[0]);
    }
}

/// One pixel of a run takes a well-formed state to a well-formed state.
pub proof fn lemma_run_step_wf(state: DecodeState)
    requires
        state.wf(),
        state.run > 0,
    ensures
        state.run_step().wf(),
        state.run_step().remaining + 1 == state.remaining,
{
}

/// Decoding into a bounded window keeps the state well formed, takes no more
/// input than there is, yields no more pixels than there is room for, and
/// counts each of them.
pub proof fn lemma_drive_wf(state: DecodeState, input: Seq<u8>, room: nat)
    requires
        state.wf(),
    ensures
        state.drive(input, room).state.wf(),
        state.drive(input, room).consumed <= input.len(),
        state.drive(input, room).pixels.len() <= room,
        state.drive(input, room).state.remaining + state.drive(input, room).pixels.len()
            == state.remaining,
    decreases input.len(), state.run,
{
    if state.remaining == 0 || room == 0 {
    } else if state.run > 0 {
        lemma_run_step_wf(state);
        lemma_drive_wf(state.run_step(), input, (room - 1) as nat);
    } else if input.len() == 0 {
    } else {
        lemma_absorb_wf(state, input[0]);
        let first = state.absorb(input[0]);
        lemma_drive_wf(first.state, input.drop_first(), (room - first.pixels.len()) as nat);
    }
}

/// Decoding into a bounded window stops only where it must: after the last
/// pixel, when the room is used up, or when no run is open and no input is
/// left.
pub proof fn lemma_drive_stops(state: DecodeState, input: Seq<u8>, room: nat)
    requires
        state.wf(),
    ensures
        ({
            let driven = state.drive(input, room);
            ||| driven.state.remaining == 0
            ||| driven.pixels.len() == room
            ||| (driven.state.run == 0 && driven.consumed == input.len())
        }),
    decreases input.len(), state.run,
{
    if state.remaining == 0 || room == 0 {
    } else if state.run > 0 {
        lemma_run_step_wf(state);
        lemma_drive_stops(state.run_step(), input, (room - 1) as nat);
    } else if input.len() == 0 {
    } else {
        lemma_absorb_wf(state, input[0]);
        let first = state.absorb(input[0]);
        lemma_drive_stops(first.state, input.drop_first(), (room - first.pixels.len()) as nat);
    }
}

/// Decoding keeps the state well formed and counts each pixel.
pub proof fn lemma_decode_wf(state: DecodeState, input: Seq<u8>)
    requires
        state.wf(),
    ensures
        state.decode(input).state.wf(),
        state.decode(input).state.run == 0,
        state.decode(input).state.remaining + state.decode(input).pixels.len() == state.remaining,
    decreases input.len(), state.run,
{
    if state.run > 0 && state.remaining > 0 {
        lemma_run_step_wf(state);
        lemma_decode_wf(state.run_step(), input);
    } else if input.len() == 0 {
    } else {
        lemma_absorb_wf(state, input[0]);
        lemma_decode_wf(state.absorb(input[0]).state, input.drop_first());
    }
}

/// After the last pixel every byte joins the tail and no pixel comes.
pub proof fn lemma_decode_tail(state: DecodeState, input: Seq<u8>)
    requires
        state.remaining == 0,
    ensures
        state.decode(input) == (Decoded {
            state: DecodeState { tail: state.tail + input, ..state },
            pixels: Seq::empty(),
        }),
    decreases input.len(),
{
    if input.len() == 0 {
        assert(state.tail + input =~= state.tail);
    } else {
        let first = state.absorb(input[0]);
        lemma_decode_tail(first.state, input.drop_first());
        assert(state.tail.push(input[0]) + input.drop_first() =~= state.tail + input);
        assert(first.pixels + Seq::<crate::pixel::Pixel>::empty() =~= Seq::empty());
    }
}

/// Input may be cut anywhere, also within a chunk or a run: decoding the
/// first piece and then the second from the state that the first left gives
/// the state and the pixels of decoding both at once.
pub proof fn lemma_decode_split(state: DecodeState, first: Seq<u8>, second: Seq<u8>)
    ensures
        state.decode(first + second).state == state.decode(first).state.decode(second).state,
        state.decode(first + second).pixels == state.decode(first).pixels + state.decode(
            first,
        ).state.decode(second).pixels,
    decreases first.len(), state.run,
{
    let whole = first + second;
    if state.run > 0 && state.remaining > 0 {
        lemma_decode_split(state.run_step(), first, second);
        let a = state.run_step().decode(first);
        assert(seq![state.previous] + (a.pixels + a.state.decode(second).pixels) =~= (
            seq![state.previous] + a.pixels) + a.state.decode(second).pixels);
    } else if first.len() == 0 {
        assert(whole =~= second);
        assert(Seq::<crate::pixel::Pixel>::empty() + state.decode(second).pixels
            =~= state.decode(second).pixels);
    } else {
        assert(whole[0] == first[0]);
        assert(whole.drop_first() =~= first.drop_first() + second);
        let head = state.absorb(first[0]);
        lemma_decode_split(head.state, first.drop_first(), second);
        let a = head.state.decode(first.drop_first());
        assert(head.pixels + (a.pixels + a.state.decode(second).pixels) =~= (head.pixels
            + a.pixels) + a.state.decode(second).pixels);
    }
}

/// Whatever room the pixels are given, decoding into it and then decoding
/// the input that was left gives the state and the pixels of decoding all
/// the input at once.
pub proof fn lemma_drive_then_decode(state: DecodeState, input: Seq<u8>, room: nat)
    ensures
        ({
            let driven = state.drive(input, room);
            let rest = driven.state.decode(input.skip(driven.consumed as int));
            &&& driven.consumed <= input.len()
            &&& rest.state == state.decode(input).state
            &&& driven.pixels + rest.pixels == state.decode(input).pixels
        }),
    decreases input.len(), state.run,
{
    let driven = state.drive(input, room);
    if state.remaining == 0 || room == 0 {
        assert(input.skip(0) =~= input);
        assert(Seq::<crate::pixel::Pixel>::empty() + state.decode(input).pixels
            =~= state.decode(input).pixels);
    } else if state.run > 0 {
        lemma_drive_then_decode(state.run_step(), input, (room - 1) as nat);
        let inner = state.run_step().drive(input, (room - 1) as nat);
        let rest = inner.state.decode(input.skip(inner.consumed as int));
        assert((seq![state.previous] + inner.pixels) + rest.pixels =~= seq![state.previous] + (
            inner.pixels + rest.pixels));
    } else if input.len() == 0 {
        assert(input.skip(0) =~= input);
        assert(Seq::<crate::pixel::Pixel>::empty() + state.decode(input).pixels
            =~= state.decode(input).pixels);
    } else {
        let head = state.absorb(input[0]);
        let room_left = (room - head.pixels.len()) as nat;
        lemma_drive_then_decode(head.state, input.drop_first(), room_left);
        let inner = head.state.drive(input.drop_first(), room_left);
        assert(input.drop_first().skip(inner.consumed as int) =~= input.skip(
            (inner.consumed + 1) as int,
        ));
        let rest = inner.state.decode(input.skip((inner.consumed + 1) as int));
        assert((head.pixels + inner.pixels) + rest.pixels =~= head.pixels + (inner.pixels
            + rest.pixels));
    }
}

/// The size of the window for the pixels does not matter: with room for at
/// least one pixel, the calls that a caller makes on one input end as
/// decoding all of it at once ends, and yield the same pixels.
pub proof fn lemma_session_is_decode(state: DecodeState, input: Seq<u8>, room: nat)
    requires
        state.wf(),
        room >= 1,
    ensures
        state.session(input, room) == (Step {
            progress: state.decode(input).state.verdict(),
            pixels: state.decode(input).pixels,
        }),
    decreases state.remaining,
{
    let driven = state.drive(input, room);
    let rest = input.skip(driven.consumed as int);
    let first = state.step(input, room);
    lemma_drive_wf(state, input, room);
    lemma_drive_stops(state, input, room);
    lemma_drive_then_decode(state, input, room);
    if driven.state.remaining == 0 {
        lemma_decode_tail(driven.state, rest);
        assert(driven.pixels + Seq::<crate::pixel::Pixel>::empty() =~= driven.pixels);
    } else if rest.len() == 0 && driven.state.run == 0 {
        assert(driven.pixels + Seq::<crate::pixel::Pixel>::empty() =~= driven.pixels);
    } else {
        assert(driven.pixels.len() == room);
        lemma_session_is_decode(driven.state, rest, room);
    }
}

/// Two windows of different sizes give the same result.
pub proof fn lemma_session_any_room(state: DecodeState, input: Seq<u8>, room: nat, other: nat)
    requires
        state.wf(),
        room >= 1,
        other >= 1,
    ensures
        state.session(input, room) == state.session(input, other),
{
    lemma_session_is_decode(state, input, room);
    lemma_session_is_decode(state, input, other);
}

/// Feeding the input one byte at a time yields the pixels of feeding it all
/// at once, and where the decoder then waits for input, it waits in the same
/// state.
pub proof fn lemma_bytewise_is_decode(state: DecodeState, input: Seq<u8>, room: nat)
    requires
        state.wf(),
        state.run == 0,
        room >= 1,
    ensures
        state.feed_bytewise(input, room).pixels == state.decode(input).pixels,
        state.feed_bytewise(input, room).pixels == state.session(input, room).pixels,
        state.feed_bytewise(input, room).progress is AwaitInput ==> state.feed_bytewise(
            input,
            room,
        ).progress == Progress::AwaitInput(state.decode(input).state),
    decreases input.len(),
{
    lemma_session_is_decode(state, input, room);
    if input.len() == 0 {
    } else {
        let head = seq![input[0]];
        let tail = input.drop_first();
        assert(head + tail =~= input);
        lemma_session_is_decode(state, head, room);
        lemma_decode_split(state, head, tail);
        lemma_decode_wf(state, head);
        let first = state.decode(head);
        if first.state.verdict() is AwaitInput {
            lemma_bytewise_is_decode(first.state, tail, room);
        } else {
            lemma_decode_tail(first.state, tail);
            assert(first.pixels + Seq::<crate::pixel::Pixel>::empty() =~= first.pixels);
        }
    }
}

} // verus!
