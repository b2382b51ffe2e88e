//! Byte-slice helpers shared by the header codec and the decoder.

use vstd::prelude::*;

verus! {

/// Whether `second` starts with the bytes of `first`.
pub fn is_identical(first: &[u8], second: &[u8]) -> (same: bool)
    requires
        first@.len() <= second@.len(),
    ensures
        same == (first@ == second@.subrange(0, first@.len() as int)),
{
    let mut index: usize = 0;
    while index != first.len()
        invariant
            index <= first@.len() <= second@.len(),
            forall|i: int| 0 <= i < index ==> first@[i] == second@[i],
        decreases first@.len() - index,
    {
        if first[index] != second[index] {
            return false;
        }
        index += 1;
    }
    assert(first@ =~= second@.subrange(0, first@.len() as int));
    true
}

/// The `N` bytes of `input` that start at `input_index`.
pub fn array_from_input<const N: usize>(input: &[u8], input_index: usize) -> (output: [u8; N])
    requires
        input_index + N <= input@.len(),
    ensures
        output@ == input@.subrange(input_index as int, input_index + N),
{
    let length: usize = input.len();
    let mut output = [0u8;N];
    let mut output_index: usize = 0;
    while output_index != N
        invariant
            output_index <= N,
            input_index + N <= input@.len() == length,
            forall|i: int| 0 <= i < output_index ==> output@[i] == input@[input_index + i],
        decreases N - output_index,
    {
        output[output_index] = input[input_index + output_index];
        output_index += 1;
    }
    assert(output@ =~= input@.subrange(input_index as int, input_index + N));
    output
}

} // verus!
