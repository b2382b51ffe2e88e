//! The two byte windows that the codec works through: one that is read from a
//! cursor on, one that is filled from the front.

use vstd::prelude::*;

verus! {

/// A window of `capacity` valid bytes with a read cursor at `index`.
#[derive(Clone, Copy)]
pub struct QoiInputBuffer<const N: usize> {
    pub data: [u8; N],
    pub capacity: usize,
    pub index: usize,
}

impl<const N: usize> QoiInputBuffer<N> {
    /// The cursor lies within the valid bytes and those within the array.
    pub open spec fn wf(self) -> bool {
        self.index <= self.capacity <= N
    }

    /// The valid bytes that have not been read yet.
    pub open spec fn unread(self) -> Seq<u8> {
        self.data@.subrange(self.index as int, self.capacity as int)
    }

    /// Replaces the front of the window by `input`, which becomes the valid
    /// bytes, and moves the cursor to the start.
    pub fn write_bytes(self, input: &[u8]) -> (buffer: Self)
        requires
            input@.len() <= N,
        ensures
            buffer.capacity == input@.len(),
            buffer.index == 0,
            buffer.data@ == input@ + self.data@.skip(input@.len() as int),
            buffer.unread() == input@,
    {
        let mut buffer = self;
        buffer.capacity = input.len();
        buffer.index = 0;
        let mut index: usize = 0;
        while index < input.len()
            invariant
                index <= input@.len() <= N,
                buffer.capacity == input@.len(),
                buffer.index == 0,
                forall|i: int| 0 <= i < index ==> buffer.data@[i] == input@[i],
                forall|i: int| index <= i < N ==> buffer.data@[i] == self.data@[i],
            decreases input@.len() - index,
        {
            buffer.data[index] = input[index];
            index += 1;
        }
        assert(buffer.data@ =~= input@ + self.data@.skip(input@.len() as int));
        assert(buffer.unread() =~= input@);
        buffer
    }

    /// Reads the byte under the cursor and moves the cursor behind it.
    pub fn read_byte(self) -> (read: (Self, u8))
        requires
            self.index < self.capacity <= N,
        ensures
            read.1 == self.data@[self.index as int],
            read.1 == self.unread()[0],
            read.0.data == self.data,
            read.0.capacity == self.capacity,
            read.0.index == self.index + 1,
            read.0.unread() == self.unread().drop_first(),
    {
        let mut buffer = self;
        let output = buffer.data[buffer.index];
        buffer.index += 1;
        assert(buffer.unread() =~= self.unread().drop_first());
        (buffer, output)
    }
}

/// A window that is filled from the front, with `space` bytes still free at
/// its end.
#[derive(Clone, Copy)]
pub struct QoiOutputBuffer<const N: usize> {
    pub data: [u8; N],
    pub space: usize,
}

impl<const N: usize> QoiOutputBuffer<N> {
    /// The free space lies within the array.
    pub open spec fn wf(self) -> bool {
        self.space <= N
    }

    /// The bytes appended since the window was last taken.
    pub open spec fn filled(self) -> Seq<u8> {
        self.data@.subrange(0, N - self.space)
    }

    /// Puts `input` into the first free place.
    pub fn append_byte(self, input: u8) -> (buffer: Self)
        requires
            0 < self.space <= N,
        ensures
            buffer.space == self.space - 1,
            buffer.data@ == self.data@.update(N - self.space, input),
            buffer.filled() == self.filled().push(input),
    {
        let mut buffer = self;
        buffer.data[N - buffer.space] = input;
        buffer.space -= 1;
        assert(buffer.filled() =~= self.filled().push(input));
        buffer
    }

    /// Puts the bytes of `input` into the first free places.
    pub fn append_bytes(self, input: &[u8]) -> (buffer: Self)
        requires
            input@.len() <= self.space <= N,
        ensures
            buffer.space == self.space - input@.len(),
            buffer.data@ == self.filled() + input@ + self.data@.skip(
                N - self.space + input@.len(),
            ),
            buffer.filled() == self.filled() + input@,
    {
        let mut buffer = self;
        let mut input_index: usize = 0;
        let mut index: usize = N - buffer.space;
        while input_index < input.len()
            invariant
                input_index <= input@.len() <= self.space <= N,
                index == N - self.space + input_index,
                buffer.space == self.space - input_index,
                forall|i: int| 0 <= i < N - self.space ==> buffer.data@[i] == self.data@[i],
                forall|i: int| 0 <= i < input_index ==> buffer.data@[N - self.space + i] == input@[i],
                forall|i: int| index <= i < N ==> buffer.data@[i] == self.data@[i],
            decreases input@.len() - input_index,
        {
            buffer.data[index] = input[input_index];
            input_index += 1;
            index += 1;
            buffer.space -= 1;
        }
        assert(buffer.data@ =~= self.filled() + input@ + self.data@.skip(
            N - self.space + input@.len(),
        ));
        assert(buffer.filled() =~= self.filled() + input@);
        buffer
    }

    /// Hands out the whole array and marks the window as empty. The bytes
    /// stay where they are until they are overwritten.
    pub fn get_all_bytes(self) -> (taken: (Self, [u8; N]))
        ensures
            taken.1 == self.data,
            taken.0.data == self.data,
            taken.0.space == N,
    {
        let mut buffer = self;
        buffer.space = N;
        (buffer, buffer.data)
    }
}

} // verus!
