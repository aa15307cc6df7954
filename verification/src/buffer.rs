//! The staging buffer: a fixed-capacity byte region with a cursor.
//!
//! Firmware reads can only reach the first megabyte, so sectors bound for a
//! higher address land here first and are copied on in batches. The cursor
//! counts the bytes staged so far and never passes the capacity.

use vstd::prelude::*;

verus! {

/// `n` zero bytes.
pub open spec fn zeros(n: nat) -> Seq<u8> {
    Seq::new(n, |i: int| 0u8)
}

/// A staging area of `BYTE_SIZE` bytes. Its view is the staged bytes: the
/// part of the storage below the cursor.
pub struct DiskBuffer<const BYTE_SIZE: usize> {
    buffer: [u8; BYTE_SIZE],
    cursor: usize,
}

impl<const BYTE_SIZE: usize> View for DiskBuffer<BYTE_SIZE> {
    type V = Seq<u8>;

    open spec fn view(&self) -> Seq<u8> {
        self.storage().subrange(0, self.used() as int)
    }
}

impl<const BYTE_SIZE: usize> DiskBuffer<BYTE_SIZE> {
    #[verifier::type_invariant]
    spec fn cursor_in_bounds(self) -> bool {
        self.cursor <= BYTE_SIZE
    }

    /// All `BYTE_SIZE` bytes of the storage, staged or not.
    pub closed spec fn storage(&self) -> Seq<u8> {
        self.buffer@
    }

    /// The cursor: how many bytes are staged.
    pub closed spec fn used(&self) -> nat {
        self.cursor as nat
    }

    /// An empty buffer whose storage is all zero.
    pub fn new() -> (buffer: Self)
        ensures
            buffer.used() == 0,
            buffer.storage() == zeros(BYTE_SIZE as nat),
    {
        let buffer = Self { buffer: [0; BYTE_SIZE], cursor: 0 };
        assert(buffer.buffer@ =~= zeros(BYTE_SIZE as nat));
        buffer
    }

    /// Number of bytes staged.
    pub fn len(&self) -> (len: usize)
        ensures
            len == self.used(),
            len <= BYTE_SIZE,
            self.storage().len() == BYTE_SIZE,
    {
        proof {
            use_type_invariant(self);
        }
        self.cursor
    }

    /// Number of bytes that can still be staged.
    pub fn space_left(&self) -> (space: usize)
        ensures
            space == BYTE_SIZE - self.used(),
    {
        proof {
            use_type_invariant(self);
        }
        BYTE_SIZE - self.len()
    }

    /// The whole storage, from its first byte.
    pub fn as_ptr(&self) -> (storage: &[u8])
        ensures
            storage@ == self.storage(),
    {
        self.buffer.as_slice()
    }

    /// Zeroes the storage and resets the cursor.
    pub fn clear(&mut self)
        ensures
            final(self).used() == 0,
            final(self).storage() == zeros(BYTE_SIZE as nat),
    {
        proof {
            use_type_invariant(&*self);
        }
        let mut i: usize = 0;
        while i < BYTE_SIZE
            invariant
                i <= BYTE_SIZE,
                self.cursor <= BYTE_SIZE,
                forall|j: int| 0 <= j < i ==> self.buffer@[j] == 0,
            decreases BYTE_SIZE - i,
        {
            self.buffer[i] = 0;
            i += 1;
        }
        self.cursor = 0;
        assert(self.buffer@ =~= zeros(BYTE_SIZE as nat));
    }

    /// Writes `data` into the storage at the cursor, where the next read
    /// lands. The cursor stays where it is until `advance` moves it.
    pub fn store(&mut self, data: &[u8])
        requires
            old(self).used() + data@.len() <= BYTE_SIZE,
        ensures
            final(self).used() == old(self).used(),
            final(self).storage() == old(self).storage().subrange(0, old(self).used() as int)
                + data@ + old(self).storage().subrange(
                (old(self).used() + data@.len()) as int,
                BYTE_SIZE as int,
            ),
    {
        proof {
            use_type_invariant(&*self);
        }
        let ghost before: Seq<u8> = self.buffer@;
        let start: usize = self.cursor;
        let mut i: usize = 0;
        while i < data.len()
            invariant
                i <= data@.len(),
                start == self.cursor,
                start + data@.len() <= BYTE_SIZE,
                forall|j: int| 0 <= j < start ==> self.buffer@[j] == before[j],
                forall|j: int| start <= j < start + i ==> self.buffer@[j] == data@[j - start],
                forall|j: int| start + i <= j < BYTE_SIZE ==> self.buffer@[j] == before[j],
            decreases data@.len() - i,
        {
            self.buffer[start + i] = data[i];
            i += 1;
        }
        assert(self.buffer@ =~= before.subrange(0, start as int) + data@ + before.subrange(
            (start + data@.len()) as int,
            BYTE_SIZE as int,
        ));
    }

    /// Moves the cursor forward by `bytes`. The caller makes room first: the
    /// cursor must not pass the capacity.
    pub fn advance(&mut self, bytes: usize)
        requires
            old(self).used() + bytes <= BYTE_SIZE,
        ensures
            final(self).used() == old(self).used() + bytes,
            final(self).storage() == old(self).storage(),
    {
        self.cursor += bytes;
    }

    /// Copies the staged bytes to the start of `ptr` and leaves the rest of
    /// `ptr` as it was.
    pub fn copy_to_ptr(&self, ptr: &mut [u8])
        requires
            old(ptr)@.len() >= self.used(),
        ensures
            final(ptr)@ == self@ + old(ptr)@.subrange(self.used() as int, old(ptr)@.len() as int),
    {
        proof {
            use_type_invariant(self);
        }
        let mut i: usize = 0;
        while i < self.cursor
            invariant
                i <= self.cursor <= BYTE_SIZE,
                ptr@.len() == old(ptr)@.len(),
                ptr@.len() >= self.cursor,
                forall|j: int| 0 <= j < i ==> ptr@[j] == self.buffer@[j],
                forall|j: int| i <= j < ptr@.len() ==> ptr@[j] == old(ptr)@[j],
            decreases self.cursor - i,
        {
            ptr[i] = self.buffer[i];
            i += 1;
        }
        assert(ptr@ =~= self@ + old(ptr)@.subrange(self.used() as int, old(ptr)@.len() as int));
    }
}

} // verus!
