//! The request buffer: a byte container of fixed capacity that tracks how
//! much of it is in use, and refuses reads and writes outside those bounds.

use vstd::prelude::*;
use vstd::slice::*;
use crate::error::ShardError;

verus! {

/// A bounded buffer that holds a request and, behind it, the response.
pub struct RequestBuffer {
    bytes: Vec<u8>,
    capacity: usize,
}

impl RequestBuffer {
    /// The buffer's invariant: the payload fits in the capacity.
    pub closed spec fn wf(self) -> bool {
        self.bytes@.len() <= self.capacity
    }

    /// What the invariant says in terms of the payload and the capacity.
    pub proof fn lemma_wf(self)
        ensures
            self.wf() <==> self.payload().len() <= self.spec_capacity(),
            self.spec_capacity() <= usize::MAX,
    {
    }

    /// The bytes in use.
    pub closed spec fn payload(self) -> Seq<u8> {
        self.bytes@
    }

    /// The most bytes that the buffer can hold.
    pub closed spec fn spec_capacity(self) -> nat {
        self.capacity as nat
    }

    /// An empty buffer that can hold `capacity` bytes.
    pub fn new(capacity: usize) -> (buffer: RequestBuffer)
        ensures
            buffer.wf(),
            buffer.payload() == Seq::<u8>::empty(),
            buffer.spec_capacity() == capacity,
    {
        RequestBuffer { bytes: Vec::new(), capacity }
    }

    /// A buffer of the given capacity that holds `bytes`, or `BufferOverflow`
    /// if they do not fit.
    pub fn from_bytes(bytes: &[u8], capacity: usize) -> (outcome: Result<RequestBuffer, ShardError>)
        ensures
            bytes@.len() <= capacity <==> outcome is Ok,
            outcome matches Ok(buffer) ==> buffer.wf() && buffer.payload() == bytes@
                && buffer.spec_capacity() == capacity,
            outcome matches Err(error) ==> error == ShardError::BufferOverflow,
    {
        if bytes.len() > capacity {
            return Err(ShardError::BufferOverflow);
        }
        Ok(RequestBuffer { bytes: slice_to_vec(bytes), capacity })
    }

    /// The number of bytes in use.
    pub fn len(&self) -> (len: usize)
        ensures
            len == self.payload().len(),
    {
        self.bytes.len()
    }

    /// The most bytes that the buffer can hold.
    pub fn capacity(&self) -> (capacity: usize)
        ensures
            capacity == self.spec_capacity(),
    {
        self.capacity
    }

    /// The bytes in use.
    pub fn as_slice(&self) -> (bytes: &[u8])
        ensures
            bytes@ == self.payload(),
    {
        self.bytes.as_slice()
    }

    /// Reads the byte at `at`, or fails with `TruncatedBuffer` if the payload
    /// ends before it.
    pub fn read_u8(&self, at: usize) -> (outcome: Result<u8, ShardError>)
        ensures
            outcome == if at < self.payload().len() {
                Ok::<u8, ShardError>(self.payload()[at as int])
            } else {
                Err::<u8, ShardError>(ShardError::TruncatedBuffer)
            },
    {
        if at < self.bytes.len() {
            Ok(self.bytes[at])
        } else {
            Err(ShardError::TruncatedBuffer)
        }
    }

    /// Reads `count` bytes from `at` on, or fails with `TruncatedBuffer` if
    /// the payload ends before the last of them.
    pub fn read_bytes(&self, at: usize, count: usize) -> (outcome: Result<&[u8], ShardError>)
        ensures
            at + count <= self.payload().len() <==> outcome is Ok,
            outcome matches Ok(bytes) ==> bytes@ == self.payload().subrange(
                at as int,
                at + count,
            ),
            outcome matches Err(error) ==> error == ShardError::TruncatedBuffer,
    {
        let len: usize = self.bytes.len();
        if at > len || count > len - at {
            return Err(ShardError::TruncatedBuffer);
        }
        Ok(slice_subrange(self.bytes.as_slice(), at, at + count))
    }

    /// Appends `bytes` behind the payload and returns the offset at which
    /// they start, or fails with `BufferOverflow`, leaving the buffer as it
    /// was, if they do not fit.
    pub fn append(&mut self, bytes: &[u8]) -> (outcome: Result<usize, ShardError>)
        requires
            old(self).wf(),
        ensures
            final(self).wf(),
            final(self).spec_capacity() == old(self).spec_capacity(),
            old(self).payload().len() + bytes@.len() <= old(self).spec_capacity() <==> outcome
                is Ok,
            outcome matches Ok(offset) ==> offset == old(self).payload().len(),
            outcome is Ok ==> final(self).payload() == old(self).payload() + bytes@,
            outcome matches Err(error) ==> error == ShardError::BufferOverflow && *final(self)
                == *old(self),
    {
        let offset: usize = self.bytes.len();
        if bytes.len() > self.capacity - offset {
            return Err(ShardError::BufferOverflow);
        }
        let mut i: usize = 0;
        while i < bytes.len()
            invariant
                i <= bytes@.len(),
                offset + bytes@.len() <= self.capacity,
                self.capacity == old(self).capacity,
                self.bytes@ == old(self).bytes@ + bytes@.take(i as int),
            decreases bytes@.len() - i,
        {
            self.bytes.push(bytes[i]);
            assert(bytes@.take(i + 1) =~= bytes@.take(i as int).push(bytes@[i as int]));
            i = i + 1;
        }
        assert(bytes@.take(i as int) =~= bytes@);
        Ok(offset)
    }
}

} // verus!
