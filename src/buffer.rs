//! The receive buffer that every datagram passes through.
use vstd::prelude::*;
use crate::frame::{frame_bytes, frame_datagram, words_of, FrameError};

verus! {

/// Bytes that the receive buffer holds.
pub const BUFFER_CAPACITY: usize = 1024;

/// `n` zero bytes.
pub open spec fn zeros(n: nat) -> Seq<u8> {
    Seq::new(n, |i: int| 0u8)
}

/// Buffer contents after a datagram `data` is received into `buf`: as much
/// of `data` as fits overwrites the front, the rest of `buf` stays.
pub open spec fn after_receive(buf: Seq<u8>, data: Seq<u8>) -> Seq<u8> {
    let n = if data.len() <= buf.len() { data.len() } else { buf.len() };
    data.take(n as int) + buf.skip(n as int)
}

/// A fixed-capacity buffer reused for every datagram. It is framed whole, so
/// the bytes past a datagram are read too; processing zero-fills it.
pub struct DatagramBuffer {
    bytes: Vec<u8>,
}

impl View for DatagramBuffer {
    type V = Seq<u8>;

    closed spec fn view(&self) -> Seq<u8> {
        self.bytes@
    }
}

impl DatagramBuffer {
    /// The buffer holds exactly its capacity.
    pub open spec fn wf(&self) -> bool {
        self@.len() == BUFFER_CAPACITY
    }

    /// A zero-filled buffer.
    pub fn new() -> (r: Self)
        ensures
            r.wf(),
            r@ == zeros(BUFFER_CAPACITY as nat),
    {
        let mut bytes: Vec<u8> = Vec::new();
        while bytes.len() < BUFFER_CAPACITY
            invariant
                bytes@.len() <= BUFFER_CAPACITY,
                bytes@ == zeros(bytes@.len()),
            decreases BUFFER_CAPACITY - bytes@.len(),
        {
            bytes.push(0);
            assert(bytes@ =~= zeros(bytes@.len()));
        }
        DatagramBuffer { bytes }
    }

    /// Copies a received datagram over the front of the buffer, cutting it
    /// at the capacity as a datagram socket does; returns how many bytes
    /// were taken.
    pub fn receive(&mut self, data: &[u8]) -> (n: usize)
        requires
            old(self).wf(),
        ensures
            final(self).wf(),
            final(self)@ == after_receive(old(self)@, data@),
            n == if data@.len() <= BUFFER_CAPACITY { data@.len() } else { BUFFER_CAPACITY as nat },
    {
        let n: usize = if data.len() <= BUFFER_CAPACITY { data.len() } else { BUFFER_CAPACITY };
        let mut i: usize = 0;
        while i < n
            invariant
                n <= data@.len(),
                n <= BUFFER_CAPACITY,
                i <= n,
                self.bytes@.len() == BUFFER_CAPACITY,
                forall|j: int| 0 <= j < i ==> self.bytes@[j] == data@[j],
                forall|j: int| i <= j < BUFFER_CAPACITY ==> self.bytes@[j] == old(self)@[j],
            decreases n - i,
        {
            self.bytes.set(i, data[i]);
            i = i + 1;
        }
        assert(self.bytes@ =~= after_receive(old(self)@, data@));
        n
    }

    /// Frames the whole buffer, then zero-fills it so that nothing of this
    /// datagram is read again with the next one.
    pub fn process(&mut self) -> (r: Result<Vec<u32>, FrameError>)
        requires
            old(self).wf(),
        ensures
            words_of(r) == frame_bytes(old(self)@),
            final(self).wf(),
            final(self)@ == zeros(BUFFER_CAPACITY as nat),
    {
        let r = frame_datagram(self.bytes.as_slice());
        let mut i: usize = 0;
        while i < self.bytes.len()
            invariant
                self.bytes@.len() == BUFFER_CAPACITY,
                i <= BUFFER_CAPACITY,
                forall|j: int| 0 <= j < i ==> self.bytes@[j] == 0u8,
            decreases BUFFER_CAPACITY - i,
        {
            self.bytes.set(i, 0);
            i = i + 1;
        }
        assert(self.bytes@ =~= zeros(BUFFER_CAPACITY as nat));
        r
    }
}

/// Processing leaves the buffer zero-filled whatever an earlier, longer
/// datagram put in it; a datagram received after that is framed as itself
/// followed by zero bytes alone, so no byte of the earlier one is read.
pub proof fn lemma_reset_hides_earlier(data: Seq<u8>)
    requires
        data.len() <= BUFFER_CAPACITY,
    ensures
        after_receive(zeros(BUFFER_CAPACITY as nat), data) == data + zeros(
            (BUFFER_CAPACITY - data.len()) as nat,
        ),
        frame_bytes(after_receive(zeros(BUFFER_CAPACITY as nat), data)) == frame_bytes(
            data + zeros((BUFFER_CAPACITY - data.len()) as nat),
        ),
{
    assert(after_receive(zeros(BUFFER_CAPACITY as nat), data) =~= data + zeros(
        (BUFFER_CAPACITY - data.len()) as nat,
    ));
}

} // verus!
