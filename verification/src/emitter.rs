use vstd::prelude::*;

verus! {

/// The recycle ring of the capture path: a bounded store of byte
/// buffers that have been sent and returned by the transport, so that
/// steady-state capture allocates nothing. On each capture tick the
/// emitter pops a buffer (or allocates when the ring is empty), lets
/// the converter fill it, sends it, and pushes it back once the
/// transport has copied the bytes.
pub struct RecycleRing {
    slots: Vec<Vec<u8>>,
    capacity: usize,
}

impl RecycleRing {
    /// How many buffers the ring currently stores.
    pub closed spec fn stored(&self) -> nat {
        self.slots@.len()
    }

    /// The bound the ring was created with.
    pub closed spec fn capacity(&self) -> usize {
        self.capacity
    }

    /// The ring never stores more buffers than its bound.
    pub open spec fn wf(&self) -> bool {
        self.stored() <= self.capacity()
    }

    /// An empty ring bounded at `capacity` buffers.
    pub fn new(capacity: usize) -> (r: RecycleRing)
        ensures
            r.wf(),
            r.stored() == 0,
            r.capacity() == capacity,
    {
        RecycleRing { slots: Vec::new(), capacity }
    }

    /// How many buffers are waiting to be reused.
    pub fn stored_count(&self) -> (r: usize)
        ensures
            r == self.stored(),
    {
        self.slots.len()
    }

    /// Takes a buffer for the next capture tick: a recycled one when
    /// available, a fresh allocation otherwise. Either way the buffer
    /// comes back empty, ready for the converter to fill.
    pub fn pop(&mut self) -> (r: Vec<u8>)
        requires
            old(self).wf(),
        ensures
            final(self).wf(),
            r@.len() == 0,
            final(self).capacity() == old(self).capacity(),
            final(self).stored() == if old(self).stored() > 0 {
                (old(self).stored() - 1) as nat
            } else {
                0nat
            },
    {
        match self.slots.pop() {
            Some(mut buf) => {
                buf.clear();
                buf
            },
            None => Vec::new(),
        }
    }

    /// Returns a sent buffer to the ring. A full ring drops the buffer,
    /// which bounds the memory the capture path can hold.
    pub fn push(&mut self, buf: Vec<u8>)
        requires
            old(self).wf(),
        ensures
            final(self).wf(),
            final(self).capacity() == old(self).capacity(),
            final(self).stored() == if old(self).stored() < old(self).capacity() {
                old(self).stored() + 1
            } else {
                old(self).stored()
            },
    {
        if self.slots.len() < self.capacity {
            self.slots.push(buf);
        }
    }
}

} // verus!
