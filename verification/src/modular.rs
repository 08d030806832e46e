//! The generic-capacity variant: any positive capacity, cursors mapped onto
//! slots by remainder.

use vstd::prelude::*;

use crate::ring::{lemma_contents_pop, lemma_contents_push, ring_contents, RingBuffer};

verus! {

/// A circular buffer whose capacity may be any positive size; each cursor
/// is mapped to a slot by one remainder per operation.
pub struct RingBuffer0 {
    buffer: Vec<i32>,
    read_idx: u64,
    write_idx: u64,
}

impl RingBuffer0 {
    /// Builds an empty buffer with exactly `size` zero-filled slots.
    pub fn new(size: usize) -> (rb: RingBuffer0)
        requires
            0 < size,
        ensures
            rb.inv(),
            rb.capacity() == size,
            rb.contents() == Seq::<i32>::empty(),
            rb.read_cursor() == 0,
            rb.write_cursor() == 0,
    {
        let rb = RingBuffer0 { buffer: vec![0; size], read_idx: 0, write_idx: 0 };
        proof {
            assert(rb.contents() =~= Seq::<i32>::empty());
        }
        rb
    }
}

impl RingBuffer for RingBuffer0 {
    closed spec fn inv(&self) -> bool {
        &&& 0 < self.buffer.len()
        &&& self.read_idx <= self.write_idx
        &&& self.write_idx - self.read_idx <= self.buffer.len()
    }

    closed spec fn capacity(&self) -> nat {
        self.buffer.len() as nat
    }

    closed spec fn read_cursor(&self) -> u64 {
        self.read_idx
    }

    closed spec fn write_cursor(&self) -> u64 {
        self.write_idx
    }

    closed spec fn contents(&self) -> Seq<i32> {
        ring_contents(self.buffer@, self.read_idx, self.write_idx)
    }

    proof fn lemma_cursor_accounting(&self) {
    }

    fn enqueue(&mut self, item: i32) -> (ok: bool) {
        let len = self.buffer.len();
        if self.write_idx - self.read_idx == len as u64 {
            false
        } else {
            let slot = (self.write_idx % (len as u64)) as usize;
            self.buffer[slot] = item;
            self.write_idx = self.write_idx + 1;
            proof {
                lemma_contents_push(
                    old(self).buffer@,
                    self.buffer@,
                    old(self).read_idx,
                    old(self).write_idx,
                    item,
                );
            }
            true
        }
    }

    fn dequeue(&mut self) -> (taken: Option<i32>) {
        if self.write_idx == self.read_idx {
            None
        } else {
            let len = self.buffer.len();
            let slot = (self.read_idx % (len as u64)) as usize;
            let item = self.buffer[slot];
            self.read_idx = self.read_idx + 1;
            proof {
                lemma_contents_pop(self.buffer@, old(self).read_idx, self.write_idx);
            }
            Some(item)
        }
    }
}

} // verus!
