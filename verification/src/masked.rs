//! The power-of-two variant: capacity restricted to an exact power of two,
//! cursors mapped onto slots by a bitmask instead of a division.

use vstd::arithmetic::power2::{
    lemma2_to64, lemma2_to64_rest, lemma_pow2_strictly_increases, lemma_pow2_unfold, pow2,
};
use vstd::bits::{lemma_u64_low_bits_mask_is_mod, low_bits_mask};
use vstd::prelude::*;

use crate::ring::{lemma_contents_pop, lemma_contents_push, ring_contents, RingBuffer};

verus! {

/// Whether `c` has exactly one set bit, that is, is a power of two.
pub open spec fn is_power_of_two(c: u64) -> bool {
    c != 0 && (c & ((c - 1) as u64)) == 0
}

/// Every 64-bit power of two is `pow2(n)` for some exponent below 64.
proof fn lemma_power_of_two_exponent(c: u64)
    requires
        is_power_of_two(c),
    ensures
        exists|n: nat| n < 64 && c == pow2(n),
    decreases c,
{
    if c == 1 {
        assert(pow2(0) == 1) by {
            lemma2_to64();
        };
        assert(0 < 64 && c == pow2(0));
    } else {
        let h = c >> 1u64;
        assert(c >> 1u64 != 0 && ((c >> 1u64) & (((c >> 1u64) - 1) as u64)) == 0 && c == 2 * (c
            >> 1u64)) by (bit_vector)
            requires
                c != 0 && (c & ((c - 1) as u64)) == 0 && c != 1,
        ;
        lemma_power_of_two_exponent(h);
        let n = choose|n: nat| n < 64 && h == pow2(n);
        assert(pow2(n + 1) == 2 * pow2(n)) by {
            lemma_pow2_unfold(n + 1);
        };
        if n + 1 >= 64 {
            assert(pow2(63) == 0x8000000000000000) by {
                lemma2_to64_rest();
            };
            if n > 63 {
                lemma_pow2_strictly_increases(63, n);
            }
            assert(false);
        }
        assert(n + 1 < 64 && c == pow2(n + 1));
    }
}

/// For a power-of-two capacity, masking a cursor with `capacity - 1` and
/// taking its remainder by `capacity` agree on every cursor value.  The
/// masked variant therefore picks exactly the slots the generic variant
/// picks: since both variants promise the same contract over the same
/// abstract model, the mask is purely a performance choice, never a change
/// of behaviour.
pub proof fn lemma_pow2_mask_eq_mod(x: u64, c: u64)
    requires
        is_power_of_two(c),
    ensures
        (x & ((c - 1) as u64)) == x % c,
{
    lemma_power_of_two_exponent(c);
    let n = choose|n: nat| n < 64 && c == pow2(n);
    lemma_u64_low_bits_mask_is_mod(x, n);
    assert(low_bits_mask(n) == c - 1);
    assert((pow2(n) as u64) == c);
}

/// A circular buffer whose capacity must be a power of two; each cursor is
/// mapped to a slot by one bitwise-and per operation.
pub struct RingBuffer1 {
    buffer: Vec<i32>,
    read_idx: u64,
    write_idx: u64,
}

impl RingBuffer1 {
    /// Builds an empty buffer with exactly `size` zero-filled slots.
    ///
    /// A capacity that is not a power of two is a programming error, ruled
    /// out by the precondition; `try_new` offers the same construction with
    /// the power-of-two test made at run time.
    pub fn new(size: usize) -> (rb: RingBuffer1)
        requires
            is_power_of_two(size as u64),
        ensures
            rb.inv(),
            rb.capacity() == size,
            rb.contents() == Seq::<i32>::empty(),
            rb.read_cursor() == 0,
            rb.write_cursor() == 0,
    {
        let rb = RingBuffer1 { buffer: vec![0; size], read_idx: 0, write_idx: 0 };
        proof {
            assert(rb.contents() =~= Seq::<i32>::empty());
        }
        rb
    }

    /// Builds an empty buffer with `size` slots when `size` is a power of
    /// two, and refuses any other size.
    pub fn try_new(size: usize) -> (r: Option<RingBuffer1>)
        ensures
            r is Some <==> is_power_of_two(size as u64),
            r matches Some(rb) ==> rb.inv() && rb.capacity() == size && rb.contents()
                == Seq::<i32>::empty() && rb.read_cursor() == 0 && rb.write_cursor() == 0,
    {
        let c = size as u64;
        if c != 0 && (c & (c - 1)) == 0 {
            Some(RingBuffer1::new(size))
        } else {
            None
        }
    }
}

impl RingBuffer for RingBuffer1 {
    closed spec fn inv(&self) -> bool {
        &&& is_power_of_two(self.buffer.len() as u64)
        &&& self.read_idx <= self.write_idx
        &&& self.write_idx - self.read_idx <= self.buffer.len()
    }

    closed spec fn capacity(&self) -> nat {
        self.buffer.len() as nat
    }

    closed spec fn read_cursor(&self) -> u64 {
        self.read_idx
    }

    closed spec fn write_cursor(&self) -> u64 {
        self.write_idx
    }

    closed spec fn contents(&self) -> Seq<i32> {
        ring_contents(self.buffer@, self.read_idx, self.write_idx)
    }

    proof fn lemma_cursor_accounting(&self) {
    }

    fn enqueue(&mut self, item: i32) -> (ok: bool) {
        let len = self.buffer.len();
        if self.write_idx - self.read_idx == len as u64 {
            false
        } else {
            let slot = (self.write_idx & (len as u64 - 1)) as usize;
            proof {
                lemma_pow2_mask_eq_mod(self.write_idx, len as u64);
            }
            self.buffer[slot] = item;
            self.write_idx = self.write_idx + 1;
            proof {
                lemma_contents_push(
                    old(self).buffer@,
                    self.buffer@,
                    old(self).read_idx,
                    old(self).write_idx,
                    item,
                );
            }
            true
        }
    }

    fn dequeue(&mut self) -> (taken: Option<i32>) {
        if self.write_idx == self.read_idx {
            None
        } else {
            let len = self.buffer.len();
            let slot = (self.read_idx & (len as u64 - 1)) as usize;
            proof {
                lemma_pow2_mask_eq_mod(self.read_idx, len as u64);
            }
            let item = self.buffer[slot];
            self.read_idx = self.read_idx + 1;
            proof {
                lemma_contents_pop(self.buffer@, old(self).read_idx, self.write_idx);
            }
            Some(item)
        }
    }
}

} // verus!
