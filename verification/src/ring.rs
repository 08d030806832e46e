//! The shared shape of a circular buffer: fixed storage, two monotonically
//! non-decreasing cursors, and a slot mapping that wraps a cursor onto the
//! storage.  The trait states the one enqueue/dequeue contract both variants
//! conform to, in terms of the abstract model; the lemmas here prove, once
//! for both variants, how a write or a read at the wrapped slot acts on the
//! sequence of pending items.

use vstd::arithmetic::div_mod::lemma_fundamental_div_mod;
use vstd::arithmetic::mul::lemma_mul_is_distributive_sub;
use vstd::prelude::*;

use crate::model::{deq_out, deq_state, enq_accepts, enq_state};

verus! {

/// The pending items of a buffer whose storage is `storage`, whose oldest
/// pending item was written at cursor `read`, and whose next item will be
/// written at cursor `write`: one item per cursor in `[read, write)`, each
/// cursor mapped onto the slot it wraps to.
pub open spec fn ring_contents(storage: Seq<i32>, read: u64, write: u64) -> Seq<i32> {
    Seq::new((write - read) as nat, |i: int| storage[(read + i) % (storage.len() as int)])
}

/// Two cursors less than a full lap apart never wrap onto the same slot.
proof fn lemma_slot_distinct(r: int, i: int, j: int, c: int)
    requires
        0 <= r,
        0 < c,
        0 <= i,
        i < j,
        j - i < c,
    ensures
        (r + i) % c != (r + j) % c,
{
    let a = r + i;
    let b = r + j;
    lemma_fundamental_div_mod(a, c);
    lemma_fundamental_div_mod(b, c);
    if a % c == b % c {
        let q = b / c - a / c;
        assert(b - a == c * q) by {
            lemma_mul_is_distributive_sub(c, b / c, a / c);
        };
        if q <= 0 {
            assert(c * q <= 0) by (nonlinear_arith)
                requires
                    0 < c,
                    q <= 0,
            ;
        } else {
            assert(c * q >= c) by (nonlinear_arith)
                requires
                    0 < c,
                    1 <= q,
            ;
        }
        assert(false);
    }
}

/// Writing the enqueued item into the slot the write cursor wraps to, then
/// advancing that cursor, appends the item to the pending sequence: the slot
/// written is not read by any pending cursor, because the buffer was not
/// full.
pub(crate) proof fn lemma_contents_push(
    old_buf: Seq<i32>,
    new_buf: Seq<i32>,
    r: u64,
    w: u64,
    item: i32,
)
    requires
        0 < old_buf.len(),
        r <= w,
        w - r < old_buf.len(),
        w < u64::MAX,
        new_buf == old_buf.update((w as int) % (old_buf.len() as int), item),
    ensures
        ring_contents(new_buf, r, (w + 1) as u64) == ring_contents(old_buf, r, w).push(item),
{
    let c = old_buf.len() as int;
    let n = w - r;
    assert forall|k: int| 0 <= k <= n implies ring_contents(new_buf, r, (w + 1) as u64)[k]
        == ring_contents(old_buf, r, w).push(item)[k] by {
        if k < n {
            lemma_slot_distinct(r as int, k, n, c);
        }
    };
    assert(ring_contents(new_buf, r, (w + 1) as u64) =~= ring_contents(old_buf, r, w).push(item));
}

/// The slot the read cursor wraps to holds the oldest pending item, and
/// advancing that cursor drops exactly that item from the pending sequence.
pub(crate) proof fn lemma_contents_pop(buf: Seq<i32>, r: u64, w: u64)
    requires
        0 < buf.len(),
        r < w,
    ensures
        ring_contents(buf, r, w)[0] == buf[(r as int) % (buf.len() as int)],
        ring_contents(buf, (r + 1) as u64, w) == ring_contents(buf, r, w).drop_first(),
{
    assert(ring_contents(buf, (r + 1) as u64, w) =~= ring_contents(buf, r, w).drop_first());
}

/// A bounded circular buffer of 32-bit integers: up to `capacity` pending
/// items, held in strict first-in first-out order.
///
/// The two cursors count every item ever enqueued and ever dequeued; they
/// are 64 bits wide and are never wrapped themselves, so a buffer is good
/// for `u64::MAX` enqueues over its lifetime — the `enqueue` precondition
/// states exactly that limit.
pub trait RingBuffer: Sized {
    /// The implementation invariant tying cursors and storage together;
    /// construction establishes it and every operation preserves it.
    spec fn inv(&self) -> bool;

    /// The fixed number of slots, chosen at construction.
    spec fn capacity(&self) -> nat;

    /// The number of items ever dequeued.
    spec fn read_cursor(&self) -> u64;

    /// The number of items ever enqueued.
    spec fn write_cursor(&self) -> u64;

    /// The pending items, oldest first.
    spec fn contents(&self) -> Seq<i32>;

    /// The cursor accounting every conforming buffer keeps: the write cursor
    /// never trails the read cursor, the number of pending items is exactly
    /// their difference, and it never exceeds the capacity — so the buffer
    /// is full exactly when the cursors are a full capacity apart, and empty
    /// exactly when they coincide.
    proof fn lemma_cursor_accounting(&self)
        requires
            self.inv(),
        ensures
            self.read_cursor() <= self.write_cursor(),
            self.contents().len() == self.write_cursor() - self.read_cursor(),
            self.contents().len() <= self.capacity(),
    ;

    /// Appends `item` behind the pending items and reports `true`, unless
    /// the buffer is full, in which case it reports `false` and changes
    /// nothing.
    fn enqueue(&mut self, item: i32) -> (ok: bool)
        requires
            old(self).inv(),
            old(self).write_cursor() < u64::MAX,
        ensures
            final(self).inv(),
            final(self).capacity() == old(self).capacity(),
            ok == enq_accepts(old(self).contents(), old(self).capacity()),
            final(self).contents() == enq_state(old(self).contents(), old(self).capacity(), item),
            ok ==> final(self).write_cursor() == old(self).write_cursor() + 1
                && final(self).read_cursor() == old(self).read_cursor(),
            !ok ==> *final(self) == *old(self),
    ;

    /// Removes and returns the oldest pending item, or returns nothing and
    /// changes nothing when the buffer is empty.
    fn dequeue(&mut self) -> (taken: Option<i32>)
        requires
            old(self).inv(),
        ensures
            final(self).inv(),
            final(self).capacity() == old(self).capacity(),
            taken == deq_out(old(self).contents()),
            final(self).contents() == deq_state(old(self).contents()),
            old(self).contents().len() > 0 ==> final(self).read_cursor() == old(self).read_cursor()
                + 1 && final(self).write_cursor() == old(self).write_cursor(),
            old(self).contents().len() == 0 ==> *final(self) == *old(self),
    ;
}

/// One fill-then-drain cycle of the throughput driver: enqueues the values
/// `0..=999` in order, then dequeues a thousand times, checking that each
/// value comes back in enqueue order.  On an empty buffer with a thousand
/// slots or more this is proved to always report `true` and to leave the
/// buffer empty again.
pub fn fill_drain_cycle<T: RingBuffer>(rb: &mut T) -> (ok: bool)
    requires
        old(rb).inv(),
        old(rb).contents().len() == 0,
        old(rb).capacity() >= 1000,
        old(rb).write_cursor() <= u64::MAX - 1000,
    ensures
        ok,
        final(rb).inv(),
        final(rb).capacity() == old(rb).capacity(),
        final(rb).contents().len() == 0,
        final(rb).write_cursor() == old(rb).write_cursor() + 1000,
        final(rb).read_cursor() == old(rb).read_cursor() + 1000,
{
    let ghost cap0 = rb.capacity();
    let ghost w0 = rb.write_cursor();
    let ghost r0 = rb.read_cursor();
    let mut j: usize = 0;
    while j < 1000
        invariant
            rb.inv(),
            rb.capacity() == cap0,
            cap0 >= 1000,
            j <= 1000,
            rb.contents() == Seq::new(j as nat, |i: int| i as i32),
            rb.write_cursor() == w0 + j,
            rb.read_cursor() == r0,
            w0 <= u64::MAX - 1000,
        decreases 1000 - j,
    {
        let _accepted = rb.enqueue(j as i32);
        proof {
            assert(rb.contents() =~= Seq::new((j + 1) as nat, |i: int| i as i32));
        }
        j = j + 1;
    }
    let mut ok = true;
    let mut k: usize = 0;
    while k < 1000
        invariant
            ok,
            rb.inv(),
            rb.capacity() == cap0,
            k <= 1000,
            rb.contents() == Seq::new((1000 - k) as nat, |i: int| (k + i) as i32),
            rb.write_cursor() == w0 + 1000,
            rb.read_cursor() == r0 + k,
        decreases 1000 - k,
    {
        let taken = rb.dequeue();
        match taken {
            Some(v) => {
                if v != k as i32 {
                    ok = false;
                }
            },
            None => {
                ok = false;
            },
        }
        proof {
            assert(rb.contents() =~= Seq::new(
                (1000 - (k + 1)) as nat,
                |i: int| ((k + 1) + i) as i32,
            ));
        }
        k = k + 1;
    }
    ok
}

} // verus!
