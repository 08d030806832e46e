//! Abstract model of a bounded FIFO queue, and the laws that hold of it.
//!
//! A buffer with capacity `cap` is modelled by the sequence of its pending
//! items, oldest first.  The four step functions below say exactly what one
//! enqueue or dequeue does to that sequence and what it returns; the
//! executable variants promise in their contracts that they follow these
//! functions step by step.  The proof functions state the ordering and
//! boundary laws of the model, and with it of every conforming buffer.

use vstd::prelude::*;

verus! {

/// Whether an enqueue on a buffer holding `q` with capacity `cap` accepts
/// the offered item.
pub open spec fn enq_accepts(q: Seq<i32>, cap: nat) -> bool {
    q.len() < cap
}

/// The pending items after an enqueue: the item is appended when the buffer
/// has room, and dropped when it is full.
pub open spec fn enq_state(q: Seq<i32>, cap: nat, item: i32) -> Seq<i32> {
    if q.len() < cap {
        q.push(item)
    } else {
        q
    }
}

/// What a dequeue returns: the oldest pending item, or nothing when the
/// buffer is empty.
pub open spec fn deq_out(q: Seq<i32>) -> Option<i32> {
    if q.len() == 0 {
        None
    } else {
        Some(q[0])
    }
}

/// The pending items after a dequeue: the oldest item is removed when there
/// is one, and an empty buffer stays empty.
pub open spec fn deq_state(q: Seq<i32>) -> Seq<i32> {
    if q.len() == 0 {
        q
    } else {
        q.drop_first()
    }
}

/// The pending items after enqueuing each element of `items` in order.
pub open spec fn enq_all(q: Seq<i32>, cap: nat, items: Seq<i32>) -> Seq<i32>
    decreases items.len(),
{
    if items.len() == 0 {
        q
    } else {
        enq_all(enq_state(q, cap, items[0]), cap, items.drop_first())
    }
}

/// Whether every enqueue of `items`, made in order, is accepted.
pub open spec fn enq_all_accepted(q: Seq<i32>, cap: nat, items: Seq<i32>) -> bool
    decreases items.len(),
{
    items.len() == 0 || (enq_accepts(q, cap) && enq_all_accepted(
        enq_state(q, cap, items[0]),
        cap,
        items.drop_first(),
    ))
}

/// The pending items after `n` dequeues.
pub open spec fn deq_n_state(q: Seq<i32>, n: nat) -> Seq<i32>
    decreases n,
{
    if n == 0 {
        q
    } else {
        deq_n_state(deq_state(q), (n - 1) as nat)
    }
}

/// The values returned by `n` dequeues, in order.
pub open spec fn deq_n_outs(q: Seq<i32>, n: nat) -> Seq<Option<i32>>
    decreases n,
{
    if n == 0 {
        Seq::empty()
    } else {
        seq![deq_out(q)] + deq_n_outs(deq_state(q), (n - 1) as nat)
    }
}

/// Enqueues that fit are all accepted and append in order: as long as the
/// pending items and the new ones together do not exceed the capacity, every
/// enqueue succeeds and the pending sequence is the concatenation.
pub proof fn lemma_enq_all_in_capacity(q: Seq<i32>, cap: nat, items: Seq<i32>)
    requires
        q.len() + items.len() <= cap,
    ensures
        enq_all_accepted(q, cap, items),
        enq_all(q, cap, items) == q + items,
    decreases items.len(),
{
    if items.len() == 0 {
        assert(q + items =~= q);
    } else {
        let q1 = enq_state(q, cap, items[0]);
        assert(q1 == q.push(items[0]));
        lemma_enq_all_in_capacity(q1, cap, items.drop_first());
        assert(q.push(items[0]) + items.drop_first() =~= q + items);
    }
}

/// Dequeues drain from the front, in order: `n` dequeues from a buffer
/// holding at least `n` items return exactly its first `n` items, oldest
/// first, and leave the rest pending.
pub proof fn lemma_deq_n_in_order(q: Seq<i32>, n: nat)
    requires
        n <= q.len(),
    ensures
        deq_n_state(q, n) == q.skip(n as int),
        deq_n_outs(q, n) == Seq::new(n, |i: int| Some(q[i])),
    decreases n,
{
    if n == 0 {
        assert(q.skip(0) =~= q);
        assert(deq_n_outs(q, n) =~= Seq::new(0, |i: int| Some(q[i])));
    } else {
        lemma_deq_n_in_order(q.drop_first(), (n - 1) as nat);
        assert(q.drop_first().skip(n - 1) =~= q.skip(n as int));
        assert(seq![deq_out(q)] + Seq::new((n - 1) as nat, |i: int| Some(q.drop_first()[i]))
            =~= Seq::new(n, |i: int| Some(q[i])));
    }
}

/// First-in first-out order: enqueuing any sequence of at most `cap` items
/// into an empty buffer accepts all of them, and dequeuing that many times
/// then yields exactly those items, in the order they were enqueued, leaving
/// the buffer empty again.
pub proof fn lemma_fifo_order(cap: nat, items: Seq<i32>)
    requires
        items.len() <= cap,
    ensures
        enq_all_accepted(Seq::empty(), cap, items),
        enq_all(Seq::empty(), cap, items) == items,
        deq_n_outs(enq_all(Seq::empty(), cap, items), items.len()) == Seq::new(
            items.len(),
            |i: int| Some(items[i]),
        ),
        deq_n_state(enq_all(Seq::empty(), cap, items), items.len()) == Seq::<i32>::empty(),
{
    lemma_enq_all_in_capacity(Seq::empty(), cap, items);
    assert(Seq::<i32>::empty() + items =~= items);
    lemma_deq_n_in_order(items, items.len());
    assert(items.skip(items.len() as int) =~= Seq::<i32>::empty());
}

/// Capacity boundary: filling an empty buffer with exactly `cap` items
/// accepts all of them; one further enqueue is rejected and leaves the
/// pending items exactly as they were.
pub proof fn lemma_capacity_boundary(cap: nat, items: Seq<i32>, extra: i32)
    requires
        items.len() == cap,
    ensures
        enq_all_accepted(Seq::empty(), cap, items),
        enq_all(Seq::empty(), cap, items) == items,
        !enq_accepts(items, cap),
        enq_state(items, cap, extra) == items,
{
    lemma_enq_all_in_capacity(Seq::empty(), cap, items);
    assert(Seq::<i32>::empty() + items =~= items);
}

/// The pending items after one fill-then-drain cycle: enqueue each element
/// of `items`, then dequeue as many times.
pub open spec fn cycle_state(q: Seq<i32>, cap: nat, items: Seq<i32>) -> Seq<i32> {
    deq_n_state(enq_all(q, cap, items), items.len())
}

/// The values returned by the drain half of one fill-then-drain cycle.
pub open spec fn cycle_outs(q: Seq<i32>, cap: nat, items: Seq<i32>) -> Seq<Option<i32>> {
    deq_n_outs(enq_all(q, cap, items), items.len())
}

/// The pending items after `n` fill-then-drain cycles, starting empty.
pub open spec fn cycles_state(cap: nat, items: Seq<i32>, n: nat) -> Seq<i32>
    decreases n,
{
    if n == 0 {
        Seq::empty()
    } else {
        cycle_state(cycles_state(cap, items, (n - 1) as nat), cap, items)
    }
}

/// Round-trip idempotence under full cycles: when the burst fits the
/// capacity, every fill-then-drain cycle returns the buffer to empty, so no
/// matter how many cycles have gone before, the next cycle reproduces the
/// burst exactly — no residual state leaks from one cycle into the next.
pub proof fn lemma_round_trip(cap: nat, items: Seq<i32>, n: nat)
    requires
        items.len() <= cap,
    ensures
        cycles_state(cap, items, n) == Seq::<i32>::empty(),
        cycle_outs(cycles_state(cap, items, n), cap, items) == Seq::new(
            items.len(),
            |i: int| Some(items[i]),
        ),
    decreases n,
{
    if n > 0 {
        lemma_round_trip(cap, items, (n - 1) as nat);
    }
    lemma_fifo_order(cap, items);
}

/// One request made of a buffer: offer an item, or ask for the oldest one.
pub enum Op {
    Enqueue(i32),
    Dequeue,
}

/// What a buffer reports back for one request.
pub enum Reply {
    Accepted(bool),
    Taken(Option<i32>),
}

/// The pending items after one request.
pub open spec fn step_state(q: Seq<i32>, cap: nat, op: Op) -> Seq<i32> {
    match op {
        Op::Enqueue(item) => enq_state(q, cap, item),
        Op::Dequeue => deq_state(q),
    }
}

/// What a buffer holding `q` with capacity `cap` reports for one request.
pub open spec fn step_reply(q: Seq<i32>, cap: nat, op: Op) -> Reply {
    match op {
        Op::Enqueue(_) => Reply::Accepted(enq_accepts(q, cap)),
        Op::Dequeue => Reply::Taken(deq_out(q)),
    }
}

/// The pending items after a whole sequence of requests.
pub open spec fn run_state(q: Seq<i32>, cap: nat, ops: Seq<Op>) -> Seq<i32>
    decreases ops.len(),
{
    if ops.len() == 0 {
        q
    } else {
        run_state(step_state(q, cap, ops[0]), cap, ops.drop_first())
    }
}

/// Everything a buffer reports over a whole sequence of requests.
pub open spec fn run_replies(q: Seq<i32>, cap: nat, ops: Seq<Op>) -> Seq<Reply>
    decreases ops.len(),
{
    if ops.len() == 0 {
        Seq::empty()
    } else {
        seq![step_reply(q, cap, ops[0])] + run_replies(step_state(q, cap, ops[0]), cap, ops.drop_first())
    }
}

/// Equivalence of variants: what a buffer reports is a function of its
/// pending items and its capacity alone.  Both buffer variants promise, in
/// their shared trait contract, to follow the step functions of this model,
/// so two buffers of either variant with the same capacity — started from
/// equal states, in particular both fresh — report identically on every
/// possible operation sequence.  The variants differ only in how a cursor's
/// slot is computed, and `masked::lemma_pow2_mask_eq_mod` shows that for a
/// power-of-two capacity even the chosen slots agree.
pub proof fn lemma_variant_equivalence(q1: Seq<i32>, q2: Seq<i32>, cap: nat, ops: Seq<Op>)
    requires
        q1 == q2,
    ensures
        run_replies(q1, cap, ops) == run_replies(q2, cap, ops),
        run_state(q1, cap, ops) == run_state(q2, cap, ops),
{
}

} // verus!
