use ring_buffer::{fill_drain_cycle, RingBuffer, RingBuffer0, RingBuffer1};

#[test]
fn concrete_scenario_modular() {
    let mut rb = RingBuffer0::new(4);
    assert!(rb.enqueue(10));
    assert!(rb.enqueue(20));
    assert!(rb.enqueue(30));
    assert!(rb.enqueue(40));
    assert!(!rb.enqueue(50));
    assert_eq!(rb.dequeue(), Some(10));
    assert_eq!(rb.dequeue(), Some(20));
    assert_eq!(rb.dequeue(), Some(30));
    assert_eq!(rb.dequeue(), Some(40));
    assert_eq!(rb.dequeue(), None);
}

#[test]
fn concrete_scenario_masked() {
    let mut rb = RingBuffer1::new(4);
    assert!(rb.enqueue(10));
    assert!(rb.enqueue(20));
    assert!(rb.enqueue(30));
    assert!(rb.enqueue(40));
    assert!(!rb.enqueue(50));
    assert_eq!(rb.dequeue(), Some(10));
    assert_eq!(rb.dequeue(), Some(20));
    assert_eq!(rb.dequeue(), Some(30));
    assert_eq!(rb.dequeue(), Some(40));
    assert_eq!(rb.dequeue(), None);
}

#[test]
fn fifo_order_generic_capacity() {
    let items = [3, 1, 4, 1, 5];
    let mut rb = RingBuffer0::new(5);
    for &x in items.iter() {
        assert!(rb.enqueue(x));
    }
    for &x in items.iter() {
        assert_eq!(rb.dequeue(), Some(x));
    }
    assert_eq!(rb.dequeue(), None);
}

#[test]
fn fifo_order_across_wraparound() {
    // Cursors lap the storage several times; order must survive every lap.
    let mut rb = RingBuffer0::new(3);
    assert!(rb.enqueue(0));
    assert!(rb.enqueue(1));
    for round in 0..20 {
        assert_eq!(rb.dequeue(), Some(round));
        assert!(rb.enqueue(round + 2));
    }
    assert_eq!(rb.dequeue(), Some(20));
    assert_eq!(rb.dequeue(), Some(21));
    assert_eq!(rb.dequeue(), None);

    let mut rb = RingBuffer1::new(4);
    assert!(rb.enqueue(0));
    assert!(rb.enqueue(1));
    assert!(rb.enqueue(2));
    for round in 0..20 {
        assert_eq!(rb.dequeue(), Some(round));
        assert!(rb.enqueue(round + 3));
    }
    assert_eq!(rb.dequeue(), Some(20));
    assert_eq!(rb.dequeue(), Some(21));
    assert_eq!(rb.dequeue(), Some(22));
    assert_eq!(rb.dequeue(), None);
}

#[test]
fn capacity_boundary_rejects_and_preserves() {
    let mut rb = RingBuffer0::new(3);
    assert!(rb.enqueue(7));
    assert!(rb.enqueue(8));
    assert!(rb.enqueue(9));
    assert!(!rb.enqueue(99));
    assert_eq!(rb.dequeue(), Some(7));
    assert_eq!(rb.dequeue(), Some(8));
    assert_eq!(rb.dequeue(), Some(9));
    assert_eq!(rb.dequeue(), None);

    let mut rb = RingBuffer1::new(2);
    assert!(rb.enqueue(-1));
    assert!(rb.enqueue(-2));
    assert!(!rb.enqueue(-3));
    assert_eq!(rb.dequeue(), Some(-1));
    assert_eq!(rb.dequeue(), Some(-2));
    assert_eq!(rb.dequeue(), None);
}

#[test]
fn capacity_one() {
    let mut rb = RingBuffer0::new(1);
    assert!(rb.enqueue(42));
    assert!(!rb.enqueue(43));
    assert_eq!(rb.dequeue(), Some(42));
    assert_eq!(rb.dequeue(), None);

    let mut rb = RingBuffer1::new(1);
    assert!(rb.enqueue(42));
    assert!(!rb.enqueue(43));
    assert_eq!(rb.dequeue(), Some(42));
    assert_eq!(rb.dequeue(), None);
}

#[test]
fn empty_boundary_fresh_and_drained() {
    let mut rb = RingBuffer0::new(8);
    assert_eq!(rb.dequeue(), None);
    assert!(rb.enqueue(5));
    assert_eq!(rb.dequeue(), Some(5));
    assert_eq!(rb.dequeue(), None);
    assert_eq!(rb.dequeue(), None);
    // A buffer drained to empty behaves like a fresh one.
    assert!(rb.enqueue(6));
    assert_eq!(rb.dequeue(), Some(6));

    let mut rb = RingBuffer1::new(8);
    assert_eq!(rb.dequeue(), None);
    assert!(rb.enqueue(5));
    assert_eq!(rb.dequeue(), Some(5));
    assert_eq!(rb.dequeue(), None);
}

#[test]
fn round_trip_full_cycles() {
    // Capacity of exactly the burst size, and a larger power of two: every
    // cycle must reproduce the same sequence, with no state leaking over.
    let mut rb = RingBuffer0::new(1000);
    for _ in 0..5 {
        assert!(fill_drain_cycle(&mut rb));
    }
    assert_eq!(rb.dequeue(), None);

    let mut rb = RingBuffer1::new(1024);
    for _ in 0..5 {
        assert!(fill_drain_cycle(&mut rb));
    }
    assert_eq!(rb.dequeue(), None);
}

#[test]
fn round_trip_cycle_by_hand() {
    let mut rb = RingBuffer1::new(1024);
    for _ in 0..3 {
        for j in 0..1000 {
            assert!(rb.enqueue(j));
        }
        for j in 0..1000 {
            assert_eq!(rb.dequeue(), Some(j));
        }
        assert_eq!(rb.dequeue(), None);
    }
}

#[test]
fn variants_agree_on_power_of_two_capacity() {
    // Drive both variants through one operation sequence that hits empty,
    // full, and several wraparounds; every observable result must agree.
    let mut a = RingBuffer0::new(8);
    let mut b = RingBuffer1::new(8);
    assert_eq!(a.dequeue(), b.dequeue());
    for i in 0..10 {
        assert_eq!(a.enqueue(i), b.enqueue(i));
    }
    for _ in 0..4 {
        assert_eq!(a.dequeue(), b.dequeue());
    }
    for i in 10..20 {
        assert_eq!(a.enqueue(i * 11), b.enqueue(i * 11));
    }
    for _ in 0..10 {
        assert_eq!(a.dequeue(), b.dequeue());
    }
    assert_eq!(a.dequeue(), b.dequeue());
}

#[test]
fn construction_validation() {
    assert!(RingBuffer1::try_new(6).is_none());
    assert!(RingBuffer1::try_new(0).is_none());
    assert!(RingBuffer1::try_new(3).is_none());
    assert!(RingBuffer1::try_new(1000).is_none());
    assert!(RingBuffer1::try_new(1).is_some());
    assert!(RingBuffer1::try_new(2).is_some());
    assert!(RingBuffer1::try_new(1024).is_some());
    let mut rb = RingBuffer1::try_new(1024).unwrap();
    assert!(rb.enqueue(1));
    assert_eq!(rb.dequeue(), Some(1));
}
