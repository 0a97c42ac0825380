use bench_kernels::lcg::lcg_next;
use bench_kernels::queue::Queue;
use bench_kernels::queue::QUEUE_MASK;
use bench_kernels::queue::QUEUE_SIZE;

#[test]
fn fresh_queue_is_empty() {
    let queue = Queue::with_capacity(8).unwrap();
    let mut out = 77;
    assert!(!queue.dequeue(&mut out));
    assert_eq!(out, 77);
}

#[test]
fn capacity_must_be_a_power_of_two() {
    for capacity in [0usize, 3, 5, 6, 7, 9, 12, 100, 65535, 65537] {
        assert!(Queue::with_capacity(capacity).is_none());
    }
    for capacity in [1usize, 2, 4, 8, 1024, 65536] {
        let queue = Queue::with_capacity(capacity).unwrap();
        assert_eq!(queue.capacity(), capacity);
    }
}

#[test]
fn default_queue_has_the_default_capacity() {
    let queue = Queue::new();
    assert_eq!(queue.capacity(), QUEUE_SIZE);
    assert_eq!(QUEUE_SIZE, 65536);
    assert_eq!(QUEUE_MASK, 65535);
}

#[test]
fn full_queue_refuses_until_one_value_leaves() {
    let queue = Queue::with_capacity(4).unwrap();
    for v in 1..=4u64 {
        assert!(queue.enqueue(v));
    }
    assert!(!queue.enqueue(5));
    let mut out = 0;
    assert!(queue.dequeue(&mut out));
    assert_eq!(out, 1);
    assert!(queue.enqueue(5));
    assert!(!queue.enqueue(6));
    for expected in 2..=5u64 {
        assert!(queue.dequeue(&mut out));
        assert_eq!(out, expected);
    }
    assert!(!queue.dequeue(&mut out));
    assert_eq!(out, 5);
}

#[test]
fn alternating_pairs_come_back_in_order() {
    let queue = Queue::with_capacity(2).unwrap();
    let mut out = 0;
    for v in 0..10_000u64 {
        assert!(queue.enqueue(v * 3 + 1));
        assert!(queue.dequeue(&mut out));
        assert_eq!(out, v * 3 + 1);
    }
    assert!(!queue.dequeue(&mut out));
}

#[test]
fn a_fixed_schedule_delivers_every_value_once_and_in_order() {
    // The generator decides, step by step, whether to enqueue or to
    // dequeue; a plain list keeps what the queue must hold.
    let capacity = 8usize;
    let queue = Queue::with_capacity(capacity).unwrap();
    let mut waiting = std::collections::VecDeque::new();
    let mut counts = vec![0u32; 5_001];
    let mut next_value = 1u64;
    let mut seed = 2024u64;
    let mut out = 0u64;
    while next_value <= 5_000 || !waiting.is_empty() {
        let enqueue = next_value <= 5_000 && (lcg_next(&mut seed) >> 33) % 2 == 0;
        if enqueue {
            let accepted = queue.enqueue(next_value);
            assert_eq!(accepted, waiting.len() < capacity);
            if accepted {
                waiting.push_back(next_value);
                next_value += 1;
            }
        } else {
            let taken = queue.dequeue(&mut out);
            assert_eq!(taken, !waiting.is_empty());
            if taken {
                assert_eq!(Some(out), waiting.pop_front());
                counts[out as usize] += 1;
            }
        }
    }
    assert!(!queue.dequeue(&mut out));
    assert_eq!(counts[0], 0);
    for value in 1..=5_000 {
        assert_eq!(counts[value], 1);
    }
}

#[test]
fn the_queue_never_holds_more_than_its_capacity() {
    for capacity in [2usize, 4, 16, 64] {
        let queue = Queue::with_capacity(capacity).unwrap();
        let mut accepted = 0;
        for v in 0..(3 * capacity as u64) {
            if queue.enqueue(v) {
                accepted += 1;
            }
        }
        assert_eq!(accepted, capacity);
        let mut out = 0;
        let mut taken = 0;
        while queue.dequeue(&mut out) {
            assert_eq!(out, taken);
            taken += 1;
        }
        assert_eq!(taken, capacity as u64);
    }
}

#[test]
fn a_ring_of_one_cell_cannot_tell_full_from_free() {
    // The stamp that marks the cell full for position 0 marks it free for
    // position 1: the second value is accepted over the first.
    let queue = Queue::with_capacity(1).unwrap();
    assert!(queue.enqueue(10));
    assert!(queue.enqueue(20));
}

#[test]
fn many_laps_around_a_small_ring() {
    let queue = Queue::with_capacity(4).unwrap();
    let mut out = 0;
    for lap in 0..1_000u64 {
        for k in 0..3 {
            assert!(queue.enqueue(lap * 3 + k));
        }
        for k in 0..3 {
            assert!(queue.dequeue(&mut out));
            assert_eq!(out, lap * 3 + k);
        }
    }
    assert!(!queue.dequeue(&mut out));
}

#[test]
fn a_cursor_fills_a_cache_line() {
    // Two cursors in one struct are at least their size apart.
    assert_eq!(std::mem::size_of::<bench_kernels::queue::PaddedCursor>(), 64);
}
