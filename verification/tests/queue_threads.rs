use bench_kernels::queue::Queue;
use bench_kernels::workload::drained;
use bench_kernels::workload::expected_sum;
use bench_kernels::workload::expected_total;
use bench_kernels::workload::producer_value;
use bench_kernels::workload::Report;
use bench_kernels::workload::Tally;
use std::sync::atomic::AtomicU64;
use std::sync::atomic::Ordering;
use std::sync::Condvar;
use std::sync::Mutex;
use std::time::Duration;

/// Gives the processor away for a moment.
fn pause() {
    let lock = Mutex::new(());
    let signal = Condvar::new();
    let guard = lock.lock().unwrap();
    let _ = signal.wait_timeout(guard, Duration::from_micros(20)).unwrap();
}

/// Runs `producers` producers of `quota` values each against `consumers`
/// consumers on a queue of `capacity` cells, one thread each, and returns
/// what each consumer received.
fn run(capacity: usize, producers: u64, consumers: u64, quota: u64) -> Vec<Vec<u64>> {
    let total = producers * quota;
    let queue = Queue::with_capacity(capacity).unwrap();
    let consumed = AtomicU64::new(0);
    let pool = rayon::ThreadPoolBuilder::new()
        .num_threads((producers + consumers) as usize)
        .build()
        .unwrap();
    let results: Vec<Vec<u64>> = pool.broadcast(|ctx| {
        let role = ctx.index() as u64;
        let mut seen = Vec::new();
        if role < producers {
            for i in 0..quota {
                let value = role * quota + i + 1;
                while !queue.enqueue(value) {
                    pause();
                }
            }
        } else {
            while consumed.load(Ordering::Relaxed) < total {
                let mut value = 0;
                if queue.dequeue(&mut value) {
                    seen.push(value);
                    consumed.fetch_add(1, Ordering::Relaxed);
                } else {
                    pause();
                }
            }
        }
        seen
    });
    let mut out = 0;
    assert!(!queue.dequeue(&mut out));
    results
}

#[test]
fn every_value_arrives_exactly_once() {
    let total = 3 * 2_000usize;
    let mut counts = vec![0u32; total + 1];
    for seen in run(16, 3, 3, 2_000) {
        for value in seen {
            counts[value as usize] += 1;
        }
    }
    assert_eq!(counts[0], 0);
    for value in 1..=total {
        assert_eq!(counts[value], 1);
    }
}

#[test]
fn each_producers_values_reach_a_consumer_in_order() {
    let quota = 3_000u64;
    for seen in run(8, 2, 1, quota) {
        let mut last = [0u64; 2];
        for value in seen {
            let producer = ((value - 1) / quota) as usize;
            assert!(value > last[producer]);
            last[producer] = value;
        }
    }
}

/// The whole benchmark: the producers send their values, the consumers
/// tally what they take, and the report compares the checksums.
fn benchmark(capacity: usize, producers: u64, consumers: u64, quota: u64) -> Report {
    let total = expected_total(producers, quota).unwrap();
    let expected = expected_sum(producers, quota).unwrap();
    let queue = Queue::with_capacity(capacity).unwrap();
    let consumed = AtomicU64::new(0);
    let pool = rayon::ThreadPoolBuilder::new()
        .num_threads((producers + consumers) as usize)
        .build()
        .unwrap();
    let tallies: Vec<(bool, Tally)> = pool.broadcast(|ctx| {
        let role = ctx.index() as u64;
        let mut tally = Tally::new();
        if role < producers {
            for i in 0..quota {
                let value = producer_value(role, quota, i).unwrap();
                while !queue.enqueue(value) {
                    pause();
                }
                tally.record(value);
            }
            (true, tally)
        } else {
            while !drained(consumed.load(Ordering::Relaxed), total) {
                let mut value = 0;
                if queue.dequeue(&mut value) {
                    tally.record(value);
                    consumed.fetch_add(1, Ordering::Relaxed);
                } else {
                    pause();
                }
            }
            (false, tally)
        }
    });
    let mut sent = Tally::new();
    let mut received = Tally::new();
    for (is_producer, tally) in tallies {
        if is_producer {
            sent.merge(&tally);
        } else {
            received.merge(&tally);
        }
    }
    assert_eq!(sent.sum, expected);
    Report { produced: sent.ops, consumed: received.ops, checksum: received.sum, expected }
}

#[test]
fn default_scenario_gives_the_expected_checksum() {
    let report = benchmark(65536, 4, 4, 1_000_000);
    assert_eq!(report.expected, 8_000_002_000_000);
    assert_eq!(report.checksum, 8_000_002_000_000);
    assert_eq!(report.produced, 4_000_000);
    assert_eq!(report.consumed, 4_000_000);
    assert!(report.passed());
    assert_eq!(report.exit_code(), 0);
}

#[test]
fn repeated_runs_give_the_same_checksum() {
    let first = benchmark(64, 4, 4, 5_000);
    assert_eq!(first.checksum, 20_000 * 20_001 / 2);
    assert_eq!(first.exit_code(), 0);
    for _ in 0..4 {
        assert_eq!(benchmark(64, 4, 4, 5_000), first);
    }
}

#[test]
fn a_small_ring_under_many_threads_loses_nothing() {
    let report = benchmark(2, 4, 4, 3_000);
    assert_eq!(report.consumed, 12_000);
    assert_eq!(report.checksum, report.expected);
    let report = benchmark(4, 1, 5, 10_000);
    assert_eq!(report.consumed, 10_000);
    assert_eq!(report.checksum, 10_000 * 10_001 / 2);
    let report = benchmark(4, 5, 1, 2_000);
    assert!(report.passed());
}
