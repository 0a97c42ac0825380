use bench_kernels::workload::drained;
use bench_kernels::workload::expected_sum;
use bench_kernels::workload::expected_total;
use bench_kernels::workload::producer_contribution;
use bench_kernels::workload::producer_value;
use bench_kernels::workload::Report;
use bench_kernels::workload::Tally;
use bench_kernels::workload::NUM_CONSUMERS;
use bench_kernels::workload::NUM_PRODUCERS;
use bench_kernels::workload::OPS_PER_PRODUCER;

#[test]
fn default_workload_constants() {
    assert_eq!(NUM_PRODUCERS, 4);
    assert_eq!(NUM_CONSUMERS, 4);
    assert_eq!(OPS_PER_PRODUCER, 1_000_000);
}

#[test]
fn values_start_at_one_and_follow_each_other() {
    assert_eq!(producer_value(0, 1_000_000, 0), Some(1));
    assert_eq!(producer_value(0, 1_000_000, 999_999), Some(1_000_000));
    assert_eq!(producer_value(1, 1_000_000, 0), Some(1_000_001));
    assert_eq!(producer_value(3, 1_000_000, 999_999), Some(4_000_000));
    assert_eq!(producer_value(2, 10, 4), Some(25));
}

#[test]
fn values_that_do_not_fit_are_refused() {
    assert_eq!(producer_value(u64::MAX, 2, 0), None);
    assert_eq!(producer_value(1, u64::MAX, 0), None);
    assert_eq!(producer_value(1, u64::MAX - 1, 0), Some(u64::MAX));
    assert_eq!(producer_value(0, 5, u64::MAX), None);
    assert_eq!(producer_value(0, 5, u64::MAX - 1), Some(u64::MAX));
}

#[test]
fn expected_total_is_the_product() {
    assert_eq!(expected_total(4, 1_000_000), Some(4_000_000));
    assert_eq!(expected_total(0, 17), Some(0));
    assert_eq!(expected_total(1 << 32, 1 << 32), None);
    assert_eq!(expected_total(1 << 32, (1 << 32) - 1), Some(u64::MAX - (1 << 32) + 1));
}

#[test]
fn contribution_of_one_producer() {
    // quota * base + quota * (quota + 1) / 2
    assert_eq!(producer_contribution(0, 1_000_000), Some(500_000_500_000));
    assert_eq!(producer_contribution(3, 1_000_000), Some(3_500_000_500_000));
    assert_eq!(producer_contribution(2, 10), Some(10 * 20 + 55));
    assert_eq!(producer_contribution(5, 0), Some(0));
    assert_eq!(producer_contribution(0, u64::MAX), None);
    assert_eq!(producer_contribution(u64::MAX, 2), None);
}

#[test]
fn expected_checksum_of_the_default_workload() {
    let quota = OPS_PER_PRODUCER;
    let mut by_formula = 0u64;
    for p in 0..NUM_PRODUCERS as u64 {
        by_formula += quota * (p * quota) + quota * (quota + 1) / 2;
    }
    assert_eq!(by_formula, 8_000_002_000_000);
    assert_eq!(expected_sum(NUM_PRODUCERS as u64, quota), Some(8_000_002_000_000));
    assert_eq!(expected_total(NUM_PRODUCERS as u64, quota), Some(4_000_000));
}

#[test]
fn expected_checksum_is_the_sum_of_all_values() {
    for (producers, quota) in [(0u64, 5u64), (5, 0), (1, 1), (3, 7), (4, 100), (7, 13)] {
        let mut sum = 0u64;
        for p in 0..producers {
            for i in 0..quota {
                sum += producer_value(p, quota, i).unwrap();
            }
        }
        assert_eq!(expected_sum(producers, quota), Some(sum));
        let total = producers * quota;
        assert_eq!(sum, total * (total + 1) / 2);
    }
}

#[test]
fn expected_checksum_at_the_edge_of_64_bits() {
    assert_eq!(expected_sum(1, 6_074_000_999), Some(18_446_744_070_963_499_500));
    assert_eq!(expected_sum(1, 6_074_001_000), None);
    assert_eq!(expected_sum(2, 1 << 63), None);
}

#[test]
fn expected_checksum_is_the_same_every_time() {
    let first = expected_sum(4, 1_000_000);
    for _ in 0..5 {
        assert_eq!(expected_sum(4, 1_000_000), first);
    }
}

#[test]
fn consumers_stop_when_all_values_are_taken() {
    assert!(!drained(0, 10));
    assert!(!drained(9, 10));
    assert!(drained(10, 10));
    assert!(drained(11, 10));
    assert!(drained(0, 0));
}

#[test]
fn tally_counts_values_and_merges() {
    let mut tally = Tally::new();
    assert_eq!(tally, Tally { sum: 0, ops: 0 });
    tally.record(5);
    tally.record(7);
    assert_eq!(tally, Tally { sum: 12, ops: 2 });
    let mut other = Tally::new();
    other.record(30);
    tally.merge(&other);
    assert_eq!(tally, Tally { sum: 42, ops: 3 });
    assert_eq!(other, Tally { sum: 30, ops: 1 });
}

#[test]
fn tally_wraps_at_64_bits() {
    let mut tally = Tally { sum: u64::MAX, ops: u64::MAX };
    tally.record(3);
    assert_eq!(tally, Tally { sum: 2, ops: 0 });
    let mut left = Tally { sum: u64::MAX - 1, ops: 1 };
    left.merge(&Tally { sum: 5, ops: u64::MAX });
    assert_eq!(left, Tally { sum: 3, ops: 0 });
}

#[test]
fn report_gives_the_exit_code() {
    let good = Report { produced: 4, consumed: 4, checksum: 10, expected: 10 };
    assert!(good.passed());
    assert_eq!(good.exit_code(), 0);
    let bad = Report { produced: 4, consumed: 4, checksum: 9, expected: 10 };
    assert!(!bad.passed());
    assert_eq!(bad.exit_code(), 1);
}
