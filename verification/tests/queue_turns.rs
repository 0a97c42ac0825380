use bench_kernels::queue::index::is_power_of_two;
use bench_kernels::queue::index::slot_index;
use bench_kernels::queue::turn::consumer_turn;
use bench_kernels::queue::turn::producer_turn;
use bench_kernels::queue::turn::published_stamp;
use bench_kernels::queue::turn::released_stamp;
use bench_kernels::queue::turn::turn;
use bench_kernels::queue::turn::Turn;

#[test]
fn producer_turn_by_the_sign_of_the_gap() {
    assert_eq!(producer_turn(7, 7), Turn::Ready);
    assert_eq!(producer_turn(4, 7), Turn::NotYet);
    assert_eq!(producer_turn(8, 7), Turn::Passed);
    assert_eq!(producer_turn(0, 0), Turn::Ready);
    assert_eq!(producer_turn(1, 0), Turn::Passed);
}

#[test]
fn consumer_turn_waits_for_the_published_stamp() {
    assert_eq!(consumer_turn(8, 7), Turn::Ready);
    assert_eq!(consumer_turn(7, 7), Turn::NotYet);
    assert_eq!(consumer_turn(0, 0), Turn::NotYet);
    assert_eq!(consumer_turn(15, 7), Turn::Passed);
    assert_eq!(consumer_turn(0, u64::MAX), Turn::Ready);
}

#[test]
fn turn_across_the_wrap_of_the_counters() {
    assert_eq!(turn(0, u64::MAX), Turn::Passed);
    assert_eq!(turn(u64::MAX, 0), Turn::NotYet);
    assert_eq!(turn(1 << 63, 0), Turn::NotYet);
    assert_eq!(turn((1 << 63) - 1, 0), Turn::Passed);
    assert_eq!(turn(0, 1 << 63), Turn::NotYet);
    assert_eq!(turn(5, 5), Turn::Ready);
}

#[test]
fn stamps_of_publishing_and_releasing() {
    assert_eq!(published_stamp(0), 1);
    assert_eq!(published_stamp(41), 42);
    assert_eq!(published_stamp(u64::MAX), 0);
    assert_eq!(released_stamp(0, 8), 8);
    assert_eq!(released_stamp(13, 65536), 65549);
    assert_eq!(released_stamp(u64::MAX, 2), 1);
}

#[test]
fn slot_index_is_the_position_modulo_the_capacity() {
    assert_eq!(slot_index(0, 7), 0);
    assert_eq!(slot_index(7, 7), 7);
    assert_eq!(slot_index(8, 7), 0);
    assert_eq!(slot_index(65536 + 5, 65535), 5);
    assert_eq!(slot_index(u64::MAX, 3), 3);
    assert_eq!(slot_index(12345, 0), 0);
    for pos in 0..100u64 {
        assert_eq!(slot_index(pos, 15) as u64, pos % 16);
    }
}

#[test]
fn powers_of_two_are_recognised() {
    let mut power = 1usize;
    for _ in 0..(usize::BITS - 1) {
        assert!(is_power_of_two(power));
        if power > 2 {
            assert!(!is_power_of_two(power - 1));
            assert!(!is_power_of_two(power + 1));
        }
        power *= 2;
    }
    assert!(is_power_of_two(power));
    assert!(!is_power_of_two(0));
    assert!(!is_power_of_two(usize::MAX));
    assert!(!is_power_of_two(6));
}
