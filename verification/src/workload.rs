//! The workload that exercises the queue: which values each producer
//! sends, what a consumer tallies, when the consumers may stop, and how the
//! run is judged.
//!
//! Producer `p` of a workload with quota `q` sends the values
//! `p q + 1, p q + 2, ..., p q + q`: all producers together send every
//! number from 1 to the total exactly once, whatever the interleaving, so
//! the sum of what arrives is known beforehand.

use vstd::prelude::*;

verus! {

/// The number of producers of the default workload.
pub const NUM_PRODUCERS: usize = 4;

/// The number of consumers of the default workload.
pub const NUM_CONSUMERS: usize = 4;

/// The number of values that each producer of the default workload sends.
pub const OPS_PER_PRODUCER: u64 = 1000000;

/// The value that producer `producer` sends as its number `i`, counted
/// from 0, when each producer sends `quota` values.
pub open spec fn value_of(producer: int, quota: int, i: int) -> int {
    producer * quota + i + 1
}

/// The sum of the first `n` values of one producer.
pub open spec fn producer_sum(producer: int, quota: int, n: int) -> int
    decreases n,
{
    if n <= 0 {
        0
    } else {
        producer_sum(producer, quota, n - 1) + value_of(producer, quota, n - 1)
    }
}

/// The sum of all values of the first `producers` producers.
pub open spec fn workload_sum(producers: int, quota: int) -> int
    decreases producers,
{
    if producers <= 0 {
        0
    } else {
        workload_sum(producers - 1, quota) + producer_sum(producers - 1, quota, quota)
    }
}

/// What one producer adds to the checksum, in closed form: `quota` times
/// its base, plus the sum of 1 to `quota`.
pub open spec fn contribution(producer: int, quota: int) -> int {
    quota * (producer * quota) + quota * (quota + 1) / 2
}

/// The checksum of the whole workload in closed form: the sum of 1 to the
/// total number of values.
pub open spec fn closed_sum(producers: int, quota: int) -> int {
    (producers * quota) * (producers * quota + 1) / 2
}

/// Twice the sum of the first `n` values of a producer.
proof fn lemma_producer_sum_doubled(producer: int, quota: int, n: int)
    requires
        0 <= n,
    ensures
        2 * producer_sum(producer, quota, n) == 2 * n * (producer * quota) + n * (n + 1),
    decreases n,
{
    let base = producer * quota;
    if n > 0 {
        let m = n - 1;
        lemma_producer_sum_doubled(producer, quota, m);
        assert(2 * m * base + m * (m + 1) + 2 * (base + m + 1) == 2 * n * base + n * (n + 1))
            by (nonlinear_arith)
            requires
                m == n - 1,
        ;
    } else {
        assert(2 * n * base + n * (n + 1) == 0) by (nonlinear_arith)
            requires
                n == 0,
        ;
    }
}

/// The product of two neighbours is even.
proof fn lemma_neighbours_even(n: int)
    ensures
        (n * (n + 1)) % 2 == 0,
{
    let half = n / 2;
    if n % 2 == 0 {
        let rest = half * (n + 1);
        assert(n * (n + 1) == 2 * rest) by (nonlinear_arith)
            requires
                n == 2 * half,
                rest == half * (n + 1),
        ;
    } else {
        let rest = n * (half + 1);
        assert(n * (n + 1) == 2 * rest) by (nonlinear_arith)
            requires
                n == 2 * half + 1,
                rest == n * (half + 1),
        ;
    }
}

/// The values of one producer add up to its closed-form contribution.
pub proof fn lemma_producer_sum(producer: int, quota: int)
    requires
        0 <= quota,
    ensures
        producer_sum(producer, quota, quota) == contribution(producer, quota),
{
    lemma_producer_sum_doubled(producer, quota, quota);
    lemma_neighbours_even(quota);
    assert(2 * quota * (producer * quota) == 2 * (quota * (producer * quota)))
        by (nonlinear_arith);
}

/// Twice the sum of the workload.
proof fn lemma_workload_sum_doubled(producers: int, quota: int)
    requires
        0 <= producers,
        0 <= quota,
    ensures
        2 * workload_sum(producers, quota) == (producers * quota) * (producers * quota + 1),
    decreases producers,
{
    if producers > 0 {
        let fewer = producers - 1;
        lemma_workload_sum_doubled(fewer, quota);
        lemma_producer_sum_doubled(fewer, quota, quota);
        assert((fewer * quota) * (fewer * quota + 1) + 2 * quota * (fewer * quota) + quota * (quota
            + 1) == (producers * quota) * (producers * quota + 1)) by (nonlinear_arith)
            requires
                fewer == producers - 1,
        ;
    } else {
        assert((producers * quota) * (producers * quota + 1) == 0) by (nonlinear_arith)
            requires
                producers == 0,
        ;
    }
}

/// The checksum that a run must give depends on the configuration alone:
/// whatever the interleaving, the values sent are the numbers from 1 to the
/// total, and their sum is the closed form, which is also the sum of the
/// producers' contributions.
pub proof fn law_checksum_is_fixed(producers: int, quota: int)
    requires
        0 <= producers,
        0 <= quota,
    ensures
        workload_sum(producers, quota) == closed_sum(producers, quota),
        producers > 0 ==> workload_sum(producers, quota) == workload_sum(producers - 1, quota)
            + contribution(producers - 1, quota),
{
    lemma_workload_sum_doubled(producers, quota);
    lemma_neighbours_even(producers * quota);
    if producers > 0 {
        lemma_producer_sum(producers - 1, quota);
    }
}

/// No two sends carry the same value: a value tells its producer and its
/// number.
pub proof fn law_values_are_distinct(quota: int, a: int, i: int, b: int, j: int)
    requires
        0 <= i < quota,
        0 <= j < quota,
        value_of(a, quota, i) == value_of(b, quota, j),
    ensures
        a == b,
        i == j,
{
    assert(a == b) by (nonlinear_arith)
        requires
            0 <= i < quota,
            0 <= j < quota,
            a * quota + i == b * quota + j,
    ;
}

/// Every number from 1 to the total is sent: number `v` by producer
/// `(v - 1) / quota` as its send `(v - 1) % quota`.
pub proof fn law_values_cover_the_range(producers: int, quota: int, v: int)
    requires
        0 < quota,
        1 <= v <= producers * quota,
    ensures
        0 <= (v - 1) / quota < producers,
        0 <= (v - 1) % quota < quota,
        value_of((v - 1) / quota, quota, (v - 1) % quota) == v,
{
    let p = (v - 1) / quota;
    let i = (v - 1) % quota;
    vstd::arithmetic::div_mod::lemma_fundamental_div_mod(v - 1, quota);
    vstd::arithmetic::div_mod::lemma_mod_pos_bound(v - 1, quota);
    assert(quota * p == p * quota) by (nonlinear_arith);
    assert(0 <= p < producers) by (nonlinear_arith)
        requires
            0 < quota,
            0 <= i < quota,
            0 <= p * quota + i < producers * quota,
    ;
}

/// The sum of a part of the workload is at most the sum of the whole.
proof fn lemma_workload_sum_grows(fewer: int, producers: int, quota: int)
    requires
        0 <= fewer <= producers,
        0 <= quota,
    ensures
        0 <= workload_sum(fewer, quota) <= workload_sum(producers, quota),
        fewer < producers ==> workload_sum(fewer, quota) + contribution(fewer, quota)
            <= workload_sum(producers, quota),
    decreases producers,
{
    lemma_workload_sum_doubled(fewer, quota);
    assert(0 <= (fewer * quota) * (fewer * quota + 1)) by (nonlinear_arith)
        requires
            0 <= fewer,
            0 <= quota,
    ;
    if fewer < producers {
        lemma_workload_sum_grows(fewer, producers - 1, quota);
        lemma_producer_sum(producers - 1, quota);
        lemma_producer_sum(fewer, quota);
        lemma_producer_sum_doubled(producers - 1, quota, quota);
        assert(0 <= 2 * quota * ((producers - 1) * quota) + quota * (quota + 1))
            by (nonlinear_arith)
            requires
                1 <= producers,
                0 <= quota,
        ;
    }
}

/// The value that producer `producer` sends as its number `i`; `None`
/// where it does not fit in 64 bits.
pub fn producer_value(producer: u64, quota: u64, i: u64) -> (value: Option<u64>)
    ensures
        match value {
            Some(v) => v == value_of(producer as int, quota as int, i as int),
            None => value_of(producer as int, quota as int, i as int) > u64::MAX,
        },
{
    let base = producer.checked_mul(quota)?;
    let at = base.checked_add(i)?;
    at.checked_add(1)
}

/// The number of values that the whole workload sends; `None` where it
/// does not fit in 64 bits.
pub fn expected_total(producers: u64, quota: u64) -> (total: Option<u64>)
    ensures
        match total {
            Some(t) => t == producers * quota,
            None => producers * quota > u64::MAX,
        },
{
    producers.checked_mul(quota)
}

/// What one producer adds to the checksum; `None` where it does not fit in
/// 64 bits.
pub fn producer_contribution(producer: u64, quota: u64) -> (sum: Option<u64>)
    ensures
        match sum {
            Some(c) => c == contribution(producer as int, quota as int),
            None => contribution(producer as int, quota as int) > u64::MAX,
        },
{
    proof {
        lemma_neighbours_even(quota as int);
        assert(0 <= quota * (quota + 1) < 0x1_0000_0000_0000_0000 * 0x1_0000_0000_0000_0000)
            by (nonlinear_arith)
            requires
                0 <= quota < 0x1_0000_0000_0000_0000,
        ;
    }
    let wide: u128 = quota as u128;
    let triangle: u128 = wide * (wide + 1) / 2;
    proof {
        let p = producer as int;
        let q = quota as int;
        assert(0 <= q * (p * q)) by (nonlinear_arith)
            requires
                0 <= p,
                0 <= q,
        ;
        if q >= 1 {
            assert(p * q <= q * (p * q)) by (nonlinear_arith)
                requires
                    0 <= p,
                    1 <= q,
            ;
        } else {
            assert(p * q == 0) by (nonlinear_arith)
                requires
                    q == 0,
            ;
        }
    }
    if triangle > u64::MAX as u128 {
        return None;
    }
    let base = producer.checked_mul(quota)?;
    let lap = quota.checked_mul(base)?;
    lap.checked_add(triangle as u64)
}

/// The checksum that the consumers' sums must add up to: the sum of the
/// producers' contributions; `None` where it does not fit in 64 bits.
pub fn expected_sum(producers: u64, quota: u64) -> (sum: Option<u64>)
    ensures
        match sum {
            Some(s) => s == workload_sum(producers as int, quota as int),
            None => workload_sum(producers as int, quota as int) > u64::MAX,
        },
{
    let mut total: u64 = 0;
    let mut p: u64 = 0;
    while p < producers
        invariant
            p <= producers,
            total == workload_sum(p as int, quota as int),
        decreases producers - p,
    {
        proof {
            lemma_workload_sum_grows(p as int, producers as int, quota as int);
            lemma_producer_sum(p as int, quota as int);
        }
        let share = match producer_contribution(p, quota) {
            Some(share) => share,
            None => {
                return None;
            },
        };
        total = match total.checked_add(share) {
            Some(next) => next,
            None => {
                return None;
            },
        };
        p += 1;
    }
    Some(total)
}

/// Whether the consumers may stop: `consumed` values have been taken out
/// of `total`.
pub fn drained(consumed: u64, total: u64) -> (done: bool)
    ensures
        done == (consumed >= total),
{
    consumed >= total
}

/// What one thread has counted: the sum of its values, modulo 2^64, and
/// their number, modulo 2^64.
#[derive(Clone, Copy, Debug, PartialEq, Eq, Structural)]
pub struct Tally {
    pub sum: u64,
    pub ops: u64,
}

impl Tally {
    /// The tally of nothing.
    pub fn new() -> (tally: Tally)
        ensures
            tally.sum == 0,
            tally.ops == 0,
    {
        Tally { sum: 0, ops: 0 }
    }

    /// Counts one value.
    pub fn record(&mut self, value: u64)
        ensures
            final(self).sum == (old(self).sum + value) % 0x1_0000_0000_0000_0000,
            final(self).ops == (old(self).ops + 1) % 0x1_0000_0000_0000_0000,
    {
        self.sum = self.sum.wrapping_add(value);
        self.ops = self.ops.wrapping_add(1);
    }

    /// Adds what another thread has counted.
    pub fn merge(&mut self, other: &Tally)
        ensures
            final(self).sum == (old(self).sum + other.sum) % 0x1_0000_0000_0000_0000,
            final(self).ops == (old(self).ops + other.ops) % 0x1_0000_0000_0000_0000,
    {
        self.sum = self.sum.wrapping_add(other.sum);
        self.ops = self.ops.wrapping_add(other.ops);
    }
}

/// The outcome of a run: how many values were sent and received, the sum
/// of what was received, and the sum that was due.
#[derive(Clone, Copy, Debug, PartialEq, Eq, Structural)]
pub struct Report {
    pub produced: u64,
    pub consumed: u64,
    pub checksum: u64,
    pub expected: u64,
}

impl Report {
    /// The run is good: the checksum is the expected one.
    pub open spec fn good(&self) -> bool {
        self.checksum == self.expected
    }

    /// Whether the run is good.
    pub fn passed(&self) -> (ok: bool)
        ensures
            ok == self.good(),
    {
        self.checksum == self.expected
    }

    /// The exit status of the process: 0 for a good run, 1 otherwise.
    pub fn exit_code(&self) -> (code: i32)
        ensures
            code == (if self.good() {
                0i32
            } else {
                1i32
            }),
    {
        if self.checksum == self.expected {
            0
        } else {
            1
        }
    }
}

} // verus!
