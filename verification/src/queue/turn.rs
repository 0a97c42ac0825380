//! Whose turn a cell is at. A cell's sequence number tells, against the
//! number that a thread waits for, whether the cell is ready for that
//! thread, not there yet, or already past it.

use vstd::prelude::*;

verus! {

/// What a thread learns from a cell's sequence number.
#[derive(Clone, Copy, Debug, PartialEq, Eq, Structural)]
pub enum Turn {
    /// The sequence number is the awaited one: the cell is this thread's.
    Ready,
    /// The sequence number is behind the awaited one: for a producer the
    /// cell is not free yet, for a consumer no value is published yet.
    NotYet,
    /// The sequence number is beyond the awaited one: another thread took
    /// this position.
    Passed,
}

/// The turn by the order of the integers.
pub open spec fn turn_of(stamp: int, awaited: int) -> Turn {
    if stamp == awaited {
        Turn::Ready
    } else if stamp < awaited {
        Turn::NotYet
    } else {
        Turn::Passed
    }
}

/// The distance from `awaited` to `stamp` on the circle of 64-bit numbers,
/// read as a signed number: between -2^63 and 2^63 - 1.
pub open spec fn signed_gap(stamp: u64, awaited: u64) -> int {
    let d = (stamp - awaited) % 0x1_0000_0000_0000_0000;
    if d < 0x8000_0000_0000_0000 {
        d
    } else {
        d - 0x1_0000_0000_0000_0000
    }
}

/// The turn that two 64-bit counters give: by the sign of their gap.
pub open spec fn turn_at(stamp: u64, awaited: u64) -> Turn {
    turn_of(signed_gap(stamp, awaited), 0)
}

/// The sequence number that a producer at `pos` waits for.
pub open spec fn producer_awaits(pos: u64) -> u64 {
    pos
}

/// The sequence number that a consumer at `pos` waits for.
pub open spec fn consumer_awaits(pos: u64) -> u64 {
    pos.wrapping_add(1)
}

/// The sequence number with which the producer of `pos` hands its cell to
/// the consumer of `pos`.
pub open spec fn published(pos: u64) -> u64 {
    pos.wrapping_add(1)
}

/// The sequence number with which the consumer of `pos` hands its cell to
/// the producer of the next lap, `pos + cells`.
pub open spec fn released(pos: u64, cells: usize) -> u64 {
    pos.wrapping_add(cells as u64)
}

/// Counters less than 2^63 apart give the turn that their order gives.
pub proof fn lemma_turn_follows_order(stamp: u64, awaited: u64)
    requires
        -0x8000_0000_0000_0000 <= stamp - awaited < 0x8000_0000_0000_0000,
    ensures
        signed_gap(stamp, awaited) == stamp - awaited,
        turn_at(stamp, awaited) == turn_of(stamp as int, awaited as int),
{
}

/// The turn of a cell whose sequence number is `stamp`, for a thread that
/// waits for `awaited`.
pub fn turn(stamp: u64, awaited: u64) -> (t: Turn)
    ensures
        t == turn_at(stamp, awaited),
{
    let d = stamp.wrapping_sub(awaited);
    if d == 0 {
        Turn::Ready
    } else if d >= 0x8000_0000_0000_0000 {
        Turn::NotYet
    } else {
        Turn::Passed
    }
}

/// What a producer at position `pos` finds in a cell stamped `stamp`.
pub fn producer_turn(stamp: u64, pos: u64) -> (t: Turn)
    ensures
        t == turn_at(stamp, producer_awaits(pos)),
{
    turn(stamp, pos)
}

/// What a consumer at position `pos` finds in a cell stamped `stamp`.
pub fn consumer_turn(stamp: u64, pos: u64) -> (t: Turn)
    ensures
        t == turn_at(stamp, consumer_awaits(pos)),
{
    turn(stamp, pos.wrapping_add(1))
}

/// The stamp that publishes the value written at `pos`.
pub fn published_stamp(pos: u64) -> (stamp: u64)
    ensures
        stamp == published(pos),
{
    pos.wrapping_add(1)
}

/// The stamp that frees the cell read at `pos`, in a ring of `cells` cells.
pub fn released_stamp(pos: u64, cells: usize) -> (stamp: u64)
    ensures
        stamp == released(pos, cells),
{
    pos.wrapping_add(cells as u64)
}

} // verus!
