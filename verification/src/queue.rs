//! A bounded lock-free queue for many producers and many consumers.
//!
//! The ring holds a power-of-two number of cells. Each cell carries a
//! sequence number that says whose turn the cell is at: a producer that
//! targets position `pos` may write when the number is `pos`, a consumer
//! that targets `pos` may read when it is `pos + 1`, and after reading it
//! sets the number to `pos + capacity` for the producer of the next lap.
//! Two cursors, advanced by compare-and-swap, hand out the positions.
//!
//! The atomics are opaque to the verifier: what is proved of the threads'
//! code is that it indexes within the ring, never overflows and ends. What
//! the algorithm guarantees is proved of its model in [`protocol`], whose
//! steps take the decisions of [`turn`] that this code takes.

use vstd::prelude::*;
use std::sync::atomic::AtomicU64;
use std::sync::atomic::Ordering;
use vstd::arithmetic::power2::lemma2_to64;
use vstd::arithmetic::power2::pow2;

pub mod alone;
pub mod index;
pub mod laws;
pub mod protocol;
pub mod safety;
pub mod turn;

use crate::queue::index::is_power_of_two;
use crate::queue::index::masks;
use crate::queue::index::power_of_two;
use crate::queue::index::slot_index;
use crate::queue::turn::consumer_turn;
use crate::queue::turn::producer_turn;
use crate::queue::turn::published_stamp;
use crate::queue::turn::released_stamp;
use crate::queue::turn::Turn;

verus! {

/// Capacity of the queue that [`Queue::new`] makes.
pub const QUEUE_SIZE: usize = 65536;

/// The index mask of a queue of [`QUEUE_SIZE`] cells.
pub const QUEUE_MASK: usize = QUEUE_SIZE - 1;

/// How many rounds of its retry loop one call of `enqueue` or `dequeue`
/// makes at most before it reports failure.
pub const SPIN_LIMIT: u64 = u64::MAX;

/// `std::hint::spin_loop`: tells the processor that the thread is in a
/// busy-wait loop. It computes nothing, so nothing is claimed of it.
pub assume_specification[ std::hint::spin_loop ]();

/// One slot of the ring: its sequence number and its payload.
pub struct Cell {
    sequence: AtomicU64,
    data: AtomicU64,
}

/// A cursor with 56 bytes of padding, 64 bytes in all: two cursors that
/// are fields of one struct lie at least 64 bytes apart and so never share
/// a cache line of that size.
pub struct PaddedCursor {
    value: AtomicU64,
    padding: [u64; 7],
}

impl PaddedCursor {
    /// A cursor at position 0, behind it seven words of zeros.
    fn new() -> (cursor: Self)
        ensures
            cursor.padding@ == Seq::new(7, |i: int| 0u64),
    {
        let cursor = PaddedCursor { value: AtomicU64::new(0), padding: [0u64; 7] };
        assert(cursor.padding@ =~= Seq::new(7, |i: int| 0u64));
        cursor
    }
}

/// The queue: the ring of cells and the two cursors.
pub struct Queue {
    buffer: Vec<Cell>,
    mask: usize,
    enqueue_pos: PaddedCursor,
    dequeue_pos: PaddedCursor,
}

impl Queue {
    #[verifier::type_invariant]
    spec fn well_formed(&self) -> bool {
        masks(self.mask, self.buffer.len())
    }

    /// The number of cells.
    pub closed spec fn cells(&self) -> nat {
        self.buffer.len() as nat
    }

    /// A queue of `capacity` cells, each stamped with its own index, both
    /// cursors at 0; `None` where `capacity` is no power of two.
    ///
    /// The laws of the queue hold from two cells on. A ring of one cell can
    /// be made, but it cannot tell full from free: see
    /// [`alone::law_one_cell_is_never_full`].
    pub fn with_capacity(capacity: usize) -> (made: Option<Queue>)
        ensures
            made is Some <==> power_of_two(capacity as nat),
            made is Some ==> made.unwrap().cells() == capacity,
    {
        if !is_power_of_two(capacity) {
            return None;
        }
        let mut buffer: Vec<Cell> = Vec::new();
        let mut i: usize = 0;
        while i < capacity
            invariant
                i <= capacity,
                buffer.len() == i,
            decreases capacity - i,
        {
            buffer.push(Cell { sequence: AtomicU64::new(i as u64), data: AtomicU64::new(0) });
            i += 1;
        }
        proof {
            assert forall|k: nat| capacity as nat == pow2(k) implies capacity >= 1 by {
                vstd::arithmetic::power2::lemma_pow2_pos(k);
            }
        }
        Some(
            Queue {
                buffer,
                mask: capacity - 1,
                enqueue_pos: PaddedCursor::new(),
                dequeue_pos: PaddedCursor::new(),
            },
        )
    }

    /// A queue of [`QUEUE_SIZE`] cells.
    pub fn new() -> (queue: Box<Self>)
        ensures
            queue.cells() == QUEUE_SIZE,
    {
        proof {
            lemma2_to64();
            assert(QUEUE_SIZE as nat == pow2(16));
        }
        Box::new(Queue::with_capacity(QUEUE_SIZE).unwrap())
    }

    /// The number of cells.
    pub fn capacity(&self) -> (n: usize)
        ensures
            n == self.cells(),
    {
        proof {
            use_type_invariant(self);
        }
        self.buffer.len()
    }

    /// Tries to append `data`, without blocking: `false` where the ring
    /// was found to have no room.
    ///
    /// A thread that loses the race for a position tries the next one, up
    /// to [`SPIN_LIMIT`] times. What the call returns depends on what the
    /// other threads do; [`laws`] says what holds of every outcome.
    pub fn enqueue(&self, data: u64) -> (accepted: bool) {
        proof {
            use_type_invariant(self);
        }
        let mut pos = self.enqueue_pos.value.load(Ordering::Relaxed);
        let mut spins: u64 = 0;
        while spins < SPIN_LIMIT
            invariant
                masks(self.mask, self.buffer.len()),
            decreases SPIN_LIMIT - spins,
        {
            let cell = &self.buffer[slot_index(pos, self.mask)];
            let seq = cell.sequence.load(Ordering::Acquire);
            match producer_turn(seq, pos) {
                Turn::Ready => {
                    match self.enqueue_pos.value.compare_exchange_weak(
                        pos,
                        pos.wrapping_add(1),
                        Ordering::Relaxed,
                        Ordering::Relaxed,
                    ) {
                        Ok(_) => {
                            cell.data.store(data, Ordering::Relaxed);
                            cell.sequence.store(published_stamp(pos), Ordering::Release);
                            return true;
                        },
                        Err(current) => {
                            pos = current;
                        },
                    }
                },
                Turn::NotYet => {
                    return false;
                },
                Turn::Passed => {
                    pos = self.enqueue_pos.value.load(Ordering::Relaxed);
                },
            }
            spins += 1;
            std::hint::spin_loop();
        }
        false
    }

    /// Tries to take the oldest value, without blocking: `false` where
    /// the ring was found to hold no published value, and `data` is then
    /// left as it was.
    ///
    /// A thread that loses the race for a position tries the next one, up
    /// to [`SPIN_LIMIT`] times. What the call returns depends on what the
    /// other threads do; [`laws`] says what holds of every outcome.
    pub fn dequeue(&self, data: &mut u64) -> (taken: bool)
        ensures
            !taken ==> *final(data) == *old(data),
    {
        proof {
            use_type_invariant(self);
        }
        let mut pos = self.dequeue_pos.value.load(Ordering::Relaxed);
        let mut spins: u64 = 0;
        while spins < SPIN_LIMIT
            invariant
                masks(self.mask, self.buffer.len()),
                *data == *old(data),
            decreases SPIN_LIMIT - spins,
        {
            let cell = &self.buffer[slot_index(pos, self.mask)];
            let seq = cell.sequence.load(Ordering::Acquire);
            match consumer_turn(seq, pos) {
                Turn::Ready => {
                    match self.dequeue_pos.value.compare_exchange_weak(
                        pos,
                        pos.wrapping_add(1),
                        Ordering::Relaxed,
                        Ordering::Relaxed,
                    ) {
                        Ok(_) => {
                            *data = cell.data.load(Ordering::Relaxed);
                            cell.sequence.store(
                                released_stamp(pos, self.buffer.len()),
                                Ordering::Release,
                            );
                            return true;
                        },
                        Err(current) => {
                            pos = current;
                        },
                    }
                },
                Turn::NotYet => {
                    return false;
                },
                Turn::Passed => {
                    pos = self.dequeue_pos.value.load(Ordering::Relaxed);
                },
            }
            spins += 1;
            std::hint::spin_loop();
        }
        false
    }
}

} // verus!
