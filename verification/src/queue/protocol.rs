//! The queue's protocol as a transition system.
//!
//! A state holds what the threads share (the cells and the two cursors),
//! what each thread in the middle of an operation is about to do, and a
//! record of what has happened: which positions are claimed, and the values
//! that the finished operations carried. A step is one atomic action of one
//! thread: a load, a compare-and-swap or a store. Steps of different
//! threads interleave in any order.
//!
//! The steps follow the code of `enqueue` and `dequeue` line by line.
//! A relaxed load of a cursor may return any value that the cursor has held
//! so far, so a step that loads a cursor takes the value seen as a
//! parameter, bound only by the cursor's present value. A weak
//! compare-and-swap may fail though the cursor holds the expected value.
//! A cell is read as the last step on it left it: in the code the release
//! store and the acquire load of the cell's sequence number see to that.
//! Positions and sequence numbers are integers that never wrap: 2^64
//! operations are out of a run's reach.

use vstd::prelude::*;
use vstd::multiset::Multiset;
use crate::queue::turn::turn_of;
use crate::queue::turn::Turn;

verus! {

/// A cell: its sequence number and its payload.
pub struct Slot {
    pub stamp: int,
    pub value: u64,
}

/// An `enqueue` in progress, by the action that comes next.
pub enum Producer {
    /// Load the sequence number of the cell of `pos`.
    Probe { pos: int, value: u64 },
    /// Compare-and-swap the enqueue cursor from `pos` to `pos + 1`.
    Claim { pos: int, value: u64 },
    /// Store `value` in the cell of `pos`.
    Fill { pos: int, value: u64 },
    /// Store `pos + 1` as the cell's sequence number and return `true`.
    Publish { pos: int, value: u64 },
}

impl Producer {
    /// The value that the `enqueue` carries.
    pub open spec fn value(self) -> u64 {
        match self {
            Producer::Probe { value, .. } => value,
            Producer::Claim { value, .. } => value,
            Producer::Fill { value, .. } => value,
            Producer::Publish { value, .. } => value,
        }
    }
}

/// A `dequeue` in progress, by the action that comes next.
pub enum Consumer {
    /// Load the sequence number of the cell of `pos`.
    Probe { pos: int },
    /// Compare-and-swap the dequeue cursor from `pos` to `pos + 1`.
    Claim { pos: int },
    /// Load the payload of the cell of `pos`.
    Take { pos: int },
    /// Store `pos + capacity` as the cell's sequence number and return
    /// `true` with `value`.
    Release { pos: int, value: u64 },
}

/// A state of the queue and of the threads that work on it.
#[verifier::ext_equal]
pub struct Ring {
    /// The number of cells.
    pub capacity: int,
    /// The cells.
    pub cells: Seq<Slot>,
    /// The enqueue cursor: the next position to write.
    pub enqueue_pos: int,
    /// The dequeue cursor: the next position to read.
    pub dequeue_pos: int,
    /// The `enqueue` calls in progress, by thread.
    pub producers: Map<int, Producer>,
    /// The `dequeue` calls in progress, by thread.
    pub consumers: Map<int, Consumer>,
    /// The positions claimed by a producer that has not published yet, each
    /// with the thread that claimed it.
    pub writing: Map<int, int>,
    /// The positions claimed by a consumer that has not released yet, each
    /// with the thread that claimed it.
    pub reading: Map<int, int>,
    /// The value of every `enqueue` that has returned `true`, by position.
    pub accepted: Map<int, u64>,
    /// The value of every `dequeue` that has returned `true`, by position.
    pub delivered: Map<int, u64>,
    /// The values of the `enqueue` calls that have returned `true`.
    pub sent: Multiset<u64>,
    /// The values that the `dequeue` calls that have returned `true` gave.
    pub received: Multiset<u64>,
}

/// One atomic action of one thread.
pub enum Step {
    /// `thread` enters `enqueue(value)` and loads the enqueue cursor.
    BeginEnqueue { thread: int, value: u64, seen: int },
    /// A producer loads its cell's sequence number and acts on the turn;
    /// where it has to reload the cursor, it sees `seen`.
    ProducerProbe { thread: int, seen: int },
    /// A producer compare-and-swaps the cursor; where it fails, it learns
    /// `seen`.
    ProducerClaim { thread: int, won: bool, seen: int },
    /// A producer stores its value.
    ProducerFill { thread: int },
    /// A producer publishes its cell and returns `true`.
    ProducerPublish { thread: int },
    /// A producer that is about to look at a cell has used up its rounds
    /// and returns `false`.
    ProducerQuit { thread: int },
    /// `thread` enters `dequeue` and loads the dequeue cursor.
    BeginDequeue { thread: int, seen: int },
    /// A consumer loads its cell's sequence number and acts on the turn.
    ConsumerProbe { thread: int, seen: int },
    /// A consumer compare-and-swaps the cursor.
    ConsumerClaim { thread: int, won: bool, seen: int },
    /// A consumer loads the payload.
    ConsumerTake { thread: int },
    /// A consumer releases its cell and returns `true` with the payload.
    ConsumerRelease { thread: int },
    /// A consumer that is about to look at a cell has used up its rounds
    /// and returns `false`.
    ConsumerQuit { thread: int },
}

impl Ring {
    /// The index of the cell of position `pos`.
    pub open spec fn slot(self, pos: int) -> int {
        pos % self.capacity
    }

    /// The cell of position `pos`.
    pub open spec fn cell(self, pos: int) -> Slot {
        self.cells[self.slot(pos)]
    }

    /// The state with the cell of `pos` replaced.
    pub open spec fn with_cell(self, pos: int, cell: Slot) -> Ring {
        Ring { cells: self.cells.update(self.slot(pos), cell), ..self }
    }

    /// No operation is in progress.
    pub open spec fn quiet(self) -> bool {
        &&& self.producers.dom() =~= Set::<int>::empty()
        &&& self.consumers.dom() =~= Set::<int>::empty()
    }

    /// The value that belongs to a position that a producer has claimed:
    /// the accepted one, or the one that the producer is about to publish.
    pub open spec fn value_at(self, pos: int) -> u64 {
        if self.accepted.contains_key(pos) {
            self.accepted[pos]
        } else {
            self.producers[self.writing[pos]].value()
        }
    }

    /// The values that are in the queue, oldest first: those of the
    /// positions that a producer has claimed and no consumer has. A value
    /// enters with the producer's compare-and-swap and leaves with the
    /// consumer's.
    pub open spec fn contents(self) -> Seq<u64> {
        Seq::new(
            (self.enqueue_pos - self.dequeue_pos) as nat,
            |k: int| self.value_at(self.dequeue_pos + k),
        )
    }
}

/// A fresh queue of `capacity` cells: each cell stamped with its index,
/// both cursors at 0, nothing in progress, nothing recorded.
pub open spec fn fresh(capacity: int) -> Ring {
    Ring {
        capacity,
        cells: Seq::new(capacity as nat, |i: int| Slot { stamp: i, value: 0 }),
        enqueue_pos: 0,
        dequeue_pos: 0,
        producers: Map::empty(),
        consumers: Map::empty(),
        writing: Map::empty(),
        reading: Map::empty(),
        accepted: Map::empty(),
        delivered: Map::empty(),
        sent: Multiset::empty(),
        received: Multiset::empty(),
    }
}

/// A value that a load of a cursor may return when the cursor holds
/// `current`.
pub open spec fn may_see(seen: int, current: int) -> bool {
    0 <= seen <= current
}

/// Whether `step` can be taken in state `s`.
pub open spec fn enabled(s: Ring, step: Step) -> bool {
    match step {
        Step::BeginEnqueue { thread, value, seen } => {
            &&& !s.producers.contains_key(thread)
            &&& may_see(seen, s.enqueue_pos)
        },
        Step::ProducerProbe { thread, seen } => {
            &&& s.producers.contains_key(thread)
            &&& s.producers[thread] is Probe
            &&& may_see(seen, s.enqueue_pos)
        },
        Step::ProducerClaim { thread, won, seen } => {
            &&& s.producers.contains_key(thread)
            &&& s.producers[thread] is Claim
            &&& won ==> s.producers[thread]->Claim_pos == s.enqueue_pos
            &&& may_see(seen, s.enqueue_pos)
        },
        Step::ProducerFill { thread } => {
            &&& s.producers.contains_key(thread)
            &&& s.producers[thread] is Fill
        },
        Step::ProducerPublish { thread } => {
            &&& s.producers.contains_key(thread)
            &&& s.producers[thread] is Publish
        },
        Step::ProducerQuit { thread } => {
            &&& s.producers.contains_key(thread)
            &&& s.producers[thread] is Probe
        },
        Step::BeginDequeue { thread, seen } => {
            &&& !s.consumers.contains_key(thread)
            &&& may_see(seen, s.dequeue_pos)
        },
        Step::ConsumerProbe { thread, seen } => {
            &&& s.consumers.contains_key(thread)
            &&& s.consumers[thread] is Probe
            &&& may_see(seen, s.dequeue_pos)
        },
        Step::ConsumerClaim { thread, won, seen } => {
            &&& s.consumers.contains_key(thread)
            &&& s.consumers[thread] is Claim
            &&& won ==> s.consumers[thread]->Claim_pos == s.dequeue_pos
            &&& may_see(seen, s.dequeue_pos)
        },
        Step::ConsumerTake { thread } => {
            &&& s.consumers.contains_key(thread)
            &&& s.consumers[thread] is Take
        },
        Step::ConsumerRelease { thread } => {
            &&& s.consumers.contains_key(thread)
            &&& s.consumers[thread] is Release
        },
        Step::ConsumerQuit { thread } => {
            &&& s.consumers.contains_key(thread)
            &&& s.consumers[thread] is Probe
        },
    }
}

/// The state after a producer's probe.
pub open spec fn producer_probe(s: Ring, thread: int, seen: int) -> Ring {
    let pos = s.producers[thread]->Probe_pos;
    let value = s.producers[thread]->Probe_value;
    match turn_of(s.cell(pos).stamp, pos) {
        Turn::Ready => Ring {
            producers: s.producers.insert(thread, Producer::Claim { pos, value }),
            ..s
        },
        Turn::NotYet => Ring { producers: s.producers.remove(thread), ..s },
        Turn::Passed => Ring {
            producers: s.producers.insert(thread, Producer::Probe { pos: seen, value }),
            ..s
        },
    }
}

/// The state after a producer's compare-and-swap.
pub open spec fn producer_claim(s: Ring, thread: int, won: bool, seen: int) -> Ring {
    let pos = s.producers[thread]->Claim_pos;
    let value = s.producers[thread]->Claim_value;
    if won {
        Ring {
            enqueue_pos: pos + 1,
            producers: s.producers.insert(thread, Producer::Fill { pos, value }),
            writing: s.writing.insert(pos, thread),
            ..s
        }
    } else {
        Ring {
            producers: s.producers.insert(thread, Producer::Probe { pos: seen, value }),
            ..s
        }
    }
}

/// The state after a producer has stored its value.
pub open spec fn producer_fill(s: Ring, thread: int) -> Ring {
    let pos = s.producers[thread]->Fill_pos;
    let value = s.producers[thread]->Fill_value;
    Ring {
        producers: s.producers.insert(thread, Producer::Publish { pos, value }),
        ..s.with_cell(pos, Slot { stamp: s.cell(pos).stamp, value })
    }
}

/// The state after a producer has published its cell.
pub open spec fn producer_publish(s: Ring, thread: int) -> Ring {
    let pos = s.producers[thread]->Publish_pos;
    let value = s.producers[thread]->Publish_value;
    Ring {
        producers: s.producers.remove(thread),
        writing: s.writing.remove(pos),
        accepted: s.accepted.insert(pos, value),
        sent: s.sent.insert(value),
        ..s.with_cell(pos, Slot { stamp: pos + 1, value: s.cell(pos).value })
    }
}

/// The state after a consumer's probe.
pub open spec fn consumer_probe(s: Ring, thread: int, seen: int) -> Ring {
    let pos = s.consumers[thread]->Probe_pos;
    match turn_of(s.cell(pos).stamp, pos + 1) {
        Turn::Ready => Ring {
            consumers: s.consumers.insert(thread, Consumer::Claim { pos }),
            ..s
        },
        Turn::NotYet => Ring { consumers: s.consumers.remove(thread), ..s },
        Turn::Passed => Ring {
            consumers: s.consumers.insert(thread, Consumer::Probe { pos: seen }),
            ..s
        },
    }
}

/// The state after a consumer's compare-and-swap.
pub open spec fn consumer_claim(s: Ring, thread: int, won: bool, seen: int) -> Ring {
    let pos = s.consumers[thread]->Claim_pos;
    if won {
        Ring {
            dequeue_pos: pos + 1,
            consumers: s.consumers.insert(thread, Consumer::Take { pos }),
            reading: s.reading.insert(pos, thread),
            ..s
        }
    } else {
        Ring { consumers: s.consumers.insert(thread, Consumer::Probe { pos: seen }), ..s }
    }
}

/// The state after a consumer has loaded the payload.
pub open spec fn consumer_take(s: Ring, thread: int) -> Ring {
    let pos = s.consumers[thread]->Take_pos;
    Ring {
        consumers: s.consumers.insert(
            thread,
            Consumer::Release { pos, value: s.cell(pos).value },
        ),
        ..s
    }
}

/// The state after a consumer has released its cell.
pub open spec fn consumer_release(s: Ring, thread: int) -> Ring {
    let pos = s.consumers[thread]->Release_pos;
    let value = s.consumers[thread]->Release_value;
    Ring {
        consumers: s.consumers.remove(thread),
        reading: s.reading.remove(pos),
        delivered: s.delivered.insert(pos, value),
        received: s.received.insert(value),
        ..s.with_cell(pos, Slot { stamp: pos + s.capacity, value: s.cell(pos).value })
    }
}

/// The state that `step` leads to from `s`.
pub open spec fn apply(s: Ring, step: Step) -> Ring {
    match step {
        Step::BeginEnqueue { thread, value, seen } => Ring {
            producers: s.producers.insert(thread, Producer::Probe { pos: seen, value }),
            ..s
        },
        Step::ProducerProbe { thread, seen } => producer_probe(s, thread, seen),
        Step::ProducerClaim { thread, won, seen } => producer_claim(s, thread, won, seen),
        Step::ProducerFill { thread } => producer_fill(s, thread),
        Step::ProducerPublish { thread } => producer_publish(s, thread),
        Step::ProducerQuit { thread } => Ring { producers: s.producers.remove(thread), ..s },
        Step::BeginDequeue { thread, seen } => Ring {
            consumers: s.consumers.insert(thread, Consumer::Probe { pos: seen }),
            ..s
        },
        Step::ConsumerProbe { thread, seen } => consumer_probe(s, thread, seen),
        Step::ConsumerClaim { thread, won, seen } => consumer_claim(s, thread, won, seen),
        Step::ConsumerTake { thread } => consumer_take(s, thread),
        Step::ConsumerRelease { thread } => consumer_release(s, thread),
        Step::ConsumerQuit { thread } => Ring { consumers: s.consumers.remove(thread), ..s },
    }
}

/// One step leads from `s` to `t`.
pub open spec fn next(s: Ring, t: Ring) -> bool {
    exists|step: Step| enabled(s, step) && t == apply(s, step)
}

/// A run: a sequence of states that starts with a fresh queue and goes on
/// by steps.
pub open spec fn is_run(trace: Seq<Ring>) -> bool {
    &&& trace.len() > 0
    &&& trace[0].capacity >= 1
    &&& trace[0] == fresh(trace[0].capacity)
    &&& forall|i: int| 0 <= i < trace.len() - 1 ==> next(#[trigger] trace[i], trace[i + 1])
}

} // verus!
