//! What the protocol guarantees in every run, whatever the threads do and
//! in whatever order: nothing is lost or handed out twice, the queue never
//! holds more than its capacity, its contents change in first-in first-out
//! order, and a call fails only for want of room or of a value.

use vstd::prelude::*;
use crate::queue::protocol::apply;
use crate::queue::protocol::enabled;
use crate::queue::protocol::is_run;
use crate::queue::protocol::Ring;
use crate::queue::protocol::Step;
use crate::queue::safety::consumed;
use crate::queue::safety::consumer_ok;
use crate::queue::safety::inv;
use crate::queue::safety::lemma_mod_close;
use crate::queue::safety::lemma_mod_range;
use crate::queue::safety::lemma_mod_successor;
use crate::queue::safety::lemma_run_is_safe;
use crate::queue::safety::lemma_step_is_safe;
use crate::queue::safety::lemma_values_below_agree;
use crate::queue::safety::lemma_values_below_grows;
use crate::queue::safety::lemma_values_below_part;
use crate::queue::safety::produced;
use crate::queue::safety::producer_ok;
use crate::queue::safety::reading_ok;
use crate::queue::safety::slot_free;
use crate::queue::safety::slot_full;
use crate::queue::safety::slot_ok;
use crate::queue::safety::writing_ok;
use crate::queue::turn::lemma_turn_follows_order;
use crate::queue::turn::published;
use crate::queue::turn::released;
use crate::queue::turn::turn_at;
use crate::queue::turn::turn_of;

verus! {

/// In every state of every run on a queue of two cells or more, the
/// dequeue cursor is not ahead of the enqueue cursor and not more than one
/// lap behind it: the queue never holds more values than it has cells.
pub proof fn law_bounded_occupancy(trace: Seq<Ring>, i: int)
    requires
        is_run(trace),
        trace[0].capacity >= 2,
        0 <= i < trace.len(),
    ensures
        0 <= trace[i].enqueue_pos - trace[i].dequeue_pos <= trace[i].capacity,
        trace[i].contents().len() <= trace[i].capacity,
{
    lemma_run_is_safe(trace, i);
}

/// No thread is in the middle of an operation, so no position is under a
/// thread's hand.
proof fn lemma_quiet_hands(s: Ring)
    requires
        inv(s),
        s.quiet(),
    ensures
        forall|p: int| !s.writing.contains_key(p),
        forall|p: int| !s.reading.contains_key(p),
        forall|p: int| 0 <= p < s.enqueue_pos ==> s.accepted.contains_key(p),
        forall|p: int| 0 <= p < s.dequeue_pos ==> s.delivered.contains_key(p),
{
    assert forall|p: int| !s.writing.contains_key(p) by {
        if s.writing.contains_key(p) {
            assert(writing_ok(s, p));
            assert(s.producers.dom().contains(s.writing[p]));
        }
    }
    assert forall|p: int| !s.reading.contains_key(p) by {
        if s.reading.contains_key(p) {
            assert(reading_ok(s, p));
            assert(s.consumers.dom().contains(s.reading[p]));
        }
    }
    assert forall|p: int| 0 <= p < s.enqueue_pos implies s.accepted.contains_key(p) by {
        assert(produced(s, p));
    }
    assert forall|p: int| 0 <= p < s.dequeue_pos implies s.delivered.contains_key(p) by {
        assert(consumed(s, p));
    }
}

/// In every state of every run on a queue of two cells or more, the
/// values received are among the values sent, each no more often than it
/// was sent, and what a consumer took from a position is what a producer
/// put there. Once no operation is in progress and the queue is drained,
/// the values received are exactly the values sent.
pub proof fn law_nothing_lost_nothing_twice(trace: Seq<Ring>, i: int)
    requires
        is_run(trace),
        trace[0].capacity >= 2,
        0 <= i < trace.len(),
    ensures
        trace[i].received.subset_of(trace[i].sent),
        forall|p: int| #[trigger]
            trace[i].delivered.contains_key(p) ==> trace[i].accepted.contains_key(p)
                && trace[i].delivered[p] == trace[i].accepted[p],
        trace[i].quiet() && trace[i].enqueue_pos == trace[i].dequeue_pos ==> trace[i].received
            == trace[i].sent,
{
    let s = trace[i];
    lemma_run_is_safe(trace, i);
    lemma_values_below_part(s.delivered, s.accepted, s.dequeue_pos);
    lemma_values_below_grows(s.accepted, s.dequeue_pos, s.enqueue_pos);
    if s.quiet() && s.enqueue_pos == s.dequeue_pos {
        lemma_quiet_hands(s);
        lemma_values_below_agree(s.delivered, s.accepted, s.enqueue_pos);
    }
}

/// The count of finished `dequeue` calls tells when a workload is done:
/// once as many values were received as the producers send in all, they
/// are exactly the values sent, and none is left in the queue.
pub proof fn law_full_count_means_all_arrived(trace: Seq<Ring>, i: int, total: nat)
    requires
        is_run(trace),
        trace[0].capacity >= 2,
        0 <= i < trace.len(),
        trace[i].sent.len() <= total,
        trace[i].received.len() >= total,
    ensures
        trace[i].received == trace[i].sent,
{
    let s = trace[i];
    law_nothing_lost_nothing_twice(trace, i);
    let rest = s.sent.sub(s.received);
    assert(rest.len() == 0);
    assert(rest =~= vstd::multiset::Multiset::empty());
    assert forall|v: u64| s.received.count(v) == s.sent.count(v) by {
        assert(rest.count(v) == 0);
    }
    assert(s.received =~= s.sent);
}

/// The cursors only advance, and by one position at a time.
pub proof fn law_cursors_only_advance(s: Ring, step: Step)
    requires
        enabled(s, step),
    ensures
        s.enqueue_pos <= apply(s, step).enqueue_pos <= s.enqueue_pos + 1,
        s.dequeue_pos <= apply(s, step).dequeue_pos <= s.dequeue_pos + 1,
        apply(s, step).capacity == s.capacity,
{
}

/// A position is won once: the compare-and-swap that a producer wins
/// gives it a position that no producer had, and the one that a consumer
/// wins a position that no consumer had and whose value is published.
pub proof fn law_positions_are_won_once(s: Ring, step: Step)
    requires
        inv(s),
        enabled(s, step),
    ensures
        match step {
            Step::ProducerClaim { thread, won, seen } => won ==> !produced(
                s,
                s.producers[thread]->Claim_pos,
            ),
            Step::ConsumerClaim { thread, won, seen } => won ==> {
                &&& !consumed(s, s.consumers[thread]->Claim_pos)
                &&& s.accepted.contains_key(s.consumers[thread]->Claim_pos)
            },
            _ => true,
        },
{
    match step {
        Step::ProducerClaim { thread, won, seen } => {
            if won && s.writing.contains_key(s.enqueue_pos) {
                assert(writing_ok(s, s.enqueue_pos));
            }
        },
        Step::ConsumerClaim { thread, won, seen } => {
            if won {
                assert(consumer_ok(s, thread));
                lemma_mod_range(s.dequeue_pos, s.capacity);
                assert(slot_ok(s, s.slot(s.dequeue_pos)));
                if slot_free(s, s.slot(s.dequeue_pos)) {
                    lemma_mod_successor(s.dequeue_pos, s.capacity);
                }
                if s.reading.contains_key(s.dequeue_pos) {
                    assert(reading_ok(s, s.dequeue_pos));
                }
            }
        },
        _ => {},
    }
}

/// No cell is under two hands: the positions that threads hold, to write
/// or to read, lie in different cells. So the payload of a cell is never
/// written while another thread writes or reads it.
pub proof fn law_one_hand_per_cell(s: Ring, p: int, q: int)
    requires
        inv(s),
        s.writing.contains_key(p) || s.reading.contains_key(p),
        s.writing.contains_key(q) || s.reading.contains_key(q),
        p != q,
    ensures
        s.slot(p) != s.slot(q),
        !(s.writing.contains_key(p) && s.reading.contains_key(p)),
{
    if s.writing.contains_key(p) {
        assert(writing_ok(s, p));
    }
    if s.reading.contains_key(p) {
        assert(reading_ok(s, p));
    }
    if s.writing.contains_key(q) {
        assert(writing_ok(s, q));
    }
    if s.reading.contains_key(q) {
        assert(reading_ok(s, q));
    }
    if s.slot(p) == s.slot(q) {
        if p < q {
            lemma_mod_successor(p, s.capacity);
        } else {
            lemma_mod_successor(q, s.capacity);
        }
    }
}

/// A step that is not a winning compare-and-swap leaves every claimed
/// position its value.
proof fn lemma_values_stay(s: Ring, step: Step, pos: int)
    requires
        inv(s),
        enabled(s, step),
        0 <= pos < s.enqueue_pos,
    ensures
        apply(s, step).value_at(pos) == s.value_at(pos),
{
    let t = apply(s, step);
    assert(produced(s, pos));
    if !s.accepted.contains_key(pos) {
        assert(s.writing.contains_key(pos));
        assert(writing_ok(s, pos));
    }
    match step {
        Step::ProducerProbe { thread, seen } => {},
        Step::ProducerClaim { thread, won, seen } => {},
        Step::ProducerFill { thread } => {
            assert(producer_ok(s, thread));
        },
        Step::ProducerPublish { thread } => {
            assert(producer_ok(s, thread));
        },
        _ => {},
    }
}

/// The contents of the queue change as those of a first-in first-out
/// buffer, at the compare-and-swaps: the one that a producer wins appends
/// the producer's value, the one that a consumer wins removes the oldest
/// value, which is the value accepted at the consumer's position and the
/// value that the consumer gives back when it is done. No other step
/// changes the contents.
pub proof fn law_contents_are_first_in_first_out(s: Ring, step: Step)
    requires
        inv(s),
        enabled(s, step),
    ensures
        match step {
            Step::ProducerClaim { thread, won, seen } => apply(s, step).contents() == (if won {
                s.contents().push(s.producers[thread].value())
            } else {
                s.contents()
            }),
            Step::ConsumerClaim { thread, won, seen } => if won {
                &&& s.contents().len() > 0
                &&& apply(s, step).contents() == s.contents().drop_first()
                &&& s.accepted.contains_key(s.dequeue_pos)
                &&& s.accepted[s.dequeue_pos] == s.contents()[0]
            } else {
                apply(s, step).contents() == s.contents()
            },
            Step::ConsumerRelease { thread } => {
                &&& apply(s, step).contents() == s.contents()
                &&& s.accepted.contains_key(s.consumers[thread]->Release_pos)
                &&& s.consumers[thread]->Release_value
                    == s.accepted[s.consumers[thread]->Release_pos]
            },
            _ => apply(s, step).contents() == s.contents(),
        },
{
    let t = apply(s, step);
    lemma_step_is_safe(s, step);
    assert forall|p: int| 0 <= p < s.enqueue_pos implies #[trigger] t.value_at(p) == s.value_at(
        p,
    ) by {
        lemma_values_stay(s, step, p);
    }
    match step {
        Step::ProducerClaim { thread, won, seen } => {
            if won {
                assert(!s.accepted.contains_key(s.enqueue_pos));
                assert(t.contents() =~= s.contents().push(s.producers[thread].value()));
            } else {
                assert(t.contents() =~= s.contents());
            }
        },
        Step::ConsumerClaim { thread, won, seen } => {
            if won {
                assert(consumer_ok(s, thread));
                lemma_mod_range(s.dequeue_pos, s.capacity);
                assert(slot_ok(s, s.slot(s.dequeue_pos)));
                if slot_free(s, s.slot(s.dequeue_pos)) {
                    lemma_mod_successor(s.dequeue_pos, s.capacity);
                }
                assert(t.contents() =~= s.contents().drop_first());
            } else {
                assert(t.contents() =~= s.contents());
            }
        },
        Step::ConsumerRelease { thread } => {
            assert(consumer_ok(s, thread));
            assert(t.contents() =~= s.contents());
        },
        _ => {
            assert(t.contents() =~= s.contents());
        },
    }
}

/// An `enqueue` returns `false` from its look at a cell only when the
/// position it looked at is the enqueue cursor and the cell is still taken
/// by the position one lap back, whose value no `dequeue` has handed out
/// yet: the ring has no room for the position.
pub proof fn law_refusal_means_no_room(s: Ring, thread: int, seen: int)
    requires
        inv(s),
        enabled(s, Step::ProducerProbe { thread, seen }),
        !apply(s, Step::ProducerProbe { thread, seen }).producers.contains_key(thread),
    ensures
        s.producers[thread]->Probe_pos == s.enqueue_pos,
        s.enqueue_pos >= s.capacity,
        !s.delivered.contains_key(s.enqueue_pos - s.capacity),
{
    let pos = s.producers[thread]->Probe_pos;
    assert(producer_ok(s, thread));
    lemma_mod_range(pos, s.capacity);
    let i = s.slot(pos);
    let stamp = s.cells[i].stamp;
    assert(slot_ok(s, i));
    assert(stamp < pos);
    if slot_free(s, i) {
        assert(s.writing.contains_key(stamp));
        assert(writing_ok(s, stamp));
        if pos - stamp < s.capacity {
            lemma_mod_close(stamp, pos, s.capacity);
        }
        assert(stamp == s.dequeue_pos && pos == s.enqueue_pos);
    } else {
        let held = stamp - 1;
        if pos - held < s.capacity {
            lemma_mod_close(held, pos, s.capacity);
        }
        if s.reading.contains_key(held) {
            assert(reading_ok(s, held));
        }
        assert(held == pos - s.capacity && pos == s.enqueue_pos);
    }
}

/// A `dequeue` returns `false` from its look at a cell only when the
/// position it looked at is the dequeue cursor and no value is published
/// there: no producer has claimed the position, or the one that has is
/// still writing.
pub proof fn law_failure_means_nothing_ready(s: Ring, thread: int, seen: int)
    requires
        inv(s),
        enabled(s, Step::ConsumerProbe { thread, seen }),
        !apply(s, Step::ConsumerProbe { thread, seen }).consumers.contains_key(thread),
    ensures
        s.consumers[thread]->Probe_pos == s.dequeue_pos,
        s.dequeue_pos == s.enqueue_pos || s.writing.contains_key(s.dequeue_pos),
        !s.accepted.contains_key(s.dequeue_pos),
{
    let pos = s.consumers[thread]->Probe_pos;
    assert(consumer_ok(s, thread));
    lemma_mod_range(pos, s.capacity);
    let i = s.slot(pos);
    let stamp = s.cells[i].stamp;
    assert(slot_ok(s, i));
    assert(stamp <= pos);
    if slot_free(s, i) {
        if s.writing.contains_key(stamp) {
            assert(writing_ok(s, stamp));
        }
        assert(stamp == pos && pos == s.dequeue_pos);
    } else {
        let held = stamp - 1;
        if pos - held < s.capacity {
            lemma_mod_close(held, pos, s.capacity);
        }
        assert(s.reading.contains_key(held));
        assert(reading_ok(s, held));
        assert(pos == s.dequeue_pos && s.dequeue_pos == s.enqueue_pos);
    }
    if s.accepted.contains_key(s.dequeue_pos) && s.writing.contains_key(s.dequeue_pos) {
        assert(writing_ok(s, s.dequeue_pos));
    }
}

/// A producer that looks at the right position of a full queue is told
/// that the queue is full, whatever the other threads are doing: its call
/// ends at once and changes nothing.
pub proof fn law_full_queue_refuses(s: Ring, thread: int, seen: int)
    requires
        inv(s),
        enabled(s, Step::ProducerProbe { thread, seen }),
        s.producers[thread]->Probe_pos == s.enqueue_pos,
        s.enqueue_pos == s.dequeue_pos + s.capacity,
    ensures
        apply(s, Step::ProducerProbe { thread, seen }) == (Ring {
            producers: s.producers.remove(thread),
            ..s
        }),
{
    let pos = s.enqueue_pos;
    lemma_mod_range(pos, s.capacity);
    let i = s.slot(pos);
    assert(slot_ok(s, i));
    let stamp = s.cells[i].stamp;
    if slot_full(s, i) && stamp == pos {
        lemma_mod_successor(pos - 1, s.capacity);
    }
}

/// Every stamp and every position that a thread may hold lies between 0
/// and one lap beyond the enqueue cursor.
pub proof fn law_counters_are_near(s: Ring, pos: int)
    requires
        inv(s),
        0 <= pos <= s.enqueue_pos,
    ensures
        0 <= s.cell(pos).stamp <= s.enqueue_pos + s.capacity,
{
    lemma_mod_range(pos, s.capacity);
    assert(slot_ok(s, s.slot(pos)));
}

/// As long as the enqueue cursor is more than a lap below 2^63, the turn
/// that the code reads off two 64-bit counters is the turn that the
/// protocol reads off the integers: for a producer at `pos` and for a
/// consumer at `pos`.
pub proof fn law_code_decides_as_protocol(s: Ring, pos: int)
    requires
        inv(s),
        0 <= pos <= s.enqueue_pos,
        s.enqueue_pos + s.capacity < 0x8000_0000_0000_0000,
    ensures
        turn_at(s.cell(pos).stamp as u64, pos as u64) == turn_of(s.cell(pos).stamp, pos),
        turn_at(s.cell(pos).stamp as u64, (pos + 1) as u64) == turn_of(
            s.cell(pos).stamp,
            pos + 1,
        ),
{
    law_counters_are_near(s, pos);
    lemma_turn_follows_order(s.cell(pos).stamp as u64, pos as u64);
    lemma_turn_follows_order(s.cell(pos).stamp as u64, (pos + 1) as u64);
}

/// As long as a position is more than a lap below 2^64, the stamps that
/// the code stores are the stamps of the protocol: one more than the
/// position to publish, a lap more to release.
pub proof fn law_code_stamps_as_protocol(pos: u64, cells: usize)
    requires
        pos + cells < 0x1_0000_0000_0000_0000,
        cells >= 1,
    ensures
        published(pos) == pos + 1,
        released(pos, cells) == pos + cells,
{
}

} // verus!
