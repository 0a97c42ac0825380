//! The queue under one thread at a time: a call that no other thread
//! disturbs runs through its steps without a retry, and the queue behaves
//! as a bounded first-in first-out buffer.

use vstd::prelude::*;
use vstd::arithmetic::div_mod::lemma_small_mod;
use crate::queue::protocol::apply;
use crate::queue::protocol::enabled;
use crate::queue::protocol::fresh;
use crate::queue::protocol::Ring;
use crate::queue::protocol::Step;
use crate::queue::safety::inv;
use crate::queue::safety::lemma_fresh_is_safe;
use crate::queue::safety::lemma_mod_close;
use crate::queue::safety::lemma_mod_range;
use crate::queue::safety::lemma_mod_successor;
use crate::queue::safety::lemma_step_is_safe;
use crate::queue::safety::reading_ok;
use crate::queue::safety::slot_free;
use crate::queue::safety::slot_ok;
use crate::queue::safety::writing_ok;

verus! {

/// The state in which `thread` has entered `enqueue(value)` and loaded the
/// cursor.
pub open spec fn enqueue_entered(s: Ring, thread: int, value: u64) -> Ring {
    apply(s, Step::BeginEnqueue { thread, value, seen: s.enqueue_pos })
}

/// The state in which the producer has looked at its cell.
pub open spec fn enqueue_probed(s: Ring, thread: int, value: u64) -> Ring {
    apply(enqueue_entered(s, thread, value), Step::ProducerProbe { thread, seen: s.enqueue_pos })
}

/// The state in which the producer has won its position.
pub open spec fn enqueue_claimed(s: Ring, thread: int, value: u64) -> Ring {
    apply(
        enqueue_probed(s, thread, value),
        Step::ProducerClaim { thread, won: true, seen: s.enqueue_pos },
    )
}

/// The state in which the producer has stored its value.
pub open spec fn enqueue_filled(s: Ring, thread: int, value: u64) -> Ring {
    apply(enqueue_claimed(s, thread, value), Step::ProducerFill { thread })
}

/// The state in which the producer has published its cell.
pub open spec fn enqueue_published(s: Ring, thread: int, value: u64) -> Ring {
    apply(enqueue_filled(s, thread, value), Step::ProducerPublish { thread })
}

/// The producer found its cell ready.
pub open spec fn enqueue_goes_on(s: Ring, thread: int, value: u64) -> bool {
    let probed = enqueue_probed(s, thread, value);
    probed.producers.contains_key(thread) && probed.producers[thread] is Claim
}

/// `enqueue(value)` by `thread`, undisturbed: the state it leaves and what
/// it returns.
pub open spec fn enqueue_alone(s: Ring, thread: int, value: u64) -> (Ring, bool) {
    if enqueue_goes_on(s, thread, value) {
        (enqueue_published(s, thread, value), true)
    } else {
        (enqueue_probed(s, thread, value), false)
    }
}

/// Each step of the undisturbed `enqueue` can be taken where it is taken.
pub open spec fn enqueue_is_a_path(s: Ring, thread: int, value: u64) -> bool {
    &&& enabled(s, Step::BeginEnqueue { thread, value, seen: s.enqueue_pos })
    &&& enabled(
        enqueue_entered(s, thread, value),
        Step::ProducerProbe { thread, seen: s.enqueue_pos },
    )
    &&& enqueue_goes_on(s, thread, value) ==> {
        &&& enabled(
            enqueue_probed(s, thread, value),
            Step::ProducerClaim { thread, won: true, seen: s.enqueue_pos },
        )
        &&& enabled(enqueue_claimed(s, thread, value), Step::ProducerFill { thread })
        &&& enabled(enqueue_filled(s, thread, value), Step::ProducerPublish { thread })
    }
}

/// The state in which `thread` has entered `dequeue` and loaded the cursor.
pub open spec fn dequeue_entered(s: Ring, thread: int) -> Ring {
    apply(s, Step::BeginDequeue { thread, seen: s.dequeue_pos })
}

/// The state in which the consumer has looked at its cell.
pub open spec fn dequeue_probed(s: Ring, thread: int) -> Ring {
    apply(dequeue_entered(s, thread), Step::ConsumerProbe { thread, seen: s.dequeue_pos })
}

/// The state in which the consumer has won its position.
pub open spec fn dequeue_claimed(s: Ring, thread: int) -> Ring {
    apply(
        dequeue_probed(s, thread),
        Step::ConsumerClaim { thread, won: true, seen: s.dequeue_pos },
    )
}

/// The state in which the consumer has loaded the payload.
pub open spec fn dequeue_taken(s: Ring, thread: int) -> Ring {
    apply(dequeue_claimed(s, thread), Step::ConsumerTake { thread })
}

/// The state in which the consumer has released its cell.
pub open spec fn dequeue_released(s: Ring, thread: int) -> Ring {
    apply(dequeue_taken(s, thread), Step::ConsumerRelease { thread })
}

/// The consumer found its cell ready.
pub open spec fn dequeue_goes_on(s: Ring, thread: int) -> bool {
    let probed = dequeue_probed(s, thread);
    probed.consumers.contains_key(thread) && probed.consumers[thread] is Claim
}

/// `dequeue` by `thread`, undisturbed: the state it leaves and the value it
/// hands out, if any.
pub open spec fn dequeue_alone(s: Ring, thread: int) -> (Ring, Option<u64>) {
    if dequeue_goes_on(s, thread) {
        (
            dequeue_released(s, thread),
            Some(dequeue_taken(s, thread).consumers[thread]->Release_value),
        )
    } else {
        (dequeue_probed(s, thread), None)
    }
}

/// Each step of the undisturbed `dequeue` can be taken where it is taken.
pub open spec fn dequeue_is_a_path(s: Ring, thread: int) -> bool {
    &&& enabled(s, Step::BeginDequeue { thread, seen: s.dequeue_pos })
    &&& enabled(dequeue_entered(s, thread), Step::ConsumerProbe { thread, seen: s.dequeue_pos })
    &&& dequeue_goes_on(s, thread) ==> {
        &&& enabled(
            dequeue_probed(s, thread),
            Step::ConsumerClaim { thread, won: true, seen: s.dequeue_pos },
        )
        &&& enabled(dequeue_claimed(s, thread), Step::ConsumerTake { thread })
        &&& enabled(dequeue_taken(s, thread), Step::ConsumerRelease { thread })
    }
}

/// In a state with no operation in progress, the cell of the enqueue
/// cursor is stamped with the cursor if there is room, and with less if
/// there is none.
proof fn lemma_quiet_head(s: Ring)
    requires
        inv(s),
        s.quiet(),
    ensures
        s.enqueue_pos - s.dequeue_pos < s.capacity ==> s.cell(s.enqueue_pos).stamp
            == s.enqueue_pos,
        s.enqueue_pos - s.dequeue_pos == s.capacity ==> s.cell(s.enqueue_pos).stamp
            < s.enqueue_pos,
{
    let pos = s.enqueue_pos;
    lemma_mod_range(pos, s.capacity);
    let i = s.slot(pos);
    let stamp = s.cells[i].stamp;
    assert(slot_ok(s, i));
    if slot_free(s, i) {
        if s.writing.contains_key(stamp) {
            assert(writing_ok(s, stamp));
            assert(s.producers.dom().contains(s.writing[stamp]));
        }
        lemma_mod_close(stamp, pos, s.capacity);
    } else {
        let held = stamp - 1;
        if s.reading.contains_key(held) {
            assert(reading_ok(s, held));
            assert(s.consumers.dom().contains(s.reading[held]));
        }
        if pos - s.dequeue_pos < s.capacity {
            lemma_mod_close(held, pos, s.capacity);
        } else if stamp == pos {
            lemma_mod_successor(held, s.capacity);
        }
    }
}

/// In a state with no operation in progress, the cell of the dequeue
/// cursor holds the oldest waiting value if there is one, and is stamped
/// with the cursor itself if there is none.
proof fn lemma_quiet_tail(s: Ring)
    requires
        inv(s),
        s.quiet(),
    ensures
        s.dequeue_pos < s.enqueue_pos ==> {
            &&& s.cell(s.dequeue_pos).stamp == s.dequeue_pos + 1
            &&& s.accepted.contains_key(s.dequeue_pos)
            &&& s.cell(s.dequeue_pos).value == s.accepted[s.dequeue_pos]
        },
        s.dequeue_pos == s.enqueue_pos ==> s.cell(s.dequeue_pos).stamp == s.dequeue_pos,
{
    let pos = s.dequeue_pos;
    lemma_mod_range(pos, s.capacity);
    let i = s.slot(pos);
    let stamp = s.cells[i].stamp;
    assert(slot_ok(s, i));
    if slot_free(s, i) {
        if s.writing.contains_key(stamp) {
            assert(writing_ok(s, stamp));
            assert(s.producers.dom().contains(s.writing[stamp]));
        }
        lemma_mod_close(stamp, pos, s.capacity);
    } else {
        let held = stamp - 1;
        if s.reading.contains_key(held) {
            assert(reading_ok(s, held));
            assert(s.consumers.dom().contains(s.reading[held]));
        }
        lemma_mod_close(held, pos, s.capacity);
    }
}

/// An undisturbed `enqueue` on a queue at rest appends its value and
/// returns `true` if the queue holds fewer values than it has cells;
/// otherwise it returns `false` and leaves the queue as it was. Either way
/// the queue is at rest again.
pub proof fn law_enqueue_alone(s: Ring, thread: int, value: u64)
    requires
        inv(s),
        s.quiet(),
    ensures
        enqueue_is_a_path(s, thread, value),
        enqueue_alone(s, thread, value).1 == (s.contents().len() < s.capacity),
        enqueue_alone(s, thread, value).1 ==> enqueue_alone(s, thread, value).0.contents()
            == s.contents().push(value),
        !enqueue_alone(s, thread, value).1 ==> enqueue_alone(s, thread, value).0 == s,
        enqueue_alone(s, thread, value).0.capacity == s.capacity,
        enqueue_alone(s, thread, value).0.quiet(),
        inv(enqueue_alone(s, thread, value).0),
{
    let pos = s.enqueue_pos;
    lemma_quiet_head(s);
    assert(!s.producers.dom().contains(thread));
    let entered = enqueue_entered(s, thread, value);
    lemma_step_is_safe(s, Step::BeginEnqueue { thread, value, seen: pos });
    let probed = enqueue_probed(s, thread, value);
    lemma_step_is_safe(entered, Step::ProducerProbe { thread, seen: pos });
    if pos - s.dequeue_pos < s.capacity {
        assert(enqueue_goes_on(s, thread, value));
        let claimed = enqueue_claimed(s, thread, value);
        lemma_step_is_safe(probed, Step::ProducerClaim { thread, won: true, seen: pos });
        let filled = enqueue_filled(s, thread, value);
        lemma_step_is_safe(claimed, Step::ProducerFill { thread });
        let published = enqueue_published(s, thread, value);
        lemma_step_is_safe(filled, Step::ProducerPublish { thread });
        assert(published.producers =~= s.producers);
        assert(published.contents() =~= s.contents().push(value));
    } else {
        assert(!enqueue_goes_on(s, thread, value));
        assert(probed.producers =~= s.producers);
        assert(probed =~= s);
    }
}

/// An undisturbed `dequeue` on a queue at rest hands out the oldest
/// waiting value and removes it if there is one; otherwise it hands out
/// nothing and leaves the queue as it was. Either way the queue is at rest
/// again.
pub proof fn law_dequeue_alone(s: Ring, thread: int)
    requires
        inv(s),
        s.quiet(),
    ensures
        dequeue_is_a_path(s, thread),
        dequeue_alone(s, thread).1 == (if s.contents().len() > 0 {
            Some(s.contents()[0])
        } else {
            None
        }),
        dequeue_alone(s, thread).1 is Some ==> dequeue_alone(s, thread).0.contents()
            == s.contents().drop_first(),
        dequeue_alone(s, thread).1 is None ==> dequeue_alone(s, thread).0 == s,
        dequeue_alone(s, thread).0.capacity == s.capacity,
        dequeue_alone(s, thread).0.quiet(),
        inv(dequeue_alone(s, thread).0),
{
    let pos = s.dequeue_pos;
    lemma_quiet_tail(s);
    assert(!s.consumers.dom().contains(thread));
    let entered = dequeue_entered(s, thread);
    lemma_step_is_safe(s, Step::BeginDequeue { thread, seen: pos });
    let probed = dequeue_probed(s, thread);
    lemma_step_is_safe(entered, Step::ConsumerProbe { thread, seen: pos });
    if pos < s.enqueue_pos {
        assert(dequeue_goes_on(s, thread));
        let claimed = dequeue_claimed(s, thread);
        lemma_step_is_safe(probed, Step::ConsumerClaim { thread, won: true, seen: pos });
        let taken = dequeue_taken(s, thread);
        lemma_step_is_safe(claimed, Step::ConsumerTake { thread });
        let released = dequeue_released(s, thread);
        lemma_step_is_safe(taken, Step::ConsumerRelease { thread });
        assert(released.consumers =~= s.consumers);
        assert(released.contents() =~= s.contents().drop_first());
    } else {
        assert(!dequeue_goes_on(s, thread));
        assert(probed.consumers =~= s.consumers);
        assert(probed =~= s);
    }
}

/// A fresh queue hands out nothing: an undisturbed `dequeue` returns
/// without a value and leaves the queue fresh.
pub proof fn law_fresh_queue_is_empty(capacity: int, thread: int)
    requires
        capacity >= 1,
    ensures
        dequeue_alone(fresh(capacity), thread).1 is None,
        dequeue_alone(fresh(capacity), thread).0 == fresh(capacity),
{
    let s = fresh(capacity);
    lemma_small_mod(0, capacity as nat);
    assert(s.cell(0).stamp == 0);
    let probed = dequeue_probed(s, thread);
    assert(!dequeue_goes_on(s, thread));
    assert(probed.consumers =~= s.consumers);
    assert(probed =~= s);
}

/// Why a queue needs two cells: in a ring of one cell the stamp that marks
/// the cell full for one position marks it free for the next, so a second
/// `enqueue` is accepted where the queue should be full, and the first
/// value is lost.
pub proof fn law_one_cell_is_never_full(thread: int, first: u64, second: u64)
    ensures
        enqueue_alone(fresh(1), thread, first).1,
        enqueue_alone(enqueue_alone(fresh(1), thread, first).0, thread, second).1,
{
    let s = fresh(1);
    assert(s.slot(0) == 0 && s.slot(1) == 0) by {
        assert(0int % 1 == 0);
        assert(1int % 1 == 0);
    }
    assert(enqueue_goes_on(s, thread, first));
    let once = enqueue_published(s, thread, first);
    assert(once.cell(1).stamp == 1);
    assert(once.enqueue_pos == 1);
    assert(enqueue_goes_on(once, thread, second));
}

/// The state after each of the first `k` values was enqueued and dequeued
/// again, one pair after the other.
pub open spec fn after_pairs(
    s: Ring,
    producer: int,
    consumer: int,
    values: Seq<u64>,
    k: int,
) -> Ring
    decreases k,
{
    if k <= 0 {
        s
    } else {
        dequeue_alone(
            enqueue_alone(
                after_pairs(s, producer, consumer, values, k - 1),
                producer,
                values[k - 1],
            ).0,
            consumer,
        ).0
    }
}

/// After any number of pairs the queue is at rest and holds nothing.
proof fn lemma_pairs_leave_nothing(
    capacity: int,
    producer: int,
    consumer: int,
    values: Seq<u64>,
    k: int,
)
    requires
        capacity >= 2,
    ensures
        inv(after_pairs(fresh(capacity), producer, consumer, values, k)),
        after_pairs(fresh(capacity), producer, consumer, values, k).quiet(),
        after_pairs(fresh(capacity), producer, consumer, values, k).capacity == capacity,
        after_pairs(fresh(capacity), producer, consumer, values, k).contents().len() == 0,
    decreases k,
{
    if k <= 0 {
        lemma_fresh_is_safe(capacity);
    } else {
        lemma_pairs_leave_nothing(capacity, producer, consumer, values, k - 1);
        let before = after_pairs(fresh(capacity), producer, consumer, values, k - 1);
        law_enqueue_alone(before, producer, values[k - 1]);
        law_dequeue_alone(enqueue_alone(before, producer, values[k - 1]).0, consumer);
    }
}

/// One producer and one consumer that take turns, an `enqueue` and then a
/// `dequeue`, starting on a fresh queue: every `enqueue` is accepted, and
/// every `dequeue` hands out the value just enqueued.
pub proof fn law_alternating_pairs(
    capacity: int,
    producer: int,
    consumer: int,
    values: Seq<u64>,
    k: int,
)
    requires
        capacity >= 2,
        0 <= k < values.len(),
    ensures
        enqueue_alone(
            after_pairs(fresh(capacity), producer, consumer, values, k),
            producer,
            values[k],
        ).1,
        dequeue_alone(
            enqueue_alone(
                after_pairs(fresh(capacity), producer, consumer, values, k),
                producer,
                values[k],
            ).0,
            consumer,
        ).1 == Some(values[k]),
{
    lemma_pairs_leave_nothing(capacity, producer, consumer, values, k);
    let before = after_pairs(fresh(capacity), producer, consumer, values, k);
    law_enqueue_alone(before, producer, values[k]);
    law_dequeue_alone(enqueue_alone(before, producer, values[k]).0, consumer);
}

/// The state after the first `k` values were enqueued, one after the other.
pub open spec fn after_enqueues(s: Ring, producer: int, values: Seq<u64>, k: int) -> Ring
    decreases k,
{
    if k <= 0 {
        s
    } else {
        enqueue_alone(after_enqueues(s, producer, values, k - 1), producer, values[k - 1]).0
    }
}

/// A fresh queue takes as many values as it has cells, and holds them in
/// the order in which they came.
proof fn lemma_enqueues_fill(capacity: int, producer: int, values: Seq<u64>, k: int)
    requires
        capacity >= 2,
        0 <= k <= capacity,
        k <= values.len(),
    ensures
        inv(after_enqueues(fresh(capacity), producer, values, k)),
        after_enqueues(fresh(capacity), producer, values, k).quiet(),
        after_enqueues(fresh(capacity), producer, values, k).capacity == capacity,
        after_enqueues(fresh(capacity), producer, values, k).contents() == values.subrange(0, k),
        k > 0 ==> enqueue_alone(
            after_enqueues(fresh(capacity), producer, values, k - 1),
            producer,
            values[k - 1],
        ).1,
    decreases k,
{
    if k <= 0 {
        lemma_fresh_is_safe(capacity);
        assert(fresh(capacity).contents() =~= values.subrange(0, 0));
    } else {
        lemma_enqueues_fill(capacity, producer, values, k - 1);
        let before = after_enqueues(fresh(capacity), producer, values, k - 1);
        law_enqueue_alone(before, producer, values[k - 1]);
        assert(values.subrange(0, k - 1).push(values[k - 1]) =~= values.subrange(0, k));
    }
}

/// Filling a fresh queue to its capacity: every one of the `capacity`
/// calls of `enqueue` is accepted, the next one is refused, a `dequeue`
/// then hands out the first value, and after it an `enqueue` is accepted
/// again.
pub proof fn law_full_queue(
    capacity: int,
    producer: int,
    consumer: int,
    values: Seq<u64>,
    extra: u64,
)
    requires
        capacity >= 2,
        values.len() == capacity,
    ensures
        forall|k: int|
            0 <= k < capacity ==> (#[trigger] enqueue_alone(
                after_enqueues(fresh(capacity), producer, values, k),
                producer,
                values[k],
            )).1,
        !enqueue_alone(after_enqueues(fresh(capacity), producer, values, capacity), producer, extra).1,
        dequeue_alone(after_enqueues(fresh(capacity), producer, values, capacity), consumer).1
            == Some(values[0]),
        enqueue_alone(
            dequeue_alone(
                after_enqueues(fresh(capacity), producer, values, capacity),
                consumer,
            ).0,
            producer,
            extra,
        ).1,
{
    assert forall|k: int| 0 <= k < capacity implies (#[trigger] enqueue_alone(
        after_enqueues(fresh(capacity), producer, values, k),
        producer,
        values[k],
    )).1 by {
        lemma_enqueues_fill(capacity, producer, values, k + 1);
    }
    lemma_enqueues_fill(capacity, producer, values, capacity);
    let full = after_enqueues(fresh(capacity), producer, values, capacity);
    law_enqueue_alone(full, producer, extra);
    law_dequeue_alone(full, consumer);
    law_enqueue_alone(dequeue_alone(full, consumer).0, producer, extra);
}

} // verus!
