//! The invariant of the protocol: what holds of every state that a run
//! reaches, and the proof that every step keeps it.

use vstd::prelude::*;
use vstd::multiset::Multiset;
use vstd::arithmetic::div_mod::lemma_fundamental_div_mod;
use vstd::arithmetic::div_mod::lemma_fundamental_div_mod_converse;
use vstd::arithmetic::div_mod::lemma_mod_add_multiples_vanish;
use vstd::arithmetic::div_mod::lemma_mod_pos_bound;
use vstd::arithmetic::div_mod::lemma_small_mod;
use crate::queue::protocol::apply;
use crate::queue::protocol::consumer_claim;
use crate::queue::protocol::consumer_release;
use crate::queue::protocol::consumer_take;
use crate::queue::protocol::enabled;
use crate::queue::protocol::fresh;
use crate::queue::protocol::is_run;
use crate::queue::protocol::next;
use crate::queue::protocol::producer_claim;
use crate::queue::protocol::producer_fill;
use crate::queue::protocol::producer_publish;
use crate::queue::protocol::Consumer;
use crate::queue::protocol::Producer;
use crate::queue::protocol::Ring;
use crate::queue::protocol::Step;

verus! {

/// A remainder lies between 0 and the divisor.
pub proof fn lemma_mod_range(x: int, c: int)
    requires
        0 <= x,
        0 < c,
    ensures
        0 <= x % c < c,
{
    lemma_mod_pos_bound(x, c);
}

/// Neighbouring positions lie in different cells of a ring of two cells or
/// more.
pub proof fn lemma_mod_successor(x: int, c: int)
    requires
        0 <= x,
        2 <= c,
    ensures
        (x + 1) % c != x % c,
{
    lemma_fundamental_div_mod(x, c);
    lemma_mod_pos_bound(x, c);
    let q = x / c;
    let r = x % c;
    if r + 1 < c {
        assert(x + 1 == q * c + (r + 1)) by (nonlinear_arith)
            requires
                x == c * q + r,
        ;
        lemma_fundamental_div_mod_converse(x + 1, c, q, r + 1);
    } else {
        assert(x + 1 == (q + 1) * c + 0) by (nonlinear_arith)
            requires
                x == c * q + r,
                r + 1 == c,
        ;
        lemma_fundamental_div_mod_converse(x + 1, c, q + 1, 0);
    }
}

/// One lap later a position lies in the same cell.
pub proof fn lemma_mod_lap(x: int, c: int)
    requires
        0 < c,
    ensures
        (x + c) % c == x % c,
{
    lemma_mod_add_multiples_vanish(x, c);
}

/// Two positions in the same cell and less than a lap apart are one
/// position.
pub proof fn lemma_mod_close(x: int, y: int, c: int)
    requires
        0 < c,
        x % c == y % c,
        -c < x - y < c,
    ensures
        x == y,
{
    lemma_fundamental_div_mod(x, c);
    lemma_fundamental_div_mod(y, c);
    let a = x / c;
    let b = y / c;
    assert(x - y == c * (a - b)) by (nonlinear_arith)
        requires
            x == c * a + x % c,
            y == c * b + y % c,
            x % c == y % c,
    ;
    assert(a - b == 0) by (nonlinear_arith)
        requires
            -c < c * (a - b) < c,
            0 < c,
    ;
}

/// The values that `m` holds at the positions below `n`, as a multiset.
pub open spec fn values_below(m: Map<int, u64>, n: int) -> Multiset<u64>
    decreases n,
{
    if n <= 0 {
        Multiset::empty()
    } else if m.contains_key(n - 1) {
        values_below(m, n - 1).insert(m[n - 1])
    } else {
        values_below(m, n - 1)
    }
}

/// The cursors are in order and at most one lap apart.
pub open spec fn shape(s: Ring) -> bool {
    &&& s.capacity >= 2
    &&& s.cells.len() == s.capacity
    &&& 0 <= s.dequeue_pos <= s.enqueue_pos <= s.dequeue_pos + s.capacity
}

/// Cell `i` waits for a producer: its stamp is the position to be written
/// there next, which no producer has published.
pub open spec fn slot_free(s: Ring, i: int) -> bool {
    let stamp = s.cells[i].stamp;
    &&& 0 <= stamp < s.dequeue_pos + s.capacity
    &&& s.slot(stamp) == i
    &&& (stamp >= s.enqueue_pos || s.writing.contains_key(stamp))
}

/// Cell `i` holds a value: its stamp is one more than the position whose
/// accepted value it holds, which no consumer has released.
pub open spec fn slot_full(s: Ring, i: int) -> bool {
    let pos = s.cells[i].stamp - 1;
    &&& 0 <= pos < s.enqueue_pos
    &&& s.slot(pos) == i
    &&& s.accepted.contains_key(pos)
    &&& s.cells[i].value == s.accepted[pos]
    &&& (pos >= s.dequeue_pos || s.reading.contains_key(pos))
}

/// Cell `i` is in one of its two conditions.
pub open spec fn slot_ok(s: Ring, i: int) -> bool {
    slot_free(s, i) || slot_full(s, i)
}

/// What a producer knows at each point of its operation.
pub open spec fn producer_ok(s: Ring, thread: int) -> bool {
    match s.producers[thread] {
        Producer::Probe { pos, value } => 0 <= pos <= s.enqueue_pos,
        Producer::Claim { pos, value } => {
            &&& 0 <= pos <= s.enqueue_pos
            &&& pos == s.enqueue_pos ==> s.cell(pos).stamp == pos
        },
        Producer::Fill { pos, value } => {
            &&& s.writing.contains_key(pos)
            &&& s.writing[pos] == thread
        },
        Producer::Publish { pos, value } => {
            &&& s.writing.contains_key(pos)
            &&& s.writing[pos] == thread
            &&& s.cell(pos).value == value
        },
    }
}

/// The producer's next action is on the cell of `pos`, which it has claimed.
pub open spec fn writes_at(p: Producer, pos: int) -> bool {
    ||| p matches Producer::Fill { pos: at, .. } && at == pos
    ||| p matches Producer::Publish { pos: at, .. } && at == pos
}

/// A position under a producer's hand: claimed, its cell still stamped for
/// writing, nothing accepted there yet, and out of the consumers' reach.
pub open spec fn writing_ok(s: Ring, pos: int) -> bool {
    &&& s.dequeue_pos <= pos < s.enqueue_pos
    &&& s.cell(pos).stamp == pos
    &&& !s.accepted.contains_key(pos)
    &&& s.producers.contains_key(s.writing[pos])
    &&& writes_at(s.producers[s.writing[pos]], pos)
}

/// What a consumer knows at each point of its operation.
pub open spec fn consumer_ok(s: Ring, thread: int) -> bool {
    match s.consumers[thread] {
        Consumer::Probe { pos } => 0 <= pos <= s.dequeue_pos,
        Consumer::Claim { pos } => {
            &&& 0 <= pos <= s.dequeue_pos
            &&& pos == s.dequeue_pos ==> s.cell(pos).stamp == pos + 1
        },
        Consumer::Take { pos } => {
            &&& s.reading.contains_key(pos)
            &&& s.reading[pos] == thread
        },
        Consumer::Release { pos, value } => {
            &&& s.reading.contains_key(pos)
            &&& s.reading[pos] == thread
            &&& s.accepted.contains_key(pos)
            &&& s.accepted[pos] == value
        },
    }
}

/// The consumer's next action is on the cell of `pos`, which it has
/// claimed.
pub open spec fn reads_at(c: Consumer, pos: int) -> bool {
    ||| c matches Consumer::Take { pos: at } && at == pos
    ||| c matches Consumer::Release { pos: at, .. } && at == pos
}

/// A position under a consumer's hand: claimed, its cell still stamped as
/// full, nothing delivered from it yet, and the producers at most one lap
/// ahead.
pub open spec fn reading_ok(s: Ring, pos: int) -> bool {
    &&& 0 <= pos < s.dequeue_pos
    &&& s.cell(pos).stamp == pos + 1
    &&& s.enqueue_pos <= pos + s.capacity
    &&& !s.delivered.contains_key(pos)
    &&& s.consumers.contains_key(s.reading[pos])
    &&& reads_at(s.consumers[s.reading[pos]], pos)
}

/// A position that a producer has claimed is either published or under
/// that producer's hand.
pub open spec fn produced(s: Ring, pos: int) -> bool {
    s.accepted.contains_key(pos) || s.writing.contains_key(pos)
}

/// A position that a consumer has claimed is either released or under that
/// consumer's hand.
pub open spec fn consumed(s: Ring, pos: int) -> bool {
    s.delivered.contains_key(pos) || s.reading.contains_key(pos)
}

/// The records of the finished operations cover the claimed positions,
/// and what was delivered from a position is what was accepted there.
pub open spec fn covered(s: Ring) -> bool {
    &&& forall|p: int| 0 <= p < s.enqueue_pos ==> #[trigger] produced(s, p)
    &&& forall|p: int| #[trigger] s.accepted.contains_key(p) ==> 0 <= p < s.enqueue_pos
    &&& forall|p: int| 0 <= p < s.dequeue_pos ==> #[trigger] consumed(s, p)
    &&& forall|p: int| #[trigger]
        s.delivered.contains_key(p) ==> {
            &&& 0 <= p < s.dequeue_pos
            &&& s.accepted.contains_key(p)
            &&& s.delivered[p] == s.accepted[p]
        }
}

/// The multisets of sent and received values are those of the records.
pub open spec fn tallied(s: Ring) -> bool {
    &&& s.sent == values_below(s.accepted, s.enqueue_pos)
    &&& s.received == values_below(s.delivered, s.dequeue_pos)
}

/// The invariant of the protocol.
pub open spec fn inv(s: Ring) -> bool {
    &&& shape(s)
    &&& forall|i: int| 0 <= i < s.capacity ==> #[trigger] slot_ok(s, i)
    &&& forall|t: int| #[trigger] s.producers.contains_key(t) ==> producer_ok(s, t)
    &&& forall|p: int| #[trigger] s.writing.contains_key(p) ==> writing_ok(s, p)
    &&& forall|t: int| #[trigger] s.consumers.contains_key(t) ==> consumer_ok(s, t)
    &&& forall|p: int| #[trigger] s.reading.contains_key(p) ==> reading_ok(s, p)
    &&& covered(s)
    &&& tallied(s)
}

/// A fresh queue of two cells or more meets the invariant.
pub proof fn lemma_fresh_is_safe(capacity: int)
    requires
        capacity >= 2,
    ensures
        inv(fresh(capacity)),
{
    let s = fresh(capacity);
    assert forall|i: int| 0 <= i < s.capacity implies #[trigger] slot_ok(s, i) by {
        lemma_small_mod(i as nat, capacity as nat);
        assert(slot_free(s, i));
    }
}

/// Records that agree below `n` hold the same values below `n`.
pub proof fn lemma_values_below_agree(a: Map<int, u64>, b: Map<int, u64>, n: int)
    requires
        forall|p: int| 0 <= p < n ==> (a.contains_key(p) <==> b.contains_key(p)),
        forall|p: int| 0 <= p < n && a.contains_key(p) ==> a[p] == b[p],
    ensures
        values_below(a, n) == values_below(b, n),
    decreases n,
{
    if n > 0 {
        lemma_values_below_agree(a, b, n - 1);
    }
}

/// A new entry below `n` adds its value to the values below `n`.
pub proof fn lemma_values_below_insert(m: Map<int, u64>, n: int, pos: int, value: u64)
    requires
        0 <= pos < n,
        !m.contains_key(pos),
    ensures
        values_below(m.insert(pos, value), n) == values_below(m, n).insert(value),
    decreases n,
{
    let grown = m.insert(pos, value);
    if n - 1 == pos {
        lemma_values_below_agree(grown, m, n - 1);
    } else {
        lemma_values_below_insert(m, n - 1, pos, value);
        if m.contains_key(n - 1) {
            assert(values_below(m, n - 1).insert(value).insert(m[n - 1]) =~= values_below(
                m,
                n - 1,
            ).insert(m[n - 1]).insert(value));
        }
    }
}

/// The values below `n` are among the values below any later bound.
pub proof fn lemma_values_below_grows(m: Map<int, u64>, n: int, later: int)
    requires
        n <= later,
    ensures
        values_below(m, n).subset_of(values_below(m, later)),
    decreases later - n,
{
    if n < later {
        lemma_values_below_grows(m, n, later - 1);
    }
}

/// A record that is part of another holds, below `n`, values that the
/// other holds too.
pub proof fn lemma_values_below_part(a: Map<int, u64>, b: Map<int, u64>, n: int)
    requires
        forall|p: int| #[trigger] a.contains_key(p) ==> b.contains_key(p) && a[p] == b[p],
    ensures
        values_below(a, n).subset_of(values_below(b, n)),
    decreases n,
{
    if n > 0 {
        lemma_values_below_part(a, b, n - 1);
        if a.contains_key(n - 1) {
            assert(b.contains_key(n - 1));
        }
    }
}

/// The producer holds no position yet.
pub open spec fn producer_searching(p: Producer) -> bool {
    p is Probe || p is Claim
}

/// The consumer holds no position yet.
pub open spec fn consumer_searching(c: Consumer) -> bool {
    c is Probe || c is Claim
}

/// A producer that holds no position may enter, look elsewhere or leave:
/// nothing that the others rely on changes.
proof fn lemma_producer_drifts(s: Ring, t: Ring, thread: int)
    requires
        inv(s),
        t == (Ring { producers: t.producers, ..s }),
        forall|u: int|
            u != thread ==> (#[trigger] t.producers.contains_key(u) <==> s.producers.contains_key(
                u,
            )),
        forall|u: int|
            u != thread && s.producers.contains_key(u) ==> #[trigger] t.producers[u]
                == s.producers[u],
        s.producers.contains_key(thread) ==> producer_searching(s.producers[thread]),
        t.producers.contains_key(thread) ==> producer_searching(t.producers[thread])
            && producer_ok(t, thread),
    ensures
        inv(t),
{
    assert forall|i: int| 0 <= i < t.capacity implies #[trigger] slot_ok(t, i) by {
        assert(slot_ok(s, i));
    }
    assert forall|u: int| #[trigger] t.producers.contains_key(u) implies producer_ok(t, u) by {
        if u != thread {
            assert(s.producers.contains_key(u));
            assert(t.producers[u] == s.producers[u]);
        }
    }
    assert forall|p: int| #[trigger] t.writing.contains_key(p) implies writing_ok(t, p) by {
        assert(s.writing.contains_key(p));
        let owner = s.writing[p];
        assert(owner != thread);
        assert(t.producers.contains_key(owner));
        assert(t.producers[owner] == s.producers[owner]);
    }
    assert forall|u: int| #[trigger] t.consumers.contains_key(u) implies consumer_ok(t, u) by {
        assert(s.consumers.contains_key(u));
    }
    assert forall|p: int| #[trigger] t.reading.contains_key(p) implies reading_ok(t, p) by {
        assert(s.reading.contains_key(p));
    }
    assert(covered(t)) by {
        assert forall|p: int| 0 <= p < t.enqueue_pos implies #[trigger] produced(t, p) by {
            assert(produced(s, p));
        }
        assert forall|p: int| 0 <= p < t.dequeue_pos implies #[trigger] consumed(t, p) by {
            assert(consumed(s, p));
        }
    }
}

/// A consumer that holds no position may enter, look elsewhere or leave:
/// nothing that the others rely on changes.
proof fn lemma_consumer_drifts(s: Ring, t: Ring, thread: int)
    requires
        inv(s),
        t == (Ring { consumers: t.consumers, ..s }),
        forall|u: int|
            u != thread ==> (#[trigger] t.consumers.contains_key(u) <==> s.consumers.contains_key(
                u,
            )),
        forall|u: int|
            u != thread && s.consumers.contains_key(u) ==> #[trigger] t.consumers[u]
                == s.consumers[u],
        s.consumers.contains_key(thread) ==> consumer_searching(s.consumers[thread]),
        t.consumers.contains_key(thread) ==> consumer_searching(t.consumers[thread])
            && consumer_ok(t, thread),
    ensures
        inv(t),
{
    assert forall|i: int| 0 <= i < t.capacity implies #[trigger] slot_ok(t, i) by {
        assert(slot_ok(s, i));
    }
    assert forall|u: int| #[trigger] t.producers.contains_key(u) implies producer_ok(t, u) by {
        assert(s.producers.contains_key(u));
    }
    assert forall|p: int| #[trigger] t.writing.contains_key(p) implies writing_ok(t, p) by {
        assert(s.writing.contains_key(p));
    }
    assert forall|u: int| #[trigger] t.consumers.contains_key(u) implies consumer_ok(t, u) by {
        if u != thread {
            assert(s.consumers.contains_key(u));
            assert(t.consumers[u] == s.consumers[u]);
        }
    }
    assert forall|p: int| #[trigger] t.reading.contains_key(p) implies reading_ok(t, p) by {
        assert(s.reading.contains_key(p));
        let owner = s.reading[p];
        assert(owner != thread);
        assert(t.consumers.contains_key(owner));
        assert(t.consumers[owner] == s.consumers[owner]);
    }
    assert(covered(t)) by {
        assert forall|p: int| 0 <= p < t.enqueue_pos implies #[trigger] produced(t, p) by {
            assert(produced(s, p));
        }
        assert forall|p: int| 0 <= p < t.dequeue_pos implies #[trigger] consumed(t, p) by {
            assert(consumed(s, p));
        }
    }
}

/// A cell whose stamp is the position it belongs to waits for a producer.
proof fn lemma_stamped_free(s: Ring, pos: int)
    requires
        inv(s),
        0 <= pos,
        s.cell(pos).stamp == pos,
    ensures
        0 <= s.slot(pos) < s.capacity,
        slot_free(s, s.slot(pos)),
{
    lemma_mod_range(pos, s.capacity);
    let i = s.slot(pos);
    assert(slot_ok(s, i));
    if slot_full(s, i) {
        lemma_mod_successor(pos - 1, s.capacity);
    }
}

/// A cell whose stamp is one more than the position it belongs to holds
/// the value accepted at that position.
proof fn lemma_stamped_full(s: Ring, pos: int)
    requires
        inv(s),
        0 <= pos,
        s.cell(pos).stamp == pos + 1,
    ensures
        0 <= s.slot(pos) < s.capacity,
        slot_full(s, s.slot(pos)),
{
    lemma_mod_range(pos, s.capacity);
    let i = s.slot(pos);
    assert(slot_ok(s, i));
    if slot_free(s, i) {
        lemma_mod_successor(pos, s.capacity);
    }
}

/// The compare-and-swap that wins a position for a producer keeps the
/// invariant.
proof fn lemma_producer_wins(s: Ring, thread: int, seen: int)
    requires
        inv(s),
        enabled(s, Step::ProducerClaim { thread, won: true, seen }),
    ensures
        inv(producer_claim(s, thread, true, seen)),
{
    let t = producer_claim(s, thread, true, seen);
    let pos = s.enqueue_pos;
    assert(s.producers.contains_key(thread));
    assert(producer_ok(s, thread));
    lemma_stamped_free(s, pos);
    assert forall|i: int| 0 <= i < t.capacity implies #[trigger] slot_ok(t, i) by {
        assert(slot_ok(s, i));
    }
    assert forall|u: int| #[trigger] t.producers.contains_key(u) implies producer_ok(t, u) by {
        if u != thread {
            assert(s.producers.contains_key(u));
            assert(producer_ok(s, u));
            match s.producers[u] {
                Producer::Fill { pos: at, .. } => {
                    assert(s.writing.contains_key(at));
                    assert(writing_ok(s, at));
                },
                Producer::Publish { pos: at, .. } => {
                    assert(s.writing.contains_key(at));
                    assert(writing_ok(s, at));
                },
                _ => {},
            }
        }
    }
    assert forall|p: int| #[trigger] t.writing.contains_key(p) implies writing_ok(t, p) by {
        if p != pos {
            assert(s.writing.contains_key(p));
            assert(writing_ok(s, p));
            assert(s.writing[p] != thread);
        } else {
            assert(!s.accepted.contains_key(pos));
        }
    }
    assert forall|u: int| #[trigger] t.consumers.contains_key(u) implies consumer_ok(t, u) by {
        assert(s.consumers.contains_key(u));
    }
    assert forall|p: int| #[trigger] t.reading.contains_key(p) implies reading_ok(t, p) by {
        assert(s.reading.contains_key(p));
        assert(reading_ok(s, p));
        if pos == p + s.capacity {
            lemma_mod_lap(p, s.capacity);
        }
    }
    assert(covered(t)) by {
        assert forall|p: int| 0 <= p < t.enqueue_pos implies #[trigger] produced(t, p) by {
            if p != pos {
                assert(produced(s, p));
            }
        }
        assert forall|p: int| 0 <= p < t.dequeue_pos implies #[trigger] consumed(t, p) by {
            assert(consumed(s, p));
        }
    }
}

/// Two positions under producers' hands lie in different cells.
proof fn lemma_writers_apart(s: Ring, p: int, q: int)
    requires
        inv(s),
        s.writing.contains_key(p),
        s.writing.contains_key(q),
        p != q,
    ensures
        s.slot(p) != s.slot(q),
{
    assert(writing_ok(s, p));
    assert(writing_ok(s, q));
}

/// Storing the value keeps the invariant.
proof fn lemma_producer_fills(s: Ring, thread: int)
    requires
        inv(s),
        enabled(s, Step::ProducerFill { thread }),
    ensures
        inv(producer_fill(s, thread)),
{
    let t = producer_fill(s, thread);
    let pos = s.producers[thread]->Fill_pos;
    assert(s.producers.contains_key(thread));
    assert(producer_ok(s, thread));
    assert(s.writing.contains_key(pos));
    assert(writing_ok(s, pos));
    lemma_stamped_free(s, pos);
    let here = s.slot(pos);
    assert forall|i: int| 0 <= i < t.capacity implies #[trigger] slot_ok(t, i) by {
        assert(slot_ok(s, i));
        if i == here {
            assert(slot_free(t, i));
        }
    }
    assert forall|u: int| #[trigger] t.producers.contains_key(u) implies producer_ok(t, u) by {
        if u != thread {
            assert(s.producers.contains_key(u));
            assert(producer_ok(s, u));
            match s.producers[u] {
                Producer::Publish { pos: at, .. } => {
                    assert(s.writing.contains_key(at));
                    lemma_writers_apart(s, at, pos);
                },
                _ => {},
            }
        }
    }
    assert forall|p: int| #[trigger] t.writing.contains_key(p) implies writing_ok(t, p) by {
        assert(s.writing.contains_key(p));
        assert(writing_ok(s, p));
    }
    assert forall|u: int| #[trigger] t.consumers.contains_key(u) implies consumer_ok(t, u) by {
        assert(s.consumers.contains_key(u));
        assert(consumer_ok(s, u));
    }
    assert forall|p: int| #[trigger] t.reading.contains_key(p) implies reading_ok(t, p) by {
        assert(s.reading.contains_key(p));
        assert(reading_ok(s, p));
    }
    assert(covered(t)) by {
        assert forall|p: int| 0 <= p < t.enqueue_pos implies #[trigger] produced(t, p) by {
            assert(produced(s, p));
        }
        assert forall|p: int| 0 <= p < t.dequeue_pos implies #[trigger] consumed(t, p) by {
            assert(consumed(s, p));
        }
    }
}

/// Publishing the cell keeps the invariant.
proof fn lemma_producer_publishes(s: Ring, thread: int)
    requires
        inv(s),
        enabled(s, Step::ProducerPublish { thread }),
    ensures
        inv(producer_publish(s, thread)),
{
    let t = producer_publish(s, thread);
    let pos = s.producers[thread]->Publish_pos;
    let value = s.producers[thread]->Publish_value;
    assert(s.producers.contains_key(thread));
    assert(producer_ok(s, thread));
    assert(s.writing.contains_key(pos));
    assert(writing_ok(s, pos));
    lemma_stamped_free(s, pos);
    let here = s.slot(pos);
    assert forall|i: int| 0 <= i < t.capacity implies #[trigger] slot_ok(t, i) by {
        assert(slot_ok(s, i));
        if i == here {
            assert(slot_full(t, i));
        } else if slot_free(s, i) {
            assert(slot_free(t, i));
        } else {
            assert(slot_full(t, i));
        }
    }
    assert forall|u: int| #[trigger] t.producers.contains_key(u) implies producer_ok(t, u) by {
        assert(s.producers.contains_key(u));
        assert(producer_ok(s, u));
        match s.producers[u] {
            Producer::Fill { pos: at, .. } => {
                assert(s.writing.contains_key(at));
                lemma_writers_apart(s, at, pos);
            },
            Producer::Publish { pos: at, .. } => {
                assert(s.writing.contains_key(at));
                lemma_writers_apart(s, at, pos);
            },
            _ => {},
        }
    }
    assert forall|p: int| #[trigger] t.writing.contains_key(p) implies writing_ok(t, p) by {
        assert(s.writing.contains_key(p));
        assert(writing_ok(s, p));
        lemma_writers_apart(s, p, pos);
    }
    assert forall|u: int| #[trigger] t.consumers.contains_key(u) implies consumer_ok(t, u) by {
        assert(s.consumers.contains_key(u));
        assert(consumer_ok(s, u));
        match s.consumers[u] {
            Consumer::Claim { pos: at } => {
                if at == s.dequeue_pos && s.slot(at) == here {
                    lemma_mod_successor(at, s.capacity);
                }
            },
            _ => {},
        }
    }
    assert forall|p: int| #[trigger] t.reading.contains_key(p) implies reading_ok(t, p) by {
        assert(s.reading.contains_key(p));
        assert(reading_ok(s, p));
        if s.slot(p) == here {
            lemma_mod_successor(p, s.capacity);
        }
    }
    assert(covered(t)) by {
        assert forall|p: int| 0 <= p < t.enqueue_pos implies #[trigger] produced(t, p) by {
            assert(produced(s, p));
        }
        assert forall|p: int| 0 <= p < t.dequeue_pos implies #[trigger] consumed(t, p) by {
            assert(consumed(s, p));
        }
    }
    assert(tallied(t)) by {
        lemma_values_below_insert(s.accepted, s.enqueue_pos, pos, value);
    }
}

/// Two positions under consumers' hands lie in different cells.
proof fn lemma_readers_apart(s: Ring, p: int, q: int)
    requires
        inv(s),
        s.reading.contains_key(p),
        s.reading.contains_key(q),
        p != q,
    ensures
        s.slot(p) != s.slot(q),
{
    assert(reading_ok(s, p));
    assert(reading_ok(s, q));
}

/// The compare-and-swap that wins a position for a consumer keeps the
/// invariant.
proof fn lemma_consumer_wins(s: Ring, thread: int, seen: int)
    requires
        inv(s),
        enabled(s, Step::ConsumerClaim { thread, won: true, seen }),
    ensures
        inv(consumer_claim(s, thread, true, seen)),
{
    let t = consumer_claim(s, thread, true, seen);
    let pos = s.dequeue_pos;
    assert(s.consumers.contains_key(thread));
    assert(consumer_ok(s, thread));
    lemma_stamped_full(s, pos);
    assert forall|i: int| 0 <= i < t.capacity implies #[trigger] slot_ok(t, i) by {
        assert(slot_ok(s, i));
    }
    assert forall|u: int| #[trigger] t.producers.contains_key(u) implies producer_ok(t, u) by {
        assert(s.producers.contains_key(u));
    }
    assert forall|p: int| #[trigger] t.writing.contains_key(p) implies writing_ok(t, p) by {
        assert(s.writing.contains_key(p));
        assert(writing_ok(s, p));
    }
    assert forall|u: int| #[trigger] t.consumers.contains_key(u) implies consumer_ok(t, u) by {
        if u != thread {
            assert(s.consumers.contains_key(u));
            assert(consumer_ok(s, u));
            match s.consumers[u] {
                Consumer::Take { pos: at } => {
                    assert(s.reading.contains_key(at));
                    assert(reading_ok(s, at));
                },
                Consumer::Release { pos: at, .. } => {
                    assert(s.reading.contains_key(at));
                    assert(reading_ok(s, at));
                },
                _ => {},
            }
        }
    }
    assert forall|p: int| #[trigger] t.reading.contains_key(p) implies reading_ok(t, p) by {
        if p != pos {
            assert(s.reading.contains_key(p));
            assert(reading_ok(s, p));
            assert(s.reading[p] != thread);
        } else {
            assert(!s.delivered.contains_key(pos));
        }
    }
    assert(covered(t)) by {
        assert forall|p: int| 0 <= p < t.enqueue_pos implies #[trigger] produced(t, p) by {
            assert(produced(s, p));
        }
        assert forall|p: int| 0 <= p < t.dequeue_pos implies #[trigger] consumed(t, p) by {
            if p != pos {
                assert(consumed(s, p));
            }
        }
    }
}

/// Loading the payload keeps the invariant, and the payload is the value
/// accepted at the position.
proof fn lemma_consumer_takes(s: Ring, thread: int)
    requires
        inv(s),
        enabled(s, Step::ConsumerTake { thread }),
    ensures
        inv(consumer_take(s, thread)),
{
    let t = consumer_take(s, thread);
    let pos = s.consumers[thread]->Take_pos;
    assert(s.consumers.contains_key(thread));
    assert(consumer_ok(s, thread));
    assert(s.reading.contains_key(pos));
    assert(reading_ok(s, pos));
    lemma_stamped_full(s, pos);
    assert forall|i: int| 0 <= i < t.capacity implies #[trigger] slot_ok(t, i) by {
        assert(slot_ok(s, i));
    }
    assert forall|u: int| #[trigger] t.producers.contains_key(u) implies producer_ok(t, u) by {
        assert(s.producers.contains_key(u));
    }
    assert forall|p: int| #[trigger] t.writing.contains_key(p) implies writing_ok(t, p) by {
        assert(s.writing.contains_key(p));
    }
    assert forall|u: int| #[trigger] t.consumers.contains_key(u) implies consumer_ok(t, u) by {
        if u != thread {
            assert(s.consumers.contains_key(u));
        }
    }
    assert forall|p: int| #[trigger] t.reading.contains_key(p) implies reading_ok(t, p) by {
        assert(s.reading.contains_key(p));
        assert(reading_ok(s, p));
    }
    assert(covered(t)) by {
        assert forall|p: int| 0 <= p < t.enqueue_pos implies #[trigger] produced(t, p) by {
            assert(produced(s, p));
        }
        assert forall|p: int| 0 <= p < t.dequeue_pos implies #[trigger] consumed(t, p) by {
            assert(consumed(s, p));
        }
    }
}

/// Releasing the cell keeps the invariant.
proof fn lemma_consumer_releases(s: Ring, thread: int)
    requires
        inv(s),
        enabled(s, Step::ConsumerRelease { thread }),
    ensures
        inv(consumer_release(s, thread)),
{
    let t = consumer_release(s, thread);
    let pos = s.consumers[thread]->Release_pos;
    let value = s.consumers[thread]->Release_value;
    assert(s.consumers.contains_key(thread));
    assert(consumer_ok(s, thread));
    assert(s.reading.contains_key(pos));
    assert(reading_ok(s, pos));
    lemma_stamped_full(s, pos);
    lemma_mod_lap(pos, s.capacity);
    let here = s.slot(pos);
    assert forall|i: int| 0 <= i < t.capacity implies #[trigger] slot_ok(t, i) by {
        assert(slot_ok(s, i));
        if i == here {
            assert(slot_free(t, i));
        } else if slot_free(s, i) {
            assert(slot_free(t, i));
        } else {
            assert(slot_full(t, i));
        }
    }
    assert forall|u: int| #[trigger] t.producers.contains_key(u) implies producer_ok(t, u) by {
        assert(s.producers.contains_key(u));
        assert(producer_ok(s, u));
        match s.producers[u] {
            Producer::Claim { pos: at, .. } => {
                if at == s.enqueue_pos && s.slot(at) == here {
                    lemma_mod_successor(pos, s.capacity);
                }
            },
            _ => {},
        }
    }
    assert forall|p: int| #[trigger] t.writing.contains_key(p) implies writing_ok(t, p) by {
        assert(s.writing.contains_key(p));
        assert(writing_ok(s, p));
        if s.slot(p) == here {
            lemma_mod_successor(pos, s.capacity);
        }
    }
    assert forall|u: int| #[trigger] t.consumers.contains_key(u) implies consumer_ok(t, u) by {
        assert(s.consumers.contains_key(u));
        assert(consumer_ok(s, u));
        match s.consumers[u] {
            Consumer::Take { pos: at } => {
                assert(s.reading.contains_key(at));
                lemma_readers_apart(s, at, pos);
            },
            Consumer::Release { pos: at, .. } => {
                assert(s.reading.contains_key(at));
                lemma_readers_apart(s, at, pos);
            },
            _ => {},
        }
    }
    assert forall|p: int| #[trigger] t.reading.contains_key(p) implies reading_ok(t, p) by {
        assert(s.reading.contains_key(p));
        assert(reading_ok(s, p));
        lemma_readers_apart(s, p, pos);
    }
    assert(covered(t)) by {
        assert forall|p: int| 0 <= p < t.enqueue_pos implies #[trigger] produced(t, p) by {
            assert(produced(s, p));
        }
        assert forall|p: int| 0 <= p < t.dequeue_pos implies #[trigger] consumed(t, p) by {
            assert(consumed(s, p));
        }
    }
    assert(tallied(t)) by {
        lemma_values_below_insert(s.delivered, s.dequeue_pos, pos, value);
    }
}

/// Every step keeps the invariant.
pub proof fn lemma_step_is_safe(s: Ring, step: Step)
    requires
        inv(s),
        enabled(s, step),
    ensures
        inv(apply(s, step)),
{
    let t = apply(s, step);
    match step {
        Step::BeginEnqueue { thread, value, seen } => {
            lemma_producer_drifts(s, t, thread);
        },
        Step::ProducerProbe { thread, seen } => {
            assert(producer_ok(s, thread));
            lemma_producer_drifts(s, t, thread);
        },
        Step::ProducerClaim { thread, won, seen } => {
            if won {
                lemma_producer_wins(s, thread, seen);
            } else {
                lemma_producer_drifts(s, t, thread);
            }
        },
        Step::ProducerFill { thread } => {
            lemma_producer_fills(s, thread);
        },
        Step::ProducerPublish { thread } => {
            lemma_producer_publishes(s, thread);
        },
        Step::ProducerQuit { thread } => {
            lemma_producer_drifts(s, t, thread);
        },
        Step::BeginDequeue { thread, seen } => {
            lemma_consumer_drifts(s, t, thread);
        },
        Step::ConsumerProbe { thread, seen } => {
            assert(consumer_ok(s, thread));
            lemma_consumer_drifts(s, t, thread);
        },
        Step::ConsumerClaim { thread, won, seen } => {
            if won {
                lemma_consumer_wins(s, thread, seen);
            } else {
                lemma_consumer_drifts(s, t, thread);
            }
        },
        Step::ConsumerTake { thread } => {
            lemma_consumer_takes(s, thread);
        },
        Step::ConsumerRelease { thread } => {
            lemma_consumer_releases(s, thread);
        },
        Step::ConsumerQuit { thread } => {
            lemma_consumer_drifts(s, t, thread);
        },
    }
}

/// Every state of a run on a queue of two cells or more meets the
/// invariant.
pub proof fn lemma_run_is_safe(trace: Seq<Ring>, i: int)
    requires
        is_run(trace),
        trace[0].capacity >= 2,
        0 <= i < trace.len(),
    ensures
        inv(trace[i]),
    decreases i,
{
    if i == 0 {
        lemma_fresh_is_safe(trace[0].capacity);
    } else {
        lemma_run_is_safe(trace, i - 1);
        let before = trace[i - 1];
        let after = trace[i];
        assert(next(before, after));
        let step = choose|step: Step| enabled(before, step) && after == apply(before, step);
        lemma_step_is_safe(before, step);
    }
}

} // verus!
