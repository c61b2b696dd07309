//! Where the messages that a coordinator routes come from.
use vstd::prelude::*;

use crate::coordination;
use crate::coordination::{
    ActionView, EventView, Links, LookaheadView, PendingView, PhaseView,
};
use crate::deterministic_coordinator::barrier;
use crate::sorting;
use crate::sorting::Ranked;

verus! {

/// A message, and the event of a run that brought it.
#[verifier::ext_equal]
pub struct Sent {
    pub message: PendingView,
    pub at: int,
}

/// Messages are ordered whichever event brought them.
impl Ranked for Sent {
    open spec fn rank_le(self, other: Self) -> bool {
        self.message.rank_le(other.message)
    }

    proof fn rank_total(a: Self, b: Self) {
        PendingView::rank_total(a.message, b.message);
    }

    proof fn rank_transitive(a: Self, b: Self, c: Self) {
        PendingView::rank_transitive(a.message, b.message, c.message);
    }
}

/// The messages alone.
pub open spec fn messages_of(s: Seq<Sent>) -> Seq<PendingView> {
    Seq::new(s.len(), |i: int| s[i].message)
}

proof fn lemma_messages_push(s: Seq<Sent>, x: Sent)
    ensures
        messages_of(s.push(x)) == messages_of(s).push(x.message),
{
    assert(messages_of(s.push(x)) =~= messages_of(s).push(x.message));
}

proof fn lemma_messages_concat(a: Seq<Sent>, b: Seq<Sent>)
    ensures
        messages_of(a + b) == messages_of(a) + messages_of(b),
{
    assert(messages_of(a + b) =~= messages_of(a) + messages_of(b));
}

proof fn lemma_messages_insert(s: Seq<Sent>, x: Sent)
    ensures
        messages_of(sorting::insert_sorted(s, x)) == sorting::insert_sorted(
            messages_of(s),
            x.message,
        ),
    decreases s.len(),
{
    if s.len() == 0 || s.last().rank_le(x) {
        lemma_messages_push(s, x);
    } else {
        let front = s.drop_last();
        lemma_messages_insert(front, x);
        lemma_messages_push(sorting::insert_sorted(front, x), s.last());
        assert(messages_of(s).drop_last() =~= messages_of(front));
        assert(messages_of(s).last() == s.last().message);
    }
}

proof fn lemma_messages_sort(s: Seq<Sent>)
    ensures
        messages_of(sorting::stable_sort(s)) == sorting::stable_sort(messages_of(s)),
    decreases s.len(),
{
    if s.len() > 0 {
        let front = s.drop_last();
        lemma_messages_sort(front);
        lemma_messages_insert(sorting::stable_sort(front), s.last());
        assert(messages_of(s).drop_last() =~= messages_of(front));
    } else {
        assert(messages_of(sorting::stable_sort(s)) =~= sorting::stable_sort(messages_of(s)));
    }
}

proof fn lemma_messages_admitted(s: Seq<Sent>, limit: nat)
    ensures
        messages_of(barrier::admitted(s, limit)) == barrier::admitted(messages_of(s), limit),
{
    lemma_messages_sort(s);
    let sorted = sorting::stable_sort(s);
    if sorted.len() > limit {
        assert(messages_of(sorted.take(limit as int)) =~= messages_of(sorted).take(limit as int));
    }
}

/// What is due by `vtime_ns`.
pub open spec fn due(s: Seq<Sent>, vtime_ns: u64) -> Seq<Sent>
    decreases s.len(),
{
    if s.len() == 0 {
        Seq::empty()
    } else if s.last().message.delivery_vtime_ns <= vtime_ns {
        due(s.drop_last(), vtime_ns).push(s.last())
    } else {
        due(s.drop_last(), vtime_ns)
    }
}

/// What is due after `vtime_ns`.
pub open spec fn not_due(s: Seq<Sent>, vtime_ns: u64) -> Seq<Sent>
    decreases s.len(),
{
    if s.len() == 0 {
        Seq::empty()
    } else if s.last().message.delivery_vtime_ns <= vtime_ns {
        not_due(s.drop_last(), vtime_ns)
    } else {
        not_due(s.drop_last(), vtime_ns).push(s.last())
    }
}

proof fn lemma_messages_parted(s: Seq<Sent>, vtime_ns: u64)
    ensures
        messages_of(due(s, vtime_ns)) == coordination::due(messages_of(s), vtime_ns),
        messages_of(not_due(s, vtime_ns)) == coordination::not_due(messages_of(s), vtime_ns),
    decreases s.len(),
{
    if s.len() > 0 {
        let front = s.drop_last();
        lemma_messages_parted(front, vtime_ns);
        assert(messages_of(s).drop_last() =~= messages_of(front));
        assert(messages_of(s).last() == s.last().message);
        lemma_messages_push(due(front, vtime_ns), s.last());
        lemma_messages_push(not_due(front, vtime_ns), s.last());
    } else {
        assert(messages_of(s) =~= Seq::empty());
    }
}

/// How often `x` is in `s`.
pub open spec fn times(s: Seq<Sent>, x: Sent) -> nat {
    s.to_multiset().count(x)
}

proof fn lemma_times_push(s: Seq<Sent>, y: Sent, x: Sent)
    ensures
        times(s.push(y), x) == times(s, x) + if x == y {
            1nat
        } else {
            0
        },
{
    broadcast use vstd::seq_lib::group_to_multiset_ensures;

}

proof fn lemma_times_concat(a: Seq<Sent>, b: Seq<Sent>, x: Sent)
    ensures
        times(a + b, x) == times(a, x) + times(b, x),
{
    vstd::seq_lib::lemma_multiset_commutative(a, b);
}

proof fn lemma_times_parted(s: Seq<Sent>, vtime_ns: u64, x: Sent)
    ensures
        times(due(s, vtime_ns), x) + times(not_due(s, vtime_ns), x) == times(s, x),
    decreases s.len(),
{
    if s.len() > 0 {
        let front = s.drop_last();
        lemma_times_parted(front, vtime_ns, x);
        assert(s =~= front.push(s.last()));
        lemma_times_push(front, s.last(), x);
        lemma_times_push(due(front, vtime_ns), s.last(), x);
        lemma_times_push(not_due(front, vtime_ns), s.last(), x);
    } else {
        broadcast use vstd::seq_lib::group_to_multiset_ensures;

        assert(s =~= Seq::empty());
        assert(due(s, vtime_ns) + not_due(s, vtime_ns) =~= s);
        lemma_times_concat(due(s, vtime_ns), not_due(s, vtime_ns), x);
    }
}

proof fn lemma_times_admitted(s: Seq<Sent>, limit: nat, x: Sent)
    ensures
        times(barrier::admitted(s, limit), x) <= times(s, x),
{
    let sorted = sorting::stable_sort(s);
    sorting::law_sort_keeps_contents(s);
    if sorted.len() > limit {
        let cut = sorted.take(limit as int);
        assert(sorted =~= cut + sorted.skip(limit as int));
        lemma_times_concat(cut, sorted.skip(limit as int), x);
    }
}

proof fn lemma_times_in(s: Seq<Sent>, i: int)
    requires
        0 <= i < s.len(),
    ensures
        times(s, s[i]) >= 1,
{
    broadcast use vstd::seq_lib::group_to_multiset_ensures;

    assert(s.contains(s[i]));
    assert(s.to_multiset().contains(s[i]));
}

proof fn lemma_times_index(s: Seq<Sent>, x: Sent) -> (i: int)
    requires
        times(s, x) >= 1,
    ensures
        0 <= i < s.len(),
        s[i] == x,
{
    broadcast use vstd::seq_lib::group_to_multiset_ensures;

    assert(s.to_multiset().contains(x));
    assert(s.contains(x));
    choose|i: int| 0 <= i < s.len() && s[i] == x
}

proof fn lemma_times_twice(s: Seq<Sent>, i: int, j: int)
    requires
        0 <= i < j < s.len(),
        s[i] == s[j],
    ensures
        times(s, s[i]) >= 2,
{
    let a = s.take(j);
    let b = s.skip(j);
    assert(s =~= a + b);
    lemma_times_concat(a, b, s[i]);
    assert(a[i] == s[i]);
    assert(b[0] == s[j]);
    lemma_times_in(a, i);
    lemma_times_in(b, 0);
}

/// Where the messages of a run are.
#[verifier::ext_equal]
pub struct Trace {
    /// What each node has sent and not yet handed in.
    pub batches: Map<u32, Seq<Sent>>,
    /// What was handed in for the open quantum.
    pub buffer: Seq<Sent>,
    /// What was handed in for the next quantum.
    pub next_buffer: Seq<Sent>,
    /// What was released, in order.
    pub released: Seq<Sent>,
}

/// Nothing was sent.
pub open spec fn no_trace() -> Trace {
    Trace {
        batches: Map::empty(),
        buffer: Seq::empty(),
        next_buffer: Seq::empty(),
        released: Seq::empty(),
    }
}

/// What a node has sent and not yet handed in.
pub open spec fn batch_of(batches: Map<u32, Seq<Sent>>, node: u32) -> Seq<Sent> {
    if batches.contains_key(node) {
        batches[node]
    } else {
        Seq::empty()
    }
}

/// The trace once a message was taken in.
pub open spec fn message_taken(t: Trace, message: PendingView, at: int) -> Trace {
    let node = message.src_node_id;
    Trace {
        batches: t.batches.insert(node, batch_of(t.batches, node).push(Sent { message, at })),
        ..t
    }
}

/// The trace once a node has said to barrier `b` that it is done. What it hands in for the open
/// quantum is cut off at the limit; what it hands in for the next one is only if `cut_next`.
pub open spec fn done_taken(
    t: Trace,
    b: LookaheadView,
    node: u32,
    quantum: u64,
    vtime_ns: u64,
    cut_next: bool,
) -> Trace {
    let batch = batch_of(t.batches, node);
    let now = due(batch, vtime_ns);
    let cut = barrier::admitted(now, b.limit);
    let left = Trace { batches: t.batches.insert(node, not_due(batch, vtime_ns)), ..t };
    if node >= b.done.len() || quantum < b.current || quantum > b.current + 1 {
        left
    } else if quantum == b.current + 1 {
        if b.next_done[node as int] {
            left
        } else {
            Trace {
                next_buffer: t.next_buffer + if cut_next {
                    cut
                } else {
                    now
                },
                ..left
            }
        }
    } else if b.done[node as int] {
        left
    } else if barrier::all_set(b.done.update(node as int, true)) {
        Trace {
            released: t.released + sorting::stable_sort(t.buffer + cut),
            buffer: t.next_buffer,
            next_buffer: Seq::empty(),
            ..left
        }
    } else {
        Trace { buffer: t.buffer + cut, ..left }
    }
}

/// The trace says where the messages of a barrier and of the batches come from.
pub open spec fn fits(t: Trace, b: LookaheadView, batches: Map<u32, Seq<PendingView>>) -> bool {
    &&& messages_of(t.buffer) == b.buffer
    &&& messages_of(t.next_buffer) == b.next_buffer
    &&& forall|k: u32| #[trigger]
        messages_of(batch_of(t.batches, k)) == if batches.contains_key(k) {
            batches[k]
        } else {
            Seq::empty()
        }
}

/// The event brought the message.
pub open spec fn was_sent(events: Seq<EventView>, s: Sent) -> bool {
    0 <= s.at < events.len() && events[s.at] == (EventView::SimulationMessage {
        message: s.message,
    })
}

/// Event `r` is the word of a node that it is done with a quantum.
pub open spec fn is_word(events: Seq<EventView>, r: int, node: u32, quantum: int) -> bool {
    0 <= r < events.len() && match events[r] {
        EventView::QuantumDone { node_id, quantum: q, .. } => node_id == node && q == quantum,
        _ => false,
    }
}

/// After the message was sent, its source said that it is done with a quantum, at a time by which
/// the message was due.
pub open spec fn was_handed_in(events: Seq<EventView>, s: Sent, quantum: int) -> bool {
    exists|r: int| #[trigger]
        is_word(events, r, s.message.src_node_id, quantum) && s.at < r
            && events[r]->QuantumDone_vtime_ns >= s.message.delivery_vtime_ns
}

/// How often a message is anywhere.
pub open spec fn places(t: Trace, s: Sent) -> nat {
    times(t.released, s) + times(t.buffer, s) + times(t.next_buffer, s) + times(
        batch_of(t.batches, s.message.src_node_id),
        s,
    )
}

/// Every message is in one place at most, and stems from its own event; batches hold messages of
/// their own node, and what is handed in was handed in for the quantum that it waits for.
pub open spec fn is_sound(events: Seq<EventView>, b: LookaheadView, t: Trace) -> bool {
    &&& forall|s: Sent| #[trigger] places(t, s) <= 1
    &&& forall|s: Sent| #[trigger] places(t, s) >= 1 ==> was_sent(events, s)
    &&& forall|k: u32, i: int|
        0 <= i < batch_of(t.batches, k).len() ==> (#[trigger] batch_of(
            t.batches,
            k,
        )[i]).message.src_node_id == k
    &&& forall|i: int|
        0 <= i < t.buffer.len() ==> was_handed_in(events, #[trigger] t.buffer[i], b.current as int)
    &&& forall|i: int|
        0 <= i < t.next_buffer.len() ==> was_handed_in(
            events,
            #[trigger] t.next_buffer[i],
            b.current + 1,
        )
}

/// Every node whose flag is set has said that it is done with that quantum.
pub open spec fn flags_have_words(events: Seq<EventView>, b: LookaheadView) -> bool {
    &&& b.done.len() == b.next_done.len()
    &&& forall|i: int|
        0 <= i < b.done.len() && #[trigger] b.done[i] ==> has_word(events, i, b.current as int)
    &&& forall|i: int|
        0 <= i < b.next_done.len() && #[trigger] b.next_done[i] ==> has_word(
            events,
            i,
            b.current + 1,
        )
}

/// A node has said that it is done with a quantum.
pub open spec fn has_word(events: Seq<EventView>, node: int, quantum: int) -> bool {
    exists|r: int| #[trigger] is_word(events, r, node as u32, quantum)
}

pub proof fn lemma_later_word(events: Seq<EventView>, more: EventView)
    ensures
        forall|node: int, quantum: int|
            has_word(events, node, quantum) ==> #[trigger] has_word(
                events.push(more),
                node,
                quantum,
            ),
        forall|s: Sent, quantum: int|
            was_handed_in(events, s, quantum) ==> #[trigger] was_handed_in(
                events.push(more),
                s,
                quantum,
            ),
        forall|s: Sent| was_sent(events, s) ==> #[trigger] was_sent(events.push(more), s),
{
    let now = events.push(more);
    assert forall|node: int, quantum: int| has_word(events, node, quantum) implies #[trigger]
    has_word(now, node, quantum) by {
        let r = choose|r: int| #[trigger] is_word(events, r, node as u32, quantum);
        assert(is_word(now, r, node as u32, quantum));
    }
    assert forall|s: Sent, quantum: int| was_handed_in(events, s, quantum) implies #[trigger]
    was_handed_in(now, s, quantum) by {
        let r = choose|r: int| #[trigger]
            is_word(events, r, s.message.src_node_id, quantum) && s.at < r
                && events[r]->QuantumDone_vtime_ns >= s.message.delivery_vtime_ns;
        assert(is_word(now, r, s.message.src_node_id, quantum));
    }
}

/// An event that takes nothing in and hands nothing in keeps the trace sound.
pub proof fn lemma_sound_later(
    events: Seq<EventView>,
    more: EventView,
    b: LookaheadView,
    t: Trace,
)
    requires
        is_sound(events, b, t),
        flags_have_words(events, b),
    ensures
        is_sound(events.push(more), b, t),
        flags_have_words(events.push(more), b),
{
    lemma_later_word(events, more);
}

/// A message that is taken in keeps the trace sound.
pub proof fn lemma_sound_message(
    events: Seq<EventView>,
    message: PendingView,
    b: LookaheadView,
    t: Trace,
)
    requires
        is_sound(events, b, t),
        flags_have_words(events, b),
    ensures
        ({
            let now = events.push(EventView::SimulationMessage { message });
            &&& is_sound(now, b, message_taken(t, message, events.len() as int))
            &&& flags_have_words(now, b)
        }),
{
    let event = EventView::SimulationMessage { message };
    let now = events.push(event);
    let x = Sent { message, at: events.len() as int };
    let node = message.src_node_id;
    let after = message_taken(t, message, events.len() as int);
    lemma_later_word(events, event);
    assert(places(t, x) == 0) by {
        if places(t, x) >= 1 {
            assert(was_sent(events, x));
        }
    }
    assert(was_sent(now, x));
    assert forall|s: Sent| #[trigger] places(after, s) == places(t, s) + if s == x {
        1nat
    } else {
        0
    } by {
        lemma_times_push(batch_of(t.batches, node), x, s);
    }
    assert forall|s: Sent| #[trigger] places(after, s) >= 1 implies was_sent(now, s) by {
        if s != x {
            assert(places(t, s) >= 1);
            assert(was_sent(events, s));
        }
    }
    assert forall|s: Sent| #[trigger] places(after, s) <= 1 by {
        assert(places(t, s) <= 1);
    }
    assert forall|k: u32, i: int| 0 <= i < batch_of(after.batches, k).len() implies (
    #[trigger] batch_of(after.batches, k)[i]).message.src_node_id == k by {
        if k != node || i < batch_of(t.batches, k).len() {
            assert(batch_of(t.batches, k)[i].message.src_node_id == k);
        }
    }
}

proof fn lemma_due_is_due(s: Seq<Sent>, vtime_ns: u64, i: int)
    requires
        0 <= i < due(s, vtime_ns).len(),
    ensures
        due(s, vtime_ns)[i].message.delivery_vtime_ns <= vtime_ns,
    decreases s.len(),
{
    let front = due(s.drop_last(), vtime_ns);
    if i < front.len() {
        lemma_due_is_due(s.drop_last(), vtime_ns, i);
    }
}

/// The flags of a barrier once a node has said that it is done.
pub open spec fn flags_after(b: LookaheadView, node: u32, quantum: u64) -> LookaheadView {
    let done = b.done.update(node as int, true);
    if node >= b.done.len() || quantum < b.current || quantum > b.current + 1 {
        b
    } else if quantum == b.current + 1 {
        if b.next_done[node as int] {
            b
        } else {
            LookaheadView { next_done: b.next_done.update(node as int, true), ..b }
        }
    } else if b.done[node as int] {
        b
    } else if barrier::all_set(done) {
        LookaheadView {
            current: (b.current + 1) as u64,
            done: b.next_done,
            next_done: barrier::none_set(b.done.len()),
            ..b
        }
    } else {
        LookaheadView { done, ..b }
    }
}

proof fn lemma_handed_in(
    events: Seq<EventView>,
    b: LookaheadView,
    t: Trace,
    node: u32,
    quantum: u64,
    vtime_ns: u64,
    x: Sent,
)
    requires
        is_sound(events, b, t),
        times(due(batch_of(t.batches, node), vtime_ns), x) >= 1,
    ensures
        x.message.src_node_id == node,
        was_handed_in(
            events.push(EventView::QuantumDone { node_id: node, quantum, vtime_ns }),
            x,
            quantum as int,
        ),
{
    let event = EventView::QuantumDone { node_id: node, quantum, vtime_ns };
    let now = events.push(event);
    let batch = batch_of(t.batches, node);
    lemma_times_parted(batch, vtime_ns, x);
    let i = lemma_times_index(batch, x);
    assert(batch_of(t.batches, node)[i].message.src_node_id == node);
    let j = lemma_times_index(due(batch, vtime_ns), x);
    lemma_due_is_due(batch, vtime_ns, j);
    assert(places(t, x) >= 1);
    assert(was_sent(events, x));
    assert(is_word(now, events.len() as int, node, quantum as int));
}

proof fn lemma_left_from(s: Seq<Sent>, vtime_ns: u64, node: u32)
    requires
        forall|i: int| 0 <= i < s.len() ==> (#[trigger] s[i]).message.src_node_id == node,
    ensures
        forall|i: int|
            0 <= i < not_due(s, vtime_ns).len() ==> (#[trigger] not_due(
                s,
                vtime_ns,
            )[i]).message.src_node_id == node,
{
    assert forall|i: int| 0 <= i < not_due(s, vtime_ns).len() implies (#[trigger] not_due(
        s,
        vtime_ns,
    )[i]).message.src_node_id == node by {
        let x = not_due(s, vtime_ns)[i];
        lemma_times_in(not_due(s, vtime_ns), i);
        lemma_times_parted(s, vtime_ns, x);
        let k = lemma_times_index(s, x);
        assert(s[k].message.src_node_id == node);
    }
}

/// The word of a node that it is done keeps the trace sound; what is released was handed in for the
/// quantum that was open.
pub proof fn lemma_sound_done(
    events: Seq<EventView>,
    b: LookaheadView,
    t: Trace,
    node: u32,
    quantum: u64,
    vtime_ns: u64,
    cut_next: bool,
)
    requires
        is_sound(events, b, t),
        flags_have_words(events, b),
        b.current < u64::MAX,
    ensures
        ({
            let now = events.push(EventView::QuantumDone { node_id: node, quantum, vtime_ns });
            let after = done_taken(t, b, node, quantum, vtime_ns, cut_next);
            let next = flags_after(b, node, quantum);
            &&& is_sound(now, next, after)
            &&& flags_have_words(now, next)
            &&& t.released.len() <= after.released.len()
            &&& forall|i: int|
                0 <= i < t.released.len() ==> #[trigger] after.released[i] == t.released[i]
            &&& forall|i: int|
                t.released.len() <= i < after.released.len() ==> was_handed_in(
                    now,
                    #[trigger] after.released[i],
                    b.current as int,
                )
        }),
{
    let event = EventView::QuantumDone { node_id: node, quantum, vtime_ns };
    let now = events.push(event);
    let after = done_taken(t, b, node, quantum, vtime_ns, cut_next);
    let next = flags_after(b, node, quantum);
    let batch = batch_of(t.batches, node);
    let handed = due(batch, vtime_ns);
    let cut = barrier::admitted(handed, b.limit);
    let left = not_due(batch, vtime_ns);
    lemma_later_word(events, event);
    assert(is_word(now, events.len() as int, node, quantum as int));
    assert((node as int) as u32 == node);
    assert(has_word(now, node as int, quantum as int));
    // Nothing is in more places than before.
    assert forall|s: Sent| #[trigger] places(after, s) <= places(t, s) by {
        lemma_times_parted(batch, vtime_ns, s);
        lemma_times_admitted(handed, b.limit, s);
        lemma_times_concat(t.buffer, cut, s);
        lemma_times_concat(t.next_buffer, cut, s);
        lemma_times_concat(t.next_buffer, handed, s);
        lemma_times_concat(t.released, sorting::stable_sort(t.buffer + cut), s);
        sorting::law_sort_keeps_contents(t.buffer + cut);
        lemma_times_none(s);
        if times(handed, s) >= 1 {
            lemma_handed_in(events, b, t, node, quantum, vtime_ns, s);
        }
        if s.message.src_node_id != node {
            assert(batch_of(after.batches, s.message.src_node_id) == batch_of(
                t.batches,
                s.message.src_node_id,
            ));
        } else {
            assert(batch_of(after.batches, node) == left);
        }
    }
    assert forall|s: Sent| #[trigger] places(after, s) <= 1 by {
        assert(places(t, s) <= 1);
    }
    assert forall|s: Sent| #[trigger] places(after, s) >= 1 implies was_sent(now, s) by {
        assert(places(t, s) >= 1);
        assert(was_sent(events, s));
    }
    assert forall|i: int| 0 <= i < batch.len() implies (#[trigger] batch[i]).message.src_node_id
        == node by {
        assert(batch_of(t.batches, node)[i].message.src_node_id == node);
    }
    lemma_left_from(batch, vtime_ns, node);
    assert forall|k: u32, i: int| 0 <= i < batch_of(after.batches, k).len() implies (
    #[trigger] batch_of(after.batches, k)[i]).message.src_node_id == k by {
        if k != node {
            assert(batch_of(t.batches, k)[i].message.src_node_id == k);
        } else {
            assert(batch_of(after.batches, k) == left);
        }
    }
    // What was handed in was handed in for its quantum.
    assert forall|i: int| 0 <= i < handed.len() implies was_handed_in(
        now,
        #[trigger] handed[i],
        quantum as int,
    ) by {
        lemma_times_in(handed, i);
        lemma_handed_in(events, b, t, node, quantum, vtime_ns, handed[i]);
    }
    assert forall|i: int| 0 <= i < cut.len() implies was_handed_in(
        now,
        #[trigger] cut[i],
        quantum as int,
    ) by {
        lemma_times_in(cut, i);
        lemma_times_admitted(handed, b.limit, cut[i]);
        lemma_handed_in(events, b, t, node, quantum, vtime_ns, cut[i]);
    }
    let open = t.buffer + cut;
    if quantum == b.current {
        assert forall|i: int| 0 <= i < open.len() implies was_handed_in(
            now,
            #[trigger] open[i],
            b.current as int,
        ) by {
            if i < t.buffer.len() {
                assert(was_handed_in(events, t.buffer[i], b.current as int));
            } else {
                assert(open[i] == cut[i - t.buffer.len()]);
            }
        }
        let sorted = sorting::stable_sort(open);
        assert forall|i: int| 0 <= i < sorted.len() implies was_handed_in(
            now,
            #[trigger] sorted[i],
            b.current as int,
        ) by {
            sorting::law_sort_keeps_contents(open);
            lemma_times_in(sorted, i);
            let k = lemma_times_index(open, sorted[i]);
            assert(was_handed_in(now, open[k], b.current as int));
        }
        assert forall|i: int| t.released.len() <= i < after.released.len() implies was_handed_in(
            now,
            #[trigger] after.released[i],
            b.current as int,
        ) by {
            assert(after.released[i] == sorted[i - t.released.len()]);
        }
    }
    assert forall|i: int| 0 <= i < after.buffer.len() implies was_handed_in(
        now,
        #[trigger] after.buffer[i],
        next.current as int,
    ) by {
        if after.buffer == t.buffer {
            assert(was_handed_in(events, t.buffer[i], b.current as int));
        } else if after.buffer == t.next_buffer {
            assert(was_handed_in(events, t.next_buffer[i], b.current + 1));
        }
    }
    assert forall|i: int| 0 <= i < after.next_buffer.len() implies was_handed_in(
        now,
        #[trigger] after.next_buffer[i],
        next.current + 1,
    ) by {
        if i < t.next_buffer.len() {
            assert(was_handed_in(events, t.next_buffer[i], b.current + 1));
        } else if cut_next {
            assert(after.next_buffer[i] == cut[i - t.next_buffer.len()]);
        } else {
            assert(after.next_buffer[i] == handed[i - t.next_buffer.len()]);
        }
    }
}

proof fn lemma_times_none(x: Sent)
    ensures
        times(Seq::<Sent>::empty(), x) == 0,
{
    broadcast use vstd::seq_lib::group_to_multiset_ensures;

    if times(Seq::<Sent>::empty(), x) >= 1 {
        let i = lemma_times_index(Seq::<Sent>::empty(), x);
    }
}

/// Nothing was sent: nothing is astray.
pub proof fn lemma_sound_start(events: Seq<EventView>, b: LookaheadView, n_nodes: nat)
    requires
        b.done == barrier::none_set(n_nodes),
        b.next_done == barrier::none_set(n_nodes),
    ensures
        is_sound(events, b, no_trace()),
        flags_have_words(events, b),
{
    assert forall|s: Sent| #[trigger] places(no_trace(), s) == 0 by {
        lemma_times_none(s);
    }
}

/// The values of the clock starts among actions, in order.
pub open spec fn starts(actions: Seq<ActionView>) -> Seq<u64>
    decreases actions.len(),
{
    if actions.len() == 0 {
        Seq::empty()
    } else {
        let front = starts(actions.drop_last());
        match actions.last() {
            ActionView::BroadcastClockStart { release_quantum } => front.push(release_quantum),
            _ => front,
        }
    }
}

/// The routed messages among actions, in order.
pub open spec fn routes(actions: Seq<ActionView>) -> Seq<ActionView>
    decreases actions.len(),
{
    if actions.len() == 0 {
        Seq::empty()
    } else {
        let front = routes(actions.drop_last());
        match actions.last() {
            ActionView::RouteMessage { .. } => front.push(actions.last()),
            _ => front,
        }
    }
}

pub proof fn lemma_actions_concat(a: Seq<ActionView>, b: Seq<ActionView>)
    ensures
        starts(a + b) == starts(a) + starts(b),
        routes(a + b) == routes(a) + routes(b),
    decreases b.len(),
{
    if b.len() == 0 {
        assert(a + b =~= a);
        assert(starts(a) + starts(b) =~= starts(a));
        assert(routes(a) + routes(b) =~= routes(a));
    } else {
        lemma_actions_concat(a, b.drop_last());
        assert((a + b).drop_last() =~= a + b.drop_last());
        assert((a + b).last() == b.last());
        assert(starts(a + b) =~= starts(a) + starts(b));
        assert(routes(a + b) =~= routes(a) + routes(b));
    }
}

pub proof fn lemma_one_action(a: ActionView)
    ensures
        starts(seq![a]) == match a {
            ActionView::BroadcastClockStart { release_quantum } => seq![release_quantum],
            _ => Seq::<u64>::empty(),
        },
        routes(seq![a]) == match a {
            ActionView::RouteMessage { .. } => seq![a],
            _ => Seq::<ActionView>::empty(),
        },
{
    reveal_with_fuel(starts, 2);
    reveal_with_fuel(routes, 2);
    assert(seq![a].drop_last() =~= Seq::empty());
    assert(starts(seq![a]) =~= match a {
        ActionView::BroadcastClockStart { release_quantum } => seq![release_quantum],
        _ => Seq::<u64>::empty(),
    });
    assert(routes(seq![a]) =~= match a {
        ActionView::RouteMessage { .. } => seq![a],
        _ => Seq::<ActionView>::empty(),
    });
}

pub proof fn lemma_routed_actions(links: Links, messages: Seq<PendingView>)
    ensures
        starts(coordination::routed(links, messages)) == Seq::<u64>::empty(),
        routes(coordination::routed(links, messages)) == coordination::routed(links, messages),
    decreases messages.len(),
{
    if messages.len() > 0 {
        let front = coordination::routed(links, messages.drop_last());
        let last = coordination::routed_one(links, messages.last());
        lemma_routed_actions(links, messages.drop_last());
        lemma_actions_concat(front, last);
        if last.len() > 0 {
            lemma_one_action(last[0]);
            assert(last =~= seq![last[0]]);
        }
        assert(starts(front) + starts(last) =~= Seq::empty());
    }
}

pub proof fn lemma_routed_concat(links: Links, a: Seq<PendingView>, b: Seq<PendingView>)
    ensures
        coordination::routed(links, a + b) == coordination::routed(links, a)
            + coordination::routed(links, b),
    decreases b.len(),
{
    if b.len() == 0 {
        assert(a + b =~= a);
        assert(coordination::routed(links, a) + coordination::routed(links, b)
            =~= coordination::routed(links, a));
    } else {
        lemma_routed_concat(links, a, b.drop_last());
        assert((a + b).drop_last() =~= a + b.drop_last());
        assert((a + b).last() == b.last());
        assert(coordination::routed(links, a + b) =~= coordination::routed(links, a)
            + coordination::routed(links, b));
    }
}

/// No two messages that were released stem from the same event, and each stems from its own.
pub proof fn lemma_released_apart(events: Seq<EventView>, b: LookaheadView, t: Trace)
    requires
        is_sound(events, b, t),
    ensures
        forall|i: int|
            0 <= i < t.released.len() ==> was_sent(events, #[trigger] t.released[i]),
        forall|i: int, j: int|
            0 <= i < j < t.released.len() ==> (#[trigger] t.released[i]).at != (
            #[trigger] t.released[j]).at,
{
    assert forall|i: int| 0 <= i < t.released.len() implies was_sent(
        events,
        #[trigger] t.released[i],
    ) by {
        lemma_times_in(t.released, i);
        assert(places(t, t.released[i]) >= 1);
    }
    assert forall|i: int, j: int| 0 <= i < j < t.released.len() implies (
    #[trigger] t.released[i]).at != (#[trigger] t.released[j]).at by {
        if t.released[i].at == t.released[j].at {
            assert(was_sent(events, t.released[i]));
            assert(was_sent(events, t.released[j]));
            assert(t.released[i] == t.released[j]);
            lemma_times_twice(t.released, i, j);
            assert(places(t, t.released[i]) <= 1);
        }
    }
}

/// The trace fits the barrier and the batches once a message was taken in.
pub proof fn lemma_fits_message(
    t: Trace,
    b: LookaheadView,
    batches: Map<u32, Seq<PendingView>>,
    message: PendingView,
    at: int,
)
    requires
        fits(t, b, batches),
    ensures
        ({
            let node = message.src_node_id;
            let held = if batches.contains_key(node) {
                batches[node]
            } else {
                Seq::empty()
            };
            fits(message_taken(t, message, at), b, batches.insert(node, held.push(message)))
        }),
{
    let node = message.src_node_id;
    let after = message_taken(t, message, at);
    let now = batches.insert(
        node,
        (if batches.contains_key(node) {
            batches[node]
        } else {
            Seq::empty()
        }).push(message),
    );
    assert forall|k: u32| #[trigger]
        messages_of(batch_of(after.batches, k)) == if now.contains_key(k) {
            now[k]
        } else {
            Seq::empty()
        } by {
        assert(messages_of(batch_of(t.batches, k)) == if batches.contains_key(k) {
            batches[k]
        } else {
            Seq::empty()
        });
        lemma_messages_push(batch_of(t.batches, node), Sent { message, at });
    }
}

/// What the trace of a node that is done comes to, in messages alone.
pub proof fn lemma_fits_done(
    t: Trace,
    b: LookaheadView,
    batches: Map<u32, Seq<PendingView>>,
    node: u32,
    quantum: u64,
    vtime_ns: u64,
    cut_next: bool,
)
    requires
        fits(t, b, batches),
    ensures
        ({
            let after = done_taken(t, b, node, quantum, vtime_ns, cut_next);
            let held = if batches.contains_key(node) {
                batches[node]
            } else {
                Seq::empty()
            };
            let now = coordination::due(held, vtime_ns);
            let cut = barrier::admitted(now, b.limit);
            let open = quantum == b.current && node < b.done.len() && !b.done[node as int];
            let early = quantum == b.current + 1 && node < b.done.len()
                && !b.next_done[node as int];
            let closes = open && barrier::all_set(b.done.update(node as int, true));
            &&& messages_of(after.released) == messages_of(t.released) + if closes {
                sorting::stable_sort(b.buffer + cut)
            } else {
                Seq::empty()
            }
            &&& messages_of(after.buffer) == if closes {
                b.next_buffer
            } else if open {
                b.buffer + cut
            } else {
                b.buffer
            }
            &&& messages_of(after.next_buffer) == if closes {
                Seq::empty()
            } else if early {
                b.next_buffer + if cut_next {
                    cut
                } else {
                    now
                }
            } else {
                b.next_buffer
            }
            &&& forall|k: u32| #[trigger]
                messages_of(batch_of(after.batches, k)) == if k == node {
                    coordination::not_due(held, vtime_ns)
                } else if batches.contains_key(k) {
                    batches[k]
                } else {
                    Seq::empty()
                }
        }),
{
    let after = done_taken(t, b, node, quantum, vtime_ns, cut_next);
    let batch = batch_of(t.batches, node);
    let handed = due(batch, vtime_ns);
    let cut = barrier::admitted(handed, b.limit);
    lemma_messages_parted(batch, vtime_ns);
    lemma_messages_admitted(handed, b.limit);
    lemma_messages_concat(t.buffer, cut);
    lemma_messages_concat(t.next_buffer, cut);
    lemma_messages_concat(t.next_buffer, handed);
    lemma_messages_sort(t.buffer + cut);
    lemma_messages_concat(t.released, sorting::stable_sort(t.buffer + cut));
    assert(messages_of(t.released) + Seq::empty() =~= messages_of(t.released));
    assert(messages_of(Seq::<Sent>::empty()) =~= Seq::empty());
    assert(messages_of(batch_of(t.batches, node)) == if batches.contains_key(node) {
        batches[node]
    } else {
        Seq::empty()
    });
    assert forall|k: u32| k != node implies #[trigger] messages_of(batch_of(after.batches, k))
        == if batches.contains_key(k) {
        batches[k]
    } else {
        Seq::empty()
    } by {
        assert(messages_of(batch_of(t.batches, k)) == if batches.contains_key(k) {
            batches[k]
        } else {
            Seq::empty()
        });
        assert(batch_of(after.batches, k) == batch_of(t.batches, k));
    }
}

/// The numbers from 0 up to and with `last`.
pub open spec fn up_to(last: u64) -> Seq<u64> {
    Seq::new(last as nat + 1, |i: int| i as u64)
}

/// The clock starts of a run that is in a phase.
pub open spec fn starts_by(phase: PhaseView) -> Seq<u64> {
    match phase {
        PhaseView::Simulation { barrier, .. } => up_to(barrier.current),
        _ => Seq::empty(),
    }
}

pub proof fn lemma_nothing_more(actions: Seq<ActionView>)
    ensures
        starts(actions) + Seq::<u64>::empty() == starts(actions),
        routes(actions) + Seq::<ActionView>::empty() == routes(actions),
        starts(Seq::<ActionView>::empty()) == Seq::<u64>::empty(),
        routes(Seq::<ActionView>::empty()) == Seq::<ActionView>::empty(),
{
    assert(starts(actions) + Seq::<u64>::empty() =~= starts(actions));
    assert(routes(actions) + Seq::<ActionView>::empty() =~= routes(
        actions,
    ));
}

pub proof fn lemma_start_is_listed(actions: Seq<ActionView>, k: int, release_quantum: u64)
    requires
        0 <= k < actions.len(),
        actions[k] == (ActionView::BroadcastClockStart { release_quantum }),
    ensures
        exists|i: int|
            0 <= i < starts(actions).len() && #[trigger] starts(actions)[i]
                == release_quantum,
    decreases actions.len(),
{
    let front = starts(actions.drop_last());
    let all = starts(actions);
    if k == actions.len() - 1 {
        assert(all[all.len() - 1] == release_quantum);
    } else {
        lemma_start_is_listed(actions.drop_last(), k, release_quantum);
        let i = choose|i: int| 0 <= i < front.len() && #[trigger] front[i] == release_quantum;
        assert(all[i] == release_quantum);
    }
}

/// What is done about a released message that other nodes are to get.
pub open spec fn route_of(links: Links, m: PendingView) -> ActionView {
    ActionView::RouteMessage {
        target_nodes: coordination::route_targets(links, m.link_id, m.src_node_id),
        link_id: m.link_id,
        delivery_vtime_ns: m.delivery_vtime_ns,
        sequence_number: m.sequence_number,
        payload: m.payload,
    }
}

/// The released messages that other nodes are to get.
pub open spec fn origins(links: Links, released: Seq<Sent>) -> Seq<Sent>
    decreases released.len(),
{
    if released.len() == 0 {
        Seq::empty()
    } else {
        let front = origins(links, released.drop_last());
        let m = released.last().message;
        if coordination::route_targets(links, m.link_id, m.src_node_id).len() == 0 {
            front
        } else {
            front.push(released.last())
        }
    }
}

pub proof fn lemma_origins(links: Links, released: Seq<Sent>)
    ensures
        ({
            let routes = coordination::routed(links, messages_of(released));
            let from = origins(links, released);
            &&& routes.len() == from.len()
            &&& forall|k: int|
                0 <= k < routes.len() ==> #[trigger] routes[k] == route_of(links, from[k].message)
            &&& forall|k: int| 0 <= k < from.len() ==> released.contains(#[trigger] from[k])
        }),
    decreases released.len(),
{
    if released.len() > 0 {
        let front = released.drop_last();
        lemma_origins(links, front);
        assert(messages_of(released).drop_last() =~= messages_of(front));
        assert(messages_of(released).last() == released.last().message);
        let from = origins(links, released);
        assert forall|k: int| 0 <= k < from.len() implies released.contains(#[trigger] from[k]) by {
            if k < origins(links, front).len() {
                assert(front.contains(origins(links, front)[k]));
                let i = choose|i: int| 0 <= i < front.len() && front[i] == from[k];
                assert(released[i] == from[k]);
            } else {
                assert(released[released.len() - 1] == from[k]);
            }
        }
    }
}

pub proof fn lemma_origins_concat(links: Links, a: Seq<Sent>, b: Seq<Sent>)
    ensures
        origins(links, a + b) == origins(links, a) + origins(links, b),
    decreases b.len(),
{
    if b.len() == 0 {
        assert(a + b =~= a);
        assert(origins(links, a) + origins(links, b) =~= origins(links, a));
    } else {
        lemma_origins_concat(links, a, b.drop_last());
        assert((a + b).drop_last() =~= a + b.drop_last());
        assert((a + b).last() == b.last());
        assert(origins(links, a + b) =~= origins(links, a) + origins(links, b));
    }
}

pub proof fn lemma_origins_apart(links: Links, released: Seq<Sent>)
    requires
        forall|i: int, j: int|
            0 <= i < j < released.len() ==> (#[trigger] released[i]).at != (
            #[trigger] released[j]).at,
    ensures
        ({
            let from = origins(links, released);
            forall|i: int, j: int|
                0 <= i < j < from.len() ==> (#[trigger] from[i]).at != (#[trigger] from[j]).at
        }),
    decreases released.len(),
{
    if released.len() > 0 {
        let front = released.drop_last();
        assert forall|i: int, j: int| 0 <= i < j < front.len() implies (#[trigger] front[i]).at != (
        #[trigger] front[j]).at by {
            assert(front[i] == released[i] && front[j] == released[j]);
        }
        lemma_origins_apart(links, front);
        lemma_origins(links, front);
        let before = origins(links, front);
        assert forall|k: int| 0 <= k < before.len() implies (#[trigger] before[k]).at
            != released.last().at by {
            assert(front.contains(before[k]));
            let i = choose|i: int| 0 <= i < front.len() && front[i] == before[k];
            assert(released[i] == before[k]);
        }
    }
}

} // verus!
