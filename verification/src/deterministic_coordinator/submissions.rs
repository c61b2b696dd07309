//! What holds of a barrier after any submissions.
use vstd::multiset::Multiset;
use vstd::prelude::*;

use crate::coordination;
use crate::coordination::{LookaheadView, PendingView};
use crate::deterministic_coordinator::barrier;
use crate::deterministic_coordinator::coordinator;
use crate::sorting;

verus! {

/// A call of `BarrierState::submit_done`.
#[verifier::ext_equal]
pub struct Submission {
    pub node_id: u32,
    pub quantum: u64,
    pub messages: Seq<PendingView>,
}

/// What a submission comes to: the barrier after it, and what is released.
pub open spec fn outcome(b: LookaheadView, s: Submission) -> (
    LookaheadView,
    coordinator::SubmitResult,
) {
    coordinator::submitted(b, s.node_id, s.quantum, s.messages)
}

/// A new barrier after submissions, one after the other.
pub open spec fn barrier_after(n_nodes: nat, limit: nat, subs: Seq<Submission>) -> LookaheadView
    decreases subs.len(),
{
    if subs.len() == 0 {
        coordination::first_barrier(n_nodes, limit)
    } else {
        outcome(barrier_after(n_nodes, limit, subs.drop_last()), subs.last()).0
    }
}

/// Each submission finds a quantum after the open one.
pub open spec fn can_go_on(n_nodes: nat, limit: nat, subs: Seq<Submission>) -> bool
    decreases subs.len(),
{
    subs.len() == 0 || (can_go_on(n_nodes, limit, subs.drop_last()) && barrier_after(
        n_nodes,
        limit,
        subs.drop_last(),
    ).current < u64::MAX)
}

/// The last submission was taken in: it was neither refused nor too late.
pub open spec fn was_taken(n_nodes: nat, limit: nat, subs: Seq<Submission>) -> bool {
    let b = barrier_after(n_nodes, limit, subs.drop_last());
    outcome(b, subs.last()).1 is Ok && subs.last().quantum >= b.current
}

/// What a node has handed in for a quantum; `None` if it has not yet.
pub open spec fn handed_in_by(
    n_nodes: nat,
    limit: nat,
    subs: Seq<Submission>,
    node: int,
    quantum: int,
) -> Option<Seq<PendingView>>
    decreases subs.len(),
{
    if subs.len() == 0 {
        None
    } else if subs.last().node_id == node && subs.last().quantum == quantum && was_taken(
        n_nodes,
        limit,
        subs,
    ) {
        Some(subs.last().messages)
    } else {
        handed_in_by(n_nodes, limit, subs.drop_last(), node, quantum)
    }
}

/// What the first `k` nodes have handed in for a quantum, of each node as many of its messages as
/// the limit allows, in their order.
pub open spec fn handed_in(
    n_nodes: nat,
    limit: nat,
    subs: Seq<Submission>,
    quantum: int,
    k: nat,
) -> Multiset<PendingView>
    decreases k,
{
    if k == 0 {
        Multiset::empty()
    } else {
        handed_in(n_nodes, limit, subs, quantum, (k - 1) as nat).add(
            match handed_in_by(n_nodes, limit, subs, k - 1, quantum) {
                Some(messages) => barrier::admitted(messages, limit).to_multiset(),
                None => Multiset::empty(),
            },
        )
    }
}

/// Every node has handed in for a quantum.
pub open spec fn all_handed_in(
    n_nodes: nat,
    limit: nat,
    subs: Seq<Submission>,
    quantum: int,
) -> bool {
    forall|i: int|
        0 <= i < n_nodes ==> #[trigger] handed_in_by(n_nodes, limit, subs, i, quantum) is Some
}

/// The barrier holds what the nodes have handed in for the open quantum and for the next one.
pub open spec fn holds_what_was_handed_in(
    n_nodes: nat,
    limit: nat,
    subs: Seq<Submission>,
    b: LookaheadView,
) -> bool {
    &&& b.limit == limit
    &&& b.done.len() == n_nodes
    &&& b.next_done.len() == n_nodes
    &&& forall|i: int|
        0 <= i < n_nodes ==> #[trigger] b.done[i] == (handed_in_by(
            n_nodes,
            limit,
            subs,
            i,
            b.current as int,
        ) is Some)
    &&& forall|i: int|
        0 <= i < n_nodes ==> #[trigger] b.next_done[i] == (handed_in_by(
            n_nodes,
            limit,
            subs,
            i,
            b.current + 1,
        ) is Some)
    &&& b.buffer.to_multiset() == handed_in(n_nodes, limit, subs, b.current as int, n_nodes)
    &&& b.next_buffer.to_multiset() == handed_in(n_nodes, limit, subs, b.current + 1, n_nodes)
}

/// Nothing was handed in for a quantum after the next one.
proof fn lemma_nothing_ahead(n_nodes: nat, limit: nat, subs: Seq<Submission>, node: int, quantum: int)
    requires
        can_go_on(n_nodes, limit, subs),
        quantum > barrier_after(n_nodes, limit, subs).current + 1,
    ensures
        handed_in_by(n_nodes, limit, subs, node, quantum) is None,
    decreases subs.len(),
{
    if subs.len() > 0 {
        let front = subs.drop_last();
        let b = barrier_after(n_nodes, limit, front);
        lemma_nothing_ahead(n_nodes, limit, front, node, quantum);
    }
}

/// Where no node has handed in, there is nothing.
proof fn lemma_nothing_handed_in(n_nodes: nat, limit: nat, subs: Seq<Submission>, quantum: int, k: nat)
    requires
        forall|i: int|
            0 <= i < k ==> #[trigger] handed_in_by(n_nodes, limit, subs, i, quantum) is None,
    ensures
        handed_in(n_nodes, limit, subs, quantum, k) == Multiset::<PendingView>::empty(),
    decreases k,
{
    if k > 0 {
        lemma_nothing_handed_in(n_nodes, limit, subs, quantum, (k - 1) as nat);
        assert(handed_in_by(n_nodes, limit, subs, k - 1, quantum) is None);
        assert(handed_in(n_nodes, limit, subs, quantum, k) =~= Multiset::<PendingView>::empty());
    }
}

/// What is handed in once a submission was made: what it brings, if it was taken in for that
/// quantum, comes on top.
proof fn lemma_one_more(n_nodes: nat, limit: nat, subs: Seq<Submission>, quantum: int, k: nat)
    requires
        subs.len() > 0,
        was_taken(n_nodes, limit, subs) && subs.last().quantum == quantum ==> handed_in_by(
            n_nodes,
            limit,
            subs.drop_last(),
            subs.last().node_id as int,
            quantum,
        ) is None,
    ensures
        handed_in(n_nodes, limit, subs, quantum, k) == handed_in(
            n_nodes,
            limit,
            subs.drop_last(),
            quantum,
            k,
        ).add(
            if was_taken(n_nodes, limit, subs) && subs.last().quantum == quantum
                && subs.last().node_id < k {
                barrier::admitted(subs.last().messages, limit).to_multiset()
            } else {
                Multiset::empty()
            },
        ),
    decreases k,
{
    if k > 0 {
        lemma_one_more(n_nodes, limit, subs, quantum, (k - 1) as nat);
    }
    assert(handed_in(n_nodes, limit, subs, quantum, k) =~= handed_in(
        n_nodes,
        limit,
        subs.drop_last(),
        quantum,
        k,
    ).add(
        if was_taken(n_nodes, limit, subs) && subs.last().quantum == quantum && subs.last().node_id
            < k {
            barrier::admitted(subs.last().messages, limit).to_multiset()
        } else {
            Multiset::empty()
        },
    ));
}

proof fn lemma_concat_adds(a: Seq<PendingView>, b: Seq<PendingView>)
    ensures
        (a + b).to_multiset() == a.to_multiset().add(b.to_multiset()),
{
    vstd::seq_lib::lemma_multiset_commutative(a, b);
}

/// After any submissions a new barrier holds what the nodes have handed in for the open quantum
/// and for the next one, of each node as many messages as the limit allows.
pub proof fn law_barrier_holds_what_was_handed_in(n_nodes: nat, limit: nat, subs: Seq<Submission>)
    requires
        can_go_on(n_nodes, limit, subs),
    ensures
        holds_what_was_handed_in(n_nodes, limit, subs, barrier_after(n_nodes, limit, subs)),
    decreases subs.len(),
{
    broadcast use vstd::seq_lib::group_to_multiset_ensures;

    let b = barrier_after(n_nodes, limit, subs);
    if subs.len() == 0 {
        lemma_nothing_handed_in(n_nodes, limit, subs, 0, n_nodes);
        lemma_nothing_handed_in(n_nodes, limit, subs, 1, n_nodes);
        assert(b.buffer.to_multiset() =~= Multiset::<PendingView>::empty());
    } else {
        let front = subs.drop_last();
        law_barrier_holds_what_was_handed_in(n_nodes, limit, front);
        lemma_step(n_nodes, limit, subs);
    }
}

proof fn lemma_step(n_nodes: nat, limit: nat, subs: Seq<Submission>)
    requires
        subs.len() > 0,
        can_go_on(n_nodes, limit, subs),
        holds_what_was_handed_in(
            n_nodes,
            limit,
            subs.drop_last(),
            barrier_after(n_nodes, limit, subs.drop_last()),
        ),
    ensures
        holds_what_was_handed_in(n_nodes, limit, subs, barrier_after(n_nodes, limit, subs)),
        ({
            let b = barrier_after(n_nodes, limit, subs.drop_last());
            outcome(b, subs.last()).1 matches Ok(Some(released)) ==> {
                &&& released.to_multiset() == handed_in(
                    n_nodes,
                    limit,
                    subs,
                    b.current as int,
                    n_nodes,
                )
                &&& all_handed_in(n_nodes, limit, subs, b.current as int)
                &&& subs.last().quantum == b.current
            }
        }),
        ({
            let b = barrier_after(n_nodes, limit, subs.drop_last());
            outcome(b, subs.last()).1 is Ok && subs.last().quantum == b.current && all_handed_in(
                n_nodes,
                limit,
                subs,
                b.current as int,
            ) ==> outcome(b, subs.last()).1->Ok_0 is Some
        }),
{
    broadcast use vstd::seq_lib::group_to_multiset_ensures;

    let front = subs.drop_last();
    let s = subs.last();
    let b = barrier_after(n_nodes, limit, front);
    let after = barrier_after(n_nodes, limit, subs);
    let cut = barrier::admitted(s.messages, limit);
    let now = b.current as int;
    let taken = was_taken(n_nodes, limit, subs);
    lemma_one_more(n_nodes, limit, subs, now, n_nodes);
    lemma_one_more(n_nodes, limit, subs, now + 1, n_nodes);
    lemma_concat_adds(b.buffer, cut);
    lemma_concat_adds(b.next_buffer, cut);
    if taken && s.quantum == now {
        let full = b.buffer + cut;
        let done = b.done.update(s.node_id as int, true);
        assert(full.to_multiset() == handed_in(n_nodes, limit, subs, now, n_nodes));
        assert(handed_in(n_nodes, limit, subs, now + 1, n_nodes) =~= handed_in(
            n_nodes,
            limit,
            front,
            now + 1,
            n_nodes,
        ));
        assert forall|i: int| 0 <= i < n_nodes implies #[trigger] done[i] == (handed_in_by(
            n_nodes,
            limit,
            subs,
            i,
            now,
        ) is Some) by {
            assert(b.done[i] == (handed_in_by(n_nodes, limit, front, i, now) is Some));
        }
        assert forall|i: int| 0 <= i < n_nodes implies #[trigger] b.next_done[i] == (handed_in_by(
            n_nodes,
            limit,
            subs,
            i,
            now + 1,
        ) is Some) by {
            assert(b.next_done[i] == (handed_in_by(n_nodes, limit, front, i, now + 1) is Some));
        }
        if barrier::all_set(done) {
            sorting::law_sort_keeps_contents(full);
            assert forall|i: int| 0 <= i < n_nodes implies #[trigger] handed_in_by(
                n_nodes,
                limit,
                subs,
                i,
                now,
            ) is Some by {
                assert(done[i]);
            }
            assert forall|i: int| 0 <= i < n_nodes implies #[trigger] handed_in_by(
                n_nodes,
                limit,
                subs,
                i,
                now + 2,
            ) is None by {
                lemma_nothing_ahead(n_nodes, limit, front, i, now + 2);
            }
            lemma_nothing_handed_in(n_nodes, limit, subs, now + 2, n_nodes);
            assert(after.next_buffer.to_multiset() =~= Multiset::<PendingView>::empty());
        } else {
            let i = choose|i: int| 0 <= i < done.len() && !done[i];
            assert(handed_in_by(n_nodes, limit, subs, i, now) is None);
        }
    } else if taken {
        assert(s.quantum == now + 1);
        assert(handed_in(n_nodes, limit, subs, now, n_nodes) =~= handed_in(
            n_nodes,
            limit,
            front,
            now,
            n_nodes,
        ));
    } else {
        assert(after == b);
        assert(handed_in(n_nodes, limit, subs, now, n_nodes) =~= handed_in(
            n_nodes,
            limit,
            front,
            now,
            n_nodes,
        ));
        assert(handed_in(n_nodes, limit, subs, now + 1, n_nodes) =~= handed_in(
            n_nodes,
            limit,
            front,
            now + 1,
            n_nodes,
        ));
    }
}

/// A submission that is not refused releases messages if and only if it is for the open quantum and
/// every node has then handed in for it. What is released is sorted, and is what all nodes have
/// handed in for that quantum, those that did so ahead among them, of each node as many messages as
/// the limit allows. The next quantum is then open, and holds what was handed in for it ahead;
/// otherwise the same one stays open.
pub proof fn law_quantum_releases_what_was_handed_in(
    n_nodes: nat,
    limit: nat,
    subs: Seq<Submission>,
)
    requires
        subs.len() > 0,
        can_go_on(n_nodes, limit, subs),
        outcome(barrier_after(n_nodes, limit, subs.drop_last()), subs.last()).1 is Ok,
    ensures
        ({
            let before = barrier_after(n_nodes, limit, subs.drop_last());
            let after = barrier_after(n_nodes, limit, subs);
            let open = before.current as int;
            let r = outcome(before, subs.last()).1->Ok_0;
            &&& r is Some <==> subs.last().quantum == open && all_handed_in(
                n_nodes,
                limit,
                subs,
                open,
            )
            &&& r is Some ==> {
                &&& sorting::is_sorted(r->0)
                &&& r->0.to_multiset() == handed_in(n_nodes, limit, subs, open, n_nodes)
                &&& after.current == open + 1
            }
            &&& r is None ==> after.current == open
            &&& holds_what_was_handed_in(n_nodes, limit, subs, after)
        }),
{
    law_barrier_holds_what_was_handed_in(n_nodes, limit, subs.drop_last());
    lemma_step(n_nodes, limit, subs);
    let before = barrier_after(n_nodes, limit, subs.drop_last());
    let s = subs.last();
    sorting::lemma_stable_sort(before.buffer + barrier::admitted(s.messages, before.limit));
}

} // verus!
