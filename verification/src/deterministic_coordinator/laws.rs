//! What holds of the coordinator over several events.
use vstd::prelude::*;

use crate::coordination;
use crate::coordination::{
    ActionView, ConfigView, EventView, Links, LookaheadView, PendingView, PhaseView,
};
use crate::deterministic_coordinator::barrier;
use crate::deterministic_coordinator::barrier::{BarrierView, CoordMessageView};
use crate::deterministic_coordinator::coordinator;
use crate::sorting;
use crate::sorting::Ranked;
use crate::text;

verus! {

/// Two nodes that hand in their messages leave the same barrier behind, whichever comes first:
/// the same nodes are done, and the same messages come out in the same order.
pub proof fn law_barrier_ignores_node_order(
    b: BarrierView<CoordMessageView>,
    i: int,
    from_i: Seq<CoordMessageView>,
    j: int,
    from_j: Seq<CoordMessageView>,
)
    requires
        0 <= i < b.done.len(),
        0 <= j < b.done.len(),
        i != j,
    ensures
        ({
            let ij = barrier::with_done(barrier::with_done(b, i, from_i), j, from_j);
            let ji = barrier::with_done(barrier::with_done(b, j, from_j), i, from_i);
            &&& ij.done == ji.done
            &&& sorting::stable_sort(ij.buffer) == sorting::stable_sort(ji.buffer)
        }),
{
    let ij = barrier::with_done(barrier::with_done(b, i, from_i), j, from_j);
    let ji = barrier::with_done(barrier::with_done(b, j, from_j), i, from_i);
    let ai = barrier::admitted(from_i, b.limit);
    let aj = barrier::admitted(from_j, b.limit);
    assert(ij.done =~= ji.done);
    vstd::seq_lib::lemma_multiset_commutative(b.buffer + ai, aj);
    vstd::seq_lib::lemma_multiset_commutative(b.buffer, ai);
    vstd::seq_lib::lemma_multiset_commutative(b.buffer + aj, ai);
    vstd::seq_lib::lemma_multiset_commutative(b.buffer, aj);
    assert(ij.buffer.to_multiset() =~= ji.buffer.to_multiset());
    sorting::law_sort_ignores_arrival_order(ij.buffer, ji.buffer);
}

/// What one node reports: the node, and the messages that it hands in.
pub type Report = (int, Seq<CoordMessageView>);

/// The barrier once nodes have reported, one after the other.
pub open spec fn after_reports(
    b: BarrierView<CoordMessageView>,
    reports: Seq<Report>,
) -> BarrierView<CoordMessageView>
    decreases reports.len(),
{
    if reports.len() == 0 {
        b
    } else {
        let front = after_reports(b, reports.drop_last());
        barrier::with_done(front, reports.last().0, reports.last().1)
    }
}

/// Each of `n` nodes reports once.
pub open spec fn is_round(reports: Seq<Report>, n: nat) -> bool {
    &&& reports.len() == n
    &&& forall|i: int| 0 <= i < n ==> 0 <= (#[trigger] reports[i]).0 < n
    &&& nodes_differ(reports)
}

/// No node reports twice.
pub open spec fn nodes_differ(reports: Seq<Report>) -> bool {
    forall|i: int, j: int|
        0 <= i < j < reports.len() ==> (#[trigger] reports[i]).0 != (#[trigger] reports[j]).0
}

/// Two reports of the same node hand in the same messages, in some order.
pub open spec fn agree(a: Seq<Report>, b: Seq<Report>) -> bool {
    forall|i: int, j: int|
        0 <= i < a.len() && 0 <= j < b.len() && (#[trigger] a[i]).0 == (#[trigger] b[j]).0
            ==> a[i].1.to_multiset() == b[j].1.to_multiset()
}

/// What is admitted of reports, one after the other.
spec fn gathered(reports: Seq<Report>, limit: nat) -> Seq<CoordMessageView>
    decreases reports.len(),
{
    if reports.len() == 0 {
        Seq::empty()
    } else {
        gathered(reports.drop_last(), limit) + barrier::admitted(reports.last().1, limit)
    }
}

proof fn lemma_reports(b: BarrierView<CoordMessageView>, reports: Seq<Report>)
    requires
        forall|i: int| 0 <= i < reports.len() ==> 0 <= (#[trigger] reports[i]).0 < b.done.len(),
    ensures
        ({
            let after = after_reports(b, reports);
            &&& after.limit == b.limit
            &&& after.done.len() == b.done.len()
            &&& after.buffer == b.buffer + gathered(reports, b.limit)
            &&& forall|k: int|
                0 <= k < b.done.len() ==> (#[trigger] after.done[k] <==> b.done[k] || exists|
                    i: int,
                |
                    0 <= i < reports.len() && (#[trigger] reports[i]).0 == k)
        }),
    decreases reports.len(),
{
    if reports.len() == 0 {
        assert(b.buffer + gathered(reports, b.limit) =~= b.buffer);
    } else {
        let front = reports.drop_last();
        assert forall|i: int| 0 <= i < front.len() implies 0 <= (#[trigger] front[i]).0
            < b.done.len() by {
            assert(front[i] == reports[i]);
        }
        lemma_reports(b, front);
        let last = reports[reports.len() - 1];
        let before = after_reports(b, front);
        let after = after_reports(b, reports);
        let more = barrier::admitted(last.1, b.limit);
        assert(after.buffer =~= b.buffer + (gathered(front, b.limit) + more));
        assert forall|k: int| 0 <= k < b.done.len() implies (#[trigger] after.done[k] <==> b.done[k]
            || exists|i: int| 0 <= i < reports.len() && (#[trigger] reports[i]).0 == k) by {
            if before.done[k] && !b.done[k] {
                let i = choose|i: int| 0 <= i < front.len() && (#[trigger] front[i]).0 == k;
                assert(reports[i].0 == k);
            }
            if exists|i: int| 0 <= i < reports.len() && (#[trigger] reports[i]).0 == k {
                let i = choose|i: int| 0 <= i < reports.len() && (#[trigger] reports[i]).0 == k;
                if i < front.len() {
                    assert(front[i].0 == k);
                }
            }
        }
    }
}

proof fn lemma_gathered_remove(reports: Seq<Report>, j: int, limit: nat)
    requires
        0 <= j < reports.len(),
    ensures
        gathered(reports, limit).to_multiset() == gathered(
            reports.remove(j),
            limit,
        ).to_multiset().add(barrier::admitted(reports[j].1, limit).to_multiset()),
    decreases reports.len(),
{
    let front = reports.drop_last();
    let rest = reports.remove(j);
    let more = barrier::admitted(reports.last().1, limit);
    vstd::seq_lib::lemma_multiset_commutative(gathered(front, limit), more);
    if j == reports.len() - 1 {
        assert(rest =~= front);
    } else {
        lemma_gathered_remove(front, j, limit);
        assert(rest.drop_last() =~= front.remove(j));
        assert(rest.last() == reports.last());
        vstd::seq_lib::lemma_multiset_commutative(gathered(front.remove(j), limit), more);
        assert(gathered(reports, limit).to_multiset() =~= gathered(rest, limit).to_multiset().add(
            barrier::admitted(reports[j].1, limit).to_multiset(),
        ));
    }
}

proof fn lemma_gathered_alike(a: Seq<Report>, b: Seq<Report>, limit: nat)
    requires
        a.len() == b.len(),
        nodes_differ(a),
        nodes_differ(b),
        agree(a, b),
        forall|i: int| 0 <= i < a.len() ==> has_report(b, (#[trigger] a[i]).0),
    ensures
        gathered(a, limit).to_multiset() == gathered(b, limit).to_multiset(),
    decreases a.len(),
{
    if a.len() == 0 {
        assert(a =~= b);
    } else {
        let front = a.drop_last();
        let last = a[a.len() - 1];
        assert(has_report(b, last.0));
        let j = choose|j: int| 0 <= j < b.len() && (#[trigger] b[j]).0 == last.0;
        let rest = b.remove(j);
        assert forall|i: int, k: int| 0 <= i < k < front.len() implies (#[trigger] front[i]).0 != (
        #[trigger] front[k]).0 by {
            assert(a[i].0 != a[k].0);
        }
        assert forall|i: int, k: int| 0 <= i < k < rest.len() implies (#[trigger] rest[i]).0 != (
        #[trigger] rest[k]).0 by {
            let x = if i < j {
                i
            } else {
                i + 1
            };
            let y = if k < j {
                k
            } else {
                k + 1
            };
            assert(b[x].0 != b[y].0);
        }
        assert forall|i: int, k: int|
            0 <= i < front.len() && 0 <= k < rest.len() && (#[trigger] front[i]).0 == (
            #[trigger] rest[k]).0 implies front[i].1.to_multiset() == rest[k].1.to_multiset() by {
            let y = if k < j {
                k
            } else {
                k + 1
            };
            assert(a[i].0 == b[y].0);
        }
        assert forall|i: int| 0 <= i < front.len() implies has_report(
            rest,
            (#[trigger] front[i]).0,
        ) by {
            assert(a[i].0 != last.0);
            assert(has_report(b, a[i].0));
            let k = choose|k: int| 0 <= k < b.len() && (#[trigger] b[k]).0 == a[i].0;
            if k < j {
                assert(rest[k].0 == a[i].0);
            } else {
                assert(rest[k - 1].0 == a[i].0);
            }
        }
        lemma_gathered_alike(front, rest, limit);
        lemma_gathered_remove(a, a.len() - 1, limit);
        assert(a.remove(a.len() - 1) =~= front);
        lemma_gathered_remove(b, j, limit);
        assert(a[a.len() - 1].1.to_multiset() == b[j].1.to_multiset());
        barrier::law_admission_ignores_arrival_order(last.1, b[j].1, limit);
    }
}

/// A node is among those that report.
pub open spec fn has_report(reports: Seq<Report>, node: int) -> bool {
    exists|j: int| 0 <= j < reports.len() && (#[trigger] reports[j]).0 == node
}

proof fn lemma_round_is_full(reports: Seq<Report>, n: nat, node: int)
    requires
        is_round(reports, n),
        0 <= node < n,
    ensures
        has_report(reports, node),
{
    let nodes = Seq::new(reports.len(), |i: int| reports[i].0);
    assert(nodes.no_duplicates()) by {
        assert forall|i: int, j: int| 0 <= i < nodes.len() && 0 <= j < nodes.len() && i
            != j implies nodes[i] != nodes[j] by {
            if i < j {
                assert(reports[i].0 != reports[j].0);
            } else {
                assert(reports[j].0 != reports[i].0);
            }
        }
    }
    nodes.unique_seq_to_set();
    let all = vstd::set_lib::set_int_range(0, n as int);
    vstd::set_lib::lemma_int_range(0, n as int);
    assert(nodes.to_set().subset_of(all)) by {
        assert forall|x: int| nodes.to_set().contains(x) implies all.contains(x) by {
            let i = choose|i: int| 0 <= i < nodes.len() && nodes[i] == x;
            assert(reports[i].0 == x);
        }
    }
    vstd::set_lib::lemma_subset_equality(nodes.to_set(), all);
    assert(nodes.to_set().contains(node));
    let j = choose|j: int| 0 <= j < nodes.len() && nodes[j] == node;
    assert(reports[j].0 == node);
}

/// However the nodes come to the barrier, and in whatever order each has its messages: nothing is
/// released before the last of them, and then the same messages come out in the same order.
pub proof fn law_round_ignores_every_order(
    n: nat,
    limit: nat,
    a: Seq<Report>,
    b: Seq<Report>,
)
    requires
        is_round(a, n),
        is_round(b, n),
        agree(a, b),
    ensures
        ({
            let open = barrier::open_barrier::<CoordMessageView>(n, limit);
            let after_a = after_reports(open, a);
            let after_b = after_reports(open, b);
            &&& barrier::all_set(after_a.done)
            &&& barrier::all_set(after_b.done)
            &&& forall|k: int|
                0 <= k < n ==> !barrier::all_set(#[trigger] after_reports(open, a.take(k)).done)
            &&& sorting::stable_sort(after_a.buffer) == sorting::stable_sort(after_b.buffer)
        }),
{
    let open = barrier::open_barrier::<CoordMessageView>(n, limit);
    let after_a = after_reports(open, a);
    let after_b = after_reports(open, b);
    lemma_reports(open, a);
    lemma_reports(open, b);
    assert forall|k: int| 0 <= k < n implies #[trigger] after_a.done[k] by {
        lemma_round_is_full(a, n, k);
    }
    assert forall|k: int| 0 <= k < n implies #[trigger] after_b.done[k] by {
        lemma_round_is_full(b, n, k);
    }
    assert forall|k: int| 0 <= k < n implies !barrier::all_set(
        #[trigger] after_reports(open, a.take(k)).done,
    ) by {
        let part = a.take(k);
        assert forall|i: int| 0 <= i < part.len() implies 0 <= (#[trigger] part[i]).0 < n by {
            assert(part[i] == a[i]);
        }
        lemma_reports(open, part);
        let missing = a[k].0;
        assert forall|i: int| 0 <= i < part.len() implies (#[trigger] part[i]).0 != missing by {
            assert(a[i].0 != a[k].0);
        }
        assert(!after_reports(open, part).done[missing]);
    }
    assert forall|i: int| 0 <= i < a.len() implies has_report(b, (#[trigger] a[i]).0) by {
        lemma_round_is_full(b, n, a[i].0);
    }
    lemma_gathered_alike(a, b, limit);
    assert(open.buffer + gathered(a, limit) =~= gathered(a, limit));
    assert(open.buffer + gathered(b, limit) =~= gathered(b, limit));
    sorting::law_sort_ignores_arrival_order(after_a.buffer, after_b.buffer);
}

/// Every message comes from `node`.
pub open spec fn all_from(messages: Seq<PendingView>, node: u32) -> bool {
    forall|i: int| 0 <= i < messages.len() ==> (#[trigger] messages[i]).src_node_id == node
}

pub proof fn lemma_admitted_from(messages: Seq<PendingView>, node: u32, limit: nat)
    requires
        all_from(messages, node),
    ensures
        all_from(barrier::admitted(messages, limit), node),
{
    broadcast use vstd::seq_lib::group_to_multiset_ensures;

    let sorted = sorting::stable_sort(messages);
    sorting::law_sort_keeps_contents(messages);
    sorting::lemma_stable_sort(messages);
    let kept = barrier::admitted(messages, limit);
    assert forall|i: int| 0 <= i < kept.len() implies (#[trigger] kept[i]).src_node_id == node by {
        assert(kept[i] == sorted[i]);
        assert(sorted.contains(sorted[i]));
        assert(sorted.to_multiset().contains(sorted[i]));
        assert(messages.to_multiset().contains(sorted[i]));
        assert(messages.contains(sorted[i]));
    }
}

proof fn lemma_class_of_other(messages: Seq<PendingView>, node: u32, z: PendingView)
    requires
        all_from(messages, node),
        z.src_node_id != node,
    ensures
        sorting::rank_class(messages, z) == Seq::<PendingView>::empty(),
    decreases messages.len(),
{
    if messages.len() > 0 {
        assert(messages[messages.len() - 1].src_node_id == node);
        let front = messages.drop_last();
        assert forall|i: int| 0 <= i < front.len() implies (#[trigger] front[i]).src_node_id
            == node by {
            assert(front[i] == messages[i]);
        }
        lemma_class_of_other(front, node, z);
    }
}

proof fn lemma_class_concat3(a: Seq<PendingView>, b: Seq<PendingView>, c: Seq<PendingView>, z: PendingView)
    ensures
        sorting::rank_class(a + b + c, z) == sorting::rank_class(a, z) + sorting::rank_class(b, z)
            + sorting::rank_class(c, z),
{
    sorting::lemma_rank_class_concat(a + b, c, z);
    sorting::lemma_rank_class_concat(a, b, z);
}

/// Messages of two different nodes sort the same whichever node's come first.
pub proof fn law_sources_sort_apart(
    held: Seq<PendingView>,
    i: u32,
    from_i: Seq<PendingView>,
    j: u32,
    from_j: Seq<PendingView>,
)
    requires
        i != j,
        all_from(from_i, i),
        all_from(from_j, j),
    ensures
        sorting::stable_sort(held + from_i + from_j) == sorting::stable_sort(
            held + from_j + from_i,
        ),
{
    let ij = held + from_i + from_j;
    let ji = held + from_j + from_i;
    sorting::lemma_stable_sort(ij);
    assert forall|z: PendingView| #[trigger] sorting::rank_class(sorting::stable_sort(ij), z)
        == sorting::rank_class(ji, z) by {
        assert(sorting::rank_class(sorting::stable_sort(ij), z) == sorting::rank_class(ij, z));
        lemma_class_concat3(held, from_i, from_j, z);
        lemma_class_concat3(held, from_j, from_i, z);
        if z.src_node_id != i {
            lemma_class_of_other(from_i, i, z);
        } else {
            lemma_class_of_other(from_j, j, z);
        }
        assert(sorting::rank_class(ij, z) =~= sorting::rank_class(ji, z));
    }
    sorting::lemma_stable_sort_unique(sorting::stable_sort(ij), ji);
}

/// Two nodes that are done with the open quantum may say so in either order: the same is
/// released, and the same barrier is left, but for the order in which it holds what it has.
pub proof fn law_quantum_ignores_node_order(
    b: LookaheadView,
    i: u32,
    from_i: Seq<PendingView>,
    j: u32,
    from_j: Seq<PendingView>,
)
    requires
        i != j,
        i < b.done.len(),
        j < b.done.len(),
        !b.done[i as int],
        !b.done[j as int],
        all_from(from_i, i),
        all_from(from_j, j),
    ensures
        ({
            let q = b.current;
            let ij = coordinator::submitted(
                coordinator::submitted(b, i, q, from_i).0,
                j,
                q,
                from_j,
            );
            let ji = coordinator::submitted(
                coordinator::submitted(b, j, q, from_j).0,
                i,
                q,
                from_i,
            );
            &&& coordinator::submitted(b, i, q, from_i).1 == Ok::<
                Option<Seq<PendingView>>,
                coordinator::BarrierError,
            >(None)
            &&& ij.1 == ji.1
            &&& ij.0.current == ji.0.current
            &&& ij.0.done == ji.0.done
            &&& ij.0.next_done == ji.0.next_done
            &&& sorting::stable_sort(ij.0.buffer) == sorting::stable_sort(ji.0.buffer)
            &&& ij.0.next_buffer == ji.0.next_buffer
        }),
{
    let q = b.current;
    let first_i = coordinator::submitted(b, i, q, from_i);
    let first_j = coordinator::submitted(b, j, q, from_j);
    let done_i = b.done.update(i as int, true);
    let done_j = b.done.update(j as int, true);
    assert(!done_i[j as int]);
    assert(!done_j[i as int]);
    assert(!barrier::all_set(done_i));
    assert(!barrier::all_set(done_j));
    lemma_admitted_from(from_i, i, b.limit);
    lemma_admitted_from(from_j, j, b.limit);
    law_sources_sort_apart(
        b.buffer,
        i,
        barrier::admitted(from_i, b.limit),
        j,
        barrier::admitted(from_j, b.limit),
    );
    assert(done_i.update(j as int, true) =~= done_j.update(i as int, true));
}

/// Each batch holds messages of its own node only.
pub open spec fn batches_by_source(phase: PhaseView) -> bool {
    match phase {
        PhaseView::Simulation { batches, .. } => forall|k: u32|
            batches.contains_key(k) ==> all_from(#[trigger] batches[k], k),
        _ => true,
    }
}

proof fn lemma_not_due_from(messages: Seq<PendingView>, node: u32, vtime_ns: u64)
    requires
        all_from(messages, node),
    ensures
        all_from(coordination::not_due(messages, vtime_ns), node),
        all_from(coordination::due(messages, vtime_ns), node),
    decreases messages.len(),
{
    if messages.len() > 0 {
        let front = messages.drop_last();
        assert(messages[messages.len() - 1].src_node_id == node);
        assert forall|i: int| 0 <= i < front.len() implies (#[trigger] front[i]).src_node_id
            == node by {
            assert(front[i] == messages[i]);
        }
        lemma_not_due_from(front, node, vtime_ns);
    }
}

proof fn lemma_registered_keeps_batches(
    config: ConfigView,
    phase: PhaseView,
    node_id: u32,
    name: Seq<char>,
)
    requires
        batches_by_source(phase),
    ensures
        batches_by_source(coordinator::registered(config, phase, node_id, name).phase),
{
}

proof fn lemma_replayed_keeps_batches(
    config: ConfigView,
    phase: PhaseView,
    regs: Seq<(u32, Seq<char>)>,
)
    requires
        batches_by_source(phase),
    ensures
        batches_by_source(coordinator::replayed(config, phase, regs).phase),
    decreases regs.len(),
{
    if regs.len() > 0 {
        lemma_replayed_keeps_batches(config, phase, regs.drop_last());
        lemma_registered_keeps_batches(
            config,
            coordinator::replayed(config, phase, regs.drop_last()).phase,
            regs.last().0,
            regs.last().1,
        );
    }
}

/// Every event keeps each batch to the messages of its own node.
pub proof fn law_batches_stay_by_source(config: ConfigView, phase: PhaseView, event: EventView)
    requires
        batches_by_source(phase),
    ensures
        batches_by_source(coordinator::outcome(config, phase, event).phase),
{
    match event {
        EventView::NodeJoined { node_id } => match phase {
            PhaseView::AwaitingNodes { joined, buffered } => {
                lemma_replayed_keeps_batches(
                    config,
                    PhaseView::AwaitingLinks {
                        remaining: coordination::expected_pairs(config.links),
                    },
                    buffered,
                );
            },
            _ => {},
        },
        EventView::LinkRegister { node_id, link_name } => {
            lemma_registered_keeps_batches(config, phase, node_id, link_name);
        },
        EventView::QuantumDone { node_id, quantum, vtime_ns } => match phase {
            PhaseView::Simulation { batches, .. } => {
                let batch = coordinator::batch_of(batches, node_id);
                assert(all_from(batch, node_id));
                lemma_not_due_from(batch, node_id, vtime_ns);
            },
            _ => {},
        },
        EventView::SimulationMessage { message } => match phase {
            PhaseView::Simulation { batches, .. } => {
                let batch = coordinator::batch_of(batches, message.src_node_id);
                assert(all_from(batch, message.src_node_id));
                assert(all_from(batch.push(message), message.src_node_id));
            },
            _ => {},
        },
        EventView::NodeDisconnected { .. } => {},
    }
}

/// Parting a batch at a virtual time loses and adds nothing.
pub proof fn law_parting_keeps_messages(messages: Seq<PendingView>, vtime_ns: u64)
    ensures
        (coordination::due(messages, vtime_ns) + coordination::not_due(
            messages,
            vtime_ns,
        )).to_multiset() == messages.to_multiset(),
    decreases messages.len(),
{
    broadcast use vstd::seq_lib::group_to_multiset_ensures;

    let now = coordination::due(messages, vtime_ns);
    let later = coordination::not_due(messages, vtime_ns);
    vstd::seq_lib::lemma_multiset_commutative(now, later);
    if messages.len() > 0 {
        let front = messages.drop_last();
        law_parting_keeps_messages(front, vtime_ns);
        vstd::seq_lib::lemma_multiset_commutative(
            coordination::due(front, vtime_ns),
            coordination::not_due(front, vtime_ns),
        );
        assert(messages =~= front.push(messages.last()));
        assert((now + later).to_multiset() =~= messages.to_multiset());
    } else {
        assert(now + later =~= messages);
    }
}

/// A message that is not due by the end of the quantum is held: it is in its node's batch after
/// the node is done.
pub proof fn law_future_message_is_held(
    config: ConfigView,
    barrier: LookaheadView,
    batches: Map<u32, Seq<PendingView>>,
    node_id: u32,
    quantum: u64,
    vtime_ns: u64,
    message: PendingView,
)
    requires
        batches.contains_key(node_id),
        batches[node_id].contains(message),
        message.delivery_vtime_ns > vtime_ns,
    ensures
        ({
            let phase = PhaseView::Simulation { barrier, batches };
            let after = coordinator::outcome(
                config,
                phase,
                EventView::QuantumDone { node_id, quantum, vtime_ns },
            ).phase;
            &&& after matches PhaseView::Simulation { batches: left, .. }
            &&& left.contains_key(node_id)
            &&& left[node_id].contains(message)
        }),
{
    lemma_not_due_has(batches[node_id], vtime_ns, message);
}

pub proof fn lemma_not_due_has(messages: Seq<PendingView>, vtime_ns: u64, message: PendingView)
    requires
        messages.contains(message),
        message.delivery_vtime_ns > vtime_ns,
    ensures
        coordination::not_due(messages, vtime_ns).contains(message),
    decreases messages.len(),
{
    let k = choose|k: int| 0 <= k < messages.len() && messages[k] == message;
    let front = messages.drop_last();
    let later = coordination::not_due(messages, vtime_ns);
    if k == messages.len() - 1 {
        assert(later.last() == message);
        assert(later[later.len() - 1] == message);
    } else {
        assert(front[k] == message);
        lemma_not_due_has(front, vtime_ns, message);
        let inner = coordination::not_due(front, vtime_ns);
        let m = choose|m: int| 0 <= m < inner.len() && inner[m] == message;
        assert(later[m] == message);
    }
}

/// The quantum never goes back, and goes on by one at a time.
pub proof fn law_quantum_advances_by_one(
    config: ConfigView,
    barrier: LookaheadView,
    batches: Map<u32, Seq<PendingView>>,
    event: EventView,
)
    requires
        barrier.current < u64::MAX,
    ensures
        ({
            let phase = PhaseView::Simulation { barrier, batches };
            let after = coordinator::outcome(config, phase, event).phase;
            &&& after matches PhaseView::Simulation { barrier: next, .. }
            &&& next.current == barrier.current || next.current == barrier.current + 1
            &&& next.limit == barrier.limit
        }),
{
}

proof fn lemma_routes_only(links: Links, messages: Seq<PendingView>, k: int)
    requires
        0 <= k < coordination::routed(links, messages).len(),
    ensures
        coordination::routed(links, messages)[k] is RouteMessage,
    decreases messages.len(),
{
    let front = coordination::routed(links, messages.drop_last());
    if k < front.len() {
        lemma_routes_only(links, messages.drop_last(), k);
    }
}

/// The clock is started for a quantum only once every node is done with the one before.
pub proof fn law_clock_starts_when_all_are_done(
    config: ConfigView,
    barrier: LookaheadView,
    batches: Map<u32, Seq<PendingView>>,
    event: EventView,
    release_quantum: u64,
)
    requires
        barrier.current < u64::MAX,
        coordinator::outcome(
            config,
            PhaseView::Simulation { barrier, batches },
            event,
        ).actions.contains(ActionView::BroadcastClockStart { release_quantum }),
    ensures
        event matches EventView::QuantumDone { node_id, quantum, .. } && {
            &&& quantum == barrier.current
            &&& release_quantum == barrier.current + 1
            &&& node_id < barrier.done.len()
            &&& barrier::all_set(barrier.done.update(node_id as int, true))
        },
{
    let phase = PhaseView::Simulation { barrier, batches };
    let actions = coordinator::outcome(config, phase, event).actions;
    let start = ActionView::BroadcastClockStart { release_quantum };
    let k = choose|k: int| 0 <= k < actions.len() && actions[k] == start;
    match event {
        EventView::QuantumDone { node_id, quantum, vtime_ns } => {
            let due = coordination::due(coordinator::batch_of(batches, node_id), vtime_ns);
            let (next, result) = coordinator::submitted(barrier, node_id, quantum, due);
            match result {
                Ok(Some(released)) => {
                    let routes = coordination::routed(config.links, released);
                    if k < routes.len() {
                        lemma_routes_only(config.links, released, k);
                        assert(actions[k] == routes[k]);
                    }
                },
                _ => {},
            }
        },
        _ => {},
    }
}

/// Whatever the phase, a node that disconnects aborts the simulation, with its number as the
/// reason, and changes nothing.
pub proof fn law_disconnection_aborts(config: ConfigView, phase: PhaseView, node_id: u32)
    ensures
        ({
            let o = coordinator::outcome(config, phase, EventView::NodeDisconnected { node_id });
            &&& o.phase == phase
            &&& o.actions == seq![
                ActionView::AbortSimulation {
                    reason: "node "@ + text::decimal(node_id as nat) + " disconnected"@,
                },
            ]
        }),
{
}

proof fn lemma_without(nodes: Seq<u32>, node: u32, k: int)
    requires
        0 <= k < coordination::without(nodes, node).len(),
    ensures
        coordination::without(nodes, node)[k] != node,
        nodes.contains(coordination::without(nodes, node)[k]),
    decreases nodes.len(),
{
    let front = nodes.drop_last();
    let inner = coordination::without(front, node);
    if k < inner.len() {
        lemma_without(front, node, k);
        let m = choose|m: int| 0 <= m < front.len() && front[m] == inner[k];
        assert(nodes[m] == inner[k]);
    } else {
        assert(nodes[nodes.len() - 1] == nodes.last());
    }
}

/// A released message goes to nodes on its link only, in ascending order, and not back to where
/// it came from.
pub proof fn law_routes_leave_out_the_source(links: Links, link_id: u32, src: u32, k: int)
    requires
        0 <= k < coordination::route_targets(links, link_id, src).len(),
    ensures
        ({
            let targets = coordination::route_targets(links, link_id, src);
            &&& targets[k] != src
            &&& forall|j: int| 0 <= j <= k ==> #[trigger] targets[j] <= targets[k]
            &&& coordination::id_index(links, link_id, 0) matches Some(i)
            &&& links[i].1.target_nodes.contains(targets[k])
        }),
{
    broadcast use vstd::seq_lib::group_to_multiset_ensures;

    let targets = coordination::route_targets(links, link_id, src);
    let i = coordination::id_index(links, link_id, 0)->0;
    let kept = coordination::without(links[i].1.target_nodes, src);
    sorting::lemma_stable_sort(kept);
    sorting::law_sort_keeps_contents(kept);
    assert(targets.contains(targets[k]));
    assert(targets.to_multiset().contains(targets[k]));
    assert(kept.contains(targets[k]));
    let m = choose|m: int| 0 <= m < kept.len() && kept[m] == targets[k];
    lemma_without(links[i].1.target_nodes, src, m);
    assert forall|j: int| 0 <= j <= k implies #[trigger] targets[j] <= targets[k] by {
        assert(targets[j].rank_le(targets[k]));
    }
}

proof fn lemma_registered_stays_out(
    config: ConfigView,
    phase: PhaseView,
    regs: Seq<(u32, Seq<char>)>,
)
    requires
        !(phase is AwaitingNodes),
    ensures
        !(coordinator::replayed(config, phase, regs).phase is AwaitingNodes),
    decreases regs.len(),
{
    if regs.len() > 0 {
        lemma_registered_stays_out(config, phase, regs.drop_last());
    }
}

/// A registration that comes before the last node joins leads to the same phase, and to the same
/// actions in the same order, as one that comes right after.
pub proof fn law_early_registration_is_replayed(
    config: ConfigView,
    joined: Set<u32>,
    buffered: Seq<(u32, Seq<char>)>,
    last_node: u32,
    node_id: u32,
    link_name: Seq<char>,
)
    requires
        joined.insert(last_node).len() == config.expected_nodes,
    ensures
        ({
            let start = PhaseView::AwaitingNodes { joined, buffered };
            let register = EventView::LinkRegister { node_id, link_name };
            let join = EventView::NodeJoined { node_id: last_node };
            let early = coordinator::outcome(config, start, register);
            let early_join = coordinator::outcome(config, early.phase, join);
            let late_join = coordinator::outcome(config, start, join);
            let late = coordinator::outcome(config, late_join.phase, register);
            &&& early_join.phase == late.phase
            &&& early.actions + early_join.actions == late_join.actions + late.actions
        }),
{
    let waiting = PhaseView::AwaitingLinks {
        remaining: coordination::expected_pairs(config.links),
    };
    let longer = buffered.push((node_id, link_name));
    assert(longer.drop_last() =~= buffered);
    lemma_registered_stays_out(config, waiting, buffered);
    let start = PhaseView::AwaitingNodes { joined, buffered };
    let register = EventView::LinkRegister { node_id, link_name };
    let join = EventView::NodeJoined { node_id: last_node };
    let early = coordinator::outcome(config, start, register);
    let early_join = coordinator::outcome(config, early.phase, join);
    let late_join = coordinator::outcome(config, start, join);
    let late = coordinator::outcome(config, late_join.phase, register);
    assert(early.actions + early_join.actions =~= late_join.actions + late.actions);
}

} // verus!
