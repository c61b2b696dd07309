//! What holds of the coordinator over several events.
use vstd::prelude::*;

use crate::coordination;
use crate::coordination::{
    ActionView, ConfigView, EventView, Links, LookaheadView, PendingView, PhaseView,
};
use crate::deterministic_coordinator::barrier;
use crate::deterministic_coordinator::laws;
use crate::sorting;
use crate::virtmcu_coord::coordinator;

verus! {

/// There is one batch for each node that takes part, and none for any other.
pub open spec fn batches_cover_nodes(config: ConfigView, phase: PhaseView) -> bool {
    match phase {
        PhaseView::Simulation { batches, .. } => forall|k: u32| #[trigger]
            batches.contains_key(k) <==> (k as nat) < config.expected_nodes,
        _ => true,
    }
}

proof fn lemma_replayed_covers(config: ConfigView, phase: PhaseView, regs: Seq<(u32, Seq<char>)>)
    requires
        batches_cover_nodes(config, phase),
    ensures
        batches_cover_nodes(config, coordinator::replayed(config, phase, regs).phase),
    decreases regs.len(),
{
    if regs.len() > 0 {
        lemma_replayed_covers(config, phase, regs.drop_last());
    }
}

/// Every event keeps one batch for each node that takes part.
pub proof fn law_batches_cover_nodes(config: ConfigView, phase: PhaseView, event: EventView)
    requires
        batches_cover_nodes(config, phase),
    ensures
        batches_cover_nodes(config, coordinator::outcome(config, phase, event).phase),
{
    match phase {
        PhaseView::AwaitingNodes { joined, buffered } => {
            lemma_replayed_covers(
                config,
                PhaseView::AwaitingLinks { remaining: coordination::expected_pairs(config.links) },
                buffered,
            );
        },
        _ => {},
    }
}

/// So a node that takes part can always send, and one that does not is refused.
pub proof fn law_only_nodes_that_take_part_may_send(
    config: ConfigView,
    phase: PhaseView,
    message: PendingView,
)
    requires
        phase is Simulation,
        batches_cover_nodes(config, phase),
    ensures
        ({
            let o = coordinator::outcome(config, phase, EventView::SimulationMessage { message });
            if (message.src_node_id as nat) < config.expected_nodes {
                o.actions.len() == 0
            } else {
                o.phase == phase && o.actions == seq![
                    ActionView::AbortSimulation {
                        reason: "Unknown source node for simulation message"@,
                    },
                ]
            }
        }),
{
}

/// The quantum never goes back, and goes on by one at a time.
pub proof fn law_quantum_advances_by_one(
    config: ConfigView,
    barrier: LookaheadView,
    batches: Map<u32, Seq<PendingView>>,
    event: EventView,
)
    requires
        barrier.current < u64::MAX,
    ensures
        ({
            let phase = PhaseView::Simulation { barrier, batches };
            let after = coordinator::outcome(config, phase, event).phase;
            &&& after matches PhaseView::Simulation { barrier: next, .. }
            &&& next.current == barrier.current || next.current == barrier.current + 1
            &&& next.limit == barrier.limit
        }),
{
}

proof fn lemma_routes_only(links: Links, messages: Seq<PendingView>, k: int)
    requires
        0 <= k < coordination::routed(links, messages).len(),
    ensures
        coordination::routed(links, messages)[k] is RouteMessage,
    decreases messages.len(),
{
    let front = coordination::routed(links, messages.drop_last());
    if k < front.len() {
        lemma_routes_only(links, messages.drop_last(), k);
    }
}

/// The clock is started for a quantum only once every node is done with the one before.
pub proof fn law_clock_starts_when_all_are_done(
    config: ConfigView,
    barrier: LookaheadView,
    batches: Map<u32, Seq<PendingView>>,
    event: EventView,
    release_quantum: u64,
)
    requires
        barrier.current < u64::MAX,
        coordinator::outcome(
            config,
            PhaseView::Simulation { barrier, batches },
            event,
        ).actions.contains(ActionView::BroadcastClockStart { release_quantum }),
    ensures
        event matches EventView::QuantumDone { node_id, quantum, .. } && {
            &&& quantum == barrier.current
            &&& release_quantum == barrier.current + 1
            &&& node_id < barrier.done.len()
            &&& barrier::all_set(barrier.done.update(node_id as int, true))
        },
{
    let phase = PhaseView::Simulation { barrier, batches };
    let actions = coordinator::outcome(config, phase, event).actions;
    let start = ActionView::BroadcastClockStart { release_quantum };
    let k = choose|k: int| 0 <= k < actions.len() && actions[k] == start;
    match event {
        EventView::QuantumDone { node_id, quantum, vtime_ns } => {
            if batches.contains_key(node_id) {
                let due = coordination::due(batches[node_id], vtime_ns);
                let (next, result) = coordinator::submitted(barrier, node_id, quantum, due);
                match result {
                    Ok(Some(released)) => {
                        let routes = coordination::routed(config.links, released);
                        if k < routes.len() {
                            lemma_routes_only(config.links, released, k);
                            assert(actions[k] == routes[k]);
                        }
                    },
                    _ => {},
                }
            }
        },
        _ => {},
    }
}

/// Whatever the phase, a node that disconnects aborts the simulation, with the phase as the reason,
/// and changes nothing.
pub proof fn law_disconnection_aborts(config: ConfigView, phase: PhaseView, node_id: u32)
    ensures
        ({
            let o = coordinator::outcome(config, phase, EventView::NodeDisconnected { node_id });
            &&& o.phase == phase
            &&& o.actions == seq![
                ActionView::AbortSimulation {
                    reason: match phase {
                        PhaseView::AwaitingNodes { .. } => "Node disconnected in AwaitingNodes"@,
                        PhaseView::AwaitingLinks { .. } => "Node disconnected in AwaitingLinks"@,
                        PhaseView::Simulation { .. } => "Node disconnected in Simulation"@,
                    },
                },
            ]
        }),
{
}

proof fn lemma_replayed_stays_out(
    config: ConfigView,
    phase: PhaseView,
    regs: Seq<(u32, Seq<char>)>,
)
    requires
        !(phase is AwaitingNodes),
    ensures
        !(coordinator::replayed(config, phase, regs).phase is AwaitingNodes),
    decreases regs.len(),
{
    if regs.len() > 0 {
        lemma_replayed_stays_out(config, phase, regs.drop_last());
    }
}

/// Where there is a link to register, a registration that comes before the last node joins leads
/// to the same phase, and to the same actions in the same order, as one that comes right after.
pub proof fn law_early_registration_is_replayed(
    config: ConfigView,
    joined: Set<u32>,
    buffered: Seq<(u32, Seq<char>)>,
    last_node: u32,
    node_id: u32,
    link_name: Seq<char>,
)
    requires
        joined.insert(last_node).len() == config.expected_nodes,
        coordination::expected_pairs(config.links) != Set::<(u32, Seq<char>)>::empty(),
    ensures
        ({
            let start = PhaseView::AwaitingNodes { joined, buffered };
            let register = EventView::LinkRegister { node_id, link_name };
            let join = EventView::NodeJoined { node_id: last_node };
            let early = coordinator::outcome(config, start, register);
            let early_join = coordinator::outcome(config, early.phase, join);
            let late_join = coordinator::outcome(config, start, join);
            let late = coordinator::outcome(config, late_join.phase, register);
            &&& early_join.phase == late.phase
            &&& early.actions + early_join.actions == late_join.actions + late.actions
        }),
{
    let waiting = PhaseView::AwaitingLinks {
        remaining: coordination::expected_pairs(config.links),
    };
    let longer = buffered.push((node_id, link_name));
    assert(longer.drop_last() =~= buffered);
    lemma_replayed_stays_out(config, waiting, buffered);
    let start = PhaseView::AwaitingNodes { joined, buffered };
    let register = EventView::LinkRegister { node_id, link_name };
    let join = EventView::NodeJoined { node_id: last_node };
    let early = coordinator::outcome(config, start, register);
    let early_join = coordinator::outcome(config, early.phase, join);
    let late_join = coordinator::outcome(config, start, join);
    let late = coordinator::outcome(config, late_join.phase, register);
    assert(early.actions + early_join.actions =~= late_join.actions + late.actions);
}

/// Two nodes that are done with the open quantum may say so in either order: the same is
/// released, and the same barrier is left, but for the order in which it holds what it has.
pub proof fn law_quantum_ignores_node_order(
    b: LookaheadView,
    i: u32,
    from_i: Seq<PendingView>,
    j: u32,
    from_j: Seq<PendingView>,
)
    requires
        i != j,
        i < b.done.len(),
        j < b.done.len(),
        !b.done[i as int],
        !b.done[j as int],
        laws::all_from(from_i, i),
        laws::all_from(from_j, j),
    ensures
        ({
            let q = b.current;
            let ij = coordinator::submitted(
                coordinator::submitted(b, i, q, from_i).0,
                j,
                q,
                from_j,
            );
            let ji = coordinator::submitted(
                coordinator::submitted(b, j, q, from_j).0,
                i,
                q,
                from_i,
            );
            &&& coordinator::submitted(b, i, q, from_i).1 == Ok::<
                Option<Seq<PendingView>>,
                coordinator::BarrierError,
            >(None)
            &&& ij.1 == ji.1
            &&& ij.0.current == ji.0.current
            &&& ij.0.done == ji.0.done
            &&& ij.0.next_done == ji.0.next_done
            &&& sorting::stable_sort(ij.0.buffer) == sorting::stable_sort(ji.0.buffer)
            &&& ij.0.next_buffer == ji.0.next_buffer
        }),
{
    let q = b.current;
    let first_i = coordinator::submitted(b, i, q, from_i);
    let first_j = coordinator::submitted(b, j, q, from_j);
    let done_i = b.done.update(i as int, true);
    let done_j = b.done.update(j as int, true);
    assert(!done_i[j as int]);
    assert(!done_j[i as int]);
    assert(!barrier::all_set(done_i));
    assert(!barrier::all_set(done_j));
    laws::lemma_admitted_from(from_i, i, b.limit);
    laws::lemma_admitted_from(from_j, j, b.limit);
    laws::law_sources_sort_apart(
        b.buffer,
        i,
        barrier::admitted(from_i, b.limit),
        j,
        barrier::admitted(from_j, b.limit),
    );
    assert(done_i.update(j as int, true) =~= done_j.update(i as int, true));
}

/// A message that is not due by the end of the quantum is held: it is in its node's batch after
/// the node is done.
pub proof fn law_future_message_is_held(
    config: ConfigView,
    barrier: LookaheadView,
    batches: Map<u32, Seq<PendingView>>,
    node_id: u32,
    quantum: u64,
    vtime_ns: u64,
    message: PendingView,
)
    requires
        batches.contains_key(node_id),
        batches[node_id].contains(message),
        message.delivery_vtime_ns > vtime_ns,
    ensures
        ({
            let phase = PhaseView::Simulation { barrier, batches };
            let after = coordinator::outcome(
                config,
                phase,
                EventView::QuantumDone { node_id, quantum, vtime_ns },
            ).phase;
            &&& after matches PhaseView::Simulation { batches: left, .. }
            &&& left.contains_key(node_id)
            &&& left[node_id].contains(message)
        }),
{
    laws::lemma_not_due_has(batches[node_id], vtime_ns, message);
}

/// A message is routed to the other nodes on its link in ascending order, and never back to its
/// source.
pub proof fn law_routes_leave_out_the_source(links: Links, link_id: u32, src: u32, k: int)
    requires
        0 <= k < coordination::route_targets(links, link_id, src).len(),
    ensures
        ({
            let targets = coordination::route_targets(links, link_id, src);
            &&& targets[k] != src
            &&& forall|j: int| 0 <= j <= k ==> #[trigger] targets[j] <= targets[k]
            &&& coordination::id_index(links, link_id, 0) matches Some(i)
            &&& links[i].1.target_nodes.contains(targets[k])
        }),
{
    laws::law_routes_leave_out_the_source(links, link_id, src, k);
}

} // verus!
