//! What holds of each step of the coordinator over framed sockets.
use vstd::prelude::*;

use crate::coordination;
use crate::coordination::{
    ActionView, ConfigView, EventView, LinkView, LookaheadView, PendingView, PhaseView,
};
use crate::deterministic_coordinator::barrier;
use crate::sorting;
use crate::virtmcu_coord::coordinator;
use crate::virtmcu_coord::coordinator::BarrierError;

verus! {

/// A word of a node that is none is refused, whatever its quantum; one on a quantum that is past
/// changes nothing; one on a quantum beyond the next, or said before, is refused and changes
/// nothing. A word on the next quantum is kept for it, with all its messages. A word on this
/// quantum counts, with as many of its messages as the limit lets in, and the last releases all
/// that was handed in, in order, and lets what was kept for the next quantum take its place.
pub proof fn law_submissions(
    b: LookaheadView,
    node: u32,
    quantum: u64,
    messages: Seq<PendingView>,
)
    requires
        b.current < u64::MAX,
        b.done.len() == b.next_done.len(),
    ensures
        ({
            let (then, result) = coordinator::submitted(b, node, quantum, messages);
            let n = node as int;
            let known = node < b.done.len();
            let now = b.buffer + barrier::admitted(messages, b.limit);
            let full = forall|i: int| 0 <= i < b.done.len() && i != n ==> #[trigger] b.done[i];
            &&& !known ==> then == b && result is Err && result->Err_0
                == BarrierError::NodeIndexOutOfBounds
            &&& known && quantum < b.current ==> then == b && result is Ok && result->Ok_0 is None
            &&& known && quantum > b.current + 1 ==> then == b && result is Err && result->Err_0
                == BarrierError::QuantumMismatch
            &&& known && quantum == b.current + 1 && b.next_done[n] ==> then == b && result is Err
                && result->Err_0 == BarrierError::DuplicateDone
            &&& known && quantum == b.current && b.done[n] ==> then == b && result is Err
                && result->Err_0 == BarrierError::DuplicateDone
            &&& known && quantum == b.current + 1 && !b.next_done[n] ==> result is Ok
                && result->Ok_0 is None && then.next_done == b.next_done.update(n, true)
                && then.next_buffer == b.next_buffer + messages && then.current == b.current
                && then.done == b.done && then.buffer == b.buffer
            &&& known && quantum == b.current && !b.done[n] && !full ==> result is Ok
                && result->Ok_0 is None && then.done == b.done.update(n, true) && then.buffer == now
                && then.current == b.current && then.next_done == b.next_done && then.next_buffer
                == b.next_buffer
            &&& known && quantum == b.current && !b.done[n] && full ==> result is Ok
                && result->Ok_0 == Some(sorting::stable_sort(now)) && then.current == b.current + 1
                && then.done == b.next_done && then.buffer == b.next_buffer
                && then.next_buffer.len() == 0 && then.next_done.len() == b.done.len() && (forall|
                i: int,
            | 0 <= i < b.done.len() ==> !#[trigger] then.next_done[i])
            &&& then.limit == b.limit
        }),
{
    let n = node as int;
    let after = b.done.update(n, true);
    if node < b.done.len() {
        let full = forall|i: int| 0 <= i < b.done.len() && i != n ==> #[trigger] b.done[i];
        if full {
            assert forall|i: int| 0 <= i < after.len() implies #[trigger] after[i] by {
                assert(i == n || after[i] == b.done[i]);
            }
        } else {
            let i = choose|i: int| 0 <= i < b.done.len() && i != n && !#[trigger] b.done[i];
            assert(!after[i]);
        }
    }
}

/// While nodes are waited for, a node that joins is taken note of, and a registration waits; nothing
/// is done yet. Messages and words that a node is done end the run.
pub proof fn law_waiting_for_nodes(
    config: ConfigView,
    joined: Set<u32>,
    buffered: Seq<(u32, Seq<char>)>,
    node: u32,
    name: Seq<char>,
    m: PendingView,
    quantum: u64,
    vtime_ns: u64,
)
    requires
        joined.insert(node).len() != config.expected_nodes,
    ensures
        ({
            let phase = PhaseView::AwaitingNodes { joined, buffered };
            let then = coordinator::outcome(config, phase, EventView::NodeJoined { node_id: node });
            let kept = coordinator::outcome(
                config,
                phase,
                EventView::LinkRegister { node_id: node, link_name: name },
            );
            let sent = coordinator::outcome(
                config,
                phase,
                EventView::SimulationMessage { message: m },
            );
            let done = coordinator::outcome(
                config,
                phase,
                EventView::QuantumDone { node_id: node, quantum, vtime_ns },
            );
            &&& then.phase == (PhaseView::AwaitingNodes { joined: joined.insert(node), buffered })
            &&& then.actions.len() == 0
            &&& kept.phase == (PhaseView::AwaitingNodes {
                joined,
                buffered: buffered.push((node, name)),
            })
            &&& kept.actions.len() == 0
            &&& sent.phase == phase && sent.actions.len() == 1 && sent.actions[0] is AbortSimulation
            &&& done.phase == phase && done.actions.len() == 1 && done.actions[0] is AbortSimulation
        }),
{
}

/// Once all nodes have joined, the links that have nodes are waited for; where there are none, the
/// first quantum starts at once.
pub proof fn law_all_joined(
    config: ConfigView,
    joined: Set<u32>,
    node: u32,
    i: int,
    j: int,
)
    requires
        joined.insert(node).len() == config.expected_nodes,
    ensures
        ({
            let phase = PhaseView::AwaitingNodes { joined, buffered: Seq::empty() };
            let then = coordinator::outcome(config, phase, EventView::NodeJoined { node_id: node });
            &&& config.links.len() == 0 ==> then.actions == seq![
                ActionView::BroadcastClockStart { release_quantum: 0 },
            ] && then.phase is Simulation && then.phase->barrier.current == 0
                && then.phase->barrier.limit == config.limit
            &&& 0 <= i < config.links.len() && 0 <= j < config.links[i].1.target_nodes.len()
                ==> then.actions.len() == 0 && then.phase is AwaitingLinks
                && then.phase->remaining.contains(
                (config.links[i].1.target_nodes[j], config.links[i].0),
            )
        }),
{
    let pairs = coordination::expected_pairs(config.links);
    if config.links.len() == 0 {
        assert(pairs =~= Set::<(u32, Seq<char>)>::empty());
    }
    if 0 <= i < config.links.len() && 0 <= j < config.links[i].1.target_nodes.len() {
        let p = (config.links[i].1.target_nodes[j], config.links[i].0);
        assert(config.links[i].1.target_nodes.contains(p.0));
        assert(coordination::names_target(config.links, p.0, p.1, config.links.len() as int));
        assert(pairs.contains(p));
    }
}

/// A registration of a link that there is is acknowledged with its number, and is no longer waited
/// for; the last one starts the first quantum, with nothing handed in and nothing waiting. A
/// registration of a link that there is not ends the run.
pub proof fn law_registrations(
    config: ConfigView,
    remaining: Set<(u32, Seq<char>)>,
    node: u32,
    name: Seq<char>,
    link: LinkView,
    k: u32,
)
    ensures
        ({
            let event = EventView::LinkRegister { node_id: node, link_name: name };
            let phase = PhaseView::AwaitingLinks { remaining };
            let then = coordinator::outcome(config, phase, event);
            let known = coordination::link_named(config.links, name);
            let left = remaining.remove((node, name));
            let ack = ActionView::SendLinkAck { node_id: node, link_id: link.link_id };
            &&& known is None ==> then.phase == phase && then.actions == seq![
                ActionView::AbortSimulation { reason: "Unknown link name: "@ + name },
            ]
            &&& known == Some(link) && left != Set::<(u32, Seq<char>)>::empty() ==> then.phase == (
            PhaseView::AwaitingLinks { remaining: left }) && then.actions == seq![ack]
            &&& known == Some(link) && left == Set::<(u32, Seq<char>)>::empty() ==> then.phase
                is Simulation && then.actions == seq![
                ack,
                ActionView::BroadcastClockStart { release_quantum: 0 },
            ] && then.phase->barrier.current == 0 && then.phase->barrier.limit == config.limit
                && then.phase->barrier.buffer.len() == 0 && then.phase->barrier.next_buffer.len()
                == 0 && then.phase->barrier.done.len() == config.expected_nodes
                && then.phase->barrier.next_done.len() == config.expected_nodes && (forall|i: int|
                0 <= i < config.expected_nodes ==> !#[trigger] then.phase->barrier.done[i]) && (
            then.phase->batches.contains_key(k) <==> k < config.expected_nodes) && (k
                < config.expected_nodes ==> then.phase->batches[k].len() == 0)
        }),
{
}

/// A message waits with those of its source, behind them; nothing else changes and nothing is done.
/// A message of a node that does not take part ends the run.
pub proof fn law_messages_wait(
    config: ConfigView,
    b: LookaheadView,
    batches: Map<u32, Seq<PendingView>>,
    m: PendingView,
    other: u32,
)
    ensures
        ({
            let phase = PhaseView::Simulation { barrier: b, batches };
            let then = coordinator::outcome(
                config,
                phase,
                EventView::SimulationMessage { message: m },
            );
            let src = m.src_node_id;
            let known = batches.contains_key(src);
            &&& !known ==> then.phase == phase && then.actions.len() == 1 && then.actions[0]
                is AbortSimulation
            &&& known ==> then.actions.len() == 0 && then.phase is Simulation
                && then.phase->barrier == b && then.phase->batches[src] == batches[src].push(m)
            &&& known ==> (then.phase->batches.contains_key(other) <==> batches.contains_key(other))
            &&& known && other != src && batches.contains_key(other)
                ==> then.phase->batches[other] == batches[other]
        }),
{
}

/// A node that is done hands in those of its messages that are due, and keeps the others; what the
/// last word of a quantum releases is routed, and then the next quantum starts. The other nodes'
/// messages stay as they are.
pub proof fn law_quantum_done(
    config: ConfigView,
    b: LookaheadView,
    batches: Map<u32, Seq<PendingView>>,
    node: u32,
    other: u32,
    quantum: u64,
    vtime_ns: u64,
)
    ensures
        ({
            let phase = PhaseView::Simulation { barrier: b, batches };
            let then = coordinator::outcome(
                config,
                phase,
                EventView::QuantumDone { node_id: node, quantum, vtime_ns },
            );
            let known = batches.contains_key(node);
            let due = batches[node].filter(|m: PendingView| m.delivery_vtime_ns <= vtime_ns);
            let (next, result) = coordinator::submitted(b, node, quantum, due);
            &&& !known ==> then.phase == phase && then.actions.len() == 1 && then.actions[0]
                is AbortSimulation
            &&& known ==> then.phase is Simulation && then.phase->barrier == next
                && then.phase->batches[node] == batches[node].filter(
                |m: PendingView| m.delivery_vtime_ns > vtime_ns,
            )
            &&& known && other != node && batches.contains_key(other)
                ==> then.phase->batches[other] == batches[other]
            &&& known && result is Err ==> then.actions.len() == 1 && then.actions[0]
                is AbortSimulation
            &&& known && result is Ok && result->Ok_0 is None ==> then.actions.len() == 0
            &&& known && result is Ok && result->Ok_0 is Some ==> then.actions
                == coordination::routed(config.links, result->Ok_0->0).push(
                ActionView::BroadcastClockStart { release_quantum: next.current },
            )
        }),
{
    if batches.contains_key(node) {
        crate::deterministic_coordinator::machine_laws::law_pending_due(batches[node], vtime_ns);
    }
}

} // verus!
