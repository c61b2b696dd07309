//! What holds of each step of the coordinator and of what it is built from.
use vstd::prelude::*;

use crate::coordination;
use crate::coordination::{
    ActionView, ConfigView, EventView, LinkView, Links, LookaheadView, PendingView, PhaseView,
};
use crate::deterministic_coordinator::barrier;
use crate::deterministic_coordinator::barrier::CoordMessageView;
use crate::deterministic_coordinator::control;
use crate::deterministic_coordinator::control::ControlErrorView;
use crate::deterministic_coordinator::coordinator;
use crate::deterministic_coordinator::delivery;
use crate::deterministic_coordinator::frame_laws;
use crate::deterministic_coordinator::envelope::EnvelopeView;
use crate::deterministic_coordinator::frames;
use crate::deterministic_coordinator::frames::{CarriedView, DoneView};
use crate::deterministic_coordinator::graph;
use crate::deterministic_coordinator::graph::{GraphView, Positions};
use crate::deterministic_coordinator::session;
use crate::deterministic_coordinator::session::SessionView;
use crate::deterministic_coordinator::session_laws;
use crate::deterministic_coordinator::steps;
use crate::deterministic_coordinator::steps::StepView;
use crate::deterministic_coordinator::topology;
use crate::deterministic_coordinator::topology::{
    LinkSpecView, NodeIdView, Position, Protocol, Routes, TopologyErrorView, TopologySpecView,
    Transport, WireLinkView, WorldView,
};
use crate::json;
use crate::sorting;
use crate::sorting::Ranked;
use crate::text;
use crate::text_laws;

verus! {

/// Messages are in the order of their times, then of their sources, then of their destinations,
/// then of their numbers, then of their protocols; the later of these count only where the earlier
/// are the same.
pub proof fn law_message_order(a: CoordMessageView, b: CoordMessageView)
    ensures
        a.delivery_vtime_ns < b.delivery_vtime_ns ==> a.rank_le(b) && !b.rank_le(a),
        a.delivery_vtime_ns == b.delivery_vtime_ns && a.src_node_id < b.src_node_id ==> a.rank_le(b)
            && !b.rank_le(a),
        a.delivery_vtime_ns == b.delivery_vtime_ns && a.src_node_id == b.src_node_id
            && a.dst_node_id < b.dst_node_id ==> a.rank_le(b) && !b.rank_le(a),
        a.delivery_vtime_ns == b.delivery_vtime_ns && a.src_node_id == b.src_node_id
            && a.dst_node_id == b.dst_node_id && a.sequence_number < b.sequence_number
            ==> a.rank_le(b) && !b.rank_le(a),
        a.delivery_vtime_ns == b.delivery_vtime_ns && a.src_node_id == b.src_node_id
            && a.dst_node_id == b.dst_node_id && a.sequence_number == b.sequence_number
            && topology::protocol_rank(a.protocol) < topology::protocol_rank(b.protocol)
            ==> a.rank_le(b) && !b.rank_le(a),
        ({
            let with = CoordMessageView { payload: b.payload, ..a };
            a.rank_le(with) <==> barrier::bytes_le(a.payload, b.payload, 0)
        }),
{
}

/// Payloads are in the order of the first byte in which they differ; one that begins another goes
/// before it.
pub proof fn law_payload_order(p: Seq<u8>, x: u8, y: u8, a: Seq<u8>, b: Seq<u8>)
    requires
        x < y,
    ensures
        barrier::bytes_le(p + seq![x] + a, p + seq![y] + b, 0),
        !barrier::bytes_le(p + seq![y] + b, p + seq![x] + a, 0),
        barrier::bytes_le(p, p + a, 0),
        a.len() > 0 ==> !barrier::bytes_le(p + a, p, 0),
{
    lemma_bytes_le(p, x, y, a, b, 0);
}

proof fn lemma_bytes_le(p: Seq<u8>, x: u8, y: u8, a: Seq<u8>, b: Seq<u8>, i: int)
    requires
        x < y,
        0 <= i <= p.len(),
    ensures
        barrier::bytes_le(p + seq![x] + a, p + seq![y] + b, i),
        !barrier::bytes_le(p + seq![y] + b, p + seq![x] + a, i),
        barrier::bytes_le(p, p + a, i),
        a.len() > 0 ==> !barrier::bytes_le(p + a, p, i),
    decreases p.len() - i,
{
    let s = p + seq![x] + a;
    let t = p + seq![y] + b;
    if i < p.len() {
        assert(s[i] == p[i] && t[i] == p[i] && (p + a)[i] == p[i]);
        lemma_bytes_le(p, x, y, a, b, i + 1);
    } else {
        assert(s[i] == x && t[i] == y);
    }
}

/// Pending messages are in the order of their times, then of their sources, then of their numbers.
pub proof fn law_pending_order(a: PendingView, b: PendingView)
    ensures
        a.delivery_vtime_ns < b.delivery_vtime_ns ==> a.rank_le(b) && !b.rank_le(a),
        a.delivery_vtime_ns == b.delivery_vtime_ns && a.src_node_id < b.src_node_id ==> a.rank_le(b)
            && !b.rank_le(a),
        a.delivery_vtime_ns == b.delivery_vtime_ns && a.src_node_id == b.src_node_id ==> (a.rank_le(
            b,
        ) <==> a.sequence_number <= b.sequence_number),
{
}

/// A node may hand in as many messages as the limit lets it: the first of them in order, and all of
/// them if they are no more.
pub proof fn law_admission<V: Ranked>(messages: Seq<V>, limit: nat)
    ensures
        ({
            let admitted = barrier::admitted(messages, limit);
            let sorted = sorting::stable_sort(messages);
            &&& admitted.len() == (if messages.len() <= limit {
                messages.len()
            } else {
                limit
            })
            &&& sorting::is_sorted(admitted)
            &&& admitted == sorted.take(admitted.len() as int)
            &&& forall|i: int, j: int|
                0 <= i < admitted.len() <= j < sorted.len() ==> (#[trigger] admitted[i]).rank_le(
                    #[trigger] sorted[j],
                )
            &&& messages.len() <= limit ==> admitted.to_multiset() == messages.to_multiset()
        }),
{
    let sorted = sorting::stable_sort(messages);
    let admitted = barrier::admitted(messages, limit);
    sorting::lemma_stable_sort(messages);
    sorting::law_sort_keeps_contents(messages);
    assert(sorted.take(sorted.len() as int) =~= sorted);
    assert forall|i: int, j: int| 0 <= i < admitted.len() <= j < sorted.len() implies (
    #[trigger] admitted[i]).rank_le(#[trigger] sorted[j]) by {
        assert(admitted[i] == sorted[i]);
    }
    assert forall|i: int, j: int| 0 <= i <= j < admitted.len() implies (
    #[trigger] admitted[i]).rank_le(#[trigger] admitted[j]) by {
        assert(admitted[i] == sorted[i] && admitted[j] == sorted[j]);
    }
}

/// The messages up to a time are those due, the others are not, each in its order.
pub proof fn law_pending_due(messages: Seq<PendingView>, vtime_ns: u64)
    ensures
        coordination::due(messages, vtime_ns) == messages.filter(
            |m: PendingView| m.delivery_vtime_ns <= vtime_ns,
        ),
        coordination::not_due(messages, vtime_ns) == messages.filter(
            |m: PendingView| m.delivery_vtime_ns > vtime_ns,
        ),
    decreases messages.len(),
{
    reveal(Seq::filter);
    if messages.len() > 0 {
        law_pending_due(messages.drop_last(), vtime_ns);
    }
}

proof fn lemma_without(nodes: Seq<u32>, node: u32)
    ensures
        coordination::without(nodes, node) == nodes.filter(|n: u32| n != node),
    decreases nodes.len(),
{
    reveal(Seq::filter);
    if nodes.len() > 0 {
        lemma_without(nodes.drop_last(), node);
    }
}

proof fn lemma_id_index(links: Links, link_id: u32, i: int, k: int)
    requires
        0 <= i <= k <= links.len(),
        k < links.len() ==> links[k].1.link_id == link_id,
        forall|j: int| i <= j < k ==> (#[trigger] links[j]).1.link_id != link_id,
    ensures
        coordination::id_index(links, link_id, i) == if k < links.len() {
            Some(k)
        } else {
            None
        },
    decreases k - i,
{
    if i < k {
        assert(links[i].1.link_id != link_id);
        lemma_id_index(links, link_id, i + 1, k);
    }
}

/// A message on a link goes to all nodes of the link but its source, in ascending order; on a link
/// that there is not, to nobody.
pub proof fn law_route_targets(links: Links, link_id: u32, src: u32, k: int)
    requires
        0 <= k <= links.len(),
        k < links.len() ==> links[k].1.link_id == link_id,
        forall|j: int| 0 <= j < k ==> (#[trigger] links[j]).1.link_id != link_id,
    ensures
        ({
            let targets = coordination::route_targets(links, link_id, src);
            &&& k == links.len() ==> targets.len() == 0
            &&& k < links.len() ==> targets.to_multiset() == links[k].1.target_nodes.filter(
                |n: u32| n != src,
            ).to_multiset()
            &&& forall|i: int, j: int|
                0 <= i <= j < targets.len() ==> #[trigger] targets[i] <= #[trigger] targets[j]
        }),
{
    lemma_id_index(links, link_id, 0, k);
    let targets = coordination::route_targets(links, link_id, src);
    if k < links.len() {
        let nodes = links[k].1.target_nodes;
        lemma_without(nodes, src);
        sorting::lemma_stable_sort(coordination::without(nodes, src));
        sorting::law_sort_keeps_contents(coordination::without(nodes, src));
        assert forall|i: int, j: int| 0 <= i <= j < targets.len() implies #[trigger] targets[i]
            <= #[trigger] targets[j] by {
            assert(targets[i].rank_le(targets[j]));
        }
    }
}

/// Released messages are routed one after the other, each as it is to those it is for; one that is
/// for nobody is not.
pub proof fn law_routing(links: Links, messages: Seq<PendingView>, m: PendingView)
    ensures
        ({
            let before = coordination::routed(links, messages);
            let then = coordination::routed(links, messages.push(m));
            let targets = coordination::route_targets(links, m.link_id, m.src_node_id);
            &&& targets.len() == 0 ==> then == before
            &&& targets.len() > 0 ==> then == before.push(
                ActionView::RouteMessage {
                    target_nodes: targets,
                    link_id: m.link_id,
                    delivery_vtime_ns: m.delivery_vtime_ns,
                    sequence_number: m.sequence_number,
                    payload: m.payload,
                },
            )
            &&& coordination::routed(links, Seq::empty()).len() == 0
        }),
{
    let before = coordination::routed(links, messages);
    let one = coordination::routed_one(links, m);
    assert(messages.push(m).drop_last() =~= messages);
    if one.len() == 0 {
        assert(before + one =~= before);
    } else {
        assert(before + one =~= before.push(one[0]));
    }
}

/// A node's word on a quantum that is past changes nothing; one on a quantum beyond the next, of a
/// node that is none, or said before, is refused and changes nothing. A word on the next quantum is
/// kept for it. A word on this quantum counts, and the last releases all that was handed in, in
/// order, and lets what was kept for the next quantum take its place.
pub proof fn law_submissions(
    b: LookaheadView,
    node: u32,
    quantum: u64,
    messages: Seq<PendingView>,
)
    requires
        b.current < u64::MAX,
        b.done.len() == b.next_done.len(),
    ensures
        ({
            let (then, result) = coordinator::submitted(b, node, quantum, messages);
            let n = node as int;
            let known = node < b.done.len();
            let now = b.buffer + barrier::admitted(messages, b.limit);
            let full = forall|i: int| 0 <= i < b.done.len() && i != n ==> #[trigger] b.done[i];
            &&& quantum < b.current ==> then == b && result == Ok::<
                Option<Seq<PendingView>>,
                coordinator::BarrierError,
            >(None)
            &&& quantum >= b.current && !known ==> then == b && result is Err && result->Err_0
                == coordinator::BarrierError::NodeIndexOutOfBounds(node)
            &&& known && quantum > b.current + 1 ==> then == b && result is Err && result->Err_0 == (
            coordinator::BarrierError::QuantumMismatch { expected: b.current, got: quantum })
            &&& known && quantum == b.current + 1 && b.next_done[n] ==> then == b && result is Err
                && result->Err_0 == coordinator::BarrierError::DuplicateDone
            &&& known && quantum == b.current && b.done[n] ==> then == b && result is Err
                && result->Err_0 == coordinator::BarrierError::DuplicateDone
            &&& known && quantum == b.current + 1 && !b.next_done[n] ==> result is Ok
                && result->Ok_0 is None && then.next_done == b.next_done.update(n, true)
                && then.next_buffer == b.next_buffer + barrier::admitted(messages, b.limit)
                && then.current == b.current && then.done == b.done && then.buffer == b.buffer
            &&& known && quantum == b.current && !b.done[n] && !full ==> result is Ok
                && result->Ok_0 is None && then.done == b.done.update(n, true) && then.buffer == now
                && then.current == b.current && then.next_done == b.next_done && then.next_buffer
                == b.next_buffer
            &&& known && quantum == b.current && !b.done[n] && full ==> result is Ok
                && result->Ok_0 == Some(sorting::stable_sort(now)) && then.current == b.current + 1
                && then.done == b.next_done && then.buffer == b.next_buffer
                && then.next_buffer.len() == 0 && then.next_done.len() == b.done.len() && (forall|
                i: int,
            | 0 <= i < b.done.len() ==> !#[trigger] then.next_done[i])
            &&& then.limit == b.limit
        }),
{
    let n = node as int;
    let after = b.done.update(n, true);
    if node < b.done.len() {
        let full = forall|i: int| 0 <= i < b.done.len() && i != n ==> #[trigger] b.done[i];
        if full {
            assert forall|i: int| 0 <= i < after.len() implies #[trigger] after[i] by {
                assert(i == n || after[i] == b.done[i]);
            }
        } else {
            let i = choose|i: int| 0 <= i < b.done.len() && i != n && !#[trigger] b.done[i];
            assert(!after[i]);
        }
    }
}

/// While nodes are waited for, a node that joins is taken note of, and a registration waits; nothing
/// is done yet.
pub proof fn law_waiting_for_nodes(
    config: ConfigView,
    joined: Set<u32>,
    buffered: Seq<(u32, Seq<char>)>,
    node: u32,
    name: Seq<char>,
)
    requires
        joined.insert(node).len() != config.expected_nodes,
    ensures
        ({
            let phase = PhaseView::AwaitingNodes { joined, buffered };
            let then = coordinator::outcome(config, phase, EventView::NodeJoined { node_id: node });
            let kept = coordinator::outcome(
                config,
                phase,
                EventView::LinkRegister { node_id: node, link_name: name },
            );
            &&& then.phase == (PhaseView::AwaitingNodes { joined: joined.insert(node), buffered })
            &&& then.actions.len() == 0
            &&& kept.phase == (PhaseView::AwaitingNodes {
                joined,
                buffered: buffered.push((node, name)),
            })
            &&& kept.actions.len() == 0
        }),
{
}

/// A registration of a link that there is is acknowledged with its number, and is no longer waited
/// for; the last one starts the first quantum. A registration of a link that there is not ends the
/// run.
pub proof fn law_registrations(
    config: ConfigView,
    remaining: Set<(u32, Seq<char>)>,
    node: u32,
    name: Seq<char>,
    link: LinkView,
    other: u32,
)
    ensures
        ({
            let event = EventView::LinkRegister { node_id: node, link_name: name };
            let phase = PhaseView::AwaitingLinks { remaining };
            let then = coordinator::outcome(config, phase, event);
            let known = coordination::link_named(config.links, name);
            let left = remaining.remove((node, name));
            let ack = ActionView::SendLinkAck { node_id: node, link_id: link.link_id };
            &&& known is None ==> then.phase == phase && then.actions.len() == 1 && then.actions[0]
                is AbortSimulation
            &&& known == Some(link) && left != Set::<(u32, Seq<char>)>::empty() ==> then.phase == (
            PhaseView::AwaitingLinks { remaining: left }) && then.actions == seq![ack]
            &&& known == Some(link) && left == Set::<(u32, Seq<char>)>::empty() ==> then.phase
                is Simulation && then.actions == seq![
                ack,
                ActionView::BroadcastClockStart { release_quantum: 0 },
            ] && then.phase->barrier.current == 0 && then.phase->barrier.buffer.len() == 0
                && then.phase->barrier.limit == config.limit && then.phase->barrier.next_buffer.len()
                == 0 && then.phase->barrier.done.len() == config.expected_nodes
                && then.phase->barrier.next_done.len() == config.expected_nodes && (forall|i: int|
                0 <= i < config.expected_nodes ==> !#[trigger] then.phase->barrier.done[i])
                && coordinator::batch_of(then.phase->batches, other).len() == 0
        }),
{
}

/// A message waits with those of its source, behind them; nothing else changes and nothing is done.
/// Before the simulation has begun, messages and words that a node is done end the run.
pub proof fn law_messages_wait(
    config: ConfigView,
    b: LookaheadView,
    batches: Map<u32, Seq<PendingView>>,
    m: PendingView,
    other: u32,
    remaining: Set<(u32, Seq<char>)>,
    quantum: u64,
    vtime_ns: u64,
)
    ensures
        ({
            let phase = PhaseView::Simulation { barrier: b, batches };
            let then = coordinator::outcome(
                config,
                phase,
                EventView::SimulationMessage { message: m },
            );
            let src = m.src_node_id;
            &&& then.actions.len() == 0
            &&& then.phase is Simulation
            &&& then.phase->barrier == b
            &&& coordinator::batch_of(then.phase->batches, src) == coordinator::batch_of(
                batches,
                src,
            ).push(m)
            &&& other != src ==> coordinator::batch_of(then.phase->batches, other)
                == coordinator::batch_of(batches, other)
        }),
        ({
            let phase = PhaseView::AwaitingLinks { remaining };
            let a = coordinator::outcome(
                config,
                phase,
                EventView::SimulationMessage { message: m },
            );
            let d = coordinator::outcome(
                config,
                phase,
                EventView::QuantumDone { node_id: other, quantum, vtime_ns },
            );
            &&& a.phase == phase && a.actions.len() == 1 && a.actions[0] is AbortSimulation
            &&& d.phase == phase && d.actions.len() == 1 && d.actions[0] is AbortSimulation
        }),
{
}

/// A node that is done hands in those of its messages that are due, and keeps the others; what the
/// last word of a quantum releases is routed, and then the next quantum starts. The other nodes'
/// messages stay as they are.
pub proof fn law_quantum_done(
    config: ConfigView,
    b: LookaheadView,
    batches: Map<u32, Seq<PendingView>>,
    node: u32,
    other: u32,
    quantum: u64,
    vtime_ns: u64,
)
    ensures
        ({
            let phase = PhaseView::Simulation { barrier: b, batches };
            let then = coordinator::outcome(
                config,
                phase,
                EventView::QuantumDone { node_id: node, quantum, vtime_ns },
            );
            let batch = coordinator::batch_of(batches, node);
            let due = batch.filter(|m: PendingView| m.delivery_vtime_ns <= vtime_ns);
            let (next, result) = coordinator::submitted(b, node, quantum, due);
            &&& then.phase is Simulation && then.phase->barrier == next
            &&& coordinator::batch_of(then.phase->batches, node) == batch.filter(
                |m: PendingView| m.delivery_vtime_ns > vtime_ns,
            )
            &&& other != node ==> coordinator::batch_of(then.phase->batches, other)
                == coordinator::batch_of(batches, other)
            &&& result is Err ==> then.actions.len() == 1 && then.actions[0] is AbortSimulation
            &&& result is Ok && result->Ok_0 is None ==> then.actions.len() == 0
            &&& result is Ok && result->Ok_0 is Some ==> then.actions == coordination::routed(
                config.links,
                result->Ok_0->0,
            ).push(ActionView::BroadcastClockStart { release_quantum: next.current })
        }),
{
    law_pending_due(coordinator::batch_of(batches, node), vtime_ns);
}

/// A transmission of a node that may not send is refused; one that carries nothing, or is on a topic
/// that tells nothing, is passed over. Otherwise its message is delivered at once or waits, as the
/// run is set, and only in the latter case does the run change.
pub proof fn law_transmission_steps(
    s: SessionView,
    routes: Routes,
    topic: Seq<char>,
    carried: CarriedView,
)
    ensures
        ({
            let tx = frames::tx_topic(topic);
            let (then, step) = steps::transmission(s, routes, topic, Some(carried));
            let e = session::transmitted(s.delay_ns, tx->0, carried);
            &&& tx is None ==> then == s && step is Nothing
            &&& tx is Some && topology::targets_of(
                routes,
                text::decimal(tx->0.node_id as nat),
            ) is None ==> then == s && step is Unregistered
            &&& tx is Some && topology::targets_of(
                routes,
                text::decimal(tx->0.node_id as nat),
            ) is Some && s.immediate ==> then == s && step is Deliver && step->Deliver_messages
                == seq![e]
            &&& tx is Some && topology::targets_of(
                routes,
                text::decimal(tx->0.node_id as nat),
            ) is Some && !s.immediate ==> step is Nothing && then == session::held(s, e)
            &&& steps::transmission(s, routes, topic, None).0 == s
            &&& !(steps::transmission(s, routes, topic, None).1 is Deliver)
        }),
{
}

/// What is delivered at once has its plan, unless it has no targets at all.
pub proof fn law_immediate_delivery(
    routes: Routes,
    links: Option<Seq<Seq<u32>>>,
    e: EnvelopeView,
    targets: Seq<u32>,
)
    ensures
        steps::deliver_step(routes, links, e, false) is Nothing,
        ({
            let step = steps::deliver_step(routes, links, e, true);
            &&& step is Deliver && step->Deliver_messages == seq![e]
            &&& delivery::message_targets(routes, links, e) == Some(targets)
                ==> step->Deliver_plans == seq![delivery::deliveries_to(e, targets)]
            &&& delivery::message_targets(routes, links, e) is None ==> step->Deliver_plans.len()
                == 0
        }),
{
    reveal_with_fuel(steps::plans_for, 2);
    let front = steps::plans_for(routes, links, seq![e], 0);
    assert(front.len() == 0);
    if delivery::message_targets(routes, links, e) == Some(targets) {
        assert(steps::plans_for(routes, links, seq![e], 1) =~= seq![
            delivery::deliveries_to(e, targets),
        ]);
    }
}

/// A node's word that it is done is for its node; where the count of quanta or a time would run
/// over, nothing is done. Otherwise it is taken, and releases messages with their plans, or is
/// refused, or nothing happens yet.
pub proof fn law_done_steps(
    s: SessionView,
    routes: Routes,
    links: Option<Seq<Seq<u32>>>,
    id: u32,
    done: DoneView,
)
    ensures
        steps::done_word(s, routes, links, None, done) == (s, StepView::Nothing),
        ({
            let over = s.quantum == u64::MAX || (session::batch_of(s.batches, id).len() > 0
                && done.vtime_limit + s.delay_ns > u64::MAX);
            let (then, step) = steps::done_word(s, routes, links, Some(id), done);
            let (after, outcome) = session::done(
                s,
                id,
                done.quantum,
                done.vtime_limit,
                done.messages,
            );
            &&& over ==> then == s && step is Overflow
            &&& !over ==> then == after
            &&& !over && outcome is Waiting ==> step is Nothing
            &&& !over && outcome is Fatal ==> step is Refused
            &&& !over && outcome is Released ==> step is Release && step->Release_messages
                == outcome->messages && step->Release_next_quantum == s.quantum + 1
                && step->Release_plans == steps::plans_for(
                routes,
                links,
                outcome->messages,
                outcome->messages.len() as int,
            )
        }),
{
}

/// A word of eight or sixteen bytes is of the plain form; any other is taken as it was decoded, and
/// as the plain form if it could not be.
pub proof fn law_forms_of_done(payload: Seq<u8>, decoded: DoneView)
    ensures
        payload.len() == 8 || payload.len() == 16 ==> steps::bus_done(payload, Some(decoded))
            == frames::plain_done(payload),
        payload.len() != 8 && payload.len() != 16 ==> steps::bus_done(payload, Some(decoded))
            == decoded,
        steps::bus_done(payload, None) == frames::plain_done(payload),
{
}

/// A frame on a link that comes over a socket becomes a message of its node on that link, numbered
/// by its count; a frame for another link, or for one that there is not, is fatal; one that is cut
/// off is passed over.
pub proof fn law_socket_link_frames(
    s: SessionView,
    routes: Routes,
    links: Seq<Seq<u32>>,
    node: u32,
    link: u32,
    other: u32,
    raw: Seq<u8>,
    rest: Seq<u8>,
    keep: int,
    carried: Option<CarriedView>,
    decoded: Option<DoneView>,
)
    requires
        raw.len() <= u32::MAX,
        other != link,
        0 <= keep < 8 + raw.len(),
        session::counter_of(s.counters, node) < u64::MAX,
    ensures
        ({
            let topic = "sim/ch/"@ + text::decimal(link as nat);
            let frame = crate::wire::le_bytes(link as nat, 4) + crate::wire::le_bytes(raw.len(), 4)
                + raw;
            let wrong = crate::wire::le_bytes(other as nat, 4) + crate::wire::le_bytes(
                raw.len(),
                4,
            ) + raw;
            let e = session::link_message(s, link, node, raw);
            let counted = session::counted(s, node);
            let (then, step) = steps::socket_message(
                s,
                routes,
                links,
                node,
                topic,
                frame + rest,
                carried,
                decoded,
            );
            let bad = steps::socket_message(
                s,
                routes,
                links,
                node,
                topic,
                wrong + rest,
                carried,
                decoded,
            );
            let cut = steps::socket_message(
                s,
                routes,
                links,
                node,
                topic,
                frame.take(keep),
                carried,
                decoded,
            );
            &&& link >= links.len() ==> then == s && step is Fatal
            &&& link < links.len() && s.immediate ==> then == counted && step is Deliver
                && step->Deliver_messages == seq![e]
            &&& link < links.len() && !s.immediate ==> then == session::held(counted, e) && step
                is Nothing
            &&& link < links.len() ==> bad == (s, StepView::Fatal)
            &&& link < links.len() ==> cut == (s, StepView::Nothing)
        }),
{
    session_laws::law_link_topic_reads_back(link);
    session_laws::law_link_frame_reads_back(link, raw, rest, keep);
    session_laws::law_link_frame_reads_back(other, raw, rest, keep);
    lemma_link_of_cut_frame(link, raw, keep);
    lemma_link_of_cut_frame(other, raw, keep);
}

proof fn lemma_link_of_cut_frame(link: u32, raw: Seq<u8>, keep: int)
    requires
        raw.len() <= u32::MAX,
        0 <= keep < 8 + raw.len(),
    ensures
        ({
            let frame = crate::wire::le_bytes(link as nat, 4) + crate::wire::le_bytes(raw.len(), 4)
                + raw;
            &&& frame.len() == 8 + raw.len()
            &&& keep >= 4 ==> crate::wire::le_at(frame.take(keep), 0, 4) == link
        }),
{
    let a = crate::wire::le_bytes(link as nat, 4);
    let b = crate::wire::le_bytes(raw.len(), 4);
    let frame = a + b + raw;
    crate::deterministic_coordinator::frame_laws::lemma_byte_ranges();
    crate::wire::law_le_round_trip(link as nat, 4);
    crate::wire::lemma_le_bytes_len(link as nat, 4);
    crate::wire::lemma_le_bytes_len(raw.len(), 4);
    if keep >= 4 {
        assert(frame.take(keep).subrange(0, 4) =~= a);
    }
}

proof fn lemma_position_index(positions: Positions, id: u32, i: int, k: int)
    requires
        0 <= i <= k <= positions.len(),
        k < positions.len() ==> positions[k].0 == id,
        forall|j: int| i <= j < k ==> (#[trigger] positions[j]).0 != id,
    ensures
        graph::position_index(positions, id, i) == if k < positions.len() {
            Some(k)
        } else {
            None
        },
    decreases k - i,
{
    if i < k {
        assert(positions[i].0 != id);
        lemma_position_index(positions, id, i + 1, k);
    }
}

spec fn place_of(positions: Positions, id: u32, i: int) -> int
    decreases positions.len() - i,
{
    if i < 0 || i >= positions.len() || positions[i].0 == id {
        i
    } else {
        place_of(positions, id, i + 1)
    }
}

proof fn lemma_place_of(positions: Positions, id: u32, i: int)
    requires
        0 <= i <= positions.len(),
    ensures
        i <= place_of(positions, id, i) <= positions.len(),
        place_of(positions, id, i) < positions.len() ==> positions[place_of(positions, id, i)].0
            == id,
        forall|j: int| i <= j < place_of(positions, id, i) ==> (#[trigger] positions[j]).0 != id,
    decreases positions.len() - i,
{
    if i < positions.len() && positions[i].0 != id {
        lemma_place_of(positions, id, i + 1);
    }
}

/// Where a node is.
pub open spec fn position_of(positions: Positions, id: u32) -> Option<Position> {
    match graph::position_index(positions, id, 0) {
        Some(i) => Some(positions[i].1),
        None => None,
    }
}

/// A node that was moved is where it was moved to, and each other is where it was.
pub proof fn law_moved_node(positions: Positions, id: u32, at: Position, other: u32)
    ensures
        position_of(graph::with_position(positions, id, at), id) == Some(at),
        other != id ==> position_of(graph::with_position(positions, id, at), other) == position_of(
            positions,
            other,
        ),
{
    let then = graph::with_position(positions, id, at);
    let k = place_of(positions, id, 0);
    lemma_place_of(positions, id, 0);
    lemma_position_index(positions, id, 0, k);
    assert forall|j: int| 0 <= j < k implies (#[trigger] then[j]).0 != id by {
        assert(then[j] == positions[j]);
    }
    lemma_position_index(then, id, 0, k);
    if other != id {
        let m = place_of(positions, other, 0);
        lemma_place_of(positions, other, 0);
        lemma_position_index(positions, other, 0, m);
        assert forall|j: int| 0 <= j < m implies (#[trigger] then[j]).0 != other by {
            assert(then[j].0 == positions[j].0);
        }
        if m < positions.len() {
            assert(then[m] == positions[m]);
            lemma_position_index(then, other, 0, m);
        } else {
            lemma_position_index(then, other, 0, then.len() as int);
        }
    }
}

/// After moves each node is where its last move put it, and where it was if there was none.
pub proof fn law_moves(
    positions: Positions,
    updates: Seq<(u32, Position)>,
    i: int,
    k: int,
    id: u32,
)
    requires
        0 <= i <= updates.len(),
    ensures
        i <= k < updates.len() && updates[k].0 == id && (forall|j: int|
            k < j < updates.len() ==> (#[trigger] updates[j]).0 != id) ==> position_of(
            graph::updated_positions(positions, updates, i),
            id,
        ) == Some(updates[k].1),
        (forall|j: int| i <= j < updates.len() ==> (#[trigger] updates[j]).0 != id) ==> position_of(
            graph::updated_positions(positions, updates, i),
            id,
        ) == position_of(positions, id),
    decreases updates.len() - i,
{
    if i < updates.len() {
        law_moved_node(positions, updates[i].0, updates[i].1, id);
        let then = graph::with_position(positions, updates[i].0, updates[i].1);
        law_moves(then, updates, i + 1, k, id);
        if forall|j: int| i <= j < updates.len() ==> (#[trigger] updates[j]).0 != id {
            assert(updates[i].0 != id);
        }
    }
}

proof fn lemma_near_nodes(g: GraphView, node: u32, i: int, found: Seq<u32>, x: u32)
    requires
        0 <= i <= g.positions.len(),
    ensures
        graph::near_nodes(g, node, i, found).contains(x) <==> found.contains(x) || exists|k: int|
            i <= k < g.positions.len() && (#[trigger] g.positions[k]).0 == x && x != node
                && g.in_range.contains((node, x)),
    decreases g.positions.len() - i,
{
    if i < g.positions.len() {
        let other = g.positions[i].0;
        let near = other != node && g.in_range.contains((node, other));
        let next = if near {
            found.push(other)
        } else {
            found
        };
        lemma_near_nodes(g, node, i + 1, next, x);
        if near {
            assert(next[found.len() as int] == other);
            if found.contains(x) {
                assert(next[found.index_of(x)] == x);
            }
            if next.contains(x) && x != other {
                let k = next.index_of(x);
                assert(found[k] == x);
            }
        }
        if exists|k: int|
            i <= k < g.positions.len() && (#[trigger] g.positions[k]).0 == x && x != node
                && g.in_range.contains((node, x)) {
            let k = choose|k: int|
                i <= k < g.positions.len() && (#[trigger] g.positions[k]).0 == x && x != node
                    && g.in_range.contains((node, x));
            assert(k == i || i + 1 <= k);
        }
        if x == other && near {
            assert(g.positions[i].0 == x);
        }
    }
}

/// A node's neighbors over the air are the others that have a place and are in its range, if it has
/// a place itself and there is any air.
pub proof fn law_neighbors(g: GraphView, node: u32, x: u32)
    ensures
        graph::neighbors(g, node).contains(x) <==> g.wireless is Some && position_of(
            g.positions,
            node,
        ) is Some && position_of(g.positions, x) is Some && x != node && g.in_range.contains(
            (node, x),
        ),
{
    lemma_near_nodes(g, node, 0, Seq::empty(), x);
    let k = place_of(g.positions, x, 0);
    lemma_place_of(g.positions, x, 0);
    lemma_position_index(g.positions, x, 0, k);
    if position_of(g.positions, x) is Some {
        assert(g.positions[k].0 == x);
    }
    assert(!Seq::<u32>::empty().contains(x));
}

/// Traffic passes neither way where a link is cut either way. Elsewhere it passes everywhere if no
/// links are laid down, over the air between neighbors, and over wires between nodes on one wire of
/// the protocol.
pub proof fn law_where_traffic_passes(g: GraphView, a: u32, b: u32, protocol: Protocol)
    ensures
        ({
            let cut = g.drops.contains((a, b)) || g.drops.contains((b, a));
            let air = protocol == Protocol::Rf802154 || protocol == Protocol::RfHci;
            let passes = graph::link_allowed(g, a, b, protocol);
            &&& cut ==> !passes
            &&& !cut && !g.explicit ==> passes
            &&& !cut && g.explicit && air ==> (passes <==> graph::neighbors(g, a).contains(b))
            &&& !cut && g.explicit && !air ==> (passes <==> exists|i: int|
                0 <= i < g.wire_links.len() && (#[trigger] g.wire_links[i]).protocol == protocol
                    && g.wire_links[i].nodes.contains(a) && g.wire_links[i].nodes.contains(b))
        }),
{
}

/// The names of nodes as a topology lists them.
pub open spec fn listed_nodes(ids: Seq<u32>) -> Seq<NodeIdView> {
    Seq::new(ids.len(), |i: int| NodeIdView::Name(text::decimal(ids[i] as nat)))
}

proof fn lemma_link_ids(ids: Seq<u32>, valid: Seq<u32>, i: int)
    requires
        0 <= i <= ids.len(),
        forall|j: int| 0 <= j < ids.len() ==> valid.contains(#[trigger] ids[j]),
    ensures
        graph::link_ids(listed_nodes(ids), valid, i, ids.take(i)) == Ok::<
            Seq<u32>,
            TopologyErrorView,
        >(ids),
    decreases ids.len() - i,
{
    if i < ids.len() {
        text::law_decimal_reads_back(ids[i] as nat, u32::MAX as nat);
        assert(ids.take(i).push(ids[i]) =~= ids.take(i + 1));
        assert(valid.contains(ids[i]));
        lemma_link_ids(ids, valid, i + 1);
    } else {
        assert(ids.take(i) =~= ids);
    }
}

/// A link is built with the nodes that it lists, in order, if all of them are known; the first that
/// is not is named.
pub proof fn law_link_nodes(ids: Seq<u32>, valid: Seq<u32>, bad: u32, rest: Seq<NodeIdView>)
    requires
        forall|j: int| 0 <= j < ids.len() ==> valid.contains(#[trigger] ids[j]),
        !valid.contains(bad),
    ensures
        graph::link_ids(listed_nodes(ids), valid, 0, Seq::empty()) == Ok::<
            Seq<u32>,
            TopologyErrorView,
        >(ids),
        graph::link_ids(
            listed_nodes(ids).push(NodeIdView::Name(text::decimal(bad as nat))) + rest,
            valid,
            0,
            Seq::empty(),
        ) == Err::<Seq<u32>, TopologyErrorView>(TopologyErrorView::UnknownNode(bad)),
{
    assert(ids.take(0) =~= Seq::<u32>::empty());
    lemma_link_ids(ids, valid, 0);
    lemma_unknown_node(ids, valid, bad, rest, 0, Seq::empty());
}

proof fn lemma_unknown_node(
    ids: Seq<u32>,
    valid: Seq<u32>,
    bad: u32,
    rest: Seq<NodeIdView>,
    i: int,
    found: Seq<u32>,
)
    requires
        0 <= i <= ids.len(),
        forall|j: int| 0 <= j < ids.len() ==> valid.contains(#[trigger] ids[j]),
        !valid.contains(bad),
    ensures
        graph::link_ids(
            listed_nodes(ids).push(NodeIdView::Name(text::decimal(bad as nat))) + rest,
            valid,
            i,
            found,
        ) == Err::<Seq<u32>, TopologyErrorView>(TopologyErrorView::UnknownNode(bad)),
    decreases ids.len() - i,
{
    let all = listed_nodes(ids).push(NodeIdView::Name(text::decimal(bad as nat))) + rest;
    if i < ids.len() {
        text::law_decimal_reads_back(ids[i] as nat, u32::MAX as nat);
        assert(all[i] == listed_nodes(ids)[i]);
        assert(valid.contains(ids[i]));
        lemma_unknown_node(ids, valid, bad, rest, i + 1, found.push(ids[i]));
    } else {
        text::law_decimal_reads_back(bad as nat, u32::MAX as nat);
        assert(all[i] == NodeIdView::Name(text::decimal(bad as nat)));
    }
}

/// Each link keeps its protocol and its rate, and has the nodes that it lists.
pub proof fn law_built_links(
    specs: Seq<LinkSpecView>,
    valid: Seq<u32>,
    i: int,
    links: Seq<WireLinkView>,
    routes: Routes,
    k: int,
)
    requires
        0 <= i <= specs.len(),
        graph::built_links(specs, valid, i, links, routes) is Ok,
    ensures
        ({
            let built = graph::built_links(specs, valid, i, links, routes)->Ok_0.0;
            &&& built.len() == links.len() + specs.len() - i
            &&& built.take(links.len() as int) == links
            &&& i <= k < specs.len() ==> ({
                let link = built[links.len() + k - i];
                &&& link.protocol == specs[k].protocol
                &&& link.baud == specs[k].baud
                &&& graph::link_ids(specs[k].nodes, valid, 0, Seq::empty()) == Ok::<
                    Seq<u32>,
                    TopologyErrorView,
                >(link.nodes)
            })
        }),
    decreases specs.len() - i,
{
    if i < specs.len() {
        let nodes = graph::link_ids(specs[i].nodes, valid, 0, Seq::empty())->Ok_0;
        let link = WireLinkView { protocol: specs[i].protocol, nodes, baud: specs[i].baud };
        let more = links.push(link);
        let next = graph::link_routes(routes, nodes, 0);
        law_built_links(specs, valid, i + 1, more, next, k);
        let built = graph::built_links(specs, valid, i, links, routes)->Ok_0.0;
        assert(built.take(links.len() as int) =~= built.take(more.len() as int).take(
            links.len() as int,
        ));
        assert(more.take(links.len() as int) =~= links);
        assert(built[links.len() as int] == built.take(more.len() as int)[links.len() as int]);
    } else {
        assert(links.take(links.len() as int) =~= links);
    }
}

/// A topology sets the limit, the seed and the way of transport; what it does not set is as usual.
/// Nothing is cut at first, and the links count as laid down.
pub proof fn law_topology_settings(w: WorldView, g: GraphView, t: TopologySpecView, seed: u64)
    requires
        graph::graph_of(w) == Ok::<GraphView, TopologyErrorView>(g),
    ensures
        w.topology == Some(t) ==> ({
            &&& g.explicit
            &&& g.drops == Set::<(u32, u32)>::empty()
            &&& t.limit is Some ==> g.limit == t.limit->0
            &&& t.limit is None ==> g.limit == graph::DEFAULT_MESSAGE_LIMIT
            &&& t.transport is Some ==> g.transport == t.transport->0
            &&& t.transport is None ==> g.transport == Transport::Zenoh
            &&& t.seed is None ==> g.seed == 0
            &&& t.seed == Some(text::decimal(seed as nat)) ==> g.seed == seed
            &&& g.wire_links.len() == t.links.len()
            &&& g.wireless is Some <==> t.wireless is Some
            &&& t.wireless is Some ==> g.wireless->0.medium == t.wireless->0.medium && g.range_bits
                == t.wireless->0.max_range_bits
        }),
        w.topology is None ==> !g.explicit && g.wire_links.len() == 0 && g.wireless is None
            && g.routes.len() == 0 && g.limit == graph::DEFAULT_MESSAGE_LIMIT && g.seed == 0,
{
    text::law_decimal_reads_back(seed as nat, u64::MAX as nat);
    if w.topology == Some(t) {
        let valid = graph::valid_ids(w)->Ok_0;
        law_built_links(t.links, valid, 0, Seq::empty(), Seq::empty(), 0);
    }
}

/// A world that lists nodes both in its topology and by the numbers of its peripherals is refused.
pub proof fn law_split_brain(w: WorldView, t: TopologySpecView, i: int)
    requires
        w.topology == Some(t),
        t.nodes.len() > 0,
        0 <= i < w.peripherals.len(),
        topology::id_of(w.peripherals[i]) is Some,
    ensures
        graph::graph_of(w) is Err,
        graph::graph_of(w)->Err_0 is SplitBrainError,
{
}

/// A control message sets the way between the two nodes that it names: a sure loss cuts it, a
/// loss that is none restores both ways. A message that cannot be read, or names no number, is
/// refused; one that leaves something out changes nothing.
pub proof fn law_control_messages(
    drops: Set<(u32, u32)>,
    message: Seq<char>,
    a: u32,
    b: u32,
    bits: u64,
)
    ensures
        ({
            let from = json::json_text_field_of(message, "from"@);
            let to = json::json_text_field_of(message, "to"@);
            let loss = json::json_number_field_of(message, "drop_probability"@);
            let then = control::control_after(drops, message);
            let named = from == Some(Some(text::decimal(a as nat))) && to == Some(
                Some(text::decimal(b as nat)),
            );
            &&& from is None || to is None || loss is None ==> then is Err && then->Err_0
                is InvalidJson
            &&& from is Some && to is Some && loss is Some && (from->0 is None || to->0 is None
                || loss->0 is None) ==> then == Ok::<Set<(u32, u32)>, ControlErrorView>(drops)
            &&& named && loss == Some(Some(bits)) ==> then == Ok::<
                Set<(u32, u32)>,
                ControlErrorView,
            >(control::drops_after(drops, a, b, control::level_of(bits)))
            &&& from is Some && from->0 is Some && text::parsed_unsigned(
                from->0->0,
                u32::MAX as nat,
            ) is None && to is Some && to->0 is Some && loss is Some && loss->0 is Some
                ==> then == Err::<Set<(u32, u32)>, ControlErrorView>(
                ControlErrorView::InvalidNode(from->0->0),
            )
        }),
{
    text::law_decimal_reads_back(a as nat, u32::MAX as nat);
    text::law_decimal_reads_back(b as nat, u32::MAX as nat);
}

/// Over a socket a word that a node is done comes on the topic of the node and counts for it, for all
/// its links; one that cannot be read is said to be so. A transmission is taken as over the bus.
pub proof fn law_socket_words(
    s: SessionView,
    routes: Routes,
    links: Seq<Seq<u32>>,
    sender: u32,
    node: u32,
    payload: Seq<u8>,
    carried: Option<CarriedView>,
    done: DoneView,
    base: Seq<char>,
)
    requires
        !session::is_link_topic(base + "/tx"@),
    ensures
        ({
            let topic = "sim/coord/done/"@ + text::decimal(node as nat);
            &&& steps::socket_message(
                s,
                routes,
                links,
                sender,
                topic,
                payload,
                carried,
                Some(done),
            ) == steps::done_word(s, routes, Some(links), Some(node), done)
            &&& steps::socket_message(s, routes, links, sender, topic, payload, carried, None) == (
                s,
                StepView::Unreadable,
            )
        }),
        steps::socket_message(
            s,
            routes,
            links,
            sender,
            base + "/tx"@,
            payload,
            carried,
            Some(done),
        ) == steps::transmission(s, routes, base + "/tx"@, carried),
{
    let id = text::decimal(node as nat);
    let topic = "sim/coord/done/"@ + id;
    reveal_strlit("sim/coord/done/");
    reveal_strlit("sim/ch/");
    reveal_strlit("sim");
    reveal_strlit("coord");
    reveal_strlit("done");
    reveal_strlit("/tx");
    text::lemma_decimal_value(node as nat);
    text_laws::law_decimal_digits(node as nat);
    frame_laws::law_done_topic_reads_back("sim"@, "coord"@, node, "done"@);
    assert("sim"@ + seq!['/'] + ("coord"@ + seq!['/'] + ("done"@ + seq!['/'] + id)) =~= topic);
    assert(topic[5] == 'o');
    if text::has_prefix(topic, "sim/ch/"@) {
        assert(topic.take(7)[5] == "sim/ch/"@[5]);
    }
    assert(topic.last() == id.last());
    if text::has_suffix(topic, "/tx"@) {
        assert(topic.skip(topic.len() - 3)[2] == 'x');
    }
    session_laws::law_topic_kinds(base, id);
}

} // verus!
