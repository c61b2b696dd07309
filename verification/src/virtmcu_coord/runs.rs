//! What holds of a whole run of the coordinator.
use vstd::prelude::*;

use crate::coordination;
use crate::coordination::{ActionView, ConfigView, EventView, PendingView, PhaseView};
use crate::virtmcu_coord::coordinator;
use crate::virtmcu_coord::laws;
use crate::provenance;
use crate::provenance::{Sent, Trace};

verus! {

/// The phase of a coordinator that has just been made.
pub open spec fn start() -> PhaseView {
    PhaseView::AwaitingNodes { joined: Set::empty(), buffered: Seq::empty() }
}

/// The phase after events, one after the other.
pub open spec fn phase_after(config: ConfigView, events: Seq<EventView>) -> PhaseView
    decreases events.len(),
{
    if events.len() == 0 {
        start()
    } else {
        coordinator::outcome(
            config,
            phase_after(config, events.drop_last()),
            events.last(),
        ).phase
    }
}

/// All that is to be done about events, one after the other.
pub open spec fn actions_of(config: ConfigView, events: Seq<EventView>) -> Seq<ActionView>
    decreases events.len(),
{
    if events.len() == 0 {
        Seq::empty()
    } else {
        actions_of(config, events.drop_last()) + coordinator::outcome(
            config,
            phase_after(config, events.drop_last()),
            events.last(),
        ).actions
    }
}

/// Each event finds a quantum after the open one.
pub open spec fn can_run(config: ConfigView, events: Seq<EventView>) -> bool
    decreases events.len(),
{
    events.len() == 0 || (can_run(config, events.drop_last()) && coordination::has_next_quantum(
        phase_after(config, events.drop_last()),
    ))
}

/// Where the messages of a run are.
pub open spec fn trace_of(config: ConfigView, events: Seq<EventView>) -> Trace
    decreases events.len(),
{
    if events.len() == 0 {
        provenance::no_trace()
    } else {
        let t = trace_of(config, events.drop_last());
        match (phase_after(config, events.drop_last()), events.last()) {
            (PhaseView::Simulation { batches, .. }, EventView::SimulationMessage { message }) =>
                if batches.contains_key(message.src_node_id) {
                    provenance::message_taken(t, message, events.len() - 1)
                } else {
                    t
                },
            (
                PhaseView::Simulation { barrier, batches },
                EventView::QuantumDone { node_id, quantum, vtime_ns },
            ) => if batches.contains_key(node_id) {
                provenance::done_taken(t, barrier, node_id, quantum, vtime_ns, false)
            } else {
                t
            },
            _ => t,
        }
    }
}

/// What holds after each event.
pub open spec fn run_inv(config: ConfigView, events: Seq<EventView>) -> bool {
    let t = trace_of(config, events);
    let actions = actions_of(config, events);
    let phase = phase_after(config, events);
    &&& provenance::starts(actions) == provenance::starts_by(phase)
    &&& provenance::routes(actions) == coordination::routed(
        config.links,
        provenance::messages_of(t.released),
    )
    &&& match phase {
        PhaseView::Simulation { barrier, batches } => {
            &&& barrier.done.len() == config.expected_nodes
            &&& provenance::fits(t, barrier, batches)
            &&& provenance::is_sound(events, barrier, t)
            &&& provenance::flags_have_words(events, barrier)
        },
        _ => t == provenance::no_trace(),
    }
}

/// The simulation has just started, or has not.
spec fn may_have_started(config: ConfigView, phase: PhaseView) -> bool {
    phase is AwaitingLinks || phase == coordinator::simulation_start(config)
}

proof fn lemma_registered(
    config: ConfigView,
    phase: PhaseView,
    node_id: u32,
    name: Seq<char>,
)
    requires
        !(phase is AwaitingNodes),
    ensures
        ({
            let o = coordinator::registered(config, phase, node_id, name);
            &&& provenance::routes(o.actions) == Seq::<ActionView>::empty()
            &&& phase is Simulation ==> o.phase == phase && provenance::starts(o.actions)
                == Seq::<u64>::empty()
            &&& phase is AwaitingLinks ==> may_have_started(config, o.phase)
                && provenance::starts(o.actions) == provenance::starts_by(o.phase)
        }),
{
    let o = coordinator::registered(config, phase, node_id, name);
    provenance::lemma_one_action(o.actions[0]);
    assert(o.actions.len() == 1 ==> o.actions =~= seq![o.actions[0]]);
    if o.actions.len() == 2 {
        provenance::lemma_one_action(o.actions[1]);
        provenance::lemma_actions_concat(seq![o.actions[0]], seq![o.actions[1]]);
        assert(o.actions =~= seq![o.actions[0]] + seq![o.actions[1]]);
        assert(provenance::starts(o.actions) =~= provenance::up_to(0));
        assert(provenance::routes(o.actions) =~= Seq::empty());
    }
}

proof fn lemma_replayed(config: ConfigView, phase: PhaseView, regs: Seq<(u32, Seq<char>)>)
    requires
        phase is AwaitingLinks,
    ensures
        ({
            let o = coordinator::replayed(config, phase, regs);
            &&& may_have_started(config, o.phase)
            &&& provenance::routes(o.actions) == Seq::<ActionView>::empty()
            &&& provenance::starts(o.actions) == provenance::starts_by(o.phase)
        }),
    decreases regs.len(),
{
    if regs.len() > 0 {
        let front = coordinator::replayed(config, phase, regs.drop_last());
        let last = coordinator::registered(config, front.phase, regs.last().0, regs.last().1);
        lemma_replayed(config, phase, regs.drop_last());
        lemma_registered(config, front.phase, regs.last().0, regs.last().1);
        provenance::lemma_actions_concat(front.actions, last.actions);
        assert(Seq::<ActionView>::empty() + Seq::<ActionView>::empty() =~= Seq::empty());
        assert(provenance::starts(front.actions) + provenance::starts(last.actions)
            =~= provenance::starts_by(last.phase));
    }
}

proof fn lemma_step_apart(config: ConfigView, events: Seq<EventView>)
    requires
        events.len() > 0,
    ensures
        ({
            let before = actions_of(config, events.drop_last());
            let phase = phase_after(config, events.drop_last());
            let more = coordinator::outcome(config, phase, events.last()).actions;
            let all = actions_of(config, events);
            &&& provenance::starts(all) == provenance::starts(before) + provenance::starts(more)
            &&& provenance::routes(all) == provenance::routes(before) + provenance::routes(more)
        }),
{
    let phase = phase_after(config, events.drop_last());
    provenance::lemma_actions_concat(
        actions_of(config, events.drop_last()),
        coordinator::outcome(config, phase, events.last()).actions,
    );
}

proof fn lemma_done_step(
    config: ConfigView,
    events: Seq<EventView>,
    node_id: u32,
    quantum: u64,
    vtime_ns: u64,
)
    requires
        run_inv(config, events),
        phase_after(config, events) is Simulation,
        phase_after(config, events)->batches.contains_key(node_id),
        coordination::has_next_quantum(phase_after(config, events)),
    ensures
        run_inv(config, events.push(EventView::QuantumDone { node_id, quantum, vtime_ns })),
{
    let event = EventView::QuantumDone { node_id, quantum, vtime_ns };
    let now = events.push(event);
    assert(now.drop_last() =~= events);
    let t = trace_of(config, events);
    let phase = phase_after(config, events);
    let b = phase->barrier;
    let batches = phase->batches;
    let o = coordinator::outcome(config, phase, event);
    let after = provenance::done_taken(t, b, node_id, quantum, vtime_ns, false);
    assert(trace_of(config, now) == after);
    lemma_step_apart(config, now);
    provenance::lemma_sound_done(events, b, t, node_id, quantum, vtime_ns, false);
    provenance::lemma_fits_done(t, b, batches, node_id, quantum, vtime_ns, false);
    let due = coordination::due(batches[node_id], vtime_ns);
    let (next, result) = coordinator::submitted(b, node_id, quantum, due);
    let flags = provenance::flags_after(b, node_id, quantum);
    assert(next.current == flags.current && next.done == flags.done && next.next_done
        == flags.next_done);
    let left = o.phase->batches;
    assert forall|k: u32| #[trigger]
        provenance::messages_of(provenance::batch_of(after.batches, k)) == if left.contains_key(
            k,
        ) {
            left[k]
        } else {
            Seq::empty()
        } by {
        assert(k != node_id ==> left.contains_key(k) == batches.contains_key(k));
    }
    assert(provenance::is_sound(now, next, after));
    assert(provenance::flags_have_words(now, next));
    match result {
        Ok(Some(released)) => {
            let routed = coordination::routed(config.links, released);
            let began = ActionView::BroadcastClockStart { release_quantum: next.current };
            provenance::lemma_routed_actions(config.links, released);
            provenance::lemma_actions_concat(routed, seq![began]);
            provenance::lemma_one_action(began);
            assert(o.actions =~= routed + seq![began]);
            provenance::lemma_routed_concat(
                config.links,
                provenance::messages_of(t.released),
                released,
            );
            assert(routed + Seq::<ActionView>::empty() =~= routed);
            assert(provenance::up_to(b.current) + (Seq::<u64>::empty() + seq![next.current]) =~= provenance::up_to(
                next.current,
            ));
        },
        Ok(None) => {
            assert(o.actions =~= Seq::empty());
            assert(provenance::messages_of(t.released) + Seq::empty() =~= provenance::messages_of(
                t.released,
            ));
            provenance::lemma_nothing_more(actions_of(config, events));
        },
        Err(e) => {
            provenance::lemma_one_action(o.actions[0]);
            assert(o.actions =~= seq![o.actions[0]]);
            assert(provenance::messages_of(t.released) + Seq::empty() =~= provenance::messages_of(
                t.released,
            ));
            provenance::lemma_nothing_more(actions_of(config, events));
        },
    }
}

proof fn lemma_run(config: ConfigView, events: Seq<EventView>)
    requires
        can_run(config, events),
    ensures
        run_inv(config, events),
    decreases events.len(), 1int,
{
    if events.len() == 0 {
        assert(provenance::messages_of(provenance::no_trace().released) =~= Seq::empty());
    } else {
        lemma_run_step(config, events);
    }
}

proof fn lemma_run_step(config: ConfigView, events: Seq<EventView>)
    requires
        events.len() > 0,
        can_run(config, events),
    ensures
        run_inv(config, events),
    decreases events.len(), 0int,
{
    let before = events.drop_last();
    let event = events.last();
    assert(events =~= before.push(event));
    lemma_run(config, before);
    lemma_step_apart(config, events);
    provenance::lemma_nothing_more(actions_of(config, before));
    let t = trace_of(config, before);
    let phase = phase_after(config, before);
    let o = coordinator::outcome(config, phase, event);
    provenance::lemma_one_action(o.actions[0]);
    assert(o.actions.len() == 0 ==> o.actions =~= Seq::empty());
    assert(o.actions.len() == 1 ==> o.actions =~= seq![o.actions[0]]);
    match phase {
        PhaseView::Simulation { barrier, batches } => {
            provenance::lemma_sound_later(before, event, barrier, t);
            match event {
                EventView::QuantumDone { node_id, quantum, vtime_ns } => {
                    if batches.contains_key(node_id) {
                        lemma_done_step(config, before, node_id, quantum, vtime_ns);
                    }
                },
                EventView::SimulationMessage { message } => {
                    provenance::lemma_sound_message(before, message, barrier, t);
                    provenance::lemma_fits_message(
                        t,
                        barrier,
                        batches,
                        message,
                        before.len() as int,
                    );
                },
                EventView::LinkRegister { node_id, link_name } => {
                    lemma_registered(config, phase, node_id, link_name);
                },
                _ => {},
            }
        },
        _ => {
            assert(coordination::routed(config.links, provenance::messages_of(t.released))
                =~= Seq::empty());
            match event {
                EventView::NodeJoined { node_id } => {
                    if let PhaseView::AwaitingNodes { joined, buffered } = phase {
                        lemma_replayed(
                            config,
                            PhaseView::AwaitingLinks {
                                remaining: coordination::expected_pairs(config.links),
                            },
                            buffered,
                        );
                        assert(seq![0u64] =~= provenance::up_to(0));
                    }
                },
                EventView::LinkRegister { node_id, link_name } => {
                    if phase is AwaitingLinks {
                        lemma_registered(config, phase, node_id, link_name);
                    }
                },
                _ => {},
            }
            assert(provenance::starts(actions_of(config, before)) == Seq::<u64>::empty());
            assert(Seq::<u64>::empty() + provenance::starts(o.actions) =~= provenance::starts(
                o.actions,
            ));
            assert(Seq::<ActionView>::empty() + provenance::routes(o.actions)
                =~= provenance::routes(o.actions));
            if o.phase is Simulation {
                let b = o.phase->barrier;
                provenance::lemma_sound_start(events, b, config.expected_nodes);
                assert(provenance::fits(provenance::no_trace(), b, o.phase->batches)) by {
                    assert(provenance::messages_of(Seq::empty()) =~= Seq::<PendingView>::empty());
                }
            }
        },
    }
}

/// Over a whole run the clock is started for 0, 1, 2 and so on up to the open quantum, without a
/// gap and without a repeat; before the simulation it is not started at all.
pub proof fn law_quanta_are_released_in_order(config: ConfigView, events: Seq<EventView>)
    requires
        can_run(config, events),
    ensures
        provenance::starts(actions_of(config, events)) == provenance::starts_by(phase_after(config, events)),
{
    lemma_run(config, events);
}

/// The clock is started for a quantum after the first only by the word of a node that it is done
/// with the one before, by which every node has said so.
pub proof fn law_start_waits_for_every_node(
    config: ConfigView,
    events: Seq<EventView>,
    release_quantum: u64,
)
    requires
        events.len() > 0,
        can_run(config, events),
        release_quantum > 0,
        coordinator::outcome(
            config,
            phase_after(config, events.drop_last()),
            events.last(),
        ).actions.contains(ActionView::BroadcastClockStart { release_quantum }),
    ensures
        events.last() matches EventView::QuantumDone { quantum, .. } && quantum + 1
            == release_quantum,
        forall|node: int|
            0 <= node < config.expected_nodes ==> #[trigger] provenance::has_word(
                events,
                node,
                release_quantum - 1,
            ),
{
    let before = events.drop_last();
    let event = events.last();
    assert(events =~= before.push(event));
    lemma_run(config, before);
    let phase = phase_after(config, before);
    let o = coordinator::outcome(config, phase, event);
    match phase {
        PhaseView::Simulation { barrier, batches } => {
            laws::law_clock_starts_when_all_are_done(
                config,
                barrier,
                batches,
                event,
                release_quantum,
            );
            provenance::lemma_later_word(before, event);
            let node = event->QuantumDone_node_id;
            assert((node as int) as u32 == node);
            assert(provenance::is_word(events, before.len() as int, node, release_quantum - 1));
            assert forall|i: int| 0 <= i < config.expected_nodes implies #[trigger]
            provenance::has_word(events, i, release_quantum - 1) by {
                if i != node {
                    assert(barrier.done.update(node as int, true)[i]);
                    assert(barrier.done[i]);
                    assert(provenance::has_word(before, i, barrier.current as int));
                }
            }
        },
        _ => {
            lemma_early_starts(config, phase, event);
            let k = choose|k: int|
                0 <= k < o.actions.len() && o.actions[k] == (ActionView::BroadcastClockStart {
                    release_quantum,
                });
            provenance::lemma_start_is_listed(o.actions, k, release_quantum);
        },
    }
}

proof fn lemma_early_starts(config: ConfigView, phase: PhaseView, event: EventView)
    requires
        !(phase is Simulation),
    ensures
        ({
            let o = coordinator::outcome(config, phase, event);
            forall|i: int|
                0 <= i < provenance::starts(o.actions).len() ==> #[trigger] provenance::starts(
                    o.actions,
                )[i] == 0
        }),
{
    let o = coordinator::outcome(config, phase, event);
    provenance::lemma_nothing_more(o.actions);
    provenance::lemma_one_action(o.actions[0]);
    assert(o.actions.len() == 0 ==> o.actions =~= Seq::empty());
    assert(o.actions.len() == 1 ==> o.actions =~= seq![o.actions[0]]);
    match event {
        EventView::NodeJoined { node_id } => {
            if let PhaseView::AwaitingNodes { joined, buffered } = phase {
                lemma_replayed(
                    config,
                    PhaseView::AwaitingLinks {
                        remaining: coordination::expected_pairs(config.links),
                    },
                    buffered,
                );
            }
        },
        EventView::LinkRegister { node_id, link_name } => {
            if phase is AwaitingLinks {
                lemma_registered(config, phase, node_id, link_name);
            }
        },
        _ => {},
    }
}

/// What a run routes are the messages that were released, one after the other.
pub proof fn law_routes_are_what_was_released(config: ConfigView, events: Seq<EventView>)
    requires
        can_run(config, events),
    ensures
        provenance::routes(actions_of(config, events)) == coordination::routed(
            config.links,
            provenance::messages_of(trace_of(config, events).released),
        ),
{
    lemma_run(config, events);
}

/// Each message that a run releases stems from its own earlier event, and none is released twice.
pub proof fn law_nothing_is_released_twice(config: ConfigView, events: Seq<EventView>)
    requires
        can_run(config, events),
    ensures
        ({
            let released = trace_of(config, events).released;
            &&& forall|i: int|
                0 <= i < released.len() ==> provenance::was_sent(events, #[trigger] released[i])
            &&& forall|i: int, j: int|
                0 <= i < j < released.len() ==> (#[trigger] released[i]).at != (
                #[trigger] released[j]).at
        }),
{
    lemma_run(config, events);
    match phase_after(config, events) {
        PhaseView::Simulation { barrier, .. } => {
            provenance::lemma_released_apart(events, barrier, trace_of(config, events));
        },
        _ => {},
    }
}

/// What an event releases was handed in before: after each message was sent, its source said that
/// it is done with the quantum that the event closes, at a time by which the message was due. What
/// was released earlier stays as it was.
pub proof fn law_released_was_handed_in(config: ConfigView, events: Seq<EventView>)
    requires
        events.len() > 0,
        can_run(config, events),
    ensures
        ({
            let earlier = trace_of(config, events.drop_last()).released;
            let released = trace_of(config, events).released;
            &&& earlier.len() <= released.len()
            &&& forall|i: int| 0 <= i < earlier.len() ==> #[trigger] released[i] == earlier[i]
            &&& forall|i: int|
                earlier.len() <= i < released.len() ==> phase_after(
                    config,
                    events.drop_last(),
                ) is Simulation && provenance::was_handed_in(
                    events,
                    #[trigger] released[i],
                    phase_after(config, events.drop_last())->barrier.current as int,
                )
        }),
{
    let before = events.drop_last();
    let event = events.last();
    assert(events =~= before.push(event));
    lemma_run(config, before);
    match (phase_after(config, before), event) {
        (
            PhaseView::Simulation { barrier, .. },
            EventView::QuantumDone { node_id, quantum, vtime_ns },
        ) => {
            provenance::lemma_sound_done(
                before,
                barrier,
                trace_of(config, before),
                node_id,
                quantum,
                vtime_ns,
                false,
            );
        },
        _ => {},
    }
}

/// `from` accounts for all that a run has routed: each routed message stems from its own earlier
/// event, with its link, time, number and payload. Those that the last event routes were handed in
/// before: after each was sent, its source said that it is done with the quantum that the event
/// closes, at a time by which the message was due.
pub open spec fn is_account(config: ConfigView, events: Seq<EventView>, from: Seq<Sent>) -> bool {
    let before = events.drop_last();
    let phase = phase_after(config, before);
    let earlier = provenance::routes(actions_of(config, before));
    let now = provenance::routes(coordinator::outcome(config, phase, events.last()).actions);
    &&& from.len() == earlier.len() + now.len()
    &&& forall|k: int|
        0 <= k < from.len() ==> provenance::was_sent(events, #[trigger] from[k]) && (if k
            < earlier.len() {
            earlier[k]
        } else {
            now[k - earlier.len()]
        }) == provenance::route_of(config.links, from[k].message)
    &&& forall|i: int, j: int|
        0 <= i < j < from.len() ==> (#[trigger] from[i]).at != (#[trigger] from[j]).at
    &&& forall|k: int|
        earlier.len() <= k < from.len() ==> phase is Simulation && provenance::was_handed_in(
            events,
            #[trigger] from[k],
            phase->barrier.current as int,
        )
    &&& now.len() > 0 ==> phase is Simulation && events.last() is QuantumDone
        && events.last()->quantum == phase->barrier.current
}

/// All that a run routes is accounted for: each message that an event routes stems from its own
/// earlier message, none is ever routed twice, and its source handed it in with its word for the
/// quantum that the event closes.
pub proof fn law_routes_are_accounted_for(config: ConfigView, events: Seq<EventView>)
    requires
        events.len() > 0,
        can_run(config, events),
    ensures
        exists|from: Seq<Sent>| is_account(config, events, from),
{
    let before = events.drop_last();
    let event = events.last();
    let phase = phase_after(config, before);
    let o = coordinator::outcome(config, phase, event);
    let all = trace_of(config, events).released;
    let old_released = trace_of(config, before).released;
    let more = all.skip(old_released.len() as int);
    law_routes_are_what_was_released(config, events);
    law_routes_are_what_was_released(config, before);
    law_nothing_is_released_twice(config, events);
    law_released_was_handed_in(config, events);
    assert(all =~= old_released + more);
    provenance::lemma_actions_concat(actions_of(config, before), o.actions);
    let earlier = provenance::routes(actions_of(config, before));
    let now = provenance::routes(o.actions);
    let from = provenance::origins(config.links, all);
    provenance::lemma_origins(config.links, all);
    provenance::lemma_origins(config.links, old_released);
    provenance::lemma_origins(config.links, more);
    provenance::lemma_origins_concat(config.links, old_released, more);
    provenance::lemma_origins_apart(config.links, all);
    let routes = provenance::routes(actions_of(config, events));
    assert(routes == earlier + now);
    assert forall|k: int| 0 <= k < from.len() implies provenance::was_sent(
        events,
        #[trigger] from[k],
    ) && (if k < earlier.len() {
        earlier[k]
    } else {
        now[k - earlier.len()]
    }) == provenance::route_of(config.links, from[k].message) by {
        assert(all.contains(from[k]));
        assert(routes[k] == provenance::route_of(config.links, from[k].message));
    }
    assert forall|k: int| earlier.len() <= k < from.len() implies phase is Simulation
        && provenance::was_handed_in(events, #[trigger] from[k], phase->barrier.current as int) by {
        assert(from[k] == provenance::origins(config.links, more)[k - earlier.len()]);
        assert(more.contains(from[k]));
        let i = choose|i: int| 0 <= i < more.len() && more[i] == from[k];
        assert(all[old_released.len() + i] == from[k]);
    }
    assert(is_account(config, events, from));
}

} // verus!
