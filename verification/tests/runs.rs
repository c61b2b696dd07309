//! Whole runs of both coordinators, from the first node to the last quantum.
use virtmcu::coordination::{
    CoordinatorAction, CoordinatorConfig, CoordinatorEvent, LinkConfig, LinkTable, PendingMessage,
};
use virtmcu::deterministic_coordinator::barrier::{CoordMessage, QuantumBarrier};
use virtmcu::deterministic_coordinator::coordinator;
use virtmcu::deterministic_coordinator::topology::Protocol;
use virtmcu::virtmcu_coord::coordinator as stand_alone;

fn config() -> CoordinatorConfig {
    let mut links = LinkTable::new();
    let link = LinkConfig { link_id: 3, target_nodes: vec![0, 1], delay_ns: 0 };
    links.insert("can0".to_string(), link);
    CoordinatorConfig { expected_nodes: 2, links, max_messages_per_node: 8 }
}

fn joined(node_id: u32) -> CoordinatorEvent {
    CoordinatorEvent::NodeJoined { node_id }
}

fn registered(node_id: u32) -> CoordinatorEvent {
    CoordinatorEvent::LinkRegister { node_id, link_name: "can0".to_string() }
}

fn sent(src_node_id: u32, delivery_vtime_ns: u64, sequence_number: u64) -> CoordinatorEvent {
    CoordinatorEvent::SimulationMessage {
        src_node_id,
        link_id: 3,
        delivery_vtime_ns,
        sequence_number,
        payload: vec![],
    }
}

fn done(node_id: u32, quantum: u64) -> CoordinatorEvent {
    CoordinatorEvent::QuantumDone { node_id, quantum, vtime_ns: 1000 * (quantum + 1) }
}

fn events() -> Vec<CoordinatorEvent> {
    vec![
        registered(0),
        joined(0),
        joined(1),
        registered(1),
        sent(0, 1500, 1),
        sent(0, 400, 2),
        done(0, 0),
        sent(1, 300, 3),
        done(1, 0),
        sent(1, 2900, 4),
        done(1, 1),
        done(0, 1),
        done(0, 2),
        done(1, 2),
    ]
}

fn starts(actions: &[CoordinatorAction]) -> Vec<u64> {
    let mut list = Vec::new();
    for a in actions {
        if let CoordinatorAction::BroadcastClockStart { release_quantum } = a {
            list.push(*release_quantum);
        }
    }
    list
}

fn routed(actions: &[CoordinatorAction]) -> Vec<(u64, Vec<u32>)> {
    let mut list = Vec::new();
    for a in actions {
        if let CoordinatorAction::RouteMessage { sequence_number, target_nodes, .. } = a {
            list.push((*sequence_number, target_nodes.clone()));
        }
    }
    list
}

#[test]
fn quanta_are_released_one_after_the_other() {
    let mut state = coordinator::CoordinatorState::new(config());
    let mut actions = Vec::new();
    for e in events() {
        assert!(state.has_next_quantum());
        actions.extend(state.apply(e));
    }
    assert_eq!(starts(&actions), vec![0, 1, 2, 3]);
    assert_eq!(
        routed(&actions),
        vec![(3, vec![0]), (2, vec![1]), (1, vec![1]), (4, vec![0])]
    );
}

#[test]
fn stand_alone_quanta_are_released_one_after_the_other() {
    let mut state = stand_alone::CoordinatorState::new(config());
    let mut actions = Vec::new();
    for e in events() {
        assert!(state.has_next_quantum());
        actions.extend(state.apply(e));
    }
    assert_eq!(starts(&actions), vec![0, 1, 2, 3]);
    assert_eq!(
        routed(&actions),
        vec![(3, vec![0]), (2, vec![1]), (1, vec![1]), (4, vec![0])]
    );
}

#[test]
fn nothing_starts_before_every_node_has_joined() {
    let mut state = coordinator::CoordinatorState::new(config());
    for e in [registered(0), registered(1), joined(0), joined(0)] {
        assert_eq!(state.apply(e), vec![]);
    }
    assert_eq!(starts(&state.apply(joined(1))), vec![0]);
}

#[test]
fn quantum_ignores_the_order_of_the_nodes() {
    for order in [[0, 1], [1, 0]] {
        let mut state = stand_alone::CoordinatorState::new(config());
        for e in events().into_iter().take(4) {
            state.apply(e);
        }
        state.apply(sent(0, 400, 2));
        state.apply(sent(1, 300, 3));
        state.apply(sent(1, 5000, 4));
        assert_eq!(state.apply(done(order[0], 0)), vec![]);
        let actions = state.apply(done(order[1], 0));
        assert_eq!(routed(&actions), vec![(3, vec![0]), (2, vec![1])]);
        assert_eq!(starts(&actions), vec![1]);
    }
}

#[test]
fn disconnections_name_the_node() {
    let event = || CoordinatorEvent::NodeDisconnected { node_id: 7 };
    let reason = |actions: Vec<CoordinatorAction>| match &actions[..] {
        [CoordinatorAction::AbortSimulation { reason }] => reason.clone(),
        other => panic!("the run goes on: {:?}", other),
    };
    let mut state = coordinator::CoordinatorState::new(config());
    let mut other = stand_alone::CoordinatorState::new(config());
    assert_eq!(reason(state.apply(event())), "node 7 disconnected");
    assert_eq!(reason(other.apply(event())), "Node disconnected in AwaitingNodes");
    for e in [joined(0), joined(1)] {
        state.apply(e.clone());
        other.apply(e);
    }
    assert_eq!(reason(state.apply(event())), "node 7 disconnected");
    assert_eq!(reason(other.apply(event())), "Node disconnected in AwaitingLinks");
    for e in [registered(0), registered(1)] {
        state.apply(e.clone());
        other.apply(e);
    }
    assert_eq!(reason(state.apply(event())), "node 7 disconnected");
    assert_eq!(reason(other.apply(event())), "Node disconnected in Simulation");
}

#[test]
fn disconnections_change_nothing() {
    let mut state = coordinator::CoordinatorState::new(config());
    let abort = vec![CoordinatorAction::AbortSimulation { reason: "node 9 disconnected".to_string() }];
    let mut actions = Vec::new();
    for e in events() {
        assert_eq!(state.on_node_disconnected(9), abort);
        actions.extend(state.apply(e));
    }
    assert_eq!(starts(&actions), vec![0, 1, 2, 3]);
}

fn message(src: u32, vtime: u64) -> CoordMessage {
    CoordMessage {
        delivery_vtime_ns: vtime,
        src_node_id: src,
        dst_node_id: 9,
        sequence_number: 0,
        protocol: Protocol::Uart,
        payload: vec![],
    }
}

#[test]
fn round_ignores_every_order() {
    let orders = [[0, 1, 2], [0, 2, 1], [1, 0, 2], [1, 2, 0], [2, 0, 1], [2, 1, 0]];
    for order in orders {
        let mut barrier = QuantumBarrier::<CoordMessage>::new(3, 2);
        let mut released = None;
        for node in order {
            let sent = vec![message(node, 30), message(node, 10), message(node, 20)];
            released = barrier.submit_done(node, 0, 0, sent).unwrap();
        }
        let list: Vec<(u64, u32)> = released
            .unwrap()
            .iter()
            .map(|m| (m.delivery_vtime_ns, m.src_node_id))
            .collect();
        assert_eq!(list, vec![(10, 0), (10, 1), (10, 2), (20, 0), (20, 1), (20, 2)]);
    }
}

fn pending(src: u32, vtime: u64) -> PendingMessage {
    PendingMessage {
        src_node_id: src,
        link_id: 3,
        delivery_vtime_ns: vtime,
        sequence_number: 0,
        payload: vec![],
    }
}

#[test]
fn quantum_releases_what_was_handed_in() {
    let list = |released: Option<Vec<PendingMessage>>| -> Option<Vec<(u64, u32)>> {
        released.map(|l| l.iter().map(|m| (m.delivery_vtime_ns, m.src_node_id)).collect())
    };
    let mut barrier = coordinator::BarrierState::new(2, 2);
    let three = |src: u32| vec![pending(src, 30), pending(src, 10), pending(src, 20)];
    assert_eq!(list(barrier.submit_done(1, 0, three(1)).unwrap()), None);
    assert_eq!(list(barrier.submit_done(1, 1, three(1)).unwrap()), None);
    assert!(barrier.submit_done(1, 1, three(1)).is_err());
    assert!(barrier.submit_done(0, 2, three(0)).is_err());
    assert_eq!(
        list(barrier.submit_done(0, 0, vec![pending(0, 15)]).unwrap()),
        Some(vec![(10, 1), (15, 0), (20, 1)])
    );
    assert_eq!(barrier.quantum(), 1);
    assert_eq!(list(barrier.submit_done(0, 0, three(0)).unwrap()), None);
    assert_eq!(
        list(barrier.submit_done(0, 1, three(0)).unwrap()),
        Some(vec![(10, 0), (10, 1), (20, 0), (20, 1)])
    );
    assert_eq!(barrier.quantum(), 2);
}
