//! How the stand-alone coordinator takes nodes through its phases.
use virtmcu::coordination::{
    CoordinatorAction, CoordinatorConfig, CoordinatorEvent, LinkConfig, LinkTable,
};
use virtmcu::virtmcu_coord::coordinator::CoordinatorState;


fn create_config() -> CoordinatorConfig {
    let mut links = LinkTable::new();
    links.insert(
        "link0".into(),
        LinkConfig {
            link_id: 10,
            target_nodes: vec![0, 1],
            delay_ns: 0,
        },
    );
    CoordinatorConfig {
        expected_nodes: 2,
        links,
        max_messages_per_node: 10,
    }
}

#[test]
fn test_full_handshake_two_nodes() {
    let mut state = CoordinatorState::new(create_config());

    // Node 0 joins
    let actions = state.apply(CoordinatorEvent::NodeJoined { node_id: 0 });
    assert_eq!(actions, vec![]);

    // Node 1 joins -> transitions to AwaitingLinks
    let actions = state.apply(CoordinatorEvent::NodeJoined { node_id: 1 });
    assert_eq!(actions, vec![]);

    // Node 0 registers link0
    let actions = state.apply(CoordinatorEvent::LinkRegister {
        node_id: 0,
        link_name: "link0".into(),
    });
    assert_eq!(
        actions,
        vec![CoordinatorAction::SendLinkAck {
            node_id: 0,
            link_id: 10
        }]
    );

    // Node 1 registers link0 -> finishes AwaitingLinks
    let actions = state.apply(CoordinatorEvent::LinkRegister {
        node_id: 1,
        link_name: "link0".into(),
    });
    assert_eq!(
        actions,
        vec![
            CoordinatorAction::SendLinkAck {
                node_id: 1,
                link_id: 10
            },
            CoordinatorAction::BroadcastClockStart { release_quantum: 0 }
        ]
    );
}

#[test]
fn test_early_link_register_buffered_and_replayed() {
    let mut state = CoordinatorState::new(create_config());

    // Node 0 registers link0 BEFORE joining
    let actions = state.apply(CoordinatorEvent::LinkRegister {
        node_id: 0,
        link_name: "link0".into(),
    });
    assert_eq!(actions, vec![]);

    // Node 0 joins
    let actions = state.apply(CoordinatorEvent::NodeJoined { node_id: 0 });
    assert_eq!(actions, vec![]);

    // Node 1 joins -> transitions, replays buffered LinkRegister for node 0
    let actions = state.apply(CoordinatorEvent::NodeJoined { node_id: 1 });
    assert_eq!(
        actions,
        vec![CoordinatorAction::SendLinkAck {
            node_id: 0,
            link_id: 10
        }]
    );
}

#[test]
fn test_all_early_link_registers_trigger_clock_start_on_last_join() {
    let mut state = CoordinatorState::new(create_config());

    state.apply(CoordinatorEvent::LinkRegister {
        node_id: 0,
        link_name: "link0".into(),
    });
    state.apply(CoordinatorEvent::LinkRegister {
        node_id: 1,
        link_name: "link0".into(),
    });

    state.apply(CoordinatorEvent::NodeJoined { node_id: 0 });

    let actions = state.apply(CoordinatorEvent::NodeJoined { node_id: 1 });
    assert_eq!(
        actions,
        vec![
            CoordinatorAction::SendLinkAck {
                node_id: 0,
                link_id: 10
            },
            CoordinatorAction::SendLinkAck {
                node_id: 1,
                link_id: 10
            },
            CoordinatorAction::BroadcastClockStart { release_quantum: 0 }
        ]
    );
}

fn setup_simulation_phase() -> CoordinatorState {
    let mut state = CoordinatorState::new(create_config());
    state.apply(CoordinatorEvent::NodeJoined { node_id: 0 });
    state.apply(CoordinatorEvent::NodeJoined { node_id: 1 });
    state.apply(CoordinatorEvent::LinkRegister {
        node_id: 0,
        link_name: "link0".into(),
    });
    state.apply(CoordinatorEvent::LinkRegister {
        node_id: 1,
        link_name: "link0".into(),
    });
    state
}

#[test]
fn test_barrier_withholds_clock_start_until_all_nodes_done() {
    let mut state = setup_simulation_phase();

    let actions = state.apply(CoordinatorEvent::QuantumDone {
        node_id: 0,
        quantum: 0,
        vtime_ns: 1000,
    });
    assert_eq!(actions, vec![]);

    let actions = state.apply(CoordinatorEvent::QuantumDone {
        node_id: 1,
        quantum: 0,
        vtime_ns: 1000,
    });
    assert_eq!(
        actions,
        vec![CoordinatorAction::BroadcastClockStart { release_quantum: 1 }]
    );
}

#[test]
fn test_three_consecutive_quanta() {
    let mut state = setup_simulation_phase();

    for q in 0..3 {
        let actions = state.apply(CoordinatorEvent::QuantumDone {
            node_id: 0,
            quantum: q,
            vtime_ns: (q + 1) * 1000,
        });
        assert_eq!(actions, vec![]);

        let actions = state.apply(CoordinatorEvent::QuantumDone {
            node_id: 1,
            quantum: q,
            vtime_ns: (q + 1) * 1000,
        });
        assert_eq!(
            actions,
            vec![CoordinatorAction::BroadcastClockStart {
                release_quantum: q + 1
            }]
        );
    }
}

#[test]
fn test_message_buffered_then_routed_at_quantum_boundary() {
    let mut state = setup_simulation_phase();

    let actions = state.apply(CoordinatorEvent::SimulationMessage {
        src_node_id: 0,
        link_id: 10,
        delivery_vtime_ns: 500,
        sequence_number: 1,
        payload: vec![1, 2, 3],
    });
    assert_eq!(actions, vec![]);

    state.apply(CoordinatorEvent::QuantumDone {
        node_id: 0,
        quantum: 0,
        vtime_ns: 1000,
    });

    let actions = state.apply(CoordinatorEvent::QuantumDone {
        node_id: 1,
        quantum: 0,
        vtime_ns: 1000,
    });
    assert_eq!(
        actions,
        vec![
            CoordinatorAction::RouteMessage {
                target_nodes: vec![1],
                link_id: 10,
                delivery_vtime_ns: 500,
                sequence_number: 1,
                payload: vec![1, 2, 3],
            },
            CoordinatorAction::BroadcastClockStart { release_quantum: 1 }
        ]
    );
}

#[test]
fn test_future_message_held_across_quantum_boundary() {
    let mut state = setup_simulation_phase();

    state.apply(CoordinatorEvent::SimulationMessage {
        src_node_id: 0,
        link_id: 10,
        delivery_vtime_ns: 2000,
        sequence_number: 1,
        payload: vec![1],
    });

    state.apply(CoordinatorEvent::QuantumDone {
        node_id: 0,
        quantum: 0,
        vtime_ns: 1000,
    });
    let actions = state.apply(CoordinatorEvent::QuantumDone {
        node_id: 1,
        quantum: 0,
        vtime_ns: 1000,
    });
    assert_eq!(
        actions,
        vec![CoordinatorAction::BroadcastClockStart { release_quantum: 1 }]
    );

    state.apply(CoordinatorEvent::QuantumDone {
        node_id: 0,
        quantum: 1,
        vtime_ns: 2000,
    });
    let actions = state.apply(CoordinatorEvent::QuantumDone {
        node_id: 1,
        quantum: 1,
        vtime_ns: 2000,
    });
    assert_eq!(
        actions,
        vec![
            CoordinatorAction::RouteMessage {
                target_nodes: vec![1],
                link_id: 10,
                delivery_vtime_ns: 2000,
                sequence_number: 1,
                payload: vec![1],
            },
            CoordinatorAction::BroadcastClockStart { release_quantum: 2 }
        ]
    );
}

#[test]
fn test_canonical_sort_same_vtime_by_src_then_seq() {
    let mut config = create_config();
    config.expected_nodes = 3;
    config.links.insert(
        "link0".into(),
        LinkConfig {
            link_id: 10,
            target_nodes: vec![0, 1, 2],
            delay_ns: 0,
        },
    );
    let mut state = CoordinatorState::new(config);

    for i in 0..3 {
        state.apply(CoordinatorEvent::NodeJoined { node_id: i });
    }
    for i in 0..3 {
        state.apply(CoordinatorEvent::LinkRegister {
            node_id: i,
            link_name: "link0".into(),
        });
    }

    // Node 1 seq 2
    state.apply(CoordinatorEvent::SimulationMessage {
        src_node_id: 1,
        link_id: 10,
        delivery_vtime_ns: 1000,
        sequence_number: 2,
        payload: vec![1],
    });
    // Node 0 seq 1
    state.apply(CoordinatorEvent::SimulationMessage {
        src_node_id: 0,
        link_id: 10,
        delivery_vtime_ns: 1000,
        sequence_number: 1,
        payload: vec![2],
    });
    // Node 1 seq 1
    state.apply(CoordinatorEvent::SimulationMessage {
        src_node_id: 1,
        link_id: 10,
        delivery_vtime_ns: 1000,
        sequence_number: 1,
        payload: vec![3],
    });

    state.apply(CoordinatorEvent::QuantumDone {
        node_id: 0,
        quantum: 0,
        vtime_ns: 1000,
    });
    state.apply(CoordinatorEvent::QuantumDone {
        node_id: 1,
        quantum: 0,
        vtime_ns: 1000,
    });
    let actions = state.apply(CoordinatorEvent::QuantumDone {
        node_id: 2,
        quantum: 0,
        vtime_ns: 1000,
    });

    assert_eq!(actions.len(), 4); // 3 routes + 1 broadcast
    match &actions[0] {
        CoordinatorAction::RouteMessage {
            sequence_number,
            ..
        } => assert_eq!(*sequence_number, 1),
        _ => panic!("Expected route"),
    }
    match &actions[1] {
        CoordinatorAction::RouteMessage {
            sequence_number,
            ..
        } => assert_eq!(*sequence_number, 1),
        _ => panic!("Expected route"),
    }
    match &actions[2] {
        CoordinatorAction::RouteMessage {
            sequence_number,
            ..
        } => assert_eq!(*sequence_number, 2),
        _ => panic!("Expected route"),
    }
}

#[test]
fn test_node_disconnected_aborts_in_simulation_phase() {
    let mut state = setup_simulation_phase();
    let actions = state.apply(CoordinatorEvent::NodeDisconnected { node_id: 0 });
    assert!(matches!(
        actions[0],
        CoordinatorAction::AbortSimulation { .. }
    ));
}

#[test]
fn test_node_disconnected_aborts_in_awaiting_nodes_phase() {
    let mut state = CoordinatorState::new(create_config());
    let actions = state.apply(CoordinatorEvent::NodeDisconnected { node_id: 0 });
    assert!(matches!(
        actions[0],
        CoordinatorAction::AbortSimulation { .. }
    ));
}

#[test]
fn test_unknown_link_name_aborts() {
    let mut state = CoordinatorState::new(create_config());
    state.apply(CoordinatorEvent::NodeJoined { node_id: 0 });
    state.apply(CoordinatorEvent::NodeJoined { node_id: 1 });
    let actions = state.apply(CoordinatorEvent::LinkRegister {
        node_id: 0,
        link_name: "nonexistent".into(),
    });
    assert!(matches!(
        actions[0],
        CoordinatorAction::AbortSimulation { .. }
    ));
}

#[test]
fn test_duplicate_quantum_done_aborts() {
    let mut state = setup_simulation_phase();
    state.apply(CoordinatorEvent::QuantumDone {
        node_id: 0,
        quantum: 0,
        vtime_ns: 1000,
    });
    let actions = state.apply(CoordinatorEvent::QuantumDone {
        node_id: 0,
        quantum: 0,
        vtime_ns: 1000,
    });
    assert!(matches!(
        actions[0],
        CoordinatorAction::AbortSimulation { .. }
    ));
}

#[test]
fn test_quantum_done_outside_simulation_phase_aborts() {
    let mut state = CoordinatorState::new(create_config());
    let actions = state.apply(CoordinatorEvent::QuantumDone {
        node_id: 0,
        quantum: 0,
        vtime_ns: 1000,
    });
    assert!(matches!(
        actions[0],
        CoordinatorAction::AbortSimulation { .. }
    ));
}

#[test]
fn test_simulation_message_outside_simulation_phase_aborts() {
    let mut state = CoordinatorState::new(create_config());
    let actions = state.apply(CoordinatorEvent::SimulationMessage {
        src_node_id: 0,
        link_id: 10,
        delivery_vtime_ns: 1000,
        sequence_number: 1,
        payload: vec![],
    });
    assert!(matches!(
        actions[0],
        CoordinatorAction::AbortSimulation { .. }
    ));
}

#[test]
fn test_lookahead_node_completes_barrier_on_next_quantum() {
    let mut state = setup_simulation_phase();

    // Node 0 submits q=1 (lookahead)
    let actions = state.apply(CoordinatorEvent::QuantumDone {
        node_id: 0,
        quantum: 1,
        vtime_ns: 2000,
    });
    assert_eq!(actions, vec![]);

    // Node 1 submits q=0
    let actions = state.apply(CoordinatorEvent::QuantumDone {
        node_id: 1,
        quantum: 0,
        vtime_ns: 1000,
    });
    assert_eq!(actions, vec![]); // Needs node 0 for q=0

    // Node 0 submits q=0 -> releases q=0
    let actions = state.apply(CoordinatorEvent::QuantumDone {
        node_id: 0,
        quantum: 0,
        vtime_ns: 1000,
    });
    assert_eq!(
        actions,
        vec![CoordinatorAction::BroadcastClockStart { release_quantum: 1 }]
    );

    // Node 1 submits q=1 -> releases q=1 immediately since node 0 already did
    let actions = state.apply(CoordinatorEvent::QuantumDone {
        node_id: 1,
        quantum: 1,
        vtime_ns: 2000,
    });
    assert_eq!(
        actions,
        vec![CoordinatorAction::BroadcastClockStart { release_quantum: 2 }]
    );
}
