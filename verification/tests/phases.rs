//! How a coordinator takes nodes through its phases.
use virtmcu::coordination::{
    CoordinatorAction, CoordinatorConfig, CoordinatorEvent, LinkConfig, LinkTable,
};
use virtmcu::deterministic_coordinator::coordinator::CoordinatorState;



fn two_node_one_link_config() -> CoordinatorConfig {
    let mut links = LinkTable::new();
    links.insert(
        "can0".to_string(),
        LinkConfig {
            link_id: 0,
            target_nodes: vec![0, 1],
            delay_ns: 0,
        },
    );
    CoordinatorConfig {
        expected_nodes: 2,
        links,
        max_messages_per_node: 1024,
    }
}

/// Drive a 2-node coordinator through join + link-registration up to
/// the first `BroadcastClockStart { release_quantum: 0 }`.
fn complete_handshake(state: &mut CoordinatorState) {
    let a = state.apply(CoordinatorEvent::NodeJoined { node_id: 0 });
    assert_eq!(a, vec![], "first join: no action");

    let a = state.apply(CoordinatorEvent::NodeJoined { node_id: 1 });
    assert_eq!(a, vec![], "second join: all nodes present but no links yet");

    let a = state.apply(CoordinatorEvent::LinkRegister {
        node_id: 0,
        link_name: "can0".to_string(),
    });
    assert_eq!(
        a,
        vec![CoordinatorAction::SendLinkAck {
            node_id: 0,
            link_id: 0
        }],
        "first link reg: ack only"
    );

    let a = state.apply(CoordinatorEvent::LinkRegister {
        node_id: 1,
        link_name: "can0".to_string(),
    });
    assert_eq!(
        a,
        vec![
            CoordinatorAction::SendLinkAck {
                node_id: 1,
                link_id: 0
            },
            CoordinatorAction::BroadcastClockStart { release_quantum: 0 },
        ],
        "last link reg: ack + clock start"
    );
}


#[test]
fn coordinator_test_full_handshake_two_nodes() {
    let mut state = CoordinatorState::new(two_node_one_link_config());
    complete_handshake(&mut state);
}

#[test]
fn coordinator_test_early_link_register_buffered_and_replayed() {
    let mut state = CoordinatorState::new(two_node_one_link_config());

    // Node 0's peripheral initializes and calls register_link before all nodes join.
    let early = state.apply(CoordinatorEvent::LinkRegister {
        node_id: 0,
        link_name: "can0".to_string(),
    });
    assert_eq!(early, vec![], "buffered: no ack during AwaitingNodes");

    let a = state.apply(CoordinatorEvent::NodeJoined { node_id: 0 });
    assert_eq!(a, vec![], "first join");

    // Joining the second node triggers phase transition and replays the buffer.
    let a = state.apply(CoordinatorEvent::NodeJoined { node_id: 1 });
    assert_eq!(
        a,
        vec![CoordinatorAction::SendLinkAck {
            node_id: 0,
            link_id: 0
        }],
        "phase transition replays buffered registration"
    );

    // Now node 1 registers normally.
    let a = state.apply(CoordinatorEvent::LinkRegister {
        node_id: 1,
        link_name: "can0".to_string(),
    });
    assert_eq!(
        a,
        vec![
            CoordinatorAction::SendLinkAck {
                node_id: 1,
                link_id: 0
            },
            CoordinatorAction::BroadcastClockStart { release_quantum: 0 },
        ]
    );
}

#[test]
fn coordinator_test_all_early_link_registers_trigger_clock_start_on_last_join() {
    let mut state = CoordinatorState::new(two_node_one_link_config());

    // Both nodes register links before either has officially joined.
    state.apply(CoordinatorEvent::LinkRegister {
        node_id: 0,
        link_name: "can0".to_string(),
    });
    state.apply(CoordinatorEvent::LinkRegister {
        node_id: 1,
        link_name: "can0".to_string(),
    });

    state.apply(CoordinatorEvent::NodeJoined { node_id: 0 });
    let a = state.apply(CoordinatorEvent::NodeJoined { node_id: 1 });

    // Both acks + clock start must all be returned from the final NodeJoined.
    assert!(
        a.contains(&CoordinatorAction::SendLinkAck {
            node_id: 0,
            link_id: 0
        }),
        "ack for node 0"
    );
    assert!(
        a.contains(&CoordinatorAction::SendLinkAck {
            node_id: 1,
            link_id: 0
        }),
        "ack for node 1"
    );
    assert!(
        a.contains(&CoordinatorAction::BroadcastClockStart { release_quantum: 0 }),
        "clock start"
    );
}


#[test]
fn coordinator_test_barrier_withholds_clock_start_until_all_nodes_done() {
    let mut state = CoordinatorState::new(two_node_one_link_config());
    complete_handshake(&mut state);

    let a = state.apply(CoordinatorEvent::QuantumDone {
        node_id: 0,
        quantum: 0,
        vtime_ns: 1_000,
    });
    assert_eq!(a, vec![], "first done: barrier not released");

    let a = state.apply(CoordinatorEvent::QuantumDone {
        node_id: 1,
        quantum: 0,
        vtime_ns: 1_000,
    });
    assert_eq!(
        a,
        vec![CoordinatorAction::BroadcastClockStart { release_quantum: 1 }],
        "second done: barrier releases quantum 1"
    );
}

#[test]
fn coordinator_test_three_consecutive_quanta() {
    let mut state = CoordinatorState::new(two_node_one_link_config());
    complete_handshake(&mut state);

    for quantum in 0u64..3 {
        let a = state.apply(CoordinatorEvent::QuantumDone {
            node_id: 0,
            quantum,
            vtime_ns: (quantum + 1) * 1_000,
        });
        assert_eq!(a, vec![], "quantum {quantum}: node 0 done, waiting");

        let a = state.apply(CoordinatorEvent::QuantumDone {
            node_id: 1,
            quantum,
            vtime_ns: (quantum + 1) * 1_000,
        });
        assert_eq!(
            a,
            vec![CoordinatorAction::BroadcastClockStart {
                release_quantum: quantum + 1
            }],
            "quantum {quantum}: released"
        );
    }
}


#[test]
fn coordinator_test_message_buffered_then_routed_at_quantum_boundary() {
    let mut state = CoordinatorState::new(two_node_one_link_config());
    complete_handshake(&mut state);

    // Node 0 sends a message before its QuantumDone.
    let a = state.apply(CoordinatorEvent::SimulationMessage {
        src_node_id: 0,
        link_id: 0,
        delivery_vtime_ns: 500,
        sequence_number: 1,
        payload: vec![0xDE, 0xAD],
    });
    assert_eq!(a, vec![], "message buffered");

    let a = state.apply(CoordinatorEvent::QuantumDone {
        node_id: 0,
        quantum: 0,
        vtime_ns: 1_000,
    });
    assert_eq!(a, vec![], "waiting for node 1");

    let a = state.apply(CoordinatorEvent::QuantumDone {
        node_id: 1,
        quantum: 0,
        vtime_ns: 1_000,
    });
    // Source node (0) excluded from target_nodes.
    assert_eq!(
        a,
        vec![
            CoordinatorAction::RouteMessage {
                target_nodes: vec![1],
                link_id: 0,
                delivery_vtime_ns: 500,
                sequence_number: 1,
                payload: vec![0xDE, 0xAD],
            },
            CoordinatorAction::BroadcastClockStart { release_quantum: 1 },
        ]
    );
}

#[test]
fn coordinator_test_future_message_held_across_quantum_boundary() {
    let mut state = CoordinatorState::new(two_node_one_link_config());
    complete_handshake(&mut state);

    // Message with delivery_vtime_ns beyond this quantum's end.
    state.apply(CoordinatorEvent::SimulationMessage {
        src_node_id: 0,
        link_id: 0,
        delivery_vtime_ns: 2_000,
        sequence_number: 1,
        payload: vec![0xFF],
    });

    // Quantum 0 ends at vtime=1000; message at 2000 is future.
    state.apply(CoordinatorEvent::QuantumDone {
        node_id: 0,
        quantum: 0,
        vtime_ns: 1_000,
    });
    let a = state.apply(CoordinatorEvent::QuantumDone {
        node_id: 1,
        quantum: 0,
        vtime_ns: 1_000,
    });
    assert_eq!(
        a,
        vec![CoordinatorAction::BroadcastClockStart { release_quantum: 1 }],
        "future message must NOT be routed in quantum 0"
    );

    // Quantum 1 ends at vtime=2000; message is now deliverable.
    state.apply(CoordinatorEvent::QuantumDone {
        node_id: 0,
        quantum: 1,
        vtime_ns: 2_000,
    });
    let a = state.apply(CoordinatorEvent::QuantumDone {
        node_id: 1,
        quantum: 1,
        vtime_ns: 2_000,
    });
    assert_eq!(
        a,
        vec![
            CoordinatorAction::RouteMessage {
                target_nodes: vec![1],
                link_id: 0,
                delivery_vtime_ns: 2_000,
                sequence_number: 1,
                payload: vec![0xFF],
            },
            CoordinatorAction::BroadcastClockStart { release_quantum: 2 },
        ],
        "held message must be routed in quantum 1"
    );
}

#[test]
fn coordinator_test_canonical_sort_same_vtime_by_src_then_seq() {
    let mut state = CoordinatorState::new(two_node_one_link_config());
    complete_handshake(&mut state);

    // Three messages at identical delivery_vtime_ns from different sources/sequences.
    // The coordinator must deliver them in (delivery_vtime_ns, src_node_id, seq) order.
    // Using a 3-node config for this test.
    let mut links = LinkTable::new();
    links.insert(
        "bus".to_string(),
        LinkConfig {
            link_id: 0,
            target_nodes: vec![0, 1, 2],
            delay_ns: 0,
        },
    );
    let config = CoordinatorConfig {
        expected_nodes: 3,
        links,
        max_messages_per_node: 1024,
    };
    let mut state3 = CoordinatorState::new(config);

    for node_id in 0..3 {
        state3.apply(CoordinatorEvent::NodeJoined { node_id });
    }
    for node_id in 0..3 {
        state3.apply(CoordinatorEvent::LinkRegister {
            node_id,
            link_name: "bus".to_string(),
        });
    }

    // Each node sends one message at the same vtime.
    state3.apply(CoordinatorEvent::SimulationMessage {
        src_node_id: 2,
        link_id: 0,
        delivery_vtime_ns: 100,
        sequence_number: 0,
        payload: vec![2],
    });
    state3.apply(CoordinatorEvent::SimulationMessage {
        src_node_id: 0,
        link_id: 0,
        delivery_vtime_ns: 100,
        sequence_number: 0,
        payload: vec![0],
    });
    state3.apply(CoordinatorEvent::SimulationMessage {
        src_node_id: 1,
        link_id: 0,
        delivery_vtime_ns: 100,
        sequence_number: 0,
        payload: vec![1],
    });

    state3.apply(CoordinatorEvent::QuantumDone { node_id: 2, quantum: 0, vtime_ns: 1_000 });
    state3.apply(CoordinatorEvent::QuantumDone { node_id: 0, quantum: 0, vtime_ns: 1_000 });
    let actions = state3.apply(CoordinatorEvent::QuantumDone {
        node_id: 1,
        quantum: 0,
        vtime_ns: 1_000,
    });

    let route_payloads: Vec<Vec<u8>> = actions
        .iter()
        .filter_map(|a| {
            if let CoordinatorAction::RouteMessage { payload, .. } = a {
                Some(payload.clone())
            } else {
                None
            }
        })
        .collect();

    // Must be sorted by src_node_id (0, 1, 2) since vtime and seq are equal.
    assert_eq!(route_payloads, vec![vec![0], vec![1], vec![2]]);
}


#[test]
fn coordinator_test_node_disconnected_aborts_in_simulation_phase() {
    let mut state = CoordinatorState::new(two_node_one_link_config());
    complete_handshake(&mut state);

    let a = state.apply(CoordinatorEvent::NodeDisconnected { node_id: 0 });
    assert_eq!(a.len(), 1);
    assert!(matches!(a[0], CoordinatorAction::AbortSimulation { .. }));
}

#[test]
fn coordinator_test_node_disconnected_aborts_in_awaiting_nodes_phase() {
    let mut state = CoordinatorState::new(two_node_one_link_config());

    let a = state.apply(CoordinatorEvent::NodeDisconnected { node_id: 0 });
    assert!(matches!(a[0], CoordinatorAction::AbortSimulation { .. }));
}

#[test]
fn coordinator_test_unknown_link_name_aborts() {
    let mut state = CoordinatorState::new(two_node_one_link_config());
    state.apply(CoordinatorEvent::NodeJoined { node_id: 0 });
    state.apply(CoordinatorEvent::NodeJoined { node_id: 1 });

    let a = state.apply(CoordinatorEvent::LinkRegister {
        node_id: 0,
        link_name: "nonexistent".to_string(),
    });
    assert_eq!(a.len(), 1);
    assert!(matches!(a[0], CoordinatorAction::AbortSimulation { .. }));
}

#[test]
fn coordinator_test_duplicate_quantum_done_aborts() {
    let mut state = CoordinatorState::new(two_node_one_link_config());
    complete_handshake(&mut state);

    state.apply(CoordinatorEvent::QuantumDone {
        node_id: 0,
        quantum: 0,
        vtime_ns: 1_000,
    });

    let a = state.apply(CoordinatorEvent::QuantumDone {
        node_id: 0,
        quantum: 0,
        vtime_ns: 1_000,
    });
    assert!(matches!(a[0], CoordinatorAction::AbortSimulation { .. }));
}

#[test]
fn coordinator_test_quantum_done_outside_simulation_phase_aborts() {
    let mut state = CoordinatorState::new(two_node_one_link_config());

    let a = state.apply(CoordinatorEvent::QuantumDone {
        node_id: 0,
        quantum: 0,
        vtime_ns: 0,
    });
    assert!(matches!(a[0], CoordinatorAction::AbortSimulation { .. }));
}

#[test]
fn coordinator_test_simulation_message_outside_simulation_phase_aborts() {
    let mut state = CoordinatorState::new(two_node_one_link_config());

    let a = state.apply(CoordinatorEvent::SimulationMessage {
        src_node_id: 0,
        link_id: 0,
        delivery_vtime_ns: 0,
        sequence_number: 0,
        payload: vec![],
    });
    assert!(matches!(a[0], CoordinatorAction::AbortSimulation { .. }));
}


#[test]
fn coordinator_test_lookahead_node_completes_barrier_on_next_quantum() {
    let mut state = CoordinatorState::new(two_node_one_link_config());
    complete_handshake(&mut state);

    // Node 0 fast-forwards to quantum 1 while quantum 0 is still open.
    let a = state.apply(CoordinatorEvent::QuantumDone {
        node_id: 0,
        quantum: 1,
        vtime_ns: 2_000,
    });
    assert_eq!(a, vec![], "lookahead: buffered, no release");

    // Node 1 finishes quantum 0 — barrier releases quantum 0.
    let a = state.apply(CoordinatorEvent::QuantumDone {
        node_id: 1,
        quantum: 0,
        vtime_ns: 1_000,
    });
    // Node 0 already counted for quantum 0 (via stale check)? No —
    // lookahead node 0 submitted q=1, not q=0. Node 1 alone closes q=0.
    // But with 2 nodes required, q=0 can't close with only node 1.
    // So this must still return []. Node 0 must also submit q=0.
    assert_eq!(a, vec![], "node 0 in lookahead, cannot close q=0 with node 1 alone");

    // Node 0 now also submits quantum 0 — closes the barrier.
    let a = state.apply(CoordinatorEvent::QuantumDone {
        node_id: 0,
        quantum: 0,
        vtime_ns: 1_000,
    });
    assert_eq!(
        a,
        vec![CoordinatorAction::BroadcastClockStart { release_quantum: 1 }],
        "quantum 0 releases"
    );

    // Quantum 1: node 0 is already in lookahead. Node 1 finishes q=1 → release.
    let a = state.apply(CoordinatorEvent::QuantumDone {
        node_id: 1,
        quantum: 1,
        vtime_ns: 2_000,
    });
    assert_eq!(
        a,
        vec![CoordinatorAction::BroadcastClockStart { release_quantum: 2 }],
        "quantum 1 releases because node 0 was in lookahead"
    );
}
