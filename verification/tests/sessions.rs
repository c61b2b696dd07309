//! What a coordinator does with what nodes send over the bus and over sockets.
use virtmcu::coordination::{CoordinatorAction, CoordinatorEvent};
use virtmcu::deterministic_coordinator::barrier::{BarrierError, CoordMessage, QuantumBarrier};
use virtmcu::deterministic_coordinator::coordinator;
use virtmcu::deterministic_coordinator::frames::{
    carry_from_bus, carry_from_socket, decode_batch, frame_for_socket, is_plain_done,
    parse_done_topic, parse_plain_done, parse_protocol, parse_tx_topic, protocol_of_topic,
    radio_header_bytes, serialize_protocol, Carried, FrameHeader, RadioHeader, Readings, TxTopic,
};
use virtmcu::deterministic_coordinator::session::{DoneOutcome, LinkFrame, Session};
use virtmcu::deterministic_coordinator::startup::{
    classify_topic, join_failure, missing_node, start_messages, tx_topics, NamedLink, Preflight,
    TopicKind,
};
use virtmcu::deterministic_coordinator::topics;
use virtmcu::deterministic_coordinator::topology::Protocol;
use virtmcu::virtmcu_coord;
use virtmcu::virtmcu_coord::frames::{
    build_coordinator_config, build_delivery_frame, bus_outgoing, parse_bus_done,
    is_registration, parse_bus_message, parse_uds_message, starts_clock, uds_outgoing, Outgoing, Parsed,
};

fn message(vtime: u64, src: u32, seq: u64) -> CoordMessage {
    CoordMessage {
        delivery_vtime_ns: vtime,
        src_node_id: src,
        dst_node_id: 1,
        sequence_number: seq,
        protocol: Protocol::Uart,
        payload: vec![],
    }
}

fn tx(node_id: u32) -> TxTopic {
    TxTopic { node_id, protocol: Protocol::Uart, base: "virtmcu/uart".to_string() }
}

fn carried(vtime_ns: u64) -> Carried {
    Carried { vtime_ns, sequence_number: 4, data: vec![9] }
}

fn no_readings() -> Readings {
    Readings { message: None, frame: None, radio: None, lin_vtime_ns: None }
}

#[test]
fn barrier_refuses_strangers_and_other_quanta() {
    let mut barrier = QuantumBarrier::<CoordMessage>::new(2, 8);
    assert_eq!(
        barrier.submit_done(2, 0, 0, vec![]),
        Err(BarrierError::NodeIndexOutOfBounds(2))
    );
    assert_eq!(
        barrier.submit_done(0, 3, 1, vec![]),
        Err(BarrierError::QuantumMismatch { expected: 1, got: 3 })
    );
    assert_eq!(barrier.wait_for_all(true), Err(BarrierError::Timeout));
    assert!(!barrier.all_done());
}

#[test]
fn barrier_ignores_the_order_of_nodes() {
    let mut a = QuantumBarrier::<CoordMessage>::new(2, 8);
    let mut b = QuantumBarrier::<CoordMessage>::new(2, 8);
    a.submit_done(0, 0, 0, vec![message(5, 0, 1), message(3, 0, 0)]).unwrap();
    let from_a = a.submit_done(1, 0, 0, vec![message(4, 1, 0)]).unwrap().unwrap();
    b.submit_done(1, 0, 0, vec![message(4, 1, 0)]).unwrap();
    let from_b = b.submit_done(0, 0, 0, vec![message(3, 0, 0), message(5, 0, 1)]).unwrap().unwrap();
    assert_eq!(from_a, from_b);
    assert_eq!(from_a.iter().map(|m| m.delivery_vtime_ns).collect::<Vec<u64>>(), vec![3, 4, 5]);
}

#[test]
fn states_of_barriers_refuse_far_quanta() {
    let mut ours = coordinator::BarrierState::new(2, 8);
    assert_eq!(
        ours.submit_done(0, 7, vec![]),
        Err(coordinator::BarrierError::QuantumMismatch { expected: 0, got: 7 })
    );
    assert_eq!(
        ours.submit_done(5, 0, vec![]),
        Err(coordinator::BarrierError::NodeIndexOutOfBounds(5))
    );
    assert_eq!(ours.quantum(), 0);
    let mut theirs = virtmcu_coord::coordinator::BarrierState::new(2, 8);
    assert_eq!(
        theirs.submit_done(0, 7, vec![]),
        Err(virtmcu_coord::coordinator::BarrierError::QuantumMismatch)
    );
    assert_eq!(
        theirs.submit_done(5, 0, vec![]),
        Err(virtmcu_coord::coordinator::BarrierError::NodeIndexOutOfBounds)
    );
    assert_eq!(theirs.quantum(), 0);
}

#[test]
fn session_releases_what_is_due() {
    let mut session = Session::new(2, 16, 10, false);
    assert!(session.on_transmission(tx(0), carried(50)).is_none());
    assert!(session.on_transmission(tx(0), carried(500)).is_none());
    assert_eq!(session.on_done(0, 0, 100, vec![]), DoneOutcome::Waiting);
    let outcome = session.on_done(1, 0, 100, vec![message(7, 1, 0)]);
    match outcome {
        DoneOutcome::Released { messages, next_quantum } => {
            assert_eq!(next_quantum, 1);
            assert_eq!(messages.len(), 2);
            assert_eq!(messages[0].message.delivery_vtime_ns, 7);
            assert_eq!(messages[1].message.delivery_vtime_ns, 60);
            assert_eq!(messages[1].base_topic, Some("virtmcu/uart".to_string()));
        }
        _ => panic!("all nodes are done"),
    }
    assert_eq!(session.quantum(), 1);
    session.on_done(0, 1, 1000, vec![]);
    match session.on_done(1, 1, 1000, vec![]) {
        DoneOutcome::Released { messages, .. } => {
            assert_eq!(messages.len(), 1);
            assert_eq!(messages[0].message.delivery_vtime_ns, 510);
        }
        _ => panic!("all nodes are done"),
    }
}

#[test]
fn session_may_deliver_at_once() {
    let mut session = Session::new(1, 16, 10, true);
    let now = session.on_transmission(tx(0), carried(50)).unwrap();
    assert_eq!(now.message.delivery_vtime_ns, 60);
    assert_eq!(now.message.dst_node_id, u32::MAX);
}

#[test]
fn session_stops_on_a_wrong_word() {
    let mut session = Session::new(2, 16, 0, false);
    assert_eq!(
        session.on_done(0, 9, 100, vec![]),
        DoneOutcome::Fatal(BarrierError::QuantumMismatch { expected: 0, got: 9 })
    );
    assert_eq!(session.on_done(0, 0, u64::MAX, vec![]), DoneOutcome::Waiting);
    assert_eq!(
        session.on_done(0, 0, 100, vec![]),
        DoneOutcome::Fatal(BarrierError::DuplicateDone)
    );
    assert_eq!(
        session.on_done(8, 0, 100, vec![]),
        DoneOutcome::Fatal(BarrierError::NodeIndexOutOfBounds(8))
    );
}

#[test]
fn link_frames_are_counted() {
    let mut session = Session::new(1, 16, 10, true);
    let mut frame: Vec<u8> = vec![1, 0, 0, 0, 2, 0, 0, 0, 8, 9];
    match session.on_link_frame(0, "sim/ch/1", &frame, 2) {
        LinkFrame::Deliver(e) => {
            assert_eq!(e.link_id, Some(1));
            assert_eq!(e.message.sequence_number, 0);
            assert_eq!(e.message.payload, build_delivery_frame(1, 0, 10, 0, &[8, 9]));
        }
        _ => panic!("the frame is whole"),
    }
    match session.on_link_frame(0, "sim/ch/1", &frame, 2) {
        LinkFrame::Deliver(e) => assert_eq!(e.message.sequence_number, 1),
        _ => panic!("the frame is whole"),
    }
    assert_eq!(session.on_link_frame(0, "sim/ch/2", &frame, 2), LinkFrame::Fatal);
    assert_eq!(session.on_link_frame(0, "sim/ch/0", &frame, 2), LinkFrame::Fatal);
    assert_eq!(session.on_link_frame(0, "sim/ch/x", &frame, 2), LinkFrame::Ignored);
    assert_eq!(session.on_link_frame(0, "sim/uart/0/tx", &frame, 2), LinkFrame::NotALink);
    frame.truncate(9);
    assert_eq!(session.on_link_frame(0, "sim/ch/1", &frame, 2), LinkFrame::Ignored);
    let mut held = Session::new(1, 16, 10, false);
    assert_eq!(
        held.on_link_frame(0, "sim/ch/1", &[1, 0, 0, 0, 0, 0, 0, 0], 2),
        LinkFrame::Held
    );
}

#[test]
fn numbers_of_protocols_read_back() {
    for p in 0u8..10 {
        assert_eq!(serialize_protocol(&parse_protocol(p)), p);
    }
    assert_eq!(parse_protocol(200), Protocol::Ethernet);
}

#[test]
fn topics_tell_node_and_protocol() {
    let t = parse_tx_topic("virtmcu/uart/3/tx").unwrap();
    assert_eq!(t.node_id, 3);
    assert_eq!(t.protocol, Protocol::Uart);
    assert_eq!(t.base, "virtmcu/uart");
    assert!(parse_tx_topic("virtmcu/uart/x/tx").is_none());
    assert!(parse_tx_topic("tx").is_none());
    assert_eq!(protocol_of_topic("sim/rf/hci/0/tx"), Protocol::RfHci);
    assert_eq!(protocol_of_topic("sim/rf/ieee802154/0/tx"), Protocol::Rf802154);
    assert_eq!(protocol_of_topic("sim/chardev/0/tx"), Protocol::ReferenceLink);
    assert_eq!(protocol_of_topic("sim/other/0/tx"), Protocol::Ethernet);
    assert_eq!(parse_done_topic("sim/coord/5/done", 2), Some(5));
    assert_eq!(parse_done_topic("sim/coord/done/5", 3), Some(5));
    assert_eq!(parse_done_topic("sim/coord/5", 2), None);
}

#[test]
fn plain_words_leave_out_what_they_like() {
    let quantum = 6u64.to_le_bytes().to_vec();
    let done = parse_plain_done(&quantum);
    assert_eq!((done.quantum, done.vtime_limit), (6, u64::MAX));
    let mut both = quantum.clone();
    both.extend_from_slice(&70u64.to_le_bytes());
    let done = parse_plain_done(&both);
    assert_eq!((done.quantum, done.vtime_limit), (6, 70));
    assert_eq!(parse_plain_done(&[1]).quantum, u64::MAX);
    assert!(is_plain_done(&quantum));
    assert_eq!(decode_batch(&[9, 0, 0, 0]).len(), 0);
}

#[test]
fn transmissions_are_unpacked() {
    let payload: Vec<u8> = (0u8..24).collect();
    let mut readings = no_readings();
    assert!(carry_from_bus(Protocol::Uart, &payload, &readings, 20).is_none());
    let raw = carry_from_bus(Protocol::CanFd, &payload, &readings, 20).unwrap();
    assert_eq!((raw.vtime_ns, raw.data.len()), (0, 24));
    readings.lin_vtime_ns = Some(31);
    assert_eq!(carry_from_bus(Protocol::Lin, &payload, &readings, 20).unwrap().vtime_ns, 31);
    readings.frame = Some(FrameHeader { delivery_vtime_ns: 5, sequence_number: 6, size: 3 });
    let framed = carry_from_bus(Protocol::Uart, &payload, &readings, 20).unwrap();
    assert_eq!(framed.data, vec![20, 21, 22]);
    assert!(carry_from_bus(Protocol::Uart, &payload[..22], &readings, 20).is_none());
    readings.message = Some(carried(99));
    assert_eq!(carry_from_socket(Protocol::Uart, &payload, &readings, 20).unwrap().vtime_ns, 99);
}

#[test]
fn radio_transmissions_have_a_header_of_their_own() {
    let payload: Vec<u8> = vec![2, 0, 0, 0, 50, 51, 1, 2, 3];
    assert_eq!(radio_header_bytes(&payload), Some(vec![50, 51]));
    assert_eq!(radio_header_bytes(&[0, 0, 0, 0]), None);
    let mut readings = no_readings();
    readings.radio = Some(RadioHeader { delivery_vtime_ns: 8, sequence_number: 2 });
    let c = carry_from_bus(Protocol::Rf802154, &payload, &readings, 20).unwrap();
    assert_eq!((c.vtime_ns, c.data), (8, vec![1, 2, 3]));
}

#[test]
fn frames_for_sockets_hold_topic_and_payload() {
    assert_eq!(
        frame_for_socket("ab", &[7]),
        vec![2, 0, 0, 0, b'a', b'b', 1, 0, 0, 0, 7]
    );
    assert_eq!(frame_for_socket("é", &[]), vec![2, 0, 0, 0, 0xc3, 0xa9, 0, 0, 0, 0]);
}

#[test]
fn topics_over_sockets_are_told_apart() {
    assert_eq!(classify_topic("sim/ch/0"), TopicKind::Link);
    assert_eq!(classify_topic("virtmcu/uart/0/tx"), TopicKind::Transmission);
    assert_eq!(classify_topic("sim/coord/done/0"), TopicKind::Done);
    assert_eq!(classify_topic("sim/else"), TopicKind::Other);
}

#[test]
fn nodes_must_join() {
    assert_eq!(missing_node(3, &vec![0, 2]), Some(1));
    assert_eq!(missing_node(2, &vec![1, 0]), None);
    assert_eq!(
        join_failure("lab", 1, 250),
        "Federation lab: node '1' did not join within 250ms"
    );
    assert_eq!(tx_topics("*")[0], "sim/eth/frame/*/tx");
    let starts = start_messages(2, 3);
    assert_eq!(starts[0].topic, "sim/clock/start/0");
    assert_eq!(starts[0].payload, 3u64.to_le_bytes().to_vec());
    assert_eq!(topics::templates::coord_rx("4"), "sim/coord/4/rx");
}

#[test]
fn links_must_be_registered() {
    let links = vec![NamedLink { name: "can0".to_string(), nodes: vec![0, 1] }];
    let mut preflight = Preflight::new(links);
    assert!(!preflight.is_complete());
    assert_eq!(preflight.register(0, "can0"), Some(0));
    assert_eq!(preflight.register(0, "lin9"), None);
    assert_eq!(preflight.missing().len(), 1);
    assert_eq!(preflight.register(1, "can0"), Some(0));
    assert!(preflight.is_complete());
}

#[test]
fn delivery_frames_read_back() {
    let frame = build_delivery_frame(3, 1, 500, 7, &[4, 5]);
    let mut expected: Vec<u8> = vec![3, 0, 0, 0, 1, 0, 0, 0];
    expected.extend_from_slice(&500u64.to_le_bytes());
    expected.extend_from_slice(&7u64.to_le_bytes());
    expected.extend_from_slice(&[2, 0, 0, 0, 4, 5]);
    assert_eq!(frame, expected);
}

fn link_frame(link: u32, data: &[u8]) -> Vec<u8> {
    let mut f = link.to_le_bytes().to_vec();
    f.extend_from_slice(&(data.len() as u32).to_le_bytes());
    f.extend_from_slice(&500u64.to_le_bytes());
    f.extend_from_slice(&7u64.to_le_bytes());
    f.extend_from_slice(data);
    f
}

#[test]
fn frames_over_sockets_become_events() {
    let event = parse_uds_message(4, "sim/ch/3", &link_frame(3, &[1]), 20, None);
    assert_eq!(
        event,
        Parsed::Event(CoordinatorEvent::SimulationMessage {
            src_node_id: 4,
            link_id: 3,
            delivery_vtime_ns: 520,
            sequence_number: 7,
            payload: vec![1],
        })
    );
    assert_eq!(parse_uds_message(4, "sim/ch/2", &link_frame(3, &[1]), 20, None), Parsed::Fatal);
    assert_eq!(parse_uds_message(4, "sim/ch/3", &[3], 20, None), Parsed::Nothing);
    assert_eq!(
        parse_uds_message(4, "sim/coord/link/register", &[], 0, Some("can0".to_string())),
        Parsed::Event(CoordinatorEvent::LinkRegister { node_id: 4, link_name: "can0".to_string() })
    );
    assert_eq!(parse_uds_message(4, "sim/coord/link/register", &[], 0, None), Parsed::Nothing);
}

#[test]
fn frames_on_the_bus_become_events() {
    assert!(is_registration("sim/coord/link/register/2"));
    assert!(!is_registration("sim/ch/3/9"));
    match parse_bus_message("sim/ch/3/9", &link_frame(3, &[]), 0, None) {
        Parsed::Event(CoordinatorEvent::SimulationMessage { src_node_id, .. }) => {
            assert_eq!(src_node_id, 9)
        }
        _ => panic!("the frame is whole"),
    }
    assert_eq!(
        parse_bus_message("sim/coord/link/register/2", &[], 0, Some("l".to_string())),
        Parsed::Event(CoordinatorEvent::LinkRegister { node_id: 2, link_name: "l".to_string() })
    );
    let mut word = 1u64.to_le_bytes().to_vec();
    word.extend_from_slice(&900u64.to_le_bytes());
    assert_eq!(
        parse_bus_done("sim/coord/2/done", &word),
        Parsed::Event(CoordinatorEvent::QuantumDone { node_id: 2, quantum: 1, vtime_ns: 900 })
    );
    assert_eq!(parse_bus_done("sim/coord/2/done", &word[..9]), Parsed::Fatal);
    assert_eq!(parse_bus_done("sim/coord", &word), Parsed::Nothing);
}

#[test]
fn actions_become_frames() {
    let ack = CoordinatorAction::SendLinkAck { node_id: 1, link_id: 2 };
    assert_eq!(
        uds_outgoing(ack.clone(), vec![]),
        vec![Outgoing::LinkAck { node_id: 1, topic: "sim/coord/link/ack".to_string(), link_id: 2 }]
    );
    assert_eq!(
        bus_outgoing(ack, 2),
        vec![Outgoing::LinkAck {
            node_id: 1,
            topic: "sim/coord/link/ack/1".to_string(),
            link_id: 2
        }]
    );
    let start = CoordinatorAction::BroadcastClockStart { release_quantum: 4 };
    let started = uds_outgoing(start.clone(), vec![3, 1]);
    assert_eq!(
        started[0],
        Outgoing::ClockStart { node_id: 1, topic: "sim/clock/start/1".to_string(), quantum: 4 }
    );
    assert_eq!(bus_outgoing(start.clone(), 3).len(), 3);
    assert!(starts_clock(&vec![start]));
    let route = CoordinatorAction::RouteMessage {
        target_nodes: vec![5],
        link_id: 2,
        delivery_vtime_ns: 10,
        sequence_number: 1,
        payload: vec![6],
    };
    assert!(!starts_clock(&vec![route.clone()]));
    assert_eq!(
        bus_outgoing(route, 9),
        vec![Outgoing::Frame {
            node_id: 5,
            topic: "sim/ch/2/5".to_string(),
            frame: build_delivery_frame(2, 0, 10, 1, &[6]),
        }]
    );
    let abort = CoordinatorAction::AbortSimulation { reason: "gone".to_string() };
    assert_eq!(uds_outgoing(abort, vec![1]), vec![Outgoing::Abort { reason: "gone".to_string() }]);
}

#[test]
fn links_are_numbered_in_order() {
    let links = vec![
        NamedLink { name: "a".to_string(), nodes: vec![0] },
        NamedLink { name: "b".to_string(), nodes: vec![0, 1] },
    ];
    let config = build_coordinator_config(&links, 2, 30, 8);
    assert_eq!(config.expected_nodes, 2);
    assert_eq!(config.max_messages_per_node, 8);
    assert_eq!(config.links.get("b").unwrap().link_id, 1);
    assert_eq!(config.links.get("b").unwrap().delay_ns, 30);
    assert!(config.links.get("c").is_none());
    assert_eq!(config.links.len(), 2);
    assert_eq!(config.links.name_at(0), "a");
    assert_eq!(config.links.link_at(0).target_nodes, vec![0]);
}

#[test]
fn session_knows_what_it_can_take() {
    let mut session = Session::new(2, 16, 10, false);
    assert!(session.can_count(0));
    assert!(session.can_close(0, u64::MAX));
    session.on_transmission(tx(0), carried(5));
    assert!(!session.can_close(0, u64::MAX));
    assert!(session.can_close(0, u64::MAX - 10));
    assert!(session.can_close(1, u64::MAX));
}

#[test]
fn coordinators_start_before_the_last_quantum() {
    let config = build_coordinator_config(&vec![], 1, 0, 8);
    let mut state = virtmcu_coord::coordinator::CoordinatorState::new(config);
    assert!(state.has_next_quantum());
    state.apply(CoordinatorEvent::NodeJoined { node_id: 0 });
    assert!(state.has_next_quantum());
    let config = build_coordinator_config(&vec![], 1, 0, 8);
    let mut state = coordinator::CoordinatorState::new(config);
    assert!(state.has_next_quantum());
    state.apply(CoordinatorEvent::NodeJoined { node_id: 0 });
    assert!(state.has_next_quantum());
}
