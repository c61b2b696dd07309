//! What the coordinator does about each message, from its topic to its deliveries.
use virtmcu::deterministic_coordinator::barrier::{BarrierError, CoordMessage};
use virtmcu::deterministic_coordinator::frames::{Carried, Done, FrameHeader, Readings};
use virtmcu::deterministic_coordinator::session::Session;
use virtmcu::deterministic_coordinator::steps::{
    take_bus_done, take_bus_transmission, take_socket_message, Step,
};
use virtmcu::deterministic_coordinator::topology::{Protocol, RoutingMap};

fn two_way() -> RoutingMap {
    let mut routes = RoutingMap::new();
    routes.add_route("0".to_string(), "1".to_string());
    routes.add_route("1".to_string(), "0".to_string());
    routes
}

fn no_readings() -> Readings {
    Readings { message: None, frame: None, radio: None, lin_vtime_ns: None }
}

fn message(vtime: u64, src: u32, dst: u32) -> CoordMessage {
    CoordMessage {
        delivery_vtime_ns: vtime,
        src_node_id: src,
        dst_node_id: dst,
        sequence_number: 0,
        protocol: Protocol::Uart,
        payload: vec![7],
    }
}

fn done(quantum: u64, messages: Vec<CoordMessage>) -> Option<Done> {
    Some(Done { quantum, vtime_limit: 100, messages })
}

#[test]
fn transmissions_over_the_bus_are_planned() {
    let routes = two_way();
    let mut run = Session::new(2, 16, 10, true);
    let mut readings = no_readings();
    readings.frame = Some(FrameHeader { delivery_vtime_ns: 5, sequence_number: 3, size: 1 });
    let bytes = [1, 2, 3, 4];
    match take_bus_transmission(&mut run, &routes, "virtmcu/uart/0/tx", &bytes, &readings, 2) {
        Step::Deliver { messages, plans } => {
            assert_eq!(messages.len(), 1);
            assert_eq!(messages[0].message.delivery_vtime_ns, 15);
            assert_eq!(messages[0].message.payload, vec![3]);
            assert_eq!(plans.len(), 1);
            assert_eq!(plans[0].len(), 1);
            assert_eq!(plans[0][0].target, 1);
            assert_eq!(plans[0][0].rx_topic, "sim/coord/1/rx");
            assert_eq!(plans[0][0].legacy_rx_topic, "virtmcu/uart/1/rx");
        }
        other => panic!("the frame is whole: {:?}", other),
    }
    let mut take = |topic: &str, readings: &Readings| {
        take_bus_transmission(&mut run, &routes, topic, &bytes, readings, 2)
    };
    assert_eq!(take("virtmcu/uart/9/tx", &readings), Step::Unregistered);
    assert_eq!(take("virtmcu/uart/x/tx", &readings), Step::Nothing);
    assert_eq!(take("virtmcu/uart/0/tx", &no_readings()), Step::Nothing);
}

#[test]
fn words_over_the_bus_release_a_quantum() {
    let routes = two_way();
    let mut run = Session::new(2, 16, 10, false);
    let zero = 0u64.to_le_bytes();
    assert_eq!(take_bus_done(&mut run, &routes, "sim/coord/x/done", &zero, None), Step::Nothing);
    assert_eq!(take_bus_done(&mut run, &routes, "sim/coord/0/done", &zero, None), Step::Nothing);
    let sent = done(0, vec![message(20, 1, 0), message(10, 1, 0)]);
    match take_bus_done(&mut run, &routes, "sim/coord/1/done", &[0; 20], sent) {
        Step::Release { messages, plans, next_quantum } => {
            assert_eq!(next_quantum, 1);
            let times: Vec<u64> = messages.iter().map(|e| e.message.delivery_vtime_ns).collect();
            assert_eq!(times, vec![10, 20]);
            assert_eq!(plans.len(), 2);
            assert_eq!(plans[1][0].target, 0);
        }
        other => panic!("all nodes are done: {:?}", other),
    }
    assert_eq!(
        take_bus_done(&mut run, &routes, "sim/coord/1/done", &zero, None),
        Step::Refused(BarrierError::QuantumMismatch { expected: 1, got: 0 })
    );
}

#[test]
fn plans_end_at_a_stray_message() {
    let routes = two_way();
    let mut run = Session::new(1, 16, 10, false);
    let sent = done(0, vec![message(1, 0, 1), message(2, 0, 5), message(3, 0, 1)]);
    match take_bus_done(&mut run, &routes, "sim/coord/0/done", &[0; 20], sent) {
        Step::Release { messages, plans, .. } => {
            assert_eq!(messages.len(), 3);
            assert_eq!(plans.len(), 1);
        }
        other => panic!("the node is done: {:?}", other),
    }
}

#[test]
fn messages_over_sockets_are_sorted_out() {
    let routes = two_way();
    let links = vec![vec![0, 1]];
    let mut run = Session::new(2, 16, 10, true);
    let mut take = |topic: &str, payload: &[u8], readings: &Readings, decoded| {
        take_socket_message(&mut run, &routes, &links, 0, topic, payload, readings, decoded, 20)
    };
    let none = no_readings();
    let mut frame = vec![0u8, 0, 0, 0, 2, 0, 0, 0, 8, 9];
    match take("sim/ch/0", &frame, &none, None) {
        Step::Deliver { messages, plans } => {
            assert_eq!(messages[0].link_id, Some(0));
            assert_eq!(plans[0].len(), 1);
            assert_eq!(plans[0][0].target, 1);
        }
        other => panic!("the frame is whole: {:?}", other),
    }
    assert_eq!(take("sim/ch/7", &frame, &none, None), Step::Fatal);
    assert_eq!(take("sim/ch/0", &frame[..9], &none, None), Step::Nothing);
    frame[0] = 1;
    assert_eq!(take("sim/ch/0", &frame, &none, None), Step::Fatal);

    let mut readings = no_readings();
    readings.message = Some(Carried { vtime_ns: 1, sequence_number: 2, data: vec![3] });
    match take("virtmcu/uart/0/tx", &[], &readings, None) {
        Step::Deliver { messages, .. } => assert_eq!(messages[0].message.payload, vec![3]),
        other => panic!("the message is whole: {:?}", other),
    }
    assert_eq!(take("virtmcu/uart/5/tx", &[], &readings, None), Step::Unregistered);

    assert_eq!(take("sim/coord/done/0", &[], &none, None), Step::Unreadable);
    assert_eq!(take("sim/coord/done/x", &[], &none, None), Step::Nothing);
    assert_eq!(take("sim/coord/done/0", &[], &none, done(0, vec![])), Step::Nothing);
    assert_eq!(
        take("sim/coord/done/0", &[], &none, done(0, vec![])),
        Step::Refused(BarrierError::DuplicateDone)
    );
    assert_eq!(take("sim/elsewhere", &[], &none, None), Step::Nothing);
}

#[test]
fn times_without_a_number_stop_the_run() {
    let routes = two_way();
    let mut run = Session::new(2, 16, 10, false);
    let mut readings = no_readings();
    readings.lin_vtime_ns = Some(5);
    let held = take_bus_transmission(&mut run, &routes, "sim/lin/0/tx", &[1], &readings, 20);
    assert_eq!(held, Step::Nothing);
    let late = Some(Done { quantum: 0, vtime_limit: u64::MAX, messages: vec![] });
    let word = take_bus_done(&mut run, &routes, "sim/coord/0/done", &[0; 20], late);
    assert_eq!(word, Step::Overflow);
}
