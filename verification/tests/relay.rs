//! Passing frames on between nodes, with delays, losses and radio.
use rand::{Rng, SeedableRng};
use virtmcu::deterministic_coordinator::barrier::BarrierError;
use virtmcu::deterministic_coordinator::frames::FrameHeader;
use virtmcu::deterministic_coordinator::graph::TopologyGraph;
use virtmcu::deterministic_coordinator::topology::{
    LinkSpec, NodeId, Protocol, TopologySpec, World,
};
use virtmcu::zenoh_coordinator::batches::Batches;
use virtmcu::zenoh_coordinator::chance::{fraction_below, starting_seed, JitterSource};
use virtmcu::zenoh_coordinator::handlers::{
    handle_lin_msg, handle_wired_msg, rf_listeners, Handled,
};
use virtmcu::zenoh_coordinator::links::{LinkState, LinkStates, TopologyUpdate};
use virtmcu::zenoh_coordinator::radio::{
    arrival_time, frame_arrivals, frame_message, listeners, packet_message, packet_messages,
    read_packet, write_packet, Arrival, Listener, Packet,
};
use virtmcu::zenoh_coordinator::quanta::{Quanta, QuantumEnd};
use virtmcu::zenoh_coordinator::reach::reach_of;
use virtmcu::zenoh_coordinator::relay::{
    decode_batch, done_quantum, hop_message, parse_protocol, read_frame, rx_topic, start_messages,
    Channel, Frame, FrameReading, Hop, Reach, Relay, RelayMessage,
};

fn text(s: &str) -> String {
    s.to_string()
}

fn hop(dst: &str, drop: f64, jitter_ns: u64) -> Hop {
    Hop { dst: text(dst), delay_ns: 100, drop_bits: drop.to_bits(), jitter_ns }
}

fn frame() -> Frame {
    Frame { vtime_ns: 1000, sequence_number: 7, data: vec![1, 2] }
}

fn update(from: &str, to: &str) -> TopologyUpdate {
    TopologyUpdate {
        from: text(from),
        to: text(to),
        delay_ns: None,
        drop_bits: None,
        jitter_ns: None,
        enable_collisions: None,
    }
}

fn open_reach(targets: Vec<&str>) -> Reach {
    let names: Vec<String> = targets.iter().map(|s| s.to_string()).collect();
    Reach { is_explicit: false, wire_peers: vec![], targets: Some(names.clone()), allowed: names }
}

#[test]
fn channels_have_topics() {
    assert_eq!(Channel::Ethernet.tx_topic("3"), "sim/eth/frame/3/tx");
    assert_eq!(rx_topic(&Channel::Lin.base_topic(), "3"), "sim/lin/3/rx");
    assert_eq!(Channel::SystemC.protocol(), Protocol::Ethernet);
    assert_eq!(Channel::SystemC.peer_protocol(), Protocol::Spi);
}

#[test]
fn frames_are_read_behind_their_header() {
    let header = FrameHeader { delivery_vtime_ns: 5, sequence_number: 6, size: 2 };
    let bytes: Vec<u8> = (0u8..24).collect();
    assert_eq!(
        read_frame(Channel::Lin, &bytes, Some(header), 20),
        FrameReading::Frame(Frame { vtime_ns: 5, sequence_number: 6, data: vec![20, 21] })
    );
    assert_eq!(read_frame(Channel::Uart, &bytes, None, 20), FrameReading::Broken);
    assert_eq!(read_frame(Channel::Lin, &bytes, None, 20), FrameReading::CutOff);
    assert_eq!(read_frame(Channel::Ethernet, &bytes[..19], Some(header), 20), FrameReading::CutOff);
    let long = FrameHeader { delivery_vtime_ns: 5, sequence_number: 6, size: 9 };
    assert_eq!(read_frame(Channel::Ethernet, &bytes, Some(long), 20), FrameReading::CutOff);
}

#[test]
fn frames_go_to_all_other_senders() {
    let mut relay = Relay::new(50);
    relay.note_sender(Channel::Uart, "0");
    relay.note_sender(Channel::Uart, "1");
    relay.note_sender(Channel::Uart, "1");
    relay.note_sender(Channel::Ethernet, "9");
    assert_eq!(relay.other_senders(Channel::Uart, "0"), vec![text("1")]);
    let hops = relay.hops(Channel::Uart, "0", &open_reach(vec!["1"])).unwrap();
    assert_eq!(
        hops,
        vec![Hop { dst: text("1"), delay_ns: 50, drop_bits: 0, jitter_ns: 0 }]
    );
}

#[test]
fn frames_to_nodes_that_are_not_registered_are_refused() {
    let mut relay = Relay::new(50);
    relay.note_sender(Channel::Uart, "0");
    relay.note_sender(Channel::Uart, "1");
    assert_eq!(relay.hops(Channel::Uart, "0", &open_reach(vec!["2"])), None);
    let nobody = Reach { is_explicit: false, wire_peers: vec![], targets: None, allowed: vec![] };
    assert_eq!(relay.hops(Channel::Uart, "0", &nobody), None);
}

#[test]
fn laid_links_name_the_destinations() {
    let relay = Relay::new(50);
    let reach = Reach {
        is_explicit: true,
        wire_peers: vec![text("4"), text("5")],
        targets: Some(vec![text("4"), text("5")]),
        allowed: vec![text("5")],
    };
    let hops = relay.hops(Channel::Ethernet, "0", &reach).unwrap();
    assert_eq!(hops.len(), 1);
    assert_eq!(hops[0].dst, "5");
    assert_eq!(relay.hops(Channel::SystemC, "0", &reach).unwrap().len(), 2);
}

#[test]
fn changed_links_shape_the_way() {
    let mut relay = Relay::new(50);
    relay.note_sender(Channel::Chardev, "0");
    relay.note_sender(Channel::Chardev, "1");
    let mut up = update("0", "1");
    up.delay_ns = Some(900);
    up.drop_bits = Some(0.25f64.to_bits());
    up.jitter_ns = Some(30);
    relay.update_link(&up);
    let hops = relay.hops(Channel::Chardev, "0", &open_reach(vec!["1"])).unwrap();
    assert_eq!(
        hops,
        vec![Hop { dst: text("1"), delay_ns: 900, drop_bits: 0.25f64.to_bits(), jitter_ns: 30 }]
    );
    relay.note_sender(Channel::Lin, "0");
    relay.note_sender(Channel::Lin, "1");
    let lin = relay.hops(Channel::Lin, "0", &open_reach(vec!["1"])).unwrap();
    assert_eq!(lin, vec![Hop { dst: text("1"), delay_ns: 900, drop_bits: 0, jitter_ns: 0 }]);
}

#[test]
fn update_of_a_link_is_local() {
    let mut links = LinkStates::new();
    let mut up = update("a", "b");
    up.enable_collisions = Some(true);
    links.update(&up, 20);
    let changed =
        LinkState { delay_ns: 20, drop_bits: 0, jitter_ns: 0, enable_collisions: true };
    let plain = LinkState { delay_ns: 20, drop_bits: 0, jitter_ns: 0, enable_collisions: false };
    assert_eq!(links.state("a", "b", 20), changed);
    assert_eq!(links.state("b", "a", 20), plain);
}

#[test]
fn frames_arrive_late() {
    let m = hop_message(Channel::Uart, "0", &hop("1", 0.0, 0), &frame(), 25);
    assert_eq!(m.delivery_vtime_ns, 1125);
    assert_eq!(m.base_topic, "virtmcu/uart");
    assert_eq!(m.payload, vec![1, 2]);
    let far = Hop { dst: text("1"), delay_ns: u64::MAX, drop_bits: 0, jitter_ns: 0 };
    assert_eq!(hop_message(Channel::Uart, "0", &far, &frame(), 3).delivery_vtime_ns, u64::MAX);
}

#[test]
fn chance_has_its_ends() {
    let mut source = JitterSource::new(1);
    for _ in 0..50 {
        assert!(source.drops(1.0f64.to_bits()));
        assert!(!source.drops(0.0f64.to_bits()));
        assert!(!source.drops(f64::NAN.to_bits()));
        assert!(!source.drops((-0.5f64).to_bits()));
        assert_eq!(source.draw(0), 0);
        assert!(source.draw(9) <= 9);
    }
}

#[test]
fn fractions_compare_as_doubles_do() {
    let words = [0u64, 2047, 2048, 1 << 33, 1 << 62, 1 << 63, (1 << 63) - 1, u64::MAX];
    let doubles: [f64; 10] = [5e-324, 1e-300, 1e-16, 0.1, 0.25, 0.5, 0.75, 0.9999999999999999, 1.0, 3.0];
    for word in words {
        let fraction = (word >> 11) as f64 / 9007199254740992.0;
        for p in doubles {
            assert_eq!(fraction_below(word, p.to_bits()), fraction < p, "{} {}", word, p);
        }
    }
    assert!(!fraction_below(0, 0));
    assert!(fraction_below(u64::MAX, f64::INFINITY.to_bits()));
}

#[test]
fn chance_follows_the_seed() {
    let mut a = JitterSource::new(42);
    let mut b = JitterSource::new(42);
    let mut c = JitterSource::new(43);
    let from_a: Vec<u64> = (0..20).map(|_| a.draw(1000000)).collect();
    let from_b: Vec<u64> = (0..20).map(|_| b.draw(1000000)).collect();
    let from_c: Vec<u64> = (0..20).map(|_| c.draw(1000000)).collect();
    assert_eq!(from_a, from_b);
    assert_ne!(from_a, from_c);
    assert_eq!(starting_seed(Some(5), 6), 5);
    assert_eq!(starting_seed(None, 6), 6);
}

#[test]
fn chance_is_that_of_the_generator() {
    let mut rng = rand_chacha::ChaCha8Rng::seed_from_u64(9);
    let mut source = JitterSource::new(9);
    for _ in 0..40 {
        assert_eq!(source.drops(0.5f64.to_bits()), rng.gen::<f64>() < 0.5);
        assert_eq!(source.draw(77), rng.gen_range(0..=77));
    }
}

#[test]
fn lost_frames_are_left_out() {
    let mut source = JitterSource::new(3);
    let hops = vec![hop("1", 1.0, 0), hop("2", 0.0, 0), hop("3", 0.0, 40)];
    let sent = source.messages(Channel::Ethernet, "0", &hops, &frame());
    assert_eq!(sent.len(), 2);
    assert_eq!(sent[0].dst_node_id, "2");
    assert_eq!(sent[0].delivery_vtime_ns, 1100);
    assert_eq!(sent[1].dst_node_id, "3");
    assert!(1100 <= sent[1].delivery_vtime_ns && sent[1].delivery_vtime_ns <= 1140);
    assert!(source.message(Channel::Ethernet, "0", &hop("1", 2.0, 0), &frame()).is_none());
}

#[test]
fn packets_read_back() {
    let bytes = write_packet(77, &[1, 2, 3]);
    assert_eq!(bytes, vec![77, 0, 0, 0, 0, 0, 0, 0, 3, 0, 0, 0, 1, 2, 3]);
    assert_eq!(read_packet(&bytes), Some(Packet { vtime_ns: 77, data: vec![1, 2, 3] }));
    assert_eq!(read_packet(&bytes[..14]), Some(Packet { vtime_ns: 77, data: vec![0, 0, 0] }));
    assert_eq!(read_packet(&bytes[..11]), None);
}

#[test]
fn radio_is_heard_by_neighbors() {
    let all = || vec![text("1"), text("2")];
    assert_eq!(listeners(all(), false, false, &vec![]), all());
    assert_eq!(listeners(all(), true, true, &vec![text("2"), text("5")]), vec![text("2")]);
    assert_eq!(listeners(all(), true, false, &all()), Vec::<String>::new());
}

#[test]
fn radio_frames_take_time() {
    assert_eq!(arrival_time(10, 20, 3), 33);
    assert_eq!(arrival_time(10, u64::MAX, 3), u64::MAX);
    let p = Packet { vtime_ns: 10, data: vec![4] };
    let m = packet_message("0", "1", &p, 20, 3);
    assert_eq!(m.delivery_vtime_ns, 33);
    assert_eq!(m.protocol, Protocol::RfHci);
    assert_eq!(m.payload, write_packet(33, &[4]));
    let f = frame_message("0", "1", 33, 8, vec![4]);
    assert_eq!(f.base_topic, "sim/rf/ieee802154");
    assert_eq!(f.sequence_number, 8);
}

#[test]
fn transmissions_reach_who_can_hear_them() {
    let at = |dst: &str, audible: bool, in_air_ns: u64, rssi: i8| Listener {
        dst: text(dst),
        audible,
        in_air_ns,
        rssi,
    };
    let all = vec![at("3", true, 5, -40), at("1", false, 1, -99), at("2", true, 9, -60)];
    let p = Packet { vtime_ns: 10, data: vec![4] };
    assert_eq!(
        packet_messages("0", &p, 20, &all),
        vec![packet_message("0", "3", &p, 20, 5), packet_message("0", "2", &p, 20, 9)]
    );
    assert_eq!(
        frame_arrivals(10, 20, &all),
        vec![
            Arrival { dst: text("3"), at: 35, rssi: -40 },
            Arrival { dst: text("2"), at: 39, rssi: -60 },
        ]
    );
    assert_eq!(frame_arrivals(u64::MAX, 1, &all)[0].at, u64::MAX);
    assert_eq!(packet_messages("0", &p, 20, &vec![]), vec![]);
    assert_eq!(frame_arrivals(10, 20, &all[1..2].to_vec()), vec![]);
}

#[test]
fn batches_are_taken_once() {
    let m = |n: u64| RelayMessage {
        src_node_id: text("0"),
        dst_node_id: text("1"),
        base_topic: text("sim/coord"),
        delivery_vtime_ns: n,
        sequence_number: n,
        protocol: Protocol::Lin,
        payload: vec![],
    };
    let mut batches = Batches::new();
    batches.push(m(1));
    batches.append("0", vec![m(2), m(3)]);
    batches.append("5", vec![m(4)]);
    let taken = batches.take("0");
    assert_eq!(taken.iter().map(|m| m.sequence_number).collect::<Vec<u64>>(), vec![1, 2, 3]);
    assert_eq!(batches.take("0").len(), 0);
    assert_eq!(batches.take("5").len(), 1);
}

#[test]
fn batches_keep_protocols() {
    let numbers: Vec<Protocol> = (0u8..7).map(parse_protocol).collect();
    assert_eq!(
        numbers,
        vec![
            Protocol::Ethernet,
            Protocol::Uart,
            Protocol::Spi,
            Protocol::CanFd,
            Protocol::FlexRay,
            Protocol::Lin,
            Protocol::Ethernet
        ]
    );
}

#[test]
fn batch_is_decoded() {
    let mut bytes: Vec<u8> = vec![1, 0, 0, 0];
    bytes.extend_from_slice(&4u32.to_le_bytes());
    bytes.extend_from_slice(&6u32.to_le_bytes());
    bytes.extend_from_slice(&500u64.to_le_bytes());
    bytes.extend_from_slice(&9u64.to_le_bytes());
    bytes.push(2);
    bytes.extend_from_slice(&2u32.to_le_bytes());
    bytes.extend_from_slice(&[7, 8]);
    let messages = decode_batch(&bytes);
    assert_eq!(
        messages,
        vec![RelayMessage {
            src_node_id: text("4"),
            dst_node_id: text("6"),
            base_topic: text("sim/coord"),
            delivery_vtime_ns: 500,
            sequence_number: 9,
            protocol: Protocol::Spi,
            payload: vec![7, 8],
        }]
    );
    assert_eq!(decode_batch(&bytes[..20]), vec![]);
}

#[test]
fn nodes_are_told_to_start() {
    let starts = start_messages(2, 5);
    assert_eq!(starts.len(), 3);
    assert_eq!(starts[1].topic, "sim/clock/start/1");
    assert_eq!(starts[1].payload, vec![5, 0, 0, 0, 0, 0, 0, 0]);
    assert_eq!(starts[2].topic, "sim/coord/all/start");
    assert_eq!(starts[2].payload, vec![1]);
    assert_eq!(done_quantum(&5u64.to_le_bytes()), 5);
    assert_eq!(done_quantum(&[1]), u64::MAX);
}

fn link(protocol: Protocol, nodes: Vec<i64>) -> LinkSpec {
    LinkSpec { protocol, nodes: nodes.into_iter().map(NodeId::Integer).collect(), baud: None }
}

fn three_nodes() -> TopologyGraph {
    let world = World {
        topology: Some(TopologySpec {
            nodes: vec![NodeId::Integer(1), NodeId::Integer(2), NodeId::Integer(3)],
            links: vec![
                link(Protocol::Uart, vec![1, 2]),
                link(Protocol::Uart, vec![3, 2, 1]),
                link(Protocol::Ethernet, vec![1, 3]),
            ],
            wireless: None,
            max_messages_per_node_per_quantum: None,
            global_seed: None,
            transport: None,
        }),
        peripherals: vec![],
    };
    TopologyGraph::from_yaml(&world).unwrap()
}

#[test]
fn peers_share_a_link_of_the_protocol() {
    let graph = three_nodes();
    let reach = reach_of(&graph, Channel::Uart, "1");
    assert!(reach.is_explicit);
    assert_eq!(reach.wire_peers, vec!["2", "3"]);
    assert_eq!(reach_of(&graph, Channel::Ethernet, "1").wire_peers, vec!["3"]);
    assert!(reach_of(&graph, Channel::Ethernet, "2").wire_peers.is_empty());
    let stranger = reach_of(&graph, Channel::Uart, "one");
    assert!(stranger.wire_peers.is_empty());
    assert!(stranger.allowed.is_empty());
    assert!(stranger.targets.is_none());
}

#[test]
fn laid_links_have_ways() {
    let graph = three_nodes();
    let relay = Relay::new(100);
    let reach = reach_of(&graph, Channel::Uart, "1");
    let hops = relay.hops(Channel::Uart, "1", &reach).unwrap();
    let dsts: Vec<&str> = hops.iter().map(|h| h.dst.as_str()).collect();
    assert_eq!(dsts, vec!["2", "3"]);
}

fn note(src: &str, dst: &str, at: u64) -> RelayMessage {
    RelayMessage {
        src_node_id: text(src),
        dst_node_id: text(dst),
        base_topic: text("sim/uart"),
        delivery_vtime_ns: at,
        sequence_number: 0,
        protocol: Protocol::Uart,
        payload: vec![1],
    }
}

#[test]
fn messages_wait_for_the_last_node() {
    let mut quanta = Quanta::new(2, 10);
    assert_eq!(quanta.quantum(), 1);
    quanta.hold(note("0", "1", 20));
    quanta.hold_all("1", vec![note("1", "0", 10)]);
    let first = 1u64.to_le_bytes();
    assert_eq!(quanta.on_done("0", &first), QuantumEnd::Waiting);
    assert_eq!(quanta.on_done("0", &first), QuantumEnd::Refused(BarrierError::DuplicateDone));
    assert_eq!(
        quanta.on_done("1", &first),
        QuantumEnd::Complete {
            messages: vec![note("1", "0", 10), note("0", "1", 20)],
            next_quantum: 2,
        }
    );
    assert_eq!(quanta.quantum(), 2);
    assert_eq!(
        quanta.on_done("1", &first),
        QuantumEnd::Refused(BarrierError::QuantumMismatch { expected: 2, got: 1 })
    );
    assert_eq!(
        quanta.on_done("1", &[1]),
        QuantumEnd::Refused(BarrierError::QuantumMismatch { expected: 2, got: u64::MAX })
    );
    let second = 2u64.to_le_bytes();
    assert_eq!(
        quanta.on_done("2", &second),
        QuantumEnd::Refused(BarrierError::NodeIndexOutOfBounds(2))
    );
    assert_eq!(quanta.on_done("one", &second), QuantumEnd::Unnumbered);
    quanta.hold(note("1", "all", 5));
    assert_eq!(quanta.on_done("1", &second), QuantumEnd::Unnumbered);
}

#[test]
fn sure_channels_lose_nothing() {
    let mut chance = JitterSource::new(1);
    for channel in [Channel::SystemC, Channel::Lin] {
        let sent = chance.messages(channel, "0", &vec![hop("1", 1.0, 50)], &frame());
        assert_eq!(sent.len(), 1);
        assert_eq!(sent[0].delivery_vtime_ns, 1100);
    }
    assert!(chance.messages(Channel::Uart, "0", &vec![hop("1", 1.0, 50)], &frame()).is_empty());
}

#[test]
fn wired_frames_go_to_their_peers() {
    let graph = three_nodes();
    let mut relay = Relay::new(100);
    let mut chance = JitterSource::new(1);
    let bytes: Vec<u8> = (0u8..24).collect();
    let header = Some(FrameHeader { delivery_vtime_ns: 5, sequence_number: 6, size: 2 });
    let mut handle = |channel, src: &str, bytes: &[u8], header| {
        handle_wired_msg(&mut relay, &mut chance, &graph, channel, src, bytes, header, 20)
    };
    match handle(Channel::Uart, "2", &bytes, header) {
        Handled::Messages(sent) => {
            let dsts: Vec<&str> = sent.iter().map(|m| m.dst_node_id.as_str()).collect();
            assert_eq!(dsts, vec!["1", "3"]);
            assert_eq!(sent[0].src_node_id, "2");
            assert_eq!(sent[0].delivery_vtime_ns, 105);
            assert_eq!(sent[0].sequence_number, 6);
            assert_eq!(sent[0].payload, vec![20, 21]);
        }
        other => panic!("the links are laid: {:?}", other),
    }
    assert_eq!(handle(Channel::Uart, "2", &bytes, None), Handled::Broken);
    assert_eq!(handle(Channel::Uart, "2", &bytes[..9], header), Handled::Nothing);
    assert_eq!(handle(Channel::Ethernet, "2", &bytes, header), Handled::Messages(vec![]));
}

#[test]
fn senders_meet_where_no_links_are_laid() {
    let world = World { topology: None, peripherals: vec![] };
    let graph = TopologyGraph::from_yaml(&world).unwrap();
    let mut relay = Relay::new(100);
    let mut chance = JitterSource::new(1);
    let first = handle_lin_msg(&mut relay, &mut chance, &graph, "0", Some(7));
    assert_eq!(first, Handled::Messages(vec![]));
    assert_eq!(handle_lin_msg(&mut relay, &mut chance, &graph, "1", None), Handled::Nothing);
    assert_eq!(
        handle_lin_msg(&mut relay, &mut chance, &graph, "1", Some(7)),
        Handled::Unregistered
    );
    assert_eq!(rf_listeners(&relay, &graph, Channel::Lin, "1", None), vec!["0"]);
    let near = Some(vec![text("2"), text("3")]);
    assert_eq!(rf_listeners(&relay, &graph, Channel::RfHci, "1", near), vec!["2", "3"]);
}

#[test]
fn nobody_hears_without_air() {
    let graph = three_nodes();
    let relay = Relay::new(100);
    let near = Some(vec![text("2"), text("3")]);
    assert!(rf_listeners(&relay, &graph, Channel::RfHci, "1", near).is_empty());
}
