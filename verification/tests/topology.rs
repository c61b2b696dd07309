//! Which nodes a world joins, and how.
use virtmcu::deterministic_coordinator::control::{drop_level, ControlError, DropLevel};
use virtmcu::deterministic_coordinator::delivery::{is_registered, plan_delivery, BROADCAST};
use virtmcu::deterministic_coordinator::envelope::Envelope;
use virtmcu::deterministic_coordinator::graph::TopologyGraph;
use virtmcu::deterministic_coordinator::startup::broadcast_order;
use virtmcu::deterministic_coordinator::topics;
use virtmcu::deterministic_coordinator::topology::{
    checked_node_id, node_id_to_u32, LinkSpec, NodeId, Position, Protocol, RoutingMap,
    TopologyError, TopologySpec, Transport, WirelessSpec, World,
};
use virtmcu::zenoh_coordinator::relay::{batch_is_registered, RelayMessage};

fn spec(nodes: Vec<NodeId>, links: Vec<LinkSpec>) -> TopologySpec {
    TopologySpec {
        nodes,
        links,
        wireless: None,
        max_messages_per_node_per_quantum: None,
        global_seed: None,
        transport: None,
    }
}

fn name(s: &str) -> NodeId {
    NodeId::Name(s.to_string())
}

fn uart_1_2() -> LinkSpec {
    LinkSpec {
        protocol: Protocol::Uart,
        nodes: vec![NodeId::Integer(1), NodeId::Integer(2)],
        baud: None,
    }
}

#[test]
fn test_routing_map_basic() {
    let mut map = RoutingMap::new();
    map.add_route("A".to_string(), "B".to_string());
    assert_eq!(map.get_targets("A").unwrap(), &vec!["B".to_string()]);
    assert!(map.get_targets("X").is_none());
}

#[test]
fn test_topology_nodes_new_schema() {
    let world = World {
        topology: Some(spec(vec![name("1"), NodeId::Integer(2)], vec![uart_1_2()])),
        peripherals: vec![],
    };
    let graph = TopologyGraph::from_yaml(&world).expect("test should succeed");
    assert!(graph.is_link_allowed(1, 2, Protocol::Uart));
}

#[test]
fn test_topology_fallback_legacy_schema() {
    let world = World {
        topology: Some(spec(vec![], vec![uart_1_2()])),
        peripherals: vec![name("1"), NodeId::Integer(2)],
    };
    let graph = TopologyGraph::from_yaml(&world).expect("test should succeed");
    assert!(graph.is_link_allowed(1, 2, Protocol::Uart));
}

#[test]
fn test_topology_no_fallback_machine_schema() {
    let world = World {
        topology: Some(spec(vec![name("1")], vec![])),
        peripherals: vec![name("uart0")],
    };
    let graph = TopologyGraph::from_yaml(&world).expect("test should succeed");
    assert!(graph.is_explicit);
}

#[test]
fn test_schema_split_brain_rejection() {
    let world = World {
        topology: Some(spec(vec![name("2")], vec![])),
        peripherals: vec![name("1")],
    };
    let res = TopologyGraph::from_yaml(&world);
    assert!(res.is_err());
    assert!(res.unwrap_err().message().contains("Split-brain"));
}

#[test]
fn test_schema_legacy_fallback_with_warning() {
    let world = World { topology: None, peripherals: vec![name("1")] };
    let graph = TopologyGraph::from_yaml(&world).expect("test should succeed");
    assert!(!graph.is_explicit);
}

#[test]
fn test_broadcast_sorting_determinism() {
    let sorted_ids: Vec<u32> = broadcast_order(vec![3, 1, 5, 2]);
    assert_eq!(
        sorted_ids,
        vec![1, 2, 3, 5],
        "Broadcast sockets must be sorted by node_id for determinism"
    );
}

#[test]
fn test_topic_generation() {
    assert_eq!(topics::singleton::COORD_ALIVE, "sim/coord/alive");
    assert_eq!(topics::wildcard::COORD_DONE_WILDCARD, "sim/coord/*/done");
    assert_eq!(topics::templates::clock_advance("0"), "sim/clock/advance/0");
    assert_eq!(topics::templates::uart_port_tx("1", "2"), "virtmcu/uart/1/2/tx");
}

fn envelope(src: u32, dst: u32) -> Envelope {
    Envelope {
        message: virtmcu::deterministic_coordinator::barrier::CoordMessage {
            delivery_vtime_ns: 0,
            src_node_id: src,
            dst_node_id: dst,
            sequence_number: 0,
            protocol: Protocol::Ethernet,
            payload: vec![],
        },
        base_topic: None,
        link_id: None,
    }
}

#[test]
#[should_panic(expected = "Unregistered packet received!")]
fn test_unregistered_packet_panics() {
    let topo = TopologyGraph::default();
    if plan_delivery(&topo.routing_map, None, &envelope(99, 100)).is_none() {
        panic!("Unregistered packet received!");
    }
}

#[test]
#[should_panic(expected = "Unregistered packet received!")]
fn test_panic_on_unregistered_packet() {
    let mut topo = TopologyGraph::default();
    topo.is_explicit = true;
    topo.routing_map.add_route("0".to_owned(), "1".to_owned());
    let m = RelayMessage {
        src_node_id: "0".to_owned(),
        dst_node_id: "2".to_owned(),
        base_topic: "test".to_owned(),
        delivery_vtime_ns: 0,
        sequence_number: 0,
        protocol: Protocol::Ethernet,
        payload: vec![],
    };
    if !batch_is_registered(&topo.routing_map, &vec![m]) {
        panic!("Unregistered packet received!");
    }
}

#[test]
fn registered_batch_is_accepted() {
    let mut map = RoutingMap::new();
    map.add_route("0".to_owned(), "1".to_owned());
    let m = RelayMessage {
        src_node_id: "0".to_owned(),
        dst_node_id: "1".to_owned(),
        base_topic: "test".to_owned(),
        delivery_vtime_ns: 0,
        sequence_number: 0,
        protocol: Protocol::Ethernet,
        payload: vec![],
    };
    assert!(batch_is_registered(&map, &vec![m]));
}

#[test]
fn link_to_unknown_node_is_refused() {
    let world = World {
        topology: Some(spec(vec![name("1")], vec![uart_1_2()])),
        peripherals: vec![],
    };
    let error = TopologyGraph::from_yaml(&world).unwrap_err();
    assert_eq!(error, TopologyError::UnknownNode(2));
    assert_eq!(error.message(), "Unknown node in topology: 2");
}

#[test]
fn node_without_number_is_refused() {
    let world = World {
        topology: Some(spec(vec![name("gateway")], vec![])),
        peripherals: vec![],
    };
    assert_eq!(
        TopologyGraph::from_yaml(&world).unwrap_err(),
        TopologyError::InvalidNodeId("gateway".to_string())
    );
}

#[test]
fn errors_of_reading_say_what_failed() {
    assert_eq!(TopologyError::IoError("gone".to_string()).message(), "IO Error: gone");
    assert_eq!(TopologyError::YamlError("bad".to_string()).message(), "YAML Error: bad");
}

#[test]
fn greatest_number_names_no_node() {
    let world = World {
        topology: Some(spec(vec![NodeId::Integer(4294967295), NodeId::Integer(1)], vec![uart_1_2()])),
        peripherals: vec![],
    };
    assert_eq!(TopologyGraph::from_yaml(&world).unwrap_err(), TopologyError::UnknownNode(2));
}

#[test]
fn wires_carry_both_ways() {
    let world = World {
        topology: Some(spec(vec![name("1"), name("2"), name("3")], vec![uart_1_2()])),
        peripherals: vec![],
    };
    let graph = TopologyGraph::from_yaml(&world).unwrap();
    assert!(graph.is_link_allowed(2, 1, Protocol::Uart));
    assert!(!graph.is_link_allowed(1, 2, Protocol::Spi));
    assert!(!graph.is_link_allowed(1, 3, Protocol::Uart));
    assert_eq!(graph.wire_links().len(), 1);
    assert!(!graph.has_wireless());
}

#[test]
fn routes_follow_links() {
    let world = World {
        topology: Some(spec(vec![name("1"), name("2"), name("3")], vec![uart_1_2()])),
        peripherals: vec![],
    };
    let graph = TopologyGraph::from_yaml(&world).unwrap();
    assert!(graph.routing_map.get_targets("1").unwrap().contains(&"2".to_string()));
    assert!(graph.routing_map.get_targets("2").unwrap().contains(&"1".to_string()));
    assert!(graph.routing_map.get_targets("3").is_none());
    assert!(!is_registered(&graph.routing_map, 3));
}

#[test]
fn given_limits_are_kept() {
    let mut topology = spec(vec![name("1")], vec![]);
    topology.max_messages_per_node_per_quantum = Some(7);
    topology.global_seed = Some("42".to_string());
    topology.transport = Some(Transport::Unix);
    let world = World { topology: Some(topology), peripherals: vec![] };
    let graph = TopologyGraph::from_yaml(&world).unwrap();
    assert_eq!(graph.max_messages_per_node_per_quantum, 7);
    assert_eq!(graph.global_seed, 42);
    assert_eq!(graph.transport, Transport::Unix);
    assert_eq!(TopologyGraph::default().max_messages_per_node_per_quantum, 1024);
    assert_eq!(Transport::default(), Transport::Zenoh);
}

fn at(x: f64) -> Position {
    Position { x_bits: x.to_bits(), y_bits: 0, z_bits: 0 }
}

#[test]
fn radio_reaches_nodes_in_range() {
    let mut topology = spec(vec![name("1"), name("2"), name("3")], vec![]);
    topology.wireless = Some(WirelessSpec {
        medium: "air".to_string(),
        nodes: vec![name("1"), name("2"), name("3")],
        positions: vec![at(0.0), at(1.0), at(9.0)],
        max_range_bits: 2.0f64.to_bits(),
    });
    let world = World { topology: Some(topology), peripherals: vec![] };
    let mut graph = TopologyGraph::from_yaml(&world).unwrap();
    assert!(graph.has_wireless());
    assert!(!graph.is_link_allowed(1, 2, Protocol::Rf802154));
    graph.set_in_range(vec![(1, 2), (2, 1)]);
    assert_eq!(graph.rf_neighbors(1), vec![2]);
    assert!(graph.is_link_allowed(1, 2, Protocol::RfHci));
    assert!(!graph.is_link_allowed(1, 3, Protocol::RfHci));
    assert_eq!(graph.rf_neighbors(7), Vec::<u32>::new());
    graph.update_positions(&[(3, at(0.5)), (4, at(2.0))]);
    assert_eq!(graph.node_positions[2], (3, at(0.5)));
    assert_eq!(graph.node_positions[3], (4, at(2.0)));
}

#[test]
fn numbers_name_nodes() {
    assert_eq!(checked_node_id(&name("12")), Some(12));
    assert_eq!(checked_node_id(&name("x")), None);
    assert_eq!(node_id_to_u32(&NodeId::Integer(5)), 5);
    assert_eq!(node_id_to_u32(&NodeId::Integer(-1)), 4294967295);
}

#[test]
fn names_of_protocols_are_read_in_any_case() {
    assert_eq!(Protocol::from_name("CanFd"), Protocol::CanFd);
    assert_eq!(Protocol::from_name("ETH"), Protocol::Ethernet);
    assert_eq!(Protocol::from_name("Reference-Link"), Protocol::ReferenceLink);
    assert_eq!(Protocol::from_name("telegraph"), Protocol::Control);
    assert!(Protocol::from_name("RF802154").is_wireless());
    assert!(!Protocol::Uart.is_wireless());
}

#[test]
fn cut_links_pass_nothing_until_restored() {
    let mut graph = TopologyGraph::default();
    assert!(graph.is_link_allowed(1, 2, Protocol::Uart));
    graph.update_from_json(r#"{"from": "1", "to": "2", "drop_probability": 1.0}"#).unwrap();
    assert!(!graph.is_link_allowed(1, 2, Protocol::Uart));
    assert!(!graph.is_link_allowed(2, 1, Protocol::Uart));
    graph.update_from_json(r#"{"from": "1", "to": "2", "drop_probability": 0.5}"#).unwrap();
    assert!(!graph.is_link_allowed(1, 2, Protocol::Uart));
    graph.update_from_json(r#"{"from": "2", "to": "1", "drop_probability": 0.0}"#).unwrap();
    assert!(graph.is_link_allowed(1, 2, Protocol::Uart));
    graph.update_from_json(r#"{"from": "1"}"#).unwrap();
}

#[test]
fn control_messages_may_be_wrong() {
    let mut graph = TopologyGraph::default();
    assert_eq!(graph.update_from_json("{"), Err(ControlError::InvalidJson));
    assert_eq!(
        graph.update_from_json(r#"{"from": "a", "to": "2", "drop_probability": 1}"#),
        Err(ControlError::InvalidNode("a".to_string()))
    );
    assert_eq!(drop_level(0.99f64.to_bits()), DropLevel::Cut);
    assert_eq!(drop_level(0.01f64.to_bits()), DropLevel::Restore);
    assert_eq!(drop_level(0.5f64.to_bits()), DropLevel::Keep);
    assert_eq!(drop_level(f64::NAN.to_bits()), DropLevel::Keep);
    assert_eq!(drop_level((-3.0f64).to_bits()), DropLevel::Restore);
}

#[test]
fn addressed_message_goes_to_its_node() {
    let mut map = RoutingMap::new();
    map.add_route("0".to_owned(), "1".to_owned());
    map.add_route("0".to_owned(), "2".to_owned());
    let plan = plan_delivery(&map, None, &envelope(0, 1)).unwrap();
    assert_eq!(plan.len(), 1);
    assert_eq!(plan[0].target, 1);
    let all = plan_delivery(&map, None, &envelope(0, BROADCAST)).unwrap();
    assert_eq!(all.iter().map(|d| d.target).collect::<Vec<u32>>(), vec![1, 2]);
    let mut on_link = envelope(0, BROADCAST);
    on_link.link_id = Some(1);
    let links = vec![vec![0, 1, 2], vec![2, 0]];
    let over_link = plan_delivery(&map, Some(&links), &on_link).unwrap();
    assert_eq!(over_link.iter().map(|d| d.target).collect::<Vec<u32>>(), vec![2]);
}
