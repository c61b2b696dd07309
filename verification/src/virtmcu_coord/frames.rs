//! From frames to events and from actions to frames.
use vstd::prelude::*;

use crate::coordination;
use crate::coordination::{
    ActionView, CoordinatorAction, CoordinatorConfig, CoordinatorEvent, EventView, LinkConfig,
    LinkTable, LinkView, Links, PendingView,
};
use crate::deterministic_coordinator::session;
use crate::deterministic_coordinator::session::saturating_sum_exec;
use crate::deterministic_coordinator::startup::{broadcast_order, NamedLink, NamedLinkView};
use crate::sorting;
use crate::text;
use crate::text::{
    numbered, owned, parse_unsigned, push_decimal, push_text, same_text, split_text,
    starts_with_text, string_of,
};
use crate::wire;
use crate::wire::{copy_range, push_bytes, push_le, u32_at, u64_at};

verus! {

/// The links from index `i` on, put into `table` under their names; each has its index as its
/// number.
pub open spec fn numbered_links(
    links: Seq<NamedLinkView>,
    delay_ns: u64,
    i: int,
    table: Links,
) -> Links
    decreases links.len() - i,
{
    if i < 0 || i >= links.len() {
        table
    } else {
        numbered_links(
            links,
            delay_ns,
            i + 1,
            coordination::with_link(
                table,
                links[i].name,
                LinkView { link_id: i as u32, target_nodes: links[i].nodes, delay_ns },
            ),
        )
    }
}

/// The configuration of a coordinator over the links of a topology.
pub fn build_coordinator_config(
    links: &Vec<NamedLink>,
    n_nodes: u32,
    delay_ns: u64,
    max_messages: usize,
) -> (config: CoordinatorConfig)
    requires
        links@.len() <= u32::MAX,
    ensures
        config.expected_nodes == n_nodes,
        config.max_messages_per_node == max_messages,
        config.links@ == numbered_links(sorting::views(links@), delay_ns, 0, Seq::empty()),
{
    let ghost all = sorting::views(links@);
    let mut table = LinkTable::new();
    let mut i: usize = 0;
    while i < links.len()
        invariant
            i <= links@.len() <= u32::MAX,
            all == sorting::views(links@),
            numbered_links(all, delay_ns, 0, Seq::empty()) == numbered_links(
                all,
                delay_ns,
                i as int,
                table@,
            ),
        decreases links@.len() - i,
    {
        let link = &links[i];
        proof {
            assert(all[i as int] == link@);
        }
        let target_nodes = vstd::slice::slice_to_vec(link.nodes.as_slice());
        table.insert(
            owned(link.name.as_str()),
            LinkConfig { link_id: i as u32, target_nodes, delay_ns },
        );
        i += 1;
    }
    CoordinatorConfig { expected_nodes: n_nodes, links: table, max_messages_per_node: max_messages }
}

/// A message as the nodes on a link get it.
pub open spec fn delivery_frame(
    link_id: u32,
    src_node_id: u32,
    delivery_vtime_ns: u64,
    sequence_number: u64,
    payload: Seq<u8>,
) -> Seq<u8> {
    wire::le_bytes(link_id as nat, 4) + wire::le_bytes(src_node_id as nat, 4) + wire::le_bytes(
        delivery_vtime_ns as nat,
        8,
    ) + wire::le_bytes(sequence_number as nat, 8) + wire::le_bytes(payload.len(), 4) + payload
}

/// Puts a message into the form in which the nodes on a link get it.
pub fn build_delivery_frame(
    link_id: u32,
    src_node_id: u32,
    delivery_vtime_ns: u64,
    sequence_number: u64,
    payload: &[u8],
) -> (frame: Vec<u8>)
    requires
        payload@.len() <= u32::MAX,
    ensures
        frame@ == delivery_frame(
            link_id,
            src_node_id,
            delivery_vtime_ns,
            sequence_number,
            payload@,
        ),
{
    let mut frame: Vec<u8> = Vec::new();
    push_le(&mut frame, link_id as u64, 4);
    push_le(&mut frame, src_node_id as u64, 4);
    push_le(&mut frame, delivery_vtime_ns, 8);
    push_le(&mut frame, sequence_number, 8);
    push_le(&mut frame, payload.len() as u64, 4);
    push_bytes(&mut frame, payload);
    proof {
        assert(frame@ =~= delivery_frame(
            link_id,
            src_node_id,
            delivery_vtime_ns,
            sequence_number,
            payload@,
        ));
    }
    frame
}

/// Each field of a delivery frame can be read back from its place.
pub proof fn law_delivery_frame_reads_back(
    link_id: u32,
    src_node_id: u32,
    delivery_vtime_ns: u64,
    sequence_number: u64,
    payload: Seq<u8>,
)
    requires
        payload.len() <= u32::MAX,
    ensures
        ({
            let frame = delivery_frame(
                link_id,
                src_node_id,
                delivery_vtime_ns,
                sequence_number,
                payload,
            );
            &&& frame.len() == 28 + payload.len()
            &&& wire::le_at(frame, 0, 4) == link_id
            &&& wire::le_at(frame, 4, 4) == src_node_id
            &&& wire::le_at(frame, 8, 8) == delivery_vtime_ns
            &&& wire::le_at(frame, 16, 8) == sequence_number
            &&& wire::le_at(frame, 24, 4) == payload.len()
            &&& frame.skip(28) == payload
        }),
{
    let a = wire::le_bytes(link_id as nat, 4);
    let b = wire::le_bytes(src_node_id as nat, 4);
    let c = wire::le_bytes(delivery_vtime_ns as nat, 8);
    let d = wire::le_bytes(sequence_number as nat, 8);
    let e = wire::le_bytes(payload.len(), 4);
    wire::lemma_le_bytes_len(link_id as nat, 4);
    wire::lemma_le_bytes_len(src_node_id as nat, 4);
    wire::lemma_le_bytes_len(delivery_vtime_ns as nat, 8);
    wire::lemma_le_bytes_len(sequence_number as nat, 8);
    wire::lemma_le_bytes_len(payload.len(), 4);
    let frame = a + b + c + d + e + payload;
    assert(frame.subrange(0, 4) =~= a);
    assert(frame.subrange(4, 8) =~= b);
    assert(frame.subrange(8, 16) =~= c);
    assert(frame.subrange(16, 24) =~= d);
    assert(frame.subrange(24, 28) =~= e);
    assert(frame.skip(28) =~= payload);
    assert(wire::byte_range(4) == 0x1_0000_0000 && wire::byte_range(8)
        == 0x1_0000_0000_0000_0000) by {
        reveal_with_fuel(wire::byte_range, 9);
    }
    wire::law_le_round_trip(link_id as nat, 4);
    wire::law_le_round_trip(src_node_id as nat, 4);
    wire::law_le_round_trip(delivery_vtime_ns as nat, 8);
    wire::law_le_round_trip(sequence_number as nat, 8);
    wire::law_le_round_trip(payload.len(), 4);
}

/// What a frame from a node comes to.
#[derive(Debug, PartialEq, Eq)]
pub enum Parsed {
    Event(CoordinatorEvent),
    /// The frame means nothing to the coordinator.
    Nothing,
    /// The frame contradicts itself: the run must not go on.
    Fatal,
}

#[verifier::ext_equal]
pub enum ParsedView {
    Event(EventView),
    Nothing,
    Fatal,
}

impl View for Parsed {
    type V = ParsedView;

    open spec fn view(&self) -> ParsedView {
        match self {
            Parsed::Event(e) => ParsedView::Event(e@),
            Parsed::Nothing => ParsedView::Nothing,
            Parsed::Fatal => ParsedView::Fatal,
        }
    }
}

/// The bytes of a link frame before its payload.
pub const LINK_HEADER: usize = 24;

/// What a frame on link `link_id` comes to.
pub open spec fn link_event(node_id: u32, link_id: u32, frame: Seq<u8>, delay_ns: u64) -> ParsedView {
    if frame.len() < 24 {
        ParsedView::Nothing
    } else if wire::le_at(frame, 0, 4) != link_id {
        ParsedView::Fatal
    } else if frame.len() < 24 + wire::le_at(frame, 4, 4) {
        ParsedView::Nothing
    } else {
        ParsedView::Event(
            EventView::SimulationMessage {
                message: PendingView {
                    src_node_id: node_id,
                    link_id,
                    delivery_vtime_ns: session::saturating_sum(
                        wire::le_at(frame, 8, 8) as u64,
                        delay_ns,
                    ),
                    sequence_number: wire::le_at(frame, 16, 8) as u64,
                    payload: frame.subrange(24, 24 + wire::le_at(frame, 4, 4) as int),
                },
            },
        )
    }
}

fn parse_link_frame(node_id: u32, link_id: u32, frame: &[u8], delay_ns: u64) -> (r: Parsed)
    ensures
        r@ == link_event(node_id, link_id, frame@, delay_ns),
{
    let n: usize = frame.len();
    if n < LINK_HEADER {
        return Parsed::Nothing;
    }
    if u32_at(frame, 0) != link_id {
        return Parsed::Fatal;
    }
    let size: u32 = u32_at(frame, 4);
    if n - LINK_HEADER < size as usize {
        return Parsed::Nothing;
    }
    let vtime_ns: u64 = u64_at(frame, 8);
    let sequence_number: u64 = u64_at(frame, 16);
    Parsed::Event(
        CoordinatorEvent::SimulationMessage {
            src_node_id: node_id,
            link_id,
            delivery_vtime_ns: saturating_sum_exec(vtime_ns, delay_ns),
            sequence_number,
            payload: copy_range(frame, LINK_HEADER, LINK_HEADER + size as usize),
        },
    )
}

/// The number that a part of a topic writes.
pub open spec fn part_number(parts: Seq<Seq<char>>, i: int) -> Option<u32> {
    match text::parsed_unsigned(parts[i], u32::MAX as nat) {
        Some(n) => Some(n as u32),
        None => None,
    }
}

fn number_at(parts: &Vec<String>, i: usize) -> (r: Option<u32>)
    requires
        i < parts@.len(),
    ensures
        r == part_number(sorting::views(parts@), i as int),
{
    proof {
        assert(sorting::views(parts@)[i as int] == parts@[i as int]@);
    }
    match parse_unsigned(parts[i].as_str(), u32::MAX as u64) {
        Some(n) => Some(n as u32),
        None => None,
    }
}

/// What a frame over a socket comes to. `link_name` is the name in the payload, read as a link
/// registration.
pub open spec fn uds_event(
    node_id: u32,
    topic: Seq<char>,
    payload: Seq<u8>,
    delay_ns: u64,
    link_name: Option<Seq<char>>,
) -> ParsedView {
    let parts = text::split_on(topic, '/');
    if topic == "sim/coord/link/register"@ {
        match link_name {
            Some(name) => ParsedView::Event(EventView::LinkRegister { node_id, link_name: name }),
            None => ParsedView::Nothing,
        }
    } else if text::has_prefix(topic, "sim/ch/"@) {
        if parts.len() != 3 {
            ParsedView::Nothing
        } else {
            match part_number(parts, 2) {
                None => ParsedView::Nothing,
                Some(link_id) => link_event(node_id, link_id, payload, delay_ns),
            }
        }
    } else if text::has_prefix(topic, "sim/coord/done/"@) {
        if parts.len() < 4 || payload.len() < 16 {
            ParsedView::Nothing
        } else {
            match part_number(parts, 3) {
                None => ParsedView::Nothing,
                Some(done_id) => ParsedView::Event(
                    EventView::QuantumDone {
                        node_id: done_id,
                        quantum: wire::le_at(payload, 0, 8) as u64,
                        vtime_ns: wire::le_at(payload, 8, 8) as u64,
                    },
                ),
            }
        }
    } else {
        ParsedView::Nothing
    }
}

/// Reads a frame that `node_id` sent over its socket. `link_name` is the name in the payload, read
/// as a link registration.
pub fn parse_uds_message(
    node_id: u32,
    topic: &str,
    payload: &[u8],
    delay_ns: u64,
    link_name: Option<String>,
) -> (r: Parsed)
    ensures
        r@ == uds_event(
            node_id,
            topic@,
            payload@,
            delay_ns,
            crate::text::optional(link_name),
        ),
{
    if same_text(topic, "sim/coord/link/register") {
        return match link_name {
            Some(name) => Parsed::Event(CoordinatorEvent::LinkRegister { node_id, link_name: name }),
            None => Parsed::Nothing,
        };
    }
    let parts = split_text(topic, '/');
    if starts_with_text(topic, "sim/ch/") {
        if parts.len() != 3 {
            return Parsed::Nothing;
        }
        match number_at(&parts, 2) {
            None => Parsed::Nothing,
            Some(link_id) => parse_link_frame(node_id, link_id, payload, delay_ns),
        }
    } else if starts_with_text(topic, "sim/coord/done/") {
        if parts.len() < 4 || payload.len() < 16 {
            return Parsed::Nothing;
        }
        match number_at(&parts, 3) {
            None => Parsed::Nothing,
            Some(done_id) => Parsed::Event(
                CoordinatorEvent::QuantumDone {
                    node_id: done_id,
                    quantum: u64_at(payload, 0),
                    vtime_ns: u64_at(payload, 8),
                },
            ),
        }
    } else {
        Parsed::Nothing
    }
}

/// What a sample on the bus comes to: the node that sent it is the last part of its topic.
pub open spec fn bus_event(
    topic: Seq<char>,
    payload: Seq<u8>,
    delay_ns: u64,
    link_name: Option<Seq<char>>,
) -> ParsedView {
    let parts = text::split_on(topic, '/');
    if text::has_prefix(topic, "sim/coord/link/register/"@) {
        if parts.len() != 5 {
            ParsedView::Nothing
        } else {
            match (part_number(parts, 4), link_name) {
                (Some(node_id), Some(name)) => ParsedView::Event(
                    EventView::LinkRegister { node_id, link_name: name },
                ),
                _ => ParsedView::Nothing,
            }
        }
    } else if text::has_prefix(topic, "sim/ch/"@) {
        if parts.len() != 4 {
            ParsedView::Nothing
        } else {
            match (part_number(parts, 2), part_number(parts, 3)) {
                (Some(link_id), Some(node_id)) => link_event(node_id, link_id, payload, delay_ns),
                _ => ParsedView::Nothing,
            }
        }
    } else {
        ParsedView::Nothing
    }
}

/// Whether a topic is one on which links are registered: the only one that counts before all nodes
/// have joined.
pub fn is_registration(topic: &str) -> (r: bool)
    ensures
        r == text::has_prefix(topic@, "sim/coord/link/register/"@),
{
    starts_with_text(topic, "sim/coord/link/register/")
}

/// Reads a sample on the bus. `link_name` is the name in the payload, read as a link registration.
pub fn parse_bus_message(
    topic: &str,
    payload: &[u8],
    delay_ns: u64,
    link_name: Option<String>,
) -> (r: Parsed)
    ensures
        r@ == bus_event(
            topic@,
            payload@,
            delay_ns,
            crate::text::optional(link_name),
        ),
{
    let parts = split_text(topic, '/');
    if is_registration(topic) {
        if parts.len() != 5 {
            return Parsed::Nothing;
        }
        match (number_at(&parts, 4), link_name) {
            (Some(node_id), Some(name)) => Parsed::Event(
                CoordinatorEvent::LinkRegister { node_id, link_name: name },
            ),
            _ => Parsed::Nothing,
        }
    } else if starts_with_text(topic, "sim/ch/") {
        if parts.len() != 4 {
            return Parsed::Nothing;
        }
        match (number_at(&parts, 2), number_at(&parts, 3)) {
            (Some(link_id), Some(node_id)) => parse_link_frame(node_id, link_id, payload, delay_ns),
            _ => Parsed::Nothing,
        }
    } else {
        Parsed::Nothing
    }
}

/// What a node's word on the bus that it is done comes to; its number is the third part of the
/// topic.
pub open spec fn bus_done_event(topic: Seq<char>, payload: Seq<u8>) -> ParsedView {
    let parts = text::split_on(topic, '/');
    if parts.len() < 4 {
        ParsedView::Nothing
    } else {
        match part_number(parts, 2) {
            None => ParsedView::Nothing,
            Some(node_id) => if payload.len() < 16 {
                ParsedView::Fatal
            } else {
                ParsedView::Event(
                    EventView::QuantumDone {
                        node_id,
                        quantum: wire::le_at(payload, 0, 8) as u64,
                        vtime_ns: wire::le_at(payload, 8, 8) as u64,
                    },
                )
            },
        }
    }
}

/// Reads a node's word on the bus that it is done.
pub fn parse_bus_done(topic: &str, payload: &[u8]) -> (r: Parsed)
    ensures
        r@ == bus_done_event(topic@, payload@),
{
    let parts = split_text(topic, '/');
    if parts.len() < 4 {
        return Parsed::Nothing;
    }
    match number_at(&parts, 2) {
        None => Parsed::Nothing,
        Some(node_id) => if payload.len() < 16 {
            Parsed::Fatal
        } else {
            Parsed::Event(
                CoordinatorEvent::QuantumDone {
                    node_id,
                    quantum: u64_at(payload, 0),
                    vtime_ns: u64_at(payload, 8),
                },
            )
        },
    }
}

/// Something that is to be sent.
#[derive(Debug, PartialEq, Eq)]
pub enum Outgoing {
    /// The acknowledgement of a link.
    LinkAck { node_id: u32, topic: String, link_id: u32 },
    /// The start of a quantum.
    ClockStart { node_id: u32, topic: String, quantum: u64 },
    Frame { node_id: u32, topic: String, frame: Vec<u8> },
    /// Nothing more is to be sent: the run is over.
    Abort { reason: String },
}

#[verifier::ext_equal]
pub enum OutgoingView {
    LinkAck { node_id: u32, topic: Seq<char>, link_id: u32 },
    ClockStart { node_id: u32, topic: Seq<char>, quantum: u64 },
    Frame { node_id: u32, topic: Seq<char>, frame: Seq<u8> },
    Abort { reason: Seq<char> },
}

impl View for Outgoing {
    type V = OutgoingView;

    open spec fn view(&self) -> OutgoingView {
        match self {
            Outgoing::LinkAck { node_id, topic, link_id } => OutgoingView::LinkAck {
                node_id: *node_id,
                topic: topic@,
                link_id: *link_id,
            },
            Outgoing::ClockStart { node_id, topic, quantum } => OutgoingView::ClockStart {
                node_id: *node_id,
                topic: topic@,
                quantum: *quantum,
            },
            Outgoing::Frame { node_id, topic, frame } => OutgoingView::Frame {
                node_id: *node_id,
                topic: topic@,
                frame: frame@,
            },
            Outgoing::Abort { reason } => OutgoingView::Abort { reason: reason@ },
        }
    }
}

/// The start of a quantum, for each of `nodes`.
pub open spec fn starts_for(nodes: Seq<u32>, quantum: u64) -> Seq<OutgoingView> {
    Seq::new(
        nodes.len(),
        |i: int|
            OutgoingView::ClockStart {
                node_id: nodes[i],
                topic: "sim/clock/start/"@ + text::decimal(nodes[i] as nat),
                quantum,
            },
    )
}

/// The topic of a link over sockets.
pub open spec fn socket_link_topic(link_id: u32) -> Seq<char> {
    "sim/ch/"@ + text::decimal(link_id as nat)
}

/// The topic of a node on a link on the bus.
pub open spec fn bus_link_topic(link_id: u32, node_id: u32) -> Seq<char> {
    "sim/ch/"@ + text::decimal(link_id as nat) + "/"@ + text::decimal(node_id as nat)
}

/// One frame for each of `targets`.
pub open spec fn frames_for(targets: Seq<u32>, link_id: u32, frame: Seq<u8>, over_bus: bool) -> Seq<
    OutgoingView,
> {
    Seq::new(
        targets.len(),
        |i: int|
            OutgoingView::Frame {
                node_id: targets[i],
                topic: if over_bus {
                    bus_link_topic(link_id, targets[i])
                } else {
                    socket_link_topic(link_id)
                },
                frame,
            },
    )
}

/// What an action comes to: an acknowledgement, the start of a quantum for `nodes`, a message for
/// each of its targets, or the end.
pub open spec fn outgoing(action: ActionView, nodes: Seq<u32>, over_bus: bool) -> Seq<OutgoingView> {
    match action {
        ActionView::SendLinkAck { node_id, link_id } => seq![
            OutgoingView::LinkAck {
                node_id,
                topic: if over_bus {
                    "sim/coord/link/ack/"@ + text::decimal(node_id as nat)
                } else {
                    "sim/coord/link/ack"@
                },
                link_id,
            },
        ],
        ActionView::BroadcastClockStart { release_quantum } => starts_for(nodes, release_quantum),
        ActionView::RouteMessage {
            target_nodes,
            link_id,
            delivery_vtime_ns,
            sequence_number,
            payload,
        } => frames_for(
            target_nodes,
            link_id,
            delivery_frame(link_id, 0, delivery_vtime_ns, sequence_number, payload),
            over_bus,
        ),
        ActionView::AbortSimulation { reason } => seq![OutgoingView::Abort { reason }],
    }
}

fn make_starts(nodes: &Vec<u32>, quantum: u64) -> (r: Vec<Outgoing>)
    ensures
        sorting::views(r@) == starts_for(nodes@, quantum),
{
    let mut r: Vec<Outgoing> = Vec::new();
    let mut i: usize = 0;
    while i < nodes.len()
        invariant
            i <= nodes@.len(),
            r@.len() == i,
            forall|k: int| 0 <= k < i ==> (#[trigger] r@[k])@ == starts_for(nodes@, quantum)[k],
        decreases nodes@.len() - i,
    {
        r.push(
            Outgoing::ClockStart {
                node_id: nodes[i],
                topic: numbered("sim/clock/start/", nodes[i] as u64),
                quantum,
            },
        );
        i += 1;
    }
    proof {
        assert(sorting::views(r@) =~= starts_for(nodes@, quantum));
    }
    r
}

fn link_topic(link_id: u32, node_id: u32, over_bus: bool) -> (topic: String)
    ensures
        topic@ == if over_bus {
            bus_link_topic(link_id, node_id)
        } else {
            socket_link_topic(link_id)
        },
{
    let mut out: Vec<char> = Vec::new();
    push_text(&mut out, "sim/ch/");
    push_decimal(&mut out, link_id as u64);
    if over_bus {
        push_text(&mut out, "/");
        push_decimal(&mut out, node_id as u64);
    }
    proof {
        assert(out@ =~= if over_bus {
            bus_link_topic(link_id, node_id)
        } else {
            socket_link_topic(link_id)
        });
    }
    string_of(out)
}

fn make_frames(targets: &Vec<u32>, link_id: u32, frame: &Vec<u8>, over_bus: bool) -> (r: Vec<
    Outgoing,
>)
    ensures
        sorting::views(r@) == frames_for(targets@, link_id, frame@, over_bus),
{
    let mut r: Vec<Outgoing> = Vec::new();
    let mut i: usize = 0;
    while i < targets.len()
        invariant
            i <= targets@.len(),
            r@.len() == i,
            forall|k: int|
                0 <= k < i ==> (#[trigger] r@[k])@ == frames_for(
                    targets@,
                    link_id,
                    frame@,
                    over_bus,
                )[k],
        decreases targets@.len() - i,
    {
        r.push(
            Outgoing::Frame {
                node_id: targets[i],
                topic: link_topic(link_id, targets[i], over_bus),
                frame: vstd::slice::slice_to_vec(frame.as_slice()),
            },
        );
        i += 1;
    }
    proof {
        assert(sorting::views(r@) =~= frames_for(targets@, link_id, frame@, over_bus));
    }
    r
}

fn one(o: Outgoing) -> (r: Vec<Outgoing>)
    ensures
        sorting::views(r@) == seq![o@],
{
    let mut r: Vec<Outgoing> = Vec::new();
    r.push(o);
    proof {
        assert(sorting::views(r@) =~= seq![o@]);
    }
    r
}

/// The payload of a routed message fits its length field.
pub open spec fn action_fits(action: ActionView) -> bool {
    action matches ActionView::RouteMessage { payload, .. } ==> payload.len() <= u32::MAX
}

fn make_outgoing(action: CoordinatorAction, nodes: &Vec<u32>, over_bus: bool) -> (r: Vec<Outgoing>)
    requires
        action_fits(action@),
    ensures
        sorting::views(r@) == outgoing(action@, nodes@, over_bus),
{
    match action {
        CoordinatorAction::SendLinkAck { node_id, link_id } => {
            let topic = if over_bus {
                numbered("sim/coord/link/ack/", node_id as u64)
            } else {
                owned("sim/coord/link/ack")
            };
            one(Outgoing::LinkAck { node_id, topic, link_id })
        },
        CoordinatorAction::BroadcastClockStart { release_quantum } => make_starts(
            nodes,
            release_quantum,
        ),
        CoordinatorAction::RouteMessage {
            target_nodes,
            link_id,
            delivery_vtime_ns,
            sequence_number,
            payload,
        } => {
            let frame = build_delivery_frame(
                link_id,
                0,
                delivery_vtime_ns,
                sequence_number,
                payload.as_slice(),
            );
            make_frames(&target_nodes, link_id, &frame, over_bus)
        },
        CoordinatorAction::AbortSimulation { reason } => one(Outgoing::Abort { reason }),
    }
}

/// What an action comes to over sockets, where `connected` are the nodes that have one. A quantum
/// is started for them in ascending order.
pub fn uds_outgoing(action: CoordinatorAction, connected: Vec<u32>) -> (r: Vec<Outgoing>)
    requires
        action_fits(action@),
    ensures
        sorting::views(r@) == outgoing(action@, sorting::stable_sort(connected@), false),
{
    let nodes = broadcast_order(connected);
    make_outgoing(action, &nodes, false)
}

/// The numbers below `n`.
pub open spec fn numbers_below(n: nat) -> Seq<u32> {
    Seq::new(n, |i: int| i as u32)
}

/// What an action comes to on the bus, where the nodes below `expected_nodes` take part.
pub fn bus_outgoing(action: CoordinatorAction, expected_nodes: u32) -> (r: Vec<Outgoing>)
    requires
        action_fits(action@),
    ensures
        sorting::views(r@) == outgoing(action@, numbers_below(expected_nodes as nat), true),
{
    let mut nodes: Vec<u32> = Vec::new();
    let mut i: u32 = 0;
    while i < expected_nodes
        invariant
            i <= expected_nodes,
            nodes@.len() == i,
            forall|k: int| 0 <= k < i ==> #[trigger] nodes@[k] == k,
        decreases expected_nodes - i,
    {
        nodes.push(i);
        i += 1;
    }
    proof {
        assert(nodes@ =~= numbers_below(expected_nodes as nat));
    }
    make_outgoing(action, &nodes, true)
}

/// Whether the clock is started.
pub fn starts_clock(actions: &Vec<CoordinatorAction>) -> (r: bool)
    ensures
        r == exists|i: int|
            0 <= i < actions@.len() && #[trigger] actions@[i] is BroadcastClockStart,
{
    let mut i: usize = 0;
    while i < actions.len()
        invariant
            i <= actions@.len(),
            forall|k: int| 0 <= k < i ==> !(#[trigger] actions@[k] is BroadcastClockStart),
        decreases actions@.len() - i,
    {
        match &actions[i] {
            CoordinatorAction::BroadcastClockStart { .. } => {
                return true;
            },
            _ => {},
        }
        i += 1;
    }
    false
}

} // verus!
