//! What holds of passing frames on.
use vstd::arithmetic::power2;
use vstd::prelude::*;

use crate::deterministic_coordinator::barrier::{BarrierError, BarrierView, CoordMessageView};
use crate::deterministic_coordinator::envelope::EnvelopeView;
use crate::deterministic_coordinator::frame_laws as wire_laws;
use crate::deterministic_coordinator::frames;
use crate::deterministic_coordinator::frames::FrameHeader;
use crate::deterministic_coordinator::graph;
use crate::deterministic_coordinator::graph::GraphView;
use crate::deterministic_coordinator::topology::{Protocol, WireLinkView};
use crate::text;
use crate::wire;
use crate::zenoh_coordinator::batches;
use crate::zenoh_coordinator::batches::NodeBatchView;
use crate::zenoh_coordinator::chance;
use crate::zenoh_coordinator::chance::Draws;
use crate::zenoh_coordinator::handlers;
use crate::zenoh_coordinator::handlers::HandledView;
use crate::zenoh_coordinator::links;
use crate::zenoh_coordinator::quanta;
use crate::zenoh_coordinator::radio;
use crate::zenoh_coordinator::radio::{ListenerView, PacketView};
use crate::zenoh_coordinator::reach;
use crate::zenoh_coordinator::relay;
use crate::zenoh_coordinator::relay::{
    Channel, FrameReadingView, FrameView, HopView, ReachView, RelayState, RelayView,
};

verus! {

/// Each channel has topics of its own and travels by the links of its protocol.
pub proof fn law_channels(a: Channel, b: Channel)
    ensures
        Channel::Ethernet.base() == "sim/eth/frame"@,
        Channel::Uart.base() == "virtmcu/uart"@,
        Channel::SystemC.base() == "sim/systemc/frame"@,
        Channel::Chardev.base() == "sim/chardev"@,
        Channel::Rf802154.base() == "sim/rf/ieee802154"@,
        Channel::RfHci.base() == "sim/rf/hci"@,
        Channel::Lin.base() == "sim/lin"@,
        a != b ==> a.position() != b.position(),
        0 <= a.position() < 7,
        a.link_protocol() == b.link_protocol() ==> a == b,
        a != Channel::SystemC ==> a.frame_protocol() == a.link_protocol(),
        Channel::SystemC.frame_protocol() == Protocol::Ethernet,
        Channel::SystemC.link_protocol() == Protocol::Spi,
        Channel::Ethernet.link_protocol() == Protocol::Ethernet,
        Channel::Uart.link_protocol() == Protocol::Uart,
        Channel::Chardev.link_protocol() == Protocol::ReferenceLink,
        Channel::Rf802154.link_protocol() == Protocol::Rf802154,
        Channel::RfHci.link_protocol() == Protocol::RfHci,
        Channel::Lin.link_protocol() == Protocol::Lin,
        a.takes_chances() <==> a != Channel::SystemC && a != Channel::Lin,
        a.takes_chances() <==> relay::may_be_lost(a),
{
}

/// The topic on which a node sends tells its number and the base of the channel.
pub proof fn law_sending_topic_reads_back(channel: Channel, node: u32)
    ensures
        frames::tx_topic(
            channel.base() + "/"@ + text::decimal(node as nat) + "/tx"@,
        ) matches Some(t) && t.node_id == node && t.base == channel.base(),
{
    let topic = channel.base() + "/"@ + text::decimal(node as nat) + "/tx"@;
    reveal_strlit("/");
    reveal_strlit("/tx");
    reveal_strlit("tx");
    wire_laws::law_tx_topic_reads_back(channel.base(), node, "tx"@);
    assert(topic =~= channel.base() + seq!['/'] + text::decimal(node as nat) + seq!['/'] + "tx"@);
}

/// A whole frame is read with the time and the number of its header and the data behind it; where
/// the place of the data is fixed, this is so for headers that end there.
pub proof fn law_frame_reads_back(
    channel: Channel,
    head: Seq<u8>,
    data: Seq<u8>,
    rest: Seq<u8>,
    h: FrameHeader,
)
    requires
        data.len() == h.size,
        relay::is_strict(channel) ==> head.len() == 20,
    ensures
        relay::frame_of(channel, head + data + rest, Some(h), head.len())
            == FrameReadingView::Frame(
            FrameView {
                vtime_ns: h.delivery_vtime_ns,
                sequence_number: h.sequence_number,
                data,
            },
        ),
{
    let bytes = head + data + rest;
    assert(bytes.subrange(head.len() as int, (head.len() + h.size) as int) =~= data);
}

/// A frame that is cut off is none. Bytes without a header are broken on Ethernet and on serial
/// lines, if there are enough of them, and nothing elsewhere.
pub proof fn law_frames_that_cannot_be_read(
    channel: Channel,
    bytes: Seq<u8>,
    header: Option<FrameHeader>,
    header_size: nat,
)
    ensures
        ({
            let reading = relay::frame_of(channel, bytes, header, header_size);
            let strict = channel == Channel::Ethernet || channel == Channel::Uart;
            &&& header is Some && bytes.len() < header_size + header->0.size ==> reading is CutOff
            &&& strict && bytes.len() < 20 ==> reading is CutOff
            &&& strict && bytes.len() >= 20 && header is None ==> reading is Broken
            &&& !strict && header is None ==> reading is CutOff
            &&& strict && header is Some && header_size + header->0.size < 20 ==> !(reading is Frame)
            &&& !strict ==> !(reading is Broken)
        }),
{
}

/// A message keeps its source, its number and its data, goes to the end of its way, and arrives
/// when the delay of the way and the lateness have passed, or at the last moment there is.
pub proof fn law_message_on_a_way(
    channel: Channel,
    src: Seq<char>,
    hop: HopView,
    frame: FrameView,
    jitter: u64,
)
    ensures
        ({
            let m = relay::hop_message_of(channel, src, hop, frame, jitter);
            let due = frame.vtime_ns + hop.delay_ns + jitter;
            &&& m.src_node_id == src
            &&& m.dst_node_id == hop.dst
            &&& m.sequence_number == frame.sequence_number
            &&& m.payload == frame.data
            &&& due <= u64::MAX ==> m.delivery_vtime_ns == due
            &&& due > u64::MAX ==> m.delivery_vtime_ns == u64::MAX
            &&& m.base_topic == channel.base()
            &&& m.protocol == channel.frame_protocol()
        }),
{
}

proof fn lemma_others_filter(list: Seq<Seq<char>>, node: Seq<char>, n: int)
    requires
        0 <= n <= list.len(),
    ensures
        relay::others(list, node, n) == list.take(n).filter(|x: Seq<char>| x != node),
    decreases n,
{
    reveal(Seq::filter);
    if n > 0 {
        lemma_others_filter(list, node, n - 1);
        assert(list.take(n).drop_last() =~= list.take(n - 1));
        assert(list.take(n).last() == list[n - 1]);
    }
}

/// The others of a list are all in it but the one, in their order.
pub proof fn law_others(list: Seq<Seq<char>>, node: Seq<char>)
    ensures
        relay::others(list, node, list.len() as int) == list.filter(|x: Seq<char>| x != node),
{
    lemma_others_filter(list, node, list.len() as int);
    assert(list.take(list.len() as int) =~= list);
}

/// A list with one more member holds it, holds all that it held, in the same places, and nothing
/// else, and holds nothing twice if it did not before.
pub proof fn law_member(list: Seq<Seq<char>>, node: Seq<char>)
    ensures
        ({
            let then = relay::with_member(list, node);
            &&& then.contains(node)
            &&& then.take(list.len() as int) == list
            &&& then.len() == list.len() + (if list.contains(node) {
                0int
            } else {
                1int
            })
            &&& list.no_duplicates() ==> then.no_duplicates()
        }),
{
    let then = relay::with_member(list, node);
    assert(then.take(list.len() as int) =~= list);
    if !list.contains(node) {
        assert(then[list.len() as int] == node);
        if list.no_duplicates() {
            assert forall|i: int, j: int| 0 <= i < then.len() && 0 <= j < then.len() && i
                != j implies then[i] != then[j] by {
                if i < list.len() {
                    assert(list.contains(list[i]));
                }
                if j < list.len() {
                    assert(list.contains(list[j]));
                }
            }
        }
    }
}

/// A node that has sent on a channel is known there; who is known elsewhere, the links and the
/// delay stay.
pub proof fn law_sender_is_noted(s: RelayState, channel: Channel, other: Channel, src: Seq<char>)
    requires
        s.known.len() == 7,
    ensures
        ({
            let then = relay::noted(s, channel, src);
            &&& then.known[channel.position()].contains(src)
            &&& other != channel ==> then.known[other.position()] == s.known[other.position()]
            &&& then.links == s.links && then.delay_ns == s.delay_ns
            &&& then.known.len() == 7
        }),
{
    law_member(s.known[channel.position()], src);
}

/// Where links are laid down they decide where frames go; elsewhere frames go to all others that
/// have sent.
pub proof fn law_destinations(src: Seq<char>, known: Seq<Seq<char>>, r: ReachView)
    ensures
        r.is_explicit ==> relay::destinations(src, known, r) == r.wire_peers,
        !r.is_explicit ==> relay::destinations(src, known, r) == known.filter(
            |x: Seq<char>| x != src,
        ),
{
    law_others(known, src);
}

/// The ends of ways.
pub open spec fn ends_of(hops: Seq<HopView>) -> Seq<Seq<char>> {
    Seq::new(hops.len(), |i: int| hops[i].dst)
}

/// The state of a link, which is plain if nothing was said of it.
pub open spec fn link_between(
    known_links: Seq<links::LinkEntryView>,
    src: Seq<char>,
    dst: Seq<char>,
    delay_ns: u64,
) -> links::LinkState {
    match links::state_of(known_links, src, dst) {
        Some(s) => s,
        None => links::LinkState { delay_ns, drop_bits: 0, jitter_ns: 0, enable_collisions: false },
    }
}

/// A frame has a way to each of its destinations to which traffic passes, in their order, if all
/// of them are registered, and no way at all otherwise. A way takes as long as its link, and is as
/// lossy and as late as that on the channels on which chance has a say. On SystemC all traffic
/// passes.
pub proof fn law_ways(
    channel: Channel,
    src: Seq<char>,
    dests: Seq<Seq<char>>,
    n: int,
    r: ReachView,
    known_links: Seq<links::LinkEntryView>,
    delay_ns: u64,
)
    requires
        0 <= n <= dests.len(),
    ensures
        ({
            let ways = relay::hops_to(channel, src, dests, n, r, known_links, delay_ns);
            &&& ways is Some <==> forall|i: int|
                0 <= i < n ==> r.targets is Some && r.targets->0.contains(#[trigger] dests[i])
            &&& ways is Some ==> ends_of(ways->0) == dests.take(n).filter(
                |x: Seq<char>| channel == Channel::SystemC || r.allowed.contains(x),
            )
            &&& ways is Some ==> forall|i: int|
                0 <= i < ways->0.len() ==> {
                    let link = link_between(known_links, src, ways->0[i].dst, delay_ns);
                    &&& (#[trigger] ways->0[i]).delay_ns == link.delay_ns
                    &&& ways->0[i].drop_bits == if channel.takes_chances() {
                        link.drop_bits
                    } else {
                        0
                    }
                    &&& ways->0[i].jitter_ns == if channel.takes_chances() {
                        link.jitter_ns
                    } else {
                        0
                    }
                }
        }),
    decreases n,
{
    reveal(Seq::filter);
    let pass = |x: Seq<char>| channel == Channel::SystemC || r.allowed.contains(x);
    let ways = relay::hops_to(channel, src, dests, n, r, known_links, delay_ns);
    if n > 0 {
        law_ways(channel, src, dests, n - 1, r, known_links, delay_ns);
        let front = relay::hops_to(channel, src, dests, n - 1, r, known_links, delay_ns);
        assert(dests.take(n).drop_last() =~= dests.take(n - 1));
        assert(dests.take(n).last() == dests[n - 1]);
        if ways is Some {
            if pass(dests[n - 1]) {
                assert(ends_of(ways->0) =~= ends_of(front->0).push(dests[n - 1]));
            }
            assert forall|i: int| 0 <= i < n implies r.targets is Some && r.targets->0.contains(
                #[trigger] dests[i],
            ) by {
                assert(i < n - 1 || i == n - 1);
            }
        } else if forall|i: int|
            0 <= i < n ==> r.targets is Some && r.targets->0.contains(#[trigger] dests[i]) {
            assert(r.targets->0.contains(dests[n - 1]));
        }
    } else {
        assert(ends_of(ways->0) =~= dests.take(n).filter(pass));
    }
}

/// On channels on which chance has no say every frame arrives on time. So does it on a way without
/// loss and lateness. On a way that loses all, none arrives.
pub proof fn law_chance_on_a_way(
    seed: u64,
    draws: Draws,
    channel: Channel,
    src: Seq<char>,
    hop: HopView,
    frame: FrameView,
)
    ensures
        ({
            let t = chance::travelled(seed, draws, channel, src, hop, frame);
            let on_time = relay::hop_message_of(channel, src, hop, frame, 0);
            &&& channel == Channel::SystemC || channel == Channel::Lin ==> t == (
                Some(on_time),
                draws,
            )
            &&& hop.drop_bits == 0 && hop.jitter_ns == 0 ==> t == (Some(on_time), draws)
            &&& channel.takes_chances() && chance::ONE_BITS <= hop.drop_bits
                <= chance::INFINITY_BITS ==> t.0 is None
            &&& hop.drop_bits == 0 ==> t.0 is Some
            &&& t.0 is Some ==> exists|late: u64|
                t.0->0 == #[trigger] relay::hop_message_of(channel, src, hop, frame, late)
            &&& t.0 is Some && hop.jitter_ns == 0 ==> t.0->0 == on_time
        }),
{
    let on_time = relay::hop_message_of(channel, src, hop, frame, 0);
}

/// On ways without loss and lateness each way brings one message on time, in the order of the
/// ways, and nothing is left to chance.
pub proof fn law_sure_ways_bring_all(
    seed: u64,
    draws: Draws,
    channel: Channel,
    src: Seq<char>,
    hops: Seq<HopView>,
    frame: FrameView,
    n: int,
)
    requires
        0 <= n <= hops.len(),
        channel.takes_chances() ==> forall|i: int|
            0 <= i < hops.len() ==> (#[trigger] hops[i]).drop_bits == 0 && hops[i].jitter_ns == 0,
    ensures
        chance::all_travelled(seed, draws, channel, src, hops, frame, n) == (
            Seq::new(
                n as nat,
                |i: int| relay::hop_message_of(channel, src, hops[i], frame, 0),
            ),
            draws,
        ),
    decreases n,
{
    let expected = Seq::new(
        n as nat,
        |i: int| relay::hop_message_of(channel, src, hops[i], frame, 0),
    );
    if n > 0 {
        law_sure_ways_bring_all(seed, draws, channel, src, hops, frame, n - 1);
        law_chance_on_a_way(seed, draws, channel, src, hops[n - 1], frame);
        let front = Seq::new(
            (n - 1) as nat,
            |i: int| relay::hop_message_of(channel, src, hops[i], frame, 0),
        );
        assert(channel.takes_chances() ==> hops[n - 1].drop_bits == 0);
        assert(front.push(relay::hop_message_of(channel, src, hops[n - 1], frame, 0)) =~= expected);
    } else {
        assert(expected =~= Seq::empty());
    }
}

/// A batch is passed on message by message: each keeps its time, its number and its data, its nodes
/// get their names, and the protocols that relays know stay.
pub proof fn law_batch_is_passed_on(msgs: Seq<CoordMessageView>, rest: Seq<u8>, i: int)
    requires
        msgs.len() <= u32::MAX,
        wire_laws::payloads_fit(msgs),
        0 <= i < msgs.len(),
    ensures
        ({
            let sent = relay::batch_of(
                wire::le_bytes(msgs.len(), 4) + wire_laws::written_records(msgs) + rest,
            );
            &&& sent.len() == msgs.len()
            &&& reach::node_number(sent[i].src_node_id) == Some(msgs[i].src_node_id)
            &&& reach::node_number(sent[i].dst_node_id) == Some(msgs[i].dst_node_id)
            &&& sent[i].src_node_id == text::decimal(msgs[i].src_node_id as nat)
            &&& sent[i].dst_node_id == text::decimal(msgs[i].dst_node_id as nat)
            &&& sent[i].delivery_vtime_ns == msgs[i].delivery_vtime_ns
            &&& sent[i].sequence_number == msgs[i].sequence_number
            &&& sent[i].payload == msgs[i].payload
            &&& sent[i].base_topic == "sim/coord"@
            &&& sent[i].protocol == if msgs[i].protocol == Protocol::Rf802154 || msgs[i].protocol
                == Protocol::RfHci || msgs[i].protocol == Protocol::Control || msgs[i].protocol
                == Protocol::ReferenceLink {
                Protocol::Ethernet
            } else {
                msgs[i].protocol
            }
        }),
{
    wire_laws::law_batch_reads_back(msgs, rest);
    text::law_decimal_reads_back(msgs[i].src_node_id as nat, u32::MAX as nat);
    text::law_decimal_reads_back(msgs[i].dst_node_id as nat, u32::MAX as nat);
}

/// The quantum that a node is done with is the one that it names first.
pub proof fn law_done_quantum_reads_back(quantum: u64, rest: Seq<u8>, cut: Seq<u8>)
    requires
        cut.len() < 8,
    ensures
        relay::done_quantum_of(wire::le_bytes(quantum as nat, 8) + rest) == quantum,
        relay::done_quantum_of(cut) == u64::MAX,
{
    let q = wire::le_bytes(quantum as nat, 8);
    wire_laws::lemma_byte_ranges();
    wire_laws::lemma_number_in(Seq::empty(), quantum as nat, 8, rest);
    assert(Seq::<u8>::empty() + q + rest =~= q + rest);
}

/// Each node gets the start of a quantum on its own topic, in order, from which the quantum reads
/// back; one message for all ends them.
pub proof fn law_starts(n: nat, quantum: u64, i: int)
    requires
        0 <= i < n,
    ensures
        ({
            let starts = relay::starts_of(n, quantum);
            &&& starts.len() == n + 1
            &&& starts[i].topic == "sim/clock/start/"@ + text::decimal(i as nat)
            &&& relay::done_quantum_of(starts[i].payload) == quantum
            &&& starts[i].payload.len() == 8
            &&& starts[n as int].topic == "sim/coord/all/start"@
            &&& starts[n as int].payload == seq![1u8]
        }),
{
    let q = wire::le_bytes(quantum as nat, 8);
    law_done_quantum_reads_back(quantum, Seq::empty(), Seq::empty());
    assert(q + Seq::<u8>::empty() =~= q);
    wire::lemma_le_bytes_len(quantum as nat, 8);
}

/// Data of a packet that is cut off counts as zeros, as many as were announced; without a whole
/// header there is no packet.
pub proof fn law_cut_packet(vtime_ns: u64, size: u32, data: Seq<u8>, short: Seq<u8>)
    requires
        data.len() < size,
        short.len() < 12,
    ensures
        ({
            let read = radio::packet_of(
                wire::le_bytes(vtime_ns as nat, 8) + wire::le_bytes(size as nat, 4) + data,
            );
            &&& read is Some
            &&& read->0.vtime_ns == vtime_ns
            &&& read->0.data.len() == size
            &&& forall|i: int| 0 <= i < size ==> #[trigger] read->0.data[i] == 0
        }),
        radio::packet_of(short) is None,
{
    let a = wire::le_bytes(vtime_ns as nat, 8);
    let b = wire::le_bytes(size as nat, 4);
    wire_laws::lemma_byte_ranges();
    wire_laws::lemma_number_in(Seq::empty(), vtime_ns as nat, 8, b + data);
    assert(Seq::<u8>::empty() + a + (b + data) =~= a + b + data);
    wire_laws::lemma_number_in(a, size as nat, 4, data);
}

proof fn lemma_heard_filter(list: Seq<Seq<char>>, neighbors: Seq<Seq<char>>, n: int)
    requires
        0 <= n <= list.len(),
    ensures
        radio::heard_by(list, neighbors, n) == list.take(n).filter(
            |x: Seq<char>| neighbors.contains(x),
        ),
    decreases n,
{
    reveal(Seq::filter);
    if n > 0 {
        lemma_heard_filter(list, neighbors, n - 1);
        assert(list.take(n).drop_last() =~= list.take(n - 1));
        assert(list.take(n).last() == list[n - 1]);
    }
}

/// Where no links are laid down all candidates listen; otherwise those that are neighbors do, in
/// their order, and nobody where there is no air.
pub proof fn law_listeners(
    candidates: Seq<Seq<char>>,
    neighbors: Seq<Seq<char>>,
    has_wireless: bool,
)
    ensures
        radio::listeners_of(candidates, false, has_wireless, neighbors) == candidates,
        radio::listeners_of(candidates, true, true, neighbors) == candidates.filter(
            |x: Seq<char>| neighbors.contains(x),
        ),
        radio::listeners_of(candidates, true, false, neighbors).len() == 0,
{
    lemma_heard_filter(candidates, neighbors, candidates.len() as int);
    assert(candidates.take(candidates.len() as int) =~= candidates);
}

/// A radio frame arrives when the delay and its time in the air have passed, or at the last moment
/// there is.
pub proof fn law_radio_arrival(vtime_ns: u64, delay_ns: u64, in_air_ns: u64)
    ensures
        ({
            let due = vtime_ns + delay_ns + in_air_ns;
            &&& due <= u64::MAX ==> radio::arrival(vtime_ns, delay_ns, in_air_ns) == due
            &&& due > u64::MAX ==> radio::arrival(vtime_ns, delay_ns, in_air_ns) == u64::MAX
        }),
{
}

/// A packet that a node hears holds the data that was sent, and tells in its bytes and beside them
/// when it arrives.
pub proof fn law_heard_packet_reads_back(
    src: Seq<char>,
    dst: Seq<char>,
    packet: PacketView,
    delay_ns: u64,
    in_air_ns: u64,
)
    requires
        packet.data.len() < 0x1_0000_0000,
    ensures
        ({
            let m = radio::heard_packet(src, dst, packet, delay_ns, in_air_ns);
            let read = radio::packet_of(m.payload);
            &&& m.src_node_id == src
            &&& m.dst_node_id == dst
            &&& m.protocol == Protocol::RfHci
            &&& m.base_topic == "sim/rf/hci"@
            &&& m.sequence_number == 0
            &&& m.delivery_vtime_ns == radio::arrival(packet.vtime_ns, delay_ns, in_air_ns)
            &&& read is Some
            &&& read->0.vtime_ns == m.delivery_vtime_ns
            &&& read->0.data == packet.data
        }),
{
    radio::law_packet_round_trip(
        radio::arrival(packet.vtime_ns, delay_ns, in_air_ns),
        packet.data,
    );
}

/// Those that are near enough, in their order.
pub open spec fn audible_of(listeners: Seq<ListenerView>) -> Seq<ListenerView> {
    listeners.filter(|l: ListenerView| l.audible)
}

/// Exactly those listeners that are near enough hear a packet or a frame, in their order, each at
/// its own time and a frame with its own strength.
pub proof fn law_who_hears(
    src: Seq<char>,
    packet: PacketView,
    vtime_ns: u64,
    delay_ns: u64,
    listeners: Seq<ListenerView>,
)
    ensures
        ({
            let near = audible_of(listeners);
            let packets = radio::heard_packets(src, packet, delay_ns, listeners);
            let arrivals = radio::heard_frames(vtime_ns, delay_ns, listeners);
            &&& packets.len() == near.len()
            &&& arrivals.len() == near.len()
            &&& forall|i: int|
                0 <= i < near.len() ==> #[trigger] packets[i] == radio::heard_packet(
                    src,
                    near[i].dst,
                    packet,
                    delay_ns,
                    near[i].in_air_ns,
                )
            &&& forall|i: int|
                0 <= i < near.len() ==> (#[trigger] arrivals[i]).dst == near[i].dst
                    && arrivals[i].rssi == near[i].rssi && arrivals[i].at == radio::arrival(
                    vtime_ns,
                    delay_ns,
                    near[i].in_air_ns,
                )
        }),
    decreases listeners.len(),
{
    reveal(Seq::filter);
    if listeners.len() > 0 {
        law_who_hears(src, packet, vtime_ns, delay_ns, listeners.drop_last());
    }
}

proof fn lemma_others_are_added(
    found: Seq<Seq<char>>,
    nodes: Seq<u32>,
    node: u32,
    n: int,
    j: int,
    name: Seq<char>,
)
    requires
        0 <= n <= nodes.len(),
    ensures
        found.contains(name) ==> reach::with_others(found, nodes, node, n).contains(name),
        0 <= j < n && nodes[j] != node ==> reach::with_others(found, nodes, node, n).contains(
            text::decimal(nodes[j] as nat),
        ),
        found.no_duplicates() ==> reach::with_others(found, nodes, node, n).no_duplicates(),
    decreases n,
{
    if n > 0 {
        lemma_others_are_added(found, nodes, node, n - 1, j, name);
        let front = reach::with_others(found, nodes, node, n - 1);
        let own = text::decimal(nodes[n - 1] as nat);
        law_member(front, own);
        let then = relay::with_member(front, own);
        if front.contains(name) {
            let k = front.index_of(name);
            assert(then.take(front.len() as int)[k] == name);
            assert(then[k] == name);
        }
        if 0 <= j < n - 1 && nodes[j] != node {
            let other = text::decimal(nodes[j] as nat);
            let k = front.index_of(other);
            assert(then.take(front.len() as int)[k] == other);
            assert(then[k] == other);
        }
    }
}

/// Every other node on one of a node's links of that protocol is its peer, and no peer is listed
/// twice.
pub proof fn law_links_make_peers(
    wires: Seq<WireLinkView>,
    protocol: Protocol,
    node: u32,
    n: int,
    k: int,
    j: int,
)
    requires
        0 <= n <= wires.len(),
    ensures
        0 <= k < n && wires[k].protocol == protocol && wires[k].nodes.contains(node) && 0 <= j
            < wires[k].nodes.len() && wires[k].nodes[j] != node ==> reach::peers_on(
            wires,
            protocol,
            node,
            n,
        ).contains(text::decimal(wires[k].nodes[j] as nat)),
        reach::peers_on(wires, protocol, node, n).no_duplicates(),
    decreases n,
{
    if n > 0 {
        law_links_make_peers(wires, protocol, node, n - 1, k, j);
        let front = reach::peers_on(wires, protocol, node, n - 1);
        let link = wires[n - 1];
        let name = text::decimal(wires[k].nodes[j] as nat);
        lemma_others_are_added(front, link.nodes, node, link.nodes.len() as int, j, name);
    }
}

/// A registered node is one to which traffic passes if and only if the links let it.
pub proof fn law_permitted(g: GraphView, protocol: Protocol, node: u32, n: int, name: Seq<char>)
    requires
        0 <= n <= g.routes.len(),
    ensures
        reach::permitted(g, protocol, node, n).contains(name) <==> exists|i: int|
            0 <= i < n && (#[trigger] g.routes[i]).0 == name && reach::node_number(name) is Some
                && graph::link_allowed(g, node, reach::node_number(name)->0, protocol),
    decreases n,
{
    if n > 0 {
        law_permitted(g, protocol, node, n - 1, name);
        let front = reach::permitted(g, protocol, node, n - 1);
        let all = reach::permitted(g, protocol, node, n);
        let own = g.routes[n - 1].0;
        let passes = reach::node_number(own) is Some && graph::link_allowed(
            g,
            node,
            reach::node_number(own)->0,
            protocol,
        );
        if front.contains(name) {
            let k = front.index_of(name);
            assert(all[k] == name);
            let i = choose|i: int|
                0 <= i < n - 1 && (#[trigger] g.routes[i]).0 == name && reach::node_number(
                    name,
                ) is Some && graph::link_allowed(
                    g,
                    node,
                    reach::node_number(name)->0,
                    protocol,
                );
            assert(g.routes[i].0 == name);
        } else if own == name && passes {
            assert(all[front.len() as int] == name);
            assert(g.routes[n - 1].0 == name);
        } else if all.contains(name) {
            let k = all.index_of(name);
            if k < front.len() {
                assert(front[k] == name);
            }
        }
    }
}

/// A frame that is cut off brings nothing and one that cannot be read is broken, and neither costs a
/// chance. A whole frame goes all the ways of its sender, which is noted first; without ways that are
/// registered it goes nowhere.
pub proof fn law_wired_frames(
    s: RelayState,
    chance: (u64, Draws),
    g: GraphView,
    channel: Channel,
    src: Seq<char>,
    frame: FrameView,
    hops: Seq<HopView>,
)
    ensures
        handlers::wired(s, chance, g, channel, src, FrameReadingView::CutOff) == (
            HandledView::Nothing,
            chance.1,
        ),
        handlers::wired(s, chance, g, channel, src, FrameReadingView::Broken) == (
            HandledView::Broken,
            chance.1,
        ),
        ({
            let noted = relay::noted(s, channel, src);
            let ways = relay::hops_of(noted, channel, src, reach::reach_in(g, channel, src));
            let (r, then) = handlers::wired(
                s,
                chance,
                g,
                channel,
                src,
                FrameReadingView::Frame(frame),
            );
            let all = chance::all_travelled(
                chance.0,
                chance.1,
                channel,
                src,
                hops,
                frame,
                hops.len() as int,
            );
            &&& ways is None ==> r == HandledView::Unregistered && then == chance.1
            &&& ways == Some(hops) ==> r == HandledView::Messages(all.0) && then == all.1
        }),
{
}

/// Over the air the candidates are those in range where a range is given, and all other known nodes
/// where none is; with links laid down only neighbors of the sender are among them, and nobody
/// where the sender has no number.
pub proof fn law_heard_over_the_air(
    s: RelayState,
    g: GraphView,
    channel: Channel,
    node: u32,
    near: Seq<Seq<char>>,
    x: Seq<char>,
    nameless: Seq<char>,
)
    requires
        text::parsed_unsigned(nameless, u32::MAX as nat) is None,
    ensures
        ({
            let src = text::decimal(node as nat);
            let known = s.known[channel.position()];
            let others = known.filter(|n: Seq<char>| n != src);
            let is_neighbor = exists|i: int|
                0 <= i < graph::neighbors(g, node).len() && #[trigger] text::decimal(
                    graph::neighbors(g, node)[i] as nat,
                ) == x;
            let ranged = handlers::heard_by(s, g, channel, src, Some(near));
            let free = handlers::heard_by(s, g, channel, src, None);
            &&& !g.explicit ==> ranged == near && free == others
            &&& g.explicit && g.wireless is None ==> ranged.len() == 0 && free.len() == 0
            &&& g.explicit && g.wireless is Some ==> (ranged.contains(x) <==> near.contains(x)
                && is_neighbor)
            &&& g.explicit && g.wireless is Some ==> (free.contains(x) <==> others.contains(x)
                && is_neighbor)
            &&& g.explicit ==> !handlers::heard_by(s, g, channel, nameless, Some(near)).contains(x)
        }),
{
    let src = text::decimal(node as nat);
    let known = s.known[channel.position()];
    text::law_decimal_reads_back(node as nat, u32::MAX as nat);
    law_others(known, src);
    let near_nodes = graph::neighbors(g, node);
    let names = handlers::names_of(near_nodes);
    let others = known.filter(|n: Seq<char>| n != src);
    law_listeners(near, names, g.wireless is Some);
    law_listeners(others, names, g.wireless is Some);
    law_listeners(near, Seq::empty(), g.wireless is Some);
    lemma_filter_contains(near, names, x);
    lemma_filter_contains(others, names, x);
    lemma_filter_contains(near, Seq::empty(), x);
    if names.contains(x) {
        let i = names.index_of(x);
        assert(text::decimal(near_nodes[i] as nat) == x);
    }
    if exists|i: int|
        0 <= i < near_nodes.len() && #[trigger] text::decimal(near_nodes[i] as nat) == x {
        let i = choose|i: int|
            0 <= i < near_nodes.len() && #[trigger] text::decimal(near_nodes[i] as nat) == x;
        assert(names[i] == x);
    }
}

proof fn lemma_filter_contains(list: Seq<Seq<char>>, names: Seq<Seq<char>>, x: Seq<char>)
    ensures
        list.filter(|n: Seq<char>| names.contains(n)).contains(x) <==> list.contains(x)
            && names.contains(x),
    decreases list.len(),
{
    reveal(Seq::filter);
    let p = |n: Seq<char>| names.contains(n);
    if list.len() > 0 {
        let front = list.drop_last();
        lemma_filter_contains(front, names, x);
        let kept = front.filter(p);
        if front.contains(x) {
            assert(list[front.index_of(x)] == x);
        }
        if list.contains(x) && x != list.last() {
            assert(front[list.index_of(x)] == x);
        }
        if names.contains(list.last()) {
            let more = kept.push(list.last());
            assert(more[kept.len() as int] == list.last());
            if kept.contains(x) {
                assert(more[kept.index_of(x)] == x);
            }
            if more.contains(x) && x != list.last() {
                assert(kept[more.index_of(x)] == x);
            }
        }
        assert(list[list.len() - 1] == list.last());
    } else {
        assert(list.filter(p).len() == 0);
    }
}

/// A node's word is taken exactly if it is on the quantum that runs, the node takes part, and it has
/// not said it before; otherwise the refusal says the first of these that fails.
pub proof fn law_refusals(b: BarrierView<EnvelopeView>, node: u32, quantum: u64, current: u64)
    ensures
        ({
            let r = quanta::refusal(b, node, quantum, current);
            let known = node < b.done.len();
            &&& quantum != current ==> r == Some(
                (BarrierError::QuantumMismatch { expected: current, got: quantum }),
            )
            &&& quantum == current && !known ==> r == Some(BarrierError::NodeIndexOutOfBounds(node))
            &&& quantum == current && known && b.done[node as int] ==> r == Some(
                BarrierError::DuplicateDone,
            )
            &&& quantum == current && known && !b.done[node as int] ==> r is None
        }),
{
}

/// What is held of a node is what its first entry holds, and nothing where it has none.
pub proof fn law_held_messages(entries: Seq<NodeBatchView>, node: Seq<char>, i: int, k: int)
    requires
        0 <= i <= k <= entries.len(),
        k < entries.len() ==> entries[k].node == node,
        forall|j: int| i <= j < k ==> (#[trigger] entries[j]).node != node,
    ensures
        batches::held_from(entries, node, i) == if k < entries.len() {
            entries[k].messages
        } else {
            Seq::empty()
        },
    decreases k - i,
{
    if i < k {
        assert(entries[i].node != node);
        law_held_messages(entries, node, i + 1, k);
    }
}

/// A frame of this kind of bus is passed on for its time alone.
pub proof fn law_frames_without_data(vtime_ns: u64)
    ensures
        handlers::lin_frame(vtime_ns).vtime_ns == vtime_ns,
        handlers::lin_frame(vtime_ns).sequence_number == 0,
        handlers::lin_frame(vtime_ns).data.len() == 0,
{
}

/// A chance of `(1 + f / 2^52) / 2^(1023 - e)` is met by a word whose upper bits, as a part of all,
/// are below it.
pub proof fn law_chances(word: u64, e: u64, f: u64, k: nat)
    requires
        1 <= e < 1023,
        f < 0x10_0000_0000_0000,
        1 <= k <= 53,
    ensures
        chance::is_below(word, (e * 0x10_0000_0000_0000 + f) as u64) <==> (word / 2048)
            * power2::pow2((1022 - e) as nat) < 0x10_0000_0000_0000 + f,
        chance::is_below(word, ((1023 - k) * 0x10_0000_0000_0000) as u64) <==> word < power2::pow2(
            (64 - k) as nat,
        ),
        0 < f ==> (chance::is_below(word, f) <==> (word / 2048) * power2::pow2(1021) < f),
        !chance::is_below(word, 0),
{
    let range: int = 0x10_0000_0000_0000;
    let bits = (e * range + f) as u64;
    assert(bits as int / range == e && bits as int % range == f) by {
        vstd::arithmetic::div_mod::lemma_fundamental_div_mod_converse(
            bits as int,
            range,
            e as int,
            f as int,
        );
    }
    let half = ((1023 - k) * range) as u64;
    vstd::arithmetic::div_mod::lemma_fundamental_div_mod_converse(half as int, range, 1023 - k, 0);
    assert(chance::significand(half) == range);
    assert(chance::places(half) == k - 1);
    power2::lemma2_to64();
    power2::lemma2_to64_rest();
    power2::lemma_pow2_adds((k - 1) as nat, (53 - k) as nat);
    power2::lemma_pow2_adds(11, (53 - k) as nat);
    power2::lemma_pow2_pos((k - 1) as nat);
    let a = power2::pow2((k - 1) as nat) as int;
    let b = power2::pow2((53 - k) as nat) as int;
    let w = (word / 2048) as int;
    assert(w * a < a * b <==> w < b) by (nonlinear_arith)
        requires
            a > 0,
    ;
    assert(w < b <==> word < 2048 * b);
}

} // verus!
