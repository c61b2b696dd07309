//! Radio: frames of short packets, and who hears them.
use vstd::prelude::*;

use crate::deterministic_coordinator::session;
use crate::deterministic_coordinator::session::saturating_sum_exec;
use crate::sorting;
use crate::text::{lists_item, no_items, owned, push_item};
use crate::wire;
use crate::wire::{copy_range, push_bytes, push_le, u32_at, u64_at};
use crate::zenoh_coordinator::relay;
use crate::zenoh_coordinator::relay::{Channel, RelayMessage};

verus! {

/// The bytes before the data of a packet.
pub const PACKET_HEADER: usize = 12;

/// What a packet carries.
#[derive(Debug, Clone, PartialEq, Eq)]
pub struct Packet {
    pub vtime_ns: u64,
    pub data: Vec<u8>,
}

#[verifier::ext_equal]
pub struct PacketView {
    pub vtime_ns: u64,
    pub data: Seq<u8>,
}

impl View for Packet {
    type V = PacketView;

    open spec fn view(&self) -> PacketView {
        PacketView { vtime_ns: self.vtime_ns, data: self.data@ }
    }
}

/// What the bytes of a packet hold: a time, a size and that much data. Data that is cut off counts
/// as zeros.
pub open spec fn packet_of(bytes: Seq<u8>) -> Option<PacketView> {
    if bytes.len() < 12 {
        None
    } else {
        let size = wire::le_at(bytes, 8, 4);
        Some(
            PacketView {
                vtime_ns: wire::le_at(bytes, 0, 8) as u64,
                data: if bytes.len() >= 12 + size {
                    bytes.subrange(12, 12 + size as int)
                } else {
                    Seq::new(size, |i: int| 0u8)
                },
            },
        )
    }
}

fn zeros(n: usize) -> (r: Vec<u8>)
    ensures
        r@ == Seq::new(n as nat, |i: int| 0u8),
{
    let mut r: Vec<u8> = Vec::new();
    while r.len() < n
        invariant
            r@.len() <= n,
            forall|k: int| 0 <= k < r@.len() ==> #[trigger] r@[k] == 0,
        decreases n - r@.len(),
    {
        r.push(0);
    }
    proof {
        assert(r@ =~= Seq::new(n as nat, |i: int| 0u8));
    }
    r
}

/// Reads a packet; `None` if its header is cut off.
pub fn read_packet(bytes: &[u8]) -> (r: Option<Packet>)
    ensures
        match r {
            Some(p) => packet_of(bytes@) == Some(p@),
            None => packet_of(bytes@) is None,
        },
{
    let n: usize = bytes.len();
    if n < PACKET_HEADER {
        return None;
    }
    let vtime_ns: u64 = u64_at(bytes, 0);
    let size: usize = u32_at(bytes, 8) as usize;
    let data = if n - PACKET_HEADER >= size {
        copy_range(bytes, PACKET_HEADER, PACKET_HEADER + size)
    } else {
        zeros(size)
    };
    Some(Packet { vtime_ns, data })
}

/// The bytes of a packet. The size is written with four bytes, so that of too much data is cut
/// down.
pub open spec fn packet_bytes(vtime_ns: u64, data: Seq<u8>) -> Seq<u8> {
    wire::le_bytes(vtime_ns as nat, 8) + wire::le_bytes(data.len() % 0x1_0000_0000, 4) + data
}

/// Writes a packet.
pub fn write_packet(vtime_ns: u64, data: &[u8]) -> (r: Vec<u8>)
    ensures
        r@ == packet_bytes(vtime_ns, data@),
{
    let mut out: Vec<u8> = Vec::new();
    push_le(&mut out, vtime_ns, 8);
    let size: u64 = data.len() as u64 % 0x1_0000_0000;
    push_le(&mut out, size, 4);
    push_bytes(&mut out, data);
    proof {
        assert(out@ =~= packet_bytes(vtime_ns, data@));
    }
    out
}

/// A packet that was written reads back.
pub proof fn law_packet_round_trip(vtime_ns: u64, data: Seq<u8>)
    requires
        data.len() < 0x1_0000_0000,
    ensures
        packet_of(packet_bytes(vtime_ns, data)) == Some(PacketView { vtime_ns, data }),
{
    let bytes = packet_bytes(vtime_ns, data);
    let size = data.len() % 0x1_0000_0000;
    wire::lemma_le_bytes_len(vtime_ns as nat, 8);
    wire::lemma_le_bytes_len(size, 4);
    reveal_with_fuel(wire::byte_range, 9);
    wire::law_le_round_trip(vtime_ns as nat, 8);
    wire::law_le_round_trip(size, 4);
    assert(bytes.subrange(0, 8) =~= wire::le_bytes(vtime_ns as nat, 8));
    assert(bytes.subrange(8, 12) =~= wire::le_bytes(size, 4));
    assert(bytes.subrange(12, 12 + data.len() as int) =~= data);
}

/// Those of the first `n` nodes that are also in another list.
pub open spec fn heard_by(list: Seq<Seq<char>>, neighbors: Seq<Seq<char>>, n: int) -> Seq<Seq<char>>
    decreases n,
{
    if n <= 0 || n > list.len() {
        Seq::empty()
    } else if neighbors.contains(list[n - 1]) {
        heard_by(list, neighbors, n - 1).push(list[n - 1])
    } else {
        heard_by(list, neighbors, n - 1)
    }
}

/// The nodes that may hear a sender: where links are laid down, only its neighbors over the air,
/// and none where there is no air.
pub open spec fn listeners_of(
    candidates: Seq<Seq<char>>,
    is_explicit: bool,
    has_wireless: bool,
    neighbors: Seq<Seq<char>>,
) -> Seq<Seq<char>> {
    if !is_explicit {
        candidates
    } else if has_wireless {
        heard_by(candidates, neighbors, candidates.len() as int)
    } else {
        Seq::empty()
    }
}

/// The nodes that may hear a sender.
pub fn listeners(
    candidates: Vec<String>,
    is_explicit: bool,
    has_wireless: bool,
    neighbors: &Vec<String>,
) -> (r: Vec<String>)
    ensures
        sorting::views(r@) == listeners_of(
            sorting::views(candidates@),
            is_explicit,
            has_wireless,
            sorting::views(neighbors@),
        ),
{
    if !is_explicit {
        return candidates;
    }
    let mut r = no_items();
    if !has_wireless {
        return r;
    }
    let ghost all = sorting::views(candidates@);
    let mut i: usize = 0;
    while i < candidates.len()
        invariant
            i <= candidates@.len(),
            all == sorting::views(candidates@),
            sorting::views(r@) == heard_by(all, sorting::views(neighbors@), i as int),
        decreases candidates@.len() - i,
    {
        proof {
            assert(all[i as int] == candidates@[i as int]@);
        }
        if lists_item(neighbors, candidates[i].as_str()) {
            push_item(&mut r, candidates[i].as_str());
        }
        i += 1;
    }
    r
}

/// When a radio frame arrives: after the relay's delay and the time that it is in the air.
pub open spec fn arrival(vtime_ns: u64, delay_ns: u64, in_air_ns: u64) -> u64 {
    session::saturating_sum(vtime_ns, session::saturating_sum(delay_ns, in_air_ns))
}

/// When a radio frame arrives.
pub fn arrival_time(vtime_ns: u64, delay_ns: u64, in_air_ns: u64) -> (r: u64)
    ensures
        r == arrival(vtime_ns, delay_ns, in_air_ns),
{
    let late: u64 = saturating_sum_exec(delay_ns, in_air_ns);
    saturating_sum_exec(vtime_ns, late)
}

/// The packet that one node hears.
pub open spec fn heard_packet(
    src: Seq<char>,
    dst: Seq<char>,
    packet: PacketView,
    delay_ns: u64,
    in_air_ns: u64,
) -> relay::RelayView {
    let at = arrival(packet.vtime_ns, delay_ns, in_air_ns);
    relay::RelayView {
        src_node_id: src,
        dst_node_id: dst,
        base_topic: Channel::RfHci.base(),
        delivery_vtime_ns: at,
        sequence_number: 0,
        protocol: Channel::RfHci.frame_protocol(),
        payload: packet_bytes(at, packet.data),
    }
}

/// The packet that one node hears.
pub fn packet_message(src: &str, dst: &str, packet: &Packet, delay_ns: u64, in_air_ns: u64) -> (r:
    RelayMessage)
    ensures
        r@ == heard_packet(src@, dst@, packet@, delay_ns, in_air_ns),
{
    let at: u64 = arrival_time(packet.vtime_ns, delay_ns, in_air_ns);
    let channel = Channel::RfHci;
    RelayMessage {
        src_node_id: owned(src),
        dst_node_id: owned(dst),
        base_topic: channel.base_topic(),
        delivery_vtime_ns: at,
        sequence_number: 0,
        protocol: channel.protocol(),
        payload: write_packet(at, packet.data.as_slice()),
    }
}

/// The frame that one node hears; `payload` is the frame as it was written for the arrival time.
pub fn frame_message(src: &str, dst: &str, at: u64, sequence_number: u64, payload: Vec<u8>) -> (r:
    RelayMessage)
    ensures
        r@ == (relay::RelayView {
            src_node_id: src@,
            dst_node_id: dst@,
            base_topic: Channel::Rf802154.base(),
            delivery_vtime_ns: at,
            sequence_number,
            protocol: Channel::Rf802154.frame_protocol(),
            payload: payload@,
        }),
{
    let channel = Channel::Rf802154;
    RelayMessage {
        src_node_id: owned(src),
        dst_node_id: owned(dst),
        base_topic: channel.base_topic(),
        delivery_vtime_ns: at,
        sequence_number,
        protocol: channel.protocol(),
        payload,
    }
}

/// A node that a transmission may reach.
#[derive(Debug, Clone, PartialEq, Eq)]
pub struct Listener {
    pub dst: String,
    /// Whether the signal is strong enough there.
    pub audible: bool,
    /// How long the signal is on its way.
    pub in_air_ns: u64,
    /// The strength of the signal there.
    pub rssi: i8,
}

#[verifier::ext_equal]
pub struct ListenerView {
    pub dst: Seq<char>,
    pub audible: bool,
    pub in_air_ns: u64,
    pub rssi: i8,
}

impl View for Listener {
    type V = ListenerView;

    open spec fn view(&self) -> ListenerView {
        ListenerView {
            dst: self.dst@,
            audible: self.audible,
            in_air_ns: self.in_air_ns,
            rssi: self.rssi,
        }
    }
}

/// The packets that the listeners hear, in the order of the listeners.
pub open spec fn heard_packets(
    src: Seq<char>,
    packet: PacketView,
    delay_ns: u64,
    listeners: Seq<ListenerView>,
) -> Seq<relay::RelayView>
    decreases listeners.len(),
{
    if listeners.len() == 0 {
        Seq::empty()
    } else {
        let before = heard_packets(src, packet, delay_ns, listeners.drop_last());
        let l = listeners.last();
        if l.audible {
            before.push(heard_packet(src, l.dst, packet, delay_ns, l.in_air_ns))
        } else {
            before
        }
    }
}

/// The packets that the listeners hear, in the order of the listeners.
pub fn packet_messages(src: &str, packet: &Packet, delay_ns: u64, listeners: &Vec<Listener>) -> (r:
    Vec<RelayMessage>)
    ensures
        sorting::views(r@) == heard_packets(src@, packet@, delay_ns, sorting::views(listeners@)),
{
    let mut r: Vec<RelayMessage> = Vec::new();
    let ghost all = sorting::views(listeners@);
    let mut i: usize = 0;
    proof {
        assert(sorting::views(r@) =~= heard_packets(src@, packet@, delay_ns, all.take(0)));
    }
    while i < listeners.len()
        invariant
            i <= listeners.len(),
            all == sorting::views(listeners@),
            sorting::views(r@) == heard_packets(src@, packet@, delay_ns, all.take(i as int)),
        decreases listeners.len() - i,
    {
        let ghost before = r@;
        proof {
            assert(all.take(i + 1).drop_last() =~= all.take(i as int));
            assert(all.take(i + 1).last() == listeners@[i as int]@);
        }
        let l = &listeners[i];
        if l.audible {
            r.push(packet_message(src, l.dst.as_str(), packet, delay_ns, l.in_air_ns));
            proof {
                assert(sorting::views(r@) =~= sorting::views(before).push(r@.last()@));
            }
        }
        i = i + 1;
    }
    proof {
        assert(all.take(i as int) =~= all);
    }
    r
}

/// Where and when a frame arrives.
#[derive(Debug, Clone, PartialEq, Eq)]
pub struct Arrival {
    pub dst: String,
    pub at: u64,
    pub rssi: i8,
}

#[verifier::ext_equal]
pub struct ArrivalView {
    pub dst: Seq<char>,
    pub at: u64,
    pub rssi: i8,
}

impl View for Arrival {
    type V = ArrivalView;

    open spec fn view(&self) -> ArrivalView {
        ArrivalView { dst: self.dst@, at: self.at, rssi: self.rssi }
    }
}

/// Where and when a frame arrives, in the order of the listeners.
pub open spec fn heard_frames(vtime_ns: u64, delay_ns: u64, listeners: Seq<ListenerView>) -> Seq<
    ArrivalView,
>
    decreases listeners.len(),
{
    if listeners.len() == 0 {
        Seq::empty()
    } else {
        let before = heard_frames(vtime_ns, delay_ns, listeners.drop_last());
        let l = listeners.last();
        if l.audible {
            before.push(
                ArrivalView {
                    dst: l.dst,
                    at: arrival(vtime_ns, delay_ns, l.in_air_ns),
                    rssi: l.rssi,
                },
            )
        } else {
            before
        }
    }
}

/// Where and when a frame arrives, in the order of the listeners.
pub fn frame_arrivals(vtime_ns: u64, delay_ns: u64, listeners: &Vec<Listener>) -> (r: Vec<Arrival>)
    ensures
        sorting::views(r@) == heard_frames(vtime_ns, delay_ns, sorting::views(listeners@)),
{
    let mut r: Vec<Arrival> = Vec::new();
    let ghost all = sorting::views(listeners@);
    let mut i: usize = 0;
    proof {
        assert(sorting::views(r@) =~= heard_frames(vtime_ns, delay_ns, all.take(0)));
    }
    while i < listeners.len()
        invariant
            i <= listeners.len(),
            all == sorting::views(listeners@),
            sorting::views(r@) == heard_frames(vtime_ns, delay_ns, all.take(i as int)),
        decreases listeners.len() - i,
    {
        let ghost before = r@;
        proof {
            assert(all.take(i + 1).drop_last() =~= all.take(i as int));
            assert(all.take(i + 1).last() == listeners@[i as int]@);
        }
        let l = &listeners[i];
        if l.audible {
            r.push(
                Arrival {
                    dst: owned(l.dst.as_str()),
                    at: arrival_time(vtime_ns, delay_ns, l.in_air_ns),
                    rssi: l.rssi,
                },
            );
            proof {
                assert(sorting::views(r@) =~= sorting::views(before).push(r@.last()@));
            }
        }
        i = i + 1;
    }
    proof {
        assert(all.take(i as int) =~= all);
    }
    r
}

} // verus!
