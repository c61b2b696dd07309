//! Passing frames on: to whom, and when they arrive.
use vstd::prelude::*;

use crate::deterministic_coordinator::frames::FrameHeader;
use crate::deterministic_coordinator::session;
use crate::deterministic_coordinator::session::saturating_sum_exec;
use crate::deterministic_coordinator::topology;
use crate::deterministic_coordinator::topology::{Protocol, RoutingMap};
use crate::deterministic_coordinator::barrier::CoordMessage;
use crate::deterministic_coordinator::frames;
use crate::sorting;
use crate::text;
use crate::text::{
    decimal_text, items_copy, lists_item, no_items, numbered, owned, push_item, same_text,
};
use crate::wire;
use crate::wire::{copy_range, push_le, u64_at};
use crate::zenoh_coordinator::links;
use crate::zenoh_coordinator::links::{LinkStates, TopologyUpdate};

verus! {

/// A kind of traffic, with topics of its own.
#[derive(Debug, Clone, Copy, PartialEq, Eq, Structural)]
pub enum Channel {
    Ethernet,
    Uart,
    SystemC,
    Chardev,
    Rf802154,
    RfHci,
    Lin,
}

impl Channel {
    /// What the topics of the channel begin with.
    pub open spec fn base(self) -> Seq<char> {
        match self {
            Channel::Ethernet => "sim/eth/frame"@,
            Channel::Uart => "virtmcu/uart"@,
            Channel::SystemC => "sim/systemc/frame"@,
            Channel::Chardev => "sim/chardev"@,
            Channel::Rf802154 => "sim/rf/ieee802154"@,
            Channel::RfHci => "sim/rf/hci"@,
            Channel::Lin => "sim/lin"@,
        }
    }

    /// The protocol by whose links the channel's frames travel.
    pub open spec fn link_protocol(self) -> Protocol {
        match self {
            Channel::Ethernet => Protocol::Ethernet,
            Channel::Uart => Protocol::Uart,
            Channel::SystemC => Protocol::Spi,
            Channel::Chardev => Protocol::ReferenceLink,
            Channel::Rf802154 => Protocol::Rf802154,
            Channel::RfHci => Protocol::RfHci,
            Channel::Lin => Protocol::Lin,
        }
    }

    /// The protocol that the channel's frames are passed on with: those of SystemC go as Ethernet.
    pub open spec fn frame_protocol(self) -> Protocol {
        match self {
            Channel::SystemC => Protocol::Ethernet,
            _ => self.link_protocol(),
        }
    }

    /// The position of the channel among all channels.
    pub open spec fn position(self) -> int {
        match self {
            Channel::Ethernet => 0,
            Channel::Uart => 1,
            Channel::SystemC => 2,
            Channel::Chardev => 3,
            Channel::Rf802154 => 4,
            Channel::RfHci => 5,
            Channel::Lin => 6,
        }
    }

    /// What the topics of the channel begin with.
    pub fn base_topic(&self) -> (r: String)
        ensures
            r@ == self.base(),
    {
        match self {
            Channel::Ethernet => owned("sim/eth/frame"),
            Channel::Uart => owned("virtmcu/uart"),
            Channel::SystemC => owned("sim/systemc/frame"),
            Channel::Chardev => owned("sim/chardev"),
            Channel::Rf802154 => owned("sim/rf/ieee802154"),
            Channel::RfHci => owned("sim/rf/hci"),
            Channel::Lin => owned("sim/lin"),
        }
    }

    /// Whether chance has a say in what becomes of the channel's frames.
    pub open spec fn takes_chances(&self) -> bool {
        !(self is SystemC || self is Lin)
    }

    /// Whether the channel's frames always arrive, and on time.
    pub fn is_sure(&self) -> (r: bool)
        ensures
            r == !self.takes_chances(),
    {
        match self {
            Channel::SystemC | Channel::Lin => true,
            _ => false,
        }
    }

    /// The protocol by whose links the channel's frames travel.
    pub fn peer_protocol(&self) -> (r: Protocol)
        ensures
            r == self.link_protocol(),
    {
        match self {
            Channel::Ethernet => Protocol::Ethernet,
            Channel::Uart => Protocol::Uart,
            Channel::SystemC => Protocol::Spi,
            Channel::Chardev => Protocol::ReferenceLink,
            Channel::Rf802154 => Protocol::Rf802154,
            Channel::RfHci => Protocol::RfHci,
            Channel::Lin => Protocol::Lin,
        }
    }

    /// The protocol that the channel's frames are passed on with.
    pub fn protocol(&self) -> (r: Protocol)
        ensures
            r == self.frame_protocol(),
    {
        match self {
            Channel::SystemC => Protocol::Ethernet,
            _ => self.peer_protocol(),
        }
    }

    fn index(&self) -> (r: usize)
        ensures
            r == self.position(),
    {
        match self {
            Channel::Ethernet => 0,
            Channel::Uart => 1,
            Channel::SystemC => 2,
            Channel::Chardev => 3,
            Channel::Rf802154 => 4,
            Channel::RfHci => 5,
            Channel::Lin => 6,
        }
    }

    /// The topic on which a node sends.
    pub fn tx_topic(&self, node: &str) -> (r: String)
        ensures
            r@ == self.base() + "/"@ + node@ + "/tx"@,
    {
        text::joined4(self.base_topic().as_str(), "/", node, "/tx")
    }
}

/// The topic on which a node receives.
pub fn rx_topic(base: &str, node: &str) -> (r: String)
    ensures
        r@ == base@ + "/"@ + node@ + "/rx"@,
{
    text::joined4(base, "/", node, "/rx")
}

/// A message on its way to one node.
#[derive(Debug, PartialEq, Eq)]
pub struct RelayMessage {
    pub src_node_id: String,
    pub dst_node_id: String,
    pub base_topic: String,
    pub delivery_vtime_ns: u64,
    pub sequence_number: u64,
    pub protocol: Protocol,
    pub payload: Vec<u8>,
}

#[verifier::ext_equal]
pub struct RelayView {
    pub src_node_id: Seq<char>,
    pub dst_node_id: Seq<char>,
    pub base_topic: Seq<char>,
    pub delivery_vtime_ns: u64,
    pub sequence_number: u64,
    pub protocol: Protocol,
    pub payload: Seq<u8>,
}

impl View for RelayMessage {
    type V = RelayView;

    open spec fn view(&self) -> RelayView {
        RelayView {
            src_node_id: self.src_node_id@,
            dst_node_id: self.dst_node_id@,
            base_topic: self.base_topic@,
            delivery_vtime_ns: self.delivery_vtime_ns,
            sequence_number: self.sequence_number,
            protocol: self.protocol,
            payload: self.payload@,
        }
    }
}

/// What a frame carries.
#[derive(Debug, Clone, PartialEq, Eq)]
pub struct Frame {
    pub vtime_ns: u64,
    pub sequence_number: u64,
    pub data: Vec<u8>,
}

#[verifier::ext_equal]
pub struct FrameView {
    pub vtime_ns: u64,
    pub sequence_number: u64,
    pub data: Seq<u8>,
}

impl View for Frame {
    type V = FrameView;

    open spec fn view(&self) -> FrameView {
        FrameView {
            vtime_ns: self.vtime_ns,
            sequence_number: self.sequence_number,
            data: self.data@,
        }
    }
}

/// How reading a frame went.
#[derive(Debug, Clone, PartialEq, Eq)]
pub enum FrameReading {
    /// The bytes are too few.
    CutOff,
    /// The bytes are enough but are no frame.
    Broken,
    Frame(Frame),
}

pub enum FrameReadingView {
    CutOff,
    Broken,
    Frame(FrameView),
}

impl View for FrameReading {
    type V = FrameReadingView;

    open spec fn view(&self) -> FrameReadingView {
        match self {
            FrameReading::CutOff => FrameReadingView::CutOff,
            FrameReading::Broken => FrameReadingView::Broken,
            FrameReading::Frame(f) => FrameReadingView::Frame(f@),
        }
    }
}

/// Where the data of Ethernet frames and of serial lines begins.
pub const DATA_AT: usize = 20;

/// The channel's frames must be readable once they are long enough.
pub open spec fn is_strict(channel: Channel) -> bool {
    channel is Ethernet || channel is Uart
}

/// What the bytes of a frame hold, given its header and how long headers are. The data of a strict
/// channel begins at a fixed place, that of others behind the header.
pub open spec fn frame_of(
    channel: Channel,
    bytes: Seq<u8>,
    header: Option<FrameHeader>,
    header_size: nat,
) -> FrameReadingView {
    let least = if is_strict(channel) {
        DATA_AT as nat
    } else {
        header_size
    };
    if bytes.len() < least {
        FrameReadingView::CutOff
    } else {
        match header {
            None => if is_strict(channel) {
                FrameReadingView::Broken
            } else {
                FrameReadingView::CutOff
            },
            Some(h) => {
                let end = header_size + h.size;
                if bytes.len() < end {
                    FrameReadingView::CutOff
                } else if end < least {
                    FrameReadingView::Broken
                } else {
                    FrameReadingView::Frame(
                        FrameView {
                            vtime_ns: h.delivery_vtime_ns,
                            sequence_number: h.sequence_number,
                            data: bytes.subrange(least as int, end as int),
                        },
                    )
                }
            },
        }
    }
}

/// Reads a frame, given its header and how long headers are.
pub fn read_frame(channel: Channel, bytes: &[u8], header: Option<FrameHeader>, header_size: usize) -> (r:
    FrameReading)
    ensures
        r@ == frame_of(channel, bytes@, header, header_size as nat),
{
    let strict: bool = match channel {
        Channel::Ethernet => true,
        Channel::Uart => true,
        _ => false,
    };
    let least: usize = if strict {
        DATA_AT
    } else {
        header_size
    };
    let n: usize = bytes.len();
    if n < least {
        return FrameReading::CutOff;
    }
    let h: FrameHeader = match header {
        None => {
            if strict {
                return FrameReading::Broken;
            } else {
                return FrameReading::CutOff;
            }
        },
        Some(h) => h,
    };
    if n < header_size || n - header_size < h.size as usize {
        return FrameReading::CutOff;
    }
    let end: usize = header_size + h.size as usize;
    if end < least {
        return FrameReading::Broken;
    }
    FrameReading::Frame(
        Frame {
            vtime_ns: h.delivery_vtime_ns,
            sequence_number: h.sequence_number,
            data: copy_range(bytes, least, end),
        },
    )
}

/// Whom a node reaches on a channel.
#[derive(Debug, Clone, PartialEq, Eq)]
pub struct Reach {
    /// The links between nodes are laid down.
    pub is_explicit: bool,
    /// The nodes at the other end of the node's links, where links are laid down.
    pub wire_peers: Vec<String>,
    /// The nodes that the node may send to at all; `None` if the node is not registered.
    pub targets: Option<Vec<String>>,
    /// The nodes to which traffic passes at this time.
    pub allowed: Vec<String>,
}

#[verifier::ext_equal]
pub struct ReachView {
    pub is_explicit: bool,
    pub wire_peers: Seq<Seq<char>>,
    pub targets: Option<Seq<Seq<char>>>,
    pub allowed: Seq<Seq<char>>,
}

impl View for Reach {
    type V = ReachView;

    open spec fn view(&self) -> ReachView {
        ReachView {
            is_explicit: self.is_explicit,
            wire_peers: sorting::views(self.wire_peers@),
            targets: match self.targets {
                Some(t) => Some(sorting::views(t@)),
                None => None,
            },
            allowed: sorting::views(self.allowed@),
        }
    }
}

/// The nodes of a list, with one more that may be there already.
pub open spec fn with_member(list: Seq<Seq<char>>, node: Seq<char>) -> Seq<Seq<char>> {
    if list.contains(node) {
        list
    } else {
        list.push(node)
    }
}

/// Adds a node to a list that may hold it already.
pub fn add_member(list: &mut Vec<String>, node: &str)
    ensures
        sorting::views(final(list)@) == with_member(sorting::views(old(list)@), node@),
{
    if !lists_item(list, node) {
        push_item(list, node);
    }
}

/// The first `n` nodes of a list, without one.
pub open spec fn others(list: Seq<Seq<char>>, node: Seq<char>, n: int) -> Seq<Seq<char>>
    decreases n,
{
    if n <= 0 || n > list.len() {
        Seq::empty()
    } else if list[n - 1] != node {
        others(list, node, n - 1).push(list[n - 1])
    } else {
        others(list, node, n - 1)
    }
}

/// The nodes of a list, without one.
pub fn list_others(list: &Vec<String>, node: &str) -> (r: Vec<String>)
    ensures
        sorting::views(r@) == others(sorting::views(list@), node@, list@.len() as int),
{
    let ghost all = sorting::views(list@);
    let mut r = no_items();
    let mut i: usize = 0;
    while i < list.len()
        invariant
            i <= list@.len(),
            all == sorting::views(list@),
            sorting::views(r@) == others(all, node@, i as int),
        decreases list@.len() - i,
    {
        proof {
            assert(all[i as int] == list@[i as int]@);
        }
        if !same_text(list[i].as_str(), node) {
            push_item(&mut r, list[i].as_str());
        }
        i += 1;
    }
    r
}

/// The nodes that a frame goes to: those at the other end of links, or all that have sent before.
pub open spec fn destinations(src: Seq<char>, known: Seq<Seq<char>>, reach: ReachView) -> Seq<
    Seq<char>,
> {
    if reach.is_explicit {
        reach.wire_peers
    } else {
        others(known, src, known.len() as int)
    }
}

/// The way to one node.
#[derive(Debug, Clone, PartialEq, Eq)]
pub struct Hop {
    pub dst: String,
    pub delay_ns: u64,
    /// The bit pattern of the probability that the frame is lost.
    pub drop_bits: u64,
    pub jitter_ns: u64,
}

#[verifier::ext_equal]
pub struct HopView {
    pub dst: Seq<char>,
    pub delay_ns: u64,
    pub drop_bits: u64,
    pub jitter_ns: u64,
}

impl View for Hop {
    type V = HopView;

    open spec fn view(&self) -> HopView {
        HopView {
            dst: self.dst@,
            delay_ns: self.delay_ns,
            drop_bits: self.drop_bits,
            jitter_ns: self.jitter_ns,
        }
    }
}

/// The channel's frames pass only where the links let them, and may be lost or late.
pub open spec fn is_checked(channel: Channel) -> bool {
    !(channel is SystemC)
}

pub open spec fn may_be_lost(channel: Channel) -> bool {
    !(channel is SystemC) && !(channel is Lin)
}

/// The way to one node over a link.
pub open spec fn hop_over(channel: Channel, dst: Seq<char>, state: links::LinkState) -> HopView {
    if may_be_lost(channel) {
        HopView {
            dst,
            delay_ns: state.delay_ns,
            drop_bits: state.drop_bits,
            jitter_ns: state.jitter_ns,
        }
    } else {
        HopView { dst, delay_ns: state.delay_ns, drop_bits: 0, jitter_ns: 0 }
    }
}

/// The ways to the first `n` destinations: `None` if one of them is not registered.
pub open spec fn hops_to(
    channel: Channel,
    src: Seq<char>,
    dests: Seq<Seq<char>>,
    n: int,
    reach: ReachView,
    known_links: Seq<links::LinkEntryView>,
    delay_ns: u64,
) -> Option<Seq<HopView>>
    decreases n,
{
    if n <= 0 || n > dests.len() {
        Some(Seq::empty())
    } else {
        match hops_to(channel, src, dests, n - 1, reach, known_links, delay_ns) {
            None => None,
            Some(front) => {
                let dst = dests[n - 1];
                if reach.targets is None || !reach.targets->0.contains(dst) {
                    None
                } else if is_checked(channel) && !reach.allowed.contains(dst) {
                    Some(front)
                } else {
                    let state = match links::state_of(known_links, src, dst) {
                        Some(s) => s,
                        None => links::plain_link(delay_ns),
                    };
                    Some(front.push(hop_over(channel, dst, state)))
                }
            },
        }
    }
}

/// The message that travels one way, late by `jitter` beyond the link's delay.
pub open spec fn hop_message_of(
    channel: Channel,
    src: Seq<char>,
    hop: HopView,
    frame: FrameView,
    jitter: u64,
) -> RelayView {
    RelayView {
        src_node_id: src,
        dst_node_id: hop.dst,
        base_topic: channel.base(),
        delivery_vtime_ns: session::saturating_sum(
            frame.vtime_ns,
            session::saturating_sum(hop.delay_ns, jitter),
        ),
        sequence_number: frame.sequence_number,
        protocol: channel.frame_protocol(),
        payload: frame.data,
    }
}

/// The message that travels one way.
pub fn hop_message(channel: Channel, src: &str, hop: &Hop, frame: &Frame, jitter: u64) -> (r:
    RelayMessage)
    ensures
        r@ == hop_message_of(channel, src@, hop@, frame@, jitter),
{
    let late: u64 = saturating_sum_exec(hop.delay_ns, jitter);
    RelayMessage {
        src_node_id: owned(src),
        dst_node_id: owned(hop.dst.as_str()),
        base_topic: channel.base_topic(),
        delivery_vtime_ns: saturating_sum_exec(frame.vtime_ns, late),
        sequence_number: frame.sequence_number,
        protocol: channel.protocol(),
        payload: vstd::slice::slice_to_vec(frame.data.as_slice()),
    }
}

/// A frame never arrives before it was sent, nor before the link's delay has passed, unless time
/// itself ends.
pub proof fn law_frames_arrive_late(
    channel: Channel,
    src: Seq<char>,
    hop: HopView,
    frame: FrameView,
    jitter: u64,
)
    ensures
        ({
            let at = hop_message_of(channel, src, hop, frame, jitter).delivery_vtime_ns;
            &&& frame.vtime_ns <= at
            &&& frame.vtime_ns + hop.delay_ns <= at || at == u64::MAX
        }),
{
}

/// The views of lists of nodes.
pub open spec fn lists_view(s: Seq<Vec<String>>) -> Seq<Seq<Seq<char>>> {
    Seq::new(s.len(), |i: int| sorting::views(s[i]@))
}

/// What the relay knows: who has sent on each channel, and the links.
#[derive(Debug)]
pub struct Relay {
    known: Vec<Vec<String>>,
    links: LinkStates,
    delay_ns: u64,
}

#[verifier::ext_equal]
pub struct RelayState {
    pub known: Seq<Seq<Seq<char>>>,
    pub links: Seq<links::LinkEntryView>,
    pub delay_ns: u64,
}

impl View for Relay {
    type V = RelayState;

    closed spec fn view(&self) -> RelayState {
        RelayState {
            known: lists_view(self.known@),
            links: self.links@,
            delay_ns: self.delay_ns,
        }
    }
}

/// What the relay knows once a node has sent on a channel.
pub open spec fn noted(s: RelayState, channel: Channel, src: Seq<char>) -> RelayState {
    let i = channel.position();
    RelayState { known: s.known.update(i, with_member(s.known[i], src)), ..s }
}

/// The ways that a frame takes.
pub open spec fn hops_of(s: RelayState, channel: Channel, src: Seq<char>, reach: ReachView) -> Option<
    Seq<HopView>,
> {
    let dests = destinations(src, s.known[channel.position()], reach);
    hops_to(channel, src, dests, dests.len() as int, reach, s.links, s.delay_ns)
}

impl Relay {
    /// There is a list of senders for each channel.
    pub closed spec fn wf(&self) -> bool {
        self.known@.len() == 7
    }

    /// Nobody has sent anything.
    pub fn new(delay_ns: u64) -> (r: Self)
        ensures
            r.wf(),
            r@ == (RelayState {
                known: Seq::new(7, |i: int| Seq::empty()),
                links: Seq::empty(),
                delay_ns,
            }),
    {
        let mut known: Vec<Vec<String>> = Vec::new();
        let mut i: usize = 0;
        while i < 7
            invariant
                i <= 7,
                known@.len() == i,
                forall|k: int|
                    0 <= k < i ==> sorting::views((#[trigger] known@[k])@) == Seq::<
                        Seq<char>,
                    >::empty(),
            decreases 7 - i,
        {
            known.push(no_items());
            i += 1;
        }
        let r = Relay { known, links: LinkStates::new(), delay_ns };
        proof {
            assert(r@.known =~= Seq::new(7, |i: int| Seq::empty()));
        }
        r
    }

    /// Takes note of a node that has sent on a channel.
    pub fn note_sender(&mut self, channel: Channel, src: &str)
        requires
            old(self).wf(),
        ensures
            final(self).wf(),
            final(self)@ == noted(old(self)@, channel, src@),
    {
        let i: usize = channel.index();
        let ghost before = self.known@;
        let mut list = items_copy(&self.known[i]);
        add_member(&mut list, src);
        self.known.set(i, list);
        proof {
            assert(self@.known =~= noted(old(self)@, channel, src@).known);
        }
    }

    /// The nodes that have sent on a channel, without one.
    pub fn other_senders(&self, channel: Channel, src: &str) -> (r: Vec<String>)
        requires
            self.wf(),
        ensures
            sorting::views(r@) == ({
                let list = self@.known[channel.position()];
                others(list, src@, list.len() as int)
            }),
    {
        let i: usize = channel.index();
        proof {
            assert(self@.known[i as int] == sorting::views(self.known@[i as int]@));
        }
        list_others(&self.known[i], src)
    }

    /// Changes a link.
    pub fn update_link(&mut self, up: &TopologyUpdate)
        requires
            old(self).wf(),
        ensures
            final(self).wf(),
            final(self)@ == (RelayState {
                links: links::with_update(old(self)@.links, *up, old(self)@.delay_ns),
                ..old(self)@
            }),
    {
        self.links.update(up, self.delay_ns);
    }

    /// The ways that a frame takes; `None` if one of them is not registered, which should not
    /// happen.
    pub fn hops(&self, channel: Channel, src: &str, reach: &Reach) -> (r: Option<Vec<Hop>>)
        requires
            self.wf(),
        ensures
            match r {
                Some(list) => hops_of(self@, channel, src@, reach@) == Some(sorting::views(list@)),
                None => hops_of(self@, channel, src@, reach@) is None,
            },
    {
        let dests = if reach.is_explicit {
            items_copy(&reach.wire_peers)
        } else {
            self.other_senders(channel, src)
        };
        let ghost all = sorting::views(dests@);
        let ghost state = self@;
        let mut list: Vec<Hop> = Vec::new();
        let mut failed: bool = false;
        let mut i: usize = 0;
        proof {
            assert(all == destinations(src@, state.known[channel.position()], reach@));
            assert(sorting::views(list@) =~= Seq::empty());
        }
        while i < dests.len()
            invariant
                i <= dests@.len(),
                all == sorting::views(dests@),
                state == self@,
                failed ==> hops_to(
                    channel,
                    src@,
                    all,
                    i as int,
                    reach@,
                    state.links,
                    state.delay_ns,
                ) is None,
                !failed ==> hops_to(
                    channel,
                    src@,
                    all,
                    i as int,
                    reach@,
                    state.links,
                    state.delay_ns,
                ) == Some(sorting::views(list@)),
            decreases dests@.len() - i,
        {
            let dst = dests[i].as_str();
            proof {
                assert(all[i as int] == dst@);
            }
            let registered: bool = match &reach.targets {
                Some(targets) => lists_item(targets, dst),
                None => false,
            };
            let checked: bool = match channel {
                Channel::SystemC => false,
                _ => true,
            };
            let lossy: bool = match channel {
                Channel::SystemC => false,
                Channel::Lin => false,
                _ => true,
            };
            if !registered {
                failed = true;
            } else if !checked || lists_item(&reach.allowed, dst) {
                let link = self.links.state(src, dst, self.delay_ns);
                let hop = Hop {
                    dst: owned(dst),
                    delay_ns: link.delay_ns,
                    drop_bits: if lossy {
                        link.drop_bits
                    } else {
                        0
                    },
                    jitter_ns: if lossy {
                        link.jitter_ns
                    } else {
                        0
                    },
                };
                let ghost hop_view = hop@;
                let ghost before = sorting::views(list@);
                list.push(hop);
                proof {
                    assert(sorting::views(list@) =~= before.push(hop_view));
                }
            }
            i += 1;
        }
        if failed {
            None
        } else {
            Some(list)
        }
    }
}

/// A message that nobody registered never gets a way: each way leads to a node that the sender may
/// send to.
pub proof fn law_ways_are_registered(
    channel: Channel,
    src: Seq<char>,
    dests: Seq<Seq<char>>,
    n: int,
    reach: ReachView,
    known_links: Seq<links::LinkEntryView>,
    delay_ns: u64,
)
    requires
        0 <= n <= dests.len(),
        hops_to(channel, src, dests, n, reach, known_links, delay_ns) is Some,
    ensures
        forall|i: int|
            0 <= i < hops_to(channel, src, dests, n, reach, known_links, delay_ns)->0.len()
                ==> reach.targets is Some && reach.targets->0.contains(
                #[trigger] hops_to(channel, src, dests, n, reach, known_links, delay_ns)->0[i].dst,
            ),
    decreases n,
{
    if n > 0 {
        law_ways_are_registered(channel, src, dests, n - 1, reach, known_links, delay_ns);
    }
}

/// The protocols that a batch may hold.
pub open spec fn batch_protocol_of(p: u8) -> Protocol {
    if p == 1 {
        Protocol::Uart
    } else if p == 2 {
        Protocol::Spi
    } else if p == 3 {
        Protocol::CanFd
    } else if p == 4 {
        Protocol::FlexRay
    } else if p == 5 {
        Protocol::Lin
    } else {
        Protocol::Ethernet
    }
}

/// The protocol that a number in a batch stands for; a number that stands for none is Ethernet.
pub fn parse_protocol(p: u8) -> (r: Protocol)
    ensures
        r == batch_protocol_of(p),
{
    match p {
        0 => Protocol::Ethernet,
        1 => Protocol::Uart,
        2 => Protocol::Spi,
        3 => Protocol::CanFd,
        4 => Protocol::FlexRay,
        5 => Protocol::Lin,
        _ => Protocol::Ethernet,
    }
}

/// A message of a batch as it is passed on: nodes have names, and there are fewer protocols.
pub open spec fn batch_message_of(
    m: crate::deterministic_coordinator::barrier::CoordMessageView,
) -> RelayView {
    RelayView {
        src_node_id: text::decimal(m.src_node_id as nat),
        dst_node_id: text::decimal(m.dst_node_id as nat),
        base_topic: "sim/coord"@,
        delivery_vtime_ns: m.delivery_vtime_ns,
        sequence_number: m.sequence_number,
        protocol: batch_protocol_of(topology::protocol_rank(m.protocol) as u8),
        payload: m.payload,
    }
}

/// The messages of a batch as they are passed on.
pub open spec fn batch_of(bytes: Seq<u8>) -> Seq<RelayView> {
    Seq::new(
        frames::batch_messages(bytes).len(),
        |i: int| batch_message_of(frames::batch_messages(bytes)[i]),
    )
}

/// A message of a batch keeps the protocol that its number stands for.
pub proof fn law_batch_keeps_protocols(p: u8)
    ensures
        batch_protocol_of(topology::protocol_rank(frames::protocol_of(p)) as u8)
            == batch_protocol_of(p),
{
}

/// Reads the messages of a batch.
pub fn decode_batch(payload: &[u8]) -> (r: Vec<RelayMessage>)
    ensures
        sorting::views(r@) == batch_of(payload@),
{
    let msgs = frames::decode_batch(payload);
    let ghost all = frames::batch_messages(payload@);
    let mut r: Vec<RelayMessage> = Vec::new();
    let mut i: usize = 0;
    while i < msgs.len()
        invariant
            i <= msgs@.len(),
            all == sorting::views(msgs@),
            sorting::views(r@) == Seq::new(i as nat, |k: int| batch_message_of(all[k])),
        decreases msgs@.len() - i,
    {
        let m: &CoordMessage = &msgs[i];
        let ghost before = sorting::views(r@);
        proof {
            assert(all[i as int] == m@);
        }
        let message = RelayMessage {
            src_node_id: decimal_text(m.src_node_id as u64),
            dst_node_id: decimal_text(m.dst_node_id as u64),
            base_topic: owned("sim/coord"),
            delivery_vtime_ns: m.delivery_vtime_ns,
            sequence_number: m.sequence_number,
            protocol: parse_protocol(frames::serialize_protocol(&m.protocol)),
            payload: vstd::slice::slice_to_vec(m.payload.as_slice()),
        };
        let ghost message_view = message@;
        r.push(message);
        proof {
            assert(sorting::views(r@) =~= before.push(message_view));
            assert(sorting::views(r@) =~= Seq::new((i + 1) as nat, |k: int| batch_message_of(all[k])));
        }
        i += 1;
    }
    proof {
        assert(sorting::views(r@) =~= batch_of(payload@));
    }
    r
}

/// Every message goes to a node that its source may send to.
pub open spec fn all_registered(routes: topology::Routes, messages: Seq<RelayView>) -> bool {
    forall|i: int|
        0 <= i < messages.len() ==> is_registered(routes, #[trigger] messages[i])
}

pub open spec fn is_registered(routes: topology::Routes, m: RelayView) -> bool {
    topology::targets_of(routes, m.src_node_id) is Some && topology::targets_of(
        routes,
        m.src_node_id,
    )->0.contains(m.dst_node_id)
}

/// Whether every message goes to a node that its source may send to.
pub fn batch_is_registered(routes: &RoutingMap, messages: &Vec<RelayMessage>) -> (r: bool)
    ensures
        r == all_registered(routes@, sorting::views(messages@)),
{
    let ghost all = sorting::views(messages@);
    let mut i: usize = 0;
    while i < messages.len()
        invariant
            i <= messages@.len(),
            all == sorting::views(messages@),
            forall|k: int| 0 <= k < i ==> is_registered(routes@, #[trigger] all[k]),
        decreases messages@.len() - i,
    {
        let m = &messages[i];
        proof {
            assert(all[i as int] == m@);
        }
        let known = match routes.get_targets(m.src_node_id.as_str()) {
            Some(targets) => lists_item(targets, m.dst_node_id.as_str()),
            None => false,
        };
        if !known {
            proof {
                assert(!is_registered(routes@, all[i as int]));
            }
            return false;
        }
        i += 1;
    }
    true
}

/// The quantum that a node says it is done with; one that it does not name is the greatest number.
pub open spec fn done_quantum_of(payload: Seq<u8>) -> u64 {
    if payload.len() >= 8 {
        wire::le_at(payload, 0, 8) as u64
    } else {
        u64::MAX
    }
}

/// The quantum that a node says it is done with.
pub fn done_quantum(payload: &[u8]) -> (r: u64)
    ensures
        r == done_quantum_of(payload@),
{
    if payload.len() >= 8 {
        u64_at(payload, 0)
    } else {
        u64::MAX
    }
}

/// A message that lets a node start a quantum.
#[derive(Debug, Clone, PartialEq, Eq)]
pub struct StartMessage {
    pub topic: String,
    pub payload: Vec<u8>,
}

#[verifier::ext_equal]
pub struct StartView {
    pub topic: Seq<char>,
    pub payload: Seq<u8>,
}

impl View for StartMessage {
    type V = StartView;

    open spec fn view(&self) -> StartView {
        StartView { topic: self.topic@, payload: self.payload@ }
    }
}

/// The messages that let the first `n` nodes start a quantum.
pub open spec fn node_starts(n: nat, quantum: u64) -> Seq<StartView> {
    Seq::new(
        n,
        |i: int|
            StartView {
                topic: "sim/clock/start/"@ + text::decimal(i as nat),
                payload: wire::le_bytes(quantum as nat, 8),
            },
    )
}

/// The messages that let all nodes start a quantum: one for each, then one for all.
pub open spec fn starts_of(n: nat, quantum: u64) -> Seq<StartView> {
    node_starts(n, quantum).push(
        StartView { topic: "sim/coord/all/start"@, payload: seq![1u8] },
    )
}

/// The messages that let all nodes start a quantum.
pub fn start_messages(nodes: usize, quantum: u64) -> (r: Vec<StartMessage>)
    ensures
        sorting::views(r@) == starts_of(nodes as nat, quantum),
{
    let mut r: Vec<StartMessage> = Vec::new();
    let mut i: usize = 0;
    proof {
        assert(sorting::views(r@) =~= node_starts(0, quantum));
    }
    while i < nodes
        invariant
            i <= nodes,
            sorting::views(r@) == node_starts(i as nat, quantum),
        decreases nodes - i,
    {
        let mut payload: Vec<u8> = Vec::new();
        push_le(&mut payload, quantum, 8);
        let start = StartMessage { topic: numbered("sim/clock/start/", i as u64), payload };
        let ghost before = sorting::views(r@);
        let ghost start_view = start@;
        r.push(start);
        proof {
            assert(payload@ =~= wire::le_bytes(quantum as nat, 8));
            assert(sorting::views(r@) =~= before.push(start_view));
            assert(sorting::views(r@) =~= node_starts((i + 1) as nat, quantum));
        }
        i += 1;
    }
    let mut one: Vec<u8> = Vec::new();
    one.push(1);
    let all = StartMessage { topic: owned("sim/coord/all/start"), payload: one };
    let ghost before = sorting::views(r@);
    let ghost all_view = all@;
    r.push(all);
    proof {
        assert(one@ =~= seq![1u8]);
        assert(sorting::views(r@) =~= before.push(all_view));
    }
    r
}

} // verus!
