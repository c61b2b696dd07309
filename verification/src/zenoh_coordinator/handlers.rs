//! What becomes of the frames that come in.
use vstd::prelude::*;

use crate::deterministic_coordinator::frames::FrameHeader;
use crate::deterministic_coordinator::graph;
use crate::deterministic_coordinator::graph::{GraphView, TopologyGraph};
use crate::sorting;
use crate::text;
use crate::text::{decimal_text, no_items};
use crate::zenoh_coordinator::chance;
use crate::zenoh_coordinator::chance::{Draws, JitterSource};
use crate::zenoh_coordinator::links;
use crate::zenoh_coordinator::radio;
use crate::zenoh_coordinator::radio::listeners;
use crate::zenoh_coordinator::reach;
use crate::zenoh_coordinator::reach::{number_of, reach_of};
use crate::zenoh_coordinator::relay;
use crate::zenoh_coordinator::relay::{
    read_frame, Channel, Frame, FrameReading, FrameReadingView, FrameView, HopView, ReachView,
    Relay, RelayMessage, RelayState, RelayView,
};

verus! {

/// What a frame comes to.
#[derive(Debug, PartialEq, Eq)]
pub enum Handled {
    /// The frame is cut off, or unreadable on a channel that takes no offence.
    Nothing,
    /// The frame cannot be read.
    Broken,
    /// One of the frame's ways is not registered.
    Unregistered,
    /// The messages that travel on.
    Messages(Vec<RelayMessage>),
}

#[verifier::ext_equal]
pub enum HandledView {
    Nothing,
    Broken,
    Unregistered,
    Messages(Seq<RelayView>),
}

impl View for Handled {
    type V = HandledView;

    open spec fn view(&self) -> HandledView {
        match self {
            Handled::Nothing => HandledView::Nothing,
            Handled::Broken => HandledView::Broken,
            Handled::Unregistered => HandledView::Unregistered,
            Handled::Messages(list) => HandledView::Messages(sorting::views(list@)),
        }
    }
}

/// What a readable frame comes to, and what was drawn from chance for that.
pub open spec fn sent_on(
    s: RelayState,
    chance: (u64, Draws),
    g: GraphView,
    channel: Channel,
    src: Seq<char>,
    frame: FrameView,
) -> (HandledView, Draws) {
    match relay::hops_of(s, channel, src, reach::reach_in(g, channel, src)) {
        None => (HandledView::Unregistered, chance.1),
        Some(hops) => {
            let t = chance::all_travelled(
                chance.0,
                chance.1,
                channel,
                src,
                hops,
                frame,
                hops.len() as int,
            );
            (HandledView::Messages(t.0), t.1)
        },
    }
}

/// What the bytes of a wired frame come to, and what was drawn from chance for that.
pub open spec fn wired(
    s: RelayState,
    chance: (u64, Draws),
    g: GraphView,
    channel: Channel,
    src: Seq<char>,
    reading: FrameReadingView,
) -> (HandledView, Draws) {
    match reading {
        FrameReadingView::CutOff => (HandledView::Nothing, chance.1),
        FrameReadingView::Broken => (HandledView::Broken, chance.1),
        FrameReadingView::Frame(frame) => sent_on(
            relay::noted(s, channel, src),
            chance,
            g,
            channel,
            src,
            frame,
        ),
    }
}

fn send_on(
    state: &Relay,
    chance: &mut JitterSource,
    g: &TopologyGraph,
    channel: Channel,
    src: &str,
    frame: &Frame,
) -> (r: Handled)
    requires
        state.wf(),
    ensures
        ({
            let t = sent_on(state@, old(chance)@, g@, channel, src@, frame@);
            &&& r@ == t.0
            &&& final(chance)@ == (old(chance)@.0, t.1)
        }),
{
    let reach = reach_of(g, channel, src);
    match state.hops(channel, src, &reach) {
        None => Handled::Unregistered,
        Some(hops) => Handled::Messages(chance.messages(channel, src, &hops, frame)),
    }
}

/// Passes a frame on that came over a wire. The bytes begin with the header, which is `header_size`
/// long.
pub fn handle_wired_msg(
    state: &mut Relay,
    chance: &mut JitterSource,
    g: &TopologyGraph,
    channel: Channel,
    src: &str,
    bytes: &[u8],
    header: Option<FrameHeader>,
    header_size: usize,
) -> (r: Handled)
    requires
        old(state).wf(),
    ensures
        final(state).wf(),
        final(state)@ == relay::noted(old(state)@, channel, src@),
        ({
            let reading = relay::frame_of(channel, bytes@, header, header_size as nat);
            let t = wired(old(state)@, old(chance)@, g@, channel, src@, reading);
            &&& r@ == t.0
            &&& final(chance)@ == (old(chance)@.0, t.1)
        }),
{
    state.note_sender(channel, src);
    match read_frame(channel, bytes, header, header_size) {
        FrameReading::CutOff => Handled::Nothing,
        FrameReading::Broken => Handled::Broken,
        FrameReading::Frame(frame) => send_on(state, chance, g, channel, src, &frame),
    }
}

/// What the bus makes of a LIN frame that was sent at `vtime_ns`: the messages carry no data yet.
pub open spec fn lin_frame(vtime_ns: u64) -> FrameView {
    FrameView { vtime_ns, sequence_number: 0, data: Seq::empty() }
}

/// Passes a LIN frame on; `vtime_ns` is its time, where it can be read. The messages carry no data
/// yet, since each carries the frame with its own time.
pub fn handle_lin_msg(
    state: &mut Relay,
    chance: &mut JitterSource,
    g: &TopologyGraph,
    src: &str,
    vtime_ns: Option<u64>,
) -> (r: Handled)
    requires
        old(state).wf(),
    ensures
        final(state).wf(),
        final(state)@ == relay::noted(old(state)@, Channel::Lin, src@),
        ({
            let reading = match vtime_ns {
                Some(at) => FrameReadingView::Frame(lin_frame(at)),
                None => FrameReadingView::CutOff,
            };
            let t = wired(old(state)@, old(chance)@, g@, Channel::Lin, src@, reading);
            &&& r@ == t.0
            &&& final(chance)@ == (old(chance)@.0, t.1)
        }),
{
    state.note_sender(Channel::Lin, src);
    match vtime_ns {
        None => Handled::Nothing,
        Some(at) => {
            let frame = Frame { vtime_ns: at, sequence_number: 0, data: Vec::new() };
            proof {
                assert(frame@ =~= lin_frame(at));
            }
            send_on(state, chance, g, Channel::Lin, src, &frame)
        },
    }
}

/// The names of nodes.
pub open spec fn names_of(nodes: Seq<u32>) -> Seq<Seq<char>> {
    Seq::new(nodes.len(), |i: int| text::decimal(nodes[i] as nat))
}

fn list_names(nodes: &Vec<u32>) -> (r: Vec<String>)
    ensures
        sorting::views(r@) == names_of(nodes@),
{
    let mut out: Vec<String> = Vec::new();
    let mut i: usize = 0;
    while i < nodes.len()
        invariant
            i <= nodes@.len(),
            out@.len() == i,
            forall|k: int| 0 <= k < i ==> (#[trigger] out@[k])@ == text::decimal(nodes@[k] as nat),
        decreases nodes@.len() - i,
    {
        out.push(decimal_text(nodes[i] as u64));
        i += 1;
    }
    proof {
        assert(sorting::views(out@) =~= names_of(nodes@));
    }
    out
}

/// The nodes that may hear what `src` sends over the air, out of those in its range; where its
/// place is not known, out of all that have sent before.
pub open spec fn heard_by(
    s: RelayState,
    g: GraphView,
    channel: Channel,
    src: Seq<char>,
    in_range: Option<Seq<Seq<char>>>,
) -> Seq<Seq<char>> {
    let known = s.known[channel.position()];
    let candidates = match in_range {
        Some(list) => list,
        None => relay::others(known, src, known.len() as int),
    };
    let neighbors = match reach::node_number(src) {
        Some(node) => names_of(graph::neighbors(g, node)),
        None => Seq::empty(),
    };
    radio::listeners_of(candidates, g.explicit, g.wireless is Some, neighbors)
}

/// The nodes that may hear what `src` sends over the air.
pub fn rf_listeners(
    state: &Relay,
    g: &TopologyGraph,
    channel: Channel,
    src: &str,
    in_range: Option<Vec<String>>,
) -> (r: Vec<String>)
    requires
        state.wf(),
    ensures
        sorting::views(r@) == heard_by(
            state@,
            g@,
            channel,
            src@,
            match in_range {
                Some(list) => Some(sorting::views(list@)),
                None => None,
            },
        ),
{
    let candidates = match in_range {
        Some(list) => list,
        None => state.other_senders(channel, src),
    };
    let neighbors = match number_of(src) {
        Some(node) => list_names(&g.rf_neighbors(node)),
        None => no_items(),
    };
    listeners(candidates, g.is_explicit, g.has_wireless(), &neighbors)
}

proof fn lemma_others_differ(list: Seq<Seq<char>>, node: Seq<char>, n: int)
    requires
        0 <= n <= list.len(),
    ensures
        !relay::others(list, node, n).contains(node),
    decreases n,
{
    if n > 0 {
        lemma_others_differ(list, node, n - 1);
        let front = relay::others(list, node, n - 1);
        assert forall|i: int| 0 <= i < relay::others(list, node, n).len() implies #[trigger]
        relay::others(list, node, n)[i] != node by {
            if i < front.len() {
                assert(front.contains(front[i]));
            }
        }
    }
}

proof fn lemma_ways_lead_to_destinations(
    channel: Channel,
    src: Seq<char>,
    dests: Seq<Seq<char>>,
    n: int,
    reach: ReachView,
    known_links: Seq<links::LinkEntryView>,
    delay_ns: u64,
)
    requires
        0 <= n <= dests.len(),
    ensures
        relay::hops_to(channel, src, dests, n, reach, known_links, delay_ns) matches Some(hops)
            ==> forall|i: int| 0 <= i < hops.len() ==> dests.contains((#[trigger] hops[i]).dst),
    decreases n,
{
    if n > 0 {
        lemma_ways_lead_to_destinations(channel, src, dests, n - 1, reach, known_links, delay_ns);
        assert(dests.contains(dests[n - 1]));
    }
}

proof fn lemma_messages_take_ways(
    seed: u64,
    draws: Draws,
    channel: Channel,
    src: Seq<char>,
    hops: Seq<HopView>,
    frame: FrameView,
    n: int,
    bad: Seq<char>,
)
    requires
        0 <= n <= hops.len(),
        forall|i: int| 0 <= i < hops.len() ==> (#[trigger] hops[i]).dst != bad,
    ensures
        ({
            let sent = chance::all_travelled(seed, draws, channel, src, hops, frame, n).0;
            forall|i: int| 0 <= i < sent.len() ==> (#[trigger] sent[i]).dst_node_id != bad
        }),
    decreases n,
{
    if n > 0 {
        lemma_messages_take_ways(seed, draws, channel, src, hops, frame, n - 1, bad);
        assert(hops[n - 1].dst != bad);
    }
}

/// No node gets its own frame back.
pub proof fn law_frames_do_not_come_back(
    s: RelayState,
    chance: (u64, Draws),
    g: GraphView,
    channel: Channel,
    src: Seq<char>,
    frame: FrameView,
)
    ensures
        sent_on(s, chance, g, channel, src, frame).0 matches HandledView::Messages(sent)
            ==> forall|i: int| 0 <= i < sent.len() ==> (#[trigger] sent[i]).dst_node_id != src,
{
    let r = reach::reach_in(g, channel, src);
    let known = s.known[channel.position()];
    let dests = relay::destinations(src, known, r);
    if r.is_explicit {
        if r.wire_peers.contains(src) {
            let node = reach::node_number(src)->0;
            let protocol = channel.link_protocol();
            let n = g.wire_links.len() as int;
            reach::law_peers_share_a_link(g.wire_links, protocol, node, n, src);
            let k = choose|k: int|
                0 <= k < n && (#[trigger] g.wire_links[k]).protocol == protocol
                    && g.wire_links[k].nodes.contains(node) && reach::is_other_on(
                    g.wire_links[k],
                    node,
                    src,
                );
            let nodes = g.wire_links[k].nodes;
            let j = choose|j: int|
                0 <= j < nodes.len() && #[trigger] nodes[j] != node && src == text::decimal(
                    nodes[j] as nat,
                );
            text::law_decimal_reads_back(nodes[j] as nat, u32::MAX as nat);
        }
    } else {
        lemma_others_differ(known, src, known.len() as int);
    }
    let n = dests.len() as int;
    lemma_ways_lead_to_destinations(channel, src, dests, n, r, s.links, s.delay_ns);
    if let Some(hops) = relay::hops_of(s, channel, src, r) {
        assert forall|i: int| 0 <= i < hops.len() implies (#[trigger] hops[i]).dst != src by {
            assert(dests.contains(hops[i].dst));
        }
        lemma_messages_take_ways(
            chance.0,
            chance.1,
            channel,
            src,
            hops,
            frame,
            hops.len() as int,
            src,
        );
    }
}

} // verus!
