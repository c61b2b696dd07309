//! Whom a node reaches, as a topology lays it down.
use vstd::prelude::*;

use crate::deterministic_coordinator::graph;
use crate::deterministic_coordinator::graph::{contains_id, GraphView, TopologyGraph};
use crate::deterministic_coordinator::graph_laws;
use crate::deterministic_coordinator::topology;
use crate::deterministic_coordinator::topology::{
    Protocol, TopologyErrorView, WireLink, WireLinkView, WorldView,
};
use crate::sorting;
use crate::text;
use crate::text::{decimal_text, items_copy, no_items, parse_unsigned, push_item};
use crate::zenoh_coordinator::links;
use crate::zenoh_coordinator::relay;
use crate::zenoh_coordinator::relay::{add_member, Channel, Reach, ReachView, RelayState};

verus! {

/// The number that names a node.
pub open spec fn node_number(name: Seq<char>) -> Option<u32> {
    match text::parsed_unsigned(name, u32::MAX as nat) {
        Some(n) => Some(n as u32),
        None => None,
    }
}

pub fn number_of(name: &str) -> (r: Option<u32>)
    ensures
        r == node_number(name@),
{
    match parse_unsigned(name, u32::MAX as u64) {
        Some(n) => Some(n as u32),
        None => None,
    }
}

/// A list of names with those of the first `n` nodes but for `node`, each once.
pub open spec fn with_others(
    found: Seq<Seq<char>>,
    nodes: Seq<u32>,
    node: u32,
    n: int,
) -> Seq<Seq<char>>
    decreases n,
{
    if n <= 0 || n > nodes.len() {
        found
    } else {
        let front = with_others(found, nodes, node, n - 1);
        if nodes[n - 1] == node {
            front
        } else {
            relay::with_member(front, text::decimal(nodes[n - 1] as nat))
        }
    }
}

/// The nodes that share one of the first `n` links with `node`.
pub open spec fn peers_on(
    links: Seq<WireLinkView>,
    protocol: Protocol,
    node: u32,
    n: int,
) -> Seq<Seq<char>>
    decreases n,
{
    if n <= 0 || n > links.len() {
        Seq::empty()
    } else {
        let front = peers_on(links, protocol, node, n - 1);
        let link = links[n - 1];
        if link.protocol == protocol && link.nodes.contains(node) {
            with_others(front, link.nodes, node, link.nodes.len() as int)
        } else {
            front
        }
    }
}

/// Those of the first `n` registered nodes to which traffic of `node` passes.
pub open spec fn permitted(
    g: GraphView,
    protocol: Protocol,
    node: u32,
    n: int,
) -> Seq<Seq<char>>
    decreases n,
{
    if n <= 0 || n > g.routes.len() {
        Seq::empty()
    } else {
        let front = permitted(g, protocol, node, n - 1);
        let name = g.routes[n - 1].0;
        match node_number(name) {
            Some(dst) if graph::link_allowed(g, node, dst, protocol) => front.push(name),
            _ => front,
        }
    }
}

/// Whom `src` reaches on a channel. A name that is no number has no links.
pub open spec fn reach_in(g: GraphView, channel: Channel, src: Seq<char>) -> ReachView {
    let protocol = channel.link_protocol();
    match node_number(src) {
        Some(node) => ReachView {
            is_explicit: g.explicit,
            wire_peers: peers_on(g.wire_links, protocol, node, g.wire_links.len() as int),
            targets: topology::targets_of(g.routes, src),
            allowed: permitted(g, protocol, node, g.routes.len() as int),
        },
        None => ReachView {
            is_explicit: g.explicit,
            wire_peers: Seq::empty(),
            targets: topology::targets_of(g.routes, src),
            allowed: Seq::empty(),
        },
    }
}

fn add_others(found: &mut Vec<String>, nodes: &Vec<u32>, node: u32)
    ensures
        sorting::views(final(found)@) == with_others(
            sorting::views(old(found)@),
            nodes@,
            node,
            nodes@.len() as int,
        ),
{
    let ghost start = sorting::views(found@);
    let mut i: usize = 0;
    while i < nodes.len()
        invariant
            i <= nodes@.len(),
            sorting::views(found@) == with_others(start, nodes@, node, i as int),
        decreases nodes@.len() - i,
    {
        if nodes[i] != node {
            add_member(found, decimal_text(nodes[i] as u64).as_str());
        }
        i += 1;
    }
}

fn list_peers(links: &[WireLink], protocol: Protocol, node: u32) -> (r: Vec<String>)
    ensures
        sorting::views(r@) == peers_on(
            sorting::views(links@),
            protocol,
            node,
            links@.len() as int,
        ),
{
    let ghost all = sorting::views(links@);
    let mut peers = no_items();
    let mut i: usize = 0;
    while i < links.len()
        invariant
            i <= links@.len(),
            all == sorting::views(links@),
            sorting::views(peers@) == peers_on(all, protocol, node, i as int),
        decreases links@.len() - i,
    {
        let link = &links[i];
        proof {
            assert(all[i as int] == link@);
        }
        if link.protocol == protocol && contains_id(&link.nodes, node) {
            add_others(&mut peers, &link.nodes, node);
        }
        i += 1;
    }
    peers
}

fn list_permitted(g: &TopologyGraph, protocol: Protocol, node: u32) -> (r: Vec<String>)
    ensures
        sorting::views(r@) == permitted(g@, protocol, node, g@.routes.len() as int),
{
    let map = &g.routing_map.map;
    let mut list = no_items();
    let mut i: usize = 0;
    while i < map.len()
        invariant
            i <= map@.len() == g@.routes.len(),
            *map == g.routing_map.map,
            sorting::views(list@) == permitted(g@, protocol, node, i as int),
        decreases map@.len() - i,
    {
        let name = map[i].0.as_str();
        proof {
            assert(g@.routes[i as int].0 == name@);
        }
        match number_of(name) {
            Some(dst) => {
                if g.is_link_allowed(node, dst, protocol) {
                    push_item(&mut list, name);
                }
            },
            None => {},
        }
        i += 1;
    }
    list
}

/// Tells whom a node reaches on a channel.
pub fn reach_of(g: &TopologyGraph, channel: Channel, src: &str) -> (r: Reach)
    ensures
        r@ == reach_in(g@, channel, src@),
{
    let protocol = channel.peer_protocol();
    let targets = match g.routing_map.get_targets(src) {
        Some(list) => Some(items_copy(list)),
        None => None,
    };
    match number_of(src) {
        Some(node) => Reach {
            is_explicit: g.is_explicit,
            wire_peers: list_peers(g.wire_links(), protocol, node),
            targets,
            allowed: list_permitted(g, protocol, node),
        },
        None => Reach {
            is_explicit: g.is_explicit,
            wire_peers: no_items(),
            targets,
            allowed: no_items(),
        },
    }
}

proof fn lemma_others(found: Seq<Seq<char>>, nodes: Seq<u32>, node: u32, n: int, name: Seq<char>)
    requires
        0 <= n <= nodes.len(),
        with_others(found, nodes, node, n).contains(name),
    ensures
        found.contains(name) || exists|j: int|
            0 <= j < nodes.len() && #[trigger] nodes[j] != node && name == text::decimal(
                nodes[j] as nat,
            ),
    decreases n,
{
    if n > 0 {
        let front = with_others(found, nodes, node, n - 1);
        if front.contains(name) {
            lemma_others(found, nodes, node, n - 1, name);
        } else {
            let own = text::decimal(nodes[n - 1] as nat);
            let k = with_others(found, nodes, node, n).index_of(name);
            assert(nodes[n - 1] != node);
            assert(front.push(own)[k] == name);
            if k < front.len() {
                assert(front[k] == name);
            }
        }
    }
}

/// `name` names another node than `node` on a link.
pub open spec fn is_other_on(link: WireLinkView, node: u32, name: Seq<char>) -> bool {
    exists|j: int|
        0 <= j < link.nodes.len() && #[trigger] link.nodes[j] != node && name == text::decimal(
            link.nodes[j] as nat,
        )
}

/// A node's peers are the others on its own links of that protocol, and no one else.
pub proof fn law_peers_share_a_link(
    links: Seq<WireLinkView>,
    protocol: Protocol,
    node: u32,
    n: int,
    name: Seq<char>,
)
    requires
        0 <= n <= links.len(),
        peers_on(links, protocol, node, n).contains(name),
    ensures
        exists|k: int|
            0 <= k < n && (#[trigger] links[k]).protocol == protocol && links[k].nodes.contains(
                node,
            ) && is_other_on(links[k], node, name),
    decreases n,
{
    if n > 0 {
        let front = peers_on(links, protocol, node, n - 1);
        let link = links[n - 1];
        if front.contains(name) {
            law_peers_share_a_link(links, protocol, node, n - 1, name);
            let k = choose|k: int|
                0 <= k < n - 1 && (#[trigger] links[k]).protocol == protocol
                    && links[k].nodes.contains(node) && is_other_on(links[k], node, name);
            assert(links[k].protocol == protocol);
        } else {
            lemma_others(front, link.nodes, node, link.nodes.len() as int, name);
            assert(is_other_on(link, node, name));
        }
    }
}

proof fn lemma_all_registered(
    channel: Channel,
    src: Seq<char>,
    dests: Seq<Seq<char>>,
    n: int,
    reach: ReachView,
    known_links: Seq<links::LinkEntryView>,
    delay_ns: u64,
)
    requires
        0 <= n <= dests.len(),
        forall|i: int|
            0 <= i < dests.len() ==> reach.targets is Some && reach.targets->0.contains(
                #[trigger] dests[i],
            ),
    ensures
        relay::hops_to(channel, src, dests, n, reach, known_links, delay_ns) is Some,
    decreases n,
{
    if n > 0 {
        lemma_all_registered(channel, src, dests, n - 1, reach, known_links, delay_ns);
        assert(reach.targets->0.contains(dests[n - 1]));
    }
}

/// In a topology that was read, whom a node's links lead to is registered as a target of the node;
/// so a frame from a node of the topology always has its ways.
pub proof fn law_laid_links_have_ways(
    w: WorldView,
    g: GraphView,
    channel: Channel,
    node: u32,
    s: RelayState,
)
    requires
        graph::graph_of(w) == Ok::<GraphView, TopologyErrorView>(g),
        g.explicit,
    ensures
        ({
            let src = text::decimal(node as nat);
            relay::hops_of(s, channel, src, reach_in(g, channel, src)) is Some
        }),
{
    let src = text::decimal(node as nat);
    let reach = reach_in(g, channel, src);
    let protocol = channel.link_protocol();
    text::law_decimal_reads_back(node as nat, u32::MAX as nat);
    assert(node_number(src) == Some(node));
    assert forall|i: int| 0 <= i < reach.wire_peers.len() implies reach.targets is Some
        && reach.targets->0.contains(#[trigger] reach.wire_peers[i]) by {
        let name = reach.wire_peers[i];
        assert(reach.wire_peers.contains(name));
        law_peers_share_a_link(g.wire_links, protocol, node, g.wire_links.len() as int, name);
        let k = choose|k: int|
            0 <= k < g.wire_links.len() && (#[trigger] g.wire_links[k]).protocol == protocol
                && g.wire_links[k].nodes.contains(node) && is_other_on(g.wire_links[k], node, name);
        let nodes = g.wire_links[k].nodes;
        let j = choose|j: int|
            0 <= j < nodes.len() && #[trigger] nodes[j] != node && name == text::decimal(
                nodes[j] as nat,
            );
        let own = nodes.index_of(node);
        assert(g.wire_links[k].nodes[own] == node);
        assert(g.wire_links[k].nodes[j] == nodes[j]);
        assert(graph_laws::linked(g, node, nodes[j]));
        graph_laws::law_routes_follow_links(w, g, node, nodes[j]);
    }
    let dests = relay::destinations(src, s.known[channel.position()], reach);
    lemma_all_registered(channel, src, dests, dests.len() as int, reach, s.links, s.delay_ns);
}

} // verus!
