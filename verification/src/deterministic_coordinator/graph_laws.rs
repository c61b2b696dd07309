//! What holds of every topology.
use vstd::prelude::*;

use crate::deterministic_coordinator::graph;
use crate::deterministic_coordinator::graph::GraphView;
use crate::deterministic_coordinator::topology;
use crate::deterministic_coordinator::topology::{
    LinkSpecView, NodeIdView, Protocol, Routes, TopologyErrorView, WireLinkView, WorldView,
};
use crate::text;

verus! {

/// There is a route from one source to one target.
pub open spec fn has_route(routes: Routes, source: Seq<char>, target: Seq<char>) -> bool {
    topology::targets_of(routes, source) is Some && topology::targets_of(
        routes,
        source,
    )->0.contains(target)
}

/// Two places of a list hold the nodes that the two texts name.
pub open spec fn at_two_places(nodes: Seq<u32>, a: Seq<char>, b: Seq<char>, i: int, k: int) -> bool {
    0 <= i < nodes.len() && 0 <= k < nodes.len() && i != k && a == text::decimal(nodes[i] as nat)
        && b == text::decimal(nodes[k] as nat)
}

/// The two texts name nodes at different places of a list.
pub open spec fn are_both_on(nodes: Seq<u32>, a: Seq<char>, b: Seq<char>) -> bool {
    exists|i: int, k: int| at_two_places(nodes, a, b, i, k)
}

/// The two texts name nodes on one of the links from index `m` on.
pub open spec fn share_a_link(links: Seq<WireLinkView>, a: Seq<char>, b: Seq<char>, m: int) -> bool {
    exists|k: int| m <= k < links.len() && are_both_on((#[trigger] links[k]).nodes, a, b)
}

proof fn lemma_with_route(
    routes: Routes,
    source: Seq<char>,
    target: Seq<char>,
    a: Seq<char>,
    b: Seq<char>,
)
    ensures
        has_route(topology::with_route(routes, source, target), a, b) <==> has_route(routes, a, b)
            || (a == source && b == target),
{
    topology::law_added_route_is_found(routes, source, target, a);
    if a == source {
        match topology::targets_of(routes, source) {
            Some(had) => {
                assert(had.push(target)[had.len() as int] == target);
                assert forall|t: Seq<char>| had.contains(t) implies had.push(target).contains(
                    t,
                ) by {
                    let k = choose|k: int| 0 <= k < had.len() && had[k] == t;
                    assert(had.push(target)[k] == t);
                }
                assert(had.push(target).contains(target));
            },
            None => {
                assert(seq![target][0] == target);
                assert(seq![target].contains(target));
            },
        }
    }
}

proof fn lemma_routes_from(
    routes: Routes,
    nodes: Seq<u32>,
    i: int,
    j: int,
    a: Seq<char>,
    b: Seq<char>,
)
    requires
        0 <= i < nodes.len(),
        0 <= j,
    ensures
        has_route(graph::routes_from(routes, nodes, i, j), a, b) <==> has_route(routes, a, b)
            || exists|k: int| j <= k && #[trigger] at_two_places(nodes, a, b, i, k),
    decreases nodes.len() - j,
{
    if j < nodes.len() {
        let source = text::decimal(nodes[i] as nat);
        let target = text::decimal(nodes[j] as nat);
        let next = if i != j {
            topology::with_route(routes, source, target)
        } else {
            routes
        };
        lemma_with_route(routes, source, target, a, b);
        lemma_routes_from(next, nodes, i, j + 1, a, b);
        if at_two_places(nodes, a, b, i, j) {
            assert(has_route(next, a, b));
        }
    }
}

proof fn lemma_routes_among(routes: Routes, nodes: Seq<u32>, i: int, a: Seq<char>, b: Seq<char>)
    requires
        0 <= i,
    ensures
        has_route(graph::routes_among(routes, nodes, i), a, b) <==> has_route(routes, a, b)
            || exists|p: int, k: int| i <= p && #[trigger] at_two_places(nodes, a, b, p, k),
    decreases nodes.len() - i,
{
    if i < nodes.len() {
        let next = graph::routes_from(routes, nodes, i, 0);
        lemma_routes_from(routes, nodes, i, 0, a, b);
        lemma_routes_among(next, nodes, i + 1, a, b);
    }
}

proof fn lemma_link_routes(routes: Routes, nodes: Seq<u32>, k: int, a: Seq<char>, b: Seq<char>)
    requires
        0 <= k,
    ensures
        has_route(graph::link_routes(routes, nodes, k), a, b) <==> has_route(routes, a, b) || (k
            < nodes.len() && are_both_on(nodes, a, b)),
    decreases nodes.len() - k,
{
    if k < nodes.len() {
        let front = nodes.take(k + 1);
        let next = graph::routes_among(routes, front, 0);
        lemma_routes_among(routes, front, 0, a, b);
        lemma_link_routes(next, nodes, k + 1, a, b);
        if exists|p: int, q: int| 0 <= p && #[trigger] at_two_places(front, a, b, p, q) {
            let (p, q) = choose|p: int, q: int| 0 <= p && #[trigger] at_two_places(front, a, b, p, q);
            assert(at_two_places(nodes, a, b, p, q));
        }
        if k + 1 == nodes.len() {
            assert(front =~= nodes);
        }
    }
}

proof fn lemma_link_ids(nodes: Seq<NodeIdView>, valid: Seq<u32>, i: int, found: Seq<u32>)
    requires
        0 <= i,
        forall|k: int| 0 <= k < found.len() ==> valid.contains(#[trigger] found[k]),
    ensures
        graph::link_ids(nodes, valid, i, found) matches Ok(ids) ==> forall|k: int|
            0 <= k < ids.len() ==> valid.contains(#[trigger] ids[k]),
    decreases nodes.len() - i,
{
    if i < nodes.len() {
        match topology::id_of(nodes[i]) {
            Some(id) => {
                if valid.contains(id) {
                    lemma_link_ids(nodes, valid, i + 1, found.push(id));
                }
            },
            None => {},
        }
    }
}

proof fn lemma_built_links(
    specs: Seq<LinkSpecView>,
    valid: Seq<u32>,
    i: int,
    links: Seq<WireLinkView>,
    routes: Routes,
    a: Seq<char>,
    b: Seq<char>,
)
    requires
        0 <= i,
    ensures
        graph::built_links(specs, valid, i, links, routes) matches Ok(built) ==> {
            &&& links.len() <= built.0.len()
            &&& forall|k: int| 0 <= k < links.len() ==> #[trigger] built.0[k] == links[k]
            &&& forall|k: int, n: int|
                links.len() <= k < built.0.len() && 0 <= n < built.0[k].nodes.len()
                    ==> valid.contains(#[trigger] built.0[k].nodes[n])
            &&& has_route(built.1, a, b) <==> has_route(routes, a, b) || share_a_link(
                built.0,
                a,
                b,
                links.len() as int,
            )
        },
    decreases specs.len() - i,
{
    if i < specs.len() {
        lemma_link_ids(specs[i].nodes, valid, 0, Seq::empty());
        match graph::link_ids(specs[i].nodes, valid, 0, Seq::empty()) {
            Ok(nodes) => {
                let link = WireLinkView {
                    protocol: specs[i].protocol,
                    nodes,
                    baud: specs[i].baud,
                };
                let more = links.push(link);
                let next = graph::link_routes(routes, nodes, 0);
                lemma_link_routes(routes, nodes, 0, a, b);
                lemma_built_links(specs, valid, i + 1, more, next, a, b);
                match graph::built_links(specs, valid, i + 1, more, next) {
                    Ok(built) => {
                        let n = links.len() as int;
                        assert(built.0[n] == more[n]);
                        assert forall|k: int| 0 <= k < links.len() implies #[trigger] built.0[k]
                            == links[k] by {
                            assert(built.0[k] == more[k]);
                        }
                        assert forall|k: int, p: int|
                            links.len() <= k < built.0.len() && 0 <= p
                                < built.0[k].nodes.len() implies valid.contains(
                            #[trigger] built.0[k].nodes[p],
                        ) by {
                            if k == n {
                                assert(valid.contains(nodes[p]));
                            }
                        }
                        if nodes.len() == 0 {
                            assert(!are_both_on(nodes, a, b)) by {
                                if are_both_on(nodes, a, b) {
                                    let (p, q) = choose|p: int, q: int|
                                        at_two_places(nodes, a, b, p, q);
                                    assert(at_two_places(nodes, a, b, p, q));
                                }
                            }
                        }
                        if share_a_link(built.0, a, b, n) {
                            let k = choose|k: int|
                                n <= k < built.0.len() && are_both_on(
                                    (#[trigger] built.0[k]).nodes,
                                    a,
                                    b,
                                );
                            assert(are_both_on(built.0[k].nodes, a, b));
                            if k > n {
                                assert(share_a_link(built.0, a, b, n + 1));
                            }
                        }
                        if are_both_on(nodes, a, b) {
                            assert(are_both_on(built.0[n].nodes, a, b));
                        }
                        if share_a_link(built.0, a, b, n + 1) {
                            let k = choose|k: int|
                                n + 1 <= k < built.0.len() && are_both_on(
                                    (#[trigger] built.0[k]).nodes,
                                    a,
                                    b,
                                );
                            assert(are_both_on(built.0[k].nodes, a, b));
                        }
                    },
                    Err(_) => {},
                }
            },
            Err(_) => {},
        }
    }
}

/// In a topology that was read, a link joins only nodes that the world has.
pub proof fn law_links_join_known_nodes(w: WorldView, g: GraphView, k: int, n: int)
    requires
        graph::graph_of(w) == Ok::<GraphView, TopologyErrorView>(g),
        0 <= k < g.wire_links.len(),
        0 <= n < g.wire_links[k].nodes.len(),
    ensures
        graph::valid_ids(w) matches Ok(valid) && valid.contains(g.wire_links[k].nodes[n]),
{
    match (graph::valid_ids(w), w.topology) {
        (Ok(valid), Some(t)) => {
            lemma_built_links(t.links, valid, 0, Seq::empty(), Seq::empty(), ""@, ""@);
        },
        _ => {},
    }
}

/// Two nodes are at different places of one link.
pub open spec fn linked(g: GraphView, x: u32, y: u32) -> bool {
    exists|k: int, i: int, j: int|
        0 <= k < g.wire_links.len() && 0 <= i < g.wire_links[k].nodes.len() && 0 <= j
            < g.wire_links[k].nodes.len() && i != j && #[trigger] g.wire_links[k].nodes[i] == x
            && #[trigger] g.wire_links[k].nodes[j] == y
}

/// In a topology that was read, there is a route between two nodes exactly where a link joins them;
/// so what may pass over a wire is registered, and nothing else is.
pub proof fn law_routes_follow_links(w: WorldView, g: GraphView, x: u32, y: u32)
    requires
        graph::graph_of(w) == Ok::<GraphView, TopologyErrorView>(g),
    ensures
        has_route(g.routes, text::decimal(x as nat), text::decimal(y as nat)) <==> linked(g, x, y),
{
    let a = text::decimal(x as nat);
    let b = text::decimal(y as nat);
    assert(!has_route(Seq::empty(), a, b));
    match (graph::valid_ids(w), w.topology) {
        (Ok(valid), Some(t)) => {
            lemma_built_links(t.links, valid, 0, Seq::empty(), Seq::empty(), a, b);
        },
        _ => {},
    }
    if has_route(g.routes, a, b) {
        assert(share_a_link(g.wire_links, a, b, 0));
        let k = choose|k: int|
            0 <= k < g.wire_links.len() && are_both_on((#[trigger] g.wire_links[k]).nodes, a, b);
        let nodes = g.wire_links[k].nodes;
        let (i, j) = choose|i: int, j: int| at_two_places(nodes, a, b, i, j);
        text::lemma_decimal_value(x as nat);
        text::lemma_decimal_value(y as nat);
        text::lemma_decimal_value(nodes[i] as nat);
        text::lemma_decimal_value(nodes[j] as nat);
        assert(g.wire_links[k].nodes[i] == x && g.wire_links[k].nodes[j] == y);
    }
    if linked(g, x, y) {
        let (k, i, j) = choose|k: int, i: int, j: int|
            0 <= k < g.wire_links.len() && 0 <= i < g.wire_links[k].nodes.len() && 0 <= j
                < g.wire_links[k].nodes.len() && i != j && #[trigger] g.wire_links[k].nodes[i] == x
                && #[trigger] g.wire_links[k].nodes[j] == y;
        let nodes = g.wire_links[k].nodes;
        assert(at_two_places(nodes, a, b, i, j));
        assert(are_both_on(g.wire_links[k].nodes, a, b));
        assert(share_a_link(g.wire_links, a, b, 0));
    }
}

/// A wire carries both ways: what may pass from one node to another may pass back.
pub proof fn law_wires_carry_both_ways(g: GraphView, a: u32, b: u32, protocol: Protocol)
    requires
        protocol != Protocol::Rf802154,
        protocol != Protocol::RfHci,
    ensures
        graph::link_allowed(g, a, b, protocol) == graph::link_allowed(g, b, a, protocol),
{
    if graph::wired(g, a, b, protocol) || graph::wired(g, b, a, protocol) {
        let k = choose|k: int|
            0 <= k < g.wire_links.len() && (#[trigger] g.wire_links[k]).protocol == protocol
                && g.wire_links[k].nodes.contains(a) && g.wire_links[k].nodes.contains(b);
        assert(g.wire_links[k].protocol == protocol);
    }
}

} // verus!
