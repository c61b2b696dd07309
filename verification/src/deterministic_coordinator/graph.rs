//! The topology as a graph: which messages may pass between which nodes.
use vstd::prelude::*;

use crate::deterministic_coordinator::topology;
use crate::deterministic_coordinator::topology::{
    checked_node_id, LinkSpec, LinkSpecView, NodeId, NodeIdView, Position, Protocol, Routes,
    RoutingMap, TopologyError, TopologyErrorView, Transport, WireLink, WireLinkView, WirelessMedium,
    WirelessNode, WirelessSpec, WirelessSpecView, WirelessView, World, WorldView,
};
use crate::sorting;
use crate::text;
use crate::text::{decimal_text, owned, parse_unsigned};

verus! {

/// Where nodes are; each node stands here once.
pub type Positions = Seq<(u32, Position)>;

/// The topology of a simulation.
#[derive(Debug, Clone, PartialEq, Eq)]
pub struct TopologyGraph {
    pub max_messages_per_node_per_quantum: usize,
    pub global_seed: u64,
    pub transport: Transport,
    pub wire_links: Vec<WireLink>,
    pub wireless_medium: Option<WirelessMedium>,
    pub node_positions: Vec<(u32, Position)>,
    /// The bit pattern of the range in metres.
    pub max_wireless_range_bits: u64,
    /// Which ordered pairs of nodes are within range, for the positions as they are.
    pub in_range: Vec<(u32, u32)>,
    pub is_explicit: bool,
    /// The ordered pairs whose traffic is dropped.
    pub drop_list: Vec<(u32, u32)>,
    pub routing_map: RoutingMap,
}

#[verifier::ext_equal]
pub struct GraphView {
    pub limit: nat,
    pub seed: u64,
    pub transport: Transport,
    pub wire_links: Seq<WireLinkView>,
    pub wireless: Option<WirelessView>,
    pub positions: Positions,
    pub range_bits: u64,
    pub in_range: Seq<(u32, u32)>,
    pub explicit: bool,
    pub drops: Set<(u32, u32)>,
    pub routes: Routes,
}

impl View for TopologyGraph {
    type V = GraphView;

    open spec fn view(&self) -> GraphView {
        GraphView {
            limit: self.max_messages_per_node_per_quantum as nat,
            seed: self.global_seed,
            transport: self.transport,
            wire_links: sorting::views(self.wire_links@),
            wireless: match self.wireless_medium {
                Some(w) => Some(w@),
                None => None,
            },
            positions: self.node_positions@,
            range_bits: self.max_wireless_range_bits,
            in_range: self.in_range@,
            explicit: self.is_explicit,
            drops: self.drop_list@.to_set(),
            routes: self.routing_map@,
        }
    }
}

/// The limit on messages of one node in one quantum where none is given.
pub const DEFAULT_MESSAGE_LIMIT: u32 = 1024;

/// The graph where no topology is given: it allows everything.
pub open spec fn default_graph() -> GraphView {
    GraphView {
        limit: DEFAULT_MESSAGE_LIMIT as nat,
        seed: 0,
        transport: Transport::Zenoh,
        wire_links: Seq::empty(),
        wireless: None,
        positions: Seq::empty(),
        range_bits: 0,
        in_range: Seq::empty(),
        explicit: false,
        drops: Set::empty(),
        routes: Seq::empty(),
    }
}

pub open spec fn split_brain_text() -> Seq<char> {
    "Split-brain YAML detected: both 'topology.nodes' and numeric 'peripherals' are present."@
}

/// Both ways of listing nodes are used at once.
pub open spec fn is_split_brain(w: WorldView) -> bool {
    &&& w.topology matches Some(t) && t.nodes.len() > 0
    &&& exists|i: int|
        0 <= i < w.peripherals.len() && topology::id_of(#[trigger] w.peripherals[i]) is Some
}

/// The error for a node that is not named by a number.
pub open spec fn invalid_id(n: NodeIdView) -> TopologyErrorView {
    TopologyErrorView::InvalidNodeId(
        match n {
            NodeIdView::Name(s) => s,
            NodeIdView::Integer(i) => Seq::empty(),
        },
    )
}

/// The numbers of the nodes from index `i` on, behind `found`; the greatest number names no node.
pub open spec fn listed_ids(nodes: Seq<NodeIdView>, i: int, found: Seq<u32>) -> Result<
    Seq<u32>,
    TopologyErrorView,
>
    decreases nodes.len() - i,
{
    if i < 0 || i >= nodes.len() {
        Ok(found)
    } else {
        match topology::id_of(nodes[i]) {
            None => Err(invalid_id(nodes[i])),
            Some(id) => listed_ids(
                nodes,
                i + 1,
                if id == u32::MAX {
                    found
                } else {
                    found.push(id)
                },
            ),
        }
    }
}

/// The numbers of the peripherals from index `i` on, behind `found`; none at all once the
/// greatest number is among them.
pub open spec fn fallback_ids(nodes: Seq<NodeIdView>, i: int, found: Seq<u32>) -> Result<
    Seq<u32>,
    TopologyErrorView,
>
    decreases nodes.len() - i,
{
    if i < 0 || i >= nodes.len() {
        Ok(found)
    } else {
        match topology::id_of(nodes[i]) {
            None => Err(invalid_id(nodes[i])),
            Some(id) => if id == u32::MAX {
                Ok(Seq::empty())
            } else {
                fallback_ids(nodes, i + 1, found.push(id))
            },
        }
    }
}

/// The nodes that there are: those that the topology lists or, if it lists none, the peripherals.
pub open spec fn valid_ids(w: WorldView) -> Result<Seq<u32>, TopologyErrorView> {
    let listed = match w.topology {
        Some(t) => listed_ids(t.nodes, 0, Seq::empty()),
        None => Ok(Seq::empty()),
    };
    match listed {
        Err(e) => Err(e),
        Ok(ids) => if ids.len() > 0 {
            Ok(ids)
        } else {
            fallback_ids(w.peripherals, 0, Seq::empty())
        },
    }
}

/// The numbers of a link's nodes from index `i` on, behind `found`.
pub open spec fn link_ids(
    nodes: Seq<NodeIdView>,
    valid: Seq<u32>,
    i: int,
    found: Seq<u32>,
) -> Result<Seq<u32>, TopologyErrorView>
    decreases nodes.len() - i,
{
    if i < 0 || i >= nodes.len() {
        Ok(found)
    } else {
        match topology::id_of(nodes[i]) {
            None => Err(invalid_id(nodes[i])),
            Some(id) => if valid.contains(id) {
                link_ids(nodes, valid, i + 1, found.push(id))
            } else {
                Err(TopologyErrorView::UnknownNode(id))
            },
        }
    }
}

/// The routes with those from the node at index `i` to the nodes from index `j` on.
pub open spec fn routes_from(routes: Routes, nodes: Seq<u32>, i: int, j: int) -> Routes
    decreases nodes.len() - j,
{
    if j < 0 || j >= nodes.len() {
        routes
    } else {
        routes_from(
            if i != j {
                topology::with_route(
                    routes,
                    text::decimal(nodes[i] as nat),
                    text::decimal(nodes[j] as nat),
                )
            } else {
                routes
            },
            nodes,
            i,
            j + 1,
        )
    }
}

/// The routes with those from each node from index `i` on to every other node.
pub open spec fn routes_among(routes: Routes, nodes: Seq<u32>, i: int) -> Routes
    decreases nodes.len() - i,
{
    if i < 0 || i >= nodes.len() {
        routes
    } else {
        routes_among(routes_from(routes, nodes, i, 0), nodes, i + 1)
    }
}

/// The routes of a link, as its nodes are put on it one by one from the `k`th on: each time, every
/// node on it so far gets a route to every other.
pub open spec fn link_routes(routes: Routes, nodes: Seq<u32>, k: int) -> Routes
    decreases nodes.len() - k,
{
    if k < 0 || k >= nodes.len() {
        routes
    } else {
        link_routes(routes_among(routes, nodes.take(k + 1), 0), nodes, k + 1)
    }
}

/// The links from index `i` on, behind `links`, and all their routes.
pub open spec fn built_links(
    specs: Seq<LinkSpecView>,
    valid: Seq<u32>,
    i: int,
    links: Seq<WireLinkView>,
    routes: Routes,
) -> Result<(Seq<WireLinkView>, Routes), TopologyErrorView>
    decreases specs.len() - i,
{
    if i < 0 || i >= specs.len() {
        Ok((links, routes))
    } else {
        match link_ids(specs[i].nodes, valid, 0, Seq::empty()) {
            Err(e) => Err(e),
            Ok(nodes) => built_links(
                specs,
                valid,
                i + 1,
                links.push(
                    WireLinkView { protocol: specs[i].protocol, nodes, baud: specs[i].baud },
                ),
                link_routes(routes, nodes, 0),
            ),
        }
    }
}

/// The first index from `i` on at which `id` stands.
pub open spec fn position_index(positions: Positions, id: u32, i: int) -> Option<int>
    decreases positions.len() - i,
{
    if i < 0 || i >= positions.len() {
        None
    } else if positions[i].0 == id {
        Some(i)
    } else {
        position_index(positions, id, i + 1)
    }
}

/// The positions once `id` is at `at`.
pub open spec fn with_position(positions: Positions, id: u32, at: Position) -> Positions {
    match position_index(positions, id, 0) {
        Some(i) => positions.update(i, (id, at)),
        None => positions.push((id, at)),
    }
}

/// The nodes on the air from index `i` on, behind `nodes`, and where they are.
pub open spec fn built_wireless(
    w: WirelessSpecView,
    valid: Seq<u32>,
    i: int,
    nodes: Seq<WirelessNode>,
    positions: Positions,
) -> Result<(Seq<WirelessNode>, Positions), TopologyErrorView>
    decreases w.nodes.len() - i,
{
    if i < 0 || i >= w.nodes.len() {
        Ok((nodes, positions))
    } else {
        match topology::id_of(w.nodes[i]) {
            None => Err(invalid_id(w.nodes[i])),
            Some(id) => if id == u32::MAX {
                built_wireless(w, valid, i + 1, nodes, positions)
            } else if valid.contains(id) {
                built_wireless(
                    w,
                    valid,
                    i + 1,
                    nodes.push(WirelessNode { id, initial_position: w.positions[i] }),
                    with_position(positions, id, w.positions[i]),
                )
            } else {
                Err(TopologyErrorView::UnknownNode(id))
            },
        }
    }
}

/// The seed that a text writes, or 0.
pub open spec fn seed_of(seed: Option<Seq<char>>) -> u64 {
    match seed {
        Some(s) => match text::parsed_unsigned(s, u64::MAX as nat) {
            Some(v) => v as u64,
            None => 0,
        },
        None => 0,
    }
}

/// The graph of a world.
pub open spec fn graph_of(w: WorldView) -> Result<GraphView, TopologyErrorView> {
    if is_split_brain(w) {
        Err(TopologyErrorView::SplitBrainError(split_brain_text()))
    } else {
        match valid_ids(w) {
            Err(e) => Err(e),
            Ok(valid) => match w.topology {
                None => Ok(default_graph()),
                Some(t) => match built_links(t.links, valid, 0, Seq::empty(), Seq::empty()) {
                    Err(e) => Err(e),
                    Ok((wire_links, routes)) => {
                        let base = GraphView {
                            limit: match t.limit {
                                Some(n) => n as nat,
                                None => DEFAULT_MESSAGE_LIMIT as nat,
                            },
                            seed: seed_of(t.seed),
                            transport: match t.transport {
                                Some(tr) => tr,
                                None => Transport::Zenoh,
                            },
                            wire_links,
                            wireless: None,
                            positions: Seq::empty(),
                            range_bits: 0,
                            in_range: Seq::empty(),
                            explicit: true,
                            drops: Set::empty(),
                            routes,
                        };
                        match t.wireless {
                            None => Ok(base),
                            Some(wl) => match built_wireless(
                                wl,
                                valid,
                                0,
                                Seq::empty(),
                                Seq::empty(),
                            ) {
                                Err(e) => Err(e),
                                Ok((nodes, positions)) => Ok(
                                    GraphView {
                                        wireless: Some(
                                            WirelessView {
                                                medium: wl.medium,
                                                nodes,
                                                max_range_bits: wl.max_range_bits,
                                            },
                                        ),
                                        positions,
                                        range_bits: wl.max_range_bits,
                                        ..base
                                    },
                                ),
                            },
                        }
                    },
                },
            },
        }
    }
}

pub(crate) fn contains_id(ids: &Vec<u32>, id: u32) -> (r: bool)
    ensures
        r == ids@.contains(id),
{
    let mut i: usize = 0;
    while i < ids.len()
        invariant
            i <= ids@.len(),
            forall|k: int| 0 <= k < i ==> ids@[k] != id,
        decreases ids@.len() - i,
    {
        if ids[i] == id {
            return true;
        }
        i += 1;
    }
    false
}

pub(crate) fn contains_pair(pairs: &Vec<(u32, u32)>, a: u32, b: u32) -> (r: bool)
    ensures
        r == pairs@.contains((a, b)),
{
    let mut i: usize = 0;
    while i < pairs.len()
        invariant
            i <= pairs@.len(),
            forall|k: int| 0 <= k < i ==> pairs@[k] != (a, b),
        decreases pairs@.len() - i,
    {
        if pairs[i].0 == a && pairs[i].1 == b {
            proof {
                assert(pairs@[i as int] == (a, b));
            }
            return true;
        }
        i += 1;
    }
    false
}

fn invalid_node(n: &NodeId) -> (e: TopologyError)
    ensures
        e@ == invalid_id(n@),
{
    match n {
        NodeId::Name(s) => TopologyError::InvalidNodeId(owned(s.as_str())),
        NodeId::Integer(_) => TopologyError::InvalidNodeId(String::new()),
    }
}

fn list_ids(nodes: &Vec<NodeId>) -> (r: Result<Vec<u32>, TopologyError>)
    ensures
        match r {
            Ok(ids) => listed_ids(sorting::views(nodes@), 0, Seq::empty()) == Ok::<
                Seq<u32>,
                TopologyErrorView,
            >(ids@),
            Err(e) => listed_ids(sorting::views(nodes@), 0, Seq::empty()) == Err::<
                Seq<u32>,
                TopologyErrorView,
            >(e@),
        },
{
    let ghost all = sorting::views(nodes@);
    let mut ids: Vec<u32> = Vec::new();
    let mut i: usize = 0;
    while i < nodes.len()
        invariant
            i <= nodes@.len(),
            all == sorting::views(nodes@),
            listed_ids(all, 0, Seq::empty()) == listed_ids(all, i as int, ids@),
        decreases nodes@.len() - i,
    {
        match checked_node_id(&nodes[i]) {
            None => {
                return Err(invalid_node(&nodes[i]));
            },
            Some(id) => {
                if id != u32::MAX {
                    ids.push(id);
                }
            },
        }
        i += 1;
    }
    Ok(ids)
}

fn list_fallback_ids(nodes: &Vec<NodeId>) -> (r: Result<Vec<u32>, TopologyError>)
    ensures
        match r {
            Ok(ids) => fallback_ids(sorting::views(nodes@), 0, Seq::empty()) == Ok::<
                Seq<u32>,
                TopologyErrorView,
            >(ids@),
            Err(e) => fallback_ids(sorting::views(nodes@), 0, Seq::empty()) == Err::<
                Seq<u32>,
                TopologyErrorView,
            >(e@),
        },
{
    let ghost all = sorting::views(nodes@);
    let mut ids: Vec<u32> = Vec::new();
    let mut i: usize = 0;
    while i < nodes.len()
        invariant
            i <= nodes@.len(),
            all == sorting::views(nodes@),
            fallback_ids(all, 0, Seq::empty()) == fallback_ids(all, i as int, ids@),
        decreases nodes@.len() - i,
    {
        match checked_node_id(&nodes[i]) {
            None => {
                return Err(invalid_node(&nodes[i]));
            },
            Some(id) => {
                if id == u32::MAX {
                    let none: Vec<u32> = Vec::new();
                    proof {
                        assert(none@ =~= Seq::empty());
                    }
                    return Ok(none);
                }
                ids.push(id);
            },
        }
        i += 1;
    }
    Ok(ids)
}

fn list_valid_ids(world: &World) -> (r: Result<Vec<u32>, TopologyError>)
    ensures
        match r {
            Ok(ids) => valid_ids(world@) == Ok::<Seq<u32>, TopologyErrorView>(ids@),
            Err(e) => valid_ids(world@) == Err::<Seq<u32>, TopologyErrorView>(e@),
        },
{
    match &world.topology {
        Some(t) => match list_ids(&t.nodes) {
            Err(e) => Err(e),
            Ok(ids) => if ids.len() > 0 {
                Ok(ids)
            } else {
                list_fallback_ids(&world.peripherals)
            },
        },
        None => list_fallback_ids(&world.peripherals),
    }
}

fn list_link_ids(nodes: &Vec<NodeId>, valid: &Vec<u32>) -> (r: Result<Vec<u32>, TopologyError>)
    ensures
        match r {
            Ok(ids) => link_ids(sorting::views(nodes@), valid@, 0, Seq::empty()) == Ok::<
                Seq<u32>,
                TopologyErrorView,
            >(ids@),
            Err(e) => link_ids(sorting::views(nodes@), valid@, 0, Seq::empty()) == Err::<
                Seq<u32>,
                TopologyErrorView,
            >(e@),
        },
{
    let ghost all = sorting::views(nodes@);
    let mut ids: Vec<u32> = Vec::new();
    let mut i: usize = 0;
    while i < nodes.len()
        invariant
            i <= nodes@.len(),
            all == sorting::views(nodes@),
            link_ids(all, valid@, 0, Seq::empty()) == link_ids(all, valid@, i as int, ids@),
        decreases nodes@.len() - i,
    {
        match checked_node_id(&nodes[i]) {
            None => {
                return Err(invalid_node(&nodes[i]));
            },
            Some(id) => {
                if !contains_id(valid, id) {
                    return Err(TopologyError::UnknownNode(id));
                }
                ids.push(id);
            },
        }
        i += 1;
    }
    Ok(ids)
}

fn add_routes_among(map: &mut RoutingMap, nodes: &Vec<u32>, count: usize)
    requires
        count <= nodes@.len(),
    ensures
        final(map)@ == routes_among(old(map)@, nodes@.take(count as int), 0),
{
    let ghost some = nodes@.take(count as int);
    let ghost start = map@;
    let mut i: usize = 0;
    while i < count
        invariant
            i <= count <= nodes@.len(),
            some == nodes@.take(count as int),
            routes_among(start, some, 0) == routes_among(map@, some, i as int),
        decreases count - i,
    {
        let ghost before = map@;
        let mut j: usize = 0;
        while j < count
            invariant
                i < count <= nodes@.len(),
                j <= count,
                some == nodes@.take(count as int),
                routes_from(before, some, i as int, 0) == routes_from(
                    map@,
                    some,
                    i as int,
                    j as int,
                ),
            decreases count - j,
        {
            if i != j {
                map.add_route(decimal_text(nodes[i] as u64), decimal_text(nodes[j] as u64));
            }
            j += 1;
        }
        i += 1;
    }
}

fn add_link_routes(map: &mut RoutingMap, nodes: &Vec<u32>)
    ensures
        final(map)@ == link_routes(old(map)@, nodes@, 0),
{
    let ghost start = map@;
    let mut k: usize = 0;
    while k < nodes.len()
        invariant
            k <= nodes@.len(),
            link_routes(start, nodes@, 0) == link_routes(map@, nodes@, k as int),
        decreases nodes@.len() - k,
    {
        add_routes_among(map, nodes, k + 1);
        k += 1;
    }
}

fn build_links(specs: &Vec<LinkSpec>, valid: &Vec<u32>) -> (r: Result<
    (Vec<WireLink>, RoutingMap),
    TopologyError,
>)
    ensures
        match r {
            Ok((links, map)) => built_links(
                sorting::views(specs@),
                valid@,
                0,
                Seq::empty(),
                Seq::empty(),
            ) == Ok::<(Seq<WireLinkView>, Routes), TopologyErrorView>(
                (sorting::views(links@), map@),
            ),
            Err(e) => built_links(
                sorting::views(specs@),
                valid@,
                0,
                Seq::empty(),
                Seq::empty(),
            ) == Err::<(Seq<WireLinkView>, Routes), TopologyErrorView>(e@),
        },
{
    let ghost all = sorting::views(specs@);
    let mut links: Vec<WireLink> = Vec::new();
    let mut map = RoutingMap::new();
    proof {
        assert(sorting::views(links@) =~= Seq::empty());
    }
    let mut i: usize = 0;
    while i < specs.len()
        invariant
            i <= specs@.len(),
            all == sorting::views(specs@),
            built_links(all, valid@, 0, Seq::empty(), Seq::empty()) == built_links(
                all,
                valid@,
                i as int,
                sorting::views(links@),
                map@,
            ),
        decreases specs@.len() - i,
    {
        let spec_link = &specs[i];
        match list_link_ids(&spec_link.nodes, valid) {
            Err(e) => {
                return Err(e);
            },
            Ok(nodes) => {
                add_link_routes(&mut map, &nodes);
                let ghost before = sorting::views(links@);
                let link = WireLink { protocol: spec_link.protocol, nodes, baud: spec_link.baud };
                let ghost link_view = link@;
                links.push(link);
                proof {
                    assert(sorting::views(links@) =~= before.push(link_view));
                }
            },
        }
        i += 1;
    }
    Ok((links, map))
}

fn set_position(positions: &mut Vec<(u32, Position)>, id: u32, at: Position)
    ensures
        final(positions)@ == with_position(old(positions)@, id, at),
{
    let ghost before = positions@;
    let mut i: usize = 0;
    while i < positions.len()
        invariant
            i <= positions@.len(),
            positions@ == before,
            before == old(positions)@,
            position_index(before, id, 0) == position_index(before, id, i as int),
        decreases positions@.len() - i,
    {
        if positions[i].0 == id {
            positions.set(i, (id, at));
            return;
        }
        i += 1;
    }
    positions.push((id, at));
}

fn build_wireless(w: &WirelessSpec, valid: &Vec<u32>) -> (r: Result<
    (Vec<WirelessNode>, Vec<(u32, Position)>),
    TopologyError,
>)
    requires
        w.nodes@.len() == w.positions@.len(),
    ensures
        match r {
            Ok((nodes, positions)) => built_wireless(
                w@,
                valid@,
                0,
                Seq::empty(),
                Seq::empty(),
            ) == Ok::<(Seq<WirelessNode>, Positions), TopologyErrorView>((nodes@, positions@)),
            Err(e) => built_wireless(w@, valid@, 0, Seq::empty(), Seq::empty()) == Err::<
                (Seq<WirelessNode>, Positions),
                TopologyErrorView,
            >(e@),
        },
{
    let mut nodes: Vec<WirelessNode> = Vec::new();
    let mut positions: Vec<(u32, Position)> = Vec::new();
    let mut i: usize = 0;
    while i < w.nodes.len()
        invariant
            i <= w.nodes@.len() == w.positions@.len(),
            built_wireless(w@, valid@, 0, Seq::empty(), Seq::empty()) == built_wireless(
                w@,
                valid@,
                i as int,
                nodes@,
                positions@,
            ),
        decreases w.nodes@.len() - i,
    {
        proof {
            assert(w@.nodes[i as int] == w.nodes@[i as int]@);
        }
        match checked_node_id(&w.nodes[i]) {
            None => {
                return Err(invalid_node(&w.nodes[i]));
            },
            Some(id) => {
                if id != u32::MAX {
                    if !contains_id(valid, id) {
                        return Err(TopologyError::UnknownNode(id));
                    }
                    let at: Position = w.positions[i];
                    set_position(&mut positions, id, at);
                    nodes.push(WirelessNode { id, initial_position: at });
                }
            },
        }
        i += 1;
    }
    Ok((nodes, positions))
}

fn has_numeric(nodes: &Vec<NodeId>) -> (r: bool)
    ensures
        r == exists|i: int|
            0 <= i < sorting::views(nodes@).len() && topology::id_of(
                #[trigger] sorting::views(nodes@)[i],
            ) is Some,
{
    let ghost all = sorting::views(nodes@);
    let mut i: usize = 0;
    while i < nodes.len()
        invariant
            i <= nodes@.len(),
            all == sorting::views(nodes@),
            forall|k: int| 0 <= k < i ==> topology::id_of(#[trigger] all[k]) is None,
        decreases nodes@.len() - i,
    {
        if checked_node_id(&nodes[i]).is_some() {
            proof {
                assert(topology::id_of(all[i as int]) is Some);
            }
            return true;
        }
        i += 1;
    }
    false
}

impl Default for TopologyGraph {
    fn default() -> (g: Self)
        ensures
            g@ == default_graph(),
    {
        let g = TopologyGraph {
            max_messages_per_node_per_quantum: DEFAULT_MESSAGE_LIMIT as usize,
            global_seed: 0,
            transport: Transport::Zenoh,
            wire_links: Vec::new(),
            wireless_medium: None,
            node_positions: Vec::new(),
            max_wireless_range_bits: 0,
            in_range: Vec::new(),
            is_explicit: false,
            drop_list: Vec::new(),
            routing_map: RoutingMap::new(),
        };
        proof {
            assert(g@.wire_links =~= Seq::empty());
            assert(g@.drops =~= Set::empty());
            assert(g@ =~= default_graph());
        }
        g
    }
}

/// The nodes from index `i` of the positions on that are within range of `node`, behind `found`.
pub open spec fn near_nodes(g: GraphView, node: u32, i: int, found: Seq<u32>) -> Seq<u32>
    decreases g.positions.len() - i,
{
    if i < 0 || i >= g.positions.len() {
        found
    } else {
        let other = g.positions[i].0;
        near_nodes(
            g,
            node,
            i + 1,
            if other != node && g.in_range.contains((node, other)) {
                found.push(other)
            } else {
                found
            },
        )
    }
}

/// The nodes that hear `node` over the air.
pub open spec fn neighbors(g: GraphView, node: u32) -> Seq<u32> {
    if g.wireless is None || position_index(g.positions, node, 0) is None {
        Seq::empty()
    } else {
        near_nodes(g, node, 0, Seq::empty())
    }
}

/// A wired link of that protocol has both nodes.
pub open spec fn wired(g: GraphView, src: u32, dst: u32, protocol: Protocol) -> bool {
    exists|i: int|
        0 <= i < g.wire_links.len() && (#[trigger] g.wire_links[i]).protocol == protocol
            && g.wire_links[i].nodes.contains(src) && g.wire_links[i].nodes.contains(dst)
}

/// A message may pass from `src` to `dst`.
pub open spec fn link_allowed(g: GraphView, src: u32, dst: u32, protocol: Protocol) -> bool {
    if g.drops.contains((src, dst)) || g.drops.contains((dst, src)) {
        false
    } else if !g.explicit {
        true
    } else if protocol == Protocol::Rf802154 || protocol == Protocol::RfHci {
        neighbors(g, src).contains(dst)
    } else {
        wired(g, src, dst, protocol)
    }
}

/// The positions once the updates from index `i` on are made.
pub open spec fn updated_positions(
    positions: Positions,
    updates: Seq<(u32, Position)>,
    i: int,
) -> Positions
    decreases updates.len() - i,
{
    if i < 0 || i >= updates.len() {
        positions
    } else {
        updated_positions(
            with_position(positions, updates[i].0, updates[i].1),
            updates,
            i + 1,
        )
    }
}

impl TopologyGraph {
    /// The graph of a world, once its YAML has been read.
    pub fn from_yaml(world: &World) -> (r: Result<Self, TopologyError>)
        requires
            world@.wf(),
        ensures
            match r {
                Ok(g) => graph_of(world@) == Ok::<GraphView, TopologyErrorView>(g@),
                Err(e) => graph_of(world@) == Err::<GraphView, TopologyErrorView>(e@),
            },
    {
        let has_topology_nodes: bool = match &world.topology {
            Some(t) => t.nodes.len() > 0,
            None => false,
        };
        if has_topology_nodes && has_numeric(&world.peripherals) {
            return Err(
                TopologyError::SplitBrainError(
                    owned(
                        "Split-brain YAML detected: both 'topology.nodes' and numeric 'peripherals' are present.",
                    ),
                ),
            );
        }
        let valid = match list_valid_ids(world) {
            Err(e) => {
                return Err(e);
            },
            Ok(valid) => valid,
        };
        match &world.topology {
            None => Ok(TopologyGraph::default()),
            Some(t) => {
                let (wire_links, routing_map) = match build_links(&t.links, &valid) {
                    Err(e) => {
                        return Err(e);
                    },
                    Ok(built) => built,
                };
                let limit: u32 = match t.max_messages_per_node_per_quantum {
                    Some(n) => n,
                    None => DEFAULT_MESSAGE_LIMIT,
                };
                let global_seed: u64 = match &t.global_seed {
                    Some(s) => match parse_unsigned(s.as_str(), u64::MAX) {
                        Some(v) => v,
                        None => 0,
                    },
                    None => 0,
                };
                let transport = match t.transport {
                    Some(tr) => tr,
                    None => Transport::Zenoh,
                };
                let mut graph = TopologyGraph {
                    max_messages_per_node_per_quantum: limit as usize,
                    global_seed,
                    transport,
                    wire_links,
                    wireless_medium: None,
                    node_positions: Vec::new(),
                    max_wireless_range_bits: 0,
                    in_range: Vec::new(),
                    is_explicit: true,
                    drop_list: Vec::new(),
                    routing_map,
                };
                proof {
                    assert(graph@.drops =~= Set::empty());
                    assert(graph@.positions =~= Seq::empty());
                    assert(graph@.in_range =~= Seq::empty());
                }
                match &t.wireless {
                    None => {},
                    Some(wl) => match build_wireless(wl, &valid) {
                        Err(e) => {
                            return Err(e);
                        },
                        Ok((nodes, positions)) => {
                            graph.wireless_medium = Some(
                                WirelessMedium {
                                    medium: owned(wl.medium.as_str()),
                                    nodes,
                                    max_range_bits: wl.max_range_bits,
                                },
                            );
                            graph.node_positions = positions;
                            graph.max_wireless_range_bits = wl.max_range_bits;
                        },
                    },
                }
                Ok(graph)
            },
        }
    }

    /// Whether there is anything on the air.
    pub fn has_wireless(&self) -> (r: bool)
        ensures
            r == (self@.wireless is Some),
    {
        self.wireless_medium.is_some()
    }

    /// The wired links.
    pub fn wire_links(&self) -> (links: &[WireLink])
        ensures
            links@ == self.wire_links@,
    {
        self.wire_links.as_slice()
    }

    /// Whether a message may pass from `src` to `dst`.
    pub fn is_link_allowed(&self, src: u32, dst: u32, protocol: Protocol) -> (r: bool)
        ensures
            r == link_allowed(self@, src, dst, protocol),
    {
        if contains_pair(&self.drop_list, src, dst) || contains_pair(&self.drop_list, dst, src) {
            return false;
        }
        if !self.is_explicit {
            return true;
        }
        if protocol.is_wireless() {
            return contains_id(&self.rf_neighbors(src), dst);
        }
        let mut i: usize = 0;
        while i < self.wire_links.len()
            invariant
                i <= self.wire_links@.len(),
                link_allowed(self@, src, dst, protocol) == wired(self@, src, dst, protocol),
                forall|k: int|
                    0 <= k < i ==> !((#[trigger] self@.wire_links[k]).protocol == protocol
                        && self@.wire_links[k].nodes.contains(src)
                        && self@.wire_links[k].nodes.contains(dst)),
            decreases self.wire_links@.len() - i,
        {
            let link = &self.wire_links[i];
            proof {
                assert(self@.wire_links[i as int] == link@);
            }
            if link.protocol == protocol && contains_id(&link.nodes, src) && contains_id(
                &link.nodes,
                dst,
            ) {
                return true;
            }
            i += 1;
        }
        false
    }

    /// Moves nodes.
    pub fn update_positions(&mut self, updates: &[(u32, Position)])
        ensures
            final(self)@ == (GraphView {
                positions: updated_positions(old(self)@.positions, updates@, 0),
                ..old(self)@
            }),
    {
        let ghost before = self@;
        let mut i: usize = 0;
        while i < updates.len()
            invariant
                i <= updates@.len(),
                updated_positions(before.positions, updates@, 0) == updated_positions(
                    self@.positions,
                    updates@,
                    i as int,
                ),
                self@ == (GraphView { positions: self@.positions, ..before }),
            decreases updates@.len() - i,
        {
            let (id, at): (u32, Position) = updates[i];
            set_position(&mut self.node_positions, id, at);
            i += 1;
        }
    }

    /// Takes which nodes are within range of which, for the positions as they are.
    pub fn set_in_range(&mut self, pairs: Vec<(u32, u32)>)
        ensures
            final(self)@ == (GraphView { in_range: pairs@, ..old(self)@ }),
    {
        self.in_range = pairs;
    }

    /// The nodes that hear `node_id` over the air.
    pub fn rf_neighbors(&self, node_id: u32) -> (r: Vec<u32>)
        ensures
            r@ == neighbors(self@, node_id),
    {
        let mut found: Vec<u32> = Vec::new();
        if self.wireless_medium.is_none() {
            return found;
        }
        let mut has_position: bool = false;
        let mut i: usize = 0;
        while i < self.node_positions.len()
            invariant
                i <= self.node_positions@.len(),
                !has_position ==> position_index(self@.positions, node_id, 0) == position_index(
                    self@.positions,
                    node_id,
                    i as int,
                ),
                has_position ==> position_index(self@.positions, node_id, 0) is Some,
                near_nodes(self@, node_id, 0, Seq::empty()) == near_nodes(
                    self@,
                    node_id,
                    i as int,
                    found@,
                ),
            decreases self.node_positions@.len() - i,
        {
            let other: u32 = self.node_positions[i].0;
            if other == node_id {
                has_position = true;
            } else if contains_pair(&self.in_range, node_id, other) {
                found.push(other);
            }
            i += 1;
        }
        if has_position {
            found
        } else {
            Vec::new()
        }
    }
}

} // verus!
