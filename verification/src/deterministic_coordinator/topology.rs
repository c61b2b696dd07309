//! Which nodes are linked, and how.
use vstd::prelude::*;

use crate::sorting;
use crate::text;
use crate::text::{chars_of, joined2, numbered, parse_unsigned, same_chars, same_text};

verus! {

/// The kind of traffic that a link carries.
#[derive(Debug, Clone, Copy, PartialEq, Eq, PartialOrd, Ord, Hash, Structural)]
pub enum Protocol {
    Ethernet,
    Uart,
    Spi,
    CanFd,
    FlexRay,
    Lin,
    Rf802154,
    RfHci,
    Control,
    ReferenceLink,
}

/// The place of a protocol in the order of protocols.
pub open spec fn protocol_rank(p: Protocol) -> int {
    match p {
        Protocol::Ethernet => 0,
        Protocol::Uart => 1,
        Protocol::Spi => 2,
        Protocol::CanFd => 3,
        Protocol::FlexRay => 4,
        Protocol::Lin => 5,
        Protocol::Rf802154 => 6,
        Protocol::RfHci => 7,
        Protocol::Control => 8,
        Protocol::ReferenceLink => 9,
    }
}

impl Protocol {
    /// Whether the protocol goes over the air.
    pub fn is_wireless(&self) -> (r: bool)
        ensures
            r == (*self == Protocol::Rf802154 || *self == Protocol::RfHci),
    {
        match self {
            Protocol::Rf802154 => true,
            Protocol::RfHci => true,
            _ => false,
        }
    }

    /// The place of the protocol in the order of protocols.
    pub fn rank(&self) -> (r: u8)
        ensures
            r == protocol_rank(*self),
    {
        match self {
            Protocol::Ethernet => 0,
            Protocol::Uart => 1,
            Protocol::Spi => 2,
            Protocol::CanFd => 3,
            Protocol::FlexRay => 4,
            Protocol::Lin => 5,
            Protocol::Rf802154 => 6,
            Protocol::RfHci => 7,
            Protocol::Control => 8,
            Protocol::ReferenceLink => 9,
        }
    }
}


/// What lowercasing makes of a text.
pub uninterp spec fn lowercase_of(s: Seq<char>) -> Seq<char>;

/// `str::to_lowercase`; its result is named, not spelled out.
#[verifier::external_body]
pub(crate) fn lowercase(s: &str) -> (r: String)
    ensures
        r@ == lowercase_of(s@),
{
    s.to_lowercase()
}

/// The protocol that a lower-case name stands for.
pub open spec fn protocol_named(lower: Seq<char>) -> Protocol {
    if lower == "ethernet"@ || lower == "eth"@ {
        Protocol::Ethernet
    } else if lower == "uart"@ {
        Protocol::Uart
    } else if lower == "spi"@ {
        Protocol::Spi
    } else if lower == "canfd"@ {
        Protocol::CanFd
    } else if lower == "flexray"@ {
        Protocol::FlexRay
    } else if lower == "lin"@ {
        Protocol::Lin
    } else if lower == "rf802154"@ {
        Protocol::Rf802154
    } else if lower == "rfhci"@ {
        Protocol::RfHci
    } else if lower == "reference-link"@ {
        Protocol::ReferenceLink
    } else {
        Protocol::Control
    }
}

impl Protocol {
    /// The protocol that a lower-case name stands for; any other name is control traffic.
    pub fn from_lowercase(lower: &str) -> (p: Protocol)
        ensures
            p == protocol_named(lower@),
    {
        if same_text(lower, "ethernet") || same_text(lower, "eth") {
            Protocol::Ethernet
        } else if same_text(lower, "uart") {
            Protocol::Uart
        } else if same_text(lower, "spi") {
            Protocol::Spi
        } else if same_text(lower, "canfd") {
            Protocol::CanFd
        } else if same_text(lower, "flexray") {
            Protocol::FlexRay
        } else if same_text(lower, "lin") {
            Protocol::Lin
        } else if same_text(lower, "rf802154") {
            Protocol::Rf802154
        } else if same_text(lower, "rfhci") {
            Protocol::RfHci
        } else if same_text(lower, "reference-link") {
            Protocol::ReferenceLink
        } else {
            Protocol::Control
        }
    }

    /// The protocol that a name stands for, in whatever case it is written.
    pub fn from_name(name: &str) -> (p: Protocol)
        ensures
            p == protocol_named(lowercase_of(name@)),
    {
        let lower = lowercase(name);
        Protocol::from_lowercase(lower.as_str())
    }
}

/// How nodes and coordinator talk to each other.
#[derive(Debug, Clone, Copy, PartialEq, Eq, PartialOrd, Ord, Hash, Structural)]
pub enum Transport {
    Zenoh,
    Unix,
}

impl Default for Transport {
    fn default() -> (t: Self)
        ensures
            t == Transport::Zenoh,
    {
        Transport::Zenoh
    }
}

/// A wired link.
#[derive(Debug, Clone, PartialEq, Eq)]
pub struct WireLink {
    pub protocol: Protocol,
    pub nodes: Vec<u32>,
    pub baud: Option<u32>,
}

#[verifier::ext_equal]
pub struct WireLinkView {
    pub protocol: Protocol,
    pub nodes: Seq<u32>,
    pub baud: Option<u32>,
}

impl View for WireLink {
    type V = WireLinkView;

    open spec fn view(&self) -> WireLinkView {
        WireLinkView { protocol: self.protocol, nodes: self.nodes@, baud: self.baud }
    }
}

/// A place in space; each coordinate is the bit pattern of a double.
#[derive(Debug, Clone, Copy, PartialEq, Eq, Structural)]
pub struct Position {
    pub x_bits: u64,
    pub y_bits: u64,
    pub z_bits: u64,
}

/// A node that can be heard over the air.
#[derive(Debug, Clone, Copy, PartialEq, Eq, Structural)]
pub struct WirelessNode {
    pub id: u32,
    pub initial_position: Position,
}

/// What the nodes on the air share.
#[derive(Debug, Clone, PartialEq, Eq)]
pub struct WirelessMedium {
    pub medium: String,
    pub nodes: Vec<WirelessNode>,
    /// The bit pattern of the range in metres.
    pub max_range_bits: u64,
}

#[verifier::ext_equal]
pub struct WirelessView {
    pub medium: Seq<char>,
    pub nodes: Seq<WirelessNode>,
    pub max_range_bits: u64,
}

impl View for WirelessMedium {
    type V = WirelessView;

    open spec fn view(&self) -> WirelessView {
        WirelessView {
            medium: self.medium@,
            nodes: self.nodes@,
            max_range_bits: self.max_range_bits,
        }
    }
}

/// A node as a world file names it.
#[derive(Debug, Clone, PartialEq, Eq)]
pub enum NodeId {
    Integer(i64),
    Name(String),
}

#[verifier::ext_equal]
pub enum NodeIdView {
    Integer(i64),
    Name(Seq<char>),
}

impl View for NodeId {
    type V = NodeIdView;

    open spec fn view(&self) -> NodeIdView {
        match self {
            NodeId::Integer(i) => NodeIdView::Integer(*i),
            NodeId::Name(s) => NodeIdView::Name(s@),
        }
    }
}

/// The number of a node: an integer cut to 32 bits, or the number that a name writes.
pub open spec fn id_of(n: NodeIdView) -> Option<u32> {
    match n {
        NodeIdView::Integer(i) => Some(i as u32),
        NodeIdView::Name(s) => match text::parsed_unsigned(s, u32::MAX as nat) {
            Some(v) => Some(v as u32),
            None => None,
        },
    }
}

/// The number of a node, if its name writes one.
pub fn checked_node_id(nid: &NodeId) -> (r: Option<u32>)
    ensures
        r == id_of(nid@),
{
    match nid {
        NodeId::Integer(i) => {
            let id: u32 = #[verifier::truncate]
            (*i as u32);
            Some(id)
        },
        NodeId::Name(s) => match parse_unsigned(s.as_str(), u32::MAX as u64) {
            Some(v) => Some(v as u32),
            None => None,
        },
    }
}

/// The number of a node.
pub fn node_id_to_u32(nid: &NodeId) -> (id: u32)
    requires
        id_of(nid@) is Some,
    ensures
        id_of(nid@) == Some(id),
{
    match checked_node_id(nid) {
        Some(id) => id,
        None => 0,
    }
}

/// A link as a world file describes it.
#[derive(Debug, Clone, PartialEq, Eq)]
pub struct LinkSpec {
    pub protocol: Protocol,
    pub nodes: Vec<NodeId>,
    pub baud: Option<u32>,
}

#[verifier::ext_equal]
pub struct LinkSpecView {
    pub protocol: Protocol,
    pub nodes: Seq<NodeIdView>,
    pub baud: Option<u32>,
}

impl View for LinkSpec {
    type V = LinkSpecView;

    open spec fn view(&self) -> LinkSpecView {
        LinkSpecView {
            protocol: self.protocol,
            nodes: sorting::views(self.nodes@),
            baud: self.baud,
        }
    }
}

/// The wireless part of a world file.
#[derive(Debug, Clone, PartialEq, Eq)]
pub struct WirelessSpec {
    pub medium: String,
    pub nodes: Vec<NodeId>,
    /// The position of each node.
    pub positions: Vec<Position>,
    pub max_range_bits: u64,
}

#[verifier::ext_equal]
pub struct WirelessSpecView {
    pub medium: Seq<char>,
    pub nodes: Seq<NodeIdView>,
    pub positions: Seq<Position>,
    pub max_range_bits: u64,
}

impl View for WirelessSpec {
    type V = WirelessSpecView;

    open spec fn view(&self) -> WirelessSpecView {
        WirelessSpecView {
            medium: self.medium@,
            nodes: sorting::views(self.nodes@),
            positions: self.positions@,
            max_range_bits: self.max_range_bits,
        }
    }
}

/// The topology part of a world file.
#[derive(Debug, Clone, PartialEq, Eq)]
pub struct TopologySpec {
    pub nodes: Vec<NodeId>,
    pub links: Vec<LinkSpec>,
    pub wireless: Option<WirelessSpec>,
    pub max_messages_per_node_per_quantum: Option<u32>,
    pub global_seed: Option<String>,
    pub transport: Option<Transport>,
}

/// What of a world file bears on the topology.
#[derive(Debug, Clone, PartialEq, Eq)]
pub struct World {
    pub topology: Option<TopologySpec>,
    /// The names of the top-level peripherals.
    pub peripherals: Vec<NodeId>,
}

#[verifier::ext_equal]
pub struct TopologySpecView {
    pub nodes: Seq<NodeIdView>,
    pub links: Seq<LinkSpecView>,
    pub wireless: Option<WirelessSpecView>,
    pub limit: Option<u32>,
    pub seed: Option<Seq<char>>,
    pub transport: Option<Transport>,
}

#[verifier::ext_equal]
pub struct WorldView {
    pub topology: Option<TopologySpecView>,
    pub peripherals: Seq<NodeIdView>,
}

impl View for TopologySpec {
    type V = TopologySpecView;

    open spec fn view(&self) -> TopologySpecView {
        TopologySpecView {
            nodes: sorting::views(self.nodes@),
            links: sorting::views(self.links@),
            wireless: match self.wireless {
                Some(w) => Some(w@),
                None => None,
            },
            limit: self.max_messages_per_node_per_quantum,
            seed: match self.global_seed {
                Some(s) => Some(s@),
                None => None,
            },
            transport: self.transport,
        }
    }
}

impl View for World {
    type V = WorldView;

    open spec fn view(&self) -> WorldView {
        WorldView {
            topology: match self.topology {
                Some(t) => Some(t@),
                None => None,
            },
            peripherals: sorting::views(self.peripherals@),
        }
    }
}

impl WorldView {
    /// Each node on the air has a position.
    pub open spec fn wf(self) -> bool {
        self.topology matches Some(t) ==> t.wireless matches Some(w) ==> w.nodes.len()
            == w.positions.len()
    }
}

/// Why there is no topology.
#[derive(Debug, Clone, PartialEq, Eq)]
pub enum TopologyError {
    IoError(String),
    YamlError(String),
    UnknownNode(u32),
    SplitBrainError(String),
    /// A node is named by something that is no number.
    InvalidNodeId(String),
}

#[verifier::ext_equal]
pub enum TopologyErrorView {
    IoError(Seq<char>),
    YamlError(Seq<char>),
    UnknownNode(u32),
    SplitBrainError(Seq<char>),
    InvalidNodeId(Seq<char>),
}

impl View for TopologyError {
    type V = TopologyErrorView;

    open spec fn view(&self) -> TopologyErrorView {
        match self {
            TopologyError::IoError(s) => TopologyErrorView::IoError(s@),
            TopologyError::YamlError(s) => TopologyErrorView::YamlError(s@),
            TopologyError::UnknownNode(n) => TopologyErrorView::UnknownNode(*n),
            TopologyError::SplitBrainError(s) => TopologyErrorView::SplitBrainError(s@),
            TopologyError::InvalidNodeId(s) => TopologyErrorView::InvalidNodeId(s@),
        }
    }
}

/// The text of a topology error.
pub open spec fn topology_error_text(e: TopologyErrorView) -> Seq<char> {
    match e {
        TopologyErrorView::IoError(s) => "IO Error: "@ + s,
        TopologyErrorView::YamlError(s) => "YAML Error: "@ + s,
        TopologyErrorView::UnknownNode(n) => "Unknown node in topology: "@ + text::decimal(
            n as nat,
        ),
        TopologyErrorView::SplitBrainError(s) => "Split-brain Error: "@ + s,
        TopologyErrorView::InvalidNodeId(s) => "Invalid data format: "@ + s,
    }
}

impl TopologyError {
    /// The text of the error.
    pub fn message(&self) -> (s: String)
        ensures
            s@ == topology_error_text(self@),
    {
        match self {
            TopologyError::IoError(e) => joined2("IO Error: ", e.as_str()),
            TopologyError::YamlError(e) => joined2("YAML Error: ", e.as_str()),
            TopologyError::UnknownNode(n) => numbered("Unknown node in topology: ", *n as u64),
            TopologyError::SplitBrainError(e) => joined2("Split-brain Error: ", e.as_str()),
            TopologyError::InvalidNodeId(e) => joined2("Invalid data format: ", e.as_str()),
        }
    }
}

/// Where messages of each source go.
#[derive(Debug, Clone, PartialEq, Eq)]
pub struct RoutingMap {
    /// The targets of each source; each source stands here once.
    pub map: Vec<(String, Vec<String>)>,
}

/// The targets of each source.
pub type Routes = Seq<(Seq<char>, Seq<Seq<char>>)>;

impl View for RoutingMap {
    type V = Routes;

    open spec fn view(&self) -> Routes {
        Seq::new(self.map@.len(), |i: int| (self.map@[i].0@, sorting::views(self.map@[i].1@)))
    }
}

/// The first index from `i` on at which the targets of `source` stand.
pub open spec fn source_index(routes: Routes, source: Seq<char>, i: int) -> Option<int>
    decreases routes.len() - i,
{
    if i < 0 || i >= routes.len() {
        None
    } else if routes[i].0 == source {
        Some(i)
    } else {
        source_index(routes, source, i + 1)
    }
}

/// The targets of `source`.
pub open spec fn targets_of(routes: Routes, source: Seq<char>) -> Option<Seq<Seq<char>>> {
    match source_index(routes, source, 0) {
        Some(i) => Some(routes[i].1),
        None => None,
    }
}

/// The routes with one more target of `source`.
pub open spec fn with_route(routes: Routes, source: Seq<char>, target: Seq<char>) -> Routes {
    match source_index(routes, source, 0) {
        Some(i) => routes.update(i, (source, routes[i].1.push(target))),
        None => routes.push((source, seq![target])),
    }
}

proof fn lemma_source_index(routes: Routes, source: Seq<char>, i: int)
    requires
        0 <= i,
    ensures
        match source_index(routes, source, i) {
            Some(k) => i <= k < routes.len() && routes[k].0 == source && forall|j: int|
                i <= j < k ==> (#[trigger] routes[j]).0 != source,
            None => forall|j: int| i <= j < routes.len() ==> (#[trigger] routes[j]).0 != source,
        },
    decreases routes.len() - i,
{
    if i < routes.len() && routes[i].0 != source {
        lemma_source_index(routes, source, i + 1);
    }
}

/// A new route is found behind the routes that its source had, and the other sources keep theirs.
pub proof fn law_added_route_is_found(
    routes: Routes,
    source: Seq<char>,
    target: Seq<char>,
    other: Seq<char>,
)
    ensures
        targets_of(with_route(routes, source, target), source) == Some(
            match targets_of(routes, source) {
                Some(had) => had.push(target),
                None => seq![target],
            },
        ),
        other != source ==> targets_of(with_route(routes, source, target), other) == targets_of(
            routes,
            other,
        ),
{
    let after = with_route(routes, source, target);
    lemma_source_index(routes, source, 0);
    lemma_source_index(after, source, 0);
    lemma_source_index(routes, other, 0);
    lemma_source_index(after, other, 0);
    match source_index(routes, source, 0) {
        Some(i) => {
            assert(after[i].0 == source);
            let k = source_index(after, source, 0)->0;
            assert(k <= i);
            if k < i {
                assert(after[k] == routes[k]);
            }
        },
        None => {
            assert(after[routes.len() as int].0 == source);
            let k = source_index(after, source, 0)->0;
            if k < routes.len() {
                assert(after[k] == routes[k]);
            }
        },
    }
    if other != source {
        match source_index(routes, other, 0) {
            Some(k) => {
                assert(after[k] == routes[k]);
                let m = source_index(after, other, 0)->0;
                assert(m <= k);
                if m < k {
                    assert(after[m].0 == routes[m].0);
                }
            },
            None => {
                assert forall|j: int| 0 <= j < after.len() implies (#[trigger] after[j]).0
                    != other by {
                    if j < routes.len() {
                        assert(after[j].0 == routes[j].0);
                    }
                }
            },
        }
    }
}

impl RoutingMap {
    /// A map without routes.
    pub fn new() -> (m: Self)
        ensures
            m@ == Routes::empty(),
    {
        let m = RoutingMap { map: Vec::new() };
        proof {
            assert(m@ =~= Routes::empty());
        }
        m
    }

    fn index_of(&self, source: &str) -> (r: Option<usize>)
        ensures
            match r {
                Some(i) => source_index(self@, source@, 0) == Some(i as int) && i < self.map@.len(),
                None => source_index(self@, source@, 0) is None,
            },
    {
        let wanted = chars_of(source);
        let mut i: usize = 0;
        while i < self.map.len()
            invariant
                i <= self.map@.len(),
                wanted@ == source@,
                source_index(self@, source@, 0) == source_index(self@, source@, i as int),
            decreases self.map@.len() - i,
        {
            let have = chars_of(self.map[i].0.as_str());
            if same_chars(have.as_slice(), wanted.as_slice()) {
                return Some(i);
            }
            i += 1;
        }
        None
    }

    /// Adds `target` to the targets of `source`.
    pub fn add_route(&mut self, source: String, target: String)
        ensures
            final(self)@ == with_route(old(self)@, source@, target@),
    {
        let ghost before = self@;
        match self.index_of(source.as_str()) {
            Some(i) => {
                let mut entry: (String, Vec<String>) = (source, Vec::new());
                std::mem::swap(&mut entry, &mut self.map[i]);
                let ghost had = sorting::views(entry.1@);
                proof {
                    assert(had == before[i as int].1);
                }
                entry.1.push(target);
                proof {
                    assert(sorting::views(entry.1@) =~= had.push(target@));
                }
                std::mem::swap(&mut entry, &mut self.map[i]);
                proof {
                    lemma_source_index(before, source@, 0);
                    assert(self@ =~= before.update(i as int, (source@, had.push(target@))));
                }
            },
            None => {
                let mut targets: Vec<String> = Vec::new();
                targets.push(target);
                proof {
                    assert(sorting::views(targets@) =~= seq![target@]);
                }
                self.map.push((source, targets));
                proof {
                    assert(self@ =~= before.push((source@, seq![target@])));
                }
            },
        }
    }

    /// The targets of `source`.
    pub fn get_targets(&self, source: &str) -> (r: Option<&Vec<String>>)
        ensures
            match r {
                Some(targets) => targets_of(self@, source@) == Some(sorting::views(targets@)),
                None => targets_of(self@, source@) is None,
            },
    {
        match self.index_of(source) {
            Some(i) => Some(&self.map[i].1),
            None => None,
        }
    }
}

} // verus!
