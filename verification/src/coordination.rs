//! What the coordinators share: their configuration, events and actions, and message routing.
use vstd::prelude::*;

use crate::deterministic_coordinator::barrier;
use crate::sorting;
use crate::sorting::{sort_stable, Ranked, Sortable};
use crate::text::{chars_of, same_chars};

verus! {

/// A link and the nodes that are attached to it.
#[derive(Debug, PartialEq, Eq)]
pub struct LinkConfig {
    pub link_id: u32,
    pub target_nodes: Vec<u32>,
    pub delay_ns: u64,
}

#[verifier::ext_equal]
pub struct LinkView {
    pub link_id: u32,
    pub target_nodes: Seq<u32>,
    pub delay_ns: u64,
}

impl View for LinkConfig {
    type V = LinkView;

    open spec fn view(&self) -> LinkView {
        LinkView {
            link_id: self.link_id,
            target_nodes: self.target_nodes@,
            delay_ns: self.delay_ns,
        }
    }
}

impl Clone for LinkConfig {
    fn clone(&self) -> (r: Self)
        ensures
            r@ == self@,
    {
        let target_nodes = self.target_nodes.clone();
        proof {
            assert(target_nodes@ =~= self.target_nodes@);
        }
        LinkConfig { link_id: self.link_id, target_nodes, delay_ns: self.delay_ns }
    }
}

/// The links by name, in the order in which they were put in.
#[derive(Debug, Clone, PartialEq, Eq)]
pub struct LinkTable {
    entries: Vec<(String, LinkConfig)>,
}

/// The named links of a table.
pub type Links = Seq<(Seq<char>, LinkView)>;

impl View for LinkTable {
    type V = Links;

    closed spec fn view(&self) -> Links {
        Seq::new(
            self.entries@.len(),
            |i: int| (self.entries@[i].0@, self.entries@[i].1@),
        )
    }
}

/// The first index from `i` on whose link has the name `name`.
pub open spec fn name_index(links: Links, name: Seq<char>, i: int) -> Option<int>
    decreases links.len() - i,
{
    if i < 0 || i >= links.len() {
        None
    } else if links[i].0 == name {
        Some(i)
    } else {
        name_index(links, name, i + 1)
    }
}

/// The first index from `i` on whose link has the number `link_id`.
pub open spec fn id_index(links: Links, link_id: u32, i: int) -> Option<int>
    decreases links.len() - i,
{
    if i < 0 || i >= links.len() {
        None
    } else if links[i].1.link_id == link_id {
        Some(i)
    } else {
        id_index(links, link_id, i + 1)
    }
}

/// The link of that name.
pub open spec fn link_named(links: Links, name: Seq<char>) -> Option<LinkView> {
    match name_index(links, name, 0) {
        Some(i) => Some(links[i].1),
        None => None,
    }
}

/// No two links have one name.
pub open spec fn names_distinct(links: Links) -> bool {
    forall|i: int, j: int|
        0 <= i < j < links.len() ==> (#[trigger] links[i]).0 != (#[trigger] links[j]).0
}

/// The table with `link` under `name`, in the place of what stood there.
pub open spec fn with_link(links: Links, name: Seq<char>, link: LinkView) -> Links {
    match name_index(links, name, 0) {
        Some(i) => links.update(i, (name, link)),
        None => links.push((name, link)),
    }
}

proof fn lemma_name_index(links: Links, name: Seq<char>, i: int)
    requires
        0 <= i,
    ensures
        match name_index(links, name, i) {
            Some(k) => i <= k < links.len() && links[k].0 == name,
            None => forall|j: int| i <= j < links.len() ==> (#[trigger] links[j]).0 != name,
        },
    decreases links.len() - i,
{
    if i < links.len() && links[i].0 != name {
        lemma_name_index(links, name, i + 1);
    }
}

proof fn lemma_id_index(links: Links, link_id: u32, i: int)
    requires
        0 <= i,
    ensures
        match id_index(links, link_id, i) {
            Some(k) => i <= k < links.len() && links[k].1.link_id == link_id,
            None => true,
        },
    decreases links.len() - i,
{
    if i < links.len() && links[i].1.link_id != link_id {
        lemma_id_index(links, link_id, i + 1);
    }
}

/// Putting a link in keeps the names distinct, and a look-up finds what was put in last.
pub proof fn law_link_table_is_a_map(links: Links, name: Seq<char>, link: LinkView, other: Seq<char>)
    requires
        names_distinct(links),
    ensures
        names_distinct(with_link(links, name, link)),
        link_named(with_link(links, name, link), name) == Some(link),
        other != name ==> link_named(with_link(links, name, link), other) == link_named(
            links,
            other,
        ),
{
    let after = with_link(links, name, link);
    lemma_name_index(links, name, 0);
    lemma_name_index(after, name, 0);
    lemma_name_index(links, other, 0);
    lemma_name_index(after, other, 0);
    match name_index(links, name, 0) {
        Some(i) => {
            assert(after[i].0 == name);
            if other != name {
                match name_index(links, other, 0) {
                    Some(k) => {
                        assert(after[k] == links[k]);
                    },
                    None => {
                        assert forall|j: int| 0 <= j < after.len() implies (
                        #[trigger] after[j]).0 != other by {
                            assert(j == i || after[j] == links[j]);
                        }
                    },
                }
            }
        },
        None => {
            assert(after[links.len() as int].0 == name);
            if other != name {
                match name_index(links, other, 0) {
                    Some(k) => {
                        assert(after[k] == links[k]);
                    },
                    None => {
                        assert forall|j: int| 0 <= j < after.len() implies (
                        #[trigger] after[j]).0 != other by {
                            assert(j == links.len() || after[j] == links[j]);
                        }
                    },
                }
            }
        },
    }
    assert(names_distinct(after));
}

impl LinkTable {
    pub fn new() -> (t: Self)
        ensures
            t@ == Links::empty(),
    {
        let t = LinkTable { entries: Vec::new() };
        proof {
            assert(t@ =~= Links::empty());
        }
        t
    }

    /// How many links there are.
    pub fn len(&self) -> (n: usize)
        ensures
            n == self@.len(),
    {
        self.entries.len()
    }

    fn index_of(&self, name: &str) -> (r: Option<usize>)
        ensures
            match r {
                Some(i) => name_index(self@, name@, 0) == Some(i as int) && i < self@.len(),
                None => name_index(self@, name@, 0) is None,
            },
    {
        let wanted = chars_of(name);
        let mut i: usize = 0;
        while i < self.entries.len()
            invariant
                i <= self.entries@.len(),
                wanted@ == name@,
                name_index(self@, name@, 0) == name_index(self@, name@, i as int),
            decreases self.entries@.len() - i,
        {
            let have = chars_of(self.entries[i].0.as_str());
            if same_chars(have.as_slice(), wanted.as_slice()) {
                return Some(i);
            }
            i += 1;
        }
        None
    }

    /// Puts `link` under `name`, in the place of what stood there.
    pub fn insert(&mut self, name: String, link: LinkConfig)
        ensures
            final(self)@ == with_link(old(self)@, name@, link@),
    {
        let ghost before = self@;
        match self.index_of(name.as_str()) {
            Some(i) => {
                self.entries.set(i, (name, link));
                proof {
                    assert(self@ =~= before.update(i as int, (name@, link@)));
                }
            },
            None => {
                self.entries.push((name, link));
                proof {
                    assert(self@ =~= before.push((name@, link@)));
                }
            },
        }
    }

    /// The link under `name`.
    pub fn get(&self, name: &str) -> (r: Option<&LinkConfig>)
        ensures
            match r {
                Some(link) => link_named(self@, name@) == Some(link@),
                None => link_named(self@, name@) is None,
            },
    {
        match self.index_of(name) {
            Some(i) => Some(&self.entries[i].1),
            None => None,
        }
    }

    /// The name of the link at `i`.
    pub fn name_at(&self, i: usize) -> (name: String)
        requires
            i < self@.len(),
        ensures
            name@ == self@[i as int].0,
    {
        self.entries[i].0.clone()
    }

    /// The link at `i`.
    pub fn link_at(&self, i: usize) -> (link: &LinkConfig)
        requires
            i < self@.len(),
        ensures
            link@ == self@[i as int].1,
    {
        &self.entries[i].1
    }
}

/// How many nodes take part, how they are linked, and how much each may send in a quantum.
#[derive(Debug, Clone, PartialEq, Eq)]
pub struct CoordinatorConfig {
    pub expected_nodes: u32,
    /// By link name (for instance "can0").
    pub links: LinkTable,
    pub max_messages_per_node: usize,
}

#[verifier::ext_equal]
pub struct ConfigView {
    pub expected_nodes: nat,
    pub links: Links,
    pub limit: nat,
}

impl View for CoordinatorConfig {
    type V = ConfigView;

    open spec fn view(&self) -> ConfigView {
        ConfigView {
            expected_nodes: self.expected_nodes as nat,
            links: self.links@,
            limit: self.max_messages_per_node as nat,
        }
    }
}

/// What reaches a coordinator.
#[derive(Debug, Clone, PartialEq, Eq)]
pub enum CoordinatorEvent {
    NodeJoined { node_id: u32 },
    NodeDisconnected { node_id: u32 },
    LinkRegister { node_id: u32, link_name: String },
    QuantumDone { node_id: u32, quantum: u64, vtime_ns: u64 },
    SimulationMessage {
        src_node_id: u32,
        link_id: u32,
        delivery_vtime_ns: u64,
        sequence_number: u64,
        payload: Vec<u8>,
    },
}

#[verifier::ext_equal]
pub enum EventView {
    NodeJoined { node_id: u32 },
    NodeDisconnected { node_id: u32 },
    LinkRegister { node_id: u32, link_name: Seq<char> },
    QuantumDone { node_id: u32, quantum: u64, vtime_ns: u64 },
    SimulationMessage { message: PendingView },
}

impl View for CoordinatorEvent {
    type V = EventView;

    open spec fn view(&self) -> EventView {
        match self {
            CoordinatorEvent::NodeJoined { node_id } => EventView::NodeJoined {
                node_id: *node_id,
            },
            CoordinatorEvent::NodeDisconnected { node_id } => EventView::NodeDisconnected {
                node_id: *node_id,
            },
            CoordinatorEvent::LinkRegister { node_id, link_name } => EventView::LinkRegister {
                node_id: *node_id,
                link_name: link_name@,
            },
            CoordinatorEvent::QuantumDone { node_id, quantum, vtime_ns } => EventView::QuantumDone {
                node_id: *node_id,
                quantum: *quantum,
                vtime_ns: *vtime_ns,
            },
            CoordinatorEvent::SimulationMessage {
                src_node_id,
                link_id,
                delivery_vtime_ns,
                sequence_number,
                payload,
            } => EventView::SimulationMessage {
                message: PendingView {
                    src_node_id: *src_node_id,
                    link_id: *link_id,
                    delivery_vtime_ns: *delivery_vtime_ns,
                    sequence_number: *sequence_number,
                    payload: payload@,
                },
            },
        }
    }
}

/// What a coordinator wants done.
#[derive(Debug, Clone, PartialEq, Eq)]
pub enum CoordinatorAction {
    SendLinkAck { node_id: u32, link_id: u32 },
    BroadcastClockStart { release_quantum: u64 },
    RouteMessage {
        /// Ascending, without the source node.
        target_nodes: Vec<u32>,
        link_id: u32,
        delivery_vtime_ns: u64,
        sequence_number: u64,
        payload: Vec<u8>,
    },
    AbortSimulation { reason: String },
}

#[verifier::ext_equal]
pub enum ActionView {
    SendLinkAck { node_id: u32, link_id: u32 },
    BroadcastClockStart { release_quantum: u64 },
    RouteMessage {
        target_nodes: Seq<u32>,
        link_id: u32,
        delivery_vtime_ns: u64,
        sequence_number: u64,
        payload: Seq<u8>,
    },
    AbortSimulation { reason: Seq<char> },
}

impl View for CoordinatorAction {
    type V = ActionView;

    open spec fn view(&self) -> ActionView {
        match self {
            CoordinatorAction::SendLinkAck { node_id, link_id } => ActionView::SendLinkAck {
                node_id: *node_id,
                link_id: *link_id,
            },
            CoordinatorAction::BroadcastClockStart { release_quantum } =>
                ActionView::BroadcastClockStart { release_quantum: *release_quantum },
            CoordinatorAction::RouteMessage {
                target_nodes,
                link_id,
                delivery_vtime_ns,
                sequence_number,
                payload,
            } => ActionView::RouteMessage {
                target_nodes: target_nodes@,
                link_id: *link_id,
                delivery_vtime_ns: *delivery_vtime_ns,
                sequence_number: *sequence_number,
                payload: payload@,
            },
            CoordinatorAction::AbortSimulation { reason } => ActionView::AbortSimulation {
                reason: reason@,
            },
        }
    }
}

/// A message on a link that waits for its quantum to be released.
#[derive(Debug, PartialEq, Eq)]
pub struct PendingMessage {
    pub src_node_id: u32,
    pub link_id: u32,
    pub delivery_vtime_ns: u64,
    pub sequence_number: u64,
    pub payload: Vec<u8>,
}

#[verifier::ext_equal]
pub struct PendingView {
    pub src_node_id: u32,
    pub link_id: u32,
    pub delivery_vtime_ns: u64,
    pub sequence_number: u64,
    pub payload: Seq<u8>,
}

impl View for PendingMessage {
    type V = PendingView;

    open spec fn view(&self) -> PendingView {
        PendingView {
            src_node_id: self.src_node_id,
            link_id: self.link_id,
            delivery_vtime_ns: self.delivery_vtime_ns,
            sequence_number: self.sequence_number,
            payload: self.payload@,
        }
    }
}

/// The canonical order of delivery: by virtual time, source and sequence number.
impl Ranked for PendingView {
    open spec fn rank_le(self, other: Self) -> bool {
        if self.delivery_vtime_ns != other.delivery_vtime_ns {
            self.delivery_vtime_ns < other.delivery_vtime_ns
        } else if self.src_node_id != other.src_node_id {
            self.src_node_id < other.src_node_id
        } else {
            self.sequence_number <= other.sequence_number
        }
    }

    proof fn rank_total(a: Self, b: Self) {
    }

    proof fn rank_transitive(a: Self, b: Self, c: Self) {
    }
}

impl Sortable for PendingMessage {
    fn not_after(&self, other: &Self) -> (r: bool) {
        if self.delivery_vtime_ns != other.delivery_vtime_ns {
            self.delivery_vtime_ns < other.delivery_vtime_ns
        } else if self.src_node_id != other.src_node_id {
            self.src_node_id < other.src_node_id
        } else {
            self.sequence_number <= other.sequence_number
        }
    }
}

impl Ranked for u32 {
    open spec fn rank_le(self, other: Self) -> bool {
        self <= other
    }

    proof fn rank_total(a: Self, b: Self) {
    }

    proof fn rank_transitive(a: Self, b: Self, c: Self) {
    }
}

impl Sortable for u32 {
    fn not_after(&self, other: &Self) -> (r: bool) {
        *self <= *other
    }
}

/// `nodes` without `node`, in order.
pub open spec fn without(nodes: Seq<u32>, node: u32) -> Seq<u32>
    decreases nodes.len(),
{
    if nodes.len() == 0 {
        Seq::empty()
    } else if nodes.last() == node {
        without(nodes.drop_last(), node)
    } else {
        without(nodes.drop_last(), node).push(nodes.last())
    }
}

/// The nodes on link `link_id` other than `src`, ascending.
pub open spec fn route_targets(links: Links, link_id: u32, src: u32) -> Seq<u32> {
    match id_index(links, link_id, 0) {
        Some(i) => sorting::stable_sort(without(links[i].1.target_nodes, src)),
        None => Seq::empty(),
    }
}

/// What becomes of one released message: it goes to the other nodes on its link, if there are any.
pub open spec fn routed_one(links: Links, m: PendingView) -> Seq<ActionView> {
    let targets = route_targets(links, m.link_id, m.src_node_id);
    if targets.len() == 0 {
        Seq::empty()
    } else {
        seq![
            ActionView::RouteMessage {
                target_nodes: targets,
                link_id: m.link_id,
                delivery_vtime_ns: m.delivery_vtime_ns,
                sequence_number: m.sequence_number,
                payload: m.payload,
            },
        ]
    }
}

/// What becomes of released messages, in their order.
pub open spec fn routed(links: Links, messages: Seq<PendingView>) -> Seq<ActionView>
    decreases messages.len(),
{
    if messages.len() == 0 {
        Seq::empty()
    } else {
        routed(links, messages.drop_last()) + routed_one(links, messages.last())
    }
}

/// `nodes` without `node`, ascending.
pub fn sorted_without(nodes: &Vec<u32>, node: u32) -> (r: Vec<u32>)
    ensures
        r@ == sorting::stable_sort(without(nodes@, node)),
{
    let mut kept: Vec<u32> = Vec::new();
    let mut i: usize = 0;
    while i < nodes.len()
        invariant
            i <= nodes@.len(),
            kept@ == without(nodes@.take(i as int), node),
        decreases nodes@.len() - i,
    {
        if nodes[i] != node {
            kept.push(nodes[i]);
        }
        i += 1;
        proof {
            assert(nodes@.take(i as int).drop_last() =~= nodes@.take(i - 1));
        }
    }
    proof {
        assert(nodes@.take(i as int) =~= nodes@);
        assert(sorting::views(kept@) =~= kept@);
    }
    let r = sort_stable(kept);
    proof {
        assert(sorting::views(r@) =~= r@);
    }
    r
}

fn targets_on(links: &LinkTable, link_id: u32, src: u32) -> (r: Vec<u32>)
    ensures
        r@ == route_targets(links@, link_id, src),
{
    let mut i: usize = 0;
    while i < links.len()
        invariant
            i <= links@.len(),
            id_index(links@, link_id, 0) == id_index(links@, link_id, i as int),
        decreases links@.len() - i,
    {
        let link = links.link_at(i);
        if link.link_id == link_id {
            return sorted_without(&link.target_nodes, src);
        }
        i += 1;
    }
    Vec::new()
}

/// Turns released messages into deliveries.
pub fn route_released(links: &LinkTable, messages: Vec<PendingMessage>) -> (actions: Vec<
    CoordinatorAction,
>)
    ensures
        sorting::views(actions@) == routed(links@, sorting::views(messages@)),
{
    let ghost all = sorting::views(messages@);
    let mut actions: Vec<CoordinatorAction> = Vec::new();
    proof {
        assert(sorting::views(actions@) =~= Seq::empty());
        assert(all.take(0) =~= Seq::empty());
    }
    for m in it: messages
        invariant
            all == sorting::views(it.seq()),
            sorting::views(actions@) == routed(links@, all.take(it.index())),
    {
        let ghost before = sorting::views(actions@);
        let ghost k = it.index();
        proof {
            assert(all.take(k + 1).drop_last() =~= all.take(k));
            assert(all.take(k + 1).last() == m@);
        }
        let target_nodes = targets_on(links, m.link_id, m.src_node_id);
        if target_nodes.len() > 0 {
            actions.push(
                CoordinatorAction::RouteMessage {
                    target_nodes,
                    link_id: m.link_id,
                    delivery_vtime_ns: m.delivery_vtime_ns,
                    sequence_number: m.sequence_number,
                    payload: m.payload,
                },
            );
            proof {
                assert(sorting::views(actions@) =~= before + routed_one(links@, m@));
            }
        } else {
            proof {
                assert(before =~= before + routed_one(links@, m@));
            }
        }
    }
    proof {
        assert(all.take(all.len() as int) =~= all);
    }
    actions
}

/// The messages that are due by `vtime_ns`, in order.
pub open spec fn due(messages: Seq<PendingView>, vtime_ns: u64) -> Seq<PendingView>
    decreases messages.len(),
{
    if messages.len() == 0 {
        Seq::empty()
    } else if messages.last().delivery_vtime_ns <= vtime_ns {
        due(messages.drop_last(), vtime_ns).push(messages.last())
    } else {
        due(messages.drop_last(), vtime_ns)
    }
}

/// The messages that are due after `vtime_ns`, in order.
pub open spec fn not_due(messages: Seq<PendingView>, vtime_ns: u64) -> Seq<PendingView>
    decreases messages.len(),
{
    if messages.len() == 0 {
        Seq::empty()
    } else if messages.last().delivery_vtime_ns <= vtime_ns {
        not_due(messages.drop_last(), vtime_ns)
    } else {
        not_due(messages.drop_last(), vtime_ns).push(messages.last())
    }
}

/// Parts messages into those that are due by `vtime_ns` and the others.
pub fn partition_due(messages: Vec<PendingMessage>, vtime_ns: u64) -> (r: (
    Vec<PendingMessage>,
    Vec<PendingMessage>,
))
    ensures
        sorting::views(r.0@) == due(sorting::views(messages@), vtime_ns),
        sorting::views(r.1@) == not_due(sorting::views(messages@), vtime_ns),
{
    let ghost all = sorting::views(messages@);
    let mut current: Vec<PendingMessage> = Vec::new();
    let mut future: Vec<PendingMessage> = Vec::new();
    proof {
        assert(sorting::views(current@) =~= Seq::empty());
        assert(all.take(0) =~= Seq::empty());
    }
    for m in it: messages
        invariant
            all == sorting::views(it.seq()),
            sorting::views(current@) == due(all.take(it.index()), vtime_ns),
            sorting::views(future@) == not_due(all.take(it.index()), vtime_ns),
    {
        let ghost k = it.index();
        let ghost c0 = sorting::views(current@);
        let ghost f0 = sorting::views(future@);
        proof {
            assert(all.take(k + 1).drop_last() =~= all.take(k));
            assert(all.take(k + 1).last() == m@);
        }
        if m.delivery_vtime_ns <= vtime_ns {
            current.push(m);
            proof {
                assert(sorting::views(current@) =~= c0.push(m@));
            }
        } else {
            future.push(m);
            proof {
                assert(sorting::views(future@) =~= f0.push(m@));
            }
        }
    }
    proof {
        assert(all.take(all.len() as int) =~= all);
    }
    (current, future)
}

/// The pairs of node and link name that have to register before the simulation may start.
pub open spec fn expected_pairs(links: Links) -> Set<(u32, Seq<char>)> {
    Set::new(|p: (u32, Seq<char>)| names_target(links, p.0, p.1, links.len() as int))
}

/// Among the first `n` links, one has the name `name` and `node` among its nodes.
pub open spec fn names_target(links: Links, node: u32, name: Seq<char>, n: int) -> bool {
    exists|i: int, j: int|
        0 <= i < n && 0 <= j < (#[trigger] links[i]).1.target_nodes.len() && links[i].0 == name
            && #[trigger] links[i].1.target_nodes[j] == node
}

/// The pairs in a list, as a set.
pub open spec fn pair_set(pairs: Seq<(u32, String)>) -> Set<(u32, Seq<char>)> {
    Set::new(|p: (u32, Seq<char>)| lists_pair(pairs, p))
}

pub open spec fn lists_pair(pairs: Seq<(u32, String)>, p: (u32, Seq<char>)) -> bool {
    exists|i: int| 0 <= i < pairs.len() && (#[trigger] pairs[i]).0 == p.0 && pairs[i].1@ == p.1
}

/// The pairs of node and link name that have to register.
pub(crate) fn list_expected_pairs(links: &LinkTable) -> (pairs: Vec<(u32, String)>)
    ensures
        pair_set(pairs@) == expected_pairs(links@),
{
    let mut pairs: Vec<(u32, String)> = Vec::new();
    let mut i: usize = 0;
    while i < links.len()
        invariant
            i <= links@.len(),
            forall|p: (u32, Seq<char>)|
                #[trigger] lists_pair(pairs@, p) <==> names_target(links@, p.0, p.1, i as int),
        decreases links@.len() - i,
    {
        let link = links.link_at(i);
        let ghost before = pairs@;
        let mut j: usize = 0;
        while j < link.target_nodes.len()
            invariant
                i < links@.len(),
                link@ == links@[i as int].1,
                j <= link.target_nodes@.len(),
                forall|p: (u32, Seq<char>)| #[trigger]
                    lists_pair(before, p) <==> names_target(links@, p.0, p.1, i as int),
                forall|p: (u32, Seq<char>)| #[trigger]
                    lists_pair(pairs@, p) <==> lists_pair(before, p) || (p.1 == links@[i as int].0
                        && exists|k: int|
                        0 <= k < j && #[trigger] links@[i as int].1.target_nodes[k] == p.0),
            decreases link.target_nodes@.len() - j,
        {
            let ghost inner = pairs@;
            let node: u32 = link.target_nodes[j];
            pairs.push((node, links.name_at(i)));
            proof {
                assert forall|p: (u32, Seq<char>)| #[trigger] lists_pair(pairs@, p) <==> lists_pair(
                    inner,
                    p,
                ) || (p.0 == node && p.1 == links@[i as int].0) by {
                    if lists_pair(inner, p) {
                        let k = choose|k: int|
                            0 <= k < inner.len() && (#[trigger] inner[k]).0 == p.0 && inner[k].1@
                                == p.1;
                        assert(pairs@[k] == inner[k]);
                    }
                    if p.0 == node && p.1 == links@[i as int].0 {
                        assert(pairs@[inner.len() as int].0 == p.0);
                    }
                    if lists_pair(pairs@, p) {
                        let k = choose|k: int|
                            0 <= k < pairs@.len() && (#[trigger] pairs@[k]).0 == p.0 && pairs@[k].1@
                                == p.1;
                        if k < inner.len() {
                            assert(inner[k] == pairs@[k]);
                        }
                    }
                }
                assert(links@[i as int].1.target_nodes[j as int] == node);
            }
            j += 1;
        }
        i += 1;
        proof {
            assert forall|p: (u32, Seq<char>)| #[trigger] lists_pair(pairs@, p) <==> names_target(
                links@,
                p.0,
                p.1,
                i as int,
            ) by {
                if names_target(links@, p.0, p.1, i as int) {
                    let (a, b) = choose|a: int, b: int|
                        0 <= a < i && 0 <= b < (#[trigger] links@[a]).1.target_nodes.len()
                            && links@[a].0 == p.1 && #[trigger] links@[a].1.target_nodes[b] == p.0;
                    if a < i - 1 {
                        assert(names_target(links@, p.0, p.1, i - 1));
                        assert(lists_pair(before, p));
                    }
                }
                if lists_pair(before, p) {
                    assert(names_target(links@, p.0, p.1, i - 1));
                    let (a, b) = choose|a: int, b: int|
                        0 <= a < i - 1 && 0 <= b < (#[trigger] links@[a]).1.target_nodes.len()
                            && links@[a].0 == p.1 && #[trigger] links@[a].1.target_nodes[b] == p.0;
                    assert(links@[a].1.target_nodes[b] == p.0);
                }
            }
        }
    }
    proof {
        assert(pair_set(pairs@) =~= expected_pairs(links@));
    }
    pairs
}

/// Takes every occurrence of a pair out of a list.
pub(crate) fn remove_pair(pairs: Vec<(u32, String)>, node: u32, name: &str) -> (kept: Vec<
    (u32, String),
>)
    ensures
        pair_set(kept@) == pair_set(pairs@).remove((node, name@)),
{
    let ghost whole = pairs@;
    let mut kept: Vec<(u32, String)> = Vec::new();
    let wanted = chars_of(name);
    for pair in it: pairs
        invariant
            whole == it.seq(),
            wanted@ == name@,
            forall|p: (u32, Seq<char>)| #[trigger]
                lists_pair(kept@, p) <==> lists_pair(whole.take(it.index()), p) && p != (
                    node,
                    name@,
                ),
    {
        let ghost k = it.index();
        let ghost before = kept@;
        let ghost seen = whole.take(k);
        let ghost now = whole.take(k + 1);
        let have = chars_of(pair.1.as_str());
        let drop_it: bool = pair.0 == node && same_chars(have.as_slice(), wanted.as_slice());
        if !drop_it {
            kept.push(pair);
        }
        proof {
            assert(now =~= seen.push(pair));
            lemma_lists_pair_push(seen, pair);
            lemma_lists_pair_push(before, pair);
            assert(!drop_it ==> kept@ =~= before.push(pair));
        }
    }
    proof {
        assert(whole.take(whole.len() as int) =~= whole);
        assert(pair_set(kept@) =~= pair_set(whole).remove((node, name@)));
    }
    kept
}

pub(crate) proof fn lemma_lists_pair_push(pairs: Seq<(u32, String)>, pair: (u32, String))
    ensures
        forall|p: (u32, Seq<char>)| #[trigger]
            lists_pair(pairs.push(pair), p) <==> lists_pair(pairs, p) || p == (pair.0, pair.1@),
{
    let longer = pairs.push(pair);
    assert forall|p: (u32, Seq<char>)| #[trigger] lists_pair(longer, p) <==> lists_pair(pairs, p)
        || p == (pair.0, pair.1@) by {
        if lists_pair(pairs, p) {
            let k = choose|k: int|
                0 <= k < pairs.len() && (#[trigger] pairs[k]).0 == p.0 && pairs[k].1@ == p.1;
            assert(longer[k] == pairs[k]);
        }
        if p == (pair.0, pair.1@) {
            assert(longer[pairs.len() as int] == pair);
        }
        if lists_pair(longer, p) {
            let k = choose|k: int|
                0 <= k < longer.len() && (#[trigger] longer[k]).0 == p.0 && longer[k].1@ == p.1;
            if k < pairs.len() {
                assert(pairs[k] == longer[k]);
            }
        }
    }
}

pub(crate) proof fn lemma_pair_set_empty(pairs: Seq<(u32, String)>)
    ensures
        pair_set(pairs) == Set::<(u32, Seq<char>)>::empty() <==> pairs.len() == 0,
{
    if pairs.len() == 0 {
        assert(pair_set(pairs) =~= Set::<(u32, Seq<char>)>::empty());
    } else {
        let p = (pairs[0].0, pairs[0].1@);
        assert(lists_pair(pairs, p));
        assert(pair_set(pairs).contains(p));
    }
}

#[verifier::ext_equal]
pub struct LookaheadView {
    pub limit: nat,
    pub current: u64,
    pub done: Seq<bool>,
    pub buffer: Seq<PendingView>,
    pub next_done: Seq<bool>,
    pub next_buffer: Seq<PendingView>,
}


/// The barrier of quantum 0.
pub open spec fn first_barrier(n_nodes: nat, limit: nat) -> LookaheadView {
    LookaheadView {
        limit,
        current: 0,
        done: barrier::none_set(n_nodes),
        buffer: Seq::empty(),
        next_done: barrier::none_set(n_nodes),
        next_buffer: Seq::empty(),
    }
}


/// The barrier of the quantum after the current one, with what nodes have handed in ahead.
pub open spec fn promoted(b: LookaheadView) -> LookaheadView {
    LookaheadView {
        limit: b.limit,
        current: (b.current + 1) as u64,
        done: b.next_done,
        buffer: b.next_buffer,
        next_done: barrier::none_set(b.done.len()),
        next_buffer: Seq::empty(),
    }
}


/// Whether every flag is set.
pub(crate) fn all_flags_set(flags: &Vec<bool>) -> (r: bool)
    ensures
        r == barrier::all_set(flags@),
{
    let mut i: usize = 0;
    while i < flags.len()
        invariant
            i <= flags@.len(),
            forall|k: int| 0 <= k < i ==> #[trigger] flags@[k],
        decreases flags@.len() - i,
    {
        if !flags[i] {
            return false;
        }
        i += 1;
    }
    true
}


#[verifier::ext_equal]
pub enum PhaseView {
    AwaitingNodes { joined: Set<u32>, buffered: Seq<(u32, Seq<char>)> },
    AwaitingLinks { remaining: Set<(u32, Seq<char>)> },
    Simulation { barrier: LookaheadView, batches: Map<u32, Seq<PendingView>> },
}


/// Registrations as they came.
pub open spec fn reg_views(regs: Seq<(u32, String)>) -> Seq<(u32, Seq<char>)> {
    Seq::new(regs.len(), |i: int| (regs[i].0, regs[i].1@))
}

/// The batches by node.
pub open spec fn batch_views(batches: Map<u32, Vec<PendingMessage>>) -> Map<u32, Seq<PendingView>> {
    Map::new(|k: u32| batches.contains_key(k), |k: u32| sorting::views(batches[k]@))
}


/// What an event comes to: the phase after it, and what is to be done.
#[verifier::ext_equal]
pub struct Outcome {
    pub phase: PhaseView,
    pub actions: Seq<ActionView>,
}

pub open spec fn abort(phase: PhaseView, reason: Seq<char>) -> Outcome {
    Outcome { phase, actions: seq![ActionView::AbortSimulation { reason }] }
}


/// There is a quantum after the current one.
pub open spec fn has_next_quantum(phase: PhaseView) -> bool {
    match phase {
        PhaseView::Simulation { barrier, .. } => barrier.current < u64::MAX,
        _ => true,
    }
}

pub(crate) fn abort_with(reason: String) -> (actions: Vec<CoordinatorAction>)
    ensures
        sorting::views(actions@) == seq![ActionView::AbortSimulation { reason: reason@ }],
{
    let mut actions: Vec<CoordinatorAction> = Vec::new();
    actions.push(CoordinatorAction::AbortSimulation { reason });
    proof {
        assert(sorting::views(actions@) =~= seq![ActionView::AbortSimulation { reason: reason@ }]);
    }
    actions
}

pub(crate) fn no_actions() -> (actions: Vec<CoordinatorAction>)
    ensures
        sorting::views(actions@) == Seq::<ActionView>::empty(),
{
    let actions: Vec<CoordinatorAction> = Vec::new();
    proof {
        assert(sorting::views(actions@) =~= Seq::<ActionView>::empty());
    }
    actions
}

} // verus!
