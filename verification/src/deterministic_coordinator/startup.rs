//! Before the first quantum: nodes join and links register; and how quanta are started.
use vstd::prelude::*;

use crate::coordination;
use crate::coordination::remove_pair;
use crate::deterministic_coordinator::graph::contains_id;
use crate::deterministic_coordinator::topics::templates::{
    can_tx, chardev_tx, clock_start, eth_tx, lin_tx, reference_bus_tx, rf_hci_tx, rf_ieee802154_tx,
    sim_uart_tx, spi_tx, systemc_frame_tx, uart_tx,
};
use crate::sorting;
use crate::sorting::sort_stable;
use crate::text;
use crate::text::{
    decimal_text, ends_with_text, owned, push_decimal, push_text, same_text, split_text,
    starts_with_text, string_of,
};
use crate::wire;
use crate::wire::push_le;

verus! {

/// What a topic over a socket is about.
#[derive(Debug, Clone, Copy, PartialEq, Eq, Structural)]
pub enum TopicKind {
    Link,
    Transmission,
    Done,
    Other,
}

/// What a topic over a socket is about.
pub open spec fn topic_kind(topic: Seq<char>) -> TopicKind {
    if crate::deterministic_coordinator::session::is_link_topic(topic) {
        TopicKind::Link
    } else if text::has_suffix(topic, "/tx"@) {
        TopicKind::Transmission
    } else if text::has_prefix(topic, "sim/coord/done/"@) {
        TopicKind::Done
    } else {
        TopicKind::Other
    }
}

/// What a topic over a socket is about.
pub fn classify_topic(topic: &str) -> (kind: TopicKind)
    ensures
        kind == topic_kind(topic@),
{
    let parts = split_text(topic, '/');
    if starts_with_text(topic, "sim/ch/") && parts.len() == 3 {
        TopicKind::Link
    } else if ends_with_text(topic, "/tx") {
        TopicKind::Transmission
    } else if starts_with_text(topic, "sim/coord/done/") {
        TopicKind::Done
    } else {
        TopicKind::Other
    }
}

/// The first node from `i` on that has not joined.
pub open spec fn first_missing(n_nodes: nat, joined: Seq<u32>, i: nat) -> Option<nat>
    decreases n_nodes - i,
{
    if i >= n_nodes {
        None
    } else if exists|k: int| 0 <= k < joined.len() && #[trigger] joined[k] == i {
        first_missing(n_nodes, joined, i + 1)
    } else {
        Some(i)
    }
}

/// The first of the nodes below `n_nodes` that has not joined.
pub fn missing_node(n_nodes: u32, joined: &Vec<u32>) -> (r: Option<u32>)
    ensures
        match r {
            Some(i) => first_missing(n_nodes as nat, joined@, 0) == Some(i as nat),
            None => first_missing(n_nodes as nat, joined@, 0) is None,
        },
{
    let mut i: u32 = 0;
    while i < n_nodes
        invariant
            i <= n_nodes,
            first_missing(n_nodes as nat, joined@, 0) == first_missing(
                n_nodes as nat,
                joined@,
                i as nat,
            ),
        decreases n_nodes - i,
    {
        if !contains_id(joined, i) {
            return Some(i);
        }
        i += 1;
    }
    None
}

/// The word on a node that did not join in time.
pub fn join_failure(federation: &str, node_id: u32, timeout_ms: u64) -> (s: String)
    ensures
        s@ == "Federation "@ + federation@ + ": node '"@ + text::decimal(node_id as nat)
            + "' did not join within "@ + text::decimal(timeout_ms as nat) + "ms"@,
{
    let mut out: Vec<char> = Vec::new();
    push_text(&mut out, "Federation ");
    push_text(&mut out, federation);
    push_text(&mut out, ": node '");
    push_decimal(&mut out, node_id as u64);
    push_text(&mut out, "' did not join within ");
    push_decimal(&mut out, timeout_ms);
    push_text(&mut out, "ms");
    proof {
        assert(out@ =~= "Federation "@ + federation@ + ": node '"@ + text::decimal(node_id as nat)
            + "' did not join within "@ + text::decimal(timeout_ms as nat) + "ms"@);
    }
    string_of(out)
}

/// The topics on which a node may send.
pub fn tx_topics(node: &str) -> (topics: Vec<String>)
    ensures
        sorting::views(topics@) == seq![
            "sim/eth/frame/"@ + node@ + "/tx"@,
            "virtmcu/uart/"@ + node@ + "/tx"@,
            "sim/can/"@ + node@ + "/tx"@,
            "sim/lin/"@ + node@ + "/tx"@,
            "sim/rf/hci/"@ + node@ + "/tx"@,
            "sim/rf/ieee802154/"@ + node@ + "/tx"@,
            "sim/chardev/"@ + node@ + "/tx"@,
            "sim/reference_bus/"@ + node@ + "/tx"@,
            "sim/systemc/frame/"@ + node@ + "/tx"@,
            "sim/uart/"@ + node@ + "/tx"@,
            "sim/spi/default/"@ + node@ + "/tx"@,
        ],
{
    let mut topics: Vec<String> = Vec::new();
    topics.push(eth_tx(node));
    topics.push(uart_tx(node));
    topics.push(can_tx(node));
    topics.push(lin_tx(node));
    topics.push(rf_hci_tx(node));
    topics.push(rf_ieee802154_tx(node));
    topics.push(chardev_tx(node));
    topics.push(reference_bus_tx(node));
    topics.push(systemc_frame_tx(node));
    topics.push(sim_uart_tx(node));
    topics.push(spi_tx(node));
    proof {
        assert(sorting::views(topics@) =~= seq![
            "sim/eth/frame/"@ + node@ + "/tx"@,
            "virtmcu/uart/"@ + node@ + "/tx"@,
            "sim/can/"@ + node@ + "/tx"@,
            "sim/lin/"@ + node@ + "/tx"@,
            "sim/rf/hci/"@ + node@ + "/tx"@,
            "sim/rf/ieee802154/"@ + node@ + "/tx"@,
            "sim/chardev/"@ + node@ + "/tx"@,
            "sim/reference_bus/"@ + node@ + "/tx"@,
            "sim/systemc/frame/"@ + node@ + "/tx"@,
            "sim/uart/"@ + node@ + "/tx"@,
            "sim/spi/default/"@ + node@ + "/tx"@,
        ]);
    }
    topics
}

/// The order in which nodes are told to start: ascending.
pub fn broadcast_order(nodes: Vec<u32>) -> (r: Vec<u32>)
    ensures
        r@ == sorting::stable_sort(nodes@),
{
    proof {
        assert(sorting::views(nodes@) =~= nodes@);
    }
    let r = sort_stable(nodes);
    proof {
        assert(sorting::views(r@) =~= r@);
    }
    r
}

/// What a node is told to start a quantum: on its start topic, the number of the quantum.
#[derive(Debug, Clone, PartialEq, Eq)]
pub struct StartMessage {
    pub topic: String,
    pub payload: Vec<u8>,
}

#[verifier::ext_equal]
pub struct StartMessageView {
    pub topic: Seq<char>,
    pub payload: Seq<u8>,
}

impl View for StartMessage {
    type V = StartMessageView;

    open spec fn view(&self) -> StartMessageView {
        StartMessageView { topic: self.topic@, payload: self.payload@ }
    }
}

/// What the first `n_nodes` nodes are told to start `quantum`.
pub open spec fn start_views(n_nodes: nat, quantum: u64) -> Seq<StartMessageView> {
    Seq::new(
        n_nodes,
        |i: int|
            StartMessageView {
                topic: "sim/clock/start/"@ + text::decimal(i as nat),
                payload: wire::le_bytes(quantum as nat, 8),
            },
    )
}

/// What the first `n_nodes` nodes are told to start `quantum`.
pub fn start_messages(n_nodes: usize, quantum: u64) -> (r: Vec<StartMessage>)
    ensures
        sorting::views(r@) == start_views(n_nodes as nat, quantum),
{
    let mut r: Vec<StartMessage> = Vec::new();
    let mut i: usize = 0;
    while i < n_nodes
        invariant
            i <= n_nodes,
            r@.len() == i,
            forall|k: int|
                0 <= k < i ==> (#[trigger] r@[k])@ == start_views(n_nodes as nat, quantum)[k],
        decreases n_nodes - i,
    {
        let node = decimal_text(i as u64);
        let topic = clock_start(node.as_str());
        let mut payload: Vec<u8> = Vec::new();
        push_le(&mut payload, quantum, 8);
        proof {
            assert(payload@ =~= wire::le_bytes(quantum as nat, 8));
        }
        r.push(StartMessage { topic, payload });
        i += 1;
    }
    proof {
        assert(sorting::views(r@) =~= start_views(n_nodes as nat, quantum));
    }
    r
}

/// A link with its name.
#[derive(Debug, Clone, PartialEq, Eq)]
pub struct NamedLink {
    pub name: String,
    pub nodes: Vec<u32>,
}

#[verifier::ext_equal]
pub struct NamedLinkView {
    pub name: Seq<char>,
    pub nodes: Seq<u32>,
}

impl View for NamedLink {
    type V = NamedLinkView;

    open spec fn view(&self) -> NamedLinkView {
        NamedLinkView { name: self.name@, nodes: self.nodes@ }
    }
}

/// The pairs of node and link name that the first `n` links ask for.
pub open spec fn pairs_of(links: Seq<NamedLinkView>, n: int) -> Set<(u32, Seq<char>)> {
    Set::new(|p: (u32, Seq<char>)| asks_for(links, n, p))
}

/// One of the first `n` links has that name and that node.
pub open spec fn asks_for(links: Seq<NamedLinkView>, n: int, p: (u32, Seq<char>)) -> bool {
    exists|i: int|
        0 <= i < n && (#[trigger] links[i]).name == p.1 && links[i].nodes.contains(p.0)
}

/// The number of the last of the first `n` links that has that name.
pub open spec fn number_of(links: Seq<NamedLinkView>, name: Seq<char>, n: int) -> Option<int>
    decreases n,
{
    if n <= 0 || n > links.len() {
        None
    } else if links[n - 1].name == name {
        Some(n - 1)
    } else {
        number_of(links, name, n - 1)
    }
}

/// The registrations that are still to come.
pub struct Preflight {
    links: Vec<NamedLink>,
    remaining: Vec<(u32, String)>,
}

#[verifier::ext_equal]
pub struct PreflightView {
    pub links: Seq<NamedLinkView>,
    pub remaining: Set<(u32, Seq<char>)>,
}

impl View for Preflight {
    type V = PreflightView;

    closed spec fn view(&self) -> PreflightView {
        PreflightView {
            links: sorting::views(self.links@),
            remaining: coordination::pair_set(self.remaining@),
        }
    }
}

fn push_pairs(pairs: &mut Vec<(u32, String)>, link: &NamedLink)
    ensures
        forall|p: (u32, Seq<char>)|
            #[trigger] coordination::lists_pair(final(pairs)@, p) <==> coordination::lists_pair(
                old(pairs)@,
                p,
            ) || (p.1 == link.name@ && link.nodes@.contains(p.0)),
{
    let ghost before = pairs@;
    let mut j: usize = 0;
    while j < link.nodes.len()
        invariant
            j <= link.nodes@.len(),
            before == old(pairs)@,
            forall|p: (u32, Seq<char>)|
                #[trigger] coordination::lists_pair(pairs@, p) <==> coordination::lists_pair(
                    before,
                    p,
                ) || (p.1 == link.name@ && link.nodes@.take(j as int).contains(p.0)),
        decreases link.nodes@.len() - j,
    {
        let ghost inner = pairs@;
        let ghost seen = link.nodes@.take(j as int);
        let node: u32 = link.nodes[j];
        let pair = (node, owned(link.name.as_str()));
        let ghost pair_ghost = pair;
        pairs.push(pair);
        j += 1;
        proof {
            let now = link.nodes@.take(j as int);
            assert(now =~= seen.push(node));
            assert forall|p: (u32, Seq<char>)|
                #[trigger] coordination::lists_pair(pairs@, p) <==> coordination::lists_pair(
                    before,
                    p,
                ) || (p.1 == link.name@ && now.contains(p.0)) by {
                coordination::lemma_lists_pair_push(inner, pair_ghost);
                assert(coordination::lists_pair(inner.push(pair_ghost), p)
                    <==> coordination::lists_pair(inner, p) || p == (node, link.name@));
                assert(coordination::lists_pair(inner, p) <==> coordination::lists_pair(before, p)
                    || (p.1 == link.name@ && seen.contains(p.0)));
                if seen.contains(p.0) {
                    let k = choose|k: int| 0 <= k < seen.len() && seen[k] == p.0;
                    assert(now[k] == p.0);
                }
                if p.0 == node {
                    assert(now[j - 1] == node);
                }
                if now.contains(p.0) && p.0 != node {
                    let k = choose|k: int| 0 <= k < now.len() && now[k] == p.0;
                    assert(seen[k] == p.0);
                }
            }
        }
    }
    proof {
        assert(link.nodes@.take(j as int) =~= link.nodes@);
    }
}

/// A pair that a preflight check still waits for, in words.
pub open spec fn missing_text(p: (u32, Seq<char>)) -> Seq<char> {
    "(node "@ + text::decimal(p.0 as nat) + ", link '"@ + p.1 + "')"@
}

/// `t` tells of one of the pairs.
pub open spec fn names_one_of(remaining: Set<(u32, Seq<char>)>, t: Seq<char>) -> bool {
    exists|p: (u32, Seq<char>)| #[trigger] remaining.contains(p) && t == missing_text(p)
}

/// One of the texts tells of `p`.
pub open spec fn is_named(texts: Seq<Seq<char>>, p: (u32, Seq<char>)) -> bool {
    exists|k: int| 0 <= k < texts.len() && #[trigger] texts[k] == missing_text(p)
}

impl Preflight {
    /// Every node of every link is still to register it.
    pub fn new(links: Vec<NamedLink>) -> (p: Self)
        ensures
            p@ == (PreflightView {
                links: sorting::views(links@),
                remaining: pairs_of(sorting::views(links@), links@.len() as int),
            }),
    {
        let ghost all = sorting::views(links@);
        let mut remaining: Vec<(u32, String)> = Vec::new();
        let mut i: usize = 0;
        while i < links.len()
            invariant
                i <= links@.len(),
                all == sorting::views(links@),
                forall|p: (u32, Seq<char>)|
                    #[trigger] coordination::lists_pair(remaining@, p) <==> asks_for(
                        all,
                        i as int,
                        p,
                    ),
            decreases links@.len() - i,
        {
            let ghost before = remaining@;
            proof {
                assert(all[i as int] == links@[i as int]@);
            }
            push_pairs(&mut remaining, &links[i]);
            i += 1;
            proof {
                assert forall|p: (u32, Seq<char>)|
                    #[trigger] coordination::lists_pair(remaining@, p) <==> asks_for(
                        all,
                        i as int,
                        p,
                    ) by {
                    assert(coordination::lists_pair(before, p) <==> asks_for(all, i - 1, p));
                    if asks_for(all, i - 1, p) {
                        let k = choose|k: int|
                            0 <= k < i - 1 && (#[trigger] all[k]).name == p.1
                                && all[k].nodes.contains(p.0);
                        assert(all[k].name == p.1);
                    }
                }
            }
        }
        proof {
            assert(coordination::pair_set(remaining@) =~= pairs_of(all, links@.len() as int));
        }
        Preflight { links, remaining }
    }

    /// Whether every registration has come.
    pub fn is_complete(&self) -> (r: bool)
        ensures
            r == (self@.remaining == Set::<(u32, Seq<char>)>::empty()),
    {
        proof {
            coordination::lemma_pair_set_empty(self.remaining@);
        }
        self.remaining.len() == 0
    }

    /// Takes a registration; one that was waited for is acknowledged with the number of the link.
    pub fn register(&mut self, node_id: u32, link_name: &str) -> (ack: Option<u32>)
        requires
            old(self)@.links.len() <= u32::MAX,
        ensures
            final(self)@.links == old(self)@.links,
            final(self)@.remaining == old(self)@.remaining.remove((node_id, link_name@)),
            if old(self)@.remaining.contains((node_id, link_name@)) {
                match ack {
                    Some(n) => number_of(
                        old(self)@.links,
                        link_name@,
                        old(self)@.links.len() as int,
                    ) == Some(n as int),
                    None => number_of(
                        old(self)@.links,
                        link_name@,
                        old(self)@.links.len() as int,
                    ) is None,
                }
            } else {
                ack is None
            },
    {
        let ghost before = self@;
        let mut waited_for: bool = false;
        let mut i: usize = 0;
        while i < self.remaining.len()
            invariant
                i <= self.remaining@.len(),
                self@ == before,
                before == old(self)@,
                waited_for ==> coordination::lists_pair(self.remaining@, (node_id, link_name@)),
                !waited_for ==> forall|k: int|
                    0 <= k < i ==> !((#[trigger] self.remaining@[k]).0 == node_id
                        && self.remaining@[k].1@ == link_name@),
            decreases self.remaining@.len() - i,
        {
            if self.remaining[i].0 == node_id && same_text(self.remaining[i].1.as_str(), link_name) {
                waited_for = true;
                proof {
                    assert(self.remaining@[i as int].0 == node_id);
                }
            }
            i += 1;
        }
        let mut pairs: Vec<(u32, String)> = Vec::new();
        std::mem::swap(&mut pairs, &mut self.remaining);
        self.remaining = remove_pair(pairs, node_id, link_name);
        if !waited_for {
            return None;
        }
        let mut n: usize = self.links.len();
        while n > 0
            invariant
                n <= self.links@.len() <= u32::MAX,
                self@.links == before.links,
                before == old(self)@,
                before.remaining.contains((node_id, link_name@)),
                self@.remaining == before.remaining.remove((node_id, link_name@)),
                number_of(before.links, link_name@, before.links.len() as int) == number_of(
                    before.links,
                    link_name@,
                    n as int,
                ),
            decreases n,
        {
            proof {
                assert(before.links[n - 1] == self.links@[n - 1]@);
            }
            if same_text(self.links[n - 1].name.as_str(), link_name) {
                return Some((n - 1) as u32);
            }
            n -= 1;
        }
        None
    }

    /// The registrations that are still to come, in words.
    pub fn missing(&self) -> (r: Vec<String>)
        ensures
            forall|k: int| 0 <= k < r@.len() ==> names_one_of(self@.remaining, #[trigger] r@[k]@),
            forall|p: (u32, Seq<char>)| #[trigger]
                self@.remaining.contains(p) ==> is_named(sorting::views(r@), p),
    {
        let mut r: Vec<String> = Vec::new();
        let mut i: usize = 0;
        while i < self.remaining.len()
            invariant
                i <= self.remaining@.len(),
                r@.len() == i,
                forall|k: int|
                    0 <= k < i ==> (#[trigger] r@[k])@ == missing_text(
                        (self.remaining@[k].0, self.remaining@[k].1@),
                    ),
            decreases self.remaining@.len() - i,
        {
            let mut out: Vec<char> = Vec::new();
            push_text(&mut out, "(node ");
            push_decimal(&mut out, self.remaining[i].0 as u64);
            push_text(&mut out, ", link '");
            push_text(&mut out, self.remaining[i].1.as_str());
            push_text(&mut out, "')");
            proof {
                assert(out@ =~= missing_text(
                    (self.remaining@[i as int].0, self.remaining@[i as int].1@),
                ));
            }
            r.push(string_of(out));
            i += 1;
        }
        proof {
            assert forall|k: int| 0 <= k < r@.len() implies names_one_of(
                self@.remaining,
                #[trigger] r@[k]@,
            ) by {
                let p = (self.remaining@[k].0, self.remaining@[k].1@);
                assert(coordination::lists_pair(self.remaining@, p));
                assert(self@.remaining.contains(p));
                assert(r@[k]@ == missing_text(p));
            }
            assert forall|p: (u32, Seq<char>)| #[trigger] self@.remaining.contains(p) implies is_named(
                sorting::views(r@),
                p,
            ) by {
                assert(coordination::lists_pair(self.remaining@, p));
                let k = choose|k: int|
                    0 <= k < self.remaining@.len() && (#[trigger] self.remaining@[k]).0 == p.0
                        && self.remaining@[k].1@ == p.1;
                assert(r@[k]@ == missing_text(p));
                assert(sorting::views(r@)[k] == missing_text(p));
            }
        }
        r
    }
}

} // verus!
