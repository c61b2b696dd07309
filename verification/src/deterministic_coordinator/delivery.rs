//! Where a message goes, and on which topics.
use vstd::prelude::*;

use crate::deterministic_coordinator::envelope::{Envelope, EnvelopeView};
use crate::deterministic_coordinator::topics::templates::coord_rx;
use crate::deterministic_coordinator::topology;
use crate::deterministic_coordinator::topology::{Protocol, Routes, RoutingMap};
use crate::sorting;
use crate::text;
use crate::text::{chars_of, decimal_text, joined3, parse_unsigned, push_text, same_text, string_of};

verus! {

/// The number of the node that stands for all nodes.
pub const BROADCAST: u32 = u32::MAX;

/// One target of a message, and the topics on which it gets it.
#[derive(Debug, Clone, PartialEq, Eq)]
pub struct Delivery {
    pub target: u32,
    pub rx_topic: String,
    pub legacy_rx_topic: String,
}

#[verifier::ext_equal]
pub struct DeliveryView {
    pub target: u32,
    pub rx_topic: Seq<char>,
    pub legacy_rx_topic: Seq<char>,
}

impl View for Delivery {
    type V = DeliveryView;

    open spec fn view(&self) -> DeliveryView {
        DeliveryView {
            target: self.target,
            rx_topic: self.rx_topic@,
            legacy_rx_topic: self.legacy_rx_topic@,
        }
    }
}

/// The node that a source or target of a route stands for: its number in decimal.
pub open spec fn node_text(node: u32) -> Seq<char> {
    text::decimal(node as nat)
}

/// Whether a node may send at all.
pub open spec fn may_send(routes: Routes, node: u32) -> bool {
    topology::targets_of(routes, node_text(node)) is Some
}

/// Whether a node may send at all.
pub fn is_registered(routes: &RoutingMap, node: u32) -> (r: bool)
    ensures
        r == may_send(routes@, node),
{
    let source = decimal_text(node as u64);
    routes.get_targets(source.as_str()).is_some()
}

/// The numbers that the targets from index `i` on write, behind `found`.
pub open spec fn target_numbers(targets: Seq<Seq<char>>, i: int, found: Seq<u32>) -> Seq<u32>
    decreases targets.len() - i,
{
    if i < 0 || i >= targets.len() {
        found
    } else {
        target_numbers(
            targets,
            i + 1,
            match text::parsed_unsigned(targets[i], u32::MAX as nat) {
                Some(n) => found.push(n as u32),
                None => found,
            },
        )
    }
}

/// The nodes on a link from index `i` on other than `src`, behind `found`.
pub open spec fn others_on_link(nodes: Seq<u32>, src: u32, i: int, found: Seq<u32>) -> Seq<u32>
    decreases nodes.len() - i,
{
    if i < 0 || i >= nodes.len() {
        found
    } else {
        others_on_link(
            nodes,
            src,
            i + 1,
            if nodes[i] != src {
                found.push(nodes[i])
            } else {
                found
            },
        )
    }
}

/// The targets of a message; `None` if its source is not registered or may not send there. `links`
/// are the nodes on each link, by the number of the link.
pub open spec fn message_targets(
    routes: Routes,
    links: Option<Seq<Seq<u32>>>,
    e: EnvelopeView,
) -> Option<Seq<u32>> {
    match topology::targets_of(routes, node_text(e.message.src_node_id)) {
        None => None,
        Some(allowed) => match e.link_id {
            Some(link) => Some(
                match links {
                    Some(nodes) => if link < nodes.len() {
                        others_on_link(
                            nodes[link as int],
                            e.message.src_node_id,
                            0,
                            Seq::empty(),
                        )
                    } else {
                        Seq::empty()
                    },
                    None => Seq::empty(),
                },
            ),
            None => if e.message.dst_node_id == BROADCAST {
                Some(target_numbers(allowed, 0, Seq::empty()))
            } else if allowed.contains(node_text(e.message.dst_node_id)) {
                Some(seq![e.message.dst_node_id])
            } else {
                None
            },
        },
    }
}

/// The topic on which a target gets a message.
pub open spec fn rx_topic_of(e: EnvelopeView, target: u32) -> Seq<char> {
    match e.link_id {
        Some(link) => "sim/ch/"@ + text::decimal(link as nat) + "/rx"@,
        None => "sim/coord/"@ + node_text(target) + "/rx"@,
    }
}

/// The topic of the protocol's own on which a target gets a message.
pub open spec fn protocol_rx_topic(protocol: Protocol, target: u32) -> Seq<char> {
    let base = match protocol {
        Protocol::Ethernet => "sim/eth/frame/"@,
        Protocol::Uart => "virtmcu/uart/"@,
        Protocol::CanFd => "sim/can/"@,
        Protocol::Lin => "sim/lin/"@,
        Protocol::Spi => "sim/spi/default/"@,
        Protocol::Rf802154 => "sim/rf/ieee802154/"@,
        Protocol::RfHci => "sim/rf/hci/"@,
        Protocol::ReferenceLink => "sim/chardev/"@,
        Protocol::Control => "sim/unknown/"@,
        Protocol::FlexRay => "sim/unknown/"@,
    };
    base + node_text(target) + "/rx"@
}

/// The second topic on which a target gets a message.
pub open spec fn legacy_topic_of(e: EnvelopeView, target: u32) -> Seq<char> {
    match e.link_id {
        Some(_) => rx_topic_of(e, target),
        None => match e.base_topic {
            Some(base) => base + "/"@ + node_text(target) + "/rx"@,
            None => protocol_rx_topic(e.message.protocol, target),
        },
    }
}

/// The deliveries of a message to `targets`.
pub open spec fn deliveries_to(e: EnvelopeView, targets: Seq<u32>) -> Seq<DeliveryView> {
    Seq::new(
        targets.len(),
        |i: int|
            DeliveryView {
                target: targets[i],
                rx_topic: rx_topic_of(e, targets[i]),
                legacy_rx_topic: legacy_topic_of(e, targets[i]),
            },
    )
}

fn protocol_rx(protocol: Protocol, target: u32) -> (topic: String)
    ensures
        topic@ == protocol_rx_topic(protocol, target),
{
    let base = match protocol {
        Protocol::Ethernet => "sim/eth/frame/",
        Protocol::Uart => "virtmcu/uart/",
        Protocol::CanFd => "sim/can/",
        Protocol::Lin => "sim/lin/",
        Protocol::Spi => "sim/spi/default/",
        Protocol::Rf802154 => "sim/rf/ieee802154/",
        Protocol::RfHci => "sim/rf/hci/",
        Protocol::ReferenceLink => "sim/chardev/",
        Protocol::Control => "sim/unknown/",
        Protocol::FlexRay => "sim/unknown/",
    };
    let node = decimal_text(target as u64);
    joined3(base, node.as_str(), "/rx")
}

fn rx_topic(e: &Envelope, target: u32) -> (topic: String)
    ensures
        topic@ == rx_topic_of(e@, target),
{
    match e.link_id {
        Some(link) => {
            let number = decimal_text(link as u64);
            joined3("sim/ch/", number.as_str(), "/rx")
        },
        None => {
            let node = decimal_text(target as u64);
            coord_rx(node.as_str())
        },
    }
}

fn legacy_topic(e: &Envelope, target: u32) -> (topic: String)
    ensures
        topic@ == legacy_topic_of(e@, target),
{
    if e.link_id.is_some() {
        return rx_topic(e, target);
    }
    match &e.base_topic {
        Some(base) => {
            let node = decimal_text(target as u64);
            let mut out = chars_of(base.as_str());
            push_text(&mut out, "/");
            push_text(&mut out, node.as_str());
            push_text(&mut out, "/rx");
            string_of(out)
        },
        None => protocol_rx(e.message.protocol, target),
    }
}

fn list_target_numbers(targets: &Vec<String>) -> (numbers: Vec<u32>)
    ensures
        numbers@ == target_numbers(sorting::views(targets@), 0, Seq::empty()),
{
    let ghost all = sorting::views(targets@);
    let mut numbers: Vec<u32> = Vec::new();
    let mut i: usize = 0;
    while i < targets.len()
        invariant
            i <= targets@.len(),
            all == sorting::views(targets@),
            target_numbers(all, 0, Seq::empty()) == target_numbers(all, i as int, numbers@),
        decreases targets@.len() - i,
    {
        match parse_unsigned(targets[i].as_str(), u32::MAX as u64) {
            Some(n) => {
                numbers.push(n as u32);
            },
            None => {},
        }
        i += 1;
    }
    numbers
}

fn list_others(nodes: &Vec<u32>, src: u32) -> (others: Vec<u32>)
    ensures
        others@ == others_on_link(nodes@, src, 0, Seq::empty()),
{
    let mut others: Vec<u32> = Vec::new();
    let mut i: usize = 0;
    while i < nodes.len()
        invariant
            i <= nodes@.len(),
            others_on_link(nodes@, src, 0, Seq::empty()) == others_on_link(
                nodes@,
                src,
                i as int,
                others@,
            ),
        decreases nodes@.len() - i,
    {
        if nodes[i] != src {
            others.push(nodes[i]);
        }
        i += 1;
    }
    others
}

/// Whether a text is among others.
pub(crate) fn lists_text(texts: &Vec<String>, wanted: &str) -> (r: bool)
    ensures
        r == sorting::views(texts@).contains(wanted@),
{
    let ghost all = sorting::views(texts@);
    let mut i: usize = 0;
    while i < texts.len()
        invariant
            i <= texts@.len(),
            all == sorting::views(texts@),
            forall|k: int| 0 <= k < i ==> #[trigger] all[k] != wanted@,
        decreases texts@.len() - i,
    {
        if same_text(texts[i].as_str(), wanted) {
            proof {
                assert(all[i as int] == wanted@);
            }
            return true;
        }
        i += 1;
    }
    false
}

/// The nodes on each link.
pub open spec fn link_views(links: Option<&Vec<Vec<u32>>>) -> Option<Seq<Seq<u32>>> {
    match links {
        Some(nodes) => Some(sorting::views(nodes@)),
        None => None,
    }
}

fn list_targets(routes: &RoutingMap, links: Option<&Vec<Vec<u32>>>, e: &Envelope) -> (r: Option<
    Vec<u32>,
>)
    ensures
        match r {
            Some(targets) => message_targets(routes@, link_views(links), e@) == Some(targets@),
            None => message_targets(routes@, link_views(links), e@) is None,
        },
{
    let source = decimal_text(e.message.src_node_id as u64);
    let allowed = match routes.get_targets(source.as_str()) {
        None => {
            return None;
        },
        Some(allowed) => allowed,
    };
    match e.link_id {
        Some(link) => match links {
            Some(nodes) => {
                if (link as usize) < nodes.len() {
                    proof {
                        assert(sorting::views(nodes@)[link as int] == nodes@[link as int]@);
                    }
                    Some(list_others(&nodes[link as usize], e.message.src_node_id))
                } else {
                    Some(Vec::new())
                }
            },
            None => Some(Vec::new()),
        },
        None => if e.message.dst_node_id == BROADCAST {
            Some(list_target_numbers(allowed))
        } else {
            let wanted = decimal_text(e.message.dst_node_id as u64);
            if lists_text(allowed, wanted.as_str()) {
                let mut one: Vec<u32> = Vec::new();
                one.push(e.message.dst_node_id);
                proof {
                    assert(one@ =~= seq![e.message.dst_node_id]);
                }
                Some(one)
            } else {
                None
            }
        },
    }
}

/// What is to be delivered of a message, to whom and on which topics; `None` if the message should
/// not be there: its source is not registered, or may not send to its destination.
pub fn plan_delivery(routes: &RoutingMap, links: Option<&Vec<Vec<u32>>>, e: &Envelope) -> (r: Option<
    Vec<Delivery>,
>)
    ensures
        match (r, message_targets(routes@, link_views(links), e@)) {
            (Some(plan), Some(targets)) => sorting::views(plan@) == deliveries_to(e@, targets),
            (None, None) => true,
            _ => false,
        },
{
    let targets = match list_targets(routes, links, e) {
        None => {
            return None;
        },
        Some(targets) => targets,
    };
    let mut plan: Vec<Delivery> = Vec::new();
    let mut i: usize = 0;
    while i < targets.len()
        invariant
            i <= targets@.len(),
            plan@.len() == i,
            forall|k: int|
                0 <= k < i ==> (#[trigger] plan@[k])@ == deliveries_to(e@, targets@)[k],
        decreases targets@.len() - i,
    {
        plan.push(
            Delivery {
                target: targets[i],
                rx_topic: rx_topic(e, targets[i]),
                legacy_rx_topic: legacy_topic(e, targets[i]),
            },
        );
        i += 1;
    }
    proof {
        assert(sorting::views(plan@) =~= deliveries_to(e@, targets@));
    }
    Some(plan)
}

/// A message on a link does not go back to the node that sent it.
pub proof fn law_link_message_skips_its_source(
    routes: Routes,
    links: Seq<Seq<u32>>,
    e: EnvelopeView,
)
    requires
        e.link_id is Some,
    ensures
        message_targets(routes, Some(links), e) matches Some(targets) ==> !targets.contains(
            e.message.src_node_id,
        ),
{
    match e.link_id {
        Some(link) => {
            if link < links.len() {
                lemma_others_on_link(
                    links[link as int],
                    e.message.src_node_id,
                    0,
                    Seq::empty(),
                );
            }
        },
        None => {},
    }
}

proof fn lemma_others_on_link(nodes: Seq<u32>, src: u32, i: int, found: Seq<u32>)
    requires
        !found.contains(src),
    ensures
        !others_on_link(nodes, src, i, found).contains(src),
    decreases nodes.len() - i,
{
    if 0 <= i < nodes.len() {
        let next = if nodes[i] != src {
            found.push(nodes[i])
        } else {
            found
        };
        assert(!next.contains(src)) by {
            if next.contains(src) {
                let k = choose|k: int| 0 <= k < next.len() && next[k] == src;
                if k < found.len() {
                    assert(found[k] == src);
                }
            }
        }
        lemma_others_on_link(nodes, src, i + 1, next);
    }
}

/// A message that is addressed to one node is delivered to that node alone, or refused.
pub proof fn law_addressed_message_goes_to_its_node(routes: Routes, e: EnvelopeView)
    requires
        e.link_id is None,
        e.message.dst_node_id != BROADCAST,
    ensures
        message_targets(routes, None, e) matches Some(targets) ==> targets
            == seq![e.message.dst_node_id],
{
}

} // verus!
