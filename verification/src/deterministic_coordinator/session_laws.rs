//! What holds of a run of the coordinator, of its start and of its topics.
use vstd::prelude::*;

use crate::deterministic_coordinator::barrier::CoordMessageView;
use crate::deterministic_coordinator::control;
use crate::deterministic_coordinator::control::{ControlErrorView, DropLevel};
use crate::deterministic_coordinator::delivery;
use crate::deterministic_coordinator::envelope::EnvelopeView;
use crate::deterministic_coordinator::frame_laws;
use crate::deterministic_coordinator::frames;
use crate::deterministic_coordinator::frames::{CarriedView, TxTopicView};
use crate::deterministic_coordinator::session;
use crate::deterministic_coordinator::session::{DoneOutcomeView, SessionView};
use crate::deterministic_coordinator::startup;
use crate::deterministic_coordinator::startup::{NamedLinkView, TopicKind};
use crate::deterministic_coordinator::topology;
use crate::deterministic_coordinator::topology::{NodeIdView, Protocol, Routes};
use crate::text;
use crate::text_laws;
use crate::wire;

verus! {

/// A transmission is due when the delay after its time has passed, or at the last moment there is;
/// it comes from the node of its topic, goes to all, and keeps its number, its protocol, its data
/// and the base of its topic.
pub proof fn law_transmission(delay_ns: u64, tx: TxTopicView, carried: CarriedView)
    ensures
        ({
            let e = session::transmitted(delay_ns, tx, carried);
            let due = carried.vtime_ns + delay_ns;
            &&& due <= u64::MAX ==> e.message.delivery_vtime_ns == due
            &&& due > u64::MAX ==> e.message.delivery_vtime_ns == u64::MAX
            &&& e.message.src_node_id == tx.node_id
            &&& e.message.dst_node_id == u32::MAX
            &&& e.message.sequence_number == carried.sequence_number
            &&& e.message.protocol == tx.protocol
            &&& e.message.payload == carried.data
            &&& e.base_topic == Some(tx.base)
            &&& e.link_id is None
        }),
{
}

/// A held message waits last among those of its source; those of other nodes and all else stay.
pub proof fn law_held_message_waits(s: SessionView, e: EnvelopeView, other: u32)
    ensures
        ({
            let then = session::held(s, e);
            let src = e.message.src_node_id;
            &&& session::batch_of(then.batches, src) == session::batch_of(s.batches, src).push(e)
            &&& other != src ==> session::batch_of(then.batches, other) == session::batch_of(
                s.batches,
                other,
            )
            &&& then.quantum == s.quantum && then.barrier == s.barrier && then.counters
                == s.counters && then.delay_ns == s.delay_ns && then.immediate == s.immediate
        }),
{
}

/// The messages up to a time are those due, the others are not, each in its order.
pub proof fn law_due_and_not_due(messages: Seq<EnvelopeView>, limit: int)
    ensures
        session::due(messages, limit) == messages.filter(
            |e: EnvelopeView| e.message.delivery_vtime_ns <= limit,
        ),
        session::not_due(messages, limit) == messages.filter(
            |e: EnvelopeView| e.message.delivery_vtime_ns > limit,
        ),
    decreases messages.len(),
{
    reveal(Seq::filter);
    if messages.len() > 0 {
        law_due_and_not_due(messages.drop_last(), limit);
    }
}

/// When a node is done, its messages beyond the limit and the delay stay with it, the others leave;
/// those of other nodes stay. The quantum goes on by one where messages are released and stays
/// otherwise.
pub proof fn law_done_parts_messages(
    s: SessionView,
    node: u32,
    quantum: u64,
    vtime_limit: u64,
    sent: Seq<CoordMessageView>,
    other: u32,
)
    requires
        s.quantum < u64::MAX,
    ensures
        ({
            let (then, outcome) = session::done(s, node, quantum, vtime_limit, sent);
            &&& session::batch_of(then.batches, node) == session::batch_of(s.batches, node).filter(
                |e: EnvelopeView| e.message.delivery_vtime_ns > vtime_limit + s.delay_ns,
            )
            &&& other != node ==> session::batch_of(then.batches, other) == session::batch_of(
                s.batches,
                other,
            )
            &&& outcome is Released ==> then.quantum == s.quantum + 1
                && outcome->next_quantum == s.quantum + 1
            &&& !(outcome is Released) ==> then.quantum == s.quantum
            &&& quantum != s.quantum ==> outcome is Fatal && then.barrier == s.barrier
            &&& node >= s.barrier.done.len() ==> outcome is Fatal && then.barrier == s.barrier
            &&& node < s.barrier.done.len() && s.barrier.done[node as int] ==> outcome is Fatal
                && then.barrier == s.barrier
            &&& outcome is Waiting ==> then.barrier.done == s.barrier.done.update(
                node as int,
                true,
            )
            &&& then.counters == s.counters && then.delay_ns == s.delay_ns && then.immediate
                == s.immediate
        }),
{
    let limit = vtime_limit + s.delay_ns;
    let own = session::batch_of(s.batches, node);
    law_due_and_not_due(own, limit);
    assert(own.filter(|e: EnvelopeView| e.message.delivery_vtime_ns > limit) == own.filter(
        |e: EnvelopeView| e.message.delivery_vtime_ns > vtime_limit + s.delay_ns,
    ));
}

/// From the payload of a link message all that was put into it reads back.
pub proof fn law_link_payload_reads_back(
    link: u32,
    node: u32,
    delay_ns: u64,
    sequence_number: u64,
    raw: Seq<u8>,
)
    requires
        raw.len() <= u32::MAX,
    ensures
        ({
            let bytes = session::link_payload(link, node, delay_ns, sequence_number, raw);
            &&& wire::le_at(bytes, 0, 4) == link
            &&& wire::le_at(bytes, 4, 4) == node
            &&& wire::le_at(bytes, 8, 8) == delay_ns
            &&& wire::le_at(bytes, 16, 8) == sequence_number
            &&& wire::le_at(bytes, 24, 4) == raw.len()
            &&& bytes.skip(28) == raw
        }),
{
    crate::virtmcu_coord::frames::law_delivery_frame_reads_back(
        link,
        node,
        delay_ns,
        sequence_number,
        raw,
    );
}

/// A message on a link is numbered by how many its node has sent, comes from that node, goes to all
/// on the link and is due when the delay has passed; the count then goes up by one for that node
/// only.
pub proof fn law_link_message(s: SessionView, link: u32, node: u32, raw: Seq<u8>, other: u32)
    requires
        raw.len() <= u32::MAX,
        session::counter_of(s.counters, node) < u64::MAX,
    ensures
        ({
            let e = session::link_message(s, link, node, raw);
            let then = session::counted(s, node);
            let count = session::counter_of(s.counters, node);
            &&& e.message.sequence_number == count
            &&& e.message.src_node_id == node
            &&& e.message.dst_node_id == u32::MAX
            &&& e.message.delivery_vtime_ns == s.delay_ns
            &&& e.message.protocol == Protocol::ReferenceLink
            &&& e.link_id == Some(link)
            &&& e.base_topic is None
            &&& e.message.payload.skip(28) == raw
            &&& wire::le_at(e.message.payload, 0, 4) == link
            &&& wire::le_at(e.message.payload, 4, 4) == node
            &&& wire::le_at(e.message.payload, 8, 8) == s.delay_ns
            &&& wire::le_at(e.message.payload, 16, 8) == count
            &&& session::counter_of(then.counters, node) == count + 1
            &&& other != node ==> session::counter_of(then.counters, other)
                == session::counter_of(s.counters, other)
            &&& then.batches == s.batches && then.quantum == s.quantum && then.barrier == s.barrier
            &&& session::counter_of(Map::empty(), node) == 0
        }),
{
    law_link_payload_reads_back(
        link,
        node,
        s.delay_ns,
        session::counter_of(s.counters, node),
        raw,
    );
}

/// The payload of a link frame reads back, whatever stands behind it; a frame that is cut off has
/// none.
pub proof fn law_link_frame_reads_back(link: u32, raw: Seq<u8>, rest: Seq<u8>, keep: int)
    requires
        raw.len() <= u32::MAX,
        0 <= keep < 8 + raw.len(),
    ensures
        ({
            let frame = wire::le_bytes(link as nat, 4) + wire::le_bytes(raw.len(), 4) + raw;
            &&& session::frame_payload(frame + rest) == Some(raw)
            &&& wire::le_at(frame + rest, 0, 4) == link
            &&& session::frame_payload(frame.take(keep)) is None
        }),
{
    let a = wire::le_bytes(link as nat, 4);
    let b = wire::le_bytes(raw.len(), 4);
    let frame = a + b + raw;
    frame_laws::lemma_byte_ranges();
    frame_laws::lemma_number_in(Seq::empty(), link as nat, 4, b + raw + rest);
    assert(Seq::<u8>::empty() + a + (b + raw + rest) =~= frame + rest);
    frame_laws::lemma_number_in(a, raw.len(), 4, raw + rest);
    assert(a + b + (raw + rest) =~= frame + rest);
    assert((frame + rest).subrange(8, (8 + raw.len()) as int) =~= raw);
    if keep >= 8 {
        assert(frame.take(keep).subrange(4, 8) =~= b);
        wire::law_le_round_trip(raw.len(), 4);
    }
}

/// The topic of a link tells its number, and is the topic of a link.
pub proof fn law_link_topic_reads_back(link: u32)
    ensures
        ({
            let topic = "sim/ch/"@ + text::decimal(link as nat);
            &&& session::is_link_topic(topic)
            &&& session::link_number(topic) == Some(link)
            &&& startup::topic_kind(topic) == TopicKind::Link
        }),
{
    let id = text::decimal(link as nat);
    let topic = "sim/ch/"@ + id;
    reveal_strlit("sim/ch/");
    reveal_strlit("sim");
    reveal_strlit("ch");
    frame_laws::lemma_decimal_is_one_part(link as nat);
    text_laws::law_split_of_one(id, '/');
    text_laws::law_split_of_more("ch"@, '/', id);
    text_laws::law_split_of_more("sim"@, '/', "ch"@ + seq!['/'] + id);
    assert(topic =~= "sim"@ + seq!['/'] + ("ch"@ + seq!['/'] + id));
    assert(text::split_on(topic, '/') =~= seq!["sim"@, "ch"@, id]);
    text_laws::law_prefix_and_suffix(id, "sim/ch/"@);
    text::law_decimal_reads_back(link as nat, u32::MAX as nat);
}

/// A topic that is not that of a link is one to send on if it ends as such, else one to be done on
/// if it begins as such, else none of these.
pub proof fn law_topic_kinds(base: Seq<char>, node: Seq<char>)
    requires
        !session::is_link_topic(base + "/tx"@),
        !session::is_link_topic("sim/coord/done/"@ + node),
        !text::has_suffix("sim/coord/done/"@ + node, "/tx"@),
    ensures
        startup::topic_kind(base + "/tx"@) == TopicKind::Transmission,
        startup::topic_kind("sim/coord/done/"@ + node) == TopicKind::Done,
        !session::is_link_topic(base) && !text::has_suffix(base, "/tx"@) && !text::has_prefix(
            base,
            "sim/coord/done/"@,
        ) ==> startup::topic_kind(base) == TopicKind::Other,
{
    text_laws::law_prefix_and_suffix(base, "/tx"@);
    text_laws::law_prefix_and_suffix(node, "sim/coord/done/"@);
}

/// The node that is missing is one that has not joined, and all before it have; none is missing if
/// and only if all have joined.
pub proof fn law_missing_node(n_nodes: nat, joined: Seq<u32>, i: nat)
    requires
        i <= n_nodes <= u32::MAX,
    ensures
        match startup::first_missing(n_nodes, joined, i) {
            Some(k) => {
                &&& i <= k < n_nodes
                &&& !joined.contains(k as u32)
                &&& forall|j: nat| i <= j < k ==> joined.contains(#[trigger] (j as u32))
            },
            None => forall|j: nat| i <= j < n_nodes ==> joined.contains(#[trigger] (j as u32)),
        },
    decreases n_nodes - i,
{
    if i < n_nodes {
        if exists|k: int| 0 <= k < joined.len() && #[trigger] joined[k] == i {
            law_missing_node(n_nodes, joined, i + 1);
            let k = choose|k: int| 0 <= k < joined.len() && #[trigger] joined[k] == i;
            assert(joined[k] == i as u32);
            assert(joined.contains(i as u32));
        } else if joined.contains(i as u32) {
            let k = joined.index_of(i as u32);
            assert(joined[k] == i);
        }
    }
}

/// Each node is told on its own topic to start, and the quantum reads back from what it is told.
pub proof fn law_start_reads_back(n_nodes: nat, quantum: u64, i: int)
    requires
        0 <= i < n_nodes,
    ensures
        ({
            let starts = startup::start_views(n_nodes, quantum);
            &&& starts.len() == n_nodes
            &&& starts[i].topic == "sim/clock/start/"@ + text::decimal(i as nat)
            &&& frames::plain_done(starts[i].payload).quantum == quantum
            &&& starts[i].payload.len() == 8
        }),
{
    frame_laws::law_done_reads_back(quantum, 0, Seq::empty());
    wire::lemma_le_bytes_len(quantum as nat, 8);
}

/// A link has the number of its place; of links with one name the last counts, and a name that no
/// link has, has no number.
pub proof fn law_link_numbers(links: Seq<NamedLinkView>, name: Seq<char>, n: int, k: int)
    requires
        0 <= n <= links.len(),
    ensures
        0 <= k < n && links[k].name == name && (forall|j: int|
            k < j < n ==> (#[trigger] links[j]).name != name) ==> startup::number_of(
            links,
            name,
            n,
        ) == Some(k),
        (forall|j: int| 0 <= j < n ==> (#[trigger] links[j]).name != name) ==> startup::number_of(
            links,
            name,
            n,
        ) is None,
    decreases n,
{
    if n > 0 {
        law_link_numbers(links, name, n - 1, k);
        assert(links[n - 1].name == name || links[n - 1].name != name);
    }
}

/// The greater the probability of loss, the nearer to cut: what is above one that cuts, cuts, what
/// is below one that restores, restores. One cuts, and zero and less than zero restore; what is no
/// number changes nothing.
pub proof fn law_drop_levels(a: u64, b: u64)
    ensures
        a <= b <= control::INFINITY_BITS && control::level_of(a) == DropLevel::Cut
            ==> control::level_of(b) == DropLevel::Cut,
        a <= b <= control::INFINITY_BITS && control::level_of(b) == DropLevel::Restore
            ==> control::level_of(a) == DropLevel::Restore,
        control::level_of(0x3ff0_0000_0000_0000) == DropLevel::Cut,
        control::level_of(0x3fe0_0000_0000_0000) == DropLevel::Keep,
        control::level_of(0) == DropLevel::Restore,
        a >= 0x8000_0000_0000_0000 && a <= 0xfff0_0000_0000_0000 ==> control::level_of(a)
            == DropLevel::Restore,
        control::INFINITY_BITS < a < 0x8000_0000_0000_0000 ==> control::level_of(a)
            == DropLevel::Keep,
        a > 0xfff0_0000_0000_0000 ==> control::level_of(a) == DropLevel::Keep,
{
}

/// A link is cut from its first node to its second and no other is; it is restored both ways and
/// no other is.
pub proof fn law_link_state(drops: Set<(u32, u32)>, from: u32, to: u32, bits: u64, p: (u32, u32))
    ensures
        ({
            let then = control::link_state_after(
                drops,
                text::decimal(from as nat),
                text::decimal(to as nat),
                bits,
            );
            &&& then is Ok
            &&& control::level_of(bits) == DropLevel::Cut ==> (then->Ok_0.contains(p)
                <==> drops.contains(p) || p == (from, to))
            &&& control::level_of(bits) == DropLevel::Restore ==> (then->Ok_0.contains(p)
                <==> drops.contains(p) && p != (from, to) && p != (to, from))
            &&& control::level_of(bits) == DropLevel::Keep ==> then->Ok_0 == drops
        }),
{
    text::law_decimal_reads_back(from as nat, u32::MAX as nat);
    text::law_decimal_reads_back(to as nat, u32::MAX as nat);
}

/// A node that is named by no number is refused by its name, the first before the second.
pub proof fn law_link_state_refusals(
    drops: Set<(u32, u32)>,
    bad: Seq<char>,
    node: u32,
    any: Seq<char>,
    bits: u64,
)
    requires
        text::parsed_unsigned(bad, u32::MAX as nat) is None,
    ensures
        control::link_state_after(drops, bad, any, bits) == Err::<
            Set<(u32, u32)>,
            ControlErrorView,
        >(ControlErrorView::InvalidNode(bad)),
        control::link_state_after(drops, text::decimal(node as nat), bad, bits) == Err::<
            Set<(u32, u32)>,
            ControlErrorView,
        >(ControlErrorView::InvalidNode(bad)),
{
    text::law_decimal_reads_back(node as nat, u32::MAX as nat);
}

/// A node is known by its number, whether that is written as a number or as a name.
pub proof fn law_node_ids(id: u32, s: Seq<char>)
    ensures
        topology::id_of(NodeIdView::Integer(id as i64)) == Some(id),
        topology::id_of(NodeIdView::Name(text::decimal(id as nat))) == Some(id),
        text::parsed_unsigned(s, u32::MAX as nat) is None ==> topology::id_of(NodeIdView::Name(s))
            is None,
{
    text::law_decimal_reads_back(id as nat, u32::MAX as nat);
}

/// The names of protocols.
pub open spec fn protocol_names() -> Seq<(Seq<char>, Protocol)> {
    seq![
        ("ethernet"@, Protocol::Ethernet),
        ("eth"@, Protocol::Ethernet),
        ("uart"@, Protocol::Uart),
        ("spi"@, Protocol::Spi),
        ("canfd"@, Protocol::CanFd),
        ("flexray"@, Protocol::FlexRay),
        ("lin"@, Protocol::Lin),
        ("rf802154"@, Protocol::Rf802154),
        ("rfhci"@, Protocol::RfHci),
        ("reference-link"@, Protocol::ReferenceLink),
    ]
}

/// Each name of a protocol stands for it, and every other text for the control protocol.
pub proof fn law_protocol_names(k: int, other: Seq<char>)
    requires
        0 <= k < 10,
        forall|j: int| 0 <= j < 10 ==> other != (#[trigger] protocol_names()[j]).0,
    ensures
        topology::protocol_named(protocol_names()[k].0) == protocol_names()[k].1,
        topology::protocol_named(other) == Protocol::Control,
{
    let names = protocol_names();
    reveal_strlit("ethernet");
    reveal_strlit("eth");
    reveal_strlit("uart");
    reveal_strlit("spi");
    reveal_strlit("canfd");
    reveal_strlit("flexray");
    reveal_strlit("lin");
    reveal_strlit("rf802154");
    reveal_strlit("rfhci");
    reveal_strlit("reference-link");
    assert("eth"@[0] == 'e' && "spi"@[0] == 's' && "lin"@[0] == 'l');
    assert("canfd"@[0] == 'c' && "rfhci"@[0] == 'r');
    assert("ethernet"@[0] == 'e' && "rf802154"@[0] == 'r');
    assert("eth"@.len() == 3 && "spi"@.len() == 3 && "lin"@.len() == 3);
    assert("uart"@.len() == 4 && "canfd"@.len() == 5 && "rfhci"@.len() == 5);
    assert("flexray"@.len() == 7 && "ethernet"@.len() == 8 && "rf802154"@.len() == 8);
    assert("reference-link"@.len() == 14);
    assert(topology::protocol_named("uart"@) == Protocol::Uart);
    assert(topology::protocol_named("spi"@) == Protocol::Spi);
    assert(topology::protocol_named("canfd"@) == Protocol::CanFd);
    assert(topology::protocol_named("flexray"@) == Protocol::FlexRay);
    assert(topology::protocol_named("lin"@) == Protocol::Lin);
    assert(topology::protocol_named("rf802154"@) == Protocol::Rf802154);
    assert(topology::protocol_named("rfhci"@) == Protocol::RfHci);
    assert(topology::protocol_named("reference-link"@) == Protocol::ReferenceLink);
    assert(other != names[0].0 && other != names[1].0 && other != names[2].0 && other != names[3].0
        && other != names[4].0 && other != names[5].0 && other != names[6].0 && other != names[7].0
        && other != names[8].0 && other != names[9].0);
}

/// On a link a message goes to all nodes of it but its source, in their order.
pub proof fn law_others_on_link(nodes: Seq<u32>, src: u32)
    ensures
        delivery::others_on_link(nodes, src, 0, Seq::empty()) == nodes.filter(
            |n: u32| n != src,
        ),
{
    reveal(Seq::filter);
    assert(nodes.take(0) =~= Seq::<u32>::empty());
    assert(nodes.take(0).filter(|n: u32| n != src) =~= Seq::<u32>::empty());
    lemma_others_on_link(nodes, src, 0, Seq::empty());
}

proof fn lemma_others_on_link(nodes: Seq<u32>, src: u32, i: int, found: Seq<u32>)
    requires
        0 <= i <= nodes.len(),
        found == nodes.take(i).filter(|n: u32| n != src),
    ensures
        delivery::others_on_link(nodes, src, i, found) == nodes.filter(|n: u32| n != src),
    decreases nodes.len() - i,
{
    reveal(Seq::filter);
    if i < nodes.len() {
        assert(nodes.take(i + 1).drop_last() =~= nodes.take(i));
        assert(nodes.take(i + 1).last() == nodes[i]);
        lemma_others_on_link(
            nodes,
            src,
            i + 1,
            if nodes[i] != src {
                found.push(nodes[i])
            } else {
                found
            },
        );
    } else {
        assert(nodes.take(i) =~= nodes);
    }
}

/// The names of nodes.
pub open spec fn names_of(nodes: Seq<u32>) -> Seq<Seq<char>> {
    Seq::new(nodes.len(), |i: int| text::decimal(nodes[i] as nat))
}

proof fn lemma_target_numbers(nodes: Seq<u32>, i: int, found: Seq<u32>)
    requires
        0 <= i <= nodes.len(),
        found == nodes.take(i),
    ensures
        delivery::target_numbers(names_of(nodes), i, found) == nodes,
    decreases nodes.len() - i,
{
    if i < nodes.len() {
        text::law_decimal_reads_back(nodes[i] as nat, u32::MAX as nat);
        assert(found.push(nodes[i]) =~= nodes.take(i + 1));
        lemma_target_numbers(nodes, i + 1, found.push(nodes[i]));
    } else {
        assert(nodes.take(i) =~= nodes);
    }
}

/// A message for all goes to every node that its source may send to, in their order; a message for
/// one goes there if its source may send there, and is refused otherwise. A source that may not
/// send at all is refused.
pub proof fn law_who_gets_a_message(
    routes: Routes,
    links: Option<Seq<Seq<u32>>>,
    e: EnvelopeView,
    allowed: Seq<u32>,
)
    requires
        e.link_id is None,
    ensures
        ({
            let source = text::decimal(e.message.src_node_id as nat);
            let targets = delivery::message_targets(routes, links, e);
            &&& topology::targets_of(routes, source) is None ==> targets is None
            &&& topology::targets_of(routes, source) == Some(names_of(allowed))
                && e.message.dst_node_id == u32::MAX ==> targets == Some(allowed)
            &&& topology::targets_of(routes, source) == Some(names_of(allowed))
                && e.message.dst_node_id != u32::MAX && allowed.contains(e.message.dst_node_id)
                ==> targets == Some(seq![e.message.dst_node_id])
            &&& topology::targets_of(routes, source) == Some(names_of(allowed))
                && e.message.dst_node_id != u32::MAX && !allowed.contains(e.message.dst_node_id)
                ==> targets is None
        }),
{
    assert(allowed.take(0) =~= Seq::<u32>::empty());
    lemma_target_numbers(allowed, 0, Seq::empty());
    let dst = e.message.dst_node_id;
    let names = names_of(allowed);
    if allowed.contains(dst) {
        let k = allowed.index_of(dst);
        assert(names[k] == text::decimal(dst as nat));
    } else if names.contains(text::decimal(dst as nat)) {
        let k = names.index_of(text::decimal(dst as nat));
        text::law_decimal_reads_back(allowed[k] as nat, u32::MAX as nat);
        text::law_decimal_reads_back(dst as nat, u32::MAX as nat);
        assert(allowed[k] == dst);
    }
}

/// On a link a message goes to the others on it, whoever its source may send to otherwise; on a
/// link that there is not, to nobody.
pub proof fn law_who_gets_a_link_message(
    routes: Routes,
    links: Seq<Seq<u32>>,
    e: EnvelopeView,
    link: u32,
)
    requires
        e.link_id == Some(link),
        topology::targets_of(routes, text::decimal(e.message.src_node_id as nat)) is Some,
    ensures
        link < links.len() ==> delivery::message_targets(routes, Some(links), e) == Some(
            links[link as int].filter(|n: u32| n != e.message.src_node_id),
        ),
        link >= links.len() ==> delivery::message_targets(routes, Some(links), e) == Some(
            Seq::<u32>::empty(),
        ),
{
    if link < links.len() {
        law_others_on_link(links[link as int], e.message.src_node_id);
    }
}

/// Each target gets a message once, in their order, on a topic that names it, or on that of the
/// link.
pub proof fn law_deliveries(e: EnvelopeView, targets: Seq<u32>, i: int)
    requires
        0 <= i < targets.len(),
    ensures
        ({
            let plan = delivery::deliveries_to(e, targets);
            let node = text::decimal(targets[i] as nat);
            &&& plan.len() == targets.len()
            &&& plan[i].target == targets[i]
            &&& e.link_id is None ==> plan[i].rx_topic == "sim/coord/"@ + node + "/rx"@
            &&& e.link_id is Some ==> plan[i].rx_topic == "sim/ch/"@ + text::decimal(
                e.link_id->0 as nat,
            ) + "/rx"@ && plan[i].legacy_rx_topic == plan[i].rx_topic
            &&& e.link_id is None && e.base_topic is Some ==> plan[i].legacy_rx_topic
                == e.base_topic->0 + "/"@ + node + "/rx"@
        }),
{
}

/// A message without a topic of its own arrives on the topic of its protocol, which names the
/// target.
pub proof fn law_protocol_topics(target: u32)
    ensures
        ({
            let rx = text::decimal(target as nat) + "/rx"@;
            &&& delivery::protocol_rx_topic(Protocol::Ethernet, target) == "sim/eth/frame/"@ + rx
            &&& delivery::protocol_rx_topic(Protocol::Uart, target) == "virtmcu/uart/"@ + rx
            &&& delivery::protocol_rx_topic(Protocol::CanFd, target) == "sim/can/"@ + rx
            &&& delivery::protocol_rx_topic(Protocol::Lin, target) == "sim/lin/"@ + rx
            &&& delivery::protocol_rx_topic(Protocol::Spi, target) == "sim/spi/default/"@ + rx
            &&& delivery::protocol_rx_topic(Protocol::Rf802154, target) == "sim/rf/ieee802154/"@
                + rx
            &&& delivery::protocol_rx_topic(Protocol::RfHci, target) == "sim/rf/hci/"@ + rx
            &&& delivery::protocol_rx_topic(Protocol::ReferenceLink, target) == "sim/chardev/"@
                + rx
            &&& delivery::protocol_rx_topic(Protocol::Control, target) == "sim/unknown/"@ + rx
            &&& delivery::protocol_rx_topic(Protocol::FlexRay, target) == "sim/unknown/"@ + rx
        }),
{
    let node = text::decimal(target as nat);
    assert("sim/eth/frame/"@ + node + "/rx"@ =~= "sim/eth/frame/"@ + (node + "/rx"@));
    assert("virtmcu/uart/"@ + node + "/rx"@ =~= "virtmcu/uart/"@ + (node + "/rx"@));
    assert("sim/can/"@ + node + "/rx"@ =~= "sim/can/"@ + (node + "/rx"@));
    assert("sim/lin/"@ + node + "/rx"@ =~= "sim/lin/"@ + (node + "/rx"@));
    assert("sim/spi/default/"@ + node + "/rx"@ =~= "sim/spi/default/"@ + (node + "/rx"@));
    assert("sim/rf/ieee802154/"@ + node + "/rx"@ =~= "sim/rf/ieee802154/"@ + (node + "/rx"@));
    assert("sim/rf/hci/"@ + node + "/rx"@ =~= "sim/rf/hci/"@ + (node + "/rx"@));
    assert("sim/chardev/"@ + node + "/rx"@ =~= "sim/chardev/"@ + (node + "/rx"@));
    assert("sim/unknown/"@ + node + "/rx"@ =~= "sim/unknown/"@ + (node + "/rx"@));
}

} // verus!
