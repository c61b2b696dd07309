//! What holds of reading frames and writing them.
use vstd::prelude::*;

use crate::coordination;
use crate::coordination::{ActionView, EventView, LinkView, Links, PendingView};
use crate::deterministic_coordinator::frame_laws as wire_laws;
use crate::deterministic_coordinator::startup::NamedLinkView;
use crate::text;
use crate::text_laws;
use crate::virtmcu_coord::frames;
use crate::virtmcu_coord::frames::{OutgoingView, ParsedView};
use crate::wire;

verus! {

/// A frame on a link as a node writes it.
pub open spec fn written_frame(
    link_id: u32,
    vtime_ns: u64,
    sequence_number: u64,
    payload: Seq<u8>,
) -> Seq<u8> {
    wire::le_bytes(link_id as nat, 4) + wire::le_bytes(payload.len(), 4) + wire::le_bytes(
        vtime_ns as nat,
        8,
    ) + wire::le_bytes(sequence_number as nat, 8) + payload
}

/// The event that a frame is.
pub open spec fn frame_event(
    node_id: u32,
    link_id: u32,
    due_ns: int,
    sequence_number: u64,
    payload: Seq<u8>,
) -> ParsedView {
    ParsedView::Event(
        EventView::SimulationMessage {
            message: PendingView {
                src_node_id: node_id,
                link_id,
                delivery_vtime_ns: if due_ns <= u64::MAX {
                    due_ns as u64
                } else {
                    u64::MAX
                },
                sequence_number,
                payload,
            },
        },
    )
}

proof fn lemma_written_frame(
    link_id: u32,
    vtime_ns: u64,
    sequence_number: u64,
    payload: Seq<u8>,
    rest: Seq<u8>,
)
    requires
        payload.len() <= u32::MAX,
    ensures
        ({
            let frame = written_frame(link_id, vtime_ns, sequence_number, payload) + rest;
            &&& frame.len() == 24 + payload.len() + rest.len()
            &&& wire::le_at(frame, 0, 4) == link_id
            &&& wire::le_at(frame, 4, 4) == payload.len()
            &&& wire::le_at(frame, 8, 8) == vtime_ns
            &&& wire::le_at(frame, 16, 8) == sequence_number
            &&& frame.subrange(24, (24 + payload.len()) as int) == payload
        }),
{
    let a = wire::le_bytes(link_id as nat, 4);
    let b = wire::le_bytes(payload.len(), 4);
    let c = wire::le_bytes(vtime_ns as nat, 8);
    let d = wire::le_bytes(sequence_number as nat, 8);
    let frame = written_frame(link_id, vtime_ns, sequence_number, payload) + rest;
    wire_laws::lemma_byte_ranges();
    wire_laws::lemma_number_in(Seq::empty(), link_id as nat, 4, b + c + d + payload + rest);
    assert(Seq::<u8>::empty() + a + (b + c + d + payload + rest) =~= frame);
    wire_laws::lemma_number_in(a, payload.len(), 4, c + d + payload + rest);
    assert(a + b + (c + d + payload + rest) =~= frame);
    wire_laws::lemma_number_in(a + b, vtime_ns as nat, 8, d + payload + rest);
    assert((a + b) + c + (d + payload + rest) =~= frame);
    wire_laws::lemma_number_in(a + b + c, sequence_number as nat, 8, payload + rest);
    assert((a + b + c) + d + (payload + rest) =~= frame);
    assert(frame.subrange(24, (24 + payload.len()) as int) =~= payload);
}

proof fn lemma_link_event(
    node_id: u32,
    link_id: u32,
    vtime_ns: u64,
    sequence_number: u64,
    payload: Seq<u8>,
    rest: Seq<u8>,
    delay_ns: u64,
)
    requires
        payload.len() <= u32::MAX,
    ensures
        frames::link_event(
            node_id,
            link_id,
            written_frame(link_id, vtime_ns, sequence_number, payload) + rest,
            delay_ns,
        ) == frame_event(node_id, link_id, vtime_ns + delay_ns, sequence_number, payload),
{
    lemma_written_frame(link_id, vtime_ns, sequence_number, payload, rest);
}

/// The parts of the topics of links.
proof fn lemma_link_topics(link_id: u32, node_id: u32)
    ensures
        ({
            let socket = frames::socket_link_topic(link_id);
            let bus = frames::bus_link_topic(link_id, node_id);
            &&& text::split_on(socket, '/') == seq![
                "sim"@,
                "ch"@,
                text::decimal(link_id as nat),
            ]
            &&& text::split_on(bus, '/') == seq![
                "sim"@,
                "ch"@,
                text::decimal(link_id as nat),
                text::decimal(node_id as nat),
            ]
            &&& text::has_prefix(socket, "sim/ch/"@)
            &&& text::has_prefix(bus, "sim/ch/"@)
            &&& socket != "sim/coord/link/register"@
            &&& !text::has_prefix(bus, "sim/coord/link/register/"@)
        }),
{
    let link = text::decimal(link_id as nat);
    let node = text::decimal(node_id as nat);
    let socket = frames::socket_link_topic(link_id);
    let bus = frames::bus_link_topic(link_id, node_id);
    reveal_strlit("sim/ch/");
    reveal_strlit("/");
    reveal_strlit("sim");
    reveal_strlit("ch");
    reveal_strlit("sim/coord/link/register");
    reveal_strlit("sim/coord/link/register/");
    wire_laws::lemma_decimal_is_one_part(link_id as nat);
    wire_laws::lemma_decimal_is_one_part(node_id as nat);
    text_laws::law_split_of_one(link, '/');
    text_laws::law_split_of_more("ch"@, '/', link);
    text_laws::law_split_of_more("sim"@, '/', "ch"@ + seq!['/'] + link);
    assert(socket =~= "sim"@ + seq!['/'] + ("ch"@ + seq!['/'] + link));
    text_laws::law_split_of_one(node, '/');
    text_laws::law_split_of_more(link, '/', node);
    text_laws::law_split_of_more("ch"@, '/', link + seq!['/'] + node);
    text_laws::law_split_of_more("sim"@, '/', "ch"@ + seq!['/'] + (link + seq!['/'] + node));
    assert(bus =~= "sim"@ + seq!['/'] + ("ch"@ + seq!['/'] + (link + seq!['/'] + node)));
    assert(text::split_on(socket, '/') =~= seq!["sim"@, "ch"@, link]);
    assert(text::split_on(bus, '/') =~= seq!["sim"@, "ch"@, link, node]);
    text_laws::law_prefix_and_suffix(link, "sim/ch/"@);
    text_laws::law_prefix_and_suffix(link + "/"@ + node, "sim/ch/"@);
    assert(bus =~= "sim/ch/"@ + (link + "/"@ + node));
    assert(socket[5] == 'h' && "sim/coord/link/register"@[5] == 'o');
    assert(bus[5] == 'h');
    if text::has_prefix(bus, "sim/coord/link/register/"@) {
        let p = "sim/coord/link/register/"@;
        text_laws::law_prefix_and_suffix(bus, p);
        assert(bus[5] == p[5]);
    }
}

/// A whole frame on a link is the same event whether it comes over a socket or over the bus: the
/// message of its node on its link, with its number and its payload, due at its time and the delay
/// later, or at the last moment there is.
pub proof fn law_link_frame_is_due_after_delay(
    node_id: u32,
    link_id: u32,
    vtime_ns: u64,
    sequence_number: u64,
    payload: Seq<u8>,
    rest: Seq<u8>,
    delay_ns: u64,
    link_name: Option<Seq<char>>,
)
    requires
        payload.len() <= u32::MAX,
    ensures
        ({
            let frame = written_frame(link_id, vtime_ns, sequence_number, payload) + rest;
            let event = frame_event(
                node_id,
                link_id,
                vtime_ns + delay_ns,
                sequence_number,
                payload,
            );
            &&& frames::uds_event(
                node_id,
                "sim/ch/"@ + text::decimal(link_id as nat),
                frame,
                delay_ns,
                link_name,
            ) == event
            &&& frames::bus_event(
                "sim/ch/"@ + text::decimal(link_id as nat) + "/"@ + text::decimal(node_id as nat),
                frame,
                delay_ns,
                link_name,
            ) == event
        }),
{
    lemma_link_topics(link_id, node_id);
    text::law_decimal_reads_back(link_id as nat, u32::MAX as nat);
    text::law_decimal_reads_back(node_id as nat, u32::MAX as nat);
    lemma_link_event(node_id, link_id, vtime_ns, sequence_number, payload, rest, delay_ns);
}

/// On every topic of a link, whatever it carries, a socket and the bus agree on what a frame is.
pub proof fn law_transports_agree(
    node_id: u32,
    link_id: u32,
    frame: Seq<u8>,
    delay_ns: u64,
    link_name: Option<Seq<char>>,
)
    ensures
        frames::uds_event(
            node_id,
            "sim/ch/"@ + text::decimal(link_id as nat),
            frame,
            delay_ns,
            link_name,
        ) == frames::bus_event(
            "sim/ch/"@ + text::decimal(link_id as nat) + "/"@ + text::decimal(node_id as nat),
            frame,
            delay_ns,
            link_name,
        ),
{
    lemma_link_topics(link_id, node_id);
    text::law_decimal_reads_back(link_id as nat, u32::MAX as nat);
    text::law_decimal_reads_back(node_id as nat, u32::MAX as nat);
}

/// A frame for another link than that of its topic must not be: the run ends. A frame that is cut
/// off means nothing.
pub proof fn law_bad_link_frames(
    node_id: u32,
    link_id: u32,
    other: u32,
    vtime_ns: u64,
    sequence_number: u64,
    payload: Seq<u8>,
    keep: int,
    delay_ns: u64,
    link_name: Option<Seq<char>>,
)
    requires
        payload.len() <= u32::MAX,
        other != link_id,
        0 <= keep < 24 + payload.len(),
    ensures
        ({
            let wrong = written_frame(other, vtime_ns, sequence_number, payload);
            let cut = written_frame(link_id, vtime_ns, sequence_number, payload).take(keep);
            let topic = "sim/ch/"@ + text::decimal(link_id as nat);
            &&& frames::uds_event(node_id, topic, wrong, delay_ns, link_name) is Fatal
            &&& frames::uds_event(node_id, topic, cut, delay_ns, link_name) is Nothing
            &&& frames::bus_event(
                topic + "/"@ + text::decimal(node_id as nat),
                wrong,
                delay_ns,
                link_name,
            ) is Fatal
            &&& frames::bus_event(
                topic + "/"@ + text::decimal(node_id as nat),
                cut,
                delay_ns,
                link_name,
            ) is Nothing
        }),
{
    let wrong = written_frame(other, vtime_ns, sequence_number, payload);
    let whole = written_frame(link_id, vtime_ns, sequence_number, payload);
    let cut = whole.take(keep);
    lemma_link_topics(link_id, node_id);
    text::law_decimal_reads_back(link_id as nat, u32::MAX as nat);
    text::law_decimal_reads_back(node_id as nat, u32::MAX as nat);
    lemma_written_frame(other, vtime_ns, sequence_number, payload, Seq::empty());
    assert(wrong + Seq::<u8>::empty() =~= wrong);
    lemma_written_frame(link_id, vtime_ns, sequence_number, payload, Seq::empty());
    assert(whole + Seq::<u8>::empty() =~= whole);
    if keep >= 24 {
        assert(cut.subrange(0, 4) =~= whole.subrange(0, 4));
        assert(cut.subrange(4, 8) =~= whole.subrange(4, 8));
    }
}

/// A registration is that of the node which sends it, and names the link that its payload names;
/// without a name it means nothing.
pub proof fn law_registration_reads_back(
    node_id: u32,
    name: Seq<char>,
    payload: Seq<u8>,
    delay_ns: u64,
)
    ensures
        ({
            let event = ParsedView::Event(EventView::LinkRegister { node_id, link_name: name });
            let socket = "sim/coord/link/register"@;
            let bus = "sim/coord/link/register/"@ + text::decimal(node_id as nat);
            &&& frames::uds_event(node_id, socket, payload, delay_ns, Some(name)) == event
            &&& frames::bus_event(bus, payload, delay_ns, Some(name)) == event
            &&& frames::uds_event(node_id, socket, payload, delay_ns, None) is Nothing
            &&& frames::bus_event(bus, payload, delay_ns, None) is Nothing
        }),
{
    let node = text::decimal(node_id as nat);
    let bus = "sim/coord/link/register/"@ + node;
    reveal_strlit("sim/coord/link/register/");
    reveal_strlit("sim");
    reveal_strlit("coord");
    reveal_strlit("link");
    reveal_strlit("register");
    wire_laws::lemma_decimal_is_one_part(node_id as nat);
    text_laws::law_split_of_one(node, '/');
    let a = "register"@ + seq!['/'] + node;
    let b = "link"@ + seq!['/'] + a;
    let c = "coord"@ + seq!['/'] + b;
    text_laws::law_split_of_more("register"@, '/', node);
    text_laws::law_split_of_more("link"@, '/', a);
    text_laws::law_split_of_more("coord"@, '/', b);
    text_laws::law_split_of_more("sim"@, '/', c);
    assert(bus =~= "sim"@ + seq!['/'] + c);
    assert(text::split_on(bus, '/') =~= seq!["sim"@, "coord"@, "link"@, "register"@, node]);
    text_laws::law_prefix_and_suffix(node, "sim/coord/link/register/"@);
    text::law_decimal_reads_back(node_id as nat, u32::MAX as nat);
}

/// A node's word that it is done is read as it was written, over a socket and over the bus.
pub proof fn law_done_reads_back(
    node_id: u32,
    sender: u32,
    quantum: u64,
    vtime_ns: u64,
    rest: Seq<u8>,
    delay_ns: u64,
    link_name: Option<Seq<char>>,
    a: Seq<char>,
    b: Seq<char>,
    last: Seq<char>,
)
    requires
        text_laws::lacks(a, '/'),
        text_laws::lacks(b, '/'),
    ensures
        ({
            let word = wire::le_bytes(quantum as nat, 8) + wire::le_bytes(vtime_ns as nat, 8)
                + rest;
            let event = ParsedView::Event(EventView::QuantumDone { node_id, quantum, vtime_ns });
            let bus = a + seq!['/'] + (b + seq!['/'] + (text::decimal(node_id as nat) + seq!['/']
                + last));
            &&& frames::uds_event(
                sender,
                "sim/coord/done/"@ + text::decimal(node_id as nat),
                word,
                delay_ns,
                link_name,
            ) == event
            &&& frames::bus_done_event(bus, word) == event
        }),
{
    let node = text::decimal(node_id as nat);
    let q = wire::le_bytes(quantum as nat, 8);
    let v = wire::le_bytes(vtime_ns as nat, 8);
    let word = q + v + rest;
    wire_laws::lemma_byte_ranges();
    wire_laws::lemma_number_in(Seq::empty(), quantum as nat, 8, v + rest);
    assert(Seq::<u8>::empty() + q + (v + rest) =~= word);
    wire_laws::lemma_number_in(q, vtime_ns as nat, 8, rest);
    wire_laws::lemma_decimal_is_one_part(node_id as nat);
    text::law_decimal_reads_back(node_id as nat, u32::MAX as nat);
    lemma_done_topic(node_id);
    text_laws::lemma_split_is_not_empty(last, '/');
    text_laws::law_split_of_more(node, '/', last);
    text_laws::law_split_of_more(b, '/', node + seq!['/'] + last);
    text_laws::law_split_of_more(a, '/', b + seq!['/'] + (node + seq!['/'] + last));
    let parts = text::split_on(
        a + seq!['/'] + (b + seq!['/'] + (node + seq!['/'] + last)),
        '/',
    );
    assert(parts[2] == node);
}

proof fn lemma_done_topic(node_id: u32)
    ensures
        ({
            let topic = "sim/coord/done/"@ + text::decimal(node_id as nat);
            &&& text::split_on(topic, '/') == seq![
                "sim"@,
                "coord"@,
                "done"@,
                text::decimal(node_id as nat),
            ]
            &&& text::has_prefix(topic, "sim/coord/done/"@)
            &&& topic != "sim/coord/link/register"@
            &&& !text::has_prefix(topic, "sim/ch/"@)
        }),
{
    let node = text::decimal(node_id as nat);
    let topic = "sim/coord/done/"@ + node;
    reveal_strlit("sim/coord/done/");
    reveal_strlit("sim/coord/link/register");
    reveal_strlit("sim/ch/");
    reveal_strlit("sim");
    reveal_strlit("coord");
    reveal_strlit("done");
    wire_laws::lemma_decimal_is_one_part(node_id as nat);
    text_laws::law_split_of_one(node, '/');
    text_laws::law_split_of_more("done"@, '/', node);
    text_laws::law_split_of_more("coord"@, '/', "done"@ + seq!['/'] + node);
    text_laws::law_split_of_more("sim"@, '/', "coord"@ + seq!['/'] + ("done"@ + seq!['/'] + node));
    assert(topic =~= "sim"@ + seq!['/'] + ("coord"@ + seq!['/'] + ("done"@ + seq!['/'] + node)));
    assert(text::split_on(topic, '/') =~= seq!["sim"@, "coord"@, "done"@, node]);
    text_laws::law_prefix_and_suffix(node, "sim/coord/done/"@);
    assert(topic[10] == 'd' && "sim/coord/link/register"@[10] == 'l');
    if text::has_prefix(topic, "sim/ch/"@) {
        text_laws::law_prefix_and_suffix(topic, "sim/ch/"@);
        assert(topic[5] == "sim/ch/"@[5]);
    }
}

/// A word that a node is done which is too short means nothing over a socket, and must not be on
/// the bus.
pub proof fn law_short_done(
    node_id: u32,
    sender: u32,
    word: Seq<u8>,
    delay_ns: u64,
    link_name: Option<Seq<char>>,
    a: Seq<char>,
    b: Seq<char>,
    last: Seq<char>,
)
    requires
        word.len() < 16,
        text_laws::lacks(a, '/'),
        text_laws::lacks(b, '/'),
    ensures
        frames::uds_event(
            sender,
            "sim/coord/done/"@ + text::decimal(node_id as nat),
            word,
            delay_ns,
            link_name,
        ) is Nothing,
        frames::bus_done_event(
            a + seq!['/'] + (b + seq!['/'] + (text::decimal(node_id as nat) + seq!['/'] + last)),
            word,
        ) is Fatal,
{
    let node = text::decimal(node_id as nat);
    lemma_done_topic(node_id);
    wire_laws::lemma_decimal_is_one_part(node_id as nat);
    text::law_decimal_reads_back(node_id as nat, u32::MAX as nat);
    text_laws::lemma_split_is_not_empty(last, '/');
    text_laws::law_split_of_more(node, '/', last);
    text_laws::law_split_of_more(b, '/', node + seq!['/'] + last);
    text_laws::law_split_of_more(a, '/', b + seq!['/'] + (node + seq!['/'] + last));
    let parts = text::split_on(
        a + seq!['/'] + (b + seq!['/'] + (node + seq!['/'] + last)),
        '/',
    );
    assert(parts[2] == node);
}

/// A topic that begins with none of the words of the coordinator means nothing.
pub proof fn law_other_topics_mean_nothing(
    node_id: u32,
    topic: Seq<char>,
    payload: Seq<u8>,
    delay_ns: u64,
    link_name: Option<Seq<char>>,
)
    requires
        !text::has_prefix(topic, "sim/coord/link/register"@),
        !text::has_prefix(topic, "sim/ch/"@),
        !text::has_prefix(topic, "sim/coord/done/"@),
    ensures
        frames::uds_event(node_id, topic, payload, delay_ns, link_name) is Nothing,
        frames::bus_event(topic, payload, delay_ns, link_name) is Nothing,
{
    let short = "sim/coord/link/register"@;
    let long = "sim/coord/link/register/"@;
    reveal_strlit("sim/coord/link/register");
    reveal_strlit("sim/coord/link/register/");
    if topic == short {
        assert(topic.subrange(0, short.len() as int) =~= short);
    }
    if text::has_prefix(topic, long) {
        text_laws::law_prefix_and_suffix(topic, long);
        assert(long.subrange(0, short.len() as int) =~= short);
        assert(topic.subrange(0, short.len() as int) =~= short);
    }
}

/// A routed message gives each of its targets one frame with its contents, in their order, on a
/// topic from which the link can be read again.
pub proof fn law_routed_message_reaches_each_target(
    targets: Seq<u32>,
    link_id: u32,
    delivery_vtime_ns: u64,
    sequence_number: u64,
    payload: Seq<u8>,
    nodes: Seq<u32>,
    over_bus: bool,
    k: int,
)
    requires
        payload.len() <= u32::MAX,
        0 <= k < targets.len(),
    ensures
        ({
            let sent = frames::outgoing(
                ActionView::RouteMessage {
                    target_nodes: targets,
                    link_id,
                    delivery_vtime_ns,
                    sequence_number,
                    payload,
                },
                nodes,
                over_bus,
            );
            &&& sent.len() == targets.len()
            &&& sent[k] is Frame
            &&& sent[k]->Frame_node_id == targets[k]
            &&& wire::le_at(sent[k]->frame, 0, 4) == link_id
            &&& wire::le_at(sent[k]->frame, 8, 8) == delivery_vtime_ns
            &&& wire::le_at(sent[k]->frame, 16, 8) == sequence_number
            &&& wire::le_at(sent[k]->frame, 24, 4) == payload.len()
            &&& sent[k]->frame.skip(28) == payload
            &&& text::split_on(sent[k]->Frame_topic, '/') == if over_bus {
                seq![
                    "sim"@,
                    "ch"@,
                    text::decimal(link_id as nat),
                    text::decimal(targets[k] as nat),
                ]
            } else {
                seq!["sim"@, "ch"@, text::decimal(link_id as nat)]
            }
        }),
{
    frames::law_delivery_frame_reads_back(
        link_id,
        0,
        delivery_vtime_ns,
        sequence_number,
        payload,
    );
    lemma_link_topics(link_id, targets[k]);
}

/// The start of a quantum is sent to each node, in order, on its own topic; an acknowledgement and
/// the end are sent once.
pub proof fn law_other_actions(
    quantum: u64,
    node_id: u32,
    link_id: u32,
    reason: Seq<char>,
    nodes: Seq<u32>,
    over_bus: bool,
)
    ensures
        ({
            let sent = frames::outgoing(
                ActionView::BroadcastClockStart { release_quantum: quantum },
                nodes,
                over_bus,
            );
            &&& sent.len() == nodes.len()
            &&& forall|i: int|
                0 <= i < nodes.len() ==> #[trigger] sent[i] == (OutgoingView::ClockStart {
                    node_id: nodes[i],
                    topic: "sim/clock/start/"@ + text::decimal(nodes[i] as nat),
                    quantum,
                })
        }),
        ({
            let sent = frames::outgoing(
                ActionView::SendLinkAck { node_id, link_id },
                nodes,
                over_bus,
            );
            &&& sent.len() == 1
            &&& sent[0] is LinkAck
            &&& sent[0]->LinkAck_node_id == node_id
            &&& sent[0]->link_id == link_id
            &&& sent[0]->LinkAck_topic == if over_bus {
                "sim/coord/link/ack/"@ + text::decimal(node_id as nat)
            } else {
                "sim/coord/link/ack"@
            }
        }),
        frames::outgoing(ActionView::AbortSimulation { reason }, nodes, over_bus) == seq![
            (OutgoingView::Abort { reason }),
        ],
{
}

proof fn lemma_numbered_links(
    links: Seq<NamedLinkView>,
    delay_ns: u64,
    i: int,
    table: Links,
    name: Seq<char>,
    k: int,
)
    requires
        0 <= i <= links.len() <= u32::MAX,
        coordination::names_distinct(table),
        -1 <= k < links.len(),
        k >= i ==> links[k].name == name,
        forall|j: int| i <= j < links.len() && j > k ==> (#[trigger] links[j]).name != name,
    ensures
        coordination::link_named(frames::numbered_links(links, delay_ns, i, table), name) == if k
            >= i {
            Some(
                LinkView { link_id: k as u32, target_nodes: links[k].nodes, delay_ns },
            )
        } else {
            coordination::link_named(table, name)
        },
    decreases links.len() - i,
{
    if i < links.len() {
        let link = LinkView { link_id: i as u32, target_nodes: links[i].nodes, delay_ns };
        coordination::law_link_table_is_a_map(table, links[i].name, link, name);
        lemma_numbered_links(
            links,
            delay_ns,
            i + 1,
            coordination::with_link(table, links[i].name, link),
            name,
            k,
        );
    }
}

/// In the configuration a name finds the last link that has it, with its place as its number, its
/// nodes and the delay; a name that no link has finds nothing.
pub proof fn law_config_holds_each_link(
    links: Seq<NamedLinkView>,
    delay_ns: u64,
    k: int,
    name: Seq<char>,
)
    requires
        links.len() <= u32::MAX,
        0 <= k < links.len(),
        forall|j: int| k < j < links.len() ==> (#[trigger] links[j]).name != links[k].name,
    ensures
        coordination::link_named(
            frames::numbered_links(links, delay_ns, 0, Seq::empty()),
            links[k].name,
        ) == Some(LinkView { link_id: k as u32, target_nodes: links[k].nodes, delay_ns }),
        (forall|j: int| 0 <= j < links.len() ==> (#[trigger] links[j]).name != name)
            ==> coordination::link_named(
            frames::numbered_links(links, delay_ns, 0, Seq::empty()),
            name,
        ) is None,
{
    lemma_numbered_links(links, delay_ns, 0, Seq::empty(), links[k].name, k);
    if forall|j: int| 0 <= j < links.len() ==> (#[trigger] links[j]).name != name {
        lemma_numbered_links(links, delay_ns, 0, Seq::empty(), name, -1);
    }
}

} // verus!
