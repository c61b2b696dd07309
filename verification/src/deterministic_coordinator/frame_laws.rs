//! What holds of reading what nodes send.
use vstd::prelude::*;

use crate::deterministic_coordinator::barrier::CoordMessageView;
use crate::deterministic_coordinator::frames;
use crate::deterministic_coordinator::frames::{
    CarriedView, DoneView, FrameHeader, RadioHeader, Readings,
};
use crate::deterministic_coordinator::topology;
use crate::deterministic_coordinator::topology::Protocol;
use crate::text;
use crate::text_laws;
use crate::wire;

verus! {

/// A message as a sender writes it into a batch.
pub open spec fn written_record(m: CoordMessageView) -> Seq<u8> {
    wire::le_bytes(m.src_node_id as nat, 4) + wire::le_bytes(m.dst_node_id as nat, 4)
        + wire::le_bytes(m.delivery_vtime_ns as nat, 8) + wire::le_bytes(
        m.sequence_number as nat,
        8,
    ) + seq![topology::protocol_rank(m.protocol) as u8] + wire::le_bytes(m.payload.len(), 4)
        + m.payload
}

/// Messages as a sender writes them, one behind the other.
pub open spec fn written_records(msgs: Seq<CoordMessageView>) -> Seq<u8>
    decreases msgs.len(),
{
    if msgs.len() == 0 {
        Seq::empty()
    } else {
        written_record(msgs[0]) + written_records(msgs.drop_first())
    }
}

/// The payloads fit their length fields.
pub open spec fn payloads_fit(msgs: Seq<CoordMessageView>) -> bool {
    forall|i: int| 0 <= i < msgs.len() ==> (#[trigger] msgs[i]).payload.len() <= u32::MAX
}

pub proof fn lemma_byte_ranges()
    ensures
        wire::byte_range(2) == 0x1_0000,
        wire::byte_range(4) == 0x1_0000_0000,
        wire::byte_range(8) == 0x1_0000_0000_0000_0000,
{
    reveal_with_fuel(wire::byte_range, 9);
}

/// A number that stands somewhere in a text of bytes is read from there.
pub proof fn lemma_number_in(front: Seq<u8>, v: nat, n: nat, back: Seq<u8>)
    requires
        v < wire::byte_range(n),
    ensures
        wire::le_at(front + wire::le_bytes(v, n) + back, front.len() as int, n as int) == v,
        wire::le_bytes(v, n).len() == n,
{
    wire::lemma_le_bytes_len(v, n);
    let all = front + wire::le_bytes(v, n) + back;
    assert(all.subrange(front.len() as int, (front.len() + n) as int) =~= wire::le_bytes(v, n));
    wire::law_le_round_trip(v, n);
}

proof fn lemma_one_record(m: CoordMessageView, rest: Seq<u8>)
    requires
        m.payload.len() <= u32::MAX,
    ensures
        ({
            let bytes = written_record(m) + rest;
            &&& written_record(m).len() == 29 + m.payload.len()
            &&& wire::le_at(bytes, 0, 4) == m.src_node_id
            &&& wire::le_at(bytes, 4, 4) == m.dst_node_id
            &&& wire::le_at(bytes, 8, 8) == m.delivery_vtime_ns
            &&& wire::le_at(bytes, 16, 8) == m.sequence_number
            &&& bytes[24] == topology::protocol_rank(m.protocol)
            &&& wire::le_at(bytes, 25, 4) == m.payload.len()
            &&& bytes.subrange(29, (29 + m.payload.len()) as int) == m.payload
            &&& bytes.skip((29 + m.payload.len()) as int) == rest
        }),
{
    let a = wire::le_bytes(m.src_node_id as nat, 4);
    let b = wire::le_bytes(m.dst_node_id as nat, 4);
    let c = wire::le_bytes(m.delivery_vtime_ns as nat, 8);
    let d = wire::le_bytes(m.sequence_number as nat, 8);
    let p = seq![topology::protocol_rank(m.protocol) as u8];
    let e = wire::le_bytes(m.payload.len(), 4);
    let bytes = written_record(m) + rest;
    wire::lemma_le_bytes_len(m.src_node_id as nat, 4);
    wire::lemma_le_bytes_len(m.dst_node_id as nat, 4);
    wire::lemma_le_bytes_len(m.delivery_vtime_ns as nat, 8);
    wire::lemma_le_bytes_len(m.sequence_number as nat, 8);
    wire::lemma_le_bytes_len(m.payload.len(), 4);
    assert(bytes.subrange(0, 4) =~= a);
    assert(bytes.subrange(4, 8) =~= b);
    assert(bytes.subrange(8, 16) =~= c);
    assert(bytes.subrange(16, 24) =~= d);
    assert(bytes[24] == p[0]);
    assert(bytes.subrange(25, 29) =~= e);
    assert(bytes.subrange(29, (29 + m.payload.len()) as int) =~= m.payload);
    assert(bytes.skip((29 + m.payload.len()) as int) =~= rest);
    lemma_byte_ranges();
    wire::law_le_round_trip(m.src_node_id as nat, 4);
    wire::law_le_round_trip(m.dst_node_id as nat, 4);
    wire::law_le_round_trip(m.delivery_vtime_ns as nat, 8);
    wire::law_le_round_trip(m.sequence_number as nat, 8);
    wire::law_le_round_trip(m.payload.len(), 4);
}

proof fn lemma_records_read_back(
    msgs: Seq<CoordMessageView>,
    rest: Seq<u8>,
    n: nat,
    found: Seq<CoordMessageView>,
)
    requires
        payloads_fit(msgs),
        n >= msgs.len(),
        n == msgs.len() || rest.len() < 29,
    ensures
        frames::records(written_records(msgs) + rest, n, found) == found + msgs,
    decreases msgs.len(),
{
    let bytes = written_records(msgs) + rest;
    if msgs.len() == 0 {
        assert(bytes =~= rest);
        assert(found + msgs =~= found);
    } else {
        let m = msgs[0];
        let more = msgs.drop_first();
        let behind = written_records(more) + rest;
        assert(bytes =~= written_record(m) + behind);
        lemma_one_record(m, behind);
        frames::law_protocol_round_trip(m.protocol);
        assert forall|i: int| 0 <= i < more.len() implies (#[trigger] more[i]).payload.len()
            <= u32::MAX by {
            assert(more[i] == msgs[i + 1]);
        }
        lemma_records_read_back(more, rest, (n - 1) as nat, found.push(m));
        assert(found.push(m) + more =~= found + msgs);
    }
}

/// A batch gives back the messages that were written into it, each of them and in order, whatever
/// stands behind the last.
pub proof fn law_batch_reads_back(msgs: Seq<CoordMessageView>, rest: Seq<u8>)
    requires
        msgs.len() <= u32::MAX,
        payloads_fit(msgs),
    ensures
        frames::batch_messages(
            wire::le_bytes(msgs.len(), 4) + written_records(msgs) + rest,
        ) == msgs,
{
    let count = wire::le_bytes(msgs.len(), 4);
    let bytes = count + written_records(msgs) + rest;
    lemma_byte_ranges();
    lemma_number_in(Seq::empty(), msgs.len(), 4, written_records(msgs) + rest);
    assert(Seq::<u8>::empty() + count + (written_records(msgs) + rest) =~= bytes);
    assert(bytes.skip(4) =~= written_records(msgs) + rest);
    lemma_records_read_back(msgs, rest, msgs.len(), Seq::empty());
    assert(Seq::<CoordMessageView>::empty() + msgs =~= msgs);
}

/// A batch that announces more messages than it holds gives those that it holds: what is left
/// over is too short for a record.
pub proof fn law_short_batch_gives_what_it_holds(
    msgs: Seq<CoordMessageView>,
    count: u32,
    rest: Seq<u8>,
)
    requires
        msgs.len() <= count,
        payloads_fit(msgs),
        rest.len() < 29,
    ensures
        frames::batch_messages(
            wire::le_bytes(count as nat, 4) + written_records(msgs) + rest,
        ) == msgs,
{
    let head = wire::le_bytes(count as nat, 4);
    let bytes = head + written_records(msgs) + rest;
    lemma_byte_ranges();
    lemma_number_in(Seq::empty(), count as nat, 4, written_records(msgs) + rest);
    assert(Seq::<u8>::empty() + head + (written_records(msgs) + rest) =~= bytes);
    assert(bytes.skip(4) =~= written_records(msgs) + rest);
    lemma_records_read_back(msgs, rest, count as nat, Seq::empty());
    assert(Seq::<CoordMessageView>::empty() + msgs =~= msgs);
}

/// A record whose payload is cut off ends a batch: the messages in front of it are kept.
pub proof fn law_cut_record_ends_batch(
    msgs: Seq<CoordMessageView>,
    cut: CoordMessageView,
    keep: int,
    count: u32,
)
    requires
        msgs.len() < count,
        payloads_fit(msgs),
        cut.payload.len() <= u32::MAX,
        0 <= keep < 29 + cut.payload.len(),
    ensures
        frames::batch_messages(
            wire::le_bytes(count as nat, 4) + written_records(msgs) + written_record(cut).take(
                keep,
            ),
        ) == msgs,
{
    let head = wire::le_bytes(count as nat, 4);
    let rest = written_record(cut).take(keep);
    let bytes = head + written_records(msgs) + rest;
    lemma_byte_ranges();
    lemma_number_in(Seq::empty(), count as nat, 4, written_records(msgs) + rest);
    assert(Seq::<u8>::empty() + head + (written_records(msgs) + rest) =~= bytes);
    assert(bytes.skip(4) =~= written_records(msgs) + rest);
    lemma_one_record(cut, Seq::empty());
    lemma_cut_record(msgs, cut, keep, count as nat, Seq::empty());
    assert(Seq::<CoordMessageView>::empty() + msgs =~= msgs);
}

proof fn lemma_cut_record(
    msgs: Seq<CoordMessageView>,
    cut: CoordMessageView,
    keep: int,
    n: nat,
    found: Seq<CoordMessageView>,
)
    requires
        msgs.len() < n,
        payloads_fit(msgs),
        cut.payload.len() <= u32::MAX,
        0 <= keep < 29 + cut.payload.len(),
    ensures
        frames::records(
            written_records(msgs) + written_record(cut).take(keep),
            n,
            found,
        ) == found + msgs,
    decreases msgs.len(),
{
    let whole = written_record(cut);
    let rest = whole.take(keep);
    let bytes = written_records(msgs) + rest;
    if msgs.len() == 0 {
        lemma_one_record(cut, Seq::empty());
        assert(whole + Seq::<u8>::empty() =~= whole);
        assert(bytes =~= rest);
        assert(found + msgs =~= found);
        if keep >= 29 {
            assert(rest.subrange(25, 29) =~= whole.subrange(25, 29));
        }
    } else {
        let m = msgs[0];
        let more = msgs.drop_first();
        let behind = written_records(more) + rest;
        assert(bytes =~= written_record(m) + behind);
        lemma_one_record(m, behind);
        frames::law_protocol_round_trip(m.protocol);
        assert forall|i: int| 0 <= i < more.len() implies (#[trigger] more[i]).payload.len()
            <= u32::MAX by {
            assert(more[i] == msgs[i + 1]);
        }
        lemma_cut_record(more, cut, keep, (n - 1) as nat, found.push(m));
        assert(found.push(m) + more =~= found + msgs);
    }
}

/// Each protocol has a number of its own below ten, and every other number stands for Ethernet.
pub proof fn law_protocol_numbers(p: Protocol, q: Protocol, n: u8)
    ensures
        0 <= topology::protocol_rank(p) < 10,
        topology::protocol_rank(p) == topology::protocol_rank(q) ==> p == q,
        n < 10 ==> topology::protocol_rank(frames::protocol_of(n)) == n,
        n >= 10 ==> frames::protocol_of(n) == Protocol::Ethernet,
{
}

/// What a node says when it is done with a quantum is read as it was written: the quantum, the
/// limit and the messages.
pub proof fn law_done_reads_back(quantum: u64, vtime_limit: u64, msgs: Seq<CoordMessageView>)
    requires
        msgs.len() <= u32::MAX,
        payloads_fit(msgs),
    ensures
        ({
            let q = wire::le_bytes(quantum as nat, 8);
            let l = wire::le_bytes(vtime_limit as nat, 8);
            let batch = wire::le_bytes(msgs.len(), 4) + written_records(msgs);
            &&& frames::plain_done(q) == (DoneView {
                quantum,
                vtime_limit: u64::MAX,
                messages: Seq::empty(),
            })
            &&& frames::plain_done(q + l) == (DoneView {
                quantum,
                vtime_limit,
                messages: Seq::empty(),
            })
            &&& frames::plain_done(q + l + batch) == (DoneView {
                quantum,
                vtime_limit,
                messages: msgs,
            })
        }),
{
    let q = wire::le_bytes(quantum as nat, 8);
    let l = wire::le_bytes(vtime_limit as nat, 8);
    let batch = wire::le_bytes(msgs.len(), 4) + written_records(msgs);
    lemma_byte_ranges();
    lemma_number_in(Seq::empty(), quantum as nat, 8, Seq::empty());
    assert(Seq::<u8>::empty() + q + Seq::<u8>::empty() =~= q);
    lemma_number_in(Seq::empty(), quantum as nat, 8, l);
    assert(Seq::<u8>::empty() + q + l =~= q + l);
    lemma_number_in(q, vtime_limit as nat, 8, Seq::empty());
    assert(q + l + Seq::<u8>::empty() =~= q + l);
    lemma_number_in(Seq::empty(), quantum as nat, 8, l + batch);
    assert(Seq::<u8>::empty() + q + (l + batch) =~= q + l + batch);
    lemma_number_in(q, vtime_limit as nat, 8, batch);
    wire::lemma_le_bytes_len(msgs.len(), 4);
    assert((q + l + batch).skip(16) =~= batch);
    law_batch_reads_back(msgs, Seq::empty());
    assert(batch + Seq::<u8>::empty() =~= batch);
}

/// A quantum with a limit that is cut off has no limit and brings no messages.
pub proof fn law_done_with_cut_limit(quantum: u64, cut: Seq<u8>)
    requires
        cut.len() < 8,
    ensures
        frames::plain_done(wire::le_bytes(quantum as nat, 8) + cut) == (DoneView {
            quantum,
            vtime_limit: u64::MAX,
            messages: Seq::empty(),
        }),
{
    let q = wire::le_bytes(quantum as nat, 8);
    lemma_byte_ranges();
    lemma_number_in(Seq::empty(), quantum as nat, 8, cut);
    assert(Seq::<u8>::empty() + q + cut =~= q + cut);
    assert((q + cut).skip(8) =~= cut);
}

/// Less than a quantum is no limit at all and brings no messages.
pub proof fn law_done_without_quantum(payload: Seq<u8>)
    requires
        payload.len() < 8,
    ensures
        frames::plain_done(payload) == (DoneView {
            quantum: u64::MAX,
            vtime_limit: u64::MAX,
            messages: Seq::empty(),
        }),
{
}

/// The words by which topics name a protocol.
pub open spec fn protocol_words() -> Seq<(Seq<char>, Protocol)> {
    seq![
        ("eth"@, Protocol::Ethernet),
        ("uart"@, Protocol::Uart),
        ("can"@, Protocol::CanFd),
        ("lin"@, Protocol::Lin),
        ("spi"@, Protocol::Spi),
        ("rf/hci"@, Protocol::RfHci),
        ("rf"@, Protocol::Rf802154),
        ("reference_bus"@, Protocol::ReferenceLink),
        ("chardev"@, Protocol::ReferenceLink),
    ]
}

/// Of the words that name a protocol, the first in their order that a topic holds decides; a topic
/// that holds none is about Ethernet.
pub proof fn law_topic_protocol(topic: Seq<char>, k: int)
    requires
        0 <= k <= protocol_words().len(),
        forall|j: int|
            0 <= j < k ==> !text::occurs(topic, #[trigger] protocol_words()[j].0),
        k < protocol_words().len() ==> text::occurs(topic, protocol_words()[k].0),
    ensures
        frames::topic_protocol(topic) == if k < protocol_words().len() {
            protocol_words()[k].1
        } else {
            Protocol::Ethernet
        },
{
    let words = protocol_words();
    assert(k > 0 ==> !text::occurs(topic, words[0].0));
    assert(k > 1 ==> !text::occurs(topic, words[1].0));
    assert(k > 2 ==> !text::occurs(topic, words[2].0));
    assert(k > 3 ==> !text::occurs(topic, words[3].0));
    assert(k > 4 ==> !text::occurs(topic, words[4].0));
    assert(k > 5 ==> !text::occurs(topic, words[5].0));
    assert(k > 6 ==> !text::occurs(topic, words[6].0));
    assert(k > 7 ==> !text::occurs(topic, words[7].0));
    assert(k > 8 ==> !text::occurs(topic, words[8].0));
}

/// The topic of a transmission names the base, the node and a last part, in this order, with any
/// base and any last part that is one part.
pub proof fn law_tx_topic_reads_back(base: Seq<char>, node_id: u32, last: Seq<char>)
    requires
        text_laws::lacks(last, '/'),
    ensures
        ({
            let topic = base + seq!['/'] + text::decimal(node_id as nat) + seq!['/'] + last;
            &&& frames::tx_topic(topic) matches Some(t)
            &&& t.node_id == node_id
            &&& t.base == base
            &&& t.protocol == frames::topic_protocol(topic)
        }),
{
    let id = text::decimal(node_id as nat);
    let topic = base + seq!['/'] + id + seq!['/'] + last;
    lemma_decimal_is_one_part(node_id as nat);
    text_laws::law_split_of_one(last, '/');
    text_laws::law_split_of_more(id, '/', last);
    text_laws::lemma_split_concat(base, '/', id + seq!['/'] + last);
    assert(topic =~= base + seq!['/'] + (id + seq!['/'] + last));
    let front = text::split_on(base, '/');
    let parts = text::split_on(topic, '/');
    assert(parts =~= front + seq![id, last]);
    assert(parts[parts.len() - 2] == id);
    assert(parts.take(parts.len() - 2) =~= front);
    text::law_decimal_reads_back(node_id as nat, u32::MAX as nat);
    reveal_strlit("/");
    assert("/"@ =~= seq!['/']);
    text_laws::law_join_of_split(base, '/');
}

/// A number in decimal holds no slash.
pub proof fn lemma_decimal_is_one_part(n: nat)
    ensures
        text_laws::lacks(text::decimal(n), '/'),
{
    text_laws::law_decimal_digits(n);
    let d = text::decimal(n);
    assert forall|i: int| 0 <= i < d.len() implies #[trigger] d[i] != '/' by {
        assert(48 <= d[i] as u32);
    }
}

/// A topic in which the part before the last is no number, or that has one part only, tells
/// nothing.
pub proof fn law_tx_topic_without_node(base: Seq<char>, part: Seq<char>, last: Seq<char>)
    requires
        text_laws::lacks(part, '/'),
        text_laws::lacks(last, '/'),
        text::parsed_unsigned(part, u32::MAX as nat) is None,
    ensures
        frames::tx_topic(base + seq!['/'] + part + seq!['/'] + last) is None,
        frames::tx_topic(last) is None,
{
    text_laws::law_split_of_one(last, '/');
    text_laws::law_split_of_more(part, '/', last);
    text_laws::lemma_split_concat(base, '/', part + seq!['/'] + last);
    let topic = base + seq!['/'] + part + seq!['/'] + last;
    assert(topic =~= base + seq!['/'] + (part + seq!['/'] + last));
    let parts = text::split_on(topic, '/');
    assert(parts =~= text::split_on(base, '/') + seq![part, last]);
}

/// The node that says that it is done is read from the part that holds its number.
pub proof fn law_done_topic_reads_back(
    a: Seq<char>,
    b: Seq<char>,
    node_id: u32,
    c: Seq<char>,
)
    requires
        text_laws::lacks(a, '/'),
        text_laws::lacks(b, '/'),
    ensures
        frames::done_node(
            a + seq!['/'] + (b + seq!['/'] + (text::decimal(node_id as nat) + seq!['/'] + c)),
            2,
        ) == Some(node_id),
        text_laws::lacks(c, '/') ==> frames::done_node(
            a + seq!['/'] + (b + seq!['/'] + (c + seq!['/'] + text::decimal(node_id as nat))),
            3,
        ) == Some(node_id),
        frames::done_node(
            a + seq!['/'] + (b + seq!['/'] + text::decimal(node_id as nat)),
            2,
        ) is None,
{
    let id = text::decimal(node_id as nat);
    lemma_decimal_is_one_part(node_id as nat);
    text::law_decimal_reads_back(node_id as nat, u32::MAX as nat);
    text_laws::lemma_split_is_not_empty(c, '/');
    text_laws::law_split_of_more(id, '/', c);
    text_laws::law_split_of_more(b, '/', id + seq!['/'] + c);
    text_laws::law_split_of_more(a, '/', b + seq!['/'] + (id + seq!['/'] + c));
    let parts = text::split_on(a + seq!['/'] + (b + seq!['/'] + (id + seq!['/'] + c)), '/');
    assert(parts[2] == id);
    text_laws::law_split_of_one(id, '/');
    text_laws::law_split_of_more(b, '/', id);
    text_laws::law_split_of_more(a, '/', b + seq!['/'] + id);
    if text_laws::lacks(c, '/') {
        text_laws::law_split_of_more(c, '/', id);
        text_laws::law_split_of_more(b, '/', c + seq!['/'] + id);
        text_laws::law_split_of_more(a, '/', b + seq!['/'] + (c + seq!['/'] + id));
        let others = text::split_on(a + seq!['/'] + (b + seq!['/'] + (c + seq!['/'] + id)), '/');
        assert(others[3] == id);
    }
}

/// A frame carries exactly the bytes behind its header that the header announces, with the time
/// and the number of the header; without them it carries nothing over the bus, whatever the
/// protocol, unless it is a radio frame.
pub proof fn law_framed_payload_is_carried(
    protocol: Protocol,
    head: Seq<u8>,
    data: Seq<u8>,
    rest: Seq<u8>,
    r: Readings,
    h: FrameHeader,
)
    requires
        protocol != Protocol::Rf802154,
        r.frame == Some(h),
        data.len() == h.size,
    ensures
        frames::bus_carried(protocol, head + data + rest, r, head.len()) == Some(
            (CarriedView {
                vtime_ns: h.delivery_vtime_ns,
                sequence_number: h.sequence_number,
                data,
            }),
        ),
        r.message is None ==> frames::socket_carried(
            protocol,
            head + data + rest,
            r,
            head.len(),
        ) == Some(
            (CarriedView {
                vtime_ns: h.delivery_vtime_ns,
                sequence_number: h.sequence_number,
                data,
            }),
        ),
        h.size > 0 ==> frames::bus_carried(protocol, head, r, head.len()) is None,
{
    assert((head + data + rest).subrange(head.len() as int, (head.len() + data.len()) as int) =~= data);
}

/// A radio frame carries what stands behind its header, with the time and the number of the
/// header, on the radio only. Over a socket this is so where no frame header was read.
pub proof fn law_radio_payload_is_carried(
    head: Seq<u8>,
    data: Seq<u8>,
    r: Readings,
    h: RadioHeader,
    header_size: nat,
)
    requires
        0 < head.len() <= 1024,
        r.radio == Some(h),
    ensures
        ({
            let payload = wire::le_bytes(head.len(), 4) + head + data;
            let expected = Some(
                (CarriedView {
                    vtime_ns: h.delivery_vtime_ns,
                    sequence_number: h.sequence_number,
                    data,
                }),
            );
            &&& frames::radio_header_size(payload) == Some(head.len())
            &&& payload.subrange(4, (4 + head.len()) as int) == head
            &&& frames::bus_carried(Protocol::Rf802154, payload, r, header_size) == expected
            &&& r.message is None && r.frame is None ==> frames::socket_carried(
                Protocol::Rf802154,
                payload,
                r,
                header_size,
            ) == expected
        }),
{
    let size = wire::le_bytes(head.len(), 4);
    let payload = size + head + data;
    lemma_byte_ranges();
    lemma_number_in(Seq::empty(), head.len(), 4, head + data);
    assert(Seq::<u8>::empty() + size + (head + data) =~= payload);
    assert(payload.subrange(4, (4 + head.len()) as int) =~= head);
    assert(payload.skip((4 + head.len()) as int) =~= data);
}

/// A size of a radio header that is zero, too great or beyond the payload is none.
pub proof fn law_bad_radio_header(size: u32, behind: Seq<u8>)
    requires
        size == 0 || size > 1024 || behind.len() < size,
    ensures
        frames::radio_header_size(wire::le_bytes(size as nat, 4) + behind) is None,
{
    let head = wire::le_bytes(size as nat, 4);
    lemma_byte_ranges();
    lemma_number_in(Seq::empty(), size as nat, 4, behind);
    assert(Seq::<u8>::empty() + head + behind =~= head + behind);
}

/// Without a header, LIN, CAN FD and FlexRay carry the payload as it is, a LIN frame at its time
/// and the others at time zero; no other protocol carries anything.
pub proof fn law_raw_payload_is_carried(
    protocol: Protocol,
    payload: Seq<u8>,
    r: Readings,
    header_size: nat,
)
    requires
        r.message is None,
        r.frame is None,
        r.radio is None,
    ensures
        ({
            let on_bus = frames::bus_carried(protocol, payload, r, header_size);
            let on_socket = frames::socket_carried(protocol, payload, r, header_size);
            &&& on_bus == on_socket
            &&& on_bus is Some <==> (protocol == Protocol::Lin || protocol == Protocol::CanFd
                || protocol == Protocol::FlexRay)
            &&& on_bus is Some ==> on_bus->0.data == payload && on_bus->0.sequence_number == 0
            &&& protocol == Protocol::Lin && r.lin_vtime_ns is Some ==> on_bus->0.vtime_ns
                == r.lin_vtime_ns->0
            &&& protocol == Protocol::Lin && r.lin_vtime_ns is None ==> on_bus->0.vtime_ns == 0
            &&& protocol == Protocol::CanFd ==> on_bus->0.vtime_ns == 0
            &&& protocol == Protocol::FlexRay ==> on_bus->0.vtime_ns == 0
        }),
{
}

/// Over a socket, a coordinator message goes before all else.
pub proof fn law_message_goes_first(
    protocol: Protocol,
    payload: Seq<u8>,
    r: Readings,
    header_size: nat,
)
    requires
        r.message is Some,
    ensures
        frames::socket_carried(protocol, payload, r, header_size) == Some(r.message->0@),
{
}

/// From a frame for a socket the topic and the payload can be read back.
pub proof fn law_socket_frame_reads_back(topic: Seq<char>, payload: Seq<u8>)
    requires
        vstd::utf8::encode_utf8(topic).len() <= u32::MAX,
        payload.len() <= u32::MAX,
    ensures
        ({
            let frame = frames::framed(topic, payload);
            let n = wire::le_at(frame, 0, 4) as int;
            let m = wire::le_at(frame, 4 + n, 4) as int;
            &&& frame.len() == 8 + n + m
            &&& vstd::utf8::decode_utf8(frame.subrange(4, 4 + n)) == topic
            &&& frame.skip(8 + n) == payload
        }),
{
    let t = vstd::utf8::encode_utf8(topic);
    let a = wire::le_bytes(t.len(), 4);
    let b = wire::le_bytes(payload.len(), 4);
    let frame = frames::framed(topic, payload);
    lemma_byte_ranges();
    lemma_number_in(Seq::empty(), t.len(), 4, t + b + payload);
    assert(Seq::<u8>::empty() + a + (t + b + payload) =~= frame);
    lemma_number_in(a + t, payload.len(), 4, payload);
    assert((a + t) + b + payload =~= frame);
    assert(frame.subrange(4, (4 + t.len()) as int) =~= t);
    assert(frame.skip((8 + t.len()) as int) =~= payload);
    vstd::utf8::encode_utf8_decode_utf8(topic);
}

} // verus!
