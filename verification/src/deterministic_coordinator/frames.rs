//! Reading what nodes send: topics, frames and batches of messages.
use vstd::prelude::*;

use crate::deterministic_coordinator::barrier::{CoordMessage, CoordMessageView};
use crate::deterministic_coordinator::topology::Protocol;
use crate::sorting;
use crate::text;
use crate::text::{contains_text, join_text, parse_unsigned, split_text};
use crate::wire;
use crate::wire::{copy_range, push_bytes, push_le, u32_at, u64_at};

verus! {

/// The protocol that a number stands for.
pub open spec fn protocol_of(p: u8) -> Protocol {
    if p == 1 {
        Protocol::Uart
    } else if p == 2 {
        Protocol::Spi
    } else if p == 3 {
        Protocol::CanFd
    } else if p == 4 {
        Protocol::FlexRay
    } else if p == 5 {
        Protocol::Lin
    } else if p == 6 {
        Protocol::Rf802154
    } else if p == 7 {
        Protocol::RfHci
    } else if p == 8 {
        Protocol::Control
    } else if p == 9 {
        Protocol::ReferenceLink
    } else {
        Protocol::Ethernet
    }
}

/// The protocol that a number stands for; a number that stands for none is Ethernet.
pub fn parse_protocol(p: u8) -> (r: Protocol)
    ensures
        r == protocol_of(p),
{
    match p {
        0 => Protocol::Ethernet,
        1 => Protocol::Uart,
        2 => Protocol::Spi,
        3 => Protocol::CanFd,
        4 => Protocol::FlexRay,
        5 => Protocol::Lin,
        6 => Protocol::Rf802154,
        7 => Protocol::RfHci,
        8 => Protocol::Control,
        9 => Protocol::ReferenceLink,
        _ => Protocol::Ethernet,
    }
}

/// The number of a protocol.
pub fn serialize_protocol(p: &Protocol) -> (r: u8)
    ensures
        r == crate::deterministic_coordinator::topology::protocol_rank(*p),
{
    match p {
        Protocol::Ethernet => 0,
        Protocol::Uart => 1,
        Protocol::Spi => 2,
        Protocol::CanFd => 3,
        Protocol::FlexRay => 4,
        Protocol::Lin => 5,
        Protocol::Rf802154 => 6,
        Protocol::RfHci => 7,
        Protocol::Control => 8,
        Protocol::ReferenceLink => 9,
    }
}

/// Reading the number of a protocol gives the protocol back.
pub proof fn law_protocol_round_trip(p: Protocol)
    ensures
        protocol_of(
            crate::deterministic_coordinator::topology::protocol_rank(p) as u8,
        ) == p,
{
}

/// The bytes of a record before its payload.
pub const RECORD_HEADER: usize = 29;

/// The messages of the first `n` records of `bytes`, behind `found`; the first record that is cut
/// off ends them.
pub open spec fn records(bytes: Seq<u8>, n: nat, found: Seq<CoordMessageView>) -> Seq<
    CoordMessageView,
>
    decreases n,
{
    if n == 0 || bytes.len() < 29 {
        found
    } else {
        let size = wire::le_at(bytes, 25, 4);
        if bytes.len() < 29 + size {
            found
        } else {
            records(
                bytes.skip(29 + size as int),
                (n - 1) as nat,
                found.push(
                    CoordMessageView {
                        src_node_id: wire::le_at(bytes, 0, 4) as u32,
                        dst_node_id: wire::le_at(bytes, 4, 4) as u32,
                        delivery_vtime_ns: wire::le_at(bytes, 8, 8) as u64,
                        sequence_number: wire::le_at(bytes, 16, 8) as u64,
                        protocol: protocol_of(bytes[24]),
                        payload: bytes.subrange(29, 29 + size as int),
                    },
                ),
            )
        }
    }
}

/// The messages of a batch: a count, then that many records.
pub open spec fn batch_messages(bytes: Seq<u8>) -> Seq<CoordMessageView> {
    if bytes.len() < 4 {
        Seq::empty()
    } else {
        records(bytes.skip(4), wire::le_at(bytes, 0, 4), Seq::empty())
    }
}

proof fn lemma_le_at_skip(bytes: Seq<u8>, base: int, at: int, n: int)
    requires
        0 <= base,
        0 <= at,
        0 <= n,
        base + at + n <= bytes.len(),
    ensures
        wire::le_at(bytes.skip(base), at, n) == wire::le_at(bytes, base + at, n),
{
    assert(bytes.skip(base).subrange(at, at + n) =~= bytes.subrange(base + at, base + at + n));
}

/// Reads the messages of a batch.
pub fn decode_batch(payload: &[u8]) -> (msgs: Vec<CoordMessage>)
    ensures
        sorting::views(msgs@) == batch_messages(payload@),
{
    let mut msgs: Vec<CoordMessage> = Vec::new();
    proof {
        assert(sorting::views(msgs@) =~= Seq::empty());
    }
    let total: usize = payload.len();
    if total < 4 {
        return msgs;
    }
    let mut left: u32 = u32_at(payload, 0);
    let mut at: usize = 4;
    while left > 0
        invariant
            4 <= at <= total == payload@.len(),
            batch_messages(payload@) == records(
                payload@.skip(at as int),
                left as nat,
                sorting::views(msgs@),
            ),
        decreases left,
    {
        let ghost rest = payload@.skip(at as int);
        if total - at < RECORD_HEADER {
            return msgs;
        }
        proof {
            lemma_le_at_skip(payload@, at as int, 0, 4);
            lemma_le_at_skip(payload@, at as int, 4, 4);
            lemma_le_at_skip(payload@, at as int, 8, 8);
            lemma_le_at_skip(payload@, at as int, 16, 8);
            lemma_le_at_skip(payload@, at as int, 25, 4);
            assert(rest[24] == payload@[at + 24]);
        }
        let src_node_id: u32 = u32_at(payload, at);
        let dst_node_id: u32 = u32_at(payload, at + 4);
        let delivery_vtime_ns: u64 = u64_at(payload, at + 8);
        let sequence_number: u64 = u64_at(payload, at + 16);
        let protocol = parse_protocol(payload[at + 24]);
        let size: u32 = u32_at(payload, at + 25);
        let data_at: usize = at + RECORD_HEADER;
        if total - data_at < size as usize {
            return msgs;
        }
        let end: usize = data_at + size as usize;
        let data = copy_range(payload, data_at, end);
        proof {
            assert(data@ =~= rest.subrange(29, 29 + size as int));
            assert(rest.skip(29 + size as int) =~= payload@.skip(end as int));
        }
        let ghost before = sorting::views(msgs@);
        let message = CoordMessage {
            delivery_vtime_ns,
            src_node_id,
            dst_node_id,
            sequence_number,
            protocol,
            payload: data,
        };
        let ghost message_view = message@;
        msgs.push(message);
        proof {
            assert(sorting::views(msgs@) =~= before.push(message_view));
        }
        at = end;
        left -= 1;
    }
    msgs
}

/// The protocol that a topic is about.
pub open spec fn topic_protocol(topic: Seq<char>) -> Protocol {
    if text::occurs(topic, "eth"@) {
        Protocol::Ethernet
    } else if text::occurs(topic, "uart"@) {
        Protocol::Uart
    } else if text::occurs(topic, "can"@) {
        Protocol::CanFd
    } else if text::occurs(topic, "lin"@) {
        Protocol::Lin
    } else if text::occurs(topic, "spi"@) {
        Protocol::Spi
    } else if text::occurs(topic, "rf/hci"@) {
        Protocol::RfHci
    } else if text::occurs(topic, "rf"@) {
        Protocol::Rf802154
    } else if text::occurs(topic, "reference_bus"@) || text::occurs(topic, "chardev"@) {
        Protocol::ReferenceLink
    } else {
        Protocol::Ethernet
    }
}

/// The protocol that a topic is about.
pub fn protocol_of_topic(topic: &str) -> (p: Protocol)
    ensures
        p == topic_protocol(topic@),
{
    if contains_text(topic, "eth") {
        Protocol::Ethernet
    } else if contains_text(topic, "uart") {
        Protocol::Uart
    } else if contains_text(topic, "can") {
        Protocol::CanFd
    } else if contains_text(topic, "lin") {
        Protocol::Lin
    } else if contains_text(topic, "spi") {
        Protocol::Spi
    } else if contains_text(topic, "rf/hci") {
        Protocol::RfHci
    } else if contains_text(topic, "rf") {
        Protocol::Rf802154
    } else if contains_text(topic, "reference_bus") || contains_text(topic, "chardev") {
        Protocol::ReferenceLink
    } else {
        Protocol::Ethernet
    }
}

/// What the topic of a transmission tells: the node is the part before the last.
#[derive(Debug, PartialEq, Eq)]
pub struct TxTopic {
    pub node_id: u32,
    pub protocol: Protocol,
    /// The parts before the node.
    pub base: String,
}

#[verifier::ext_equal]
pub struct TxTopicView {
    pub node_id: u32,
    pub protocol: Protocol,
    pub base: Seq<char>,
}

impl View for TxTopic {
    type V = TxTopicView;

    open spec fn view(&self) -> TxTopicView {
        TxTopicView { node_id: self.node_id, protocol: self.protocol, base: self.base@ }
    }
}

/// What the topic of a transmission tells.
pub open spec fn tx_topic(topic: Seq<char>) -> Option<TxTopicView> {
    let parts = text::split_on(topic, '/');
    if parts.len() < 2 {
        None
    } else {
        match text::parsed_unsigned(parts[parts.len() - 2], u32::MAX as nat) {
            None => None,
            Some(n) => Some(
                TxTopicView {
                    node_id: n as u32,
                    protocol: topic_protocol(topic),
                    base: text::join_seq(parts.take(parts.len() - 2), "/"@),
                },
            ),
        }
    }
}

/// Reads the topic of a transmission.
pub fn parse_tx_topic(topic: &str) -> (r: Option<TxTopic>)
    ensures
        match r {
            Some(t) => tx_topic(topic@) == Some(t@),
            None => tx_topic(topic@) is None,
        },
{
    let parts = split_text(topic, '/');
    let ghost pieces = sorting::views(parts@);
    if parts.len() < 2 {
        return None;
    }
    proof {
        assert(pieces[pieces.len() - 2] == parts@[parts@.len() - 2]@);
    }
    match parse_unsigned(parts[parts.len() - 2].as_str(), u32::MAX as u64) {
        None => None,
        Some(n) => Some(
            TxTopic {
                node_id: n as u32,
                protocol: protocol_of_topic(topic),
                base: join_text(&parts, parts.len() - 2, "/"),
            },
        ),
    }
}

/// The node that the part at `index` of a topic with at least four parts names.
pub open spec fn done_node(topic: Seq<char>, index: int) -> Option<u32> {
    let parts = text::split_on(topic, '/');
    if parts.len() < 4 || index < 0 || index >= 4 {
        None
    } else {
        match text::parsed_unsigned(parts[index], u32::MAX as nat) {
            Some(n) => Some(n as u32),
            None => None,
        }
    }
}

/// The node that says on `topic` that it is done, where its number is the part at `index`.
pub fn parse_done_topic(topic: &str, index: usize) -> (r: Option<u32>)
    ensures
        r == done_node(topic@, index as int),
{
    let parts = split_text(topic, '/');
    let ghost pieces = sorting::views(parts@);
    if parts.len() < 4 || index >= 4 {
        return None;
    }
    proof {
        assert(pieces[index as int] == parts@[index as int]@);
    }
    match parse_unsigned(parts[index].as_str(), u32::MAX as u64) {
        Some(n) => Some(n as u32),
        None => None,
    }
}

/// What a node says when it is done with a quantum.
#[derive(Debug, PartialEq, Eq)]
pub struct Done {
    pub quantum: u64,
    pub vtime_limit: u64,
    pub messages: Vec<CoordMessage>,
}

#[verifier::ext_equal]
pub struct DoneView {
    pub quantum: u64,
    pub vtime_limit: u64,
    pub messages: Seq<CoordMessageView>,
}

impl View for Done {
    type V = DoneView;

    open spec fn view(&self) -> DoneView {
        DoneView {
            quantum: self.quantum,
            vtime_limit: self.vtime_limit,
            messages: sorting::views(self.messages@),
        }
    }
}

/// What the plain form says: a quantum, then perhaps a time limit, then perhaps a batch. What is
/// left out is as great as can be.
pub open spec fn plain_done(payload: Seq<u8>) -> DoneView {
    let n = payload.len();
    DoneView {
        quantum: if n >= 8 {
            wire::le_at(payload, 0, 8) as u64
        } else {
            u64::MAX
        },
        vtime_limit: if n >= 16 {
            wire::le_at(payload, 8, 8) as u64
        } else {
            u64::MAX
        },
        messages: if n > 16 {
            batch_messages(payload.skip(16))
        } else if 8 < n < 16 {
            batch_messages(payload.skip(8))
        } else {
            Seq::empty()
        },
    }
}

/// Whether a payload can only be of the plain form.
pub fn is_plain_done(payload: &[u8]) -> (r: bool)
    ensures
        r == (payload@.len() == 8 || payload@.len() == 16),
{
    payload.len() == 8 || payload.len() == 16
}

/// Reads the plain form.
pub fn parse_plain_done(payload: &[u8]) -> (done: Done)
    ensures
        done@ == plain_done(payload@),
{
    let n: usize = payload.len();
    let mut quantum: u64 = u64::MAX;
    let mut vtime_limit: u64 = u64::MAX;
    let mut messages: Vec<CoordMessage> = Vec::new();
    proof {
        assert(sorting::views(messages@) =~= Seq::empty());
    }
    if n >= 8 {
        quantum = u64_at(payload, 0);
        if n >= 16 {
            vtime_limit = u64_at(payload, 8);
            if n > 16 {
                let rest = vstd::slice::slice_subrange(payload, 16, n);
                proof {
                    assert(rest@ =~= payload@.skip(16));
                }
                messages = decode_batch(rest);
            }
        } else if n > 8 {
            let rest = vstd::slice::slice_subrange(payload, 8, n);
            proof {
                assert(rest@ =~= payload@.skip(8));
            }
            messages = decode_batch(rest);
        }
    }
    Done { quantum, vtime_limit, messages }
}

/// The header of a frame, once it has been read.
#[derive(Debug, Clone, Copy, PartialEq, Eq, Structural)]
pub struct FrameHeader {
    pub delivery_vtime_ns: u64,
    pub sequence_number: u64,
    pub size: u32,
}

/// The header of a radio frame, once it has been read.
#[derive(Debug, Clone, Copy, PartialEq, Eq, Structural)]
pub struct RadioHeader {
    pub delivery_vtime_ns: u64,
    pub sequence_number: u64,
}

/// What a transmission carries.
#[derive(Debug, PartialEq, Eq)]
pub struct Carried {
    pub vtime_ns: u64,
    pub sequence_number: u64,
    pub data: Vec<u8>,
}

#[verifier::ext_equal]
pub struct CarriedView {
    pub vtime_ns: u64,
    pub sequence_number: u64,
    pub data: Seq<u8>,
}

impl View for Carried {
    type V = CarriedView;

    open spec fn view(&self) -> CarriedView {
        CarriedView {
            vtime_ns: self.vtime_ns,
            sequence_number: self.sequence_number,
            data: self.data@,
        }
    }
}

/// The greatest size of a radio header.
pub const MAX_RADIO_HEADER: u32 = 1024;

/// Where the header of a radio frame stands: behind its size, from byte 4 on.
pub open spec fn radio_header_size(payload: Seq<u8>) -> Option<nat> {
    if payload.len() < 4 {
        None
    } else {
        let size = wire::le_at(payload, 0, 4);
        if 0 < size <= 1024 && payload.len() >= 4 + size {
            Some(size)
        } else {
            None
        }
    }
}

/// The bytes of the header of a radio frame.
pub fn radio_header_bytes(payload: &[u8]) -> (r: Option<Vec<u8>>)
    ensures
        match r {
            Some(bytes) => radio_header_size(payload@) matches Some(size) && bytes@
                == payload@.subrange(4, 4 + size as int),
            None => radio_header_size(payload@) is None,
        },
{
    let n: usize = payload.len();
    if n < 4 {
        return None;
    }
    let size: u32 = u32_at(payload, 0);
    if size > 0 && size <= MAX_RADIO_HEADER && n - 4 >= size as usize {
        Some(copy_range(payload, 4, 4 + size as usize))
    } else {
        None
    }
}

/// What a radio frame carries, given its header.
pub open spec fn radio_carried(payload: Seq<u8>, header: Option<RadioHeader>) -> Option<
    CarriedView,
> {
    match (radio_header_size(payload), header) {
        (Some(size), Some(h)) => Some(
            CarriedView {
                vtime_ns: h.delivery_vtime_ns,
                sequence_number: h.sequence_number,
                data: payload.skip(4 + size as int),
            },
        ),
        _ => None,
    }
}

fn carry_radio(payload: &[u8], header: Option<RadioHeader>) -> (r: Option<Carried>)
    ensures
        match r {
            Some(c) => radio_carried(payload@, header) == Some(c@),
            None => radio_carried(payload@, header) is None,
        },
{
    let n: usize = payload.len();
    if n < 4 {
        return None;
    }
    let size: u32 = u32_at(payload, 0);
    if !(size > 0 && size <= MAX_RADIO_HEADER && n - 4 >= size as usize) {
        return None;
    }
    match header {
        None => None,
        Some(h) => {
            let data = copy_range(payload, 4 + size as usize, n);
            proof {
                assert(data@ =~= payload@.skip(4 + size as int));
            }
            Some(
                Carried { vtime_ns: h.delivery_vtime_ns, sequence_number: h.sequence_number, data },
            )
        },
    }
}

/// What a frame carries behind a header that is `header_size` bytes long.
pub open spec fn framed_carried(payload: Seq<u8>, header: FrameHeader, header_size: nat) -> Option<
    CarriedView,
> {
    if payload.len() >= header_size + header.size {
        Some(
            CarriedView {
                vtime_ns: header.delivery_vtime_ns,
                sequence_number: header.sequence_number,
                data: payload.subrange(header_size as int, header_size + header.size),
            },
        )
    } else {
        None
    }
}

fn carry_framed(payload: &[u8], header: FrameHeader, header_size: usize) -> (r: Option<Carried>)
    ensures
        match r {
            Some(c) => framed_carried(payload@, header, header_size as nat) == Some(c@),
            None => framed_carried(payload@, header, header_size as nat) is None,
        },
{
    let n: usize = payload.len();
    if n < header_size || n - header_size < header.size as usize {
        return None;
    }
    let end: usize = header_size + header.size as usize;
    Some(
        Carried {
            vtime_ns: header.delivery_vtime_ns,
            sequence_number: header.sequence_number,
            data: copy_range(payload, header_size, end),
        },
    )
}

/// What a payload without a header carries, on the protocols that do without; a LIN frame may tell
/// its time.
pub open spec fn raw_carried(
    protocol: Protocol,
    payload: Seq<u8>,
    lin_vtime_ns: Option<u64>,
) -> Option<CarriedView> {
    if protocol == Protocol::Lin || protocol == Protocol::CanFd || protocol == Protocol::FlexRay {
        Some(
            CarriedView {
                vtime_ns: if protocol == Protocol::Lin && lin_vtime_ns is Some {
                    lin_vtime_ns->0
                } else {
                    0
                },
                sequence_number: 0,
                data: payload,
            },
        )
    } else {
        None
    }
}

fn carry_raw(protocol: Protocol, payload: &[u8], lin_vtime_ns: Option<u64>) -> (r: Option<Carried>)
    ensures
        match r {
            Some(c) => raw_carried(protocol, payload@, lin_vtime_ns) == Some(c@),
            None => raw_carried(protocol, payload@, lin_vtime_ns) is None,
        },
{
    if protocol == Protocol::Lin || protocol == Protocol::CanFd || protocol == Protocol::FlexRay {
        let vtime_ns: u64 = match lin_vtime_ns {
            Some(v) => if protocol == Protocol::Lin {
                v
            } else {
                0
            },
            None => 0,
        };
        Some(Carried { vtime_ns, sequence_number: 0, data: vstd::slice::slice_to_vec(payload) })
    } else {
        None
    }
}

/// What the parsers of the formats made of a payload.
#[derive(Debug, PartialEq, Eq)]
pub struct Readings {
    /// The whole payload read as a coordinator message.
    pub message: Option<Carried>,
    /// The start of the payload read as a frame header.
    pub frame: Option<FrameHeader>,
    /// The bytes of the radio header read as one.
    pub radio: Option<RadioHeader>,
    /// The time of the whole payload read as a LIN frame.
    pub lin_vtime_ns: Option<u64>,
}

/// What a transmission over the bus carries: a radio frame, else a frame, else raw bytes. A frame
/// that is cut off carries nothing.
pub open spec fn bus_carried(
    protocol: Protocol,
    payload: Seq<u8>,
    r: Readings,
    header_size: nat,
) -> Option<CarriedView> {
    if protocol == Protocol::Rf802154 && radio_carried(payload, r.radio) is Some {
        radio_carried(payload, r.radio)
    } else {
        match r.frame {
            Some(h) => framed_carried(payload, h, header_size),
            None => raw_carried(protocol, payload, r.lin_vtime_ns),
        }
    }
}

/// What a transmission over the bus carries.
pub fn carry_from_bus(
    protocol: Protocol,
    payload: &[u8],
    readings: &Readings,
    header_size: usize,
) -> (r: Option<Carried>)
    ensures
        match r {
            Some(c) => bus_carried(protocol, payload@, *readings, header_size as nat) == Some(c@),
            None => bus_carried(protocol, payload@, *readings, header_size as nat) is None,
        },
{
    if protocol == Protocol::Rf802154 {
        match carry_radio(payload, readings.radio) {
            Some(c) => {
                return Some(c);
            },
            None => {},
        }
    }
    match readings.frame {
        Some(h) => carry_framed(payload, h, header_size),
        None => carry_raw(protocol, payload, readings.lin_vtime_ns),
    }
}

/// What a transmission over a socket carries: a coordinator message, else a frame, else a radio
/// frame, else raw bytes.
pub open spec fn socket_carried(
    protocol: Protocol,
    payload: Seq<u8>,
    r: Readings,
    header_size: nat,
) -> Option<CarriedView> {
    match r.message {
        Some(c) => Some(c@),
        None => {
            let framed = match r.frame {
                Some(h) => framed_carried(payload, h, header_size),
                None => None,
            };
            if framed is Some {
                framed
            } else if protocol == Protocol::Rf802154 && radio_carried(payload, r.radio) is Some {
                radio_carried(payload, r.radio)
            } else {
                raw_carried(protocol, payload, r.lin_vtime_ns)
            }
        },
    }
}

/// What a transmission over a socket carries.
pub fn carry_from_socket(
    protocol: Protocol,
    payload: &[u8],
    readings: &Readings,
    header_size: usize,
) -> (r: Option<Carried>)
    ensures
        match r {
            Some(c) => socket_carried(protocol, payload@, *readings, header_size as nat) == Some(
                c@,
            ),
            None => socket_carried(protocol, payload@, *readings, header_size as nat) is None,
        },
{
    match &readings.message {
        Some(c) => {
            return Some(
                Carried {
                    vtime_ns: c.vtime_ns,
                    sequence_number: c.sequence_number,
                    data: vstd::slice::slice_to_vec(c.data.as_slice()),
                },
            );
        },
        None => {},
    }
    match readings.frame {
        Some(h) => match carry_framed(payload, h, header_size) {
            Some(c) => {
                return Some(c);
            },
            None => {},
        },
        None => {},
    }
    if protocol == Protocol::Rf802154 {
        match carry_radio(payload, readings.radio) {
            Some(c) => {
                return Some(c);
            },
            None => {},
        }
    }
    carry_raw(protocol, payload, readings.lin_vtime_ns)
}

/// A topic and a payload, each behind its length, as they go over a socket.
pub open spec fn framed(topic: Seq<char>, payload: Seq<u8>) -> Seq<u8> {
    let topic_bytes = vstd::utf8::encode_utf8(topic);
    wire::le_bytes(topic_bytes.len(), 4) + topic_bytes + wire::le_bytes(payload.len(), 4) + payload
}

/// Puts a topic and a payload into one frame.
pub fn frame_for_socket(topic: &str, payload: &[u8]) -> (out: Vec<u8>)
    requires
        vstd::utf8::encode_utf8(topic@).len() <= u32::MAX,
        payload@.len() <= u32::MAX,
    ensures
        out@ == framed(topic@, payload@),
{
    let topic_bytes = topic.as_bytes();
    let mut out: Vec<u8> = Vec::new();
    push_le(&mut out, topic_bytes.len() as u64, 4);
    push_bytes(&mut out, topic_bytes);
    push_le(&mut out, payload.len() as u64, 4);
    push_bytes(&mut out, payload);
    proof {
        assert(out@ =~= framed(topic@, payload@));
    }
    out
}

} // verus!
