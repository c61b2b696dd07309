//! One run of the coordinator: what nodes send is held until all are done with a quantum.
use std::collections::HashMap;

use vstd::prelude::*;

use crate::deterministic_coordinator::barrier;
use crate::deterministic_coordinator::barrier::{
    BarrierError, BarrierView, CoordMessage, CoordMessageView, QuantumBarrier,
};
use crate::deterministic_coordinator::delivery::BROADCAST;
use crate::deterministic_coordinator::envelope::{Envelope, EnvelopeView};
use crate::deterministic_coordinator::frames::{Carried, CarriedView, TxTopic, TxTopicView};
use crate::deterministic_coordinator::topology::Protocol;
use crate::sorting;
use crate::text;
use crate::text::{parse_unsigned, split_text, starts_with_text};
use crate::wire;
use crate::wire::{copy_range, push_bytes, push_le, u32_at};

verus! {

broadcast use vstd::std_specs::hash::group_hash_axioms;

/// A run of the coordinator.
pub struct Session {
    delay_ns: u64,
    immediate: bool,
    barrier: QuantumBarrier<Envelope>,
    node_batches: HashMap<u32, Vec<Envelope>>,
    current_quantum: u64,
    rx_counters: HashMap<u32, u64>,
}

#[verifier::ext_equal]
pub struct SessionView {
    pub delay_ns: u64,
    /// Messages are delivered at once and not held.
    pub immediate: bool,
    pub barrier: BarrierView<EnvelopeView>,
    pub batches: Map<u32, Seq<EnvelopeView>>,
    pub quantum: u64,
    /// How many link messages each node has sent.
    pub counters: Map<u32, u64>,
}

/// The batches by node.
pub open spec fn batch_views(batches: Map<u32, Vec<Envelope>>) -> Map<u32, Seq<EnvelopeView>> {
    Map::new(|k: u32| batches.contains_key(k), |k: u32| sorting::views(batches[k]@))
}

impl View for Session {
    type V = SessionView;

    closed spec fn view(&self) -> SessionView {
        SessionView {
            delay_ns: self.delay_ns,
            immediate: self.immediate,
            barrier: self.barrier@,
            batches: batch_views(self.node_batches@),
            quantum: self.current_quantum,
            counters: self.rx_counters@,
        }
    }
}

/// The batch of a node; a node that has sent nothing has an empty one.
pub open spec fn batch_of(batches: Map<u32, Seq<EnvelopeView>>, node: u32) -> Seq<EnvelopeView> {
    if batches.contains_key(node) {
        batches[node]
    } else {
        Seq::empty()
    }
}

/// The session once a message has been held for its source.
pub open spec fn held(s: SessionView, e: EnvelopeView) -> SessionView {
    let src = e.message.src_node_id;
    SessionView { batches: s.batches.insert(src, batch_of(s.batches, src).push(e)), ..s }
}

/// The sum, or the greatest number if it does not fit.
pub open spec fn saturating_sum(a: u64, b: u64) -> u64 {
    if a + b > u64::MAX {
        u64::MAX
    } else {
        (a + b) as u64
    }
}

pub(crate) fn saturating_sum_exec(a: u64, b: u64) -> (r: u64)
    ensures
        r == saturating_sum(a, b),
{
    match a.checked_add(b) {
        Some(v) => v,
        None => u64::MAX,
    }
}

/// The message that a transmission makes: it goes to all nodes, after the delay.
pub open spec fn transmitted(delay_ns: u64, tx: TxTopicView, carried: CarriedView) -> EnvelopeView {
    EnvelopeView {
        message: CoordMessageView {
            delivery_vtime_ns: saturating_sum(carried.vtime_ns, delay_ns),
            src_node_id: tx.node_id,
            dst_node_id: BROADCAST,
            sequence_number: carried.sequence_number,
            protocol: tx.protocol,
            payload: carried.data,
        },
        base_topic: Some(tx.base),
        link_id: None,
    }
}

/// The messages due by `limit`, in order.
pub open spec fn due(messages: Seq<EnvelopeView>, limit: int) -> Seq<EnvelopeView>
    decreases messages.len(),
{
    if messages.len() == 0 {
        Seq::empty()
    } else if messages.last().message.delivery_vtime_ns <= limit {
        due(messages.drop_last(), limit).push(messages.last())
    } else {
        due(messages.drop_last(), limit)
    }
}

/// The messages due after `limit`, in order.
pub open spec fn not_due(messages: Seq<EnvelopeView>, limit: int) -> Seq<EnvelopeView>
    decreases messages.len(),
{
    if messages.len() == 0 {
        Seq::empty()
    } else if messages.last().message.delivery_vtime_ns <= limit {
        not_due(messages.drop_last(), limit)
    } else {
        not_due(messages.drop_last(), limit).push(messages.last())
    }
}

fn part(messages: Vec<Envelope>, limit: u64) -> (r: (Vec<Envelope>, Vec<Envelope>))
    ensures
        sorting::views(r.0@) == due(sorting::views(messages@), limit as int),
        sorting::views(r.1@) == not_due(sorting::views(messages@), limit as int),
{
    let ghost all = sorting::views(messages@);
    let mut current: Vec<Envelope> = Vec::new();
    let mut future: Vec<Envelope> = Vec::new();
    proof {
        assert(sorting::views(current@) =~= Seq::empty());
        assert(all.take(0) =~= Seq::empty());
    }
    for m in it: messages
        invariant
            all == sorting::views(it.seq()),
            sorting::views(current@) == due(all.take(it.index()), limit as int),
            sorting::views(future@) == not_due(all.take(it.index()), limit as int),
    {
        let ghost k = it.index();
        let ghost c0 = sorting::views(current@);
        let ghost f0 = sorting::views(future@);
        proof {
            assert(all.take(k + 1).drop_last() =~= all.take(k));
            assert(all.take(k + 1).last() == m@);
        }
        if m.message.delivery_vtime_ns <= limit {
            current.push(m);
            proof {
                assert(sorting::views(current@) =~= c0.push(m@));
            }
        } else {
            future.push(m);
            proof {
                assert(sorting::views(future@) =~= f0.push(m@));
            }
        }
    }
    proof {
        assert(all.take(all.len() as int) =~= all);
    }
    (current, future)
}

/// The batches once `node` has handed in what was due by `limit`.
pub open spec fn batches_after(
    batches: Map<u32, Seq<EnvelopeView>>,
    node: u32,
    limit: int,
) -> Map<u32, Seq<EnvelopeView>> {
    let future = not_due(batch_of(batches, node), limit);
    if future.len() == 0 {
        batches.remove(node)
    } else {
        batches.insert(node, future)
    }
}

/// Messages that came with a submission, without topic or link.
pub open spec fn bare(messages: Seq<CoordMessageView>) -> Seq<EnvelopeView> {
    Seq::new(
        messages.len(),
        |i: int| EnvelopeView { message: messages[i], base_topic: None, link_id: None },
    )
}

fn wrap_bare(messages: Vec<CoordMessage>) -> (r: Vec<Envelope>)
    ensures
        sorting::views(r@) == bare(sorting::views(messages@)),
{
    let ghost all = sorting::views(messages@);
    let mut r: Vec<Envelope> = Vec::new();
    for m in it: messages
        invariant
            all == sorting::views(it.seq()),
            r@.len() == it.index(),
            forall|k: int| 0 <= k < it.index() ==> (#[trigger] r@[k])@ == bare(all)[k],
    {
        r.push(Envelope { message: m, base_topic: None, link_id: None });
    }
    proof {
        assert(sorting::views(r@) =~= bare(all));
    }
    r
}

/// What a node's word that it is done leads to.
#[derive(Debug, PartialEq, Eq)]
pub enum DoneOutcome {
    /// Other nodes are not done yet.
    Waiting,
    /// All nodes are done: the messages are to be delivered in this order, and the next quantum
    /// started.
    Released { messages: Vec<Envelope>, next_quantum: u64 },
    /// The node must not be done with that quantum.
    Fatal(BarrierError),
}

#[verifier::ext_equal]
pub enum DoneOutcomeView {
    Waiting,
    Released { messages: Seq<EnvelopeView>, next_quantum: u64 },
    Fatal(BarrierError),
}

impl View for DoneOutcome {
    type V = DoneOutcomeView;

    open spec fn view(&self) -> DoneOutcomeView {
        match self {
            DoneOutcome::Waiting => DoneOutcomeView::Waiting,
            DoneOutcome::Released { messages, next_quantum } => DoneOutcomeView::Released {
                messages: sorting::views(messages@),
                next_quantum: *next_quantum,
            },
            DoneOutcome::Fatal(e) => DoneOutcomeView::Fatal(*e),
        }
    }
}

/// What a node's word that it is done leads to, and the session after it.
pub open spec fn done(
    s: SessionView,
    node: u32,
    quantum: u64,
    vtime_limit: u64,
    sent: Seq<CoordMessageView>,
) -> (SessionView, DoneOutcomeView) {
    let limit = vtime_limit + s.delay_ns;
    let handed_in = due(batch_of(s.batches, node), limit) + bare(sent);
    let rest = SessionView { batches: batches_after(s.batches, node, limit), ..s };
    let after = barrier::with_done(s.barrier, node as int, handed_in);
    if quantum != s.quantum {
        (
            rest,
            DoneOutcomeView::Fatal(
                BarrierError::QuantumMismatch { expected: s.quantum, got: quantum },
            ),
        )
    } else if node >= s.barrier.done.len() {
        (rest, DoneOutcomeView::Fatal(BarrierError::NodeIndexOutOfBounds(node)))
    } else if s.barrier.done[node as int] {
        (rest, DoneOutcomeView::Fatal(BarrierError::DuplicateDone))
    } else if barrier::all_set(after.done) {
        (
            SessionView {
                barrier: barrier::open_barrier(s.barrier.done.len(), s.barrier.limit),
                quantum: (s.quantum + 1) as u64,
                ..rest
            },
            DoneOutcomeView::Released {
                messages: sorting::stable_sort(after.buffer),
                next_quantum: (s.quantum + 1) as u64,
            },
        )
    } else {
        (SessionView { barrier: after, ..rest }, DoneOutcomeView::Waiting)
    }
}

/// What a frame on a link comes to.
#[derive(Debug, PartialEq, Eq)]
pub enum LinkFrame {
    /// The topic is not that of a link.
    NotALink,
    /// The frame is cut off or its topic names no number.
    Ignored,
    /// The link does not exist or the frame names another one: the run must not go on.
    Fatal,
    /// A message to deliver at once.
    Deliver(Envelope),
    /// The message is held.
    Held,
}

/// The link that a topic names.
pub open spec fn is_link_topic(topic: Seq<char>) -> bool {
    text::has_prefix(topic, "sim/ch/"@) && text::split_on(topic, '/').len() == 3
}

/// The number of the link that a link topic names.
pub open spec fn link_number(topic: Seq<char>) -> Option<u32> {
    match text::parsed_unsigned(text::split_on(topic, '/')[2], u32::MAX as nat) {
        Some(n) => Some(n as u32),
        None => None,
    }
}

/// The bytes that the nodes on a link get of a frame.
pub open spec fn link_payload(
    link: u32,
    node: u32,
    delay_ns: u64,
    sequence_number: u64,
    raw: Seq<u8>,
) -> Seq<u8> {
    wire::le_bytes(link as nat, 4) + wire::le_bytes(node as nat, 4) + wire::le_bytes(
        delay_ns as nat,
        8,
    ) + wire::le_bytes(sequence_number as nat, 8) + wire::le_bytes(raw.len(), 4) + raw
}

/// How many link messages a node has sent.
pub open spec fn counter_of(counters: Map<u32, u64>, node: u32) -> u64 {
    if counters.contains_key(node) {
        counters[node]
    } else {
        0
    }
}

/// The message that a frame on a link makes.
pub open spec fn link_message(s: SessionView, link: u32, node: u32, raw: Seq<u8>) -> EnvelopeView {
    let seq_no = counter_of(s.counters, node);
    EnvelopeView {
        message: CoordMessageView {
            delivery_vtime_ns: s.delay_ns,
            src_node_id: node,
            dst_node_id: BROADCAST,
            sequence_number: seq_no,
            protocol: Protocol::ReferenceLink,
            payload: link_payload(link, node, s.delay_ns, seq_no, raw),
        },
        base_topic: None,
        link_id: Some(link),
    }
}

/// The session once a node's link messages have been counted on.
pub open spec fn counted(s: SessionView, node: u32) -> SessionView {
    SessionView {
        counters: s.counters.insert(node, (counter_of(s.counters, node) + 1) as u64),
        ..s
    }
}

/// What of a frame on link `link` is its payload; `None` if the frame is cut off.
pub open spec fn frame_payload(frame: Seq<u8>) -> Option<Seq<u8>> {
    if frame.len() < 8 || frame.len() < 8 + wire::le_at(frame, 4, 4) {
        None
    } else {
        Some(frame.subrange(8, 8 + wire::le_at(frame, 4, 4) as int))
    }
}

impl Session {
    pub closed spec fn wf(&self) -> bool {
        self.barrier.wf()
    }

    /// A run with `n_nodes` nodes.
    pub fn new(n_nodes: usize, max_messages_per_node: usize, delay_ns: u64, immediate: bool) -> (s:
        Self)
        ensures
            s.wf(),
            s@ == (SessionView {
                delay_ns,
                immediate,
                barrier: barrier::open_barrier(n_nodes as nat, max_messages_per_node as nat),
                batches: Map::empty(),
                quantum: 0,
                counters: Map::empty(),
            }),
    {
        let s = Session {
            delay_ns,
            immediate,
            barrier: QuantumBarrier::new(n_nodes, max_messages_per_node),
            node_batches: HashMap::new(),
            current_quantum: 0,
            rx_counters: HashMap::new(),
        };
        proof {
            assert(s@.batches =~= Map::empty());
        }
        s
    }

    /// The open quantum.
    pub fn quantum(&self) -> (q: u64)
        ensures
            q == self@.quantum,
    {
        self.current_quantum
    }

    /// Whether the word that a node is done by `vtime_limit` can be taken: there is a next
    /// quantum, and the limit of what is due has a number.
    pub fn can_close(&self, node_id: u32, vtime_limit: u64) -> (r: bool)
        ensures
            r == (self@.quantum < u64::MAX && (batch_of(self@.batches, node_id).len() > 0
                ==> vtime_limit + self@.delay_ns <= u64::MAX)),
    {
        let holds = match self.node_batches.get(&node_id) {
            Some(batch) => batch.len() > 0,
            None => false,
        };
        self.current_quantum < u64::MAX && (!holds || vtime_limit.checked_add(
            self.delay_ns,
        ).is_some())
    }

    /// Whether a node's next link message has a number.
    pub fn can_count(&self, node_id: u32) -> (r: bool)
        ensures
            r == (counter_of(self@.counters, node_id) < u64::MAX),
    {
        match self.rx_counters.get(&node_id) {
            Some(n) => *n < u64::MAX,
            None => true,
        }
    }

    fn hold(&mut self, e: Envelope)
        requires
            old(self).wf(),
        ensures
            final(self).wf(),
            final(self)@ == held(old(self)@, e@),
    {
        let ghost before = self@;
        let src: u32 = e.message.src_node_id;
        let mut batch: Vec<Envelope> = match self.node_batches.remove(&src) {
            Some(batch) => batch,
            None => Vec::new(),
        };
        proof {
            assert(sorting::views(batch@) =~= batch_of(before.batches, src));
        }
        batch.push(e);
        proof {
            assert(sorting::views(batch@) =~= batch_of(before.batches, src).push(e@));
        }
        self.node_batches.insert(src, batch);
        proof {
            assert(self@.batches =~= held(before, e@).batches);
        }
    }

    /// Takes a transmission: it comes back if it is to be delivered at once, and is held otherwise.
    pub fn on_transmission(&mut self, tx: TxTopic, carried: Carried) -> (r: Option<Envelope>)
        requires
            old(self).wf(),
        ensures
            final(self).wf(),
            ({
                let e = transmitted(old(self)@.delay_ns, tx@, carried@);
                if old(self)@.immediate {
                    &&& r matches Some(now) && now@ == e
                    &&& final(self)@ == old(self)@
                } else {
                    &&& r is None
                    &&& final(self)@ == held(old(self)@, e)
                }
            }),
    {
        let e = Envelope {
            message: CoordMessage {
                delivery_vtime_ns: saturating_sum_exec(carried.vtime_ns, self.delay_ns),
                src_node_id: tx.node_id,
                dst_node_id: BROADCAST,
                sequence_number: carried.sequence_number,
                protocol: tx.protocol,
                payload: carried.data,
            },
            base_topic: Some(tx.base),
            link_id: None,
        };
        if self.immediate {
            Some(e)
        } else {
            self.hold(e);
            None
        }
    }

    /// Takes a node's word that it is done with a quantum, and what it hands in with it.
    pub fn on_done(
        &mut self,
        node_id: u32,
        quantum: u64,
        vtime_limit: u64,
        sent: Vec<CoordMessage>,
    ) -> (r: DoneOutcome)
        requires
            old(self).wf(),
            old(self)@.quantum < u64::MAX,
            batch_of(old(self)@.batches, node_id).len() > 0 ==> vtime_limit + old(self)@.delay_ns
                <= u64::MAX,
        ensures
            final(self).wf(),
            final(self)@ == done(
                old(self)@,
                node_id,
                quantum,
                vtime_limit,
                sorting::views(sent@),
            ).0,
            r@ == done(old(self)@, node_id, quantum, vtime_limit, sorting::views(sent@)).1,
    {
        let ghost before = self@;
        let ghost bound = vtime_limit + self.delay_ns;
        let pending: Vec<Envelope> = match self.node_batches.remove(&node_id) {
            Some(batch) => batch,
            None => Vec::new(),
        };
        proof {
            assert(sorting::views(pending@) =~= batch_of(before.batches, node_id));
            assert(batch_views(self.node_batches@) =~= before.batches.remove(node_id));
        }
        let limit: u64 = if pending.len() > 0 {
            vtime_limit + self.delay_ns
        } else {
            0
        };
        let ghost batch = sorting::views(pending@);
        proof {
            if batch.len() == 0 {
                assert(due(batch, limit as int) =~= due(batch, bound));
                assert(not_due(batch, limit as int) =~= not_due(batch, bound));
            }
        }
        let (current, future) = part(pending, limit);
        if future.len() > 0 {
            self.node_batches.insert(node_id, future);
        }
        proof {
            assert(self@.batches =~= batches_after(before.batches, node_id, bound));
        }
        let mut handed_in = current;
        let ghost due_view = sorting::views(handed_in@);
        let mut more = wrap_bare(sent);
        let ghost more_view = sorting::views(more@);
        handed_in.append(&mut more);
        proof {
            assert(sorting::views(handed_in@) =~= due_view + more_view);
        }
        let expected: u64 = self.current_quantum;
        match self.barrier.submit_done(node_id, quantum, expected, handed_in) {
            Err(e) => {
                proof {
                    assert(self@ =~= done(
                        before,
                        node_id,
                        quantum,
                        vtime_limit,
                        sorting::views(sent@),
                    ).0);
                }
                DoneOutcome::Fatal(e)
            },
            Ok(None) => {
                proof {
                    assert(self@ =~= done(
                        before,
                        node_id,
                        quantum,
                        vtime_limit,
                        sorting::views(sent@),
                    ).0);
                }
                DoneOutcome::Waiting
            },
            Ok(Some(messages)) => {
                self.current_quantum = expected + 1;
                proof {
                    assert(self@ =~= done(
                        before,
                        node_id,
                        quantum,
                        vtime_limit,
                        sorting::views(sent@),
                    ).0);
                }
                DoneOutcome::Released { messages, next_quantum: expected + 1 }
            },
        }
    }

    /// Takes a frame that node `node_id` sent on a topic, where there are `n_links` links.
    pub fn on_link_frame(&mut self, node_id: u32, topic: &str, frame: &[u8], n_links: usize) -> (r:
        LinkFrame)
        requires
            old(self).wf(),
            counter_of(old(self)@.counters, node_id) < u64::MAX,
        ensures
            final(self).wf(),
            if !is_link_topic(topic@) {
                &&& r == LinkFrame::NotALink
                &&& final(self)@ == old(self)@
            } else if link_number(topic@) is None {
                &&& r == LinkFrame::Ignored
                &&& final(self)@ == old(self)@
            } else if link_number(topic@)->0 >= n_links {
                &&& r == LinkFrame::Fatal
                &&& final(self)@ == old(self)@
            } else if frame@.len() < 8 {
                &&& r == LinkFrame::Ignored
                &&& final(self)@ == old(self)@
            } else if wire::le_at(frame@, 0, 4) != link_number(topic@)->0 {
                &&& r == LinkFrame::Fatal
                &&& final(self)@ == old(self)@
            } else {
                match frame_payload(frame@) {
                    None => r == LinkFrame::Ignored && final(self)@ == old(self)@,
                    Some(raw) => {
                        let e = link_message(old(self)@, link_number(topic@)->0, node_id, raw);
                        let after = counted(old(self)@, node_id);
                        if old(self)@.immediate {
                            &&& r matches LinkFrame::Deliver(now) && now@ == e
                            &&& final(self)@ == after
                        } else {
                            &&& r == LinkFrame::Held
                            &&& final(self)@ == held(after, e)
                        }
                    },
                }
            },
    {
        let parts = split_text(topic, '/');
        let ghost pieces = sorting::views(parts@);
        if !(starts_with_text(topic, "sim/ch/") && parts.len() == 3) {
            return LinkFrame::NotALink;
        }
        proof {
            assert(pieces[2] == parts@[2]@);
        }
        let link: u32 = match parse_unsigned(parts[2].as_str(), u32::MAX as u64) {
            None => {
                return LinkFrame::Ignored;
            },
            Some(n) => n as u32,
        };
        if link as usize >= n_links {
            return LinkFrame::Fatal;
        }
        let n: usize = frame.len();
        if n < 8 {
            return LinkFrame::Ignored;
        }
        if u32_at(frame, 0) != link {
            return LinkFrame::Fatal;
        }
        let size: u32 = u32_at(frame, 4);
        if n - 8 < size as usize {
            return LinkFrame::Ignored;
        }
        let ghost before = self@;
        let raw = copy_range(frame, 8, 8 + size as usize);
        let seq_no: u64 = match self.rx_counters.get(&node_id) {
            Some(count) => *count,
            None => 0,
        };
        self.rx_counters.insert(node_id, seq_no + 1);
        proof {
            assert(self@.counters =~= counted(before, node_id).counters);
            assert(self@ =~= counted(before, node_id));
        }
        let mut payload: Vec<u8> = Vec::new();
        push_le(&mut payload, link as u64, 4);
        push_le(&mut payload, node_id as u64, 4);
        push_le(&mut payload, self.delay_ns, 8);
        push_le(&mut payload, seq_no, 8);
        push_le(&mut payload, size as u64, 4);
        push_bytes(&mut payload, raw.as_slice());
        proof {
            assert(payload@ =~= link_payload(link, node_id, before.delay_ns, seq_no, raw@));
        }
        let e = Envelope {
            message: CoordMessage {
                delivery_vtime_ns: self.delay_ns,
                src_node_id: node_id,
                dst_node_id: BROADCAST,
                sequence_number: seq_no,
                protocol: Protocol::ReferenceLink,
                payload,
            },
            base_topic: None,
            link_id: Some(link),
        };
        proof {
            assert(e@ =~= link_message(before, link, node_id, raw@));
        }
        if self.immediate {
            LinkFrame::Deliver(e)
        } else {
            self.hold(e);
            LinkFrame::Held
        }
    }
}

} // verus!
