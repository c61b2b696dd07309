//! The quanta of a relay: messages wait until every node is done.
use vstd::prelude::*;

use crate::deterministic_coordinator::barrier;
use crate::deterministic_coordinator::barrier::{
    BarrierError, BarrierView, CoordMessage, CoordMessageView, QuantumBarrier,
};
use crate::deterministic_coordinator::envelope::{Envelope, EnvelopeView};
use crate::sorting;
use crate::text;
use crate::text::{decimal_text, owned};
use crate::zenoh_coordinator::batches::Batches;
use crate::zenoh_coordinator::reach;
use crate::zenoh_coordinator::reach::number_of;
use crate::zenoh_coordinator::relay;
use crate::zenoh_coordinator::relay::{done_quantum, RelayMessage, RelayView};

verus! {

/// A message as the barrier holds it, where numbers name its nodes.
pub open spec fn envelope_of(m: RelayView) -> Option<EnvelopeView> {
    match (reach::node_number(m.src_node_id), reach::node_number(m.dst_node_id)) {
        (Some(src), Some(dst)) => Some(
            EnvelopeView {
                message: CoordMessageView {
                    delivery_vtime_ns: m.delivery_vtime_ns,
                    src_node_id: src,
                    dst_node_id: dst,
                    sequence_number: m.sequence_number,
                    protocol: m.protocol,
                    payload: m.payload,
                },
                base_topic: Some(m.base_topic),
                link_id: None,
            },
        ),
        _ => None,
    }
}

/// The message that the barrier held.
pub open spec fn message_of(e: EnvelopeView) -> RelayView {
    RelayView {
        src_node_id: text::decimal(e.message.src_node_id as nat),
        dst_node_id: text::decimal(e.message.dst_node_id as nat),
        base_topic: match e.base_topic {
            Some(topic) => topic,
            None => Seq::empty(),
        },
        delivery_vtime_ns: e.message.delivery_vtime_ns,
        sequence_number: e.message.sequence_number,
        protocol: e.message.protocol,
        payload: e.message.payload,
    }
}

/// The barrier hands out what it was given.
pub proof fn law_barrier_keeps_messages(m: RelayView, src: u32, dst: u32)
    requires
        m.src_node_id == text::decimal(src as nat),
        m.dst_node_id == text::decimal(dst as nat),
    ensures
        envelope_of(m) matches Some(e) && message_of(e) == m,
{
    text::law_decimal_reads_back(src as nat, u32::MAX as nat);
    text::law_decimal_reads_back(dst as nat, u32::MAX as nat);
    assert(message_of(envelope_of(m)->0) =~= m);
}

/// Whether numbers name the nodes of all messages.
pub open spec fn all_numbered(list: Seq<RelayView>) -> bool {
    forall|i: int| 0 <= i < list.len() ==> envelope_of(#[trigger] list[i]) is Some
}

/// The messages as the barrier holds them.
pub open spec fn envelopes_of(list: Seq<RelayView>) -> Seq<EnvelopeView> {
    Seq::new(list.len(), |i: int| envelope_of(list[i])->0)
}

/// The messages that the barrier held.
pub open spec fn messages_of(list: Seq<EnvelopeView>) -> Seq<RelayView> {
    Seq::new(list.len(), |i: int| message_of(list[i]))
}

fn to_envelope(m: &RelayMessage) -> (r: Option<Envelope>)
    ensures
        match r {
            Some(e) => envelope_of(m@) == Some(e@),
            None => envelope_of(m@) is None,
        },
{
    match (number_of(m.src_node_id.as_str()), number_of(m.dst_node_id.as_str())) {
        (Some(src_node_id), Some(dst_node_id)) => Some(
            Envelope {
                message: CoordMessage {
                    delivery_vtime_ns: m.delivery_vtime_ns,
                    src_node_id,
                    dst_node_id,
                    sequence_number: m.sequence_number,
                    protocol: m.protocol,
                    payload: vstd::slice::slice_to_vec(m.payload.as_slice()),
                },
                base_topic: Some(owned(m.base_topic.as_str())),
                link_id: None,
            },
        ),
        _ => None,
    }
}

fn to_message(e: &Envelope) -> (r: RelayMessage)
    ensures
        r@ == message_of(e@),
{
    proof {
        reveal_strlit("");
        assert(""@ =~= Seq::empty());
    }
    RelayMessage {
        src_node_id: decimal_text(e.message.src_node_id as u64),
        dst_node_id: decimal_text(e.message.dst_node_id as u64),
        base_topic: match &e.base_topic {
            Some(topic) => owned(topic.as_str()),
            None => owned(""),
        },
        delivery_vtime_ns: e.message.delivery_vtime_ns,
        sequence_number: e.message.sequence_number,
        protocol: e.message.protocol,
        payload: vstd::slice::slice_to_vec(e.message.payload.as_slice()),
    }
}

fn to_envelopes(list: &Vec<RelayMessage>) -> (r: Option<Vec<Envelope>>)
    ensures
        match r {
            Some(es) => all_numbered(sorting::views(list@)) && sorting::views(es@) == envelopes_of(
                sorting::views(list@),
            ),
            None => !all_numbered(sorting::views(list@)),
        },
{
    let ghost all = sorting::views(list@);
    let mut out: Vec<Envelope> = Vec::new();
    let mut i: usize = 0;
    while i < list.len()
        invariant
            i <= list@.len(),
            all == sorting::views(list@),
            out@.len() == i,
            forall|k: int| 0 <= k < i ==> envelope_of(#[trigger] all[k]) == Some(out@[k]@),
        decreases list@.len() - i,
    {
        proof {
            assert(all[i as int] == list@[i as int]@);
        }
        match to_envelope(&list[i]) {
            Some(e) => {
                out.push(e);
            },
            None => {
                return None;
            },
        }
        i += 1;
    }
    proof {
        assert(sorting::views(out@) =~= envelopes_of(all));
    }
    Some(out)
}

fn to_messages(list: &Vec<Envelope>) -> (r: Vec<RelayMessage>)
    ensures
        sorting::views(r@) == messages_of(sorting::views(list@)),
{
    let ghost all = sorting::views(list@);
    let mut out: Vec<RelayMessage> = Vec::new();
    let mut i: usize = 0;
    while i < list.len()
        invariant
            i <= list@.len(),
            all == sorting::views(list@),
            out@.len() == i,
            forall|k: int| 0 <= k < i ==> out@[k]@ == message_of(#[trigger] all[k]),
        decreases list@.len() - i,
    {
        proof {
            assert(all[i as int] == list@[i as int]@);
        }
        out.push(to_message(&list[i]));
        i += 1;
    }
    proof {
        assert(sorting::views(out@) =~= messages_of(all));
    }
    out
}

/// What a node's word that it is done comes to.
#[derive(Debug, PartialEq, Eq)]
pub enum QuantumEnd {
    /// No number names the node, or one that its messages are from or for.
    Unnumbered,
    /// The barrier does not take it.
    Refused(BarrierError),
    /// Others are not done yet.
    Waiting,
    /// All are done: the messages of the quantum, in order, and the quantum that starts.
    Complete { messages: Vec<RelayMessage>, next_quantum: u64 },
}

/// Why a barrier does not take a node's word.
pub open spec fn refusal(
    b: BarrierView<EnvelopeView>,
    node: u32,
    quantum: u64,
    current: u64,
) -> Option<BarrierError> {
    if quantum != current {
        Some((BarrierError::QuantumMismatch { expected: current, got: quantum }))
    } else if node >= b.done.len() {
        Some(BarrierError::NodeIndexOutOfBounds(node))
    } else if b.done[node as int] {
        Some(BarrierError::DuplicateDone)
    } else {
        None
    }
}

/// The quantum that runs, the messages that wait for its end, and the nodes that are done.
pub struct Quanta {
    barrier: QuantumBarrier<Envelope>,
    batches: Batches,
    current_quantum: u64,
}

impl Quanta {
    pub closed spec fn wf(&self) -> bool {
        self.barrier.wf()
    }

    /// What waits of a node that is not done.
    pub closed spec fn held(&self, node: Seq<char>) -> Seq<RelayView> {
        self.batches.held(node)
    }

    pub closed spec fn gate(&self) -> BarrierView<EnvelopeView> {
        self.barrier@
    }

    pub closed spec fn current(&self) -> u64 {
        self.current_quantum
    }

    /// The first quantum, with nothing sent yet.
    pub fn new(n_nodes: usize, max_messages_per_node: usize) -> (r: Self)
        ensures
            r.wf(),
            r.current() == 1,
            r.gate() == barrier::open_barrier::<EnvelopeView>(
                n_nodes as nat,
                max_messages_per_node as nat,
            ),
            forall|node: Seq<char>| #[trigger] r.held(node) == Seq::<RelayView>::empty(),
    {
        let r = Quanta {
            barrier: QuantumBarrier::new(n_nodes, max_messages_per_node),
            batches: Batches::new(),
            current_quantum: 1,
        };
        proof {
            assert forall|node: Seq<char>| #[trigger]
                r.held(node) == Seq::<RelayView>::empty() by {
                assert(r.batches.held(node) == Seq::<RelayView>::empty());
            }
        }
        r
    }

    /// The quantum that runs.
    pub fn quantum(&self) -> (r: u64)
        ensures
            r == self.current(),
    {
        self.current_quantum
    }

    /// Lets a message wait for the end of the quantum.
    pub fn hold(&mut self, message: RelayMessage)
        requires
            old(self).wf(),
        ensures
            final(self).wf(),
            final(self).current() == old(self).current(),
            final(self).gate() == old(self).gate(),
            final(self).held(message@.src_node_id) == old(self).held(message@.src_node_id).push(
                message@,
            ),
            forall|other: Seq<char>|
                other != message@.src_node_id ==> #[trigger] final(self).held(other) == old(
                    self,
                ).held(other),
    {
        let ghost before = self.batches;
        let ghost src = message@.src_node_id;
        self.batches.push(message);
        proof {
            assert forall|other: Seq<char>| other != src implies #[trigger] self.held(other)
                == old(self).held(other) by {
                assert(self.batches.held(other) == before.held(other));
            }
        }
    }

    /// Lets a node's messages wait for the end of the quantum.
    pub fn hold_all(&mut self, node: &str, messages: Vec<RelayMessage>)
        requires
            old(self).wf(),
        ensures
            final(self).wf(),
            final(self).current() == old(self).current(),
            final(self).gate() == old(self).gate(),
            final(self).held(node@) == old(self).held(node@) + sorting::views(messages@),
            forall|other: Seq<char>|
                other != node@ ==> #[trigger] final(self).held(other) == old(self).held(other),
    {
        let ghost before = self.batches;
        self.batches.append(node, messages);
        proof {
            assert forall|other: Seq<char>| other != node@ implies #[trigger] self.held(other)
                == old(self).held(other) by {
                assert(self.batches.held(other) == before.held(other));
            }
        }
    }

    /// Takes a node's word that it is done. What waited of it goes to the barrier; where it is the
    /// last node, the next quantum starts.
    pub fn on_done(&mut self, node: &str, payload: &[u8]) -> (r: QuantumEnd)
        requires
            old(self).wf(),
            old(self).current() < u64::MAX,
        ensures
            final(self).wf(),
            final(self).held(node@) == Seq::<RelayView>::empty(),
            forall|other: Seq<char>|
                other != node@ ==> #[trigger] final(self).held(other) == old(self).held(other),
            ({
                let gate = old(self).gate();
                let current = old(self).current();
                let sent = old(self).held(node@);
                let quantum = relay::done_quantum_of(payload@);
                match reach::node_number(node@) {
                    Some(id) if all_numbered(sent) => match refusal(gate, id, quantum, current) {
                        Some(e) => {
                            &&& r == QuantumEnd::Refused(e)
                            &&& final(self).gate() == gate
                            &&& final(self).current() == current
                        },
                        None => {
                            let after = barrier::with_done(gate, id as int, envelopes_of(sent));
                            if barrier::all_set(after.done) {
                                &&& r matches QuantumEnd::Complete { messages, next_quantum }
                                &&& sorting::views(messages@) == messages_of(
                                    sorting::stable_sort(after.buffer),
                                )
                                &&& next_quantum == current + 1
                                &&& final(self).gate() == barrier::open_barrier::<EnvelopeView>(
                                    gate.done.len(),
                                    gate.limit,
                                )
                                &&& final(self).current() == current + 1
                            } else {
                                &&& r is Waiting
                                &&& final(self).gate() == after
                                &&& final(self).current() == current
                            }
                        },
                    },
                    _ => {
                        &&& r is Unnumbered
                        &&& final(self).gate() == gate
                        &&& final(self).current() == current
                    },
                }
            }),
    {
        let ghost before = self.batches;
        let messages = self.batches.take(node);
        proof {
            assert forall|other: Seq<char>| other != node@ implies #[trigger] self.held(other)
                == old(self).held(other) by {
                assert(self.batches.held(other) == before.held(other));
            }
        }
        let quantum: u64 = done_quantum(payload);
        match (number_of(node), to_envelopes(&messages)) {
            (Some(id), Some(envelopes)) => {
                match self.barrier.submit_done(id, quantum, self.current_quantum, envelopes) {
                    Ok(Some(sorted)) => {
                        self.current_quantum = self.current_quantum + 1;
                        QuantumEnd::Complete {
                            messages: to_messages(&sorted),
                            next_quantum: self.current_quantum,
                        }
                    },
                    Ok(None) => QuantumEnd::Waiting,
                    Err(e) => QuantumEnd::Refused(e),
                }
            },
            _ => QuantumEnd::Unnumbered,
        }
    }
}

} // verus!
