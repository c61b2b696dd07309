//! The quantum barrier: it collects the messages of one quantum until every node is done.
use vstd::prelude::*;

use crate::deterministic_coordinator::topology;
use crate::deterministic_coordinator::topology::Protocol;
use crate::sorting;
use crate::sorting::{sort_stable, Ranked, Sortable, StrictlyRanked};

verus! {

/// A message between nodes. The fields stand in the order by which messages are sorted.
#[derive(Debug, PartialEq, Eq, PartialOrd, Ord)]
pub struct CoordMessage {
    pub delivery_vtime_ns: u64,
    pub src_node_id: u32,
    pub dst_node_id: u32,
    pub sequence_number: u64,
    pub protocol: Protocol,
    pub payload: Vec<u8>,
}

#[verifier::ext_equal]
pub struct CoordMessageView {
    pub delivery_vtime_ns: u64,
    pub src_node_id: u32,
    pub dst_node_id: u32,
    pub sequence_number: u64,
    pub protocol: Protocol,
    pub payload: Seq<u8>,
}

impl View for CoordMessage {
    type V = CoordMessageView;

    open spec fn view(&self) -> CoordMessageView {
        CoordMessageView {
            delivery_vtime_ns: self.delivery_vtime_ns,
            src_node_id: self.src_node_id,
            dst_node_id: self.dst_node_id,
            sequence_number: self.sequence_number,
            protocol: self.protocol,
            payload: self.payload@,
        }
    }
}

impl Clone for CoordMessage {
    fn clone(&self) -> (r: Self)
        ensures
            r@ == self@,
    {
        let payload = self.payload.clone();
        proof {
            assert(payload@ =~= self.payload@);
        }
        CoordMessage {
            delivery_vtime_ns: self.delivery_vtime_ns,
            src_node_id: self.src_node_id,
            dst_node_id: self.dst_node_id,
            sequence_number: self.sequence_number,
            protocol: self.protocol,
            payload,
        }
    }
}

/// Byte strings in lexicographic order, from index `i` on.
pub open spec fn bytes_le(a: Seq<u8>, b: Seq<u8>, i: int) -> bool
    decreases a.len() - i,
{
    if i < 0 || i >= a.len() {
        true
    } else if i >= b.len() {
        false
    } else if a[i] != b[i] {
        a[i] < b[i]
    } else {
        bytes_le(a, b, i + 1)
    }
}

proof fn lemma_bytes_le_total(a: Seq<u8>, b: Seq<u8>, i: int)
    requires
        0 <= i,
    ensures
        bytes_le(a, b, i) || bytes_le(b, a, i),
    decreases a.len() - i,
{
    if i < a.len() && i < b.len() && a[i] == b[i] {
        lemma_bytes_le_total(a, b, i + 1);
    }
}

proof fn lemma_bytes_le_transitive(a: Seq<u8>, b: Seq<u8>, c: Seq<u8>, i: int)
    requires
        0 <= i,
        bytes_le(a, b, i),
        bytes_le(b, c, i),
    ensures
        bytes_le(a, c, i),
    decreases a.len() - i,
{
    if i < a.len() && i < b.len() && i < c.len() && a[i] == b[i] && b[i] == c[i] {
        lemma_bytes_le_transitive(a, b, c, i + 1);
    }
}

proof fn lemma_bytes_le_antisymmetric(a: Seq<u8>, b: Seq<u8>, i: int)
    requires
        0 <= i <= a.len(),
        i <= b.len(),
        bytes_le(a, b, i),
        bytes_le(b, a, i),
        a.take(i) == b.take(i),
    ensures
        a == b,
    decreases a.len() - i,
{
    if i < a.len() && i < b.len() {
        assert(a.take(i + 1) =~= a.take(i).push(a[i]));
        assert(b.take(i + 1) =~= b.take(i).push(b[i]));
        lemma_bytes_le_antisymmetric(a, b, i + 1);
    } else {
        assert(a =~= a.take(i));
        assert(b =~= b.take(i));
    }
}

fn bytes_not_after(a: &Vec<u8>, b: &Vec<u8>) -> (r: bool)
    ensures
        r == bytes_le(a@, b@, 0),
{
    let mut i: usize = 0;
    while i < a.len()
        invariant
            i <= a@.len(),
            bytes_le(a@, b@, 0) == bytes_le(a@, b@, i as int),
        decreases a@.len() - i,
    {
        if i >= b.len() {
            return false;
        }
        if a[i] != b[i] {
            return a[i] < b[i];
        }
        i += 1;
    }
    true
}

/// The canonical order: by virtual time, source, destination, sequence number, protocol and
/// payload.
impl Ranked for CoordMessageView {
    open spec fn rank_le(self, other: Self) -> bool {
        if self.delivery_vtime_ns != other.delivery_vtime_ns {
            self.delivery_vtime_ns < other.delivery_vtime_ns
        } else if self.src_node_id != other.src_node_id {
            self.src_node_id < other.src_node_id
        } else if self.dst_node_id != other.dst_node_id {
            self.dst_node_id < other.dst_node_id
        } else if self.sequence_number != other.sequence_number {
            self.sequence_number < other.sequence_number
        } else if self.protocol != other.protocol {
            topology::protocol_rank(self.protocol)
                < topology::protocol_rank(other.protocol)
        } else {
            bytes_le(self.payload, other.payload, 0)
        }
    }

    proof fn rank_total(a: Self, b: Self) {
        lemma_bytes_le_total(a.payload, b.payload, 0);
    }

    proof fn rank_transitive(a: Self, b: Self, c: Self) {
        if bytes_le(a.payload, b.payload, 0) && bytes_le(b.payload, c.payload, 0) {
            lemma_bytes_le_transitive(a.payload, b.payload, c.payload, 0);
        }
    }
}

impl StrictlyRanked for CoordMessageView {
    proof fn rank_antisymmetric(a: Self, b: Self) {
        assert(a.payload.take(0) =~= b.payload.take(0));
        lemma_bytes_le_antisymmetric(a.payload, b.payload, 0);
    }
}

impl Sortable for CoordMessage {
    fn not_after(&self, other: &Self) -> (r: bool) {
        if self.delivery_vtime_ns != other.delivery_vtime_ns {
            self.delivery_vtime_ns < other.delivery_vtime_ns
        } else if self.src_node_id != other.src_node_id {
            self.src_node_id < other.src_node_id
        } else if self.dst_node_id != other.dst_node_id {
            self.dst_node_id < other.dst_node_id
        } else if self.sequence_number != other.sequence_number {
            self.sequence_number < other.sequence_number
        } else if self.protocol != other.protocol {
            self.protocol.rank() < other.protocol.rank()
        } else {
            bytes_not_after(&self.payload, &other.payload)
        }
    }
}

/// Why the barrier refused a submission, or stopped waiting.
#[derive(Debug, Clone, Copy, PartialEq, Eq, Structural)]
pub enum BarrierError {
    Timeout,
    DuplicateDone,
    NodeIndexOutOfBounds(u32),
    QuantumMismatch { expected: u64, got: u64 },
}

/// How many of the flags are set.
pub open spec fn count_set(flags: Seq<bool>) -> nat
    decreases flags.len(),
{
    if flags.len() == 0 {
        0
    } else {
        count_set(flags.drop_last()) + if flags.last() { 1nat } else { 0nat }
    }
}

pub open spec fn all_set(flags: Seq<bool>) -> bool {
    forall|i: int| 0 <= i < flags.len() ==> #[trigger] flags[i]
}

/// `n` flags, none of them set.
pub open spec fn none_set(n: nat) -> Seq<bool> {
    Seq::new(n, |i: int| false)
}

pub proof fn lemma_count_set(flags: Seq<bool>)
    ensures
        count_set(flags) <= flags.len(),
        count_set(flags) == flags.len() <==> all_set(flags),
    decreases flags.len(),
{
    if flags.len() > 0 {
        let front = flags.drop_last();
        lemma_count_set(front);
        assert(flags[flags.len() - 1] == flags.last());
        assert(forall|i: int| 0 <= i < front.len() ==> front[i] == flags[i]);
        if all_set(flags) {
            assert(all_set(front));
        }
        if count_set(flags) == flags.len() {
            assert forall|i: int| 0 <= i < flags.len() implies #[trigger] flags[i] by {
                if i < front.len() {
                    assert(front[i]);
                }
            }
        }
    }
}

pub proof fn lemma_count_set_update(flags: Seq<bool>, k: int)
    requires
        0 <= k < flags.len(),
        !flags[k],
    ensures
        count_set(flags.update(k, true)) == count_set(flags) + 1,
    decreases flags.len(),
{
    let next = flags.update(k, true);
    if k == flags.len() - 1 {
        assert(next.drop_last() =~= flags.drop_last());
    } else {
        lemma_count_set_update(flags.drop_last(), k);
        assert(next.drop_last() =~= flags.drop_last().update(k, true));
    }
}

pub proof fn lemma_count_none_set(n: nat)
    ensures
        count_set(none_set(n)) == 0,
    decreases n,
{
    if n > 0 {
        lemma_count_none_set((n - 1) as nat);
        assert(none_set(n).drop_last() =~= none_set((n - 1) as nat));
    }
}

/// `n` flags, none of them set.
pub(crate) fn clear_flags(n: usize) -> (flags: Vec<bool>)
    ensures
        flags@ == none_set(n as nat),
{
    let mut flags: Vec<bool> = Vec::new();
    while flags.len() < n
        invariant
            flags@.len() <= n,
            forall|i: int| 0 <= i < flags@.len() ==> !#[trigger] flags@[i],
        decreases n - flags@.len(),
    {
        flags.push(false);
    }
    proof {
        assert(flags@ =~= none_set(n as nat));
    }
    flags
}

/// What a node's messages of one quantum come to: sorted, and no more of them than the limit.
pub open spec fn admitted<V: Ranked>(messages: Seq<V>, limit: nat) -> Seq<V> {
    let sorted = sorting::stable_sort(messages);
    if sorted.len() > limit {
        sorted.take(limit as int)
    } else {
        sorted
    }
}

/// Sorts first, so that what is cut off does not depend on the order of arrival.
pub(crate) fn within_limit<T: Sortable>(messages: Vec<T>, limit: usize) -> (r: Vec<T>) where T::V: Ranked
    ensures
        sorting::views(r@) == admitted(sorting::views(messages@), limit as nat),
{
    let mut sorted = sort_stable(messages);
    let ghost all = sorting::views(sorted@);
    if sorted.len() > limit {
        sorted.truncate(limit);
        proof {
            assert(sorting::views(sorted@) =~= all.take(limit as int));
        }
    }
    sorted
}

/// Something that a barrier can hold: it can be sorted and copied.
pub trait Held: Sortable where Self::V: Ranked {
    fn duplicate(&self) -> (r: Self)
        ensures
            r@ == self@,
    ;
}

impl Held for CoordMessage {
    fn duplicate(&self) -> (r: Self) {
        self.clone()
    }
}

/// The barrier of one quantum.
pub struct QuantumBarrier<T> {
    n_nodes: usize,
    max_messages_per_node: usize,
    done_count: usize,
    message_buffer: Vec<T>,
    done_nodes: Vec<bool>,
}

#[verifier::ext_equal]
pub struct BarrierView<V> {
    pub limit: nat,
    /// Which nodes are done; one flag for each node.
    pub done: Seq<bool>,
    /// What the nodes that are done have sent.
    pub buffer: Seq<V>,
}

/// The barrier at the start of a quantum.
pub open spec fn open_barrier<V>(n_nodes: nat, limit: nat) -> BarrierView<V> {
    BarrierView { limit, done: none_set(n_nodes), buffer: Seq::empty() }
}

/// The barrier once `node` has handed in `messages`, before it is released.
pub open spec fn with_done<V: Ranked>(
    b: BarrierView<V>,
    node: int,
    messages: Seq<V>,
) -> BarrierView<V> {
    BarrierView {
        limit: b.limit,
        done: b.done.update(node, true),
        buffer: b.buffer + admitted(messages, b.limit),
    }
}

impl<T: View> View for QuantumBarrier<T> {
    type V = BarrierView<T::V>;

    closed spec fn view(&self) -> BarrierView<T::V> {
        BarrierView {
            limit: self.max_messages_per_node as nat,
            done: self.done_nodes@,
            buffer: sorting::views(self.message_buffer@),
        }
    }
}

impl<T: Held> QuantumBarrier<T> where T::V: Ranked {
    /// The counter counts the flags, and a full barrier has been released.
    pub closed spec fn wf(&self) -> bool {
        &&& self.done_nodes@.len() == self.n_nodes
        &&& self.done_count == count_set(self.done_nodes@)
        &&& self.done_count < self.n_nodes || self.n_nodes == 0
    }

    /// A barrier for `n_nodes` nodes, none of them done.
    pub fn new(n_nodes: usize, max_messages_per_node: usize) -> (b: Self)
        ensures
            b.wf(),
            b@ == open_barrier::<T::V>(n_nodes as nat, max_messages_per_node as nat),
    {
        let b = QuantumBarrier {
            n_nodes,
            max_messages_per_node,
            done_count: 0,
            message_buffer: Vec::new(),
            done_nodes: clear_flags(n_nodes),
        };
        proof {
            lemma_count_none_set(n_nodes as nat);
            assert(b@.buffer =~= Seq::empty());
        }
        b
    }

    /// Marks `node_id` as done with `quantum` and takes its messages. The last node to be done
    /// gets the messages of all nodes, sorted, and opens the barrier for the next quantum.
    pub fn submit_done(
        &mut self,
        node_id: u32,
        quantum: u64,
        expected_quantum: u64,
        messages: Vec<T>,
    ) -> (r: Result<Option<Vec<T>>, BarrierError>)
        requires
            old(self).wf(),
        ensures
            final(self).wf(),
            ({
                let before = old(self)@;
                let n = before.done.len();
                let after = with_done(before, node_id as int, sorting::views(messages@));
                if quantum != expected_quantum {
                    &&& r == Err::<Option<Vec<T>>, BarrierError>(
                        (BarrierError::QuantumMismatch { expected: expected_quantum, got: quantum }),
                    )
                    &&& final(self)@ == before
                } else if node_id >= n {
                    &&& r == Err::<Option<Vec<T>>, BarrierError>(
                        BarrierError::NodeIndexOutOfBounds(node_id),
                    )
                    &&& final(self)@ == before
                } else if before.done[node_id as int] {
                    &&& r == Err::<Option<Vec<T>>, BarrierError>(
                        BarrierError::DuplicateDone,
                    )
                    &&& final(self)@ == before
                } else if all_set(after.done) {
                    &&& r matches Ok(Some(released))
                    &&& sorting::views(released@) == sorting::stable_sort(after.buffer)
                    &&& final(self)@ == open_barrier::<T::V>(n, before.limit)
                } else {
                    &&& r matches Ok(None)
                    &&& final(self)@ == after
                }
            }),
    {
        if quantum != expected_quantum {
            return Err(BarrierError::QuantumMismatch { expected: expected_quantum, got: quantum });
        }
        if node_id as usize >= self.n_nodes {
            return Err(BarrierError::NodeIndexOutOfBounds(node_id));
        }
        let index: usize = node_id as usize;
        if self.done_nodes[index] {
            return Err(BarrierError::DuplicateDone);
        }
        proof {
            lemma_count_set_update(self.done_nodes@, index as int);
            lemma_count_set(self.done_nodes@.update(index as int, true));
        }
        let ghost before = self@;
        let ghost after = with_done(self@, node_id as int, sorting::views(messages@));
        let mut taken = within_limit(messages, self.max_messages_per_node);
        self.done_nodes[index] = true;
        let ghost taken_view = sorting::views(taken@);
        self.message_buffer.append(&mut taken);
        proof {
            assert(sorting::views(self.message_buffer@) =~= before.buffer + taken_view);
        }
        self.done_count = self.done_count + 1;
        if self.done_count == self.n_nodes {
            let mut buffer: Vec<T> = Vec::new();
            std::mem::swap(&mut buffer, &mut self.message_buffer);
            let released = sort_stable(buffer);
            self.done_count = 0;
            self.done_nodes = clear_flags(self.n_nodes);
            proof {
                lemma_count_none_set(self.n_nodes as nat);
                assert(self@.buffer =~= Seq::empty());
            }
            Ok(Some(released))
        } else {
            Ok(None)
        }
    }

    /// Opens the barrier again, whatever it holds.
    pub fn reset(&mut self)
        requires
            old(self).wf(),
        ensures
            final(self).wf(),
            final(self)@ == open_barrier::<T::V>(old(self)@.done.len(), old(self)@.limit),
    {
        self.done_count = 0;
        self.message_buffer = Vec::new();
        self.done_nodes = clear_flags(self.n_nodes);
        proof {
            lemma_count_none_set(self.n_nodes as nat);
            assert(self@.buffer =~= Seq::empty());
        }
    }

    /// Whether no node is left to wait for.
    pub fn all_done(&self) -> (r: bool)
        requires
            self.wf(),
        ensures
            r == all_set(self@.done),
    {
        proof {
            lemma_count_set(self.done_nodes@);
        }
        self.done_count == self.n_nodes
    }

    /// What the wait for the last node comes to. `timed_out` says how the wait on the condition
    /// ended; it is not asked where there is no node to wait for.
    pub fn wait_for_all(&self, timed_out: bool) -> (r: Result<Vec<T>, BarrierError>)
        requires
            self.wf(),
        ensures
            if !all_set(self@.done) && timed_out {
                r == Err::<Vec<T>, BarrierError>(BarrierError::Timeout)
            } else {
                r matches Ok(messages) && sorting::views(messages@) == sorting::stable_sort(
                    self@.buffer,
                )
            },
    {
        if !self.all_done() && timed_out {
            return Err(BarrierError::Timeout);
        }
        let mut copy: Vec<T> = Vec::new();
        let mut i: usize = 0;
        while i < self.message_buffer.len()
            invariant
                i <= self.message_buffer@.len(),
                copy@.len() == i,
                forall|k: int| 0 <= k < i ==> (#[trigger] copy@[k])@ == self.message_buffer@[k]@,
            decreases self.message_buffer@.len() - i,
        {
            let message = self.message_buffer[i].duplicate();
            copy.push(message);
            i += 1;
        }
        proof {
            assert(sorting::views(copy@) =~= self@.buffer);
        }
        Ok(sort_stable(copy))
    }
}

/// What a node's excess is cut to does not depend on the order in which its messages came.
pub proof fn law_admission_ignores_arrival_order(
    a: Seq<CoordMessageView>,
    b: Seq<CoordMessageView>,
    limit: nat,
)
    requires
        a.to_multiset() == b.to_multiset(),
    ensures
        admitted(a, limit) == admitted(b, limit),
{
    sorting::law_sort_ignores_arrival_order(a, b);
}

} // verus!
